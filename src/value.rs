//! Already-parsed CSS values, as the matcher receives them.
use vstd::prelude::*;

verus! {

broadcast use {vstd::std_specs::vec::group_vec_axioms, vstd::seq::group_seq_axioms};

/// Thousandths in one unit of a [`Fixed`] number.
pub const FIXED_SCALE: i64 = 1000;

/// A decimal number held exactly, in thousandths (`1.5` is `Fixed { milli: 1500 }`).
#[derive(Clone, Copy, Debug, PartialEq, Eq, Structural)]
pub struct Fixed {
    pub milli: i64,
}

impl Fixed {
    /// The whole number `n`.
    pub fn from_int(n: i32) -> (r: Fixed)
        ensures
            r.milli == n * FIXED_SCALE,
    {
        Fixed { milli: n as i64 * FIXED_SCALE }
    }

    /// The number `milli / 1000`.
    pub fn from_milli(milli: i64) -> (r: Fixed)
        ensures
            r.milli == milli,
    {
        Fixed { milli }
    }

    /// True when the number has no fractional part.
    pub open spec fn spec_is_integer(self) -> bool {
        self.milli % FIXED_SCALE == 0
    }

    /// True when the number has no fractional part.
    pub fn is_integer(&self) -> (r: bool)
        ensures
            r == self.spec_is_integer(),
    {
        self.milli % FIXED_SCALE == 0
    }
}

/// An RGBA color.
#[derive(Clone, Copy, Debug, PartialEq, Eq, Structural)]
pub struct RgbColor {
    pub r: u8,
    pub g: u8,
    pub b: u8,
    pub a: u8,
}

/// A CSS value term, or a list of them, produced by the value parser.
#[derive(Debug)]
pub enum CssValue {
    /// The keyword `none`.
    NoneKeyword,
    /// The keyword `initial`.
    Initial,
    /// The keyword `inherit`.
    Inherit,
    /// A comma between list items.
    Comma,
    /// The unitless number zero.
    Zero,
    /// A plain number.
    Number(Fixed),
    /// A percentage (`50%` is `Percentage(50)`).
    Percentage(Fixed),
    /// A number with a unit (`10px`).
    Unit(Fixed, String),
    /// A keyword or a string.
    String(String),
    /// A color.
    Color(RgbColor),
    /// A function call with its arguments.
    Function(String, Vec<CssValue>),
    /// An ordered list of terms.
    List(Vec<CssValue>),
}

/// The terms that a value offers to the matcher: the items of a list, or the value alone.
pub open spec fn terms_of(v: CssValue) -> Seq<CssValue> {
    match v {
        CssValue::List(items) => items@,
        _ => seq![v],
    }
}

/// Two values are the same: same variant, same numbers and texts, same items in order.
pub open spec fn same_value(a: CssValue, b: CssValue) -> bool
    decreases a, 0nat,
{
    match a {
        CssValue::Function(n1, x) => match b {
            CssValue::Function(n2, y) => n1@ == n2@ && x@.len() == y@.len() && same_prefix(x@, y@, x@.len()),
            _ => false,
        },
        CssValue::List(x) => match b {
            CssValue::List(y) => x@.len() == y@.len() && same_prefix(x@, y@, x@.len()),
            _ => false,
        },
        CssValue::Unit(n1, u1) => match b {
            CssValue::Unit(n2, u2) => n1 == n2 && u1@ == u2@,
            _ => false,
        },
        CssValue::String(s1) => match b {
            CssValue::String(s2) => s1@ == s2@,
            _ => false,
        },
        _ => a == b,
    }
}

/// The first `k` items of `x` and `y` are the same values.
pub open spec fn same_prefix(x: Seq<CssValue>, y: Seq<CssValue>, k: nat) -> bool
    decreases x, k,
{
    &&& k <= x.len()
    &&& k <= y.len()
    &&& (k > 0 ==> same_value(x[k - 1], y[k - 1]) && same_prefix(x, y, (k - 1) as nat))
}

proof fn lemma_same_prefix_extend(x: Seq<CssValue>, y: Seq<CssValue>, z: Seq<CssValue>, k: nat)
    requires
        same_prefix(x, y, k),
        k <= z.len(),
        forall|i: int| 0 <= i < k ==> z[i] == y[i],
    ensures
        same_prefix(x, z, k),
    decreases k,
{
    if k > 0 {
        lemma_same_prefix_extend(x, y, z, (k - 1) as nat);
    }
}

/// Number of terms that `v` offers to the matcher.
pub fn term_count(v: &CssValue) -> (r: usize)
    ensures
        r == terms_of(*v).len(),
{
    match v {
        CssValue::List(items) => items.len(),
        _ => 1,
    }
}

/// The term at position `i` of `v`.
pub fn term_at(v: &CssValue, i: usize) -> (r: &CssValue)
    requires
        i < terms_of(*v).len(),
    ensures
        *r == terms_of(*v)[i as int],
{
    match v {
        CssValue::List(items) => &items[i],
        _ => v,
    }
}

impl Clone for CssValue {
    fn clone(&self) -> (r: CssValue)
        ensures
            same_value(*self, r),
    {
        clone_value(self)
    }
}

/// A copy of `v`.
pub fn clone_value(v: &CssValue) -> (r: CssValue)
    ensures
        same_value(*v, r),
    decreases v,
{
    match v {
        CssValue::NoneKeyword => CssValue::NoneKeyword,
        CssValue::Initial => CssValue::Initial,
        CssValue::Inherit => CssValue::Inherit,
        CssValue::Comma => CssValue::Comma,
        CssValue::Zero => CssValue::Zero,
        CssValue::Number(n) => CssValue::Number(*n),
        CssValue::Percentage(n) => CssValue::Percentage(*n),
        CssValue::Unit(n, u) => CssValue::Unit(*n, u.clone()),
        CssValue::String(s) => CssValue::String(s.clone()),
        CssValue::Color(c) => CssValue::Color(*c),
        CssValue::Function(name, args) => {
            let copied = clone_values(args);
            let r = CssValue::Function(name.clone(), copied);
            r
        },
        CssValue::List(items) => {
            let copied = clone_values(items);
            CssValue::List(copied)
        },
    }
}

/// A copy of each value of `vs`, in order.
pub fn clone_values(vs: &Vec<CssValue>) -> (r: Vec<CssValue>)
    ensures
        r@.len() == vs@.len(),
        same_prefix(vs@, r@, vs@.len()),
    decreases vs,
{
    let mut out: Vec<CssValue> = Vec::new();
    let mut k: usize = 0;
    while k < vs.len()
        invariant
            k <= vs@.len(),
            out@.len() == k,
            same_prefix(vs@, out@, k as nat),
        decreases vs@.len() - k,
    {
        let c = clone_value(&vs[k]);
        let ghost before = out@;
        out.push(c);
        proof {
            lemma_same_prefix_extend(vs@, before, out@, k as nat);
        }
        k = k + 1;
    }
    out
}

} // verus!
