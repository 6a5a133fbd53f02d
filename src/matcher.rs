//! Matching of CSS values against compiled grammars.
//!
//! The positions at which a component may stop, when it starts at position `i` of a
//! sequence of `n` terms, form a set; it is held as a sequence of `n + 1` flags, one
//! per position `0..=n`. A value matches a grammar when the root component, started
//! at `0`, may stop at `n`: some way of reading the grammar consumes every term.
use vstd::prelude::*;
use crate::syntax::{
    named_index, Named,
    lemma_models_len, Combinator, ComponentKind, Multiplier, NumRange, ScalarKind, Syn,
    SynKind, SyntaxComponent, SyntaxTree,
};
use crate::text::{ci_eq, str_ci_eq};
use crate::definitions::{
    lemma_table_pairs, scalar_kind_named, scalar_kind_of, scope_of, FunctionDefinition, SyntaxDefinition,
};
use crate::table::Table;
use crate::value::{clone_value, same_value, terms_of, CssValue, Fixed, FIXED_SCALE};

verus! {

broadcast use {vstd::std_specs::vec::group_vec_axioms, vstd::seq::group_seq_axioms};

/// Most terms in one sequence that the matcher takes; a longer one is rejected.
pub const MAX_TERMS: usize = 0x1000_0000;

/// No position of `0..=n`.
pub open spec fn no_position(n: int) -> Seq<bool> {
    Seq::new((n + 1) as nat, |j: int| false)
}

/// Position `p` alone, among `0..=n`.
pub open spec fn only_position(n: int, p: int) -> Seq<bool> {
    Seq::new((n + 1) as nat, |j: int| j == p)
}

/// The positions that are in `a` or in `b`.
pub open spec fn either(a: Seq<bool>, b: Seq<bool>) -> Seq<bool> {
    Seq::new(a.len(), |j: int| a[j] || b[j])
}

/// The text that a term offers to a literal, if it is a keyword-like term.
pub open spec fn keyword_text(term: CssValue) -> Option<Seq<char>> {
    match term {
        CssValue::String(s) => Some(s@),
        CssValue::Comma => Some(","@),
        CssValue::Inherit => Some("inherit"@),
        CssValue::Initial => Some("initial"@),
        CssValue::NoneKeyword => Some("none"@),
        _ => None,
    }
}

/// A literal accepts a keyword-like term with the same text, ASCII case aside.
pub open spec fn literal_accepts(text: Seq<char>, term: CssValue) -> bool {
    match keyword_text(term) {
        Some(k) => ci_eq(k, text),
        None => false,
    }
}

/// The number lies within the bounds, both inclusive (bounds are in whole units).
pub open spec fn in_range(n: Fixed, range: Option<NumRange>) -> bool {
    match range {
        None => true,
        Some(r) => {
            &&& (match r.min {
                Some(lo) => n.milli >= lo * FIXED_SCALE,
                None => true,
            })
            &&& (match r.max {
                Some(hi) => n.milli <= hi * FIXED_SCALE,
                None => true,
            })
        },
    }
}

/// The unit names that each dimension kind accepts (compared without ASCII case).
pub open spec fn unit_accepted(kind: ScalarKind, u: Seq<char>) -> bool {
    match kind {
        ScalarKind::Length => ci_eq(u, "px"@) || ci_eq(u, "em"@) || ci_eq(u, "rem"@) || ci_eq(
            u,
            "ex"@,
        ) || ci_eq(u, "ch"@) || ci_eq(u, "lh"@) || ci_eq(u, "rlh"@) || ci_eq(u, "vw"@) || ci_eq(
            u,
            "vh"@,
        ) || ci_eq(u, "vmin"@) || ci_eq(u, "vmax"@) || ci_eq(u, "cm"@) || ci_eq(u, "mm"@)
            || ci_eq(u, "q"@) || ci_eq(u, "in"@) || ci_eq(u, "pt"@) || ci_eq(u, "pc"@),
        ScalarKind::Angle => ci_eq(u, "deg"@) || ci_eq(u, "grad"@) || ci_eq(u, "rad"@) || ci_eq(
            u,
            "turn"@,
        ),
        ScalarKind::Time => ci_eq(u, "s"@) || ci_eq(u, "ms"@),
        ScalarKind::Frequency => ci_eq(u, "hz"@) || ci_eq(u, "khz"@),
        ScalarKind::Resolution => ci_eq(u, "dpi"@) || ci_eq(u, "dpcm"@) || ci_eq(u, "dppx"@)
            || ci_eq(u, "x"@),
        ScalarKind::Flex => ci_eq(u, "fr"@),
        _ => false,
    }
}

/// The CSS named colors.
pub open spec fn named_color_names() -> Seq<&'static str> {
    seq![
        "aliceblue", "antiquewhite", "aqua", "aquamarine", "azure", "beige", "bisque", "black",
        "blanchedalmond", "blue", "blueviolet", "brown", "burlywood", "cadetblue",
        "chartreuse", "chocolate", "coral", "cornflowerblue", "cornsilk", "crimson", "cyan",
        "darkblue", "darkcyan", "darkgoldenrod", "darkgray", "darkgreen", "darkgrey",
        "darkkhaki", "darkmagenta", "darkolivegreen", "darkorange", "darkorchid", "darkred",
        "darksalmon", "darkseagreen", "darkslateblue", "darkslategray", "darkslategrey",
        "darkturquoise", "darkviolet", "deeppink", "deepskyblue", "dimgray", "dimgrey",
        "dodgerblue", "firebrick", "floralwhite", "forestgreen", "fuchsia", "gainsboro",
        "ghostwhite", "gold", "goldenrod", "gray", "green", "greenyellow", "grey", "honeydew",
        "hotpink", "indianred", "indigo", "ivory", "khaki", "lavender", "lavenderblush",
        "lawngreen", "lemonchiffon", "lightblue", "lightcoral", "lightcyan",
        "lightgoldenrodyellow", "lightgray", "lightgreen", "lightgrey", "lightpink",
        "lightsalmon", "lightseagreen", "lightskyblue", "lightslategray", "lightslategrey",
        "lightsteelblue", "lightyellow", "lime", "limegreen", "linen", "magenta", "maroon",
        "mediumaquamarine", "mediumblue", "mediumorchid", "mediumpurple", "mediumseagreen",
        "mediumslateblue", "mediumspringgreen", "mediumturquoise", "mediumvioletred",
        "midnightblue", "mintcream", "mistyrose", "moccasin", "navajowhite", "navy", "oldlace",
        "olive", "olivedrab", "orange", "orangered", "orchid", "palegoldenrod", "palegreen",
        "paleturquoise", "palevioletred", "papayawhip", "peachpuff", "peru", "pink", "plum",
        "powderblue", "purple", "rebeccapurple", "red", "rosybrown", "royalblue",
        "saddlebrown", "salmon", "sandybrown", "seagreen", "seashell", "sienna", "silver",
        "skyblue", "slateblue", "slategray", "slategrey", "snow", "springgreen", "steelblue",
        "tan", "teal", "thistle", "tomato", "turquoise", "violet", "wheat", "white",
        "whitesmoke", "yellow", "yellowgreen",
    ]
}

/// The CSS system colors.
pub open spec fn system_color_names() -> Seq<&'static str> {
    seq![
        "AccentColor", "AccentColorText", "ActiveText", "ButtonBorder", "ButtonFace",
        "ButtonText", "Canvas", "CanvasText", "Field", "FieldText", "GrayText", "Highlight",
        "HighlightText", "LinkText", "Mark", "MarkText", "SelectedItem", "SelectedItemText",
        "VisitedText",
    ]
}

/// `s` is one of `names`, ASCII case aside.
pub open spec fn listed_keyword(names: Seq<&'static str>, s: Seq<char>) -> bool {
    exists|i: int| 0 <= i < names.len() && ci_eq(s, #[trigger] names[i]@)
}

/// An identifier: not empty and not starting with a digit.
pub open spec fn is_ident(s: Seq<char>) -> bool {
    s.len() > 0 && !('0' <= s[0] && s[0] <= '9')
}

/// A scalar kind, with its optional bounds, accepts the term.
pub open spec fn scalar_accepts(kind: ScalarKind, range: Option<NumRange>, term: CssValue) -> bool {
    match kind {
        ScalarKind::Number => match term {
            CssValue::Number(n) => in_range(n, range),
            CssValue::Zero => in_range(Fixed { milli: 0 }, range),
            _ => false,
        },
        ScalarKind::Integer => match term {
            CssValue::Number(n) => n.spec_is_integer() && in_range(n, range),
            CssValue::Zero => in_range(Fixed { milli: 0 }, range),
            _ => false,
        },
        ScalarKind::Percentage => match term {
            CssValue::Percentage(n) => in_range(n, range),
            _ => false,
        },
        ScalarKind::Length => match term {
            CssValue::Unit(n, u) => unit_accepted(kind, u@) && in_range(n, range),
            CssValue::Zero => in_range(Fixed { milli: 0 }, range),
            _ => false,
        },
        ScalarKind::Angle | ScalarKind::Time | ScalarKind::Frequency | ScalarKind::Resolution
        | ScalarKind::Flex => match term {
            CssValue::Unit(n, u) => unit_accepted(kind, u@) && in_range(n, range),
            _ => false,
        },
        ScalarKind::String | ScalarKind::Url => term is String,
        ScalarKind::Ident | ScalarKind::CustomIdent => match term {
            CssValue::String(s) => is_ident(s@),
            _ => false,
        },
        ScalarKind::DashedIdent => match term {
            CssValue::String(s) => s@.len() >= 2 && s@[0] == '-' && s@[1] == '-',
            _ => false,
        },
        ScalarKind::HexColor => term is Color,
        ScalarKind::NamedColor => match term {
            CssValue::String(s) => listed_keyword(named_color_names(), s@),
            _ => false,
        },
        ScalarKind::SystemColor => match term {
            CssValue::String(s) => listed_keyword(system_color_names(), s@),
            _ => false,
        },
    }
}

/// Fewest and most occurrences that a multiplier allows on `n` terms, and whether
/// occurrences are separated by commas. Where there is no upper bound, `min + n + 1`
/// stands for it: an occurrence that consumes no term leaves the position where it was
/// and can be left out, so no match on `n` terms needs more.
pub open spec fn occurrence_bounds(m: Multiplier, n: int) -> (int, int, bool) {
    match m {
        Multiplier::Once => (1, 1, false),
        Multiplier::Optional => (0, 1, false),
        Multiplier::ZeroOrMore => (0, n + 1, false),
        Multiplier::OneOrMore => (1, n + 2, false),
        Multiplier::Range { min, max } => match max {
            Some(hi) => (
                min as int,
                if hi < min + n + 1 {
                    hi as int
                } else {
                    min + n + 1
                },
                false,
            ),
            None => (min as int, min + n + 1, false),
        },
        Multiplier::CommaSeparatedOneOrMore => (1, n + 2, true),
    }
}

/// The named grammars that a reference left in a tree re-enters when it is matched
/// (shared types first, then functions), and how many more times re-entering is
/// allowed on one path; a reference matches nothing once `depth` is spent.
pub struct Scope {
    pub syns: Seq<Named>,
    pub fns: Seq<Named>,
    pub depth: nat,
}

/// No named grammar to re-enter.
pub open spec fn no_scope() -> Scope {
    Scope { syns: Seq::empty(), fns: Seq::empty(), depth: 0 }
}

/// The grammar that the reference `name` re-enters, by shared type then function name.
pub open spec fn reentered(sc: Scope, name: Seq<char>, function_only: bool) -> Option<Syn> {
    if !function_only && named_index(sc.syns, name, 0) is Some {
        Some(sc.syns[named_index(sc.syns, name, 0)->0].1)
    } else if named_index(sc.fns, name, 0) is Some {
        Some(sc.fns[named_index(sc.fns, name, 0)->0].1)
    } else {
        None
    }
}

/// Where `c`, with its multiplier and its `!` flag, may stop when started at `i`.
pub open spec fn ends(sc: Scope, c: Syn, t: Seq<CssValue>, i: int) -> Seq<bool>
    decreases sc.depth, c, 6nat, 0nat, 0nat, 0nat,
{
    let (lo, hi, comma) = occurrence_bounds(c.multiplier, t.len() as int);
    let r = if hi >= 0 {
        occurrences_between(sc, c, t, i, comma, lo, hi as nat)
    } else {
        no_position(t.len() as int)
    };
    if c.non_empty && 0 <= i <= t.len() {
        r.update(i, false)
    } else {
        r
    }
}

/// Where `lo..=k` occurrences of `c` may stop.
pub open spec fn occurrences_between(
    sc: Scope,
    c: Syn,
    t: Seq<CssValue>,
    i: int,
    comma: bool,
    lo: int,
    k: nat,
) -> Seq<bool>
    decreases sc.depth, c, 4nat, k, 0nat, 0nat,
{
    let n = t.len() as int;
    if k < lo {
        no_position(n)
    } else if k == 0 {
        occurrences(sc, c, t, i, comma, 0)
    } else {
        either(occurrences_between(sc, c, t, i, comma, lo, (k - 1) as nat), occurrences(sc, c, t, i, comma, k))
    }
}

/// Where exactly `k` occurrences of `c` may stop (after the first, each one follows a
/// comma term when `comma` holds).
pub open spec fn occurrences(sc: Scope, c: Syn, t: Seq<CssValue>, i: int, comma: bool, k: nat) -> Seq<bool>
    decreases sc.depth, c, 3nat, k, 0nat, 0nat,
{
    let n = t.len() as int;
    if k == 0 {
        only_position(n, i)
    } else {
        one_more(sc, c, t, occurrences(sc, c, t, i, comma, (k - 1) as nat), comma && k >= 2, (n + 1) as nat)
    }
}

/// Where one more occurrence of `c` may stop, started from any of the first `m`
/// positions of `s` (after a comma term when `comma` holds).
pub open spec fn one_more(sc: Scope, c: Syn, t: Seq<CssValue>, s: Seq<bool>, comma: bool, m: nat) -> Seq<bool>
    decreases sc.depth, c, 2nat, m, 0nat, 0nat,
{
    let n = t.len() as int;
    if m == 0 {
        no_position(n)
    } else {
        let q = m - 1;
        let from_q = if s[q] {
            if !comma {
                once(sc, c, t, q)
            } else if q < n && t[q] is Comma {
                once(sc, c, t, q + 1)
            } else {
                no_position(n)
            }
        } else {
            no_position(n)
        };
        either(one_more(sc, c, t, s, comma, (m - 1) as nat), from_q)
    }
}

/// Where a single occurrence of `c`, multiplier aside, may stop when started at `i`.
pub open spec fn once(sc: Scope, c: Syn, t: Seq<CssValue>, i: int) -> Seq<bool>
    decreases sc.depth, c, 1nat, 0nat, 0nat, 0nat,
{
    let n = t.len() as int;
    match c.kind {
        SynKind::Literal(text) => if 0 <= i < n && literal_accepts(text, t[i]) {
            only_position(n, i + 1)
        } else {
            no_position(n)
        },
        SynKind::Scalar(kind, range) => if 0 <= i < n && scalar_accepts(kind, range, t[i]) {
            only_position(n, i + 1)
        } else {
            no_position(n)
        },
        SynKind::Function(name, args) => if 0 <= i < n && (match t[i] {
            CssValue::Function(f, a) => ci_eq(f@, name) && a@.len() < MAX_TERMS && ends(sc, 
                *args,
                a@,
                0,
            )[a@.len() as int],
            _ => false,
        }) {
            only_position(n, i + 1)
        } else {
            no_position(n)
        },
        SynKind::Group(ch, comb) => match comb {
            Combinator::AllInOrder => in_order(sc, c, t, i, ch.len()),
            Combinator::ExactlyOne => one_of(sc, c, t, i, ch.len()),
            Combinator::AllAnyOrder => any_order(sc, 
                c,
                t,
                i,
                Seq::new(ch.len(), |k: int| true),
                true,
                false,
                ch.len(),
            ),
            Combinator::OneOrMoreAnyOrder => any_order(sc, 
                c,
                t,
                i,
                Seq::new(ch.len(), |k: int| true),
                false,
                false,
                ch.len(),
            ),
        },
        SynKind::TypeReference(name, range) => match scalar_kind_named(name) {
            Some(kind) => if 0 <= i < n && scalar_accepts(kind, range, t[i]) {
                only_position(n, i + 1)
            } else {
                no_position(n)
            },
            None => match reentered(sc, name, false) {
                Some(g) => if sc.depth > 0 {
                    once(Scope { depth: (sc.depth - 1) as nat, ..sc }, g, t, i)
                } else {
                    no_position(n)
                },
                None => no_position(n),
            },
        },
        SynKind::FunctionReference(name) => match reentered(sc, name, true) {
            Some(g) => if sc.depth > 0 {
                once(Scope { depth: (sc.depth - 1) as nat, ..sc }, g, t, i)
            } else {
                no_position(n)
            },
            None => no_position(n),
        },
    }
}

/// Where the first `k` children of the group `c`, one after another, may stop.
pub open spec fn in_order(sc: Scope, c: Syn, t: Seq<CssValue>, i: int, k: nat) -> Seq<bool>
    decreases sc.depth, c, 0nat, k, 0nat, 0nat,
{
    let n = t.len() as int;
    match c.kind {
        SynKind::Group(ch, _) => if k == 0 {
            only_position(n, i)
        } else if k <= ch.len() {
            then_child(sc, ch[k - 1], t, in_order(sc, c, t, i, (k - 1) as nat), (n + 1) as nat)
        } else {
            no_position(n)
        },
        _ => no_position(n),
    }
}

/// Where `d` may stop, started from any of the first `m` positions of `s`.
pub open spec fn then_child(sc: Scope, d: Syn, t: Seq<CssValue>, s: Seq<bool>, m: nat) -> Seq<bool>
    decreases sc.depth, d, 7nat, m, 0nat, 0nat,
{
    let n = t.len() as int;
    if m == 0 {
        no_position(n)
    } else {
        let q = m - 1;
        either(
            then_child(sc, d, t, s, (m - 1) as nat),
            if s[q] {
                ends(sc, d, t, q)
            } else {
                no_position(n)
            },
        )
    }
}

/// Where one of the first `k` children of the group `c` may stop.
pub open spec fn one_of(sc: Scope, c: Syn, t: Seq<CssValue>, i: int, k: nat) -> Seq<bool>
    decreases sc.depth, c, 0nat, k, 0nat, 0nat,
{
    let n = t.len() as int;
    match c.kind {
        SynKind::Group(ch, _) => if k == 0 {
            no_position(n)
        } else if k <= ch.len() {
            either(one_of(sc, c, t, i, (k - 1) as nat), ends(sc, ch[k - 1], t, i))
        } else {
            no_position(n)
        },
        _ => no_position(n),
    }
}

/// No child is left to place.
pub open spec fn none_left(avail: Seq<bool>) -> bool {
    forall|k: int| 0 <= k < avail.len() ==> !avail[k]
}

/// Where the group `c` may stop, in any order, when the children flagged in `avail`
/// (`left` of them) are still to be placed, each at most once. With `all`, every
/// child must be placed; without it, placing stops after any child once `placed` holds.
pub open spec fn any_order(
    sc: Scope,
    c: Syn,
    t: Seq<CssValue>,
    i: int,
    avail: Seq<bool>,
    all: bool,
    placed: bool,
    left: nat,
) -> Seq<bool>
    decreases sc.depth, c, 0nat, left, 1nat, 0nat,
{
    let n = t.len() as int;
    let stop = if (all && none_left(avail)) || (!all && placed) {
        only_position(n, i)
    } else {
        no_position(n)
    };
    match c.kind {
        SynKind::Group(ch, _) => if left == 0 {
            stop
        } else {
            either(stop, place_next(sc, c, t, i, avail, all, left, ch.len()))
        },
        _ => stop,
    }
}

/// Where the group may stop when the next child placed is one of the first `k`
/// children still available.
pub open spec fn place_next(
    sc: Scope,
    c: Syn,
    t: Seq<CssValue>,
    i: int,
    avail: Seq<bool>,
    all: bool,
    left: nat,
    k: nat,
) -> Seq<bool>
    decreases sc.depth, c, 0nat, left, 0nat, k,
{
    let n = t.len() as int;
    match c.kind {
        SynKind::Group(ch, _) => if k == 0 || left == 0 || k > ch.len() {
            no_position(n)
        } else {
            let p = k - 1;
            either(
                place_next(sc, c, t, i, avail, all, left, (k - 1) as nat),
                if p < avail.len() && avail[p] {
                    after_placing(sc, 
                        c,
                        t,
                        ends(sc, ch[p], t, i),
                        avail.update(p, false),
                        all,
                        (left - 1) as nat,
                        (n + 1) as nat,
                    )
                } else {
                    no_position(n)
                },
            )
        },
        _ => no_position(n),
    }
}

/// Where the group may stop after a child that stopped at one of the first `m`
/// positions of `s`.
pub open spec fn after_placing(
    sc: Scope,
    c: Syn,
    t: Seq<CssValue>,
    s: Seq<bool>,
    avail: Seq<bool>,
    all: bool,
    left: nat,
    m: nat,
) -> Seq<bool>
    decreases sc.depth, c, 0nat, left, 2nat, m,
{
    let n = t.len() as int;
    if m == 0 {
        no_position(n)
    } else {
        let q = m - 1;
        either(
            after_placing(sc, c, t, s, avail, all, left, (m - 1) as nat),
            if s[q] {
                any_order(sc, c, t, q, avail, all, true, left)
            } else {
                no_position(n)
            },
        )
    }
}

/// The value matches the grammar: the root may stop after the last term.
pub open spec fn accepts(tree: SyntaxTree, v: CssValue) -> bool {
    accepts_model(tree.root.model(), v)
}

/// The value matches the grammar whose root is `root`, where no reference re-enters a
/// named grammar.
pub open spec fn accepts_model(root: Syn, v: CssValue) -> bool {
    accepts_in(no_scope(), root, v)
}

/// The value matches the grammar whose root is `root`, references re-entering the
/// named grammars of `sc`.
pub open spec fn accepts_in(sc: Scope, root: Syn, v: CssValue) -> bool {
    let t = terms_of(v);
    t.len() < MAX_TERMS && ends(sc, root, t, 0)[t.len() as int]
}

/// Relies on std::slice::from_ref: a slice of one item, that item.
#[verifier::external_body]
fn one_term(v: &CssValue) -> (r: &[CssValue])
    ensures
        r@ == seq![*v],
{
    std::slice::from_ref(v)
}

/// The grammar that the reference `name` re-enters, if the tables define it.
fn reentered_grammar<'a>(
    es: &'a Table<SyntaxDefinition>,
    ef: &'a Table<FunctionDefinition>,
    name: &str,
    function_only: bool,
) -> (r: Option<&'a SyntaxComponent>)
    ensures
        match reentered(scope_of(*es, *ef, 0), name@, function_only) {
            Some(g) => r is Some && r->0.model() == g,
            None => r is None,
        },
{
    proof {
        lemma_table_pairs(*es, *ef, name@);
        crate::table::lemma_index_from(es.entries@, name@, 0);
        crate::table::lemma_index_from(ef.entries@, name@, 0);
    }
    if !function_only {
        match es.get(name) {
            Some(d) => {
                return Some(&d.syntax.root);
            },
            None => {},
        }
    }
    match ef.get(name) {
        Some(d) => Some(&d.syntax.root),
        None => None,
    }
}

fn no_pos(n: usize) -> (r: Vec<bool>)
    requires
        n < MAX_TERMS,
    ensures
        r@ == no_position(n as int),
{
    let mut r: Vec<bool> = Vec::new();
    let mut j: usize = 0;
    while j <= n
        invariant
            n < MAX_TERMS,
            j <= n + 1,
            r@ == Seq::new(j as nat, |q: int| false),
        decreases n + 1 - j,
    {
        r.push(false);
        j = j + 1;
        assert(r@ =~= Seq::new(j as nat, |q: int| false));
    }
    r
}

fn only_pos(n: usize, p: usize) -> (r: Vec<bool>)
    requires
        n < MAX_TERMS,
    ensures
        r@ == only_position(n as int, p as int),
{
    let mut r: Vec<bool> = Vec::new();
    let mut j: usize = 0;
    while j <= n
        invariant
            n < MAX_TERMS,
            j <= n + 1,
            r@ == Seq::new(j as nat, |q: int| q == p),
        decreases n + 1 - j,
    {
        r.push(j == p);
        j = j + 1;
        assert(r@ =~= Seq::new(j as nat, |q: int| q == p));
    }
    r
}

fn join(a: &Vec<bool>, b: &Vec<bool>) -> (r: Vec<bool>)
    requires
        a@.len() == b@.len(),
    ensures
        r@ == either(a@, b@),
{
    let mut r: Vec<bool> = Vec::new();
    let mut j: usize = 0;
    while j < a.len()
        invariant
            a@.len() == b@.len(),
            j <= a@.len(),
            r@ == Seq::new(j as nat, |q: int| a@[q] || b@[q]),
        decreases a@.len() - j,
    {
        r.push(a[j] || b[j]);
        j = j + 1;
        assert(r@ =~= Seq::new(j as nat, |q: int| a@[q] || b@[q]));
    }
    assert(r@ =~= either(a@, b@));
    r
}

fn copy_flags(v: &Vec<bool>) -> (r: Vec<bool>)
    ensures
        r@ == v@,
{
    let mut r: Vec<bool> = Vec::new();
    let mut j: usize = 0;
    while j < v.len()
        invariant
            j <= v@.len(),
            r@ == v@.subrange(0, j as int),
        decreases v@.len() - j,
    {
        r.push(v[j]);
        j = j + 1;
        assert(r@ =~= v@.subrange(0, j as int));
    }
    assert(r@ =~= v@);
    r
}

fn keyword_accepts(text: &String, term: &CssValue) -> (r: bool)
    ensures
        r == literal_accepts(text@, *term),
{
    match term {
        CssValue::String(s) => str_ci_eq(s.as_str(), text.as_str()),
        CssValue::Comma => str_ci_eq(",", text.as_str()),
        CssValue::Inherit => str_ci_eq("inherit", text.as_str()),
        CssValue::Initial => str_ci_eq("initial", text.as_str()),
        CssValue::NoneKeyword => str_ci_eq("none", text.as_str()),
        _ => false,
    }
}

fn within(n: Fixed, range: Option<NumRange>) -> (r: bool)
    ensures
        r == in_range(n, range),
{
    match range {
        None => true,
        Some(r) => {
            let lo_ok = match r.min {
                Some(lo) => n.milli >= lo as i64 * FIXED_SCALE,
                None => true,
            };
            let hi_ok = match r.max {
                Some(hi) => n.milli <= hi as i64 * FIXED_SCALE,
                None => true,
            };
            lo_ok && hi_ok
        },
    }
}

fn unit_ok(kind: ScalarKind, u: &str) -> (r: bool)
    ensures
        r == unit_accepted(kind, u@),
{
    match kind {
        ScalarKind::Length => str_ci_eq(u, "px") || str_ci_eq(u, "em") || str_ci_eq(u, "rem")
            || str_ci_eq(u, "ex") || str_ci_eq(u, "ch") || str_ci_eq(u, "lh") || str_ci_eq(
            u,
            "rlh",
        ) || str_ci_eq(u, "vw") || str_ci_eq(u, "vh") || str_ci_eq(u, "vmin") || str_ci_eq(
            u,
            "vmax",
        ) || str_ci_eq(u, "cm") || str_ci_eq(u, "mm") || str_ci_eq(u, "q") || str_ci_eq(u, "in")
            || str_ci_eq(u, "pt") || str_ci_eq(u, "pc"),
        ScalarKind::Angle => str_ci_eq(u, "deg") || str_ci_eq(u, "grad") || str_ci_eq(u, "rad")
            || str_ci_eq(u, "turn"),
        ScalarKind::Time => str_ci_eq(u, "s") || str_ci_eq(u, "ms"),
        ScalarKind::Frequency => str_ci_eq(u, "hz") || str_ci_eq(u, "khz"),
        ScalarKind::Resolution => str_ci_eq(u, "dpi") || str_ci_eq(u, "dpcm") || str_ci_eq(
            u,
            "dppx",
        ) || str_ci_eq(u, "x"),
        ScalarKind::Flex => str_ci_eq(u, "fr"),
        _ => false,
    }
}

fn named_colors() -> (r: Vec<&'static str>)
    ensures
        r@ == named_color_names(),
{
    let r = vec![
        "aliceblue", "antiquewhite", "aqua", "aquamarine", "azure", "beige", "bisque", "black",
        "blanchedalmond", "blue", "blueviolet", "brown", "burlywood", "cadetblue",
        "chartreuse", "chocolate", "coral", "cornflowerblue", "cornsilk", "crimson", "cyan",
        "darkblue", "darkcyan", "darkgoldenrod", "darkgray", "darkgreen", "darkgrey",
        "darkkhaki", "darkmagenta", "darkolivegreen", "darkorange", "darkorchid", "darkred",
        "darksalmon", "darkseagreen", "darkslateblue", "darkslategray", "darkslategrey",
        "darkturquoise", "darkviolet", "deeppink", "deepskyblue", "dimgray", "dimgrey",
        "dodgerblue", "firebrick", "floralwhite", "forestgreen", "fuchsia", "gainsboro",
        "ghostwhite", "gold", "goldenrod", "gray", "green", "greenyellow", "grey", "honeydew",
        "hotpink", "indianred", "indigo", "ivory", "khaki", "lavender", "lavenderblush",
        "lawngreen", "lemonchiffon", "lightblue", "lightcoral", "lightcyan",
        "lightgoldenrodyellow", "lightgray", "lightgreen", "lightgrey", "lightpink",
        "lightsalmon", "lightseagreen", "lightskyblue", "lightslategray", "lightslategrey",
        "lightsteelblue", "lightyellow", "lime", "limegreen", "linen", "magenta", "maroon",
        "mediumaquamarine", "mediumblue", "mediumorchid", "mediumpurple", "mediumseagreen",
        "mediumslateblue", "mediumspringgreen", "mediumturquoise", "mediumvioletred",
        "midnightblue", "mintcream", "mistyrose", "moccasin", "navajowhite", "navy", "oldlace",
        "olive", "olivedrab", "orange", "orangered", "orchid", "palegoldenrod", "palegreen",
        "paleturquoise", "palevioletred", "papayawhip", "peachpuff", "peru", "pink", "plum",
        "powderblue", "purple", "rebeccapurple", "red", "rosybrown", "royalblue",
        "saddlebrown", "salmon", "sandybrown", "seagreen", "seashell", "sienna", "silver",
        "skyblue", "slateblue", "slategray", "slategrey", "snow", "springgreen", "steelblue",
        "tan", "teal", "thistle", "tomato", "turquoise", "violet", "wheat", "white",
        "whitesmoke", "yellow", "yellowgreen",
    ];
    assert(r@ =~= named_color_names());
    r
}

fn system_colors() -> (r: Vec<&'static str>)
    ensures
        r@ == system_color_names(),
{
    let r = vec![
        "AccentColor", "AccentColorText", "ActiveText", "ButtonBorder", "ButtonFace",
        "ButtonText", "Canvas", "CanvasText", "Field", "FieldText", "GrayText", "Highlight",
        "HighlightText", "LinkText", "Mark", "MarkText", "SelectedItem", "SelectedItemText",
        "VisitedText",
    ];
    assert(r@ =~= system_color_names());
    r
}

fn keyword_listed(names: &Vec<&'static str>, s: &str) -> (r: bool)
    ensures
        r == listed_keyword(names@, s@),
{
    let mut k: usize = 0;
    while k < names.len()
        invariant
            k <= names@.len(),
            forall|i: int| 0 <= i < k ==> !ci_eq(s@, #[trigger] names@[i]@),
        decreases names@.len() - k,
    {
        if str_ci_eq(s, names[k]) {
            return true;
        }
        k = k + 1;
    }
    false
}

/// True when the scalar kind, with its optional bounds, accepts the term.
pub fn scalar_matches(kind: ScalarKind, range: Option<NumRange>, term: &CssValue) -> (r: bool)
    ensures
        r == scalar_accepts(kind, range, *term),
{
    let zero = Fixed { milli: 0 };
    match kind {
        ScalarKind::Number => match term {
            CssValue::Number(n) => within(*n, range),
            CssValue::Zero => within(zero, range),
            _ => false,
        },
        ScalarKind::Integer => match term {
            CssValue::Number(n) => n.is_integer() && within(*n, range),
            CssValue::Zero => within(zero, range),
            _ => false,
        },
        ScalarKind::Percentage => match term {
            CssValue::Percentage(n) => within(*n, range),
            _ => false,
        },
        ScalarKind::Length => match term {
            CssValue::Unit(n, u) => unit_ok(kind, u.as_str()) && within(*n, range),
            CssValue::Zero => within(zero, range),
            _ => false,
        },
        ScalarKind::Angle | ScalarKind::Time | ScalarKind::Frequency | ScalarKind::Resolution
        | ScalarKind::Flex => match term {
            CssValue::Unit(n, u) => unit_ok(kind, u.as_str()) && within(*n, range),
            _ => false,
        },
        ScalarKind::String | ScalarKind::Url => match term {
            CssValue::String(_) => true,
            _ => false,
        },
        ScalarKind::Ident | ScalarKind::CustomIdent => match term {
            CssValue::String(s) => {
                let st = s.as_str();
                if st.unicode_len() == 0 {
                    false
                } else {
                    let c0 = st.get_char(0);
                    !('0' <= c0 && c0 <= '9')
                }
            },
            _ => false,
        },
        ScalarKind::DashedIdent => match term {
            CssValue::String(s) => {
                let st = s.as_str();
                st.unicode_len() >= 2 && st.get_char(0) == '-' && st.get_char(1) == '-'
            },
            _ => false,
        },
        ScalarKind::HexColor => match term {
            CssValue::Color(_) => true,
            _ => false,
        },
        ScalarKind::NamedColor => match term {
            CssValue::String(s) => keyword_listed(&named_colors(), s.as_str()),
            _ => false,
        },
        ScalarKind::SystemColor => match term {
            CssValue::String(s) => keyword_listed(&system_colors(), s.as_str()),
            _ => false,
        },
    }
}

fn all_available(len: usize) -> (r: Vec<bool>)
    ensures
        r@ == Seq::new(len as nat, |k: int| true),
{
    let mut r: Vec<bool> = Vec::new();
    let mut j: usize = 0;
    while j < len
        invariant
            j <= len,
            r@ == Seq::new(j as nat, |k: int| true),
        decreases len - j,
    {
        r.push(true);
        j = j + 1;
        assert(r@ =~= Seq::new(j as nat, |k: int| true));
    }
    r
}

fn nothing_left(avail: &Vec<bool>) -> (r: bool)
    ensures
        r == none_left(avail@),
{
    let mut j: usize = 0;
    while j < avail.len()
        invariant
            j <= avail@.len(),
            forall|k: int| 0 <= k < j ==> !avail@[k],
        decreases avail@.len() - j,
    {
        if avail[j] {
            return false;
        }
        j = j + 1;
    }
    true
}

fn bounds_of(m: Multiplier, n: usize) -> (r: (u64, u64, bool))
    requires
        n < MAX_TERMS,
    ensures
        (r.0 as int, r.1 as int, r.2) == occurrence_bounds(m, n as int),
{
    let n64 = n as u64;
    match m {
        Multiplier::Once => (1, 1, false),
        Multiplier::Optional => (0, 1, false),
        Multiplier::ZeroOrMore => (0, n64 + 1, false),
        Multiplier::OneOrMore => (1, n64 + 2, false),
        Multiplier::Range { min, max } => {
            let cap = min as u64 + n64 + 1;
            match max {
                Some(hi) => {
                    if (hi as u64) < cap {
                        (min as u64, hi as u64, false)
                    } else {
                        (min as u64, cap, false)
                    }
                },
                None => (min as u64, cap, false),
            }
        },
        Multiplier::CommaSeparatedOneOrMore => (1, n64 + 2, true),
    }
}

/// Where `c` may stop when started at position `i` of `t`.
fn ends_at(es: &Table<SyntaxDefinition>, ef: &Table<FunctionDefinition>, depth: usize, c: &SyntaxComponent, t: &[CssValue], i: usize) -> (r: Vec<bool>)
    requires
        t@.len() < MAX_TERMS,
        i <= t@.len(),
    ensures
        r@ == ends(scope_of(*es, *ef, depth as nat), c.model(), t@, i as int),
        r@.len() == t@.len() + 1,
    decreases depth, *c, 6nat, 0nat, 0nat, 0nat,
{
    let n = t.len();
    let (lo, hi, comma) = bounds_of(c.multiplier, n);
    let mut r = occurrences_in(es, ef, depth, c, t, i, comma, lo, hi);
    if c.non_empty {
        r.set(i, false);
    }
    r
}

fn occurrences_in(es: &Table<SyntaxDefinition>, ef: &Table<FunctionDefinition>, depth: usize, c: &SyntaxComponent, t: &[CssValue], i: usize, comma: bool, lo: u64, hi: u64) -> (r: Vec<bool>)
    requires
        t@.len() < MAX_TERMS,
        i <= t@.len(),
    ensures
        r@ == occurrences_between(scope_of(*es, *ef, depth as nat), c.model(), t@, i as int, comma, lo as int, hi as nat),
        r@.len() == t@.len() + 1,
    decreases depth, *c, 4nat, 0nat, 0nat, 0nat,
{
    let n = t.len();
    let mut cur = only_pos(n, i);
    let mut acc = if lo == 0 {
        copy_flags(&cur)
    } else {
        no_pos(n)
    };
    assert(cur@ == occurrences(scope_of(*es, *ef, depth as nat), c.model(), t@, i as int, comma, 0));
    assert(acc@ == occurrences_between(scope_of(*es, *ef, depth as nat), c.model(), t@, i as int, comma, lo as int, 0));
    let mut k: u64 = 0;
    while k < hi
        invariant
            t@.len() == n,
            n < MAX_TERMS,
            i <= n,
            k <= hi,
            cur@ == occurrences(scope_of(*es, *ef, depth as nat), c.model(), t@, i as int, comma, k as nat),
            acc@ == occurrences_between(scope_of(*es, *ef, depth as nat), c.model(), t@, i as int, comma, lo as int, k as nat),
            cur@.len() == n + 1,
            acc@.len() == n + 1,
        decreases hi - k,
    {
        cur = one_more_from(es, ef, depth, c, t, &cur, comma && k + 1 >= 2);
        k = k + 1;
        if k >= lo {
            acc = join(&acc, &cur);
        } else {
            assert(acc@ =~= occurrences_between(scope_of(*es, *ef, depth as nat), c.model(), t@, i as int, comma, lo as int, k as nat));
        }
    }
    acc
}

fn one_more_from(es: &Table<SyntaxDefinition>, ef: &Table<FunctionDefinition>, depth: usize, c: &SyntaxComponent, t: &[CssValue], s: &Vec<bool>, comma: bool) -> (r: Vec<bool>)
    requires
        t@.len() < MAX_TERMS,
        s@.len() == t@.len() + 1,
    ensures
        r@ == one_more(scope_of(*es, *ef, depth as nat), c.model(), t@, s@, comma, (t@.len() + 1) as nat),
        r@.len() == t@.len() + 1,
    decreases depth, *c, 2nat, 0nat, 0nat, 0nat,
{
    let n = t.len();
    let mut acc = no_pos(n);
    let mut q: usize = 0;
    while q <= n
        invariant
            t@.len() == n,
            n < MAX_TERMS,
            s@.len() == n + 1,
            q <= n + 1,
            acc@ == one_more(scope_of(*es, *ef, depth as nat), c.model(), t@, s@, comma, q as nat),
            acc@.len() == n + 1,
        decreases n + 1 - q,
    {
        if s[q] && !comma {
            let o = once_at(es, ef, depth, c, t, q);
            acc = join(&acc, &o);
        } else if s[q] && q < n && (match &t[q] {
            CssValue::Comma => true,
            _ => false,
        }) {
            let o = once_at(es, ef, depth, c, t, q + 1);
            acc = join(&acc, &o);
        } else {
            assert(acc@ =~= either(acc@, no_position(n as int)));
        }
        q = q + 1;
    }
    acc
}

/// Where a single occurrence of `c` may stop when started at position `i` of `t`.
fn once_at(es: &Table<SyntaxDefinition>, ef: &Table<FunctionDefinition>, depth: usize, c: &SyntaxComponent, t: &[CssValue], i: usize) -> (r: Vec<bool>)
    requires
        t@.len() < MAX_TERMS,
        i <= t@.len(),
    ensures
        r@ == once(scope_of(*es, *ef, depth as nat), c.model(), t@, i as int),
        r@.len() == t@.len() + 1,
    decreases depth, *c, 1nat, 0nat, 0nat, 0nat,
{
    let n = t.len();
    match &c.kind {
        ComponentKind::Literal(text) => {
            if i < n && keyword_accepts(text, &t[i]) {
                only_pos(n, i + 1)
            } else {
                no_pos(n)
            }
        },
        ComponentKind::Scalar(kind, range) => {
            if i < n && scalar_matches(*kind, *range, &t[i]) {
                only_pos(n, i + 1)
            } else {
                no_pos(n)
            }
        },
        ComponentKind::Function(name, args) => {
            if i < n {
                match &t[i] {
                    CssValue::Function(f, a) => {
                        if str_ci_eq(f.as_str(), name.as_str()) && a.len() < MAX_TERMS {
                            let e = ends_at(es, ef, depth, args, a.as_slice(), 0);
                            if e[a.len()] {
                                only_pos(n, i + 1)
                            } else {
                                no_pos(n)
                            }
                        } else {
                            no_pos(n)
                        }
                    },
                    _ => no_pos(n),
                }
            } else {
                no_pos(n)
            }
        },
        ComponentKind::Group(ch, comb) => {
            proof {
                lemma_models_len(ch@, ch@.len());
            }
            match comb {
            Combinator::AllInOrder => in_order_from(es, ef, depth, c, t, i),
            Combinator::ExactlyOne => one_of_from(es, ef, depth, c, t, i),
            Combinator::AllAnyOrder => {
                let avail = all_available(ch.len());
                any_order_from(es, ef, depth, c, t, i, &avail, true, false, ch.len())
            },
            Combinator::OneOrMoreAnyOrder => {
                let avail = all_available(ch.len());
                any_order_from(es, ef, depth, c, t, i, &avail, false, false, ch.len())
            },
        }
        },
        ComponentKind::TypeReference(name, range) => {
            match scalar_kind_of(name.as_str()) {
                Some(kind) => {
                    if i < n && scalar_matches(kind, *range, &t[i]) {
                        only_pos(n, i + 1)
                    } else {
                        no_pos(n)
                    }
                },
                None => match reentered_grammar(es, ef, name.as_str(), false) {
                    Some(g) => {
                        if depth > 0 {
                            once_at(es, ef, depth - 1, g, t, i)
                        } else {
                            no_pos(n)
                        }
                    },
                    None => no_pos(n),
                },
            }
        },
        ComponentKind::FunctionReference(name) => {
            match reentered_grammar(es, ef, name.as_str(), true) {
                Some(g) => {
                    if depth > 0 {
                        once_at(es, ef, depth - 1, g, t, i)
                    } else {
                        no_pos(n)
                    }
                },
                None => no_pos(n),
            }
        },
    }
}

fn in_order_from(es: &Table<SyntaxDefinition>, ef: &Table<FunctionDefinition>, depth: usize, c: &SyntaxComponent, t: &[CssValue], i: usize) -> (r: Vec<bool>)
    requires
        t@.len() < MAX_TERMS,
        i <= t@.len(),
        c.kind is Group,
    ensures
        r@ == in_order(scope_of(*es, *ef, depth as nat), c.model(), t@, i as int, c.kind->Group_0@.len()),
        r@.len() == t@.len() + 1,
    decreases depth, *c, 0nat, 0nat, 0nat, 0nat,
{
    let n = t.len();
    match &c.kind {
        ComponentKind::Group(ch, _) => {
            proof {
                lemma_models_len(ch@, ch@.len());
            }
            let mut cur = only_pos(n, i);
            let mut k: usize = 0;
            while k < ch.len()
                invariant
                    t@.len() == n,
                    n < MAX_TERMS,
                    i <= n,
                    c.kind == ComponentKind::Group(*ch, c.kind->Group_1),
                    k <= ch@.len(),
                    cur@ == in_order(scope_of(*es, *ef, depth as nat), c.model(), t@, i as int, k as nat),
                    cur@.len() == n + 1,
                decreases ch@.len() - k,
            {
                proof {
                    lemma_models_len(ch@, ch@.len());
                }
                cur = then_child_from(es, ef, depth, &ch[k], t, &cur);
                k = k + 1;
            }
            cur
        },
        _ => no_pos(n),
    }
}

fn then_child_from(es: &Table<SyntaxDefinition>, ef: &Table<FunctionDefinition>, depth: usize, d: &SyntaxComponent, t: &[CssValue], s: &Vec<bool>) -> (r: Vec<bool>)
    requires
        t@.len() < MAX_TERMS,
        s@.len() == t@.len() + 1,
    ensures
        r@ == then_child(scope_of(*es, *ef, depth as nat), d.model(), t@, s@, (t@.len() + 1) as nat),
        r@.len() == t@.len() + 1,
    decreases depth, *d, 7nat, 0nat, 0nat, 0nat,
{
    let n = t.len();
    let mut acc = no_pos(n);
    let mut q: usize = 0;
    while q <= n
        invariant
            t@.len() == n,
            n < MAX_TERMS,
            s@.len() == n + 1,
            q <= n + 1,
            acc@ == then_child(scope_of(*es, *ef, depth as nat), d.model(), t@, s@, q as nat),
            acc@.len() == n + 1,
        decreases n + 1 - q,
    {
        if s[q] {
            let e = ends_at(es, ef, depth, d, t, q);
            acc = join(&acc, &e);
        } else {
            assert(acc@ =~= either(acc@, no_position(n as int)));
        }
        q = q + 1;
    }
    acc
}

fn one_of_from(es: &Table<SyntaxDefinition>, ef: &Table<FunctionDefinition>, depth: usize, c: &SyntaxComponent, t: &[CssValue], i: usize) -> (r: Vec<bool>)
    requires
        t@.len() < MAX_TERMS,
        i <= t@.len(),
        c.kind is Group,
    ensures
        r@ == one_of(scope_of(*es, *ef, depth as nat), c.model(), t@, i as int, c.kind->Group_0@.len()),
        r@.len() == t@.len() + 1,
    decreases depth, *c, 0nat, 0nat, 0nat, 0nat,
{
    let n = t.len();
    match &c.kind {
        ComponentKind::Group(ch, _) => {
            proof {
                lemma_models_len(ch@, ch@.len());
            }
            let mut acc = no_pos(n);
            let mut k: usize = 0;
            while k < ch.len()
                invariant
                    t@.len() == n,
                    n < MAX_TERMS,
                    i <= n,
                    c.kind == ComponentKind::Group(*ch, c.kind->Group_1),
                    k <= ch@.len(),
                    acc@ == one_of(scope_of(*es, *ef, depth as nat), c.model(), t@, i as int, k as nat),
                    acc@.len() == n + 1,
                decreases ch@.len() - k,
            {
                proof {
                    lemma_models_len(ch@, ch@.len());
                }
                let e = ends_at(es, ef, depth, &ch[k], t, i);
                acc = join(&acc, &e);
                k = k + 1;
            }
            acc
        },
        _ => no_pos(n),
    }
}

fn any_order_from(
    es: &Table<SyntaxDefinition>,
    ef: &Table<FunctionDefinition>,
    depth: usize,
    c: &SyntaxComponent,
    t: &[CssValue],
    i: usize,
    avail: &Vec<bool>,
    all: bool,
    placed: bool,
    left: usize,
) -> (r: Vec<bool>)
    requires
        t@.len() < MAX_TERMS,
        i <= t@.len(),
    ensures
        r@ == any_order(scope_of(*es, *ef, depth as nat), c.model(), t@, i as int, avail@, all, placed, left as nat),
        r@.len() == t@.len() + 1,
    decreases depth, *c, 0nat, left, 1nat, 0nat,
{
    let n = t.len();
    let stop = if (all && nothing_left(avail)) || (!all && placed) {
        only_pos(n, i)
    } else {
        no_pos(n)
    };
    match &c.kind {
        ComponentKind::Group(ch, _) => {
            proof {
                lemma_models_len(ch@, ch@.len());
            }
            if left == 0 {
                stop
            } else {
                let p = place_next_from(es, ef, depth, c, t, i, avail, all, left);
                join(&stop, &p)
            }
        },
        _ => stop,
    }
}

fn place_next_from(
    es: &Table<SyntaxDefinition>,
    ef: &Table<FunctionDefinition>,
    depth: usize,
    c: &SyntaxComponent,
    t: &[CssValue],
    i: usize,
    avail: &Vec<bool>,
    all: bool,
    left: usize,
) -> (r: Vec<bool>)
    requires
        t@.len() < MAX_TERMS,
        i <= t@.len(),
        c.kind is Group,
        left > 0,
    ensures
        r@ == place_next(scope_of(*es, *ef, depth as nat), c.model(), t@, i as int, avail@, all, left as nat, c.kind->Group_0@.len()),
        r@.len() == t@.len() + 1,
    decreases depth, *c, 0nat, left, 0nat, 0nat,
{
    let n = t.len();
    match &c.kind {
        ComponentKind::Group(ch, _) => {
            proof {
                lemma_models_len(ch@, ch@.len());
            }
            let mut acc = no_pos(n);
            let mut k: usize = 0;
            while k < ch.len()
                invariant
                    t@.len() == n,
                    n < MAX_TERMS,
                    i <= n,
                    left > 0,
                    c.kind == ComponentKind::Group(*ch, c.kind->Group_1),
                    k <= ch@.len(),
                    acc@ == place_next(scope_of(*es, *ef, depth as nat), c.model(), t@, i as int, avail@, all, left as nat, k as nat),
                    acc@.len() == n + 1,
                decreases ch@.len() - k,
            {
                proof {
                    lemma_models_len(ch@, ch@.len());
                }
                if k < avail.len() && avail[k] {
                    let e = ends_at(es, ef, depth, &ch[k], t, i);
                    let mut rest = copy_flags(avail);
                    rest.set(k, false);
                    let a = after_placing_from(es, ef, depth, c, t, &e, &rest, all, left - 1);
                    acc = join(&acc, &a);
                } else {
                    assert(acc@ =~= either(acc@, no_position(n as int)));
                }
                k = k + 1;
            }
            acc
        },
        _ => no_pos(n),
    }
}

fn after_placing_from(
    es: &Table<SyntaxDefinition>,
    ef: &Table<FunctionDefinition>,
    depth: usize,
    c: &SyntaxComponent,
    t: &[CssValue],
    s: &Vec<bool>,
    avail: &Vec<bool>,
    all: bool,
    left: usize,
) -> (r: Vec<bool>)
    requires
        t@.len() < MAX_TERMS,
        s@.len() == t@.len() + 1,
    ensures
        r@ == after_placing(scope_of(*es, *ef, depth as nat), c.model(), t@, s@, avail@, all, left as nat, (t@.len() + 1) as nat),
        r@.len() == t@.len() + 1,
    decreases depth, *c, 0nat, left, 2nat, 0nat,
{
    let n = t.len();
    let mut acc = no_pos(n);
    let mut q: usize = 0;
    while q <= n
        invariant
            t@.len() == n,
            n < MAX_TERMS,
            s@.len() == n + 1,
            q <= n + 1,
            acc@ == after_placing(scope_of(*es, *ef, depth as nat), c.model(), t@, s@, avail@, all, left as nat, q as nat),
            acc@.len() == n + 1,
        decreases n + 1 - q,
    {
        if s[q] {
            let e = any_order_from(es, ef, depth, c, t, q, avail, all, true, left);
            acc = join(&acc, &e);
        } else {
            assert(acc@ =~= either(acc@, no_position(n as int)));
        }
        q = q + 1;
    }
    acc
}

/// The root is a group of two or more terms that are not alternatives.
pub open spec fn multi_term_root(tree: SyntaxTree) -> bool {
    match tree.root.kind {
        ComponentKind::Group(ch, comb) => ch@.len() >= 2 && comb != Combinator::ExactlyOne,
        _ => false,
    }
}

/// `r` is `v` shaped to the grammar: a lone term becomes a list of one term when the
/// root is a group of several terms; anything else is returned as it came.
pub open spec fn canonical_form(tree: SyntaxTree, v: CssValue, r: CssValue) -> bool {
    if !(v is List) && multi_term_root(tree) {
        r is List && r->List_0@.len() == 1 && same_value(v, r->List_0@[0])
    } else {
        same_value(v, r)
    }
}

fn root_is_multi_term(tree: &SyntaxTree) -> (r: bool)
    ensures
        r == multi_term_root(*tree),
{
    match &tree.root.kind {
        ComponentKind::Group(ch, comb) => ch.len() >= 2 && !matches!(comb, Combinator::ExactlyOne),
        _ => false,
    }
}

/// Matches a value against a grammar whose leftover references re-enter the named
/// grammars of `es` and `ef`, at most `depth` times on one path.
pub fn matches_in(
    tree: &SyntaxTree,
    value: &CssValue,
    es: &Table<SyntaxDefinition>,
    ef: &Table<FunctionDefinition>,
    depth: usize,
) -> (r: Option<CssValue>)
    ensures
        r is Some == accepts_in(scope_of(*es, *ef, depth as nat), tree.root.model(), *value),
        r matches Some(c) ==> canonical_form(*tree, *value, c),
{
    let t: &[CssValue] = match value {
        CssValue::List(items) => items.as_slice(),
        _ => one_term(value),
    };
    if t.len() >= MAX_TERMS {
        return None;
    }
    let e = ends_at(es, ef, depth, &tree.root, t, 0);
    if !e[t.len()] {
        return None;
    }
    let is_list = match value {
        CssValue::List(_) => true,
        _ => false,
    };
    if !is_list && root_is_multi_term(tree) {
        let one = clone_value(value);
        let items = vec![one];
        Some(CssValue::List(items))
    } else {
        Some(clone_value(value))
    }
}

impl SyntaxTree {
    /// Matches a value against the grammar: the canonical form of the value when some
    /// reading of the grammar consumes all of its terms, `None` otherwise. A reference
    /// to a scalar kind (`<length>`) matches one term of that kind; a reference to a
    /// named grammar matches nothing here (see `CssDefinitions::matches_tree`).
    pub fn matches(&self, value: &CssValue) -> (r: Option<CssValue>)
        ensures
            r is Some == accepts(*self, *value),
            r matches Some(c) ==> canonical_form(*self, *value, c),
    {
        let es: Table<SyntaxDefinition> = Table::new();
        let ef: Table<FunctionDefinition> = Table::new();
        proof {
            assert(scope_of(es, ef, 0) =~= no_scope()) by {
                assert(scope_of(es, ef, 0).syns =~= Seq::<Named>::empty());
                assert(scope_of(es, ef, 0).fns =~= Seq::<Named>::empty());
            }
        }
        matches_in(self, value, &es, &ef, 0)
    }
}

} // verus!
