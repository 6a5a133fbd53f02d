//! The compiled form of a value definition grammar.
use vstd::prelude::*;

verus! {

/// How the children of a group compose.
#[derive(Clone, Copy, Debug, PartialEq, Eq, Structural)]
pub enum Combinator {
    /// Juxtaposition: every child, in order.
    AllInOrder,
    /// `&&`: every child, in any order.
    AllAnyOrder,
    /// `||`: one or more of the children, each at most once, in any order.
    OneOrMoreAnyOrder,
    /// `|`: exactly one of the children.
    ExactlyOne,
}

/// How many times a component may occur.
#[derive(Clone, Copy, Debug, PartialEq, Eq, Structural)]
pub enum Multiplier {
    /// Exactly once (no suffix).
    Once,
    /// `?`: zero or one time.
    Optional,
    /// `*`: any number of times.
    ZeroOrMore,
    /// `+`: one or more times.
    OneOrMore,
    /// `{A}`, `{A,B}` or `{A,}`: between `min` and `max` times (no upper bound when `max` is absent).
    Range { min: u32, max: Option<u32> },
    /// `#`: one or more times, separated by commas.
    CommaSeparatedOneOrMore,
}

/// Inclusive bounds on a numeric scalar, in whole units (`[0,∞]`); an absent bound is open.
#[derive(Clone, Copy, Debug, PartialEq, Eq, Structural)]
pub struct NumRange {
    pub min: Option<i32>,
    pub max: Option<i32>,
}

/// Terminal value categories that a component matches directly against one term.
#[derive(Clone, Copy, Debug, PartialEq, Eq, Structural)]
pub enum ScalarKind {
    Number,
    Integer,
    Percentage,
    Length,
    Angle,
    Time,
    Frequency,
    Resolution,
    Flex,
    String,
    Ident,
    CustomIdent,
    DashedIdent,
    Url,
    HexColor,
    NamedColor,
    SystemColor,
}

/// What a component is, without its multiplier.
#[derive(Debug)]
pub enum ComponentKind {
    /// A keyword or punctuation that must appear as it is written.
    Literal(String),
    /// `<name>` or `<name [min,max]>`, not yet resolved.
    TypeReference(String, Option<NumRange>),
    /// `name()`, not yet resolved.
    FunctionReference(String),
    /// A resolved reference to a scalar kind.
    Scalar(ScalarKind, Option<NumRange>),
    /// A function call whose arguments must match the boxed grammar.
    Function(String, Box<SyntaxComponent>),
    /// A bracketed or implicit group.
    Group(Vec<SyntaxComponent>, Combinator),
}

/// A node of a compiled grammar.
#[derive(Debug)]
pub struct SyntaxComponent {
    pub kind: ComponentKind,
    pub multiplier: Multiplier,
    /// `!`: a match of this component must consume at least one term.
    pub non_empty: bool,
}

/// A compiled grammar: its root component.
#[derive(Debug)]
pub struct SyntaxTree {
    pub root: SyntaxComponent,
}

/// What a component is, as a mathematical value.
pub enum SynKind {
    Literal(Seq<char>),
    TypeReference(Seq<char>, Option<NumRange>),
    FunctionReference(Seq<char>),
    Scalar(ScalarKind, Option<NumRange>),
    Function(Seq<char>, Box<Syn>),
    Group(Seq<Syn>, Combinator),
}

/// A component as a mathematical value: texts as character sequences, children as a sequence.
pub struct Syn {
    pub kind: SynKind,
    pub multiplier: Multiplier,
    pub non_empty: bool,
}

impl SyntaxComponent {
    /// The component as a mathematical value.
    pub open spec fn model(self) -> Syn
        decreases self, 0nat,
    {
        let kind = match self.kind {
            ComponentKind::Literal(t) => SynKind::Literal(t@),
            ComponentKind::TypeReference(n, r) => SynKind::TypeReference(n@, r),
            ComponentKind::FunctionReference(n) => SynKind::FunctionReference(n@),
            ComponentKind::Scalar(k, r) => SynKind::Scalar(k, r),
            ComponentKind::Function(n, args) => SynKind::Function(n@, Box::new((*args).model())),
            ComponentKind::Group(ch, comb) => SynKind::Group(models(ch@, ch@.len()), comb),
        };
        Syn { kind, multiplier: self.multiplier, non_empty: self.non_empty }
    }
}

/// The models of the first `k` components of `s`.
pub open spec fn models(s: Seq<SyntaxComponent>, k: nat) -> Seq<Syn>
    decreases s, k,
{
    if k == 0 || k > s.len() {
        Seq::empty()
    } else {
        models(s, (k - 1) as nat).push(s[k - 1].model())
    }
}

/// The models of a prefix do not change when items are added after it.
pub proof fn lemma_models_prefix(s: Seq<SyntaxComponent>, u: Seq<SyntaxComponent>, k: nat)
    requires
        k <= s.len(),
        k <= u.len(),
        forall|i: int| 0 <= i < k ==> s[i] == u[i],
    ensures
        models(s, k) == models(u, k),
    decreases k,
{
    if k > 0 {
        lemma_models_prefix(s, u, (k - 1) as nat);
    }
}

/// `models` has one item per component.
pub proof fn lemma_models_len(s: Seq<SyntaxComponent>, k: nat)
    requires
        k <= s.len(),
    ensures
        models(s, k).len() == k,
        forall|i: int| 0 <= i < k ==> #[trigger] models(s, k)[i] == s[i].model(),
    decreases k,
{
    if k > 0 {
        lemma_models_len(s, (k - 1) as nat);
    }
}

/// A copy of a component, with the same model.
pub fn clone_component(c: &SyntaxComponent) -> (r: SyntaxComponent)
    ensures
        r.model() == c.model(),
    decreases c,
{
    let kind = match &c.kind {
        ComponentKind::Literal(t) => ComponentKind::Literal(t.clone()),
        ComponentKind::TypeReference(n, range) => ComponentKind::TypeReference(n.clone(), *range),
        ComponentKind::FunctionReference(n) => ComponentKind::FunctionReference(n.clone()),
        ComponentKind::Scalar(k, range) => ComponentKind::Scalar(*k, *range),
        ComponentKind::Function(n, args) => ComponentKind::Function(
            n.clone(),
            Box::new(clone_component(args)),
        ),
        ComponentKind::Group(ch, comb) => ComponentKind::Group(clone_components(ch), *comb),
    };
    SyntaxComponent { kind, multiplier: c.multiplier, non_empty: c.non_empty }
}

/// Copies of components, in order, with the same models.
pub fn clone_components(v: &Vec<SyntaxComponent>) -> (r: Vec<SyntaxComponent>)
    ensures
        r@.len() == v@.len(),
        models(r@, r@.len()) == models(v@, v@.len()),
    decreases v,
{
    let mut out: Vec<SyntaxComponent> = Vec::new();
    let mut k: usize = 0;
    while k < v.len()
        invariant
            k <= v@.len(),
            out@.len() == k,
            models(out@, k as nat) == models(v@, k as nat),
        decreases v@.len() - k,
    {
        let c = clone_component(&v[k]);
        let ghost before = out@;
        out.push(c);
        proof {
            lemma_models_prefix(before, out@, k as nat);
        }
        k = k + 1;
    }
    out
}

impl Clone for SyntaxComponent {
    fn clone(&self) -> (r: SyntaxComponent)
        ensures
            r.model() == self.model(),
    {
        clone_component(self)
    }
}

impl Clone for SyntaxTree {
    fn clone(&self) -> (r: SyntaxTree)
        ensures
            r.root.model() == self.root.model(),
    {
        SyntaxTree { root: clone_component(&self.root) }
    }
}

/// A named grammar as referencing grammars see it: its name and the model of its tree.
pub type Named = (Seq<char>, Syn);

/// Index of the first named grammar at or after `k` named `name`.
pub open spec fn named_index(defs: Seq<Named>, name: Seq<char>, k: int) -> Option<int>
    decreases defs.len() - k,
{
    if k < 0 || k >= defs.len() {
        None
    } else if defs[k].0 == name {
        Some(k)
    } else {
        named_index(defs, name, k + 1)
    }
}

} // verus!
