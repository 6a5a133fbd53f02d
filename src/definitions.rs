//! The registry of property, function and shared-type grammars.
use vstd::prelude::*;
use crate::compile::{compile, compiled};
use crate::matcher::{accepts, accepts_in, accepts_model, canonical_form, matches_in, Scope};
use crate::syntax::{
    named_index, Named,
    clone_component, lemma_models_len, lemma_models_prefix, models, ComponentKind,
    ScalarKind, Syn, SynKind, SyntaxComponent, SyntaxTree,
};
use crate::table::{index_from, Table};
use crate::text::str_eq;
use crate::value::{clone_value, same_value, CssValue};

verus! {

broadcast use {vstd::std_specs::vec::group_vec_axioms, vstd::seq::group_seq_axioms};

/// The scalar kind that a `<name>` reference names, if it names one.
pub open spec fn scalar_kind_named(name: Seq<char>) -> Option<ScalarKind> {
    if name == "number"@ {
        Some(ScalarKind::Number)
    } else if name == "integer"@ {
        Some(ScalarKind::Integer)
    } else if name == "percentage"@ {
        Some(ScalarKind::Percentage)
    } else if name == "length"@ {
        Some(ScalarKind::Length)
    } else if name == "angle"@ {
        Some(ScalarKind::Angle)
    } else if name == "time"@ {
        Some(ScalarKind::Time)
    } else if name == "frequency"@ {
        Some(ScalarKind::Frequency)
    } else if name == "resolution"@ {
        Some(ScalarKind::Resolution)
    } else if name == "flex"@ {
        Some(ScalarKind::Flex)
    } else if name == "string"@ {
        Some(ScalarKind::String)
    } else if name == "ident"@ {
        Some(ScalarKind::Ident)
    } else if name == "custom-ident"@ {
        Some(ScalarKind::CustomIdent)
    } else if name == "dashed-ident"@ {
        Some(ScalarKind::DashedIdent)
    } else if name == "url"@ {
        Some(ScalarKind::Url)
    } else if name == "hex-color"@ {
        Some(ScalarKind::HexColor)
    } else if name == "named-color"@ {
        Some(ScalarKind::NamedColor)
    } else if name == "system-color"@ {
        Some(ScalarKind::SystemColor)
    } else {
        None
    }
}

/// The scalar kind that a `<name>` reference names, if it names one.
pub fn scalar_kind_of(name: &str) -> (r: Option<ScalarKind>)
    ensures
        r == scalar_kind_named(name@),
{
    if str_eq(name, "number") {
        Some(ScalarKind::Number)
    } else if str_eq(name, "integer") {
        Some(ScalarKind::Integer)
    } else if str_eq(name, "percentage") {
        Some(ScalarKind::Percentage)
    } else if str_eq(name, "length") {
        Some(ScalarKind::Length)
    } else if str_eq(name, "angle") {
        Some(ScalarKind::Angle)
    } else if str_eq(name, "time") {
        Some(ScalarKind::Time)
    } else if str_eq(name, "frequency") {
        Some(ScalarKind::Frequency)
    } else if str_eq(name, "resolution") {
        Some(ScalarKind::Resolution)
    } else if str_eq(name, "flex") {
        Some(ScalarKind::Flex)
    } else if str_eq(name, "string") {
        Some(ScalarKind::String)
    } else if str_eq(name, "ident") {
        Some(ScalarKind::Ident)
    } else if str_eq(name, "custom-ident") {
        Some(ScalarKind::CustomIdent)
    } else if str_eq(name, "dashed-ident") {
        Some(ScalarKind::DashedIdent)
    } else if str_eq(name, "url") {
        Some(ScalarKind::Url)
    } else if str_eq(name, "hex-color") {
        Some(ScalarKind::HexColor)
    } else if str_eq(name, "named-color") {
        Some(ScalarKind::NamedColor)
    } else if str_eq(name, "system-color") {
        Some(ScalarKind::SystemColor)
    } else {
        None
    }
}

/// A shared type: a named grammar that other grammars reference as `<name>`.
#[derive(Debug, Clone)]
pub struct SyntaxDefinition {
    pub name: String,
    pub syntax: SyntaxTree,
}

/// The grammar of a CSS function's argument list.
#[derive(Debug, Clone)]
pub struct FunctionDefinition {
    /// Name of the function
    pub name: String,
    /// Compiled syntax tree
    pub syntax: SyntaxTree,
    /// URL of the function's documentation
    pub mdn_url: String,
}

/// A CSS property: its grammar, its initial value and, for a shorthand, the longhand
/// properties it expands to.
#[derive(Debug, Clone)]
pub struct PropertyDefinition {
    /// Name of the property (ie: color, background etc)
    pub name: String,
    /// Expanded (computed) properties if this property is a shorthand property
    pub computed: Vec<String>,
    /// Syntax tree that describes the valid values of this property
    pub syntax: SyntaxTree,
    /// True when the property inherits from parent nodes if not set
    pub inherited: bool,
    /// Initial value of the property, if any
    pub initial_value: Option<CssValue>,
    /// URL of the property's documentation
    pub mdn_url: String,
}

/// The shared types of a table, as named grammars.
pub open spec fn syntax_table_pairs(t: Table<SyntaxDefinition>) -> Seq<Named> {
    t.entries@.map_values(|e: (String, SyntaxDefinition)| (e.0@, e.1.syntax.root.model()))
}

/// The functions of a table, as named grammars.
pub open spec fn function_table_pairs(t: Table<FunctionDefinition>) -> Seq<Named> {
    t.entries@.map_values(|e: (String, FunctionDefinition)| (e.0@, e.1.syntax.root.model()))
}

/// The named grammars of a registry's tables, re-entered at most `depth` times.
pub open spec fn scope_of(s: Table<SyntaxDefinition>, f: Table<FunctionDefinition>, depth: nat) -> Scope {
    Scope { syns: syntax_table_pairs(s), fns: function_table_pairs(f), depth }
}

proof fn lemma_index_pairs<T>(entries: Seq<(String, T)>, pairs: Seq<Named>, name: Seq<char>, k: int)
    requires
        pairs.len() == entries.len(),
        forall|i: int| 0 <= i < entries.len() ==> #[trigger] pairs[i].0 == entries[i].0@,
    ensures
        index_from(entries, name, k) == named_index(pairs, name, k),
    decreases entries.len() - k,
{
    if 0 <= k < entries.len() && entries[k].0@ != name {
        lemma_index_pairs(entries, pairs, name, k + 1);
    }
}

/// Looking a name up in a table finds the entry that `named_index` finds in its pairs.
pub proof fn lemma_table_pairs(s: Table<SyntaxDefinition>, f: Table<FunctionDefinition>, name: Seq<char>)
    ensures
        index_from(s.entries@, name, 0) == named_index(syntax_table_pairs(s), name, 0),
        index_from(f.entries@, name, 0) == named_index(function_table_pairs(f), name, 0),
{
    lemma_index_pairs(s.entries@, syntax_table_pairs(s), name, 0);
    lemma_index_pairs(f.entries@, function_table_pairs(f), name, 0);
}

/// The shared types of a list, as named grammars.
pub open spec fn syntax_pairs(v: Seq<SyntaxDefinition>) -> Seq<Named> {
    v.map_values(|d: SyntaxDefinition| (d.name@, d.syntax.root.model()))
}

/// The functions of a list, as named grammars.
pub open spec fn function_pairs(v: Seq<FunctionDefinition>) -> Seq<Named> {
    v.map_values(|d: FunctionDefinition| (d.name@, d.syntax.root.model()))
}

/// The names of a list of strings.
pub open spec fn names_of(v: Seq<String>) -> Seq<Seq<char>> {
    v.map_values(|s: String| s@)
}

/// How many times one name may be inlined inside itself; deeper, the reference stays.
pub const SELF_NESTING: usize = 3;

/// How many of the first `k` names of `path` are `name`.
pub open spec fn times_on_path(path: Seq<Seq<char>>, name: Seq<char>, k: int) -> nat
    decreases k,
{
    if k <= 0 || k > path.len() {
        0
    } else {
        times_on_path(path, name, k - 1) + (if path[k - 1] == name {
            1nat
        } else {
            0nat
        })
    }
}

/// Inlining `name` once more would exceed the nesting bound or the fuel.
pub open spec fn nested_too_deep(path: Seq<Seq<char>>, name: Seq<char>, fuel: nat) -> bool {
    times_on_path(path, name, path.len() as int) >= SELF_NESTING || fuel == 0
}

/// `c` with the kind of `target` (a referenced grammar inlined in place of the reference).
pub open spec fn inlined(c: Syn, target: Result<Syn, Seq<char>>) -> Result<Syn, Seq<char>> {
    match target {
        Ok(t) => Ok(Syn { kind: t.kind, multiplier: c.multiplier, non_empty: c.non_empty }),
        Err(e) => Err(e),
    }
}

/// The component with its references resolved: a reference to a scalar kind becomes
/// that scalar, one to a shared type or function becomes a copy of its resolved
/// grammar. A name that is already being resolved `SELF_NESTING` times on the current
/// path (`path`) stays a reference: a self-referential grammar is inlined to that
/// depth, and matching through the registry (`CssDefinitions::matches_tree`) re-enters
/// the named grammar where the reference stands. `Err` holds a name that nothing
/// defines.
pub open spec fn resolved(
    c: Syn,
    syns: Seq<Named>,
    fns: Seq<Named>,
    path: Seq<Seq<char>>,
    fuel: nat,
) -> Result<Syn, Seq<char>>
    decreases fuel, c, 0nat,
{
    match c.kind {
        SynKind::TypeReference(name, range) => match scalar_kind_named(name) {
            Some(k) => Ok(Syn { kind: SynKind::Scalar(k, range), multiplier: c.multiplier, non_empty: c.non_empty }),
            None => match named_index(syns, name, 0) {
                Some(x) => if nested_too_deep(path, name, fuel) {
                    Ok(c)
                } else {
                    inlined(c, resolved(syns[x].1, syns, fns, path.push(name), (fuel - 1) as nat))
                },
                None => match named_index(fns, name, 0) {
                    Some(x) => if nested_too_deep(path, name, fuel) {
                        Ok(c)
                    } else {
                        inlined(c, resolved(fns[x].1, syns, fns, path.push(name), (fuel - 1) as nat))
                    },
                    None => Err(name),
                },
            },
        },
        SynKind::FunctionReference(name) => match named_index(fns, name, 0) {
            Some(x) => if nested_too_deep(path, name, fuel) {
                Ok(c)
            } else {
                inlined(c, resolved(fns[x].1, syns, fns, path.push(name), (fuel - 1) as nat))
            },
            None => Err(name),
        },
        SynKind::Function(name, args) => match resolved(*args, syns, fns, path, fuel) {
            Ok(a) => Ok(Syn { kind: SynKind::Function(name, Box::new(a)), multiplier: c.multiplier, non_empty: c.non_empty }),
            Err(e) => Err(e),
        },
        SynKind::Group(ch, comb) => match resolved_children(ch, syns, fns, path, fuel, ch.len()) {
            Ok(rs) => Ok(Syn { kind: SynKind::Group(rs, comb), multiplier: c.multiplier, non_empty: c.non_empty }),
            Err(e) => Err(e),
        },
        _ => Ok(c),
    }
}

/// The first `k` children, each resolved; the first failure stops.
pub open spec fn resolved_children(
    ch: Seq<Syn>,
    syns: Seq<Named>,
    fns: Seq<Named>,
    path: Seq<Seq<char>>,
    fuel: nat,
    k: nat,
) -> Result<Seq<Syn>, Seq<char>>
    decreases fuel, ch, k,
{
    if k == 0 || k > ch.len() {
        Ok(Seq::empty())
    } else {
        match resolved_children(ch, syns, fns, path, fuel, (k - 1) as nat) {
            Err(e) => Err(e),
            Ok(prefix) => match resolved(ch[k - 1], syns, fns, path, fuel) {
                Err(e) => Err(e),
                Ok(r) => Ok(prefix.push(r)),
            },
        }
    }
}

proof fn lemma_children_error_stays(
    ch: Seq<Syn>,
    syns: Seq<Named>,
    fns: Seq<Named>,
    path: Seq<Seq<char>>,
    fuel: nat,
    k: nat,
    m: nat,
)
    requires
        k <= m <= ch.len(),
        resolved_children(ch, syns, fns, path, fuel, k) is Err,
    ensures
        resolved_children(ch, syns, fns, path, fuel, m) == resolved_children(ch, syns, fns, path, fuel, k),
    decreases m - k,
{
    if m > k {
        lemma_children_error_stays(ch, syns, fns, path, fuel, k, (m - 1) as nat);
    }
}

/// Every reference left in the grammar names a shared type or function that is
/// defined; it is left only where inlining it again would exceed the nesting bound.
/// References to scalar kinds are all gone.
pub open spec fn references_defined(c: Syn, syns: Seq<Named>, fns: Seq<Named>) -> bool
    decreases c, 1nat,
{
    match c.kind {
        SynKind::TypeReference(name, _) => scalar_kind_named(name) is None && (named_index(syns, name, 0) is Some
            || named_index(fns, name, 0) is Some),
        SynKind::FunctionReference(name) => named_index(fns, name, 0) is Some,
        SynKind::Function(_, args) => references_defined(*args, syns, fns),
        SynKind::Group(ch, _) => all_references_defined(ch, ch.len(), syns, fns),
        _ => true,
    }
}

/// `references_defined` holds of the first `k` components.
pub open spec fn all_references_defined(ch: Seq<Syn>, k: nat, syns: Seq<Named>, fns: Seq<Named>) -> bool
    decreases ch, k,
{
    k == 0 || k > ch.len() || (all_references_defined(ch, (k - 1) as nat, syns, fns) && references_defined(
        ch[k - 1],
        syns,
        fns,
    ))
}

proof fn lemma_all_references_prefix(a: Seq<Syn>, b: Seq<Syn>, k: nat, syns: Seq<Named>, fns: Seq<Named>)
    requires
        k <= a.len(),
        k <= b.len(),
        forall|i: int| 0 <= i < k ==> a[i] == b[i],
    ensures
        all_references_defined(a, k, syns, fns) == all_references_defined(b, k, syns, fns),
    decreases k,
{
    if k > 0 {
        lemma_all_references_prefix(a, b, (k - 1) as nat, syns, fns);
    }
}

/// Resolution leaves no dangling reference: what it produces names only defined
/// shared types and functions, and no scalar kind by reference.
pub proof fn lemma_resolved_references_defined(
    c: Syn,
    syns: Seq<Named>,
    fns: Seq<Named>,
    path: Seq<Seq<char>>,
    fuel: nat,
)
    requires
        resolved(c, syns, fns, path, fuel) is Ok,
    ensures
        references_defined(resolved(c, syns, fns, path, fuel)->Ok_0, syns, fns),
    decreases fuel, c, 0nat,
{
    match c.kind {
        SynKind::TypeReference(name, range) => {
            if scalar_kind_named(name) is None {
                match named_index(syns, name, 0) {
                    Some(x) => {
                        if !nested_too_deep(path, name, fuel) {
                            lemma_resolved_references_defined(syns[x].1, syns, fns, path.push(name), (fuel - 1) as nat);
                        }
                    },
                    None => {
                        let x = named_index(fns, name, 0)->0;
                        if !nested_too_deep(path, name, fuel) {
                            lemma_resolved_references_defined(fns[x].1, syns, fns, path.push(name), (fuel - 1) as nat);
                        }
                    },
                }
            }
        },
        SynKind::FunctionReference(name) => {
            let x = named_index(fns, name, 0)->0;
            if !nested_too_deep(path, name, fuel) {
                lemma_resolved_references_defined(fns[x].1, syns, fns, path.push(name), (fuel - 1) as nat);
            }
        },
        SynKind::Function(_, args) => {
            lemma_resolved_references_defined(*args, syns, fns, path, fuel);
        },
        SynKind::Group(ch, _) => {
            lemma_resolved_children_defined(ch, syns, fns, path, fuel, ch.len());
        },
        _ => {},
    }
}

proof fn lemma_resolved_children_defined(
    ch: Seq<Syn>,
    syns: Seq<Named>,
    fns: Seq<Named>,
    path: Seq<Seq<char>>,
    fuel: nat,
    k: nat,
)
    requires
        resolved_children(ch, syns, fns, path, fuel, k) is Ok,
    ensures
        resolved_children(ch, syns, fns, path, fuel, k)->Ok_0.len() == (if k <= ch.len() {
            k
        } else {
            0
        }),
        all_references_defined(
            resolved_children(ch, syns, fns, path, fuel, k)->Ok_0,
            resolved_children(ch, syns, fns, path, fuel, k)->Ok_0.len(),
            syns,
            fns,
        ),
    decreases fuel, ch, k,
{
    if k > 0 && k <= ch.len() {
        lemma_resolved_children_defined(ch, syns, fns, path, fuel, (k - 1) as nat);
        lemma_resolved_references_defined(ch[k - 1], syns, fns, path, fuel);
        let prefix = resolved_children(ch, syns, fns, path, fuel, (k - 1) as nat)->Ok_0;
        let r = resolved(ch[k - 1], syns, fns, path, fuel)->Ok_0;
        lemma_all_references_prefix(prefix, prefix.push(r), prefix.len(), syns, fns);
    }
}

/// The grammar names no scalar kind by reference, and every reference left in it names
/// a shared type or function of the catalog (see `references_defined`).
pub open spec fn no_dangling(m: Syn, ss: Seq<SyntaxEntry>, fs: Seq<FunctionEntry>) -> bool {
    references_defined(m, compiled_syntaxes(ss, ss.len() as int), compiled_functions(fs, fs.len() as int))
}

/// A grammar that a loaded registry stores has no dangling reference (see
/// `references_defined`).
pub proof fn lemma_catalog_grammar_references_defined(text: Seq<char>, ss: Seq<SyntaxEntry>, fs: Seq<FunctionEntry>)
    requires
        catalog_grammar(text, ss, fs) is Some,
    ensures
        references_defined(
            catalog_grammar(text, ss, fs)->0,
            compiled_syntaxes(ss, ss.len() as int),
            compiled_functions(fs, fs.len() as int),
        ),
{
    let m = compiled(text)->Ok_0;
    lemma_resolved_references_defined(
        m,
        compiled_syntaxes(ss, ss.len() as int),
        compiled_functions(fs, fs.len() as int),
        Seq::empty(),
        RESOLVE_DEPTH as nat,
    );
}

fn find_syntax_index(defs: &Vec<SyntaxDefinition>, name: &str) -> (r: Option<usize>)
    ensures
        r is Some <==> named_index(syntax_pairs(defs@), name@, 0) is Some,
        r matches Some(x) ==> named_index(syntax_pairs(defs@), name@, 0) == Some(x as int),
        r matches Some(x) ==> x < defs@.len(),
{
    let mut k: usize = 0;
    while k < defs.len()
        invariant
            k <= defs@.len(),
            named_index(syntax_pairs(defs@), name@, k as int) == named_index(syntax_pairs(defs@), name@, 0),
        decreases defs@.len() - k,
    {
        if str_eq(defs[k].name.as_str(), name) {
            return Some(k);
        }
        k = k + 1;
    }
    None
}

fn find_function_index(defs: &Vec<FunctionDefinition>, name: &str) -> (r: Option<usize>)
    ensures
        r is Some <==> named_index(function_pairs(defs@), name@, 0) is Some,
        r matches Some(x) ==> named_index(function_pairs(defs@), name@, 0) == Some(x as int),
        r matches Some(x) ==> x < defs@.len(),
{
    let mut k: usize = 0;
    while k < defs.len()
        invariant
            k <= defs@.len(),
            named_index(function_pairs(defs@), name@, k as int) == named_index(function_pairs(defs@), name@, 0),
        decreases defs@.len() - k,
    {
        if str_eq(defs[k].name.as_str(), name) {
            return Some(k);
        }
        k = k + 1;
    }
    None
}

fn count_on_path(path: &Vec<String>, name: &str) -> (r: usize)
    ensures
        r as int == times_on_path(names_of(path@), name@, path@.len() as int),
{
    let mut k: usize = 0;
    let mut count: usize = 0;
    while k < path.len()
        invariant
            k <= path@.len(),
            count <= k,
            count as int == times_on_path(names_of(path@), name@, k as int),
        decreases path@.len() - k,
    {
        if str_eq(path[k].as_str(), name) {
            count = count + 1;
        }
        k = k + 1;
    }
    count
}

fn extended(path: &Vec<String>, name: &String) -> (r: Vec<String>)
    ensures
        names_of(r@) == names_of(path@).push(name@),
{
    let mut r: Vec<String> = Vec::new();
    let mut k: usize = 0;
    while k < path.len()
        invariant
            k <= path@.len(),
            r@ == path@.subrange(0, k as int),
        decreases path@.len() - k,
    {
        r.push(path[k].clone());
        k = k + 1;
        assert(r@ =~= path@.subrange(0, k as int));
    }
    r.push(name.clone());
    assert(r@ =~= path@.push(*name));
    assert(names_of(r@) =~= names_of(path@).push(name@));
    r
}

fn inline_into(c: &SyntaxComponent, target: Result<SyntaxComponent, String>) -> (r: Result<SyntaxComponent, String>)
    ensures
        match target {
            Ok(t) => r is Ok && r->Ok_0.model() == (Syn { kind: t.model().kind, multiplier: c.multiplier, non_empty: c.non_empty }),
            Err(e) => r is Err && r->Err_0@ == e@,
        },
{
    match target {
        Ok(t) => Ok(SyntaxComponent { kind: t.kind, multiplier: c.multiplier, non_empty: c.non_empty }),
        Err(e) => Err(e),
    }
}

/// A resolution step of the executable code agrees with `resolved`.
pub open spec fn resolves_to(r: Result<SyntaxComponent, String>, m: Result<Syn, Seq<char>>) -> bool {
    match m {
        Ok(s) => r is Ok && r->Ok_0.model() == s,
        Err(e) => r is Err && r->Err_0@ == e,
    }
}

fn resolve_component(
    c: &SyntaxComponent,
    syns: &Vec<SyntaxDefinition>,
    fns: &Vec<FunctionDefinition>,
    path: &Vec<String>,
    fuel: usize,
) -> (r: Result<SyntaxComponent, String>)
    ensures
        resolves_to(r, resolved(c.model(), syntax_pairs(syns@), function_pairs(fns@), names_of(path@), fuel as nat)),
    decreases fuel, *c, 0nat,
{
    match &c.kind {
        ComponentKind::TypeReference(name, range) => {
            match scalar_kind_of(name.as_str()) {
                Some(k) => Ok(SyntaxComponent { kind: ComponentKind::Scalar(k, *range), multiplier: c.multiplier, non_empty: c.non_empty }),
                None => {
                    let deep = count_on_path(path, name.as_str()) >= SELF_NESTING || fuel == 0;
                    match find_syntax_index(syns, name.as_str()) {
                        Some(x) => {
                            if deep {
                                Ok(clone_component(c))
                            } else {
                                let inner = extended(path, name);
                                let t = resolve_component(&syns[x].syntax.root, syns, fns, &inner, fuel - 1);
                                inline_into(c, t)
                            }
                        },
                        None => match find_function_index(fns, name.as_str()) {
                            Some(x) => {
                                if deep {
                                    Ok(clone_component(c))
                                } else {
                                    let inner = extended(path, name);
                                    let t = resolve_component(&fns[x].syntax.root, syns, fns, &inner, fuel - 1);
                                    inline_into(c, t)
                                }
                            },
                            None => Err(name.clone()),
                        },
                    }
                },
            }
        },
        ComponentKind::FunctionReference(name) => {
            let deep = count_on_path(path, name.as_str()) >= SELF_NESTING || fuel == 0;
            match find_function_index(fns, name.as_str()) {
                Some(x) => {
                    if deep {
                        Ok(clone_component(c))
                    } else {
                        let inner = extended(path, name);
                        let t = resolve_component(&fns[x].syntax.root, syns, fns, &inner, fuel - 1);
                        inline_into(c, t)
                    }
                },
                None => Err(name.clone()),
            }
        },
        ComponentKind::Function(name, args) => {
            match resolve_component(args, syns, fns, path, fuel) {
                Ok(a) => Ok(SyntaxComponent { kind: ComponentKind::Function(name.clone(), Box::new(a)), multiplier: c.multiplier, non_empty: c.non_empty }),
                Err(e) => Err(e),
            }
        },
        ComponentKind::Group(ch, comb) => {
            proof {
                lemma_models_len(ch@, ch@.len());
            }
            let mut out: Vec<SyntaxComponent> = Vec::new();
            let mut k: usize = 0;
            while k < ch.len()
                invariant
                    k <= ch@.len(),
                    c.kind == ComponentKind::Group(*ch, *comb),
                    out@.len() == k,
                    resolved_children(models(ch@, ch@.len()), syntax_pairs(syns@), function_pairs(fns@), names_of(path@), fuel as nat, k as nat)
                        == Ok::<Seq<Syn>, Seq<char>>(models(out@, k as nat)),
                decreases ch@.len() - k,
            {
                proof {
                    lemma_models_len(ch@, ch@.len());
                }
                match resolve_component(&ch[k], syns, fns, path, fuel) {
                    Err(e) => {
                        proof {
                            lemma_children_error_stays(
                                models(ch@, ch@.len()),
                                syntax_pairs(syns@),
                                function_pairs(fns@),
                                names_of(path@),
                                fuel as nat,
                                (k + 1) as nat,
                                ch@.len(),
                            );
                        }
                        return Err(e);
                    },
                    Ok(rc) => {
                        let ghost before = out@;
                        out.push(rc);
                        proof {
                            lemma_models_prefix(before, out@, k as nat);
                        }
                        k = k + 1;
                    },
                }
            }
            proof {
                lemma_models_len(ch@, ch@.len());
            }
            Ok(SyntaxComponent { kind: ComponentKind::Group(out, *comb), multiplier: c.multiplier, non_empty: c.non_empty })
        },
        _ => Ok(clone_component(c)),
    }
}

/// How many times matching through the registry may re-enter a named grammar on one
/// path.
pub const MATCH_DEPTH: usize = 32;

/// Longest chain of nested references that resolution follows.
pub const RESOLVE_DEPTH: usize = 64;

/// Resolves every reference of a compiled grammar against the shared types and
/// functions given (see `resolved`); `Err` names a reference that nothing defines.
pub fn resolve_tree(tree: &SyntaxTree, syns: &Vec<SyntaxDefinition>, fns: &Vec<FunctionDefinition>) -> (r: Result<SyntaxTree, String>)
    ensures
        match resolved(tree.root.model(), syntax_pairs(syns@), function_pairs(fns@), Seq::empty(), RESOLVE_DEPTH as nat) {
            Ok(m) => r is Ok && r->Ok_0.root.model() == m,
            Err(e) => r is Err && r->Err_0@ == e,
        },
{
    let path: Vec<String> = Vec::new();
    proof {
        assert(names_of(path@) =~= Seq::empty());
    }
    match resolve_component(&tree.root, syns, fns, &path, RESOLVE_DEPTH) {
        Ok(root) => Ok(SyntaxTree { root }),
        Err(e) => Err(e),
    }
}

/// Two property definitions hold the same data.
pub open spec fn same_property(a: PropertyDefinition, b: PropertyDefinition) -> bool {
    &&& a.name@ == b.name@
    &&& a.computed@ == b.computed@
    &&& a.syntax.root.model() == b.syntax.root.model()
    &&& a.inherited == b.inherited
    &&& a.initial_value is Some == b.initial_value is Some
    &&& (a.initial_value is Some ==> same_value(a.initial_value->0, b.initial_value->0))
    &&& a.mdn_url@ == b.mdn_url@
}

fn copy_strings(v: &Vec<String>) -> (r: Vec<String>)
    ensures
        r@ == v@,
{
    let mut r: Vec<String> = Vec::new();
    let mut k: usize = 0;
    while k < v.len()
        invariant
            k <= v@.len(),
            r@ == v@.subrange(0, k as int),
        decreases v@.len() - k,
    {
        r.push(v[k].clone());
        k = k + 1;
        assert(r@ =~= v@.subrange(0, k as int));
    }
    assert(r@ =~= v@);
    r
}

impl PropertyDefinition {
    /// A property definition from its parts.
    pub fn new(
        name: &str,
        computed: Vec<String>,
        syntax: SyntaxTree,
        inherited: bool,
        initial_value: Option<CssValue>,
        mdn_url: &str,
    ) -> (r: PropertyDefinition)
        ensures
            r.name@ == name@,
            r.computed == computed,
            r.syntax == syntax,
            r.inherited == inherited,
            r.initial_value == initial_value,
            r.mdn_url@ == mdn_url@,
    {
        PropertyDefinition {
            name: name.to_owned(),
            computed,
            syntax,
            inherited,
            initial_value,
            mdn_url: mdn_url.to_owned(),
        }
    }

    /// A copy of the definition.
    pub fn copy(&self) -> (r: PropertyDefinition)
        ensures
            same_property(*self, r),
    {
        PropertyDefinition {
            name: self.name.clone(),
            computed: copy_strings(&self.computed),
            syntax: SyntaxTree { root: clone_component(&self.syntax.root) },
            inherited: self.inherited,
            initial_value: match &self.initial_value {
                Some(v) => Some(clone_value(v)),
                None => None,
            },
            mdn_url: self.mdn_url.clone(),
        }
    }

    pub fn name(self) -> (r: String)
        ensures
            r == self.name,
    {
        self.name
    }

    /// The longhand properties that this shorthand expands to (empty for a longhand).
    pub fn expanded_properties(self) -> (r: Vec<String>)
        ensures
            r == self.computed,
    {
        self.computed
    }

    pub fn syntax(self) -> (r: SyntaxTree)
        ensures
            r == self.syntax,
    {
        self.syntax
    }

    pub fn inherited(self) -> (r: bool)
        ensures
            r == self.inherited,
    {
        self.inherited
    }

    pub fn has_initial_value(self) -> (r: bool)
        ensures
            r == self.initial_value is Some,
    {
        self.initial_value.is_some()
    }

    /// The initial value, or the keyword `none` when the property has none.
    pub fn initial_value(self) -> (r: CssValue)
        ensures
            match self.initial_value {
                Some(v) => r == v,
                None => r is NoneKeyword,
            },
    {
        match self.initial_value {
            Some(v) => v,
            None => CssValue::NoneKeyword,
        }
    }

    /// Matches a value against the property's grammar.
    pub fn matches(self, value: &CssValue) -> (r: Option<CssValue>)
        ensures
            r is Some == accepts(self.syntax, *value),
            r matches Some(c) ==> canonical_form(self.syntax, *value, c),
    {
        self.syntax.matches(value)
    }

    /// Values given for the expanded properties are only recorded, not checked against
    /// the longhands' grammars, so any list is accepted.
    pub fn check_expanded_properties(&self, _values: &[CssValue]) -> (r: bool)
        ensures
            r,
    {
        true
    }
}

impl SyntaxDefinition {
    /// A shared type from its name and grammar.
    pub fn new(name: &str, syntax: SyntaxTree) -> (r: SyntaxDefinition)
        ensures
            r.name@ == name@,
            r.syntax == syntax,
    {
        SyntaxDefinition { name: name.to_owned(), syntax }
    }

    /// A copy of the definition.
    pub fn copy(&self) -> (r: SyntaxDefinition)
        ensures
            r.name@ == self.name@,
            r.syntax.root.model() == self.syntax.root.model(),
    {
        SyntaxDefinition { name: self.name.clone(), syntax: SyntaxTree { root: clone_component(&self.syntax.root) } }
    }
}

impl FunctionDefinition {
    /// A function definition from its parts.
    pub fn new(name: &str, syntax: SyntaxTree, mdn_url: &str) -> (r: FunctionDefinition)
        ensures
            r.name@ == name@,
            r.syntax == syntax,
            r.mdn_url@ == mdn_url@,
    {
        FunctionDefinition { name: name.to_owned(), syntax, mdn_url: mdn_url.to_owned() }
    }

    /// A copy of the definition.
    pub fn copy(&self) -> (r: FunctionDefinition)
        ensures
            r.name@ == self.name@,
            r.syntax.root.model() == self.syntax.root.model(),
            r.mdn_url@ == self.mdn_url@,
    {
        FunctionDefinition {
            name: self.name.clone(),
            syntax: SyntaxTree { root: clone_component(&self.syntax.root) },
            mdn_url: self.mdn_url.clone(),
        }
    }

    /// Matches a value against the function's grammar.
    pub fn matches(&self, value: &CssValue) -> (r: Option<CssValue>)
        ensures
            r is Some == accepts(self.syntax, *value),
            r matches Some(c) ==> canonical_form(self.syntax, *value, c),
    {
        self.syntax.matches(value)
    }
}

/// A function of the catalog, as its provider hands it over.
#[derive(Debug)]
pub struct FunctionEntry {
    pub name: String,
    pub syntax: String,
    pub mdn_url: String,
}

/// A shared type of the catalog, as its provider hands it over.
#[derive(Debug)]
pub struct SyntaxEntry {
    pub name: String,
    pub syntax: String,
}

/// A property of the catalog, as its provider hands it over.
#[derive(Debug)]
pub struct PropertyEntry {
    pub name: String,
    pub syntax: String,
    pub computed: Vec<String>,
    pub inherited: bool,
    pub initial_value: Option<CssValue>,
    pub mdn_url: String,
}

/// The registry: every property, function and shared type by name, and the names of
/// the catalog entries that failed to load.
#[derive(Debug)]
pub struct CssDefinitions {
    pub properties: Table<PropertyDefinition>,
    pub functions: Table<FunctionDefinition>,
    pub syntax: Table<SyntaxDefinition>,
    pub failed: Vec<String>,
}

/// The property has an initial value that its own grammar rejects.
pub open spec fn mismatched(p: PropertyDefinition) -> bool {
    p.initial_value matches Some(v) && !accepts(p.syntax, v)
}

/// `failed` names the entry.
pub open spec fn listed(failed: Seq<String>, name: Seq<char>) -> bool {
    exists|i: int| 0 <= i < failed.len() && #[trigger] failed[i]@ == name
}

fn record_failure(failed: &mut Vec<String>, name: &String)
    ensures
        forall|n: Seq<char>| #[trigger] listed(final(failed)@, n) <==> (listed(old(failed)@, n) || n == name@),
{
    let ghost before = failed@;
    failed.push(name.clone());
    proof {
        assert forall|n: Seq<char>| #[trigger] listed(failed@, n) <==> (listed(before, n) || n == name@) by {
            if listed(before, n) {
                let i = choose|i: int| 0 <= i < before.len() && #[trigger] before[i]@ == n;
                assert(failed@[i]@ == n);
            }
            if n == name@ {
                assert(failed@[before.len() as int]@ == name@);
            }
            if listed(failed@, n) && n != name@ {
                let i = choose|i: int| 0 <= i < failed@.len() && #[trigger] failed@[i]@ == n;
                assert(i < before.len());
                assert(before[i]@ == n);
            }
        }
    }
}

/// The grammars of the first `k` function entries that compile, in catalog order,
/// where an entry counts only if no later entry has its name.
pub open spec fn compiled_functions(es: Seq<FunctionEntry>, k: int) -> Seq<Named>
    decreases k,
{
    if k <= 0 || k > es.len() {
        Seq::empty()
    } else {
        let prev = compiled_functions(es, k - 1);
        match compiled(es[k - 1].syntax@) {
            Ok(m) => if last_index(function_names(es), es[k - 1].name@, es.len() as int) == Some(k - 1) {
                prev.push((es[k - 1].name@, m))
            } else {
                prev
            },
            Err(_) => prev,
        }
    }
}

/// The grammars of the first `k` shared-type entries that compile, in catalog order,
/// where an entry counts only if no later entry has its name.
pub open spec fn compiled_syntaxes(es: Seq<SyntaxEntry>, k: int) -> Seq<Named>
    decreases k,
{
    if k <= 0 || k > es.len() {
        Seq::empty()
    } else {
        let prev = compiled_syntaxes(es, k - 1);
        match compiled(es[k - 1].syntax@) {
            Ok(m) => if last_index(syntax_names(es), es[k - 1].name@, es.len() as int) == Some(k - 1) {
                prev.push((es[k - 1].name@, m))
            } else {
                prev
            },
            Err(_) => prev,
        }
    }
}

/// What a grammar text becomes in a registry built from the catalog's shared types
/// `ss` and functions `fs`: compiled, then resolved against the compiled shared types
/// and functions of the catalog. `None` when either step fails.
pub open spec fn catalog_grammar(text: Seq<char>, ss: Seq<SyntaxEntry>, fs: Seq<FunctionEntry>) -> Option<Syn> {
    match compiled(text) {
        Ok(m) => match resolved(
            m,
            compiled_syntaxes(ss, ss.len() as int),
            compiled_functions(fs, fs.len() as int),
            Seq::empty(),
            RESOLVE_DEPTH as nat,
        ) {
            Ok(r) => Some(r),
            Err(_) => None,
        },
        Err(_) => None,
    }
}

/// What a property entry's grammar becomes (its catalog grammar); `None` marks a
/// failed entry.
pub open spec fn property_grammar(e: PropertyEntry, ss: Seq<SyntaxEntry>, fs: Seq<FunctionEntry>) -> Option<Syn> {
    catalog_grammar(e.syntax@, ss, fs)
}

/// Index of the last of the first `k` names that is `n`.
pub open spec fn last_index(names: Seq<Seq<char>>, n: Seq<char>, k: int) -> Option<int>
    decreases k,
{
    if k <= 0 || k > names.len() {
        None
    } else if names[k - 1] == n {
        Some(k - 1)
    } else {
        last_index(names, n, k - 1)
    }
}

pub open spec fn function_names(es: Seq<FunctionEntry>) -> Seq<Seq<char>> {
    es.map_values(|e: FunctionEntry| e.name@)
}

pub open spec fn syntax_names(es: Seq<SyntaxEntry>) -> Seq<Seq<char>> {
    es.map_values(|e: SyntaxEntry| e.name@)
}

pub open spec fn property_names(es: Seq<PropertyEntry>) -> Seq<Seq<char>> {
    es.map_values(|e: PropertyEntry| e.name@)
}

/// Under the name `n`, the function table holds what the last of the first `k`
/// function entries named `n` yields: its name, resolved grammar and URL; nothing when
/// that entry fails or no entry has the name.
pub open spec fn function_loaded(
    t: Table<FunctionDefinition>,
    fs: Seq<FunctionEntry>,
    ss: Seq<SyntaxEntry>,
    n: Seq<char>,
    k: int,
) -> bool {
    match last_index(function_names(fs), n, k) {
        None => t.value_of(n) is None,
        Some(i) => match catalog_grammar(fs[i].syntax@, ss, fs) {
            Some(m) => (t.value_of(n) matches Some(d) && d.name@ == n && d.syntax.root.model() == m
                && d.mdn_url@ == fs[i].mdn_url@),
            None => t.value_of(n) is None,
        },
    }
}

/// Under the name `n`, the shared-type table holds what the last of the first `k`
/// shared-type entries named `n` yields; nothing when that entry fails or no entry has
/// the name.
pub open spec fn syntax_loaded(
    t: Table<SyntaxDefinition>,
    ss: Seq<SyntaxEntry>,
    fs: Seq<FunctionEntry>,
    n: Seq<char>,
    k: int,
) -> bool {
    match last_index(syntax_names(ss), n, k) {
        None => t.value_of(n) is None,
        Some(i) => match catalog_grammar(ss[i].syntax@, ss, fs) {
            Some(m) => (t.value_of(n) matches Some(d) && d.name@ == n && d.syntax.root.model() == m),
            None => t.value_of(n) is None,
        },
    }
}

/// Under the name `n`, the property table holds what the last of the first `k`
/// property entries named `n` yields: the entry's fields with its resolved grammar;
/// nothing when that entry fails or no entry has the name.
pub open spec fn property_loaded(
    t: Table<PropertyDefinition>,
    ps: Seq<PropertyEntry>,
    ss: Seq<SyntaxEntry>,
    fs: Seq<FunctionEntry>,
    n: Seq<char>,
    k: int,
) -> bool {
    match last_index(property_names(ps), n, k) {
        None => t.value_of(n) is None,
        Some(i) => match property_grammar(ps[i], ss, fs) {
            Some(m) => (t.value_of(n) matches Some(p) && p.name@ == n && p.syntax.root.model() == m
                && p.computed@ == ps[i].computed@ && p.inherited == ps[i].inherited && p.initial_value
                == ps[i].initial_value && p.mdn_url@ == ps[i].mdn_url@),
            None => t.value_of(n) is None,
        },
    }
}

/// Some function entry among the first `k`, named `n`, fails.
pub open spec fn function_failed(fs: Seq<FunctionEntry>, ss: Seq<SyntaxEntry>, n: Seq<char>, k: int) -> bool
    decreases k,
{
    0 < k <= fs.len() && (function_failed(fs, ss, n, k - 1) || (fs[k - 1].name@ == n && catalog_grammar(
        fs[k - 1].syntax@,
        ss,
        fs,
    ) is None))
}

/// Some shared-type entry among the first `k`, named `n`, fails.
pub open spec fn syntax_failed(ss: Seq<SyntaxEntry>, fs: Seq<FunctionEntry>, n: Seq<char>, k: int) -> bool
    decreases k,
{
    0 < k <= ss.len() && (syntax_failed(ss, fs, n, k - 1) || (ss[k - 1].name@ == n && catalog_grammar(
        ss[k - 1].syntax@,
        ss,
        fs,
    ) is None))
}

/// Some property entry among the first `k`, named `n`, fails.
pub open spec fn property_failed(
    ps: Seq<PropertyEntry>,
    ss: Seq<SyntaxEntry>,
    fs: Seq<FunctionEntry>,
    n: Seq<char>,
    k: int,
) -> bool
    decreases k,
{
    0 < k <= ps.len() && (property_failed(ps, ss, fs, n, k - 1) || (ps[k - 1].name@ == n
        && property_grammar(ps[k - 1], ss, fs) is None))
}


proof fn lemma_last_index_at_least(names: Seq<Seq<char>>, n: Seq<char>, j: int, m: int)
    requires
        0 <= j < m <= names.len(),
        names[j] == n,
    ensures
        last_index(names, n, m) matches Some(x) && x >= j,
    decreases m,
{
    if m - 1 > j && names[m - 1] != n {
        lemma_last_index_at_least(names, n, j, m - 1);
    }
}

fn last_function_of_name(es: &Vec<FunctionEntry>, k: usize) -> (r: bool)
    requires
        k < es@.len(),
    ensures
        r == (last_index(function_names(es@), es@[k as int].name@, es@.len() as int) == Some(k as int)),
{
    let ghost names = function_names(es@);
    let ghost n = es@[k as int].name@;
    let total = es.len();
    let mut j = k + 1;
    while j < es.len()
        invariant
            k < j <= es@.len(),
            names == function_names(es@),
            n == es@[k as int].name@,
            last_index(names, n, j as int) == Some(k as int),
        decreases es@.len() - j,
    {
        if str_eq(es[j].name.as_str(), es[k].name.as_str()) {
            proof {
                lemma_last_index_at_least(names, n, j as int, es@.len() as int);
            }
            return false;
        }
        j = j + 1;
    }
    true
}

fn last_syntax_of_name(es: &Vec<SyntaxEntry>, k: usize) -> (r: bool)
    requires
        k < es@.len(),
    ensures
        r == (last_index(syntax_names(es@), es@[k as int].name@, es@.len() as int) == Some(k as int)),
{
    let ghost names = syntax_names(es@);
    let ghost n = es@[k as int].name@;
    let total = es.len();
    let mut j = k + 1;
    while j < es.len()
        invariant
            k < j <= es@.len(),
            names == syntax_names(es@),
            n == es@[k as int].name@,
            last_index(names, n, j as int) == Some(k as int),
        decreases es@.len() - j,
    {
        if str_eq(es[j].name.as_str(), es[k].name.as_str()) {
            proof {
                lemma_last_index_at_least(names, n, j as int, es@.len() as int);
            }
            return false;
        }
        j = j + 1;
    }
    true
}

/// Every property entry's initial value, if any, is accepted by the entry's own
/// grammar as the catalog resolves it.
pub open spec fn initial_values_fit(ps: Seq<PropertyEntry>, ss: Seq<SyntaxEntry>, fs: Seq<FunctionEntry>) -> bool {
    forall|i: int|
        0 <= i < ps.len() ==> match #[trigger] catalog_grammar(ps[i].syntax@, ss, fs) {
            Some(m) => (ps[i].initial_value matches Some(v) ==> accepts_model(m, v)),
            None => true,
        }
}

/// Round trip: in a registry loaded from a catalog whose initial values fit their own
/// grammars, the initial value stored for a property is accepted by that property's
/// stored grammar.
pub proof fn lemma_initial_value_round_trip(
    defs: CssDefinitions,
    ps: Seq<PropertyEntry>,
    ss: Seq<SyntaxEntry>,
    fs: Seq<FunctionEntry>,
    name: Seq<char>,
)
    requires
        initial_values_fit(ps, ss, fs),
        property_loaded(defs.properties, ps, ss, fs, name, ps.len() as int),
        defs.properties.value_of(name) is Some,
        defs.properties.value_of(name)->0.initial_value is Some,
    ensures
        accepts(
            defs.properties.value_of(name)->0.syntax,
            defs.properties.value_of(name)->0.initial_value->0,
        ),
{
    lemma_last_index_bounds(property_names(ps), name, ps.len() as int);
    let i = last_index(property_names(ps), name, ps.len() as int)->0;
    assert(match catalog_grammar(ps[i].syntax@, ss, fs) {
        Some(m) => (ps[i].initial_value matches Some(v) ==> accepts_model(m, v)),
        None => true,
    });
}

/// A copy of a property (as `find_property` returns) matches its initial value exactly
/// when the definition it was copied from does, so the round trip survives copying.
pub proof fn lemma_copy_keeps_round_trip(p: PropertyDefinition, q: PropertyDefinition)
    requires
        same_property(p, q),
        p.initial_value is Some,
    ensures
        accepts(q.syntax, q.initial_value->0) == accepts(p.syntax, p.initial_value->0),
{
    crate::laws::lemma_accepts_same_value(
        crate::matcher::no_scope(),
        p.syntax.root.model(),
        p.initial_value->0,
        q.initial_value->0,
    );
}

proof fn lemma_last_index_bounds(names: Seq<Seq<char>>, n: Seq<char>, k: int)
    ensures
        last_index(names, n, k) matches Some(i) ==> 0 <= i < k && i < names.len(),
    decreases k,
{
    if k > 0 && k <= names.len() && names[k - 1] != n {
        lemma_last_index_bounds(names, n, k - 1);
    }
}

impl CssDefinitions {
    /// Each table holds at most one entry per name.
    pub open spec fn wf(self) -> bool {
        self.properties.wf() && self.functions.wf() && self.syntax.wf()
    }

    /// An empty registry.
    pub fn new() -> (r: CssDefinitions)
        ensures
            r.wf(),
            r.properties.entries@.len() == 0,
            r.functions.entries@.len() == 0,
            r.syntax.entries@.len() == 0,
            r.failed@.len() == 0,
    {
        CssDefinitions {
            properties: Table::new(),
            functions: Table::new(),
            syntax: Table::new(),
            failed: Vec::new(),
        }
    }

    /// Adds a property definition under `name`, replacing any other of that name.
    pub fn add_property(&mut self, name: &str, property: PropertyDefinition)
        requires
            old(self).wf(),
        ensures
            final(self).wf(),
            final(self).properties.value_of(name@) == Some(property),
            final(self).properties.entries@.len() == old(self).properties.entries@.len() + (if old(
                self,
            ).properties.value_of(name@) is Some {
                0int
            } else {
                1int
            }),
            forall|n: Seq<char>| n != name@ ==> final(self).properties.value_of(n) == old(self).properties.value_of(n),
            final(self).functions == old(self).functions,
            final(self).syntax == old(self).syntax,
            final(self).failed == old(self).failed,
    {
        self.properties.insert(name, property);
    }

    /// Adds a shared type under `name`, replacing any other of that name.
    pub fn add_syntax(&mut self, name: &str, syntax: SyntaxDefinition)
        requires
            old(self).wf(),
        ensures
            final(self).wf(),
            final(self).syntax.value_of(name@) == Some(syntax),
            final(self).syntax.entries@.len() == old(self).syntax.entries@.len() + (if old(
                self,
            ).syntax.value_of(name@) is Some {
                0int
            } else {
                1int
            }),
            forall|n: Seq<char>| n != name@ ==> final(self).syntax.value_of(n) == old(self).syntax.value_of(n),
            final(self).functions == old(self).functions,
            final(self).properties == old(self).properties,
            final(self).failed == old(self).failed,
    {
        self.syntax.insert(name, syntax);
    }

    /// Adds a function definition under `name`, replacing any other of that name.
    pub fn add_function(&mut self, name: &str, function: FunctionDefinition)
        requires
            old(self).wf(),
        ensures
            final(self).wf(),
            final(self).functions.value_of(name@) == Some(function),
            final(self).functions.entries@.len() == old(self).functions.entries@.len() + (if old(
                self,
            ).functions.value_of(name@) is Some {
                0int
            } else {
                1int
            }),
            forall|n: Seq<char>| n != name@ ==> final(self).functions.value_of(n) == old(self).functions.value_of(n),
            final(self).syntax == old(self).syntax,
            final(self).properties == old(self).properties,
            final(self).failed == old(self).failed,
    {
        self.functions.insert(name, function);
    }

    /// Matches a value against a grammar, each reference left in it re-entering the
    /// registry's shared types and functions, at most `MATCH_DEPTH` times on one path.
    pub fn matches_tree(&self, tree: &SyntaxTree, value: &CssValue) -> (r: Option<CssValue>)
        ensures
            r is Some == accepts_in(scope_of(self.syntax, self.functions, MATCH_DEPTH as nat), tree.root.model(), *value),
            r matches Some(c) ==> canonical_form(*tree, *value, c),
    {
        matches_in(tree, value, &self.syntax, &self.functions, MATCH_DEPTH)
    }

    /// Matches a value against the property stored under `name` (see `matches_tree`);
    /// `None` when no property has that name.
    pub fn match_property(&self, name: &str, value: &CssValue) -> (r: Option<CssValue>)
        ensures
            match self.properties.value_of(name@) {
                Some(p) => (r is Some == accepts_in(
                    scope_of(self.syntax, self.functions, MATCH_DEPTH as nat),
                    p.syntax.root.model(),
                    *value,
                )) && (r matches Some(c) ==> canonical_form(p.syntax, *value, c)),
                None => r is None,
            },
    {
        match self.properties.get(name) {
            Some(p) => self.matches_tree(&p.syntax, value),
            None => None,
        }
    }

    /// The names of the stored properties whose own grammar rejects their initial value.
    pub fn initial_value_mismatches(&self) -> (r: Vec<String>)
        requires
            self.wf(),
        ensures
            forall|n: Seq<char>| #[trigger] listed(r@, n) <==> (self.properties.value_of(n) matches Some(p)
                && mismatched(p)),
    {
        let es = &self.properties.entries;
        let mut out: Vec<String> = Vec::new();
        let mut k: usize = 0;
        while k < es.len()
            invariant
                self.wf(),
                es == &self.properties.entries,
                k <= es@.len(),
                forall|n: Seq<char>| #[trigger] listed(out@, n) <==> exists|i: int| 0 <= i < k && es@[i].0@ == n
                    && #[trigger] mismatched(es@[i].1),
            decreases es@.len() - k,
        {
            let p = &es[k].1;
            let bad = match &p.initial_value {
                Some(v) => p.syntax.matches(v).is_none(),
                None => false,
            };
            let ghost before = out@;
            if bad {
                record_failure(&mut out, &es[k].0);
            }
            proof {
                assert forall|n: Seq<char>| #[trigger] listed(out@, n) <==> exists|i: int| 0 <= i < k + 1 && es@[i].0@ == n
                    && #[trigger] mismatched(es@[i].1) by {
                    if listed(out@, n) && !listed(before, n) {
                        assert(es@[k as int].0@ == n && mismatched(es@[k as int].1));
                    }
                    if exists|i: int| 0 <= i < k + 1 && es@[i].0@ == n && #[trigger] mismatched(es@[i].1) {
                        let i = choose|i: int| 0 <= i < k + 1 && es@[i].0@ == n && #[trigger] mismatched(es@[i].1);
                        if i < k {
                            assert(listed(before, n));
                        }
                    }
                }
            }
            k = k + 1;
        }
        proof {
            assert forall|n: Seq<char>| #[trigger] listed(out@, n) <==> (self.properties.value_of(n) matches Some(p)
                && mismatched(p)) by {
                crate::table::lemma_index_from(es@, n, 0);
                if listed(out@, n) {
                    let i = choose|i: int| 0 <= i < es@.len() && es@[i].0@ == n && #[trigger] mismatched(es@[i].1);
                    crate::table::lemma_index_unique(es@, n, i);
                    assert(self.properties.value_of(n) == Some(es@[i].1));
                }
                if self.properties.value_of(n) matches Some(p) && mismatched(p) {
                    let i = crate::table::index_from(es@, n, 0)->0;
                    assert(es@[i].0@ == n && mismatched(es@[i].1));
                }
            }
        }
        out
    }

    /// A copy of the property stored under `name`.
    pub fn find_property(&self, name: &str) -> (r: Option<PropertyDefinition>)
        ensures
            match self.properties.value_of(name@) {
                Some(p) => r is Some && same_property(p, r->0),
                None => r is None,
            },
    {
        match self.properties.get(name) {
            Some(p) => Some(p.copy()),
            None => None,
        }
    }

    /// A copy of the function stored under `name`.
    pub fn find_function(&self, name: &str) -> (r: Option<FunctionDefinition>)
        ensures
            match self.functions.value_of(name@) {
                Some(f) => r is Some && r->0.name@ == f.name@ && r->0.syntax.root.model()
                    == f.syntax.root.model() && r->0.mdn_url@ == f.mdn_url@,
                None => r is None,
            },
    {
        match self.functions.get(name) {
            Some(f) => Some(f.copy()),
            None => None,
        }
    }

    /// A copy of the shared type stored under `name`.
    pub fn find_syntax(&self, name: &str) -> (r: Option<SyntaxDefinition>)
        ensures
            match self.syntax.value_of(name@) {
                Some(s) => r is Some && r->0.name@ == s.name@ && r->0.syntax.root.model()
                    == s.syntax.root.model(),
                None => r is None,
            },
    {
        match self.syntax.get(name) {
            Some(s) => Some(s.copy()),
            None => None,
        }
    }

    /// The property definitions.
    pub fn get_properties(self) -> (r: Table<PropertyDefinition>)
        ensures
            r == self.properties,
    {
        self.properties
    }

    /// Number of property definitions.
    pub fn len(&self) -> (r: usize)
        ensures
            r == self.properties.entries@.len(),
    {
        self.properties.len()
    }

    /// True when there is no property definition.
    pub fn is_empty(&self) -> (r: bool)
        ensures
            r == (self.properties.entries@.len() == 0),
    {
        self.properties.is_empty()
    }

    /// Builds the registry from a catalog. Every grammar is compiled, then its
    /// references are resolved against the compiled shared types and functions of the
    /// catalog. For each name, a table holds what the last entry of that name yields;
    /// an entry whose grammar does not compile or names something that nothing defines
    /// leaves its name out of the table and recorded in `failed`. A property keeps its
    /// initial value as given; `initial_value_mismatches` reports those that its own
    /// grammar rejects.
    pub fn load(functions: &Vec<FunctionEntry>, syntaxes: &Vec<SyntaxEntry>, properties: Vec<PropertyEntry>) -> (r: CssDefinitions)
        ensures
            r.wf(),
            forall|n: Seq<char>| #[trigger] function_loaded(r.functions, functions@, syntaxes@, n, functions@.len() as int),
            forall|n: Seq<char>| #[trigger] syntax_loaded(r.syntax, syntaxes@, functions@, n, syntaxes@.len() as int),
            forall|n: Seq<char>|
                #[trigger] property_loaded(r.properties, properties@, syntaxes@, functions@, n, properties@.len() as int),
            forall|n: Seq<char>| #[trigger] r.functions.value_of(n) matches Some(d) ==> no_dangling(
                d.syntax.root.model(),
                syntaxes@,
                functions@,
            ),
            forall|n: Seq<char>| #[trigger] r.syntax.value_of(n) matches Some(d) ==> no_dangling(
                d.syntax.root.model(),
                syntaxes@,
                functions@,
            ),
            forall|n: Seq<char>| #[trigger] r.properties.value_of(n) matches Some(p) ==> no_dangling(
                p.syntax.root.model(),
                syntaxes@,
                functions@,
            ),
            forall|n: Seq<char>| #[trigger] listed(r.failed@, n) <==> (function_failed(
                functions@,
                syntaxes@,
                n,
                functions@.len() as int,
            ) || syntax_failed(syntaxes@, functions@, n, syntaxes@.len() as int) || property_failed(
                properties@,
                syntaxes@,
                functions@,
                n,
                properties@.len() as int,
            )),
    {
        let ghost fs = functions@;
        let ghost ss = syntaxes@;
        let ghost ps = properties@;
        let mut fns: Vec<FunctionDefinition> = Vec::new();
        let mut k: usize = 0;
        while k < functions.len()
            invariant
                fs == functions@,
                k <= fs.len(),
                function_pairs(fns@) == compiled_functions(fs, k as int),
            decreases fs.len() - k,
        {
            let e = &functions[k];
            let last = last_function_of_name(functions, k);
            match compile(e.syntax.as_str()) {
                Ok(tree) => {
                    if last {
                        let ghost before = fns@;
                        fns.push(FunctionDefinition { name: e.name.clone(), syntax: tree, mdn_url: e.mdn_url.clone() });
                        assert(function_pairs(fns@) =~= function_pairs(before).push((e.name@, tree.root.model())));
                    }
                },
                Err(_) => {},
            }
            k = k + 1;
        }
        let mut syns: Vec<SyntaxDefinition> = Vec::new();
        let mut k: usize = 0;
        while k < syntaxes.len()
            invariant
                ss == syntaxes@,
                k <= ss.len(),
                syntax_pairs(syns@) == compiled_syntaxes(ss, k as int),
            decreases ss.len() - k,
        {
            let e = &syntaxes[k];
            let last = last_syntax_of_name(syntaxes, k);
            match compile(e.syntax.as_str()) {
                Ok(tree) => {
                    if last {
                        let ghost before = syns@;
                        syns.push(SyntaxDefinition { name: e.name.clone(), syntax: tree });
                        assert(syntax_pairs(syns@) =~= syntax_pairs(before).push((e.name@, tree.root.model())));
                    }
                },
                Err(_) => {},
            }
            k = k + 1;
        }
        let mut defs = CssDefinitions::new();
        let mut k: usize = 0;
        while k < functions.len()
            invariant
                fs == functions@,
                ss == syntaxes@,
                k <= fs.len(),
                defs.wf(),
                syntax_pairs(syns@) == compiled_syntaxes(ss, ss.len() as int),
                function_pairs(fns@) == compiled_functions(fs, fs.len() as int),
                forall|n: Seq<char>| #[trigger] function_loaded(defs.functions, fs, ss, n, k as int),
                forall|n: Seq<char>| defs.syntax.value_of(n) is None,
                forall|n: Seq<char>| defs.properties.value_of(n) is None,
                forall|n: Seq<char>| #[trigger] listed(defs.failed@, n) <==> function_failed(fs, ss, n, k as int),
            decreases fs.len() - k,
        {
            let e = &functions[k];
            let ghost old_defs = defs;
            let ghost ok: bool;
            match compile(e.syntax.as_str()) {
                Ok(tree) => {
                    match resolve_tree(&tree, &syns, &fns) {
                        Ok(rt) => {
                            let f = FunctionDefinition { name: e.name.clone(), syntax: rt, mdn_url: e.mdn_url.clone() };
                            defs.add_function(e.name.as_str(), f);
                            proof { ok = true; }
                        },
                        Err(_) => {
                            defs.functions.remove(e.name.as_str());
                            record_failure(&mut defs.failed, &e.name);
                            proof { ok = false; }
                        },
                    }
                },
                Err(_) => {
                    defs.functions.remove(e.name.as_str());
                    record_failure(&mut defs.failed, &e.name);
                    proof { ok = false; }
                },
            }
            proof {
                assert(function_names(fs)[k as int] == e.name@);
                assert(ok <==> catalog_grammar(e.syntax@, ss, fs) is Some);
                assert forall|n: Seq<char>| #[trigger] function_loaded(defs.functions, fs, ss, n, k + 1) by {
                    assert(function_loaded(old_defs.functions, fs, ss, n, k as int));
                }
                assert forall|n: Seq<char>| #[trigger] listed(defs.failed@, n) <==> function_failed(fs, ss, n, k + 1) by {
                    assert(listed(old_defs.failed@, n) <==> function_failed(fs, ss, n, k as int));
                }
            }
            k = k + 1;
        }
        let mut k: usize = 0;
        while k < syntaxes.len()
            invariant
                fs == functions@,
                ss == syntaxes@,
                k <= ss.len(),
                defs.wf(),
                syntax_pairs(syns@) == compiled_syntaxes(ss, ss.len() as int),
                function_pairs(fns@) == compiled_functions(fs, fs.len() as int),
                forall|n: Seq<char>| #[trigger] function_loaded(defs.functions, fs, ss, n, fs.len() as int),
                forall|n: Seq<char>| #[trigger] syntax_loaded(defs.syntax, ss, fs, n, k as int),
                forall|n: Seq<char>| defs.properties.value_of(n) is None,
                forall|n: Seq<char>| #[trigger] listed(defs.failed@, n) <==> (function_failed(fs, ss, n, fs.len() as int)
                    || syntax_failed(ss, fs, n, k as int)),
            decreases ss.len() - k,
        {
            let e = &syntaxes[k];
            let ghost old_defs = defs;
            let ghost ok: bool;
            match compile(e.syntax.as_str()) {
                Ok(tree) => {
                    match resolve_tree(&tree, &syns, &fns) {
                        Ok(rt) => {
                            let sd = SyntaxDefinition { name: e.name.clone(), syntax: rt };
                            defs.add_syntax(e.name.as_str(), sd);
                            proof { ok = true; }
                        },
                        Err(_) => {
                            defs.syntax.remove(e.name.as_str());
                            record_failure(&mut defs.failed, &e.name);
                            proof { ok = false; }
                        },
                    }
                },
                Err(_) => {
                    defs.syntax.remove(e.name.as_str());
                    record_failure(&mut defs.failed, &e.name);
                    proof { ok = false; }
                },
            }
            proof {
                assert(syntax_names(ss)[k as int] == e.name@);
                assert(ok <==> catalog_grammar(e.syntax@, ss, fs) is Some);
                assert forall|n: Seq<char>| #[trigger] function_loaded(defs.functions, fs, ss, n, fs.len() as int) by {
                    assert(function_loaded(old_defs.functions, fs, ss, n, fs.len() as int));
                }
                assert forall|n: Seq<char>| #[trigger] syntax_loaded(defs.syntax, ss, fs, n, k + 1) by {
                    assert(syntax_loaded(old_defs.syntax, ss, fs, n, k as int));
                }
                assert forall|n: Seq<char>| #[trigger] listed(defs.failed@, n) <==> (function_failed(fs, ss, n, fs.len() as int)
                    || syntax_failed(ss, fs, n, k + 1)) by {
                    assert(listed(old_defs.failed@, n) <==> (function_failed(fs, ss, n, fs.len() as int)
                        || syntax_failed(ss, fs, n, k as int)));
                }
            }
            k = k + 1;
        }
        let mut rest = properties;
        let total = rest.len();
        let mut k: usize = 0;
        while k < total
            invariant
                total == ps.len(),
                fs == functions@,
                ss == syntaxes@,
                k <= ps.len(),
                rest@ == ps.subrange(k as int, ps.len() as int),
                defs.wf(),
                syntax_pairs(syns@) == compiled_syntaxes(ss, ss.len() as int),
                function_pairs(fns@) == compiled_functions(fs, fs.len() as int),
                forall|n: Seq<char>| #[trigger] function_loaded(defs.functions, fs, ss, n, fs.len() as int),
                forall|n: Seq<char>| #[trigger] syntax_loaded(defs.syntax, ss, fs, n, ss.len() as int),
                forall|n: Seq<char>| #[trigger] property_loaded(defs.properties, ps, ss, fs, n, k as int),
                forall|n: Seq<char>| #[trigger] listed(defs.failed@, n) <==> (function_failed(fs, ss, n, fs.len() as int)
                    || syntax_failed(ss, fs, n, ss.len() as int) || property_failed(ps, ss, fs, n, k as int)),
            decreases ps.len() - k,
        {
            let e = rest.remove(0);
            assert(e == ps[k as int]);
            let ghost old_defs = defs;
            let ghost ok: bool;
            let PropertyEntry { name, syntax, computed, inherited, initial_value, mdn_url } = e;
            match compile(syntax.as_str()) {
                Ok(tree) => {
                    match resolve_tree(&tree, &syns, &fns) {
                        Ok(rt) => {
                            let p = PropertyDefinition {
                                name: name.clone(),
                                computed,
                                syntax: rt,
                                inherited,
                                initial_value,
                                mdn_url,
                            };
                            defs.add_property(name.as_str(), p);
                            proof { ok = true; }
                        },
                        Err(_) => {
                            defs.properties.remove(name.as_str());
                            record_failure(&mut defs.failed, &name);
                            proof { ok = false; }
                        },
                    }
                },
                Err(_) => {
                    defs.properties.remove(name.as_str());
                    record_failure(&mut defs.failed, &name);
                    proof { ok = false; }
                },
            }
            proof {
                assert(property_names(ps)[k as int] == name@);
                assert(ok <==> property_grammar(ps[k as int], ss, fs) is Some);
                assert forall|n: Seq<char>| #[trigger] property_loaded(defs.properties, ps, ss, fs, n, k + 1) by {
                    assert(property_loaded(old_defs.properties, ps, ss, fs, n, k as int));
                }
                assert forall|n: Seq<char>| #[trigger] listed(defs.failed@, n) <==> (function_failed(fs, ss, n, fs.len() as int)
                    || syntax_failed(ss, fs, n, ss.len() as int) || property_failed(ps, ss, fs, n, k + 1)) by {
                    assert(listed(old_defs.failed@, n) <==> (function_failed(fs, ss, n, fs.len() as int)
                        || syntax_failed(ss, fs, n, ss.len() as int) || property_failed(ps, ss, fs, n, k as int)));
                }
                assert(rest@ =~= ps.subrange(k + 1, ps.len() as int));
            }
            k = k + 1;
        }
        proof {
            assert forall|n: Seq<char>| #[trigger] defs.functions.value_of(n) matches Some(d) ==> no_dangling(d.syntax.root.model(), ss, fs) by {
                if defs.functions.value_of(n) is Some {
                    assert(function_loaded(defs.functions, fs, ss, n, fs.len() as int));
                    lemma_last_index_bounds(function_names(fs), n, fs.len() as int);
                    let i = last_index(function_names(fs), n, fs.len() as int)->0;
                    lemma_catalog_grammar_references_defined(fs[i].syntax@, ss, fs);
                }
            }
            assert forall|n: Seq<char>| #[trigger] defs.syntax.value_of(n) matches Some(d) ==> no_dangling(d.syntax.root.model(), ss, fs) by {
                if defs.syntax.value_of(n) is Some {
                    assert(syntax_loaded(defs.syntax, ss, fs, n, ss.len() as int));
                    lemma_last_index_bounds(syntax_names(ss), n, ss.len() as int);
                    let i = last_index(syntax_names(ss), n, ss.len() as int)->0;
                    lemma_catalog_grammar_references_defined(ss[i].syntax@, ss, fs);
                }
            }
            assert forall|n: Seq<char>| #[trigger] defs.properties.value_of(n) matches Some(p) ==> no_dangling(p.syntax.root.model(), ss, fs) by {
                if defs.properties.value_of(n) is Some {
                    assert(property_loaded(defs.properties, ps, ss, fs, n, ps.len() as int));
                    lemma_last_index_bounds(property_names(ps), n, ps.len() as int);
                    let i = last_index(property_names(ps), n, ps.len() as int)->0;
                    lemma_catalog_grammar_references_defined(ps[i].syntax@, ss, fs);
                }
            }
        }
        defs
    }
}

} // verus!
