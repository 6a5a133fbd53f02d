//! General properties of the matcher, proved over its mathematical definition.
use vstd::prelude::*;
use crate::matcher::{
    Scope, accepts_in, then_child, in_order, no_position, MAX_TERMS,
    after_placing, any_order, either, ends, none_left, occurrence_bounds, occurrences,
    occurrences_between, once, one_more, only_position, place_next, scalar_accepts, literal_accepts,
    one_of, reentered,
};
use crate::syntax::{Combinator, Multiplier, NumRange, ScalarKind, Syn, SynKind};
use crate::definitions::scalar_kind_named;
use crate::value::{same_prefix, same_value, terms_of, CssValue, Fixed, FIXED_SCALE};

verus! {

/// The number that a numeric term carries (zero for the unitless `0`).
pub open spec fn numeric_value(term: CssValue) -> Option<Fixed> {
    match term {
        CssValue::Number(n) => Some(n),
        CssValue::Percentage(n) => Some(n),
        CssValue::Unit(n, _) => Some(n),
        CssValue::Zero => Some(Fixed { milli: 0 }),
        _ => None,
    }
}

/// Numeric bounds are inclusive and enforced for every scalar kind: a term that the
/// kind accepts without bounds is rejected when its number lies below the minimum or
/// above the maximum, and accepted when it lies exactly on either bound.
pub proof fn lemma_range_bounds(kind: ScalarKind, lo: i32, hi: i32, term: CssValue)
    requires
        lo <= hi,
        scalar_accepts(kind, None, term),
        numeric_value(term) is Some,
    ensures
        numeric_value(term)->0.milli < lo * FIXED_SCALE || numeric_value(term)->0.milli > hi * FIXED_SCALE
            ==> !scalar_accepts(kind, Some(NumRange { min: Some(lo), max: Some(hi) }), term),
        numeric_value(term)->0.milli == lo * FIXED_SCALE || numeric_value(term)->0.milli == hi * FIXED_SCALE
            ==> scalar_accepts(kind, Some(NumRange { min: Some(lo), max: Some(hi) }), term),
{
}

proof fn lemma_one_more_len(sc: Scope, c: Syn, t: Seq<CssValue>, s: Seq<bool>, comma: bool, m: nat)
    ensures
        one_more(sc, c, t, s, comma, m).len() == t.len() + 1,
    decreases m,
{
    if m > 0 {
        lemma_one_more_len(sc, c, t, s, comma, (m - 1) as nat);
    }
}

proof fn lemma_occurrences_len(sc: Scope, c: Syn, t: Seq<CssValue>, i: int, comma: bool, k: nat)
    ensures
        occurrences(sc, c, t, i, comma, k).len() == t.len() + 1,
{
    if k > 0 {
        lemma_one_more_len(sc, 
            c,
            t,
            occurrences(sc, c, t, i, comma, (k - 1) as nat),
            comma && k >= 2,
            (t.len() + 1) as nat,
        );
    }
}

/// With no lower bound, zero occurrences are allowed: the start is among the stops.
proof fn lemma_between_has_start(sc: Scope, c: Syn, t: Seq<CssValue>, i: int, comma: bool, k: nat)
    requires
        0 <= i <= t.len(),
    ensures
        occurrences_between(sc, c, t, i, comma, 0, k).len() == t.len() + 1,
        occurrences_between(sc, c, t, i, comma, 0, k)[i],
    decreases k,
{
    lemma_occurrences_len(sc, c, t, i, comma, k);
    if k > 0 {
        lemma_between_has_start(sc, c, t, i, comma, (k - 1) as nat);
    } else {
        assert(occurrences(sc, c, t, i, comma, 0) == only_position(t.len() as int, i));
    }
}

/// A component that may occur zero times (`?` or `*`) matches the empty sequence at
/// any position; with `!` it is exactly that empty match that is rejected.
pub proof fn lemma_optional_accepts_empty(sc: Scope, c: Syn, t: Seq<CssValue>, i: int)
    requires
        c.multiplier == Multiplier::Optional || c.multiplier == Multiplier::ZeroOrMore,
        0 <= i <= t.len(),
    ensures
        ends(sc, c, t, i)[i] == !c.non_empty,
{
    let (lo, hi, comma) = occurrence_bounds(c.multiplier, t.len() as int);
    lemma_between_has_start(sc, c, t, i, comma, hi as nat);
}

proof fn lemma_any_order_len(sc: Scope, c: Syn, t: Seq<CssValue>, i: int, avail: Seq<bool>, all: bool, placed: bool, left: nat)
    ensures
        any_order(sc, c, t, i, avail, all, placed, left).len() == t.len() + 1,
{
}

proof fn lemma_place_next_len(sc: Scope, c: Syn, t: Seq<CssValue>, i: int, avail: Seq<bool>, all: bool, left: nat, k: nat)
    ensures
        place_next(sc, c, t, i, avail, all, left, k).len() == t.len() + 1,
    decreases k,
{
    if k > 0 {
        lemma_place_next_len(sc, c, t, i, avail, all, left, (k - 1) as nat);
    }
}

proof fn lemma_after_placing_len(sc: Scope, c: Syn, t: Seq<CssValue>, s: Seq<bool>, avail: Seq<bool>, all: bool, left: nat, m: nat)
    ensures
        after_placing(sc, c, t, s, avail, all, left, m).len() == t.len() + 1,
    decreases m,
{
    if m > 0 {
        lemma_after_placing_len(sc, c, t, s, avail, all, left, (m - 1) as nat);
    }
}

proof fn lemma_after_placing_includes(
    sc: Scope,
    c: Syn,
    t: Seq<CssValue>,
    s: Seq<bool>,
    avail: Seq<bool>,
    all: bool,
    left: nat,
    m: nat,
    q: int,
    x: int,
)
    requires
        0 <= q < m,
        0 <= x <= t.len(),
        s[q],
        any_order(sc, c, t, q, avail, all, true, left)[x],
    ensures
        after_placing(sc, c, t, s, avail, all, left, m)[x],
    decreases m,
{
    lemma_after_placing_len(sc, c, t, s, avail, all, left, (m - 1) as nat);
    if q < m - 1 {
        lemma_after_placing_includes(sc, c, t, s, avail, all, left, (m - 1) as nat, q, x);
    }
}

proof fn lemma_place_next_includes(
    sc: Scope,
    c: Syn,
    t: Seq<CssValue>,
    i: int,
    avail: Seq<bool>,
    all: bool,
    left: nat,
    k: nat,
    p: int,
    x: int,
)
    requires
        c.kind is Group,
        0 <= p < k <= c.kind->Group_0.len(),
        p < avail.len(),
        avail[p],
        left > 0,
        0 <= x <= t.len(),
        after_placing(sc, 
            c,
            t,
            ends(sc, c.kind->Group_0[p], t, i),
            avail.update(p, false),
            all,
            (left - 1) as nat,
            (t.len() + 1) as nat,
        )[x],
    ensures
        place_next(sc, c, t, i, avail, all, left, k)[x],
    decreases k,
{
    lemma_place_next_len(sc, c, t, i, avail, all, left, (k - 1) as nat);
    if p < k - 1 {
        lemma_place_next_includes(sc, c, t, i, avail, all, left, (k - 1) as nat, p, x);
    }
}

/// The children not yet placed after the first `j` children of the permutation.
pub open spec fn not_yet_placed(perm: Seq<int>, n: nat, j: int) -> Seq<bool> {
    Seq::new(n, |p: int| !perm.subrange(0, j).contains(p))
}

/// `perm` lists every index below `n` exactly once.
pub open spec fn is_permutation(perm: Seq<int>, n: nat) -> bool {
    &&& perm.len() == n
    &&& perm.no_duplicates()
    &&& forall|k: int| 0 <= k < n ==> 0 <= #[trigger] perm[k] < n
    &&& forall|p: int| 0 <= p < n ==> perm.contains(p)
}

proof fn lemma_any_order_permutation(sc: Scope, c: Syn, t: Seq<CssValue>, perm: Seq<int>, all: bool, j: int)
    requires
        c.kind is Group,
        c.kind->Group_0.len() >= 1,
        t.len() == c.kind->Group_0.len(),
        is_permutation(perm, t.len()),
        forall|k: int| 0 <= k < t.len() ==> #[trigger] ends(sc, c.kind->Group_0[perm[k]], t, k)[k + 1],
        0 <= j <= t.len(),
    ensures
        any_order(sc, 
            c,
            t,
            j,
            not_yet_placed(perm, t.len(), j),
            all,
            j > 0,
            (t.len() - j) as nat,
        )[t.len() as int],
    decreases t.len() - j,
{
    let n = t.len();
    let avail = not_yet_placed(perm, n, j);
    if j == n {
        assert forall|p: int| 0 <= p < avail.len() implies !avail[p] by {
            assert(perm.contains(p));
            let k = choose|k: int| 0 <= k < perm.len() && perm[k] == p;
            assert(perm.subrange(0, j)[k] == p);
        }
        assert(none_left(avail));
    } else {
        let p = perm[j];
        let ch = c.kind->Group_0;
        let left = (n - j) as nat;
        assert(avail[p]) by {
            if perm.subrange(0, j).contains(p) {
                let k = choose|k: int| 0 <= k < j && perm.subrange(0, j)[k] == p;
                assert(perm[k] == perm[j]);
            }
        }
        let next = not_yet_placed(perm, n, j + 1);
        assert(avail.update(p, false) =~= next) by {
            assert forall|q: int| 0 <= q < n implies avail.update(p, false)[q] == next[q] by {
                let pre = perm.subrange(0, j);
                let post = perm.subrange(0, j + 1);
                assert(post[j] == p);
                if q == p {
                    assert(post.contains(q));
                } else {
                    if pre.contains(q) {
                        let k = choose|k: int| 0 <= k < pre.len() && pre[k] == q;
                        assert(post[k] == q);
                    }
                    if post.contains(q) {
                        let k = choose|k: int| 0 <= k < post.len() && post[k] == q;
                        assert(k < j);
                        assert(pre[k] == q);
                    }
                }
            }
        }
        lemma_any_order_permutation(sc, c, t, perm, all, j + 1);
        let s = ends(sc, ch[p], t, j);
        lemma_after_placing_includes(sc, c, t, s, next, all, (left - 1) as nat, (n + 1) as nat, j + 1, n as int);
        lemma_place_next_includes(sc, c, t, j, avail, all, left, ch.len(), p, n as int);
        lemma_any_order_len(sc, c, t, j, avail, all, j > 0, left);
    }
}

/// Unordered groups take their children in any order: when the terms, in some
/// permutation of the children, each match the child they stand for, a `&&` or `||`
/// group of `n` children matches the sequence of those `n` terms.
pub proof fn lemma_any_order_accepts_permutations(sc: Scope, c: Syn, t: Seq<CssValue>, perm: Seq<int>)
    requires
        c.kind matches SynKind::Group(ch, comb) && (comb == Combinator::AllAnyOrder || comb
            == Combinator::OneOrMoreAnyOrder),
        c.kind->Group_0.len() >= 1,
        t.len() == c.kind->Group_0.len(),
        is_permutation(perm, t.len()),
        forall|k: int| 0 <= k < t.len() ==> #[trigger] ends(sc, c.kind->Group_0[perm[k]], t, k)[k + 1],
    ensures
        once(sc, c, t, 0)[t.len() as int],
{
    let n = t.len();
    let all = c.kind->Group_1 == Combinator::AllAnyOrder;
    lemma_any_order_permutation(sc, c, t, perm, all, 0);
    assert(not_yet_placed(perm, n, 0) =~= Seq::new(n, |k: int| true));
}

/// Number of flags that are set.
pub open spec fn count_set(s: Seq<bool>) -> nat
    decreases s.len(),
{
    if s.len() == 0 {
        0
    } else {
        count_set(s.drop_last()) + (if s.last() {
            1nat
        } else {
            0nat
        })
    }
}

proof fn lemma_count_clear(s: Seq<bool>, p: int)
    requires
        0 <= p < s.len(),
        s[p],
    ensures
        count_set(s.update(p, false)) + 1 == count_set(s),
    decreases s.len(),
{
    if p < s.len() - 1 {
        assert(s.update(p, false).drop_last() =~= s.drop_last().update(p, false));
        lemma_count_clear(s.drop_last(), p);
    } else {
        assert(s.update(p, false).drop_last() =~= s.drop_last());
    }
}

proof fn lemma_count_positive(s: Seq<bool>)
    requires
        count_set(s) > 0,
    ensures
        !none_left(s),
    decreases s.len(),
{
    if !s.last() {
        lemma_count_positive(s.drop_last());
        let k = choose|k: int| 0 <= k < s.drop_last().len() && s.drop_last()[k];
        assert(s[k]);
    }
}

proof fn lemma_count_all(n: nat)
    ensures
        count_set(Seq::new(n, |k: int| true)) == n,
    decreases n,
{
    if n > 0 {
        assert(Seq::new(n, |k: int| true).drop_last() =~= Seq::new((n - 1) as nat, |k: int| true));
        lemma_count_all((n - 1) as nat);
    }
}

proof fn lemma_place_next_source(
    sc: Scope,
    c: Syn,
    t: Seq<CssValue>,
    i: int,
    avail: Seq<bool>,
    all: bool,
    left: nat,
    k: nat,
    x: int,
) -> (p: int)
    requires
        0 <= x <= t.len(),
        place_next(sc, c, t, i, avail, all, left, k)[x],
    ensures
        c.kind is Group,
        0 <= p < k <= c.kind->Group_0.len(),
        p < avail.len(),
        avail[p],
        left > 0,
        after_placing(sc, 
            c,
            t,
            ends(sc, c.kind->Group_0[p], t, i),
            avail.update(p, false),
            all,
            (left - 1) as nat,
            (t.len() + 1) as nat,
        )[x],
    decreases k,
{
    lemma_place_next_len(sc, c, t, i, avail, all, left, (k - 1) as nat);
    let ch = c.kind->Group_0;
    let q = k - 1;
    if place_next(sc, c, t, i, avail, all, left, (k - 1) as nat)[x] {
        lemma_place_next_source(sc, c, t, i, avail, all, left, (k - 1) as nat, x)
    } else {
        q
    }
}

proof fn lemma_after_placing_source(
    sc: Scope,
    c: Syn,
    t: Seq<CssValue>,
    s: Seq<bool>,
    avail: Seq<bool>,
    all: bool,
    left: nat,
    m: nat,
    x: int,
) -> (q: int)
    requires
        0 <= x <= t.len(),
        after_placing(sc, c, t, s, avail, all, left, m)[x],
    ensures
        0 <= q < m,
        s[q],
        any_order(sc, c, t, q, avail, all, true, left)[x],
    decreases m,
{
    lemma_after_placing_len(sc, c, t, s, avail, all, left, (m - 1) as nat);
    if after_placing(sc, c, t, s, avail, all, left, (m - 1) as nat)[x] {
        lemma_after_placing_source(sc, c, t, s, avail, all, left, (m - 1) as nat, x)
    } else {
        m - 1
    }
}

proof fn lemma_all_order_needs_terms(
    sc: Scope,
    c: Syn,
    t: Seq<CssValue>,
    i: int,
    avail: Seq<bool>,
    placed: bool,
    left: nat,
    x: int,
)
    requires
        c.kind is Group,
        avail.len() == c.kind->Group_0.len(),
        count_set(avail) == left,
        0 <= i <= t.len(),
        forall|k: int, m: int, y: int|
            0 <= k < c.kind->Group_0.len() && 0 <= m <= t.len() && 0 <= y <= t.len() && #[trigger] ends(sc, 
                c.kind->Group_0[k],
                t,
                m,
            )[y] ==> y > m,
        0 <= x <= t.len(),
        any_order(sc, c, t, i, avail, true, placed, left)[x],
    ensures
        x >= i + left,
    decreases left,
{
    let n = t.len() as int;
    if left > 0 {
        lemma_count_positive(avail);
        lemma_place_next_len(sc, c, t, i, avail, true, left, c.kind->Group_0.len());
        assert(place_next(sc, c, t, i, avail, true, left, c.kind->Group_0.len())[x]);
        let p = lemma_place_next_source(sc, c, t, i, avail, true, left, c.kind->Group_0.len(), x);
        let s = ends(sc, c.kind->Group_0[p], t, i);
        let q = lemma_after_placing_source(sc, c, t, s, avail.update(p, false), true, (left - 1) as nat, (n + 1) as nat, x);
        lemma_count_clear(avail, p);
        lemma_all_order_needs_terms(sc, c, t, q, avail.update(p, false), true, (left - 1) as nat, x);
    }
}

/// An `&&` group needs every child: when each child consumes at least one term
/// wherever it starts, a sequence with fewer terms than the group has children does
/// not match the group.
pub proof fn lemma_all_any_order_rejects_missing_child(sc: Scope, c: Syn, t: Seq<CssValue>)
    requires
        c.kind matches SynKind::Group(ch, comb) && comb == Combinator::AllAnyOrder,
        forall|k: int, m: int, y: int|
            0 <= k < c.kind->Group_0.len() && 0 <= m <= t.len() && 0 <= y <= t.len() && #[trigger] ends(sc, 
                c.kind->Group_0[k],
                t,
                m,
            )[y] ==> y > m,
        t.len() < c.kind->Group_0.len(),
    ensures
        !once(sc, c, t, 0)[t.len() as int],
{
    let n = c.kind->Group_0.len();
    lemma_count_all(n);
    if once(sc, c, t, 0)[t.len() as int] {
        lemma_all_order_needs_terms(sc, c, t, 0, Seq::new(n, |k: int| true), false, n, t.len() as int);
    }
}

proof fn lemma_then_child_len(sc: Scope, d: Syn, t: Seq<CssValue>, s: Seq<bool>, m: nat)
    ensures
        then_child(sc, d, t, s, m).len() == t.len() + 1,
    decreases m,
{
    if m > 0 {
        lemma_then_child_len(sc, d, t, s, (m - 1) as nat);
    }
}

proof fn lemma_one_more_from_start(sc: Scope, c: Syn, t: Seq<CssValue>, m: nat, x: int)
    requires
        0 <= x <= t.len(),
        m <= t.len() + 1,
    ensures
        one_more(sc, c, t, only_position(t.len() as int, 0), false, m)[x] == (m >= 1 && once(sc, c, t, 0)[x]),
    decreases m,
{
    if m > 0 {
        lemma_one_more_from_start(sc, c, t, (m - 1) as nat, x);
        lemma_one_more_len(sc, c, t, only_position(t.len() as int, 0), false, (m - 1) as nat);
    }
}

proof fn lemma_then_child_from_start(sc: Scope, d: Syn, t: Seq<CssValue>, m: nat, x: int)
    requires
        0 <= x <= t.len(),
        m <= t.len() + 1,
    ensures
        then_child(sc, d, t, only_position(t.len() as int, 0), m)[x] == (m >= 1 && ends(sc, d, t, 0)[x]),
    decreases m,
{
    if m > 0 {
        lemma_then_child_from_start(sc, d, t, (m - 1) as nat, x);
        lemma_then_child_len(sc, d, t, only_position(t.len() as int, 0), (m - 1) as nat);
    }
}

/// A component that occurs exactly once and has no `!` stops where its single
/// occurrence does.
proof fn lemma_ends_once(sc: Scope, c: Syn, t: Seq<CssValue>, x: int)
    requires
        c.multiplier == Multiplier::Once,
        !c.non_empty,
        0 <= x <= t.len(),
    ensures
        ends(sc, c, t, 0)[x] == once(sc, c, t, 0)[x],
{
    let n = t.len() as int;
    assert(occurrences(sc, c, t, 0, false, 0) == only_position(n, 0));
    lemma_one_more_from_start(sc, c, t, (n + 1) as nat, x);
    lemma_occurrences_len(sc, c, t, 0, false, 1);
    assert(occurrences_between(sc, c, t, 0, false, 1, 0) == no_position(n));
}

/// A root that is a sequence of one child, occurring once without `!`, stops where
/// that child does.
proof fn lemma_single_child_root(sc: Scope, root: Syn, t: Seq<CssValue>, x: int)
    requires
        root.kind matches SynKind::Group(ch, comb) && ch.len() == 1 && comb == Combinator::AllInOrder,
        root.multiplier == Multiplier::Once,
        !root.non_empty,
        0 <= x <= t.len(),
    ensures
        ends(sc, root, t, 0)[x] == ends(sc, root.kind->Group_0[0], t, 0)[x],
{
    let n = t.len() as int;
    let ch = root.kind->Group_0;
    lemma_ends_once(sc, root, t, x);
    assert(in_order(sc, root, t, 0, 0) == only_position(n, 0));
    assert(once(sc, root, t, 0) == in_order(sc, root, t, 0, 1));
    assert(in_order(sc, root, t, 0, 1) == then_child(sc, ch[0], t, only_position(n, 0), (n + 1) as nat));
    lemma_then_child_from_start(sc, ch[0], t, (n + 1) as nat, x);
}

/// Bounds hold for whole grammars: a grammar of one scalar reference with bounds
/// (`<integer [1,10]>`, as compiled or as resolved) rejects a term of that kind whose number lies outside the
/// bounds and accepts one that lies exactly on either bound.
pub proof fn lemma_grammar_range_bounds(sc: Scope, root: Syn, kind: ScalarKind, lo: i32, hi: i32, v: CssValue)
    requires
        root.kind matches SynKind::Group(ch, comb) && ch.len() == 1 && comb == Combinator::AllInOrder,
        root.multiplier == Multiplier::Once,
        !root.non_empty,
        root.kind->Group_0[0].multiplier == Multiplier::Once,
        !root.kind->Group_0[0].non_empty,
        root.kind->Group_0[0].kind == SynKind::Scalar(kind, Some(NumRange { min: Some(lo), max: Some(hi) }))
            || (root.kind->Group_0[0].kind matches SynKind::TypeReference(name, range) && scalar_kind_named(name)
            == Some(kind) && range == Some(NumRange { min: Some(lo), max: Some(hi) })),
        lo <= hi,
        !(v is List),
        scalar_accepts(kind, None, v),
        numeric_value(v) is Some,
    ensures
        numeric_value(v)->0.milli < lo * FIXED_SCALE || numeric_value(v)->0.milli > hi * FIXED_SCALE
            ==> !accepts_in(sc, root, v),
        numeric_value(v)->0.milli == lo * FIXED_SCALE || numeric_value(v)->0.milli == hi * FIXED_SCALE
            ==> accepts_in(sc, root, v),
{
    let t = terms_of(v);
    let c = root.kind->Group_0[0];
    lemma_single_child_root(sc, root, t, 1);
    lemma_ends_once(sc, c, t, 1);
    lemma_range_bounds(kind, lo, hi, v);
}

/// An optional part may be left empty in a whole grammar: a grammar that is one
/// component with `?` or `*` matches the empty list exactly when the component has
/// no `!`.
pub proof fn lemma_grammar_optional_empty(sc: Scope, root: Syn, v: CssValue)
    requires
        root.kind matches SynKind::Group(ch, comb) && ch.len() == 1 && comb == Combinator::AllInOrder,
        root.multiplier == Multiplier::Once,
        !root.non_empty,
        root.kind->Group_0[0].multiplier == Multiplier::Optional || root.kind->Group_0[0].multiplier
            == Multiplier::ZeroOrMore,
        v is List,
        terms_of(v).len() == 0,
    ensures
        accepts_in(sc, root, v) == !root.kind->Group_0[0].non_empty,
{
    let t = terms_of(v);
    lemma_single_child_root(sc, root, t, 0);
    lemma_optional_accepts_empty(sc, root.kind->Group_0[0], t, 0);
}

/// Every order is accepted by a whole grammar that is an `&&` or `||` group: when
/// the terms of a value, in some permutation of the children, each match the child
/// they stand for, the value matches.
pub proof fn lemma_grammar_accepts_permutations(sc: Scope, root: Syn, v: CssValue, perm: Seq<int>)
    requires
        root.kind matches SynKind::Group(ch, comb) && (comb == Combinator::AllAnyOrder || comb
            == Combinator::OneOrMoreAnyOrder),
        root.multiplier == Multiplier::Once,
        !root.non_empty,
        root.kind->Group_0.len() >= 1,
        terms_of(v).len() == root.kind->Group_0.len(),
        terms_of(v).len() < MAX_TERMS,
        is_permutation(perm, terms_of(v).len()),
        forall|k: int|
            0 <= k < terms_of(v).len() ==> #[trigger] ends(sc, root.kind->Group_0[perm[k]], terms_of(v), k)[k + 1],
    ensures
        accepts_in(sc, root, v),
{
    let t = terms_of(v);
    lemma_any_order_accepts_permutations(sc, root, t, perm);
    lemma_ends_once(sc, root, t, t.len() as int);
}

/// A whole grammar that is an `&&` group rejects a value that leaves a child out:
/// when every child consumes at least one term wherever it starts, a value with fewer
/// terms than the group has children does not match.
pub proof fn lemma_grammar_rejects_missing_child(sc: Scope, root: Syn, v: CssValue)
    requires
        root.kind matches SynKind::Group(ch, comb) && comb == Combinator::AllAnyOrder,
        root.multiplier == Multiplier::Once,
        !root.non_empty,
        forall|k: int, m: int, y: int|
            0 <= k < root.kind->Group_0.len() && 0 <= m <= terms_of(v).len() && 0 <= y <= terms_of(v).len()
                && #[trigger] ends(sc, root.kind->Group_0[k], terms_of(v), m)[y] ==> y > m,
        terms_of(v).len() < root.kind->Group_0.len(),
    ensures
        !accepts_in(sc, root, v),
{
    let t = terms_of(v);
    lemma_all_any_order_rejects_missing_child(sc, root, t);
    lemma_ends_once(sc, root, t, t.len() as int);
}

proof fn lemma_then_child_includes(sc: Scope, d: Syn, t: Seq<CssValue>, s: Seq<bool>, m: nat, q: int, x: int)
    requires
        0 <= q < m,
        0 <= x <= t.len(),
        s[q],
        ends(sc, d, t, q)[x],
    ensures
        then_child(sc, d, t, s, m)[x],
    decreases m,
{
    lemma_then_child_len(sc, d, t, s, (m - 1) as nat);
    if q < m - 1 {
        lemma_then_child_includes(sc, d, t, s, (m - 1) as nat, q, x);
    }
}

/// In a sequence, an optional child without `!` may be skipped: wherever the first
/// `j` children of a juxtaposition group can stop, the first `j + 1` can stop too when
/// child `j` has `?` or `*` and no `!`.
pub proof fn lemma_sequence_skips_optional(sc: Scope, root: Syn, t: Seq<CssValue>, i: int, j: nat, p: int)
    requires
        root.kind matches SynKind::Group(ch, comb) && comb == Combinator::AllInOrder,
        j < root.kind->Group_0.len(),
        root.kind->Group_0[j as int].multiplier == Multiplier::Optional || root.kind->Group_0[j as int].multiplier
            == Multiplier::ZeroOrMore,
        !root.kind->Group_0[j as int].non_empty,
        0 <= p <= t.len(),
        in_order(sc, root, t, i, j)[p],
    ensures
        in_order(sc, root, t, i, j + 1)[p],
{
    let ch = root.kind->Group_0;
    lemma_optional_accepts_empty(sc, ch[j as int], t, p);
    lemma_then_child_includes(sc, ch[j as int], t, in_order(sc, root, t, i, j), (t.len() + 1) as nat, p, p);
}

/// The two term sequences hold the same values, place by place.
pub open spec fn same_terms(t1: Seq<CssValue>, t2: Seq<CssValue>) -> bool {
    t1.len() == t2.len() && forall|k: int| 0 <= k < t1.len() ==> #[trigger] same_value(t1[k], t2[k])
}

proof fn lemma_same_prefix_terms(x: Seq<CssValue>, y: Seq<CssValue>, k: nat)
    requires
        same_prefix(x, y, k),
    ensures
        forall|i: int| 0 <= i < k ==> #[trigger] same_value(x[i], y[i]),
    decreases k,
{
    if k > 0 {
        lemma_same_prefix_terms(x, y, (k - 1) as nat);
    }
}

proof fn lemma_terms_same(a: CssValue, b: CssValue)
    requires
        same_value(a, b),
    ensures
        same_terms(terms_of(a), terms_of(b)),
{
    match a {
        CssValue::List(x) => {
            let y = b->List_0;
            lemma_same_prefix_terms(x@, y@, x@.len());
        },
        _ => {
            assert(same_value(terms_of(a)[0], terms_of(b)[0]));
        },
    }
}

proof fn lemma_ends_cong(sc: Scope, c: Syn, t1: Seq<CssValue>, t2: Seq<CssValue>, i: int)
    requires
        same_terms(t1, t2),
    ensures
        ends(sc, c, t1, i) == ends(sc, c, t2, i),
    decreases sc.depth, c, 6nat, 0nat, 0nat, 0nat,
{
    let (lo, hi, comma) = occurrence_bounds(c.multiplier, t1.len() as int);
    if hi >= 0 {
        lemma_between_cong(sc, c, t1, t2, i, comma, lo, hi as nat);
    }
}

proof fn lemma_between_cong(
    sc: Scope,
    c: Syn,
    t1: Seq<CssValue>,
    t2: Seq<CssValue>,
    i: int,
    comma: bool,
    lo: int,
    k: nat,
)
    requires
        same_terms(t1, t2),
    ensures
        occurrences_between(sc, c, t1, i, comma, lo, k) == occurrences_between(sc, c, t2, i, comma, lo, k),
    decreases sc.depth, c, 4nat, k, 0nat, 0nat,
{
    lemma_occurrences_cong(sc, c, t1, t2, i, comma, k);
    if k > 0 {
        lemma_between_cong(sc, c, t1, t2, i, comma, lo, (k - 1) as nat);
    }
}

proof fn lemma_occurrences_cong(sc: Scope, c: Syn, t1: Seq<CssValue>, t2: Seq<CssValue>, i: int, comma: bool, k: nat)
    requires
        same_terms(t1, t2),
    ensures
        occurrences(sc, c, t1, i, comma, k) == occurrences(sc, c, t2, i, comma, k),
    decreases sc.depth, c, 3nat, k, 0nat, 0nat,
{
    if k > 0 {
        lemma_occurrences_cong(sc, c, t1, t2, i, comma, (k - 1) as nat);
        lemma_one_more_cong(
            sc,
            c,
            t1,
            t2,
            occurrences(sc, c, t1, i, comma, (k - 1) as nat),
            comma && k >= 2,
            (t1.len() + 1) as nat,
        );
    }
}

proof fn lemma_one_more_cong(sc: Scope, c: Syn, t1: Seq<CssValue>, t2: Seq<CssValue>, s: Seq<bool>, comma: bool, m: nat)
    requires
        same_terms(t1, t2),
    ensures
        one_more(sc, c, t1, s, comma, m) == one_more(sc, c, t2, s, comma, m),
    decreases sc.depth, c, 2nat, m, 0nat, 0nat,
{
    if m > 0 {
        let q = m - 1;
        lemma_one_more_cong(sc, c, t1, t2, s, comma, (m - 1) as nat);
        lemma_once_cong(sc, c, t1, t2, q);
        lemma_once_cong(sc, c, t1, t2, q + 1);
        if 0 <= q < t1.len() {
            assert(same_value(t1[q], t2[q]));
        }
    }
}

proof fn lemma_literal_cong(text: Seq<char>, a: CssValue, b: CssValue)
    requires
        same_value(a, b),
    ensures
        literal_accepts(text, a) == literal_accepts(text, b),
{
}

proof fn lemma_scalar_cong(kind: ScalarKind, range: Option<NumRange>, a: CssValue, b: CssValue)
    requires
        same_value(a, b),
    ensures
        scalar_accepts(kind, range, a) == scalar_accepts(kind, range, b),
{
}

proof fn lemma_once_cong(sc: Scope, c: Syn, t1: Seq<CssValue>, t2: Seq<CssValue>, i: int)
    requires
        same_terms(t1, t2),
    ensures
        once(sc, c, t1, i) == once(sc, c, t2, i),
    decreases sc.depth, c, 1nat, 0nat, 0nat, 0nat,
{
    let n = t1.len() as int;
    if 0 <= i < n {
        assert(same_value(t1[i], t2[i]));
    }
    match c.kind {
        SynKind::Literal(text) => {
            if 0 <= i < n {
                lemma_literal_cong(text, t1[i], t2[i]);
            }
        },
        SynKind::Scalar(kind, range) => {
            if 0 <= i < n {
                lemma_scalar_cong(kind, range, t1[i], t2[i]);
            }
        },
        SynKind::TypeReference(name, range) => {
            if 0 <= i < n && scalar_kind_named(name) is Some {
                lemma_scalar_cong(scalar_kind_named(name)->0, range, t1[i], t2[i]);
            }
            if scalar_kind_named(name) is None && sc.depth > 0 && reentered(sc, name, false) is Some {
                lemma_once_cong(Scope { depth: (sc.depth - 1) as nat, ..sc }, reentered(sc, name, false)->0, t1, t2, i);
            }
        },
        SynKind::FunctionReference(name) => {
            if sc.depth > 0 && reentered(sc, name, true) is Some {
                lemma_once_cong(Scope { depth: (sc.depth - 1) as nat, ..sc }, reentered(sc, name, true)->0, t1, t2, i);
            }
        },
        SynKind::Function(name, args) => {
            if 0 <= i < n {
                match t1[i] {
                    CssValue::Function(f1, a1) => {
                        let a2 = t2[i]->Function_1;
                        lemma_same_prefix_terms(a1@, a2@, a1@.len());
                        lemma_ends_cong(sc, *args, a1@, a2@, 0);
                    },
                    _ => {},
                }
            }
        },
        SynKind::Group(ch, comb) => {
            match comb {
                Combinator::AllInOrder => lemma_in_order_cong(sc, c, t1, t2, i, ch.len()),
                Combinator::ExactlyOne => lemma_one_of_cong(sc, c, t1, t2, i, ch.len()),
                _ => lemma_any_order_cong(sc, c, t1, t2, i, Seq::new(ch.len(), |k: int| true), comb
                    == Combinator::AllAnyOrder, false, ch.len()),
            }
        },
    }
}

proof fn lemma_in_order_cong(sc: Scope, c: Syn, t1: Seq<CssValue>, t2: Seq<CssValue>, i: int, k: nat)
    requires
        same_terms(t1, t2),
    ensures
        in_order(sc, c, t1, i, k) == in_order(sc, c, t2, i, k),
    decreases sc.depth, c, 0nat, k, 0nat, 0nat,
{
    match c.kind {
        SynKind::Group(ch, _) => {
            if k > 0 && k <= ch.len() {
                lemma_in_order_cong(sc, c, t1, t2, i, (k - 1) as nat);
                lemma_then_child_cong(sc, ch[k - 1], t1, t2, in_order(sc, c, t1, i, (k - 1) as nat), (t1.len() + 1) as nat);
            }
        },
        _ => {},
    }
}

proof fn lemma_then_child_cong(sc: Scope, d: Syn, t1: Seq<CssValue>, t2: Seq<CssValue>, s: Seq<bool>, m: nat)
    requires
        same_terms(t1, t2),
    ensures
        then_child(sc, d, t1, s, m) == then_child(sc, d, t2, s, m),
    decreases sc.depth, d, 7nat, m, 0nat, 0nat,
{
    if m > 0 {
        lemma_then_child_cong(sc, d, t1, t2, s, (m - 1) as nat);
        lemma_ends_cong(sc, d, t1, t2, m - 1);
    }
}

proof fn lemma_one_of_cong(sc: Scope, c: Syn, t1: Seq<CssValue>, t2: Seq<CssValue>, i: int, k: nat)
    requires
        same_terms(t1, t2),
    ensures
        one_of(sc, c, t1, i, k) == one_of(sc, c, t2, i, k),
    decreases sc.depth, c, 0nat, k, 0nat, 0nat,
{
    match c.kind {
        SynKind::Group(ch, _) => {
            if k > 0 && k <= ch.len() {
                lemma_one_of_cong(sc, c, t1, t2, i, (k - 1) as nat);
                lemma_ends_cong(sc, ch[k - 1], t1, t2, i);
            }
        },
        _ => {},
    }
}

proof fn lemma_any_order_cong(
    sc: Scope,
    c: Syn,
    t1: Seq<CssValue>,
    t2: Seq<CssValue>,
    i: int,
    avail: Seq<bool>,
    all: bool,
    placed: bool,
    left: nat,
)
    requires
        same_terms(t1, t2),
    ensures
        any_order(sc, c, t1, i, avail, all, placed, left) == any_order(sc, c, t2, i, avail, all, placed, left),
    decreases sc.depth, c, 0nat, left, 1nat, 0nat,
{
    match c.kind {
        SynKind::Group(ch, _) => {
            if left > 0 {
                lemma_place_next_cong(sc, c, t1, t2, i, avail, all, left, ch.len());
            }
        },
        _ => {},
    }
}

proof fn lemma_place_next_cong(
    sc: Scope,
    c: Syn,
    t1: Seq<CssValue>,
    t2: Seq<CssValue>,
    i: int,
    avail: Seq<bool>,
    all: bool,
    left: nat,
    k: nat,
)
    requires
        same_terms(t1, t2),
    ensures
        place_next(sc, c, t1, i, avail, all, left, k) == place_next(sc, c, t2, i, avail, all, left, k),
    decreases sc.depth, c, 0nat, left, 0nat, k,
{
    match c.kind {
        SynKind::Group(ch, _) => {
            if !(k == 0 || left == 0 || k > ch.len()) {
                let p = k - 1;
                lemma_place_next_cong(sc, c, t1, t2, i, avail, all, left, (k - 1) as nat);
                if p < avail.len() && avail[p] {
                    lemma_ends_cong(sc, ch[p], t1, t2, i);
                    lemma_after_placing_cong(
                        sc,
                        c,
                        t1,
                        t2,
                        ends(sc, ch[p], t1, i),
                        avail.update(p, false),
                        all,
                        (left - 1) as nat,
                        (t1.len() + 1) as nat,
                    );
                }
            }
        },
        _ => {},
    }
}

proof fn lemma_after_placing_cong(
    sc: Scope,
    c: Syn,
    t1: Seq<CssValue>,
    t2: Seq<CssValue>,
    s: Seq<bool>,
    avail: Seq<bool>,
    all: bool,
    left: nat,
    m: nat,
)
    requires
        same_terms(t1, t2),
    ensures
        after_placing(sc, c, t1, s, avail, all, left, m) == after_placing(sc, c, t2, s, avail, all, left, m),
    decreases sc.depth, c, 0nat, left, 2nat, m,
{
    if m > 0 {
        lemma_after_placing_cong(sc, c, t1, t2, s, avail, all, left, (m - 1) as nat);
        lemma_any_order_cong(sc, c, t1, t2, m - 1, avail, all, true, left);
    }
}

/// Matching depends on what a value holds, not on which copy of it is matched: two
/// values that are the same (`same_value`) match the same grammars.
pub proof fn lemma_accepts_same_value(sc: Scope, root: Syn, a: CssValue, b: CssValue)
    requires
        same_value(a, b),
    ensures
        accepts_in(sc, root, a) == accepts_in(sc, root, b),
{
    lemma_terms_same(a, b);
    lemma_ends_cong(sc, root, terms_of(a), terms_of(b), 0);
}

/// A single-term component: a literal, or a scalar kind (resolved or by reference),
/// occurring once without `!`.
pub open spec fn is_term_leaf(d: Syn) -> bool {
    &&& d.multiplier == Multiplier::Once
    &&& !d.non_empty
    &&& match d.kind {
        SynKind::Literal(_) | SynKind::Scalar(_, _) => true,
        SynKind::TypeReference(name, _) => scalar_kind_named(name) is Some,
        _ => false,
    }
}

/// The term, on its own, matches the single-term component.
pub open spec fn leaf_accepts(d: Syn, term: CssValue) -> bool {
    match d.kind {
        SynKind::Literal(text) => literal_accepts(text, term),
        SynKind::Scalar(kind, range) => scalar_accepts(kind, range, term),
        SynKind::TypeReference(name, range) => scalar_kind_named(name) matches Some(kind) && scalar_accepts(
            kind,
            range,
            term,
        ),
        _ => false,
    }
}

proof fn lemma_leaf_at(sc: Scope, d: Syn, t: Seq<CssValue>, k: int)
    requires
        is_term_leaf(d),
        0 <= k < t.len(),
        leaf_accepts(d, t[k]),
    ensures
        once(sc, d, t, k)[k + 1],
        ends(sc, d, t, k)[k + 1],
{
    let n = t.len() as int;
    assert(occurrences(sc, d, t, k, false, 0) == only_position(n, k));
    lemma_one_more_includes_start(sc, d, t, k, (n + 1) as nat, k + 1);
    lemma_occurrences_len(sc, d, t, k, false, 1);
    assert(occurrences_between(sc, d, t, k, false, 1, 0) == no_position(n));
}

proof fn lemma_one_more_includes_start(sc: Scope, c: Syn, t: Seq<CssValue>, i: int, m: nat, x: int)
    requires
        0 <= i < m,
        m <= t.len() + 1,
        0 <= x <= t.len(),
        once(sc, c, t, i)[x],
    ensures
        one_more(sc, c, t, only_position(t.len() as int, i), false, m)[x],
    decreases m,
{
    lemma_one_more_len(sc, c, t, only_position(t.len() as int, i), false, (m - 1) as nat);
    if i < m - 1 {
        lemma_one_more_includes_start(sc, c, t, i, (m - 1) as nat, x);
    }
}

/// Every order is accepted, stated of terms on their own: in a whole grammar that is
/// an `&&` or `||` group of single-term children (literals and scalar kinds), a value
/// whose terms, in some permutation of the children, each match on their own the
/// child they stand for, matches.
pub proof fn lemma_grammar_accepts_term_permutations(sc: Scope, root: Syn, v: CssValue, perm: Seq<int>)
    requires
        root.kind matches SynKind::Group(ch, comb) && (comb == Combinator::AllAnyOrder || comb
            == Combinator::OneOrMoreAnyOrder),
        root.multiplier == Multiplier::Once,
        !root.non_empty,
        root.kind->Group_0.len() >= 1,
        forall|p: int| 0 <= p < root.kind->Group_0.len() ==> is_term_leaf(#[trigger] root.kind->Group_0[p]),
        terms_of(v).len() == root.kind->Group_0.len(),
        terms_of(v).len() < MAX_TERMS,
        is_permutation(perm, terms_of(v).len()),
        forall|k: int| 0 <= k < terms_of(v).len() ==> #[trigger] leaf_accepts(root.kind->Group_0[perm[k]], terms_of(v)[k]),
    ensures
        accepts_in(sc, root, v),
{
    let t = terms_of(v);
    let ch = root.kind->Group_0;
    assert forall|k: int| 0 <= k < t.len() implies #[trigger] ends(sc, ch[perm[k]], t, k)[k + 1] by {
        assert(leaf_accepts(ch[perm[k]], t[k]));
        assert(is_term_leaf(ch[perm[k]]));
        lemma_leaf_at(sc, ch[perm[k]], t, k);
    }
    lemma_grammar_accepts_permutations(sc, root, v, perm);
}

proof fn lemma_one_more_source(sc: Scope, c: Syn, t: Seq<CssValue>, s: Seq<bool>, m: nat, x: int) -> (q: int)
    requires
        0 <= x <= t.len(),
        one_more(sc, c, t, s, false, m)[x],
    ensures
        0 <= q < m,
        s[q],
        once(sc, c, t, q)[x],
    decreases m,
{
    lemma_one_more_len(sc, c, t, s, false, (m - 1) as nat);
    if one_more(sc, c, t, s, false, (m - 1) as nat)[x] {
        lemma_one_more_source(sc, c, t, s, (m - 1) as nat, x)
    } else {
        m - 1
    }
}

/// A single-term component started at `m` can only stop right after the term there.
proof fn lemma_leaf_consumes_one(sc: Scope, d: Syn, t: Seq<CssValue>, m: int, y: int)
    requires
        is_term_leaf(d),
        0 <= m <= t.len(),
        0 <= y <= t.len(),
        ends(sc, d, t, m)[y],
    ensures
        y == m + 1,
{
    let n = t.len() as int;
    assert(occurrences(sc, d, t, m, false, 0) == only_position(n, m));
    lemma_occurrences_len(sc, d, t, m, false, 1);
    assert(occurrences_between(sc, d, t, m, false, 1, 0) == no_position(n));
    let q = lemma_one_more_source(sc, d, t, only_position(n, m), (n + 1) as nat, y);
}

/// A whole grammar that is an `&&` group of single-term children rejects a value
/// with fewer terms than it has children: some child is left without a term.
pub proof fn lemma_grammar_rejects_missing_term(sc: Scope, root: Syn, v: CssValue)
    requires
        root.kind matches SynKind::Group(ch, comb) && comb == Combinator::AllAnyOrder,
        root.multiplier == Multiplier::Once,
        !root.non_empty,
        forall|p: int| 0 <= p < root.kind->Group_0.len() ==> is_term_leaf(#[trigger] root.kind->Group_0[p]),
        terms_of(v).len() < root.kind->Group_0.len(),
    ensures
        !accepts_in(sc, root, v),
{
    let t = terms_of(v);
    let ch = root.kind->Group_0;
    assert forall|k: int, m: int, y: int|
        0 <= k < ch.len() && 0 <= m <= t.len() && 0 <= y <= t.len() && #[trigger] ends(sc, ch[k], t, m)[y]
            implies y > m by {
        assert(is_term_leaf(ch[k]));
        lemma_leaf_consumes_one(sc, ch[k], t, m, y);
    }
    lemma_grammar_rejects_missing_child(sc, root, v);
}

proof fn lemma_leaf_stop_accepts(sc: Scope, d: Syn, t: Seq<CssValue>, m: int, y: int)
    requires
        is_term_leaf(d),
        0 <= m <= t.len(),
        0 <= y <= t.len(),
        ends(sc, d, t, m)[y],
    ensures
        m < t.len(),
        leaf_accepts(d, t[m]),
{
    let n = t.len() as int;
    assert(occurrences(sc, d, t, m, false, 0) == only_position(n, m));
    lemma_occurrences_len(sc, d, t, m, false, 1);
    assert(occurrences_between(sc, d, t, m, false, 1, 0) == no_position(n));
    let q = lemma_one_more_source(sc, d, t, only_position(n, m), (n + 1) as nat, y);
    assert(q == m);
}

proof fn lemma_count_has(s: Seq<bool>, j: int)
    requires
        0 <= j < s.len(),
        s[j],
    ensures
        count_set(s) > 0,
{
    lemma_count_clear(s, j);
}

proof fn lemma_unplaceable_child(
    sc: Scope,
    c: Syn,
    t: Seq<CssValue>,
    i: int,
    avail: Seq<bool>,
    placed: bool,
    left: nat,
    j: int,
    x: int,
)
    requires
        c.kind is Group,
        forall|p: int| 0 <= p < c.kind->Group_0.len() ==> is_term_leaf(#[trigger] c.kind->Group_0[p]),
        avail.len() == c.kind->Group_0.len(),
        count_set(avail) == left,
        0 <= j < avail.len(),
        avail[j],
        0 <= i <= t.len(),
        forall|q: int| i <= q < t.len() ==> !leaf_accepts(c.kind->Group_0[j], #[trigger] t[q]),
        0 <= x <= t.len(),
    ensures
        !any_order(sc, c, t, i, avail, true, placed, left)[x],
    decreases left,
{
    let n = t.len() as int;
    let ch = c.kind->Group_0;
    lemma_count_has(avail, j);
    lemma_count_positive(avail);
    if any_order(sc, c, t, i, avail, true, placed, left)[x] {
        lemma_place_next_len(sc, c, t, i, avail, true, left, ch.len());
        assert(place_next(sc, c, t, i, avail, true, left, ch.len())[x]);
        let p = lemma_place_next_source(sc, c, t, i, avail, true, left, ch.len(), x);
        let s = ends(sc, ch[p], t, i);
        let q = lemma_after_placing_source(sc, c, t, s, avail.update(p, false), true, (left - 1) as nat, (n + 1) as nat, x);
        assert(is_term_leaf(ch[p]));
        lemma_leaf_consumes_one(sc, ch[p], t, i, q);
        lemma_leaf_stop_accepts(sc, ch[p], t, i, q);
        if p != j {
            lemma_count_clear(avail, p);
            lemma_unplaceable_child(sc, c, t, q, avail.update(p, false), true, (left - 1) as nat, j, x);
        }
    }
}

/// A whole grammar that is an `&&` group of single-term children rejects a value in
/// which no term, on its own, matches one of the children.
pub proof fn lemma_grammar_rejects_unmatched_child(sc: Scope, root: Syn, v: CssValue, j: int)
    requires
        root.kind matches SynKind::Group(ch, comb) && comb == Combinator::AllAnyOrder,
        root.multiplier == Multiplier::Once,
        !root.non_empty,
        forall|p: int| 0 <= p < root.kind->Group_0.len() ==> is_term_leaf(#[trigger] root.kind->Group_0[p]),
        0 <= j < root.kind->Group_0.len(),
        forall|q: int| 0 <= q < terms_of(v).len() ==> !leaf_accepts(root.kind->Group_0[j], #[trigger] terms_of(v)[q]),
    ensures
        !accepts_in(sc, root, v),
{
    let t = terms_of(v);
    let n = root.kind->Group_0.len();
    lemma_count_all(n);
    lemma_ends_once(sc, root, t, t.len() as int);
    lemma_unplaceable_child(sc, root, t, 0, Seq::new(n, |k: int| true), false, n, j, t.len() as int);
}

} // verus!
