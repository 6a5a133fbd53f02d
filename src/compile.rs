//! The grammar compiler: from value definition syntax text to a syntax tree.
//!
//! Precedence, loosest first: `|`, `||`, `&&`, juxtaposition; a multiplier binds to
//! the term or bracketed group right before it.
use vstd::prelude::*;
use crate::syntax::{
    lemma_models_len, lemma_models_prefix, models, Combinator, ComponentKind, Multiplier,
    NumRange, Syn, SynKind, SyntaxComponent, SyntaxTree,
};

verus! {

broadcast use {vstd::std_specs::vec::group_vec_axioms, vstd::seq::group_seq_axioms};

/// Why a grammar text does not compile.
#[derive(Clone, Copy, Debug, PartialEq, Eq, Structural)]
pub enum CompileError {
    /// The text holds nothing but white space.
    Empty,
    /// A `[` or `name(` is not closed, or a `]` has no opening.
    UnbalancedBrackets,
    /// A multiplier stands where a term should.
    DanglingMultiplier,
    /// A `{A,B}` or `[min,max]` bound is not a number, or the minimum exceeds the maximum.
    MalformedRange,
    /// A `<...>` reference or a quoted literal is not closed.
    UnterminatedReference,
    /// A character that the notation does not know, or a missing term.
    UnexpectedCharacter,
    /// The text has `MAX_SOURCE_LEN` characters or more.
    TooLong,
}

/// Longest grammar text that the compiler takes, in characters.
pub const MAX_SOURCE_LEN: usize = 0x1000_0000;

/// A parse step: the component read and the position after it.
pub type Parsed = Result<(Syn, int), CompileError>;

pub open spec fn is_space(c: char) -> bool {
    c == ' ' || c == '\t' || c == '\n' || c == '\r'
}

pub open spec fn is_digit(c: char) -> bool {
    '0' <= c && c <= '9'
}

/// Characters of a keyword or function name.
pub open spec fn is_word_char(c: char) -> bool {
    ('a' <= c && c <= 'z') || ('A' <= c && c <= 'Z') || is_digit(c) || c == '-' || c == '_'
}

/// Characters of a `<name>`: anything up to `>`, `[`, a quote or white space.
pub open spec fn is_name_char(c: char) -> bool {
    c != '>' && c != '[' && c != '\'' && !is_space(c)
}

/// Characters that end a run of juxtaposed terms.
pub open spec fn ends_terms(c: char) -> bool {
    c == ']' || c == ')' || c == '|' || c == '&'
}

/// Characters that are literals on their own.
pub open spec fn is_punct(c: char) -> bool {
    c == ',' || c == '/' || c == ':' || c == ';' || c == '='
}

/// Characters that start a multiplier.
pub open spec fn is_multiplier_char(c: char) -> bool {
    c == '?' || c == '*' || c == '+' || c == '#' || c == '{' || c == '!'
}

/// First position at or after `p` that is not white space.
pub open spec fn skip_space(s: Seq<char>, p: int) -> int
    decreases s.len() - p,
{
    if 0 <= p < s.len() && is_space(s[p]) {
        skip_space(s, p + 1)
    } else {
        p
    }
}

/// First position at or after `p` whose character is not a word character.
pub open spec fn word_end(s: Seq<char>, p: int) -> int
    decreases s.len() - p,
{
    if 0 <= p < s.len() && is_word_char(s[p]) {
        word_end(s, p + 1)
    } else {
        p
    }
}

/// First position at or after `p` whose character is not a name character.
pub open spec fn name_end(s: Seq<char>, p: int) -> int
    decreases s.len() - p,
{
    if 0 <= p < s.len() && is_name_char(s[p]) {
        name_end(s, p + 1)
    } else {
        p
    }
}

/// First position at or after `p` that is not a digit.
pub open spec fn digits_end(s: Seq<char>, p: int) -> int
    decreases s.len() - p,
{
    if 0 <= p < s.len() && is_digit(s[p]) {
        digits_end(s, p + 1)
    } else {
        p
    }
}

/// First position at or after `p` that holds a quote, or the length.
pub open spec fn quote_at_or_after(s: Seq<char>, p: int) -> int
    decreases s.len() - p,
{
    if 0 <= p < s.len() && s[p] != '\'' {
        quote_at_or_after(s, p + 1)
    } else {
        p
    }
}

/// The number that the digits `s[a..b]` write.
pub open spec fn digits_value(s: Seq<char>, a: int, b: int) -> int
    decreases b - a,
{
    if b <= a {
        0
    } else {
        digits_value(s, a, b - 1) * 10 + (s[b - 1] as int - '0' as int)
    }
}

/// `s[p]` is the character `c`.
pub open spec fn char_at(s: Seq<char>, p: int, c: char) -> bool {
    0 <= p < s.len() && s[p] == c
}

/// A run of one to nine digits at `p`: its value and the position after it.
pub open spec fn number_at(s: Seq<char>, p: int) -> Result<(int, int), CompileError> {
    let e = digits_end(s, p);
    if e <= p || e - p > 9 {
        Err(CompileError::MalformedRange)
    } else {
        Ok((digits_value(s, p, e), e))
    }
}

/// One bound of a `[min,max]` range: `∞` (with an optional sign) for none, or a
/// whole number with an optional `-`.
pub open spec fn bound_at(s: Seq<char>, p: int) -> Result<(Option<int>, int), CompileError> {
    if char_at(s, p, '∞') {
        Ok((None, p + 1))
    } else if (char_at(s, p, '+') || char_at(s, p, '-')) && char_at(s, p + 1, '∞') {
        Ok((None, p + 2))
    } else if char_at(s, p, '-') {
        match number_at(s, p + 1) {
            Ok((v, e)) => Ok((Some(-v), e)),
            Err(e) => Err(e),
        }
    } else {
        match number_at(s, p) {
            Ok((v, e)) => Ok((Some(v), e)),
            Err(e) => Err(e),
        }
    }
}

/// A numeric range after its `[`: the bounds and the position after the `]`.
pub open spec fn range_at(s: Seq<char>, p: int) -> Result<(NumRange, int), CompileError> {
    match bound_at(s, skip_space(s, p)) {
        Err(e) => Err(e),
        Ok((lo, e1)) => {
            let c = skip_space(s, e1);
            if !char_at(s, c, ',') {
                Err(CompileError::MalformedRange)
            } else {
                match bound_at(s, skip_space(s, c + 1)) {
                    Err(e) => Err(e),
                    Ok((hi, e2)) => {
                        let close = skip_space(s, e2);
                        if !char_at(s, close, ']') {
                            Err(CompileError::MalformedRange)
                        } else if lo is Some && hi is Some && lo->0 > hi->0 {
                            Err(CompileError::MalformedRange)
                        } else {
                            Ok((
                                NumRange {
                                    min: match lo {
                                        Some(v) => Some(v as i32),
                                        None => None,
                                    },
                                    max: match hi {
                                        Some(v) => Some(v as i32),
                                        None => None,
                                    },
                                },
                                close + 1,
                            ))
                        }
                    },
                }
            }
        },
    }
}

/// A component with no multiplier.
pub open spec fn plain(kind: SynKind) -> Syn {
    Syn { kind, multiplier: Multiplier::Once, non_empty: false }
}

/// A reference after its `<`: `<name>`, `<name [min,max]>` or `<'name'>`.
pub open spec fn type_reference_at(s: Seq<char>, p: int) -> Parsed {
    if char_at(s, p, '\'') {
        let q = quote_at_or_after(s, p + 1);
        if q >= s.len() || !char_at(s, q + 1, '>') {
            Err(CompileError::UnterminatedReference)
        } else {
            Ok((plain(SynKind::TypeReference(s.subrange(p + 1, q), None)), q + 2))
        }
    } else {
        let e = name_end(s, p);
        if e <= p {
            Err(CompileError::UnterminatedReference)
        } else {
            let r = skip_space(s, e);
            if char_at(s, r, '[') {
                match range_at(s, r + 1) {
                    Err(err) => Err(err),
                    Ok((range, q)) => {
                        let close = skip_space(s, q);
                        if char_at(s, close, '>') {
                            Ok((plain(SynKind::TypeReference(s.subrange(p, e), Some(range))), close + 1))
                        } else {
                            Err(CompileError::UnterminatedReference)
                        }
                    },
                }
            } else if char_at(s, r, '>') {
                Ok((plain(SynKind::TypeReference(s.subrange(p, e), None)), r + 1))
            } else {
                Err(CompileError::UnterminatedReference)
            }
        }
    }
}

/// The contents of `{...}` after its `{`: `A}`, `A,}` or `A,B}`.
pub open spec fn braces_at(s: Seq<char>, p: int) -> Result<(Multiplier, int), CompileError> {
    match number_at(s, p) {
        Err(e) => Err(e),
        Ok((a, e1)) => if char_at(s, e1, '}') {
            Ok((Multiplier::Range { min: a as u32, max: Some(a as u32) }, e1 + 1))
        } else if char_at(s, e1, ',') && char_at(s, e1 + 1, '}') {
            Ok((Multiplier::Range { min: a as u32, max: None }, e1 + 2))
        } else if char_at(s, e1, ',') {
            match number_at(s, e1 + 1) {
                Err(e) => Err(e),
                Ok((b, e2)) => if !char_at(s, e2, '}') || a > b {
                    Err(CompileError::MalformedRange)
                } else {
                    Ok((Multiplier::Range { min: a as u32, max: Some(b as u32) }, e2 + 1))
                },
            }
        } else {
            Err(CompileError::MalformedRange)
        },
    }
}

/// The multiplier right at `p`, if any, and the position after it.
pub open spec fn multiplier_at(s: Seq<char>, p: int) -> Result<(Multiplier, int), CompileError> {
    if char_at(s, p, '?') {
        Ok((Multiplier::Optional, p + 1))
    } else if char_at(s, p, '*') {
        Ok((Multiplier::ZeroOrMore, p + 1))
    } else if char_at(s, p, '+') {
        Ok((Multiplier::OneOrMore, p + 1))
    } else if char_at(s, p, '#') {
        Ok((Multiplier::CommaSeparatedOneOrMore, p + 1))
    } else if char_at(s, p, '{') {
        braces_at(s, p + 1)
    } else {
        Ok((Multiplier::Once, p))
    }
}

/// The multiplier and `!` that follow a term, applied to it.
pub open spec fn suffix_at(s: Seq<char>, p: int, a: Syn) -> Parsed {
    match multiplier_at(s, p) {
        Err(e) => Err(e),
        Ok((m, q)) => if char_at(s, q, '!') {
            Ok((Syn { kind: a.kind, multiplier: m, non_empty: true }, q + 1))
        } else {
            Ok((Syn { kind: a.kind, multiplier: m, non_empty: false }, q))
        },
    }
}

/// What brackets make of their contents: the group itself when it has no multiplier
/// yet, else a group of one.
pub open spec fn bracketed(inner: Syn) -> Syn {
    if inner.kind is Group && inner.multiplier == Multiplier::Once && !inner.non_empty {
        inner
    } else {
        plain(SynKind::Group(seq![inner], Combinator::AllInOrder))
    }
}

/// Items joined by a combinator: the item itself when there is one.
pub open spec fn joined(items: Seq<Syn>, comb: Combinator) -> Syn {
    if items.len() == 1 {
        items[0]
    } else {
        plain(SynKind::Group(items, comb))
    }
}

/// The combinator of a precedence level (`0`: `|`, `1`: `||`, `2`: `&&`).
pub open spec fn level_combinator(level: nat) -> Combinator {
    if level == 0 {
        Combinator::ExactlyOne
    } else if level == 1 {
        Combinator::OneOrMoreAnyOrder
    } else {
        Combinator::AllAnyOrder
    }
}

/// Length of the separator of `level` at `p`, or `0` when there is none.
pub open spec fn separator_at(s: Seq<char>, p: int, level: nat) -> int {
    if level == 0 {
        if char_at(s, p, '|') && !char_at(s, p + 1, '|') {
            1
        } else {
            0
        }
    } else if level == 1 {
        if char_at(s, p, '|') && char_at(s, p + 1, '|') {
            2
        } else {
            0
        }
    } else if char_at(s, p, '&') && char_at(s, p + 1, '&') {
        2
    } else {
        0
    }
}

/// A component of precedence `level` or tighter at `p` (`3` is juxtaposition).
pub open spec fn level_at(s: Seq<char>, p: int, level: nat) -> Parsed
    decreases s.len() - p, 4 - level, 2nat,
{
    if level > 3 || p < 0 || p > s.len() {
        Err(CompileError::UnexpectedCharacter)
    } else if level == 3 {
        terms_at(s, p, seq![])
    } else {
        match level_at(s, p, level + 1) {
            Err(e) => Err(e),
            Ok((first, q)) => if q <= p || q > s.len() {
                Err(CompileError::UnexpectedCharacter)
            } else {
                more_at(s, q, level, seq![first])
            },
        }
    }
}

/// Further items of `level` after its separator, once `items` have been read.
pub open spec fn more_at(s: Seq<char>, q: int, level: nat, items: Seq<Syn>) -> Parsed
    decreases s.len() - q, 4 - level, 1nat,
{
    let r = skip_space(s, q);
    let w = separator_at(s, r, level);
    if level >= 3 || w == 0 {
        Ok((joined(items, level_combinator(level)), q))
    } else if r + w <= q || r + w > s.len() {
        Err(CompileError::UnexpectedCharacter)
    } else {
        match level_at(s, r + w, level + 1) {
            Err(e) => Err(e),
            Ok((item, q2)) => if q2 <= q || q2 > s.len() {
                Err(CompileError::UnexpectedCharacter)
            } else {
                more_at(s, q2, level, items.push(item))
            },
        }
    }
}

/// Juxtaposed terms at `p`, once `items` have been read.
pub open spec fn terms_at(s: Seq<char>, p: int, items: Seq<Syn>) -> Parsed
    decreases s.len() - p, 0nat, 3nat,
{
    let r = skip_space(s, p);
    if r < p || p < 0 {
        Err(CompileError::UnexpectedCharacter)
    } else if r >= s.len() || ends_terms(s[r]) {
        if items.len() == 0 {
            Err(CompileError::UnexpectedCharacter)
        } else {
            Ok((joined(items, Combinator::AllInOrder), p))
        }
    } else {
        match term_at(s, r) {
            Err(e) => Err(e),
            Ok((t, q)) => if q <= r || q > s.len() {
                Err(CompileError::UnexpectedCharacter)
            } else {
                terms_at(s, q, items.push(t))
            },
        }
    }
}

/// A term at `p`: an atom and its multiplier.
pub open spec fn term_at(s: Seq<char>, p: int) -> Parsed
    decreases s.len() - p, 0nat, 2nat,
{
    match atom_at(s, p) {
        Err(e) => Err(e),
        Ok((a, q)) => suffix_at(s, q, a),
    }
}

/// An atom at `p`: a bracketed group, a reference, a function, a keyword or a
/// punctuation literal.
pub open spec fn atom_at(s: Seq<char>, p: int) -> Parsed
    decreases s.len() - p, 0nat, 1nat,
{
    if !(0 <= p < s.len()) {
        Err(CompileError::UnexpectedCharacter)
    } else {
        let c = s[p];
        if c == '[' {
            match level_at(s, p + 1, 0) {
                Err(e) => Err(e),
                Ok((inner, q)) => {
                    let r = skip_space(s, q);
                    if char_at(s, r, ']') {
                        Ok((bracketed(inner), r + 1))
                    } else {
                        Err(CompileError::UnbalancedBrackets)
                    }
                },
            }
        } else if c == '<' {
            type_reference_at(s, p + 1)
        } else if c == '\'' {
            let q = quote_at_or_after(s, p + 1);
            if q >= s.len() {
                Err(CompileError::UnterminatedReference)
            } else {
                Ok((plain(SynKind::Literal(s.subrange(p + 1, q))), q + 1))
            }
        } else if is_word_char(c) {
            let e = word_end(s, p);
            let name = s.subrange(p, e);
            if e <= p {
                Err(CompileError::UnexpectedCharacter)
            } else if char_at(s, e, '(') {
                let r = skip_space(s, e + 1);
                if char_at(s, r, ')') {
                    Ok((plain(SynKind::FunctionReference(name)), r + 1))
                } else {
                    match level_at(s, e + 1, 0) {
                        Err(err) => Err(err),
                        Ok((args, q)) => {
                            let r2 = skip_space(s, q);
                            if char_at(s, r2, ')') {
                                Ok((plain(SynKind::Function(name, Box::new(args))), r2 + 1))
                            } else {
                                Err(CompileError::UnbalancedBrackets)
                            }
                        },
                    }
                }
            } else {
                Ok((plain(SynKind::Literal(name)), e))
            }
        } else if is_punct(c) {
            Ok((plain(SynKind::Literal(seq![c])), p + 1))
        } else if is_multiplier_char(c) {
            Err(CompileError::DanglingMultiplier)
        } else if c == ']' || c == ')' {
            Err(CompileError::UnbalancedBrackets)
        } else {
            Err(CompileError::UnexpectedCharacter)
        }
    }
}

/// The root of a compiled grammar: a group without multiplier (an implicit
/// juxtaposition of one item where the text is a single term).
pub open spec fn as_root(c: Syn) -> Syn {
    if c.kind is Group && c.multiplier == Multiplier::Once && !c.non_empty {
        c
    } else {
        plain(SynKind::Group(seq![c], Combinator::AllInOrder))
    }
}

/// What compiling the text gives.
pub open spec fn compiled(s: Seq<char>) -> Result<Syn, CompileError> {
    let p = skip_space(s, 0);
    if s.len() >= MAX_SOURCE_LEN {
        Err(CompileError::TooLong)
    } else if p >= s.len() {
        Err(CompileError::Empty)
    } else {
        match level_at(s, p, 0) {
            Err(e) => Err(e),
            Ok((c, q)) => {
                let r = skip_space(s, q);
                if r < s.len() {
                    if s[r] == ']' || s[r] == ')' {
                        Err(CompileError::UnbalancedBrackets)
                    } else {
                        Err(CompileError::UnexpectedCharacter)
                    }
                } else {
                    Ok(as_root(c))
                }
            },
        }
    }
}

/// A parse step of the executable compiler agrees with the mathematical one.
pub open spec fn agrees(r: Result<(SyntaxComponent, usize), CompileError>, m: Parsed) -> bool {
    match m {
        Ok((syn, q)) => r is Ok && r->Ok_0.0.model() == syn && r->Ok_0.1 as int == q,
        Err(e) => r is Err && r->Err_0 == e,
    }
}

pub open spec fn pow10(k: nat) -> int
    decreases k,
{
    if k == 0 {
        1
    } else {
        10 * pow10((k - 1) as nat)
    }
}

proof fn lemma_digits_bound(s: Seq<char>, a: int, b: int)
    requires
        a <= b,
        forall|i: int| a <= i < b ==> is_digit(#[trigger] s[i]),
    ensures
        0 <= digits_value(s, a, b) < pow10((b - a) as nat),
    decreases b - a,
{
    if b > a {
        lemma_digits_bound(s, a, b - 1);
        let v = digits_value(s, a, b - 1);
        let d = s[b - 1] as int - '0' as int;
        let pw = pow10((b - 1 - a) as nat);
        assert(0 <= d <= 9);
        assert(v * 10 + d < pw * 10) by (nonlinear_arith)
            requires
                0 <= v < pw,
                0 <= d <= 9,
        ;
    }
}

proof fn lemma_digits_end(s: Seq<char>, p: int)
    requires
        0 <= p <= s.len(),
    ensures
        p <= digits_end(s, p) <= s.len(),
        forall|i: int| p <= i < digits_end(s, p) ==> is_digit(#[trigger] s[i]),
    decreases s.len() - p,
{
    if p < s.len() && is_digit(s[p]) {
        lemma_digits_end(s, p + 1);
    }
}

fn text_of(src: &str, a: usize, b: usize) -> (r: String)
    requires
        a <= b <= src@.len(),
    ensures
        r@ == src@.subrange(a as int, b as int),
{
    src.substring_char(a, b).to_owned()
}

fn skip_space_from(cs: &Vec<char>, p: usize) -> (r: usize)
    requires
        p <= cs@.len(),
        cs@.len() < MAX_SOURCE_LEN,
    ensures
        r as int == skip_space(cs@, p as int),
        p <= r <= cs@.len(),
{
    let mut q = p;
    while q < cs.len() && (cs[q] == ' ' || cs[q] == '\t' || cs[q] == '\n' || cs[q] == '\r')
        invariant
            p <= q <= cs@.len(),
            skip_space(cs@, q as int) == skip_space(cs@, p as int),
        decreases cs@.len() - q,
    {
        q = q + 1;
    }
    q
}

fn word_end_from(cs: &Vec<char>, p: usize) -> (r: usize)
    requires
        p <= cs@.len(),
        cs@.len() < MAX_SOURCE_LEN,
    ensures
        r as int == word_end(cs@, p as int),
        p <= r <= cs@.len(),
{
    let mut q = p;
    while q < cs.len() && (('a' <= cs[q] && cs[q] <= 'z') || ('A' <= cs[q] && cs[q] <= 'Z') || (
    '0' <= cs[q] && cs[q] <= '9') || cs[q] == '-' || cs[q] == '_')
        invariant
            p <= q <= cs@.len(),
            word_end(cs@, q as int) == word_end(cs@, p as int),
        decreases cs@.len() - q,
    {
        q = q + 1;
    }
    q
}

fn name_end_from(cs: &Vec<char>, p: usize) -> (r: usize)
    requires
        p <= cs@.len(),
        cs@.len() < MAX_SOURCE_LEN,
    ensures
        r as int == name_end(cs@, p as int),
        p <= r <= cs@.len(),
{
    let mut q = p;
    while q < cs.len() && cs[q] != '>' && cs[q] != '[' && cs[q] != '\'' && !(cs[q] == ' ' || cs[q]
        == '\t' || cs[q] == '\n' || cs[q] == '\r')
        invariant
            p <= q <= cs@.len(),
            name_end(cs@, q as int) == name_end(cs@, p as int),
        decreases cs@.len() - q,
    {
        q = q + 1;
    }
    q
}

fn quote_from(cs: &Vec<char>, p: usize) -> (r: usize)
    requires
        p <= cs@.len(),
        cs@.len() < MAX_SOURCE_LEN,
    ensures
        r as int == quote_at_or_after(cs@, p as int),
        p <= r <= cs@.len(),
{
    let mut q = p;
    while q < cs.len() && cs[q] != '\''
        invariant
            p <= q <= cs@.len(),
            quote_at_or_after(cs@, q as int) == quote_at_or_after(cs@, p as int),
        decreases cs@.len() - q,
    {
        q = q + 1;
    }
    q
}

fn has_char(cs: &Vec<char>, p: usize, c: char) -> (r: bool)
    ensures
        r == char_at(cs@, p as int, c),
{
    p < cs.len() && cs[p] == c
}

fn number_from(cs: &Vec<char>, p: usize) -> (r: Result<(u32, usize), CompileError>)
    requires
        p <= cs@.len(),
        cs@.len() < MAX_SOURCE_LEN,
    ensures
        match number_at(cs@, p as int) {
            Ok((v, e)) => r is Ok && r->Ok_0.0 as int == v && r->Ok_0.1 as int == e,
            Err(err) => r is Err && r->Err_0 == err,
        },
        r matches Ok((v, e)) ==> v < 1_000_000_000 && p < e <= cs@.len(),
{
    let mut q = p;
    while q < cs.len() && '0' <= cs[q] && cs[q] <= '9'
        invariant
            p <= q <= cs@.len(),
            digits_end(cs@, q as int) == digits_end(cs@, p as int),
        decreases cs@.len() - q,
    {
        q = q + 1;
    }
    let e = q;
    if e <= p || e - p > 9 {
        return Err(CompileError::MalformedRange);
    }
    proof {
        lemma_digits_end(cs@, p as int);
        reveal_with_fuel(pow10, 10);
        lemma_digits_bound(cs@, p as int, e as int);
    }
    let mut v: u32 = 0;
    let mut k = p;
    while k < e
        invariant
            p <= k <= e,
            e <= cs@.len(),
            e - p <= 9,
            e as int == digits_end(cs@, p as int),
            v as int == digits_value(cs@, p as int, k as int),
            forall|i: int| p <= i < e ==> is_digit(#[trigger] cs@[i]),
        decreases e - k,
    {
        proof {
            lemma_digits_bound(cs@, p as int, k as int + 1);
            assert(pow10((k + 1 - p) as nat) <= pow10(9)) by {
                lemma_pow10_mono((k + 1 - p) as nat, 9);
            }
            reveal_with_fuel(pow10, 10);
        }
        v = v * 10 + (cs[k] as u32 - '0' as u32);
        k = k + 1;
    }
    Ok((v, e))
}

proof fn lemma_pow10_mono(a: nat, b: nat)
    requires
        a <= b,
    ensures
        pow10(a) <= pow10(b),
    decreases b,
{
    if a < b {
        lemma_pow10_mono(a, (b - 1) as nat);
        lemma_pow10_pos((b - 1) as nat);
    }
}

proof fn lemma_pow10_pos(a: nat)
    ensures
        pow10(a) >= 1,
    decreases a,
{
    if a > 0 {
        lemma_pow10_pos((a - 1) as nat);
    }
}

fn bound_from(cs: &Vec<char>, p: usize) -> (r: Result<(Option<i32>, usize), CompileError>)
    requires
        p <= cs@.len(),
        cs@.len() < MAX_SOURCE_LEN,
    ensures
        match bound_at(cs@, p as int) {
            Ok((b, e)) => r is Ok && r->Ok_0.1 as int == e && match b {
                Some(v) => r->Ok_0.0 is Some && r->Ok_0.0->0 as int == v,
                None => r->Ok_0.0 is None,
            },
            Err(err) => r is Err && r->Err_0 == err,
        },
        r matches Ok((b, e)) ==> p < e <= cs@.len(),
{
    if has_char(cs, p, '∞') {
        Ok((None, p + 1))
    } else if (has_char(cs, p, '+') || has_char(cs, p, '-')) && has_char(cs, p + 1, '∞') {
        Ok((None, p + 2))
    } else if has_char(cs, p, '-') {
        match number_from(cs, p + 1) {
            Ok((v, e)) => Ok((Some(-(v as i32)), e)),
            Err(e) => Err(e),
        }
    } else {
        match number_from(cs, p) {
            Ok((v, e)) => Ok((Some(v as i32), e)),
            Err(e) => Err(e),
        }
    }
}

fn range_from(cs: &Vec<char>, p: usize) -> (r: Result<(NumRange, usize), CompileError>)
    requires
        p <= cs@.len(),
        cs@.len() < MAX_SOURCE_LEN,
    ensures
        match range_at(cs@, p as int) {
            Ok((range, e)) => r is Ok && r->Ok_0.0 == range && r->Ok_0.1 as int == e,
            Err(err) => r is Err && r->Err_0 == err,
        },
        r matches Ok((range, e)) ==> p < e <= cs@.len(),
{
    let a = skip_space_from(cs, p);
    match bound_from(cs, a) {
        Err(e) => Err(e),
        Ok((lo, e1)) => {
            let c = skip_space_from(cs, e1);
            if !has_char(cs, c, ',') {
                Err(CompileError::MalformedRange)
            } else {
                let b = skip_space_from(cs, c + 1);
                match bound_from(cs, b) {
                    Err(e) => Err(e),
                    Ok((hi, e2)) => {
                        let close = skip_space_from(cs, e2);
                        if !has_char(cs, close, ']') {
                            Err(CompileError::MalformedRange)
                        } else if lo.is_some() && hi.is_some() && lo.unwrap() > hi.unwrap() {
                            Err(CompileError::MalformedRange)
                        } else {
                            Ok((NumRange { min: lo, max: hi }, close + 1))
                        }
                    },
                }
            }
        },
    }
}

fn leaf(kind: ComponentKind) -> (r: SyntaxComponent)
    ensures
        r.kind == kind,
        r.multiplier == Multiplier::Once,
        !r.non_empty,
{
    SyntaxComponent { kind, multiplier: Multiplier::Once, non_empty: false }
}

fn type_reference_from(src: &str, cs: &Vec<char>, p: usize) -> (r: Result<(SyntaxComponent, usize), CompileError>)
    requires
        cs@ == src@,
        p <= cs@.len(),
        cs@.len() < MAX_SOURCE_LEN,
    ensures
        agrees(r, type_reference_at(cs@, p as int)),
        r matches Ok((c, e)) ==> p < e <= cs@.len(),
{
    if has_char(cs, p, '\'') {
        let q = quote_from(cs, p + 1);
        if q >= cs.len() || !has_char(cs, q + 1, '>') {
            Err(CompileError::UnterminatedReference)
        } else {
            let name = text_of(src, p + 1, q);
            Ok((leaf(ComponentKind::TypeReference(name, None)), q + 2))
        }
    } else {
        let e = name_end_from(cs, p);
        if e <= p {
            Err(CompileError::UnterminatedReference)
        } else {
            let r = skip_space_from(cs, e);
            if has_char(cs, r, '[') {
                match range_from(cs, r + 1) {
                    Err(err) => Err(err),
                    Ok((range, q)) => {
                        let close = skip_space_from(cs, q);
                        if has_char(cs, close, '>') {
                            let name = text_of(src, p, e);
                            Ok((leaf(ComponentKind::TypeReference(name, Some(range))), close + 1))
                        } else {
                            Err(CompileError::UnterminatedReference)
                        }
                    },
                }
            } else if has_char(cs, r, '>') {
                let name = text_of(src, p, e);
                Ok((leaf(ComponentKind::TypeReference(name, None)), r + 1))
            } else {
                Err(CompileError::UnterminatedReference)
            }
        }
    }
}

fn braces_from(cs: &Vec<char>, p: usize) -> (r: Result<(Multiplier, usize), CompileError>)
    requires
        p <= cs@.len(),
        cs@.len() < MAX_SOURCE_LEN,
    ensures
        match braces_at(cs@, p as int) {
            Ok((m, e)) => r is Ok && r->Ok_0.0 == m && r->Ok_0.1 as int == e,
            Err(err) => r is Err && r->Err_0 == err,
        },
        r matches Ok((m, e)) ==> p < e <= cs@.len(),
{
    match number_from(cs, p) {
        Err(e) => Err(e),
        Ok((a, e1)) => {
            if has_char(cs, e1, '}') {
                Ok((Multiplier::Range { min: a, max: Some(a) }, e1 + 1))
            } else if has_char(cs, e1, ',') && has_char(cs, e1 + 1, '}') {
                Ok((Multiplier::Range { min: a, max: None }, e1 + 2))
            } else if has_char(cs, e1, ',') {
                match number_from(cs, e1 + 1) {
                    Err(e) => Err(e),
                    Ok((b, e2)) => {
                        if !has_char(cs, e2, '}') || a > b {
                            Err(CompileError::MalformedRange)
                        } else {
                            Ok((Multiplier::Range { min: a, max: Some(b) }, e2 + 1))
                        }
                    },
                }
            } else {
                Err(CompileError::MalformedRange)
            }
        },
    }
}

fn suffix_from(cs: &Vec<char>, p: usize, a: SyntaxComponent) -> (r: Result<(SyntaxComponent, usize), CompileError>)
    requires
        p <= cs@.len(),
        cs@.len() < MAX_SOURCE_LEN,
    ensures
        agrees(r, suffix_at(cs@, p as int, a.model())),
        r matches Ok((c, e)) ==> p <= e <= cs@.len(),
{
    let m: Result<(Multiplier, usize), CompileError> = if has_char(cs, p, '?') {
        Ok((Multiplier::Optional, p + 1))
    } else if has_char(cs, p, '*') {
        Ok((Multiplier::ZeroOrMore, p + 1))
    } else if has_char(cs, p, '+') {
        Ok((Multiplier::OneOrMore, p + 1))
    } else if has_char(cs, p, '#') {
        Ok((Multiplier::CommaSeparatedOneOrMore, p + 1))
    } else if has_char(cs, p, '{') {
        braces_from(cs, p + 1)
    } else {
        Ok((Multiplier::Once, p))
    };
    match m {
        Err(e) => Err(e),
        Ok((mult, q)) => {
            let ne = has_char(cs, q, '!');
            let c = SyntaxComponent { kind: a.kind, multiplier: mult, non_empty: ne };
            if ne {
                Ok((c, q + 1))
            } else {
                Ok((c, q))
            }
        },
    }
}

fn push_item(items: &mut Vec<SyntaxComponent>, c: SyntaxComponent)
    ensures
        final(items)@.len() == old(items)@.len() + 1,
        models(final(items)@, final(items)@.len()) == models(old(items)@, old(items)@.len()).push(
            c.model(),
        ),
{
    let ghost before = items@;
    items.push(c);
    proof {
        lemma_models_prefix(before, items@, before.len());
    }
}

fn join_items(items: Vec<SyntaxComponent>, comb: Combinator) -> (r: SyntaxComponent)
    requires
        items@.len() >= 1,
    ensures
        r.model() == joined(models(items@, items@.len()), comb),
{
    proof {
        lemma_models_len(items@, items@.len());
    }
    if items.len() == 1 {
        let mut items = items;
        items.remove(0)
    } else {
        leaf(ComponentKind::Group(items, comb))
    }
}

fn level_from(src: &str, cs: &Vec<char>, p: usize, level: usize) -> (r: Result<(SyntaxComponent, usize), CompileError>)
    requires
        cs@ == src@,
        cs@.len() < MAX_SOURCE_LEN,
    ensures
        agrees(r, level_at(cs@, p as int, level as nat)),
        r matches Ok((c, e)) ==> e <= cs@.len(),
    decreases cs@.len() - p, 4 - level, 2nat,
{
    if level > 3 || p > cs.len() {
        Err(CompileError::UnexpectedCharacter)
    } else if level == 3 {
        let items: Vec<SyntaxComponent> = Vec::new();
        proof {
            assert(models(items@, 0) =~= seq![]);
        }
        terms_from(src, cs, p, items)
    } else {
        match level_from(src, cs, p, level + 1) {
            Err(e) => Err(e),
            Ok((first, q)) => {
                if q <= p || q > cs.len() {
                    Err(CompileError::UnexpectedCharacter)
                } else {
                    let mut items: Vec<SyntaxComponent> = Vec::new();
                    proof {
                        assert(models(items@, 0) =~= seq![]);
                    }
                    push_item(&mut items, first);
                    proof {
                        assert(models(items@, 1) =~= seq![first.model()]);
                    }
                    more_from(src, cs, q, level, items)
                }
            },
        }
    }
}

fn separator_from(cs: &Vec<char>, p: usize, level: usize) -> (r: usize)
    requires
        cs@.len() < MAX_SOURCE_LEN,
    ensures
        r as int == separator_at(cs@, p as int, level as nat),
{
    if p >= cs.len() {
        0
    } else if level == 0 {
        if cs[p] == '|' && !has_char(cs, p + 1, '|') {
            1
        } else {
            0
        }
    } else if level == 1 {
        if cs[p] == '|' && has_char(cs, p + 1, '|') {
            2
        } else {
            0
        }
    } else if cs[p] == '&' && has_char(cs, p + 1, '&') {
        2
    } else {
        0
    }
}

fn combinator_of(level: usize) -> (r: Combinator)
    ensures
        r == level_combinator(level as nat),
{
    if level == 0 {
        Combinator::ExactlyOne
    } else if level == 1 {
        Combinator::OneOrMoreAnyOrder
    } else {
        Combinator::AllAnyOrder
    }
}

fn more_from(src: &str, cs: &Vec<char>, q: usize, level: usize, items: Vec<SyntaxComponent>) -> (r: Result<(SyntaxComponent, usize), CompileError>)
    requires
        cs@ == src@,
        cs@.len() < MAX_SOURCE_LEN,
        q <= cs@.len(),
        items@.len() >= 1,
    ensures
        agrees(r, more_at(cs@, q as int, level as nat, models(items@, items@.len()))),
        r matches Ok((c, e)) ==> e <= cs@.len(),
    decreases cs@.len() - q, 4 - level, 1nat,
{
    let r = skip_space_from(cs, q);
    let w = separator_from(cs, r, level);
    if level >= 3 || w == 0 {
        proof {
            lemma_models_len(items@, items@.len());
        }
        Ok((join_items(items, combinator_of(level)), q))
    } else if r + w <= q || r + w > cs.len() {
        Err(CompileError::UnexpectedCharacter)
    } else {
        match level_from(src, cs, r + w, level + 1) {
            Err(e) => Err(e),
            Ok((item, q2)) => {
                if q2 <= q || q2 > cs.len() {
                    Err(CompileError::UnexpectedCharacter)
                } else {
                    let mut items = items;
                    push_item(&mut items, item);
                    more_from(src, cs, q2, level, items)
                }
            },
        }
    }
}

fn terms_from(src: &str, cs: &Vec<char>, p: usize, items: Vec<SyntaxComponent>) -> (r: Result<(SyntaxComponent, usize), CompileError>)
    requires
        cs@ == src@,
        cs@.len() < MAX_SOURCE_LEN,
        p <= cs@.len(),
    ensures
        agrees(r, terms_at(cs@, p as int, models(items@, items@.len()))),
        r matches Ok((c, e)) ==> e <= cs@.len(),
    decreases cs@.len() - p, 0nat, 3nat,
{
    let r = skip_space_from(cs, p);
    if r >= cs.len() || cs[r] == ']' || cs[r] == ')' || cs[r] == '|' || cs[r] == '&' {
        proof {
            lemma_models_len(items@, items@.len());
        }
        if items.len() == 0 {
            Err(CompileError::UnexpectedCharacter)
        } else {
            Ok((join_items(items, Combinator::AllInOrder), p))
        }
    } else {
        match term_from(src, cs, r) {
            Err(e) => Err(e),
            Ok((t, q)) => {
                if q <= r || q > cs.len() {
                    Err(CompileError::UnexpectedCharacter)
                } else {
                    let mut items = items;
                    push_item(&mut items, t);
                    terms_from(src, cs, q, items)
                }
            },
        }
    }
}

fn term_from(src: &str, cs: &Vec<char>, p: usize) -> (r: Result<(SyntaxComponent, usize), CompileError>)
    requires
        cs@ == src@,
        cs@.len() < MAX_SOURCE_LEN,
        p <= cs@.len(),
    ensures
        agrees(r, term_at(cs@, p as int)),
        r matches Ok((c, e)) ==> e <= cs@.len(),
    decreases cs@.len() - p, 0nat, 2nat,
{
    match atom_from(src, cs, p) {
        Err(e) => Err(e),
        Ok((a, q)) => suffix_from(cs, q, a),
    }
}

fn bracket(inner: SyntaxComponent) -> (r: SyntaxComponent)
    ensures
        r.model() == bracketed(inner.model()),
{
    let plain_group = match inner.kind {
        ComponentKind::Group(_, _) => true,
        _ => false,
    };
    if plain_group && matches!(inner.multiplier, Multiplier::Once) && !inner.non_empty {
        inner
    } else {
        let ghost m = inner.model();
        let mut items: Vec<SyntaxComponent> = Vec::new();
        items.push(inner);
        proof {
            lemma_models_len(items@, 1);
            assert(models(items@, 1) =~= seq![m]);
        }
        leaf(ComponentKind::Group(items, Combinator::AllInOrder))
    }
}

fn atom_from(src: &str, cs: &Vec<char>, p: usize) -> (r: Result<(SyntaxComponent, usize), CompileError>)
    requires
        cs@ == src@,
        cs@.len() < MAX_SOURCE_LEN,
        p <= cs@.len(),
    ensures
        agrees(r, atom_at(cs@, p as int)),
        r matches Ok((c, e)) ==> e <= cs@.len(),
    decreases cs@.len() - p, 0nat, 1nat,
{
    if p >= cs.len() {
        return Err(CompileError::UnexpectedCharacter);
    }
    let c = cs[p];
    if c == '[' {
        match level_from(src, cs, p + 1, 0) {
            Err(e) => Err(e),
            Ok((inner, q)) => {
                if q > cs.len() {
                    return Err(CompileError::UnexpectedCharacter);
                }
                let r = skip_space_from(cs, q);
                if has_char(cs, r, ']') {
                    Ok((bracket(inner), r + 1))
                } else {
                    Err(CompileError::UnbalancedBrackets)
                }
            },
        }
    } else if c == '<' {
        type_reference_from(src, cs, p + 1)
    } else if c == '\'' {
        let q = quote_from(cs, p + 1);
        if q >= cs.len() {
            Err(CompileError::UnterminatedReference)
        } else {
            Ok((leaf(ComponentKind::Literal(text_of(src, p + 1, q))), q + 1))
        }
    } else if ('a' <= c && c <= 'z') || ('A' <= c && c <= 'Z') || ('0' <= c && c <= '9') || c
        == '-' || c == '_' {
        let e = word_end_from(cs, p);
        if e <= p {
            Err(CompileError::UnexpectedCharacter)
        } else if has_char(cs, e, '(') {
            let r = skip_space_from(cs, e + 1);
            if has_char(cs, r, ')') {
                Ok((leaf(ComponentKind::FunctionReference(text_of(src, p, e))), r + 1))
            } else {
                match level_from(src, cs, e + 1, 0) {
                    Err(err) => Err(err),
                    Ok((args, q)) => {
                        if q > cs.len() {
                            return Err(CompileError::UnexpectedCharacter);
                        }
                        let r2 = skip_space_from(cs, q);
                        if has_char(cs, r2, ')') {
                            let name = text_of(src, p, e);
                            Ok((leaf(ComponentKind::Function(name, Box::new(args))), r2 + 1))
                        } else {
                            Err(CompileError::UnbalancedBrackets)
                        }
                    },
                }
            }
        } else {
            Ok((leaf(ComponentKind::Literal(text_of(src, p, e))), e))
        }
    } else if c == ',' || c == '/' || c == ':' || c == ';' || c == '=' {
        let lit = text_of(src, p, p + 1);
        proof {
            assert(lit@ =~= seq![c]);
        }
        Ok((leaf(ComponentKind::Literal(lit)), p + 1))
    } else if c == '?' || c == '*' || c == '+' || c == '#' || c == '{' || c == '!' {
        Err(CompileError::DanglingMultiplier)
    } else if c == ']' || c == ')' {
        Err(CompileError::UnbalancedBrackets)
    } else {
        Err(CompileError::UnexpectedCharacter)
    }
}

fn chars_of(src: &str) -> (r: Vec<char>)
    ensures
        r@ == src@,
{
    let n = src.unicode_len();
    let mut r: Vec<char> = Vec::new();
    let mut k: usize = 0;
    while k < n
        invariant
            n == src@.len(),
            k <= n,
            r@ == src@.subrange(0, k as int),
        decreases n - k,
    {
        r.push(src.get_char(k));
        k = k + 1;
        assert(r@ =~= src@.subrange(0, k as int));
    }
    assert(r@ =~= src@);
    r
}

fn root_of(c: SyntaxComponent) -> (r: SyntaxComponent)
    ensures
        r.model() == as_root(c.model()),
{
    let plain_group = match c.kind {
        ComponentKind::Group(_, _) => true,
        _ => false,
    };
    if plain_group && matches!(c.multiplier, Multiplier::Once) && !c.non_empty {
        c
    } else {
        let ghost m = c.model();
        let mut items: Vec<SyntaxComponent> = Vec::new();
        items.push(c);
        proof {
            lemma_models_len(items@, 1);
            assert(models(items@, 1) =~= seq![m]);
        }
        leaf(ComponentKind::Group(items, Combinator::AllInOrder))
    }
}

/// `r` is what compiling the text `s` gives: the tree whose model `compiled` describes,
/// or its error.
pub open spec fn compile_outcome(s: Seq<char>, r: Result<SyntaxTree, CompileError>) -> bool {
    match compiled(s) {
        Ok(m) => r is Ok && r->Ok_0.root.model() == m,
        Err(e) => r is Err && r->Err_0 == e,
    }
}

/// Compiling is deterministic: two outcomes of compiling the same text both succeed
/// with structurally identical trees, or both fail with the same error.
pub proof fn lemma_compile_deterministic(
    s: Seq<char>,
    r1: Result<SyntaxTree, CompileError>,
    r2: Result<SyntaxTree, CompileError>,
)
    requires
        compile_outcome(s, r1),
        compile_outcome(s, r2),
    ensures
        r1 is Ok <==> r2 is Ok,
        r1 is Ok ==> r1->Ok_0.root.model() == r2->Ok_0.root.model(),
        r1 is Err ==> r1->Err_0 == r2->Err_0,
{
}

/// Compiles a value definition grammar (`<length> | <percentage>#`) into a syntax tree.
pub fn compile(source: &str) -> (r: Result<SyntaxTree, CompileError>)
    ensures
        compile_outcome(source@, r),
{
    let cs = chars_of(source);
    if cs.len() >= MAX_SOURCE_LEN {
        return Err(CompileError::TooLong);
    }
    let p = skip_space_from(&cs, 0);
    if p >= cs.len() {
        return Err(CompileError::Empty);
    }
    match level_from(source, &cs, p, 0) {
        Err(e) => Err(e),
        Ok((c, q)) => {
            if q > cs.len() {
                return Err(CompileError::UnexpectedCharacter);
            }
            let r = skip_space_from(&cs, q);
            if r < cs.len() {
                if cs[r] == ']' || cs[r] == ')' {
                    Err(CompileError::UnbalancedBrackets)
                } else {
                    Err(CompileError::UnexpectedCharacter)
                }
            } else {
                Ok(SyntaxTree { root: root_of(c) })
            }
        },
    }
}

} // verus!
