use gosub_styling::compile::{compile, CompileError};
use gosub_styling::definitions::{resolve_tree, FunctionDefinition, SyntaxDefinition};
use gosub_styling::syntax::{Combinator, ComponentKind, Multiplier, SyntaxTree};
use gosub_styling::value::{CssValue, Fixed, RgbColor};

fn grammar(source: &str) -> SyntaxTree {
    compile(source).expect("grammar compiles")
}

fn resolved_grammar(source: &str) -> SyntaxTree {
    let tree = compile(source).expect("grammar compiles");
    resolve_tree(&tree, &Vec::<SyntaxDefinition>::new(), &Vec::<FunctionDefinition>::new()).expect("grammar resolves")
}

#[test]
fn compiled_and_resolved_grammars_agree_on_scalars() {
    let v = CssValue::List(vec![px(1), px(2)]);
    assert!(grammar("<length>+").matches(&v).is_some());
    assert!(resolved_grammar("<length>+").matches(&v).is_some());
    assert!(grammar("<integer [1,2]>").matches(&num(1)).is_some());
    assert!(resolved_grammar("<integer [1,2]>").matches(&num(3)).is_none());
}

fn kw(s: &str) -> CssValue {
    CssValue::String(s.to_string())
}

fn px(n: i32) -> CssValue {
    CssValue::Unit(Fixed::from_int(n), "px".to_string())
}

fn pct(n: i32) -> CssValue {
    CssValue::Percentage(Fixed::from_int(n))
}

fn num(n: i32) -> CssValue {
    CssValue::Number(Fixed::from_int(n))
}

fn is_keyword(v: &CssValue, s: &str) -> bool {
    matches!(v, CssValue::String(k) if k == s)
}

#[test]
fn alternatives_accept_a_listed_keyword() {
    let tree = grammar("fixed | scroll");
    let r = tree.matches(&kw("scroll")).expect("scroll matches");
    assert!(is_keyword(&r, "scroll"));
}

#[test]
fn alternatives_reject_an_unlisted_keyword() {
    let tree = grammar("fixed | scroll");
    assert!(tree.matches(&kw("incorrect")).is_none());
}

#[test]
fn keywords_compare_without_case() {
    let tree = grammar("fixed | scroll");
    assert!(tree.matches(&kw("SCROLL")).is_some());
}

#[test]
fn one_or_more_lengths() {
    let tree = grammar("<length>+");
    let v = CssValue::List(vec![px(10), px(20), px(30)]);
    let r = tree.matches(&v).expect("three lengths match");
    match r {
        CssValue::List(items) => assert_eq!(items.len(), 3),
        _ => panic!(),
    }
    assert!(tree.matches(&CssValue::List(vec![])).is_none());
}

#[test]
fn range_multiplier_rejects_too_many() {
    let tree = grammar("<length>{2,4}");
    assert!(tree.matches(&CssValue::List(vec![px(1), px(2), px(3), px(4), px(5)])).is_none());
    assert!(tree.matches(&CssValue::List(vec![px(1), px(2), px(3), px(4)])).is_some());
    assert!(tree.matches(&CssValue::List(vec![px(1), px(2)])).is_some());
    assert!(tree.matches(&CssValue::List(vec![px(1)])).is_none());
}

#[test]
fn one_or_more_any_order() {
    let tree = grammar("<percentage> || <number>");
    assert!(tree.matches(&CssValue::List(vec![pct(50), num(3)])).is_some());
    assert!(tree.matches(&CssValue::List(vec![num(3), pct(50)])).is_some());
    assert!(tree.matches(&CssValue::List(vec![pct(50)])).is_some());
    assert!(tree.matches(&CssValue::List(vec![])).is_none());
    assert!(tree.matches(&CssValue::List(vec![pct(50), pct(50)])).is_none());
}

#[test]
fn all_any_order_needs_every_child() {
    let tree = grammar("<percentage> && <number> && <length>");
    assert!(tree.matches(&CssValue::List(vec![pct(1), num(2), px(3)])).is_some());
    assert!(tree.matches(&CssValue::List(vec![px(3), pct(1), num(2)])).is_some());
    assert!(tree.matches(&CssValue::List(vec![num(2), px(3), pct(1)])).is_some());
    assert!(tree.matches(&CssValue::List(vec![num(2), px(3)])).is_none());
}

#[test]
fn backtracking_repetition() {
    let tree = grammar("<length>+ <length>");
    assert!(tree.matches(&CssValue::List(vec![px(1), px(2)])).is_some());
    assert!(tree.matches(&CssValue::List(vec![px(1)])).is_none());
}

#[test]
fn integer_range_bounds() {
    let tree = grammar("<integer [1,∞]>");
    assert!(tree.matches(&num(1)).is_some());
    assert!(tree.matches(&num(0)).is_none());
    assert!(tree.matches(&num(-4)).is_none());
    assert!(tree.matches(&CssValue::Number(Fixed::from_milli(1500))).is_none());
    let bounded = grammar("<number [0,10]>");
    assert!(bounded.matches(&num(0)).is_some());
    assert!(bounded.matches(&num(10)).is_some());
    assert!(bounded.matches(&CssValue::Number(Fixed::from_milli(10001))).is_none());
    assert!(bounded.matches(&CssValue::Number(Fixed::from_milli(-1))).is_none());
}

#[test]
fn optional_and_zero_or_more_accept_nothing() {
    let tree = grammar("a <length>? b");
    assert!(tree.matches(&CssValue::List(vec![kw("a"), kw("b")])).is_some());
    let tree = grammar("a <length>* b");
    assert!(tree.matches(&CssValue::List(vec![kw("a"), kw("b")])).is_some());
    assert!(tree.matches(&CssValue::List(vec![kw("a"), px(1), px(2), kw("b")])).is_some());
    let tree = grammar("a [ <length>? ]! b");
    assert!(tree.matches(&CssValue::List(vec![kw("a"), kw("b")])).is_none());
    assert!(tree.matches(&CssValue::List(vec![kw("a"), px(4), kw("b")])).is_some());
}

#[test]
fn comma_separated_lists() {
    let tree = grammar("<length>#");
    assert!(tree.matches(&CssValue::List(vec![px(1), CssValue::Comma, px(2)])).is_some());
    assert!(tree.matches(&CssValue::List(vec![px(1), px(2)])).is_none());
    assert!(tree.matches(&px(1)).is_some());
}

#[test]
fn units_and_kinds() {
    let tree = grammar("<angle>");
    assert!(tree.matches(&CssValue::Unit(Fixed::from_int(90), "deg".to_string())).is_some());
    assert!(tree.matches(&CssValue::Unit(Fixed::from_int(90), "blaat".to_string())).is_none());
    assert!(grammar("<length>").matches(&CssValue::Zero).is_some());
    assert!(grammar("<hex-color>").matches(&CssValue::Color(RgbColor { r: 1, g: 2, b: 3, a: 255 })).is_some());
    assert!(grammar("<dashed-ident>").matches(&kw("--x")).is_some());
    assert!(grammar("<dashed-ident>").matches(&kw("x")).is_none());
    assert!(grammar("none | <length>").matches(&CssValue::NoneKeyword).is_some());
}

#[test]
fn functions_match_their_arguments() {
    let tree = grammar("rgb( <number> , <number> )");
    let good = CssValue::Function("rgb".to_string(), vec![num(1), CssValue::Comma, num(2)]);
    let bad = CssValue::Function("rgb".to_string(), vec![num(1)]);
    let other = CssValue::Function("hsl".to_string(), vec![num(1), CssValue::Comma, num(2)]);
    assert!(tree.matches(&good).is_some());
    assert!(tree.matches(&bad).is_none());
    assert!(tree.matches(&other).is_none());
}

#[test]
fn a_lone_term_is_wrapped_for_a_sequence_grammar() {
    let tree = grammar("a b?");
    let r = tree.matches(&kw("a")).expect("matches");
    match r {
        CssValue::List(items) => {
            assert_eq!(items.len(), 1);
            assert!(is_keyword(&items[0], "a"));
        },
        _ => panic!(),
    }
}

#[test]
fn compile_errors() {
    assert_eq!(compile("").err(), Some(CompileError::Empty));
    assert_eq!(compile("   ").err(), Some(CompileError::Empty));
    assert_eq!(compile("[ a b").err(), Some(CompileError::UnbalancedBrackets));
    assert_eq!(compile("a b ]").err(), Some(CompileError::UnbalancedBrackets));
    assert_eq!(compile("+ a").err(), Some(CompileError::DanglingMultiplier));
    assert_eq!(compile("a{4,2}").err(), Some(CompileError::MalformedRange));
    assert_eq!(compile("a {4,2}").err(), Some(CompileError::DanglingMultiplier));
    assert_eq!(compile("a{x}").err(), Some(CompileError::MalformedRange));
    assert_eq!(compile("<integer [5,1]>").err(), Some(CompileError::MalformedRange));
    assert_eq!(compile("<length").err(), Some(CompileError::UnterminatedReference));
    assert_eq!(compile("a $").err(), Some(CompileError::UnexpectedCharacter));
}

#[test]
fn precedence_of_combinators() {
    let tree = compile("a b | c && d || e").expect("compiles");
    match &tree.root.kind {
        ComponentKind::Group(children, Combinator::ExactlyOne) => {
            assert_eq!(children.len(), 2);
            assert!(matches!(children[0].kind, ComponentKind::Group(_, Combinator::AllInOrder)));
            match &children[1].kind {
                ComponentKind::Group(inner, Combinator::OneOrMoreAnyOrder) => {
                    assert_eq!(inner.len(), 2);
                    assert!(matches!(inner[0].kind, ComponentKind::Group(_, Combinator::AllAnyOrder)));
                },
                _ => panic!(),
            }
        },
        _ => panic!(),
    }
}

#[test]
fn multipliers_are_read() {
    let tree = compile("a{1,3} b{2,} c# d*!").expect("compiles");
    match &tree.root.kind {
        ComponentKind::Group(children, Combinator::AllInOrder) => {
            assert_eq!(children[0].multiplier, Multiplier::Range { min: 1, max: Some(3) });
            assert_eq!(children[1].multiplier, Multiplier::Range { min: 2, max: None });
            assert_eq!(children[2].multiplier, Multiplier::CommaSeparatedOneOrMore);
            assert_eq!(children[3].multiplier, Multiplier::ZeroOrMore);
            assert!(children[3].non_empty);
        },
        _ => panic!(),
    }
}

#[test]
fn compiling_twice_gives_the_same_tree() {
    let a = compile("[ <length> | auto ]{1,2} || <color>#").expect("compiles");
    let b = compile("[ <length> | auto ]{1,2} || <color>#").expect("compiles");
    assert_eq!(format!("{:?}", a), format!("{:?}", b));
}

#[test]
fn named_and_system_colors() {
    let tree = grammar("<named-color> | <system-color>");
    assert!(tree.matches(&kw("rebeccapurple")).is_some());
    assert!(tree.matches(&kw("Red")).is_some());
    assert!(tree.matches(&kw("CanvasText")).is_some());
    assert!(tree.matches(&kw("canvastext")).is_some());
    assert!(tree.matches(&kw("notacolor")).is_none());
}
