use gosub_styling::definitions::{CssDefinitions, FunctionEntry, PropertyEntry, SyntaxEntry};
use gosub_styling::value::{CssValue, Fixed};

fn prop(name: &str, syntax: &str, initial: Option<CssValue>) -> PropertyEntry {
    PropertyEntry {
        name: name.to_string(),
        syntax: syntax.to_string(),
        computed: vec![],
        inherited: false,
        initial_value: initial,
        mdn_url: String::new(),
    }
}

fn catalog() -> CssDefinitions {
    let functions = vec![FunctionEntry {
        name: "rgb".to_string(),
        syntax: "rgb( <number>{3} )".to_string(),
        mdn_url: String::new(),
    }];
    let syntaxes = vec![
        SyntaxEntry { name: "color".to_string(), syntax: "<hex-color> | rgb() | <named-color> | transparent".to_string() },
        SyntaxEntry { name: "named-color".to_string(), syntax: "red | blue | transparent".to_string() },
        SyntaxEntry { name: "broken".to_string(), syntax: "[ a".to_string() },
    ];
    let properties = vec![
        prop("background-attachment", "fixed | scroll", Some(CssValue::String("scroll".to_string()))),
        prop("background-color", "<color>", Some(CssValue::String("transparent".to_string()))),
        prop("width", "auto | <length>", Some(CssValue::String("wide".to_string()))),
        prop("margin", "<length>{1,4}", None),
        prop("dangling", "<no-such-type>", None),
        prop("bad", "a {3,1}", None),
    ];
    CssDefinitions::load(&functions, &syntaxes, properties)
}

#[test]
fn catalog_loads_with_failures_recorded() {
    let defs = catalog();
    assert_eq!(defs.len(), 4);
    assert!(!defs.is_empty());
    let failed: Vec<String> = defs.failed.clone();
    assert!(failed.contains(&"broken".to_string()));
    assert!(failed.contains(&"dangling".to_string()));
    assert!(failed.contains(&"bad".to_string()));
    assert!(!failed.contains(&"width".to_string()));
    assert_eq!(defs.initial_value_mismatches(), vec!["width".to_string()]);
    assert!(!failed.contains(&"margin".to_string()));
    assert!(!failed.contains(&"color".to_string()));
    assert!(defs.find_property("dangling").is_none());
    assert!(defs.find_property("bad").is_none());
    assert!(defs.find_function("rgb").is_some());
    assert!(defs.find_syntax("color").is_some());
    assert!(defs.find_syntax("broken").is_none());
}

#[test]
fn references_are_inlined() {
    let defs = catalog();
    let p = defs.find_property("background-color").expect("loaded");
    assert!(p.clone().matches(&CssValue::String("blue".to_string())).is_some());
    assert!(p.clone().matches(&CssValue::String("rebeccapurple".to_string())).is_some());
    assert!(p.clone().matches(&CssValue::String("thiscolordoesnotexist".to_string())).is_none());
    let rgb = CssValue::Function(
        "rgb".to_string(),
        vec![
            CssValue::Number(Fixed::from_int(1)),
            CssValue::Number(Fixed::from_int(2)),
            CssValue::Number(Fixed::from_int(3)),
        ],
    );
    assert!(p.matches(&rgb).is_some());
}

#[test]
fn initial_values_round_trip() {
    let defs = catalog();
    for name in ["background-attachment", "background-color", "margin"] {
        let p = defs.find_property(name).expect("loaded");
        if p.clone().has_initial_value() {
            let v = p.clone().initial_value();
            assert!(p.matches(&v).is_some());
        }
    }
    let margin = defs.find_property("margin").expect("loaded");
    assert!(!margin.clone().has_initial_value());
    assert!(matches!(margin.initial_value(), CssValue::NoneKeyword));
    let width = defs.find_property("width").expect("kept with its initial value");
    assert!(width.clone().has_initial_value());
    let wide = width.clone().initial_value();
    assert!(width.matches(&wide).is_none());
}

#[test]
fn property_accessors() {
    let defs = catalog();
    let p = defs.find_property("background-attachment").expect("loaded");
    assert_eq!(p.clone().name(), "background-attachment");
    assert!(!p.clone().inherited());
    assert!(p.clone().expanded_properties().is_empty());
    assert!(p.check_expanded_properties(&[]));
}

#[test]
fn adding_replaces_by_name() {
    let mut defs = catalog();
    let p = defs.find_property("margin").expect("loaded");
    defs.add_property("margin", p);
    assert_eq!(defs.len(), 4);
    let q = defs.find_property("background-color").expect("loaded");
    defs.add_property("color-copy", q);
    assert_eq!(defs.len(), 5);
    assert!(CssDefinitions::new().is_empty());
}

#[test]
fn self_referential_grammars_are_inlined_to_a_bounded_depth() {
    let syntaxes = vec![SyntaxEntry { name: "nest".to_string(), syntax: "x | y <nest>".to_string() }];
    let properties = vec![prop("nesting", "<nest>", None)];
    let defs = CssDefinitions::load(&Vec::new(), &syntaxes, properties);
    assert!(defs.failed.is_empty());
    let p = defs.find_property("nesting").expect("loaded");
    let kw = |s: &str| CssValue::String(s.to_string());
    assert!(p.clone().matches(&kw("x")).is_some());
    assert!(p.clone().matches(&CssValue::List(vec![kw("y"), kw("x")])).is_some());
    assert!(p.clone().matches(&CssValue::List(vec![kw("y"), kw("y"), kw("x")])).is_some());
    let deeper = CssValue::List(vec![kw("y"), kw("y"), kw("y"), kw("y"), kw("x")]);
    assert!(defs.match_property("nesting", &deeper).is_some());
}

#[test]
fn the_last_entry_of_a_name_decides() {
    let properties = vec![
        prop("gap", "<length>", None),
        prop("gap", "normal | <length>", None),
        prop("gone", "auto", None),
        prop("gone", "[ auto", None),
    ];
    let defs = CssDefinitions::load(&Vec::new(), &Vec::new(), properties);
    let gap = defs.find_property("gap").expect("loaded");
    assert!(gap.matches(&CssValue::String("normal".to_string())).is_some());
    assert!(defs.find_property("gone").is_none());
    assert_eq!(defs.failed, vec!["gone".to_string()]);
}

#[test]
fn stored_properties_carry_their_entry() {
    let properties = vec![PropertyEntry {
        name: "border".to_string(),
        syntax: "<length> || solid".to_string(),
        computed: vec!["border-width".to_string(), "border-style".to_string()],
        inherited: true,
        initial_value: Some(CssValue::String("solid".to_string())),
        mdn_url: "https://example.org/border".to_string(),
    }];
    let defs = CssDefinitions::load(&Vec::new(), &Vec::new(), properties);
    let p = defs.find_property("border").expect("loaded");
    assert_eq!(p.clone().name(), "border");
    assert!(p.clone().inherited());
    assert_eq!(p.mdn_url, "https://example.org/border");
    assert_eq!(p.clone().expanded_properties(), vec!["border-width".to_string(), "border-style".to_string()]);
    assert!(p.has_initial_value());
}

#[test]
fn deep_recursion_re_enters_the_named_grammar() {
    let syntaxes = vec![SyntaxEntry { name: "nest".to_string(), syntax: "x | y <nest>".to_string() }];
    let properties = vec![prop("nesting", "<nest>", None)];
    let defs = CssDefinitions::load(&Vec::new(), &syntaxes, properties);
    let kw = |s: &str| CssValue::String(s.to_string());
    let deep = CssValue::List(vec![kw("y"), kw("y"), kw("y"), kw("y"), kw("y"), kw("y"), kw("x")]);
    assert!(defs.match_property("nesting", &deep).is_some());
    assert!(defs.match_property("nesting", &CssValue::List(vec![kw("y"), kw("y")])).is_none());
    assert!(defs.match_property("absent", &kw("x")).is_none());
}

#[test]
fn references_use_the_last_entry_of_a_name() {
    let syntaxes = vec![
        SyntaxEntry { name: "size".to_string(), syntax: "small".to_string() },
        SyntaxEntry { name: "size".to_string(), syntax: "large".to_string() },
    ];
    let properties = vec![prop("font-size", "<size>", None)];
    let defs = CssDefinitions::load(&Vec::new(), &syntaxes, properties);
    let p = defs.find_property("font-size").expect("loaded");
    assert!(p.clone().matches(&CssValue::String("large".to_string())).is_some());
    assert!(p.matches(&CssValue::String("small".to_string())).is_none());
}
