use verieasy::config::{ascii_lowercase, WorkflowConfig};
use verieasy::log::{LogLevel, Logger, MessageType};
use verieasy::path::Path;
use verieasy::resolve::{ModuleStack, PathResolver, SymbolCollector, UseTree};
use verieasy::types::{GenericType, PreciseType, Type};

#[test]
fn parsing_then_rendering_gives_the_string_back() {
    for s in ["std::vec::Vec", "add", "a::b::c::d", "", "::x"] {
        assert_eq!(Path::from_str(s).to_string(), s);
    }
}

#[test]
fn flattened_identifiers_use_triple_underscores() {
    let p = Path::from_str("m::Type::new");
    assert_eq!(p.to_ident(), "m___Type___new");
    assert_eq!(p.last().unwrap(), "new");
    assert_eq!(p.parent().unwrap().to_string(), "m::Type");
    assert_eq!(Path::empty().join("x".to_string()).to_string(), "x");
}

#[test]
fn one_level_of_angle_brackets_is_parsed() {
    let t = Type::from_path(Path::from_str("m::Foo<Bar, Baz>"));
    match &t {
        Type::Generic(g) => {
            assert_eq!(g.path.to_string(), "m::Foo");
            assert_eq!(g.generics.len(), 2);
        }
        Type::Precise(_) => panic!("expected a generic type"),
    }
    assert_eq!(t.to_path().to_string(), "m::Foo<Bar, Baz>");
    let p = Type::from_path(Path::from_str("u32"));
    assert_eq!(p.as_path().to_string(), "u32");
}

#[test]
fn generic_equality_ignores_the_arguments() {
    let a = Type::Generic(GenericType {
        path: Path::from_str("Foo"),
        generics: vec![Type::Precise(PreciseType(Path::from_str("A")))],
    });
    let b = Type::Generic(GenericType {
        path: Path::from_str("Foo"),
        generics: vec![Type::Precise(PreciseType(Path::from_str("B")))],
    });
    assert!(a.eq_ignore_generics(&b));
    assert!(!a.same_as(&b));
    assert!(a.same_as(&a.duplicate()));
}

#[test]
fn resolver_rewrites_heads_through_the_module_and_imports() {
    let mut resolver = PathResolver::new();
    resolver.enter_module("inner");
    resolver.parse_use_tree(
        &UseTree::Prefix {
            ident: "std".to_string(),
            tree: Box::new(UseTree::Prefix {
                ident: "vec".to_string(),
                tree: Box::new(UseTree::Name {
                    ident: "Vec".to_string(),
                }),
            }),
        },
        Path::empty(),
    );
    assert_eq!(
        resolver.resolve_path(&Path::from_str("Vec::new")).to_string(),
        "std::vec::Vec::new"
    );
    assert_eq!(
        resolver.resolve_path(&Path::from_str("self::helper")).to_string(),
        "inner::helper"
    );
    assert_eq!(
        resolver.resolve_path(&Path::from_str("super::helper")).to_string(),
        "helper"
    );
    assert_eq!(
        resolver.resolve_path(&Path::from_str("crate::x")).to_string(),
        "crate::x"
    );
    assert_eq!(
        resolver.resolve_path(&Path::from_str("bare::x")).to_string(),
        "bare::x"
    );
    resolver.exit_module();
    assert!(resolver.lookup_mapping("Vec").is_none());
}

#[test]
fn renamed_imports_bind_the_new_name() {
    let mut resolver = PathResolver::new();
    resolver.parse_use_tree(
        &UseTree::Prefix {
            ident: "a".to_string(),
            tree: Box::new(UseTree::Group {
                items: vec![
                    UseTree::Rename {
                        ident: "B".to_string(),
                        rename: "C".to_string(),
                    },
                    UseTree::Glob,
                ],
            }),
        },
        Path::empty(),
    );
    assert_eq!(
        resolver.resolve_path(&Path::from_str("C")).to_string(),
        "a::B"
    );
    assert_eq!(resolver.concat_module("f").to_string(), "f");
}

#[test]
fn module_stack_tracks_scopes() {
    let mut stack = ModuleStack::new();
    stack.push("a");
    stack.push("b");
    assert_eq!(stack.current().to_string(), "a::b");
    assert_eq!(stack.parent().to_string(), "a");
    assert_eq!(stack.concat("T").to_string(), "a::b::T");
    stack.pop();
    assert_eq!(stack.current().to_string(), "a");
    let mut symbols = SymbolCollector::new();
    symbols.module.push("m");
    symbols.record_trait("Marker");
    assert_eq!(symbols.traits[0].to_string(), "m::Marker");
}

#[test]
fn log_prefixes_follow_the_documented_set() {
    let logger = Logger::new(LogLevel::Normal);
    assert_eq!(logger.format_msg(MessageType::Passed, "done"), "[Ok] done");
    assert_eq!(
        logger.format_msg(MessageType::Unsure, "maybe"),
        "[Unsure] maybe"
    );
    assert!(logger.log(LogLevel::Brief, MessageType::Info, "x").is_some());
    assert!(logger
        .log(LogLevel::Verbose, MessageType::Info, "x")
        .is_none());
    assert!(matches!(LogLevel::parse("BRIEF"), LogLevel::Brief));
    assert!(matches!(LogLevel::parse("odd"), LogLevel::Normal));
    assert_eq!(ascii_lowercase("DiFf-FuZz"), "diff-fuzz");
}

#[test]
fn selected_components_fall_back_to_defaults() {
    let config = WorkflowConfig {
        components: vec!["Identical".to_string(), "Kani".to_string(), "diff_fuzz".to_string()],
        kani: None,
        alive2: None,
        diff_fuzz: None,
        pbt: None,
    };
    let (filled, warnings) = config.fill_defaults();
    assert!(filled.kani.is_some());
    assert!(filled.diff_fuzz.is_some());
    assert!(filled.pbt.is_none());
    assert!(filled.alive2.is_none());
    assert_eq!(warnings.len(), 2);
    assert_eq!(filled.kani.as_ref().unwrap().timeout_secs, 300);
    assert_eq!(filled.diff_fuzz.as_ref().unwrap().executions, 1000);
    assert_eq!(
        filled.log(),
        "Workflow: Identical -> Kani -> diff_fuzz"
    );
}

#[test]
fn filled_defaults_warn_once_per_component() {
    let config = WorkflowConfig {
        components: vec!["PBT".to_string(), "Alive2".to_string()],
        kani: None,
        alive2: None,
        diff_fuzz: None,
        pbt: None,
    };
    let (filled, warnings) = config.fill_defaults();
    assert!(filled.pbt.is_some());
    assert!(filled.alive2.is_some());
    assert!(filled.kani.is_none());
    assert_eq!(
        warnings,
        vec![
            "Component `PBT` is selected in workflow but no configuration found. Using default configuration.".to_string(),
            "Component `Alive2` is selected in workflow but no configuration found. Using default configuration.".to_string(),
        ]
    );
    assert_eq!(filled.pbt.as_ref().unwrap().test_cases, 10000);
    assert_eq!(filled.pbt.as_ref().unwrap().harness_path, "pbt_harness");
    assert_eq!(filled.alive2.as_ref().unwrap().alive2_path, "alive2-tv");
}
