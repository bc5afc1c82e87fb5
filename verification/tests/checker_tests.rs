use verieasy::checker::{CheckResult, Checker, Source};
use verieasy::components::{Identical, Kani, PropertyBasedTesting};
use verieasy::config::{KaniConfig, PBTConfig};
use verieasy::defs::{CommonFunction, Function, FunctionMetadata, Param, Precondition, Signature};
use verieasy::path::Path;
use verieasy::types::{GenericType, InstantiatedType, PreciseType, Type};

fn u32_param(name: &str) -> Param {
    Param::Typed {
        name: name.to_string(),
        ty: "u32".to_string(),
    }
}

fn add_signature() -> Signature {
    Signature {
        ident: "add".to_string(),
        inputs: vec![u32_param("a"), u32_param("b")],
        output: Some("u32".to_string()),
    }
}

fn sub_signature() -> Signature {
    Signature {
        ident: "sub".to_string(),
        inputs: vec![u32_param("a"), u32_param("b")],
        output: Some("u32".to_string()),
    }
}

fn free_fn(name: &str, sig: Signature, body: &str) -> Function {
    Function::new(
        FunctionMetadata::new(Path::from_str(name), sig, None),
        body.to_string(),
    )
}

fn source_with(funcs: Vec<Function>) -> Source {
    Source::new(
        "src.rs".to_string(),
        String::new(),
        funcs,
        Vec::new(),
        Vec::new(),
    )
}

fn names_of(fs: &[CommonFunction]) -> Vec<String> {
    fs.iter().map(|f| f.metadata.name.to_string()).collect()
}

#[test]
fn identical_bodies_verify_in_one_pass() {
    let body = "{ a + b }";
    let s1 = source_with(vec![free_fn("add", add_signature(), body)]);
    let s2 = source_with(vec![free_fn("add", add_signature(), body)]);
    let mut checker = Checker::new(s1, s2, Vec::new(), false);
    assert_eq!(names_of(&checker.under_checking_funcs), vec!["add"]);
    let res = Identical.run(&checker);
    assert!(res.status.is_ok());
    let stop = checker.apply_component_result(true, &res);
    assert!(!stop);
    assert_eq!(names_of(&checker.verified_funcs), vec!["add"]);
    assert!(checker.under_checking_funcs.is_empty());
    assert!(checker.tested_funcs.is_empty());
    assert!(checker.failed_funcs.is_empty());
    assert!(checker.done_checking());
}

#[test]
fn symbolic_success_moves_add_to_verified() {
    let s1 = source_with(vec![free_fn("add", add_signature(), "{ a + b }")]);
    let s2 = source_with(vec![free_fn("add", add_signature(), "{ b + a }")]);
    let mut checker = Checker::new(s1, s2, Vec::new(), false);
    let res = Identical.run(&checker);
    assert!(res.ok.is_empty());
    checker.apply_component_result(true, &res);
    assert_eq!(names_of(&checker.under_checking_funcs), vec!["add"]);
    let kani = Kani::new(KaniConfig::default());
    let lines = vec![
        "Checking harness check_add.".to_string(),
        "VERIFICATION:- SUCCESSFUL".to_string(),
    ];
    let res = kani.analyze_output(&lines);
    assert_eq!(res.ok.len(), 1);
    assert_eq!(res.ok[0].to_string(), "add");
    checker.apply_component_result(true, &res);
    assert_eq!(names_of(&checker.verified_funcs), vec!["add"]);
    assert!(checker.under_checking_funcs.is_empty());
}

#[test]
fn testing_failure_moves_sub_to_failed() {
    let s1 = source_with(vec![free_fn("sub", sub_signature(), "{ a - b }")]);
    let s2 = source_with(vec![free_fn("sub", sub_signature(), "{ b - a }")]);
    let mut checker = Checker::new(s1, s2, Vec::new(), false);
    let pbt = PropertyBasedTesting::new(PBTConfig::default());
    let lines = vec!["test check_sub ... FAILED".to_string()];
    let res = pbt.analyze_output(&lines);
    assert_eq!(res.fail.len(), 1);
    assert_eq!(res.fail[0].to_string(), "sub");
    let stop = checker.apply_component_result(false, &res);
    assert!(!stop);
    assert_eq!(names_of(&checker.failed_funcs), vec!["sub"]);
    assert!(checker.under_checking_funcs.is_empty());
    assert!(checker.verified_funcs.is_empty());
}

#[test]
fn gated_testing_pass_leaves_sub_in_tested_not_verified() {
    let s1 = source_with(vec![free_fn("sub", sub_signature(), "{ a - b }")]);
    let s2 = source_with(vec![free_fn("sub", sub_signature(), "{ b - a }")]);
    let pre = Precondition::new(Path::from_str("sub"), false);
    assert_eq!(pre.checker_name().to_string(), "verieasy_pre_sub");
    let mut checker = Checker::new(s1, s2, vec![pre], false);
    let pbt = PropertyBasedTesting::new(PBTConfig::default());
    let lines = vec!["test check_sub ... ok".to_string()];
    let res = pbt.analyze_output(&lines);
    assert_eq!(res.ok.len(), 1);
    assert_eq!(res.ok[0].to_string(), "sub");
    checker.apply_component_result(false, &res);
    assert_eq!(names_of(&checker.tested_funcs), vec!["sub"]);
    assert_eq!(names_of(&checker.under_checking_funcs), vec!["sub"]);
    assert!(checker.verified_funcs.is_empty());
    assert!(checker.failed_funcs.is_empty());
}

#[test]
fn strict_mode_asks_to_stop_after_a_testing_failure() {
    let s1 = source_with(vec![free_fn("sub", sub_signature(), "{ a - b }")]);
    let s2 = source_with(vec![free_fn("sub", sub_signature(), "{ b - a }")]);
    let mut checker = Checker::new(s1, s2, Vec::new(), true);
    let res = CheckResult {
        status: Ok(()),
        ok: Vec::new(),
        fail: vec![Path::from_str("sub")],
    };
    let stop = checker.apply_component_result(false, &res);
    assert!(stop);
}

#[test]
fn formal_fails_do_not_shrink_the_worklist() {
    let s1 = source_with(vec![free_fn("add", add_signature(), "{ a + b }")]);
    let s2 = source_with(vec![free_fn("add", add_signature(), "{ b + a }")]);
    let mut checker = Checker::new(s1, s2, Vec::new(), false);
    let res = CheckResult {
        status: Ok(()),
        ok: Vec::new(),
        fail: vec![Path::from_str("add")],
    };
    checker.apply_component_result(true, &res);
    assert_eq!(names_of(&checker.under_checking_funcs), vec!["add"]);
    assert!(checker.failed_funcs.is_empty());
}

#[test]
fn generic_impl_rewrites_to_the_alias() {
    let sig = Signature {
        ident: "method".to_string(),
        inputs: vec![Param::Receiver {
            reference: true,
            mutable: false,
        }],
        output: None,
    };
    let foo_bar = Type::Generic(GenericType {
        path: Path::from_str("Foo"),
        generics: vec![Type::Precise(PreciseType(Path::from_str("Bar")))],
    });
    let meta = FunctionMetadata::new(
        Path::from_str("Foo::method"),
        sig,
        Some(foo_bar.duplicate()),
    );
    let func = Function::new(meta, "{ () }".to_string());
    let inst = || InstantiatedType {
        alias: Path::from_str("FB"),
        concrete: foo_bar.duplicate(),
    };
    let s1 = Source::new(
        "a.rs".to_string(),
        String::new(),
        vec![Function::new(func.metadata.duplicate(), func.body.clone())],
        Vec::new(),
        vec![inst()],
    );
    let s2 = Source::new(
        "b.rs".to_string(),
        String::new(),
        vec![Function::new(func.metadata.duplicate(), func.body.clone())],
        Vec::new(),
        vec![inst()],
    );
    let checker = Checker::new(s1, s2, Vec::new(), false);
    assert_eq!(names_of(&checker.under_checking_funcs), vec!["FB::method"]);
}

#[test]
fn signatures_compare_without_names_or_receiver_markers() {
    let a = Signature {
        ident: "f".to_string(),
        inputs: vec![
            Param::Receiver {
                reference: true,
                mutable: true,
            },
            u32_param("x"),
        ],
        output: None,
    };
    let b = Signature {
        ident: "f".to_string(),
        inputs: vec![
            Param::Receiver {
                reference: false,
                mutable: false,
            },
            u32_param("renamed"),
        ],
        output: None,
    };
    assert!(a == b);
    let c = Signature {
        ident: "g".to_string(),
        inputs: vec![u32_param("x")],
        output: None,
    };
    assert!(!(a == c));
}

#[test]
fn method_checker_name_drops_the_outer_path() {
    let pre = Precondition::new(Path::from_str("Type::alloc"), true);
    assert!(pre.impl_type.is_some());
    assert_eq!(pre.checker_name().to_string(), "verieasy_pre_alloc");
    let free = Precondition::new(Path::from_str("m::foo"), false);
    assert_eq!(free.checker_name().to_string(), "m::verieasy_pre_foo");
}
