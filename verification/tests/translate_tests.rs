use verieasy::ast::{BinaryOp, Block, BlockItem, Expr, ExprBinary, ExprCall, ExprLit, ExprPath};
use verieasy::codegen::{
    calculate_allowed_fns, code_of_expr, expand_trait_preconds, CodeGenerator, FunctionPrecond,
    SpecFunction, TraitImpl, TraitPrecond,
};
use verieasy::types::Type;
use verieasy::path::Path;
use verieasy::translate::{remove_old, remove_spec_prefix, strip_spec_exec, CheckFnCall};

fn var(name: &str) -> Expr {
    Expr::Path(ExprPath {
        path: Path::from_str(name),
    })
}

fn ge(left: Expr, right: Expr) -> Expr {
    Expr::Binary(ExprBinary {
        op: BinaryOp::Ge,
        left: Box::new(left),
        right: Box::new(right),
    })
}

fn call(name: &str, args: Vec<Expr>) -> Expr {
    Expr::Call(ExprCall {
        func: ExprPath {
            path: Path::from_str(name),
        },
        args,
    })
}

#[test]
fn old_markers_are_erased_in_one_pass() {
    let e = ge(call("old", vec![var("a")]), var("b"));
    let cleaned = remove_old(e);
    assert_eq!(code_of_expr(&cleaned), "(a >= b)");
    let twice = remove_old(cleaned);
    assert_eq!(code_of_expr(&twice), "(a >= b)");
}

#[test]
fn spec_prefix_stripping_reaches_a_fixed_point() {
    assert_eq!(strip_spec_exec("spec_spec_valid"), "valid");
    assert_eq!(strip_spec_exec("valid"), "valid");
    let e = call("spec_valid", vec![var("x")]);
    let stripped = remove_spec_prefix(e);
    assert_eq!(code_of_expr(&stripped), "valid(x)");
    let again = remove_spec_prefix(stripped);
    assert_eq!(code_of_expr(&again), "valid(x)");
}

#[test]
fn disallowed_calls_abort_the_walker() {
    let allowed = vec!["valid".to_string()];
    let mut checker = CheckFnCall::new(&allowed, None);
    checker.visit_expr(&call("valid", vec![var("x")]));
    assert!(!checker.aborted);
    checker.visit_expr(&call("unknown", vec![var("x")]));
    assert!(checker.aborted);
    let mut fresh = CheckFnCall::new(&allowed, None);
    fresh.visit_expr(&call("spec_anything", vec![var("x")]));
    assert!(!fresh.aborted);
}

#[test]
fn implication_lowers_to_negated_disjunction() {
    let e = Expr::Binary(ExprBinary {
        op: BinaryOp::Imply,
        left: Box::new(var("a")),
        right: Box::new(var("b")),
    });
    assert_eq!(code_of_expr(&e), "(!a || b)");
    let lit = Expr::Lit(ExprLit::Int(-7));
    assert_eq!(code_of_expr(&lit), "-7");
    let s = Expr::Lit(ExprLit::Str("hi".to_string()));
    assert_eq!(code_of_expr(&s), "\"hi\"");
}

#[test]
fn precondition_checker_for_sub_tests_its_clause() {
    let pre = FunctionPrecond {
        name: Path::from_str("sub"),
        inputs: "a: u32, b: u32".to_string(),
        requires: vec![ge(var("a"), var("b"))],
    };
    let code = CodeGenerator::generate_function_precond(&pre);
    assert_eq!(
        code,
        "pub fn verieasy_pre_sub(a: u32, b: u32) -> bool { if !((a >= b)) { return false; } true }\n"
    );
}

#[test]
fn allowed_set_reaches_a_fixed_point() {
    // `good` calls nothing, `bad` calls something unknown, `chained` calls
    // `bad`: both `bad` and `chained` must leave the set.
    let good = SpecFunction {
        name: Path::from_str("good"),
        inputs: String::new(),
        output: Some("bool".to_string()),
        body: Block {
            items: vec![BlockItem::Expr(Expr::Lit(ExprLit::Bool(true)))],
        },
    };
    let bad = SpecFunction {
        name: Path::from_str("bad"),
        inputs: String::new(),
        output: Some("bool".to_string()),
        body: Block {
            items: vec![BlockItem::Expr(call("unknown", vec![]))],
        },
    };
    let chained = SpecFunction {
        name: Path::from_str("chained"),
        inputs: String::new(),
        output: Some("bool".to_string()),
        body: Block {
            items: vec![BlockItem::Expr(call("bad", vec![]))],
        },
    };
    let fns = vec![good, bad, chained];
    let allowed = calculate_allowed_fns(&fns, &Vec::new());
    assert_eq!(allowed, vec!["good".to_string()]);
}

#[test]
fn generator_emits_surviving_items_and_keeps_names() {
    let good = SpecFunction {
        name: Path::from_str("m::valid"),
        inputs: "x: u32".to_string(),
        output: Some("bool".to_string()),
        body: Block {
            items: vec![BlockItem::Expr(Expr::Lit(ExprLit::Bool(true)))],
        },
    };
    let pre = FunctionPrecond {
        name: Path::from_str("sub"),
        inputs: "a: u32, b: u32".to_string(),
        requires: vec![ge(call("old", vec![var("a")]), var("b"))],
    };
    let generator = CodeGenerator::new(vec![good], Vec::new(), vec![pre], Vec::new());
    let names = generator.get_function_preconds();
    assert_eq!(names, vec!["sub".to_string()]);
    let code = generator.generate_all();
    assert_eq!(
        code,
        "pub fn m___valid(x: u32) -> bool { true }\n\
         pub fn verieasy_pre_sub(a: u32, b: u32) -> bool { if !((a >= b)) { return false; } true }\n"
    );
}

#[test]
fn trait_preconditions_expand_over_every_impl() {
    let preconds = vec![TraitPrecond {
        trait_name: Path::from_str("BitField"),
        ident: "get_bit".to_string(),
        inputs: "&self, bit: usize".to_string(),
        requires: vec![ge(var("bit"), var("zero"))],
    }];
    let impls = vec![
        TraitImpl {
            trait_name: Path::from_str("BitField"),
            generics: String::new(),
            impl_type: Type::from_path(Path::from_str("u16")),
        },
        TraitImpl {
            trait_name: Path::from_str("Other"),
            generics: String::new(),
            impl_type: Type::from_path(Path::from_str("u32")),
        },
        TraitImpl {
            trait_name: Path::from_str("BitField"),
            generics: "<T>".to_string(),
            impl_type: Type::from_path(Path::from_str("Word")),
        },
    ];
    let expanded = expand_trait_preconds(&preconds, &impls);
    assert_eq!(expanded.len(), 2);
    assert_eq!(expanded[0].ident, "get_bit");
    assert_eq!(expanded[0].inputs, "&self, bit: usize");
    assert_eq!(expanded[0].generics, "");
    assert_eq!(expanded[0].requires.len(), 1);
    assert_eq!(expanded[1].generics, "<T>");
    assert_eq!(expanded[1].requires.len(), 1);
}
