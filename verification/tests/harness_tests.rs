use verieasy::backends::{
    emit_arg_struct, emit_df_fn, emit_dispatch, emit_imports, emit_kani_fn, emit_pbt_fn,
    emit_receiver_prefix, finalize_kani,
};
use verieasy::collection::{checked_function_names, FunctionCollection};
use verieasy::components::Alive2;
use verieasy::config::Alive2Config;
use verieasy::defs::{CommonFunction, FunctionMetadata, Param, Precondition, Signature};
use verieasy::path::Path;
use verieasy::types::{PreciseType, Type};

fn u32_param(name: &str) -> Param {
    Param::Typed {
        name: name.to_string(),
        ty: "u32".to_string(),
    }
}

fn add_common() -> CommonFunction {
    CommonFunction::new(
        FunctionMetadata::new(
            Path::from_str("add"),
            Signature {
                ident: "add".to_string(),
                inputs: vec![u32_param("a"), u32_param("b")],
                output: Some("u32".to_string()),
            },
            None,
        ),
        "{ a + b }".to_string(),
        "{ b + a }".to_string(),
    )
}

fn method_of(ty: &str, ident: &str, inputs: Vec<Param>) -> CommonFunction {
    CommonFunction::new(
        FunctionMetadata::new(
            Path::from_str(&format!("{}::{}", ty, ident)),
            Signature {
                ident: ident.to_string(),
                inputs,
                output: None,
            },
            Some(Type::Precise(PreciseType(Path::from_str(ty)))),
        ),
        "{ 1 }".to_string(),
        "{ 2 }".to_string(),
    )
}

#[test]
fn argument_records_carry_the_typed_parameters() {
    let code = emit_arg_struct("#[derive(Debug)]", &add_common());
    assert_eq!(
        code,
        "#[derive(Debug)]\npub struct Argsadd { pub a: u32, pub b: u32 }\n"
    );
}

#[test]
fn receiver_prefixes_follow_the_self_markers() {
    let sig = |reference, mutable| Signature {
        ident: "m".to_string(),
        inputs: vec![Param::Receiver {
            reference,
            mutable,
        }],
        output: None,
    };
    assert_eq!(emit_receiver_prefix(&sig(true, true)), "&mut ");
    assert_eq!(emit_receiver_prefix(&sig(true, false)), "&");
    assert_eq!(emit_receiver_prefix(&sig(false, false)), "");
}

#[test]
fn symbolic_harness_assumes_the_precondition() {
    let pre = Precondition::new(Path::from_str("add"), false);
    let code = emit_kani_fn(&add_common(), Some(&pre), true, Some(3));
    assert_eq!(
        code,
        "#[cfg(kani)]\n#[kani::proof]\n#[allow(non_snake_case)]\n#[kani::unwind(3)]\n\
         pub fn check_add() {\n    let function_arg_struct = kani::any::<Argsadd>();\n    \
         kani::assume(verieasy_pre_add(function_arg_struct.a.clone(), function_arg_struct.b.clone()));\n    \
         let r1 = mod1::add(function_arg_struct.a.clone(), function_arg_struct.b.clone());\n    \
         let r2 = mod2::add(function_arg_struct.a.clone(), function_arg_struct.b.clone());\n    \
         assert!(r1 == r2);\n}\n"
    );
}

#[test]
fn testing_harness_catches_panics_and_reports_mismatches() {
    let code = emit_pbt_fn(&add_common(), None, true);
    assert!(code.starts_with("#[test]\nfn check_add(function_arg_struct in any::<Argsadd>()) {\n"));
    assert!(code.contains("std::panic::catch_unwind(std::panic::AssertUnwindSafe(|| mod1::add("));
    assert!(code.contains("println!(\"MISMATCH {}\", \"add\")"));
    let fuzz = emit_df_fn(&add_common(), None, true, false);
    assert!(fuzz.contains("postcard::from_bytes::<Argsadd>"));
    assert!(fuzz.contains("let r1 = mod1::add("));
    assert!(fuzz.contains("outputln!(\"MISMATCH: {}\", \"add\")"));
}

#[test]
fn dispatch_selects_by_the_first_input_byte() {
    let flats = vec!["add".to_string(), "Type___m".to_string()];
    let code = emit_dispatch(&flats);
    assert_eq!(
        code,
        "fn run_harness(input: &[u8]) -> bool {\n    if input.len() == 0 {\n        return true;\n    }\n    \
         let fn_id = input[0] % 2usize as u8;\n    match fn_id {\n        0 => check_add(&input[1..]),\n        \
         1 => check_Type___m(&input[1..]),\n        _ => true,\n    }\n}\n"
    );
}

#[test]
fn harness_files_start_with_both_source_modules() {
    let imports = emit_imports("mod1", "Mod1", &vec![Path::from_str("m::Marker")]);
    assert_eq!(imports, "use mod1::m::Marker as Mod1Marker;\n");
    let file = finalize_kani(&imports, "S", "F", "M");
    assert!(file.starts_with(
        "#![allow(unused)]\n#![allow(non_snake_case)]\n#![allow(non_camel_case_types)]\nmod mod1;\nmod mod2;\n"
    ));
    assert!(file.ends_with("fn main() {}\n"));
}

#[test]
fn methods_without_constructors_are_dropped_idempotently() {
    let ctor = method_of("A", "verieasy_new", Vec::new());
    let getter = method_of(
        "A",
        "verieasy_get",
        vec![Param::Receiver {
            reference: true,
            mutable: false,
        }],
    );
    let good = method_of(
        "A",
        "step",
        vec![Param::Receiver {
            reference: true,
            mutable: true,
        }],
    );
    let orphan = method_of(
        "B",
        "step",
        vec![Param::Receiver {
            reference: true,
            mutable: true,
        }],
    );
    let mut collection = FunctionCollection::new(
        vec![good, orphan, add_common()],
        vec![ctor],
        vec![getter],
        vec![Precondition::new(Path::from_str("A::step"), true)],
    );
    assert_eq!(collection.functions.len(), 1);
    assert_eq!(collection.methods.len(), 2);
    collection.remove_methods_without_constructors();
    assert_eq!(collection.methods.len(), 1);
    assert_eq!(collection.methods[0].metadata.name.to_string(), "A::step");
    collection.remove_methods_without_constructors();
    assert_eq!(collection.methods.len(), 1);
    collection.remove_unused_constructors_and_getters();
    assert_eq!(collection.constructors.len(), 1);
    assert_eq!(collection.getters.len(), 1);
    assert!(collection
        .get_precondition(&collection.methods[0])
        .is_some());
    let names = checked_function_names(&collection);
    assert_eq!(names.len(), 2);
}

#[test]
fn ir_checker_accepts_correct_transformations_only() {
    let alive2 = Alive2::new(Alive2Config::default());
    let lines = vec![
        "define i32 @m___add(i32 %0, i32 %1) {".to_string(),
        "Transformation seems to be correct!".to_string(),
        "define i32 @m___bad(i32 %0) {".to_string(),
        "ERROR: value mismatch".to_string(),
    ];
    let res = alive2.analyze_output(&lines);
    assert_eq!(res.ok.len(), 1);
    assert_eq!(res.ok[0].to_string(), "m::add");
    assert!(res.fail.is_empty());
}
