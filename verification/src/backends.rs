//! Harness emission for the tool-backed components.
//!
//! For every free function a driver obtains one argument record, calls both
//! implementations on the same arguments and compares the results.  For
//! every method the driver builds two states through the type's
//! constructor, gates on the precondition against the second state, calls
//! the method on both states and compares results and getter views.  The
//! backends differ only in attributes, argument sourcing, panic handling
//! and reporting; each emitted text is specified exactly.

use vstd::prelude::*;

verus! {

use crate::defs::CommonFunction;
use crate::defs::ParamV;
use crate::defs::Precondition;
use crate::defs::Signature;
use crate::defs::checker_name_spec;
use crate::path::Path;
use crate::path::join_with;
use crate::path::sep_ident;
use crate::path::sep_path;
use crate::text::dec_spec;
use crate::text::u64_to_string;
use vstd::string::StrSliceExecFns;
use vstd::string::StringExecFns;

broadcast use vstd::std_specs::vec::group_vec_axioms;

/// The flattened identifier of a function.
pub open spec fn flat_name(c: CommonFunction) -> Seq<char> {
    join_with(c.metadata.name@, sep_ident())
}

/// The `::`-qualified name of a function.
pub open spec fn qual_name(c: CommonFunction) -> Seq<char> {
    join_with(c.metadata.name@, sep_path())
}

/// The typed parameters of a signature: name and rendered type of every
/// non-receiver parameter, in order.
pub open spec fn typed_params(inputs: Seq<ParamV>) -> Seq<(Seq<char>, Seq<char>)>
    decreases inputs,
{
    if inputs.len() == 0 {
        Seq::empty()
    } else {
        let r = typed_params(inputs.drop_last());
        match inputs.last() {
            ParamV::Typed { name, ty } => r.push((name, ty)),
            ParamV::Receiver { .. } => r,
        }
    }
}

/// The field list of an argument record: `pub name: ty`, comma-joined.
pub open spec fn fields_join(ps: Seq<(Seq<char>, Seq<char>)>) -> Seq<char>
    decreases ps,
{
    if ps.len() == 0 {
        Seq::empty()
    } else if ps.len() == 1 {
        "pub "@ + ps[0].0 + ": "@ + ps[0].1
    } else {
        fields_join(ps.drop_last()) + ", "@ + "pub "@ + ps.last().0 + ": "@ + ps.last().1
    }
}

/// The argument list handed to a call: `var.name.clone()`, comma-joined.
pub open spec fn args_join(var: Seq<char>, ps: Seq<(Seq<char>, Seq<char>)>) -> Seq<char>
    decreases ps,
{
    if ps.len() == 0 {
        Seq::empty()
    } else if ps.len() == 1 {
        var + seq!['.'] + ps[0].0 + ".clone()"@
    } else {
        args_join(var, ps.drop_last()) + ", "@ + var + seq!['.'] + ps.last().0 + ".clone()"@
    }
}

/// The receiver prefix re-emitted before a state value, taken from the last
/// self receiver of the parameter list: `&mut `, `&`, `mut ` or nothing.
pub open spec fn receiver_prefix(inputs: Seq<ParamV>) -> Seq<char>
    decreases inputs,
{
    if inputs.len() == 0 {
        Seq::empty()
    } else {
        match inputs.last() {
            ParamV::Receiver { reference, mutable } => {
                if reference && mutable {
                    "&mut "@
                } else if reference {
                    "&"@
                } else if mutable {
                    "mut "@
                } else {
                    Seq::empty()
                }
            },
            ParamV::Typed { .. } => receiver_prefix(inputs.drop_last()),
        }
    }
}

/// Emit the typed parameter fields of a signature.
#[verifier::loop_isolation(false)]
pub fn emit_fields(sig: &Signature) -> (r: String)
    ensures
        r@ == fields_join(typed_params(sig@.inputs)),
{
    let ghost ps = typed_params(sig@.inputs);
    let mut r = String::new();
    let mut count: usize = 0;
    let mut i: usize = 0;
    proof {
        assert(sig@.inputs.take(0) =~= Seq::<ParamV>::empty());
    }
    while i < sig.inputs.len()
        invariant
            i <= sig.inputs@.len(),
            sig@.inputs.len() == sig.inputs@.len(),
            count == typed_params(sig@.inputs.take(i as int)).len(),
            count <= i,
            r@ == fields_join(typed_params(sig@.inputs.take(i as int))),
        decreases sig.inputs@.len() - i,
    {
        proof {
            reveal_strlit("pub ");
            reveal_strlit(": ");
            reveal_strlit(", ");
            assert(sig@.inputs.take(i as int + 1).drop_last() =~= sig@.inputs.take(i as int));
            assert(sig@.inputs.take(i as int + 1).last() == sig@.inputs[i as int]);
            assert(sig@.inputs[i as int] == sig.inputs@[i as int]@);
        }
        match &sig.inputs[i] {
            crate::defs::Param::Receiver { .. } => {},
            crate::defs::Param::Typed { name, ty } => {
                if count > 0 {
                    r.append(", ");
                }
                r.append("pub ");
                r.append(name.as_str());
                r.append(": ");
                r.append(ty.as_str());
                count += 1;
                proof {
                    let prev = typed_params(sig@.inputs.take(i as int));
                    let cur = typed_params(sig@.inputs.take(i as int + 1));
                    assert(cur == prev.push((name@, ty@)));
                    if prev.len() == 0 {
                        assert(r@ =~= fields_join(cur));
                    } else {
                        assert(cur.drop_last() =~= prev);
                        assert(r@ =~= fields_join(cur));
                    }
                }
            },
        }
        i += 1;
    }
    proof {
        assert(sig@.inputs.take(sig@.inputs.len() as int) =~= sig@.inputs);
    }
    r
}

/// Emit the cloned-argument list of a signature.
#[verifier::loop_isolation(false)]
pub fn emit_args(var: &str, sig: &Signature) -> (r: String)
    ensures
        r@ == args_join(var@, typed_params(sig@.inputs)),
{
    let mut r = String::new();
    let mut count: usize = 0;
    let mut i: usize = 0;
    proof {
        assert(sig@.inputs.take(0) =~= Seq::<ParamV>::empty());
    }
    while i < sig.inputs.len()
        invariant
            i <= sig.inputs@.len(),
            sig@.inputs.len() == sig.inputs@.len(),
            count == typed_params(sig@.inputs.take(i as int)).len(),
            count <= i,
            r@ == args_join(var@, typed_params(sig@.inputs.take(i as int))),
        decreases sig.inputs@.len() - i,
    {
        proof {
            reveal_strlit(".");
            reveal_strlit(".clone()");
            reveal_strlit(", ");
            assert(sig@.inputs.take(i as int + 1).drop_last() =~= sig@.inputs.take(i as int));
            assert(sig@.inputs.take(i as int + 1).last() == sig@.inputs[i as int]);
            assert(sig@.inputs[i as int] == sig.inputs@[i as int]@);
        }
        match &sig.inputs[i] {
            crate::defs::Param::Receiver { .. } => {},
            crate::defs::Param::Typed { name, ty } => {
                if count > 0 {
                    r.append(", ");
                }
                r.append(var);
                r.append(".");
                r.append(name.as_str());
                r.append(".clone()");
                count += 1;
                proof {
                    let prev = typed_params(sig@.inputs.take(i as int));
                    let cur = typed_params(sig@.inputs.take(i as int + 1));
                    assert(cur == prev.push((name@, ty@)));
                    assert("."@ =~= seq!['.']);
                    if prev.len() == 0 {
                        assert(r@ =~= args_join(var@, cur));
                    } else {
                        assert(cur.drop_last() =~= prev);
                        assert(r@ =~= args_join(var@, cur));
                    }
                }
            },
        }
        i += 1;
    }
    proof {
        assert(sig@.inputs.take(sig@.inputs.len() as int) =~= sig@.inputs);
    }
    r
}

/// Emit the receiver prefix of a method signature.
#[verifier::loop_isolation(false)]
pub fn emit_receiver_prefix(sig: &Signature) -> (r: String)
    ensures
        r@ == receiver_prefix(sig@.inputs),
{
    proof {
        reveal_strlit("&mut ");
        reveal_strlit("&");
        reveal_strlit("mut ");
    }
    let mut r = String::new();
    let mut i: usize = 0;
    let n = sig.inputs.len();
    let mut found: bool = false;
    while i < n
        invariant
            i <= n,
            n == sig.inputs@.len(),
            sig@.inputs.len() == n,
            found ==> r@ == receiver_prefix(sig@.inputs.take(i as int)),
            !found ==> r@.len() == 0 && receiver_prefix(sig@.inputs.take(i as int)) =~= Seq::<
                char,
            >::empty(),
        decreases n - i,
    {
        proof {
            assert(sig@.inputs.take(i as int + 1).drop_last() =~= sig@.inputs.take(i as int));
            assert(sig@.inputs.take(i as int + 1).last() == sig@.inputs[i as int]);
            assert(sig@.inputs[i as int] == sig.inputs@[i as int]@);
        }
        match &sig.inputs[i] {
            crate::defs::Param::Receiver { reference, mutable } => {
                let mut nr = String::new();
                if *reference && *mutable {
                    nr.append("&mut ");
                } else if *reference {
                    nr.append("&");
                } else if *mutable {
                    nr.append("mut ");
                }
                r = nr;
                found = true;
                proof {
                    assert(r@ =~= receiver_prefix(sig@.inputs.take(i as int + 1)));
                }
            },
            crate::defs::Param::Typed { .. } => {},
        }
        i += 1;
    }
    proof {
        assert(sig@.inputs.take(n as int) =~= sig@.inputs);
    }
    r
}

/// The emitted argument record of a function: its backend attributes, then
/// a struct holding the non-receiver parameters.
pub open spec fn arg_struct_code(attrs: Seq<char>, c: CommonFunction) -> Seq<char> {
    attrs + seq!['\n'] + "pub struct Args"@ + flat_name(c) + " { "@ + fields_join(
        typed_params(c.metadata.signature@.inputs),
    ) + " }"@ + seq!['\n']
}

/// Emit the argument record of a function.
pub fn emit_arg_struct(attrs: &str, c: &CommonFunction) -> (r: String)
    ensures
        r@ == arg_struct_code(attrs@, *c),
{
    proof {
        reveal_strlit("\n");
        reveal_strlit("pub struct Args");
        reveal_strlit(" { ");
        reveal_strlit(" }");
    }
    let flat = c.metadata.name.to_ident();
    let fields = emit_fields(&c.metadata.signature);
    let mut r = String::new();
    r.append(attrs);
    r.append("\n");
    r.append("pub struct Args");
    r.append(flat.as_str());
    r.append(" { ");
    r.append(fields.as_str());
    r.append(" }");
    r.append("\n");
    proof {
        assert("\n"@ =~= seq!['\n']);
        assert(r@ =~= arg_struct_code(attrs@, *c));
    }
    r
}

/// The rendered checker call name of a free-function precondition.
pub open spec fn checker_call(p: Precondition) -> Seq<char> {
    join_with(checker_name_spec(p.name@, p.impl_type is Some), sep_path())
}

/// Emit the rendered checker name of a precondition.
pub fn emit_checker_call(p: &Precondition) -> (r: String)
    requires
        p.name@.len() > 0,
    ensures
        r@ == checker_call(*p),
{
    let name = p.checker_name();
    name.to_string()
}

/// The loop-unwind attribute of the symbolic prover, when a bound is set.
pub open spec fn unwind_code(unwind: Option<u32>) -> Seq<char> {
    match unwind {
        None => Seq::empty(),
        Some(n) => "#[kani::unwind("@ + dec_spec(n as int) + ")]\n"@,
    }
}

/// The assume line gating a free-function harness on its precondition.
pub open spec fn kani_pre_code(pre: Option<Precondition>, use_pre: bool, args: Seq<char>) -> Seq<
    char,
> {
    match pre {
        Some(p) => {
            if use_pre {
                "    kani::assume("@ + checker_call(p) + seq!['('] + args + "));\n"@
            } else {
                Seq::empty()
            }
        },
        None => Seq::empty(),
    }
}

/// The emitted symbolic-prover harness of a free function: one arbitrary
/// argument record, the optional precondition assumption, both calls, and
/// the equality assertion.
pub open spec fn kani_fn_code(c: CommonFunction, pre: Option<Precondition>, use_pre: bool, unwind: Option<u32>) -> Seq<char> {
    let args = args_join("function_arg_struct"@, typed_params(c.metadata.signature@.inputs));
    "#[cfg(kani)]\n#[kani::proof]\n#[allow(non_snake_case)]\n"@ + unwind_code(unwind)
        + "pub fn check_"@ + flat_name(c) + "() {\n    let function_arg_struct = kani::any::<Args"@
        + flat_name(c) + ">();\n"@ + kani_pre_code(pre, use_pre, args) + "    let r1 = mod1::"@
        + qual_name(c) + seq!['('] + args + ");\n    let r2 = mod2::"@ + qual_name(c) + seq!['(']
        + args + ");\n    assert!(r1 == r2);\n}\n"@
}

/// Emit the symbolic-prover harness of a free function.
pub fn emit_kani_fn(
    c: &CommonFunction,
    pre: Option<&Precondition>,
    use_pre: bool,
    unwind: Option<u32>,
) -> (r: String)
    requires
        match pre {
            Some(p) => p.name@.len() > 0,
            None => true,
        },
    ensures
        r@ == kani_fn_code(
            *c,
            match pre {
                Some(p) => Some(*p),
                None => None,
            },
            use_pre,
            unwind,
        ),
{
    proof {
        reveal_strlit("#[cfg(kani)]\n#[kani::proof]\n#[allow(non_snake_case)]\n");
        reveal_strlit("#[kani::unwind(");
        reveal_strlit(")]\n");
        reveal_strlit("pub fn check_");
        reveal_strlit("() {\n    let function_arg_struct = kani::any::<Args");
        reveal_strlit(">();\n");
        reveal_strlit("    kani::assume(");
        reveal_strlit("(");
        reveal_strlit("));\n");
        reveal_strlit("    let r1 = mod1::");
        reveal_strlit(");\n    let r2 = mod2::");
        reveal_strlit(");\n    assert!(r1 == r2);\n}\n");
    }
    let flat = c.metadata.name.to_ident();
    let qual = c.metadata.name.to_string();
    let args = emit_args("function_arg_struct", &c.metadata.signature);
    let mut r = String::new();
    r.append("#[cfg(kani)]\n#[kani::proof]\n#[allow(non_snake_case)]\n");
    match unwind {
        None => {},
        Some(n) => {
            r.append("#[kani::unwind(");
            r.append(u64_to_string(n as u64).as_str());
            r.append(")]\n");
        },
    }
    r.append("pub fn check_");
    r.append(flat.as_str());
    r.append("() {\n    let function_arg_struct = kani::any::<Args");
    r.append(flat.as_str());
    r.append(">();\n");
    match pre {
        Some(p) => {
            if use_pre {
                let checker = emit_checker_call(p);
                r.append("    kani::assume(");
                r.append(checker.as_str());
                r.append("(");
                r.append(args.as_str());
                r.append("));\n");
            }
        },
        None => {},
    }
    r.append("    let r1 = mod1::");
    r.append(qual.as_str());
    r.append("(");
    r.append(args.as_str());
    r.append(");\n    let r2 = mod2::");
    r.append(qual.as_str());
    r.append("(");
    r.append(args.as_str());
    r.append(");\n    assert!(r1 == r2);\n}\n");
    proof {
        assert("("@ =~= seq!['(']);
        assert(r@ =~= kani_fn_code(
            *c,
            match pre {
                Some(p) => Some(*p),
                None => None,
            },
            use_pre,
            unwind,
        ));
    }
    r
}

/// The assume line gating a method harness on its precondition, checked on
/// the second state.
pub open spec fn kani_method_pre_code(
    pre: Option<Precondition>,
    use_pre: bool,
    margs: Seq<char>,
) -> Seq<char> {
    match pre {
        Some(p) => {
            if use_pre {
                "    kani::assume(s2."@ + checker_call(p) + seq!['('] + margs + "));\n"@
            } else {
                Seq::empty()
            }
        },
        None => Seq::empty(),
    }
}

/// The state comparison after a method call, when the type has a getter.
pub open spec fn getter_check_code(getter: Option<CommonFunction>) -> Seq<char> {
    match getter {
        Some(g) => "    assert!(s1."@ + g.metadata.signature.ident@ + "() == s2."@
            + g.metadata.signature.ident@ + "());\n"@,
        None => Seq::empty(),
    }
}

/// The emitted symbolic-prover harness of a method: two states built by the
/// constructor from one arbitrary record, an arbitrary method record, the
/// optional precondition assumption on the second state, both calls with
/// the receiver prefix, and the result and state assertions.
pub open spec fn kani_method_code(
    m: CommonFunction,
    ctor: CommonFunction,
    getter: Option<CommonFunction>,
    pre: Option<Precondition>,
    use_pre: bool,
    unwind: Option<u32>,
) -> Seq<char> {
    let margs = args_join("method_arg_struct"@, typed_params(m.metadata.signature@.inputs));
    let cargs = args_join("constr_arg_struct"@, typed_params(ctor.metadata.signature@.inputs));
    let prefix = receiver_prefix(m.metadata.signature@.inputs);
    "#[cfg(kani)]\n#[kani::proof]\n#[allow(non_snake_case)]\n"@ + unwind_code(unwind)
        + "pub fn check_"@ + flat_name(m) + "() {\n    let constr_arg_struct = kani::any::<Args"@
        + flat_name(ctor) + ">();\n    let mut s1 = mod1::"@ + qual_name(ctor) + seq!['('] + cargs
        + ");\n    let mut s2 = mod2::"@ + qual_name(ctor) + seq!['('] + cargs
        + ");\n    let method_arg_struct = kani::any::<Args"@ + flat_name(m) + ">();\n"@
        + kani_method_pre_code(pre, use_pre, margs) + "    let r1 = mod1::"@ + qual_name(m) + seq![
        '(',
    ] + prefix + "s1, "@ + margs + ");\n    let r2 = mod2::"@ + qual_name(m) + seq!['('] + prefix
        + "s2, "@ + margs + ");\n    assert!(r1 == r2);\n"@ + getter_check_code(getter) + "}\n"@
}

/// Emit the symbolic-prover harness of a method.
#[verifier::rlimit(80)]
pub fn emit_kani_method(
    m: &CommonFunction,
    ctor: &CommonFunction,
    getter: Option<&CommonFunction>,
    pre: Option<&Precondition>,
    use_pre: bool,
    unwind: Option<u32>,
) -> (r: String)
    requires
        match pre {
            Some(p) => p.name@.len() > 0,
            None => true,
        },
    ensures
        r@ == kani_method_code(
            *m,
            *ctor,
            match getter {
                Some(g) => Some(*g),
                None => None,
            },
            match pre {
                Some(p) => Some(*p),
                None => None,
            },
            use_pre,
            unwind,
        ),
{
    proof {
        reveal_strlit("#[cfg(kani)]\n#[kani::proof]\n#[allow(non_snake_case)]\n");
        reveal_strlit("#[kani::unwind(");
        reveal_strlit(")]\n");
        reveal_strlit("pub fn check_");
        reveal_strlit("() {\n    let constr_arg_struct = kani::any::<Args");
        reveal_strlit(">();\n    let mut s1 = mod1::");
        reveal_strlit(");\n    let mut s2 = mod2::");
        reveal_strlit(");\n    let method_arg_struct = kani::any::<Args");
        reveal_strlit(">();\n");
        reveal_strlit("    kani::assume(s2.");
        reveal_strlit("(");
        reveal_strlit("));\n");
        reveal_strlit("    let r1 = mod1::");
        reveal_strlit("s1, ");
        reveal_strlit(");\n    let r2 = mod2::");
        reveal_strlit("s2, ");
        reveal_strlit(");\n    assert!(r1 == r2);\n");
        reveal_strlit("    assert!(s1.");
        reveal_strlit("() == s2.");
        reveal_strlit("());\n");
        reveal_strlit("}\n");
    }
    let flat = m.metadata.name.to_ident();
    let qual = m.metadata.name.to_string();
    let cflat = ctor.metadata.name.to_ident();
    let cqual = ctor.metadata.name.to_string();
    let margs = emit_args("method_arg_struct", &m.metadata.signature);
    let cargs = emit_args("constr_arg_struct", &ctor.metadata.signature);
    let prefix = emit_receiver_prefix(&m.metadata.signature);
    let mut r = String::new();
    r.append("#[cfg(kani)]\n#[kani::proof]\n#[allow(non_snake_case)]\n");
    match unwind {
        None => {},
        Some(n) => {
            r.append("#[kani::unwind(");
            r.append(u64_to_string(n as u64).as_str());
            r.append(")]\n");
        },
    }
    r.append("pub fn check_");
    r.append(flat.as_str());
    r.append("() {\n    let constr_arg_struct = kani::any::<Args");
    r.append(cflat.as_str());
    r.append(">();\n    let mut s1 = mod1::");
    r.append(cqual.as_str());
    r.append("(");
    r.append(cargs.as_str());
    r.append(");\n    let mut s2 = mod2::");
    r.append(cqual.as_str());
    r.append("(");
    r.append(cargs.as_str());
    r.append(");\n    let method_arg_struct = kani::any::<Args");
    r.append(flat.as_str());
    r.append(">();\n");
    match pre {
        Some(p) => {
            if use_pre {
                let checker = emit_checker_call(p);
                r.append("    kani::assume(s2.");
                r.append(checker.as_str());
                r.append("(");
                r.append(margs.as_str());
                r.append("));\n");
            }
        },
        None => {},
    }
    r.append("    let r1 = mod1::");
    r.append(qual.as_str());
    r.append("(");
    r.append(prefix.as_str());
    r.append("s1, ");
    r.append(margs.as_str());
    r.append(");\n    let r2 = mod2::");
    r.append(qual.as_str());
    r.append("(");
    r.append(prefix.as_str());
    r.append("s2, ");
    r.append(margs.as_str());
    r.append(");\n    assert!(r1 == r2);\n");
    match getter {
        Some(g) => {
            r.append("    assert!(s1.");
            r.append(g.metadata.signature.ident.as_str());
            r.append("() == s2.");
            r.append(g.metadata.signature.ident.as_str());
            r.append("());\n");
        },
        None => {},
    }
    r.append("}\n");
    proof {
        assert("("@ =~= seq!['(']);
        assert(r@ =~= kani_method_code(
            *m,
            *ctor,
            match getter {
                Some(g) => Some(*g),
                None => None,
            },
            match pre {
                Some(p) => Some(*p),
                None => None,
            },
            use_pre,
            unwind,
        ));
    }
    r
}

/// The emitted property-testing harness of a free function: both calls run
/// under a catch-unwind boundary so that a panic reads as a skip, and a
/// mismatch prints the documented line before failing.
pub open spec fn pbt_fn_code(c: CommonFunction, pre: Option<Precondition>, use_pre: bool) -> Seq<
    char,
> {
    let args = args_join("function_arg_struct"@, typed_params(c.metadata.signature@.inputs));
    let pre_part = match pre {
        Some(p) => {
            if use_pre {
                "    prop_assume!("@ + checker_call(p) + seq!['('] + args + "));\n"@
            } else {
                Seq::empty()
            }
        },
        None => Seq::empty(),
    };
    "#[test]\nfn check_"@ + flat_name(c) + "(function_arg_struct in any::<Args"@ + flat_name(c)
        + ">()) {\n"@ + pre_part
        + "    let r1 = std::panic::catch_unwind(std::panic::AssertUnwindSafe(|| mod1::"@
        + qual_name(c) + seq!['('] + args
        + "))).map_err(|_| ());\n    let r2 = std::panic::catch_unwind(std::panic::AssertUnwindSafe(|| mod2::"@
        + qual_name(c) + seq!['('] + args
        + "))).map_err(|_| ());\n    if r1 != r2 {\n        println!(\"MISMATCH {}\", \""@
        + qual_name(c)
        + "\");\n        println!(\"function: {:?}\", function_arg_struct);\n        assert!(false);\n    }\n}\n"@
}

/// Emit the property-testing harness of a free function.
#[verifier::rlimit(80)]
pub fn emit_pbt_fn(c: &CommonFunction, pre: Option<&Precondition>, use_pre: bool) -> (r: String)
    requires
        match pre {
            Some(p) => p.name@.len() > 0,
            None => true,
        },
    ensures
        r@ == pbt_fn_code(
            *c,
            match pre {
                Some(p) => Some(*p),
                None => None,
            },
            use_pre,
        ),
{
    proof {
        reveal_strlit("#[test]\nfn check_");
        reveal_strlit("(function_arg_struct in any::<Args");
        reveal_strlit(">()) {\n");
        reveal_strlit("    prop_assume!(");
        reveal_strlit("(");
        reveal_strlit("));\n");
        reveal_strlit("    let r1 = std::panic::catch_unwind(std::panic::AssertUnwindSafe(|| mod1::");
        reveal_strlit("))).map_err(|_| ());\n    let r2 = std::panic::catch_unwind(std::panic::AssertUnwindSafe(|| mod2::");
        reveal_strlit("))).map_err(|_| ());\n    if r1 != r2 {\n        println!(\"MISMATCH {}\", \"");
        reveal_strlit("\");\n        println!(\"function: {:?}\", function_arg_struct);\n        assert!(false);\n    }\n}\n");
    }
    let flat = c.metadata.name.to_ident();
    let qual = c.metadata.name.to_string();
    let args = emit_args("function_arg_struct", &c.metadata.signature);
    let mut r = String::new();
    r.append("#[test]\nfn check_");
    r.append(flat.as_str());
    r.append("(function_arg_struct in any::<Args");
    r.append(flat.as_str());
    r.append(">()) {\n");
    match pre {
        Some(p) => {
            if use_pre {
                let checker = emit_checker_call(p);
                r.append("    prop_assume!(");
                r.append(checker.as_str());
                r.append("(");
                r.append(args.as_str());
                r.append("));\n");
            }
        },
        None => {},
    }
    r.append("    let r1 = std::panic::catch_unwind(std::panic::AssertUnwindSafe(|| mod1::");
    r.append(qual.as_str());
    r.append("(");
    r.append(args.as_str());
    r.append("))).map_err(|_| ());\n    let r2 = std::panic::catch_unwind(std::panic::AssertUnwindSafe(|| mod2::");
    r.append(qual.as_str());
    r.append("(");
    r.append(args.as_str());
    r.append("))).map_err(|_| ());\n    if r1 != r2 {\n        println!(\"MISMATCH {}\", \"");
    r.append(qual.as_str());
    r.append("\");\n        println!(\"function: {:?}\", function_arg_struct);\n        assert!(false);\n    }\n}\n");
    proof {
        assert("("@ =~= seq!['(']);
        assert(r@ =~= pbt_fn_code(
            *c,
            match pre {
                Some(p) => Some(*p),
                None => None,
            },
            use_pre,
        ));
    }
    r
}

/// The emitted property-testing harness of a method: the two states come
/// from the constructor under catch-unwind (a panicking constructor skips
/// the case), the precondition is tested on the second state, and result
/// and getter mismatches print the documented line before failing.
pub open spec fn pbt_method_code(
    m: CommonFunction,
    ctor: CommonFunction,
    getter: Option<CommonFunction>,
    pre: Option<Precondition>,
    use_pre: bool,
) -> Seq<char> {
    let margs = args_join("method_arg_struct"@, typed_params(m.metadata.signature@.inputs));
    let cargs = args_join("constr_arg_struct"@, typed_params(ctor.metadata.signature@.inputs));
    let prefix = receiver_prefix(m.metadata.signature@.inputs);
    let pre_part = match pre {
        Some(p) => {
            if use_pre {
                "    if !s2."@ + checker_call(p) + seq!['('] + margs
                    + ") {\n        return Ok(());\n    }\n"@
            } else {
                Seq::empty()
            }
        },
        None => Seq::empty(),
    };
    let getter_part = match getter {
        Some(g) => "    if s1."@ + g.metadata.signature.ident@ + "() != s2."@
            + g.metadata.signature.ident@ + "() {\n        println!(\"MISMATCH: {}\", \""@
            + qual_name(m)
            + "\");\n        println!(\"method: {:?}\", method_arg_struct);\n        assert!(false);\n    }\n"@,
        None => Seq::empty(),
    };
    "#[test]\nfn check_"@ + flat_name(m) + "(constr_arg_struct in any::<Args"@ + flat_name(ctor)
        + ">(), method_arg_struct in any::<Args"@ + flat_name(m)
        + ">()) {\n    let mut s1 = match std::panic::catch_unwind(std::panic::AssertUnwindSafe(|| mod1::"@
        + qual_name(ctor) + seq!['('] + cargs
        + "))) {\n        Ok(s) => s,\n        Err(_) => return Ok(()),\n    };\n    let mut s2 = match std::panic::catch_unwind(std::panic::AssertUnwindSafe(|| mod2::"@
        + qual_name(ctor) + seq!['('] + cargs
        + "))) {\n        Ok(s) => s,\n        Err(_) => return Ok(()),\n    };\n"@ + pre_part
        + "    let r1 = std::panic::catch_unwind(std::panic::AssertUnwindSafe(|| mod1::"@
        + qual_name(m) + seq!['('] + prefix + "s1, "@ + margs
        + "))).map_err(|_| ());\n    let r2 = std::panic::catch_unwind(std::panic::AssertUnwindSafe(|| mod2::"@
        + qual_name(m) + seq!['('] + prefix + "s2, "@ + margs
        + "))).map_err(|_| ());\n    if r1 != r2 {\n        println!(\"MISMATCH: {}\", \""@
        + qual_name(m)
        + "\");\n        println!(\"method: {:?}\", method_arg_struct);\n        assert!(false);\n    }\n"@
        + getter_part + "}\n"@
}

/// Emit the property-testing harness of a method.
#[verifier::rlimit(100)]
pub fn emit_pbt_method(
    m: &CommonFunction,
    ctor: &CommonFunction,
    getter: Option<&CommonFunction>,
    pre: Option<&Precondition>,
    use_pre: bool,
) -> (r: String)
    requires
        match pre {
            Some(p) => p.name@.len() > 0,
            None => true,
        },
    ensures
        r@ == pbt_method_code(
            *m,
            *ctor,
            match getter {
                Some(g) => Some(*g),
                None => None,
            },
            match pre {
                Some(p) => Some(*p),
                None => None,
            },
            use_pre,
        ),
{
    proof {
        reveal_strlit("#[test]\nfn check_");
        reveal_strlit("(constr_arg_struct in any::<Args");
        reveal_strlit(">(), method_arg_struct in any::<Args");
        reveal_strlit(">()) {\n    let mut s1 = match std::panic::catch_unwind(std::panic::AssertUnwindSafe(|| mod1::");
        reveal_strlit("))) {\n        Ok(s) => s,\n        Err(_) => return Ok(()),\n    };\n    let mut s2 = match std::panic::catch_unwind(std::panic::AssertUnwindSafe(|| mod2::");
        reveal_strlit("))) {\n        Ok(s) => s,\n        Err(_) => return Ok(()),\n    };\n");
        reveal_strlit("    if !s2.");
        reveal_strlit("(");
        reveal_strlit(") {\n        return Ok(());\n    }\n");
        reveal_strlit("    let r1 = std::panic::catch_unwind(std::panic::AssertUnwindSafe(|| mod1::");
        reveal_strlit("))).map_err(|_| ());\n    let r2 = std::panic::catch_unwind(std::panic::AssertUnwindSafe(|| mod2::");
        reveal_strlit("s1, ");
        reveal_strlit("s2, ");
        reveal_strlit("))).map_err(|_| ());\n    if r1 != r2 {\n        println!(\"MISMATCH: {}\", \"");
        reveal_strlit("\");\n        println!(\"method: {:?}\", method_arg_struct);\n        assert!(false);\n    }\n");
        reveal_strlit("    if s1.");
        reveal_strlit("() != s2.");
        reveal_strlit("() {\n        println!(\"MISMATCH: {}\", \"");
        reveal_strlit("}\n");
    }
    let flat = m.metadata.name.to_ident();
    let qual = m.metadata.name.to_string();
    let cflat = ctor.metadata.name.to_ident();
    let cqual = ctor.metadata.name.to_string();
    let margs = emit_args("method_arg_struct", &m.metadata.signature);
    let cargs = emit_args("constr_arg_struct", &ctor.metadata.signature);
    let prefix = emit_receiver_prefix(&m.metadata.signature);
    let mut r = String::new();
    r.append("#[test]\nfn check_");
    r.append(flat.as_str());
    r.append("(constr_arg_struct in any::<Args");
    r.append(cflat.as_str());
    r.append(">(), method_arg_struct in any::<Args");
    r.append(flat.as_str());
    r.append(">()) {\n    let mut s1 = match std::panic::catch_unwind(std::panic::AssertUnwindSafe(|| mod1::");
    r.append(cqual.as_str());
    r.append("(");
    r.append(cargs.as_str());
    r.append("))) {\n        Ok(s) => s,\n        Err(_) => return Ok(()),\n    };\n    let mut s2 = match std::panic::catch_unwind(std::panic::AssertUnwindSafe(|| mod2::");
    r.append(cqual.as_str());
    r.append("(");
    r.append(cargs.as_str());
    r.append("))) {\n        Ok(s) => s,\n        Err(_) => return Ok(()),\n    };\n");
    match pre {
        Some(p) => {
            if use_pre {
                let checker = emit_checker_call(p);
                r.append("    if !s2.");
                r.append(checker.as_str());
                r.append("(");
                r.append(margs.as_str());
                r.append(") {\n        return Ok(());\n    }\n");
            }
        },
        None => {},
    }
    r.append("    let r1 = std::panic::catch_unwind(std::panic::AssertUnwindSafe(|| mod1::");
    r.append(qual.as_str());
    r.append("(");
    r.append(prefix.as_str());
    r.append("s1, ");
    r.append(margs.as_str());
    r.append("))).map_err(|_| ());\n    let r2 = std::panic::catch_unwind(std::panic::AssertUnwindSafe(|| mod2::");
    r.append(qual.as_str());
    r.append("(");
    r.append(prefix.as_str());
    r.append("s2, ");
    r.append(margs.as_str());
    r.append("))).map_err(|_| ());\n    if r1 != r2 {\n        println!(\"MISMATCH: {}\", \"");
    r.append(qual.as_str());
    r.append("\");\n        println!(\"method: {:?}\", method_arg_struct);\n        assert!(false);\n    }\n");
    match getter {
        Some(g) => {
            r.append("    if s1.");
            r.append(g.metadata.signature.ident.as_str());
            r.append("() != s2.");
            r.append(g.metadata.signature.ident.as_str());
            r.append("() {\n        println!(\"MISMATCH: {}\", \"");
            r.append(qual.as_str());
            r.append("\");\n        println!(\"method: {:?}\", method_arg_struct);\n        assert!(false);\n    }\n");
        },
        None => {},
    }
    r.append("}\n");
    proof {
        assert("("@ =~= seq!['(']);
        assert(r@ =~= pbt_method_code(
            *m,
            *ctor,
            match getter {
                Some(g) => Some(*g),
                None => None,
            },
            match pre {
                Some(p) => Some(*p),
                None => None,
            },
            use_pre,
        ));
    }
    r
}

/// The call line of a fuzzing harness: under catch-unwind when panics are
/// caught, plain otherwise.
pub open spec fn df_call_code(
    rvar: Seq<char>,
    modname: Seq<char>,
    qual: Seq<char>,
    args: Seq<char>,
    catch: bool,
) -> Seq<char> {
    if catch {
        "    let "@ + rvar + " = std::panic::catch_unwind(std::panic::AssertUnwindSafe(|| "@
            + modname + "::"@ + qual + seq!['('] + args + "))).map_err(|_| ());\n"@
    } else {
        "    let "@ + rvar + " = "@ + modname + "::"@ + qual + seq!['('] + args + ");\n"@
    }
}

/// Emit one call line of a fuzzing harness.
pub fn emit_df_call(rvar: &str, modname: &str, qual: &str, args: &str, catch: bool) -> (r: String)
    ensures
        r@ == df_call_code(rvar@, modname@, qual@, args@, catch),
{
    proof {
        reveal_strlit("    let ");
        reveal_strlit(" = std::panic::catch_unwind(std::panic::AssertUnwindSafe(|| ");
        reveal_strlit(" = ");
        reveal_strlit("::");
        reveal_strlit("(");
        reveal_strlit("))).map_err(|_| ());\n");
        reveal_strlit(");\n");
    }
    let mut r = String::new();
    r.append("    let ");
    r.append(rvar);
    if catch {
        r.append(" = std::panic::catch_unwind(std::panic::AssertUnwindSafe(|| ");
        r.append(modname);
        r.append("::");
        r.append(qual);
        r.append("(");
        r.append(args);
        r.append("))).map_err(|_| ());\n");
    } else {
        r.append(" = ");
        r.append(modname);
        r.append("::");
        r.append(qual);
        r.append("(");
        r.append(args);
        r.append(");\n");
    }
    proof {
        assert("("@ =~= seq!['(']);
        assert(r@ =~= df_call_code(rvar@, modname@, qual@, args@, catch));
    }
    r
}

/// The emitted fuzzing harness of a free function: the argument record is
/// decoded from the input bytes (a decode failure skips), the precondition
/// gates with an early skip, and a result mismatch logs the documented
/// `MISMATCH:` line and reports failure.
pub open spec fn df_fn_code(
    c: CommonFunction,
    pre: Option<Precondition>,
    use_pre: bool,
    catch: bool,
) -> Seq<char> {
    let args = args_join("function_arg_struct"@, typed_params(c.metadata.signature@.inputs));
    let pre_part = match pre {
        Some(p) => {
            if use_pre {
                "    if !"@ + checker_call(p) + seq!['('] + args
                    + ") {\n        return true;\n    }\n"@
            } else {
                Seq::empty()
            }
        },
        None => Seq::empty(),
    };
    "#[inline(always)]\nfn check_"@ + flat_name(c)
        + "(input: &[u8]) -> bool {\n    let function_arg_struct = match postcard::from_bytes::<Args"@
        + flat_name(c)
        + ">(&input[..]) {\n        Ok(args) => args,\n        Err(_) => return true,\n    };\n"@
        + pre_part + df_call_code("r1"@, "mod1"@, qual_name(c), args, catch) + df_call_code(
        "r2"@,
        "mod2"@,
        qual_name(c),
        args,
        catch,
    ) + "    if r1 != r2 {\n        outputln!(\"MISMATCH: {}\", \""@ + qual_name(c)
        + "\");\n        outputln!(\"function: {:?}\", function_arg_struct);\n        return false;\n    }\n    true\n}\n"@
}

/// Emit the fuzzing harness of a free function.
#[verifier::rlimit(80)]
pub fn emit_df_fn(c: &CommonFunction, pre: Option<&Precondition>, use_pre: bool, catch: bool) -> (r:
    String)
    requires
        match pre {
            Some(p) => p.name@.len() > 0,
            None => true,
        },
    ensures
        r@ == df_fn_code(
            *c,
            match pre {
                Some(p) => Some(*p),
                None => None,
            },
            use_pre,
            catch,
        ),
{
    proof {
        reveal_strlit("#[inline(always)]\nfn check_");
        reveal_strlit("(input: &[u8]) -> bool {\n    let function_arg_struct = match postcard::from_bytes::<Args");
        reveal_strlit(">(&input[..]) {\n        Ok(args) => args,\n        Err(_) => return true,\n    };\n");
        reveal_strlit("    if !");
        reveal_strlit("(");
        reveal_strlit(") {\n        return true;\n    }\n");
        reveal_strlit("    if r1 != r2 {\n        outputln!(\"MISMATCH: {}\", \"");
        reveal_strlit("\");\n        outputln!(\"function: {:?}\", function_arg_struct);\n        return false;\n    }\n    true\n}\n");
        reveal_strlit("r1");
        reveal_strlit("r2");
        reveal_strlit("mod1");
        reveal_strlit("mod2");
    }
    let flat = c.metadata.name.to_ident();
    let qual = c.metadata.name.to_string();
    let args = emit_args("function_arg_struct", &c.metadata.signature);
    let mut r = String::new();
    r.append("#[inline(always)]\nfn check_");
    r.append(flat.as_str());
    r.append("(input: &[u8]) -> bool {\n    let function_arg_struct = match postcard::from_bytes::<Args");
    r.append(flat.as_str());
    r.append(">(&input[..]) {\n        Ok(args) => args,\n        Err(_) => return true,\n    };\n");
    match pre {
        Some(p) => {
            if use_pre {
                let checker = emit_checker_call(p);
                r.append("    if !");
                r.append(checker.as_str());
                r.append("(");
                r.append(args.as_str());
                r.append(") {\n        return true;\n    }\n");
            }
        },
        None => {},
    }
    let c1 = emit_df_call("r1", "mod1", qual.as_str(), args.as_str(), catch);
    let c2 = emit_df_call("r2", "mod2", qual.as_str(), args.as_str(), catch);
    r.append(c1.as_str());
    r.append(c2.as_str());
    r.append("    if r1 != r2 {\n        outputln!(\"MISMATCH: {}\", \"");
    r.append(qual.as_str());
    r.append("\");\n        outputln!(\"function: {:?}\", function_arg_struct);\n        return false;\n    }\n    true\n}\n");
    proof {
        assert("("@ =~= seq!['(']);
        assert(r@ =~= df_fn_code(
            *c,
            match pre {
                Some(p) => Some(*p),
                None => None,
            },
            use_pre,
            catch,
        ));
    }
    r
}

/// The state-construction line of a fuzzing method harness.
pub open spec fn df_construct_code(
    svar: Seq<char>,
    modname: Seq<char>,
    cqual: Seq<char>,
    cargs: Seq<char>,
    catch: bool,
) -> Seq<char> {
    if catch {
        "    let mut "@ + svar
            + " = match std::panic::catch_unwind(std::panic::AssertUnwindSafe(|| "@ + modname
            + "::"@ + cqual + seq!['('] + cargs
            + "))) {\n        Ok(s) => s,\n        Err(_) => return true,\n    };\n"@
    } else {
        "    let mut "@ + svar + " = "@ + modname + "::"@ + cqual + seq!['('] + cargs + ");\n"@
    }
}

/// Emit one state-construction line of a fuzzing method harness.
pub fn emit_df_construct(
    svar: &str,
    modname: &str,
    cqual: &str,
    cargs: &str,
    catch: bool,
) -> (r: String)
    ensures
        r@ == df_construct_code(svar@, modname@, cqual@, cargs@, catch),
{
    proof {
        reveal_strlit("    let mut ");
        reveal_strlit(" = match std::panic::catch_unwind(std::panic::AssertUnwindSafe(|| ");
        reveal_strlit(" = ");
        reveal_strlit("::");
        reveal_strlit("(");
        reveal_strlit("))) {\n        Ok(s) => s,\n        Err(_) => return true,\n    };\n");
        reveal_strlit(");\n");
    }
    let mut r = String::new();
    r.append("    let mut ");
    r.append(svar);
    if catch {
        r.append(" = match std::panic::catch_unwind(std::panic::AssertUnwindSafe(|| ");
        r.append(modname);
        r.append("::");
        r.append(cqual);
        r.append("(");
        r.append(cargs);
        r.append("))) {\n        Ok(s) => s,\n        Err(_) => return true,\n    };\n");
    } else {
        r.append(" = ");
        r.append(modname);
        r.append("::");
        r.append(cqual);
        r.append("(");
        r.append(cargs);
        r.append(");\n");
    }
    proof {
        assert("("@ =~= seq!['(']);
        assert(r@ =~= df_construct_code(svar@, modname@, cqual@, cargs@, catch));
    }
    r
}

/// The emitted fuzzing harness of a method: constructor and method records
/// are decoded from the front and the rest of the input bytes, the states
/// are built (a panic skips when caught), the precondition gates on the
/// second state, and result or getter mismatches log the documented lines.
pub open spec fn df_method_code(
    m: CommonFunction,
    ctor: CommonFunction,
    getter: Option<CommonFunction>,
    pre: Option<Precondition>,
    use_pre: bool,
    catch: bool,
) -> Seq<char> {
    let margs = args_join("method_arg_struct"@, typed_params(m.metadata.signature@.inputs));
    let cargs = args_join("constr_arg_struct"@, typed_params(ctor.metadata.signature@.inputs));
    let prefix = receiver_prefix(m.metadata.signature@.inputs);
    let pre_part = match pre {
        Some(p) => {
            if use_pre {
                "    if !s2."@ + checker_call(p) + seq!['('] + margs
                    + ") {\n        return true;\n    }\n"@
            } else {
                Seq::empty()
            }
        },
        None => Seq::empty(),
    };
    let getter_part = match getter {
        Some(g) => "    if s1."@ + g.metadata.signature.ident@ + "() != s2."@
            + g.metadata.signature.ident@ + "() {\n        outputln!(\"MISMATCH: {}\", \""@
            + qual_name(m)
            + "\");\n        outputln!(\"constructor: {:?}\", constr_arg_struct);\n        outputln!(\"method: {:?}\", method_arg_struct);\n        return false;\n    }\n"@,
        None => Seq::empty(),
    };
    "#[inline(always)]\nfn check_"@ + flat_name(m)
        + "(input: &[u8]) -> bool {\n    let (constr_arg_struct, remain) = match postcard::take_from_bytes::<Args"@
        + flat_name(ctor)
        + ">(&input[..]) {\n        Ok((args, remain)) => (args, remain),\n        Err(_) => return true,\n    };\n    let method_arg_struct = match postcard::from_bytes::<Args"@
        + flat_name(m)
        + ">(&remain[..]) {\n        Ok(args) => args,\n        Err(_) => return true,\n    };\n"@
        + df_construct_code("s1"@, "mod1"@, qual_name(ctor), cargs, catch) + df_construct_code(
        "s2"@,
        "mod2"@,
        qual_name(ctor),
        cargs,
        catch,
    ) + pre_part + df_call_code("r1"@, "mod1"@, qual_name(m), prefix + "s1, "@ + margs, catch)
        + df_call_code("r2"@, "mod2"@, qual_name(m), prefix + "s2, "@ + margs, catch)
        + "    if r1 != r2 {\n        outputln!(\"MISMATCH: {}\", \""@ + qual_name(m)
        + "\");\n        outputln!(\"constructor: {:?}\", constr_arg_struct);\n        outputln!(\"method: {:?}\", method_arg_struct);\n        return false;\n    }\n"@
        + getter_part + "    true\n}\n"@
}

/// Emit the fuzzing harness of a method.
#[verifier::rlimit(100)]
pub fn emit_df_method(
    m: &CommonFunction,
    ctor: &CommonFunction,
    getter: Option<&CommonFunction>,
    pre: Option<&Precondition>,
    use_pre: bool,
    catch: bool,
) -> (r: String)
    requires
        match pre {
            Some(p) => p.name@.len() > 0,
            None => true,
        },
    ensures
        r@ == df_method_code(
            *m,
            *ctor,
            match getter {
                Some(g) => Some(*g),
                None => None,
            },
            match pre {
                Some(p) => Some(*p),
                None => None,
            },
            use_pre,
            catch,
        ),
{
    proof {
        reveal_strlit("#[inline(always)]\nfn check_");
        reveal_strlit("(input: &[u8]) -> bool {\n    let (constr_arg_struct, remain) = match postcard::take_from_bytes::<Args");
        reveal_strlit(">(&input[..]) {\n        Ok((args, remain)) => (args, remain),\n        Err(_) => return true,\n    };\n    let method_arg_struct = match postcard::from_bytes::<Args");
        reveal_strlit(">(&remain[..]) {\n        Ok(args) => args,\n        Err(_) => return true,\n    };\n");
        reveal_strlit("    if !s2.");
        reveal_strlit("(");
        reveal_strlit(") {\n        return true;\n    }\n");
        reveal_strlit("    if r1 != r2 {\n        outputln!(\"MISMATCH: {}\", \"");
        reveal_strlit("\");\n        outputln!(\"constructor: {:?}\", constr_arg_struct);\n        outputln!(\"method: {:?}\", method_arg_struct);\n        return false;\n    }\n");
        reveal_strlit("    if s1.");
        reveal_strlit("() != s2.");
        reveal_strlit("() {\n        outputln!(\"MISMATCH: {}\", \"");
        reveal_strlit("    true\n}\n");
        reveal_strlit("s1");
        reveal_strlit("s2");
        reveal_strlit("s1, ");
        reveal_strlit("s2, ");
        reveal_strlit("r1");
        reveal_strlit("r2");
        reveal_strlit("mod1");
        reveal_strlit("mod2");
    }
    let flat = m.metadata.name.to_ident();
    let qual = m.metadata.name.to_string();
    let cflat = ctor.metadata.name.to_ident();
    let cqual = ctor.metadata.name.to_string();
    let margs = emit_args("method_arg_struct", &m.metadata.signature);
    let cargs = emit_args("constr_arg_struct", &ctor.metadata.signature);
    let prefix = emit_receiver_prefix(&m.metadata.signature);
    let mut margs1 = String::new();
    margs1.append(prefix.as_str());
    margs1.append("s1, ");
    margs1.append(margs.as_str());
    let mut margs2 = String::new();
    margs2.append(prefix.as_str());
    margs2.append("s2, ");
    margs2.append(margs.as_str());
    let mut r = String::new();
    r.append("#[inline(always)]\nfn check_");
    r.append(flat.as_str());
    r.append("(input: &[u8]) -> bool {\n    let (constr_arg_struct, remain) = match postcard::take_from_bytes::<Args");
    r.append(cflat.as_str());
    r.append(">(&input[..]) {\n        Ok((args, remain)) => (args, remain),\n        Err(_) => return true,\n    };\n    let method_arg_struct = match postcard::from_bytes::<Args");
    r.append(flat.as_str());
    r.append(">(&remain[..]) {\n        Ok(args) => args,\n        Err(_) => return true,\n    };\n");
    let s1 = emit_df_construct("s1", "mod1", cqual.as_str(), cargs.as_str(), catch);
    let s2 = emit_df_construct("s2", "mod2", cqual.as_str(), cargs.as_str(), catch);
    r.append(s1.as_str());
    r.append(s2.as_str());
    match pre {
        Some(p) => {
            if use_pre {
                let checker = emit_checker_call(p);
                r.append("    if !s2.");
                r.append(checker.as_str());
                r.append("(");
                r.append(margs.as_str());
                r.append(") {\n        return true;\n    }\n");
            }
        },
        None => {},
    }
    let c1 = emit_df_call("r1", "mod1", qual.as_str(), margs1.as_str(), catch);
    let c2 = emit_df_call("r2", "mod2", qual.as_str(), margs2.as_str(), catch);
    r.append(c1.as_str());
    r.append(c2.as_str());
    r.append("    if r1 != r2 {\n        outputln!(\"MISMATCH: {}\", \"");
    r.append(qual.as_str());
    r.append("\");\n        outputln!(\"constructor: {:?}\", constr_arg_struct);\n        outputln!(\"method: {:?}\", method_arg_struct);\n        return false;\n    }\n");
    match getter {
        Some(g) => {
            r.append("    if s1.");
            r.append(g.metadata.signature.ident.as_str());
            r.append("() != s2.");
            r.append(g.metadata.signature.ident.as_str());
            r.append("() {\n        outputln!(\"MISMATCH: {}\", \"");
            r.append(qual.as_str());
            r.append("\");\n        outputln!(\"constructor: {:?}\", constr_arg_struct);\n        outputln!(\"method: {:?}\", method_arg_struct);\n        return false;\n    }\n");
        },
        None => {},
    }
    r.append("    true\n}\n");
    proof {
        assert("("@ =~= seq!['(']);
        assert(r@ =~= df_method_code(
            *m,
            *ctor,
            match getter {
                Some(g) => Some(*g),
                None => None,
            },
            match pre {
                Some(p) => Some(*p),
                None => None,
            },
            use_pre,
            catch,
        ));
    }
    r
}

/// The dispatch arms of the fuzzing driver: one per check function, in
/// order.
pub open spec fn dispatch_arms(flats: Seq<Seq<char>>) -> Seq<char>
    decreases flats,
{
    if flats.len() == 0 {
        Seq::empty()
    } else {
        dispatch_arms(flats.drop_last()) + "        "@ + dec_spec(flats.len() - 1) + " => check_"@
            + flats.last() + "(&input[1..]),\n"@
    }
}

/// The emitted fuzzing dispatcher: the first input byte modulo the number
/// of check functions selects the driver; the rest of the bytes feed it.
pub open spec fn dispatch_code(flats: Seq<Seq<char>>) -> Seq<char> {
    "fn run_harness(input: &[u8]) -> bool {\n    if input.len() == 0 {\n        return true;\n    }\n    let fn_id = input[0] % "@
        + dec_spec(flats.len() as int) + "usize as u8;\n    match fn_id {\n"@ + dispatch_arms(
        flats,
    ) + "        _ => true,\n    }\n}\n"@
}

/// Emit the fuzzing dispatcher over the flattened names of the checked
/// functions.
#[verifier::loop_isolation(false)]
pub fn emit_dispatch(flats: &Vec<String>) -> (r: String)
    ensures
        r@ == dispatch_code(crate::translate::rendered_of(flats@)),
{
    proof {
        reveal_strlit("fn run_harness(input: &[u8]) -> bool {\n    if input.len() == 0 {\n        return true;\n    }\n    let fn_id = input[0] % ");
        reveal_strlit("usize as u8;\n    match fn_id {\n");
        reveal_strlit("        ");
        reveal_strlit(" => check_");
        reveal_strlit("(&input[1..]),\n");
        reveal_strlit("        _ => true,\n    }\n}\n");
    }
    let ghost fv = crate::translate::rendered_of(flats@);
    let mut arms = String::new();
    let mut i: usize = 0;
    while i < flats.len()
        invariant
            i <= flats@.len(),
            fv.len() == flats@.len(),
            arms@ == dispatch_arms(fv.take(i as int)),
        decreases flats@.len() - i,
    {
        proof {
            reveal_strlit("        ");
            reveal_strlit(" => check_");
            reveal_strlit("(&input[1..]),\n");
        }
        arms.append("        ");
        arms.append(u64_to_string(i as u64).as_str());
        arms.append(" => check_");
        arms.append(flats[i].as_str());
        arms.append("(&input[1..]),\n");
        proof {
            assert(fv.take(i as int + 1).drop_last() =~= fv.take(i as int));
            assert(fv.take(i as int + 1).last() == fv[i as int]);
            assert(fv[i as int] == flats@[i as int]@);
            assert(arms@ =~= dispatch_arms(fv.take(i as int + 1)));
        }
        i += 1;
    }
    proof {
        assert(fv.take(fv.len() as int) =~= fv);
    }
    let mut r = String::new();
    r.append("fn run_harness(input: &[u8]) -> bool {\n    if input.len() == 0 {\n        return true;\n    }\n    let fn_id = input[0] % ");
    r.append(u64_to_string(flats.len() as u64).as_str());
    r.append("usize as u8;\n    match fn_id {\n");
    r.append(arms.as_str());
    r.append("        _ => true,\n    }\n}\n");
    proof {
        assert(r@ =~= dispatch_code(fv));
    }
    r
}

/// The emitted trait imports of a harness: each symbol of a source is
/// imported under a module-qualified alias so that trait methods resolve.
pub open spec fn imports_code(modname: Seq<char>, alias: Seq<char>, ps: Seq<Seq<Seq<char>>>) -> Seq<
    char,
>
    decreases ps,
{
    if ps.len() == 0 {
        Seq::empty()
    } else {
        imports_code(modname, alias, ps.drop_last()) + "use "@ + modname + "::"@ + join_with(
            ps.last(),
            sep_path(),
        ) + " as "@ + alias + (if ps.last().len() > 0 {
            ps.last().last()
        } else {
            Seq::empty()
        }) + ";\n"@
    }
}

/// Emit the trait imports of one source module.
#[verifier::loop_isolation(false)]
pub fn emit_imports(modname: &str, alias: &str, symbols: &Vec<Path>) -> (r: String)
    ensures
        r@ == imports_code(modname@, alias@, crate::checker::path_views(symbols@)),
{
    proof {
        reveal_strlit("use ");
        reveal_strlit("::");
        reveal_strlit(" as ");
        reveal_strlit(";\n");
    }
    let ghost pv = crate::checker::path_views(symbols@);
    let mut r = String::new();
    let mut i: usize = 0;
    while i < symbols.len()
        invariant
            i <= symbols@.len(),
            pv.len() == symbols@.len(),
            r@ == imports_code(modname@, alias@, pv.take(i as int)),
        decreases symbols@.len() - i,
    {
        proof {
            reveal_strlit("use ");
            reveal_strlit("::");
            reveal_strlit(" as ");
            reveal_strlit(";\n");
        }
        let rendered = symbols[i].to_string();
        r.append("use ");
        r.append(modname);
        r.append("::");
        r.append(rendered.as_str());
        r.append(" as ");
        r.append(alias);
        match symbols[i].last() {
            Some(s) => r.append(s.as_str()),
            None => {},
        }
        r.append(";\n");
        proof {
            assert(pv.take(i as int + 1).drop_last() =~= pv.take(i as int));
            assert(pv.take(i as int + 1).last() == pv[i as int]);
            assert(pv[i as int] == symbols@[i as int]@);
            assert(r@ =~= imports_code(modname@, alias@, pv.take(i as int + 1)));
        }
        i += 1;
    }
    proof {
        assert(pv.take(pv.len() as int) =~= pv);
    }
    r
}

/// The common head of every harness file.
pub open spec fn harness_head() -> Seq<char> {
    "#![allow(unused)]\n#![allow(non_snake_case)]\n#![allow(non_camel_case_types)]\nmod mod1;\nmod mod2;\n"@
}

/// Assemble the symbolic-prover harness file.
pub fn finalize_kani(imports: &str, structs: &str, functions: &str, methods: &str) -> (r: String)
    ensures
        r@ == harness_head() + imports@ + structs@ + functions@ + methods@ + "fn main() {}\n"@,
{
    proof {
        reveal_strlit("#![allow(unused)]\n#![allow(non_snake_case)]\n#![allow(non_camel_case_types)]\nmod mod1;\nmod mod2;\n");
        reveal_strlit("fn main() {}\n");
    }
    let mut r = String::new();
    r.append("#![allow(unused)]\n#![allow(non_snake_case)]\n#![allow(non_camel_case_types)]\nmod mod1;\nmod mod2;\n");
    r.append(imports);
    r.append(structs);
    r.append(functions);
    r.append(methods);
    r.append("fn main() {}\n");
    r
}

/// Assemble the property-testing harness file: the drivers run inside the
/// test-runner block with the configured case count and timeout.
pub fn finalize_pbt(
    imports: &str,
    structs: &str,
    functions: &str,
    methods: &str,
    cases: usize,
    timeout_secs: u64,
) -> (r: String)
    requires
        timeout_secs <= u64::MAX / 1000,
    ensures
        r@ == harness_head() + "use proptest::prelude::*;\n"@ + imports@ + structs@
            + "proptest! {\n    #![proptest_config(ProptestConfig {\n        cases: "@ + dec_spec(
            cases as int,
        ) + ",\n        timeout: "@ + dec_spec(timeout_secs * 1000) + ",\n        .. ProptestConfig::default()\n    })]\n"@
            + functions@ + methods@ + "}\nfn main() {}\n"@,
{
    proof {
        reveal_strlit("#![allow(unused)]\n#![allow(non_snake_case)]\n#![allow(non_camel_case_types)]\nmod mod1;\nmod mod2;\n");
        reveal_strlit("use proptest::prelude::*;\n");
        reveal_strlit("proptest! {\n    #![proptest_config(ProptestConfig {\n        cases: ");
        reveal_strlit(",\n        timeout: ");
        reveal_strlit(",\n        .. ProptestConfig::default()\n    })]\n");
        reveal_strlit("}\nfn main() {}\n");
    }
    let mut r = String::new();
    r.append("#![allow(unused)]\n#![allow(non_snake_case)]\n#![allow(non_camel_case_types)]\nmod mod1;\nmod mod2;\n");
    r.append("use proptest::prelude::*;\n");
    r.append(imports);
    r.append(structs);
    r.append("proptest! {\n    #![proptest_config(ProptestConfig {\n        cases: ");
    r.append(u64_to_string(cases as u64).as_str());
    r.append(",\n        timeout: ");
    r.append(u64_to_string(timeout_secs * 1000).as_str());
    r.append(",\n        .. ProptestConfig::default()\n    })]\n");
    r.append(functions);
    r.append(methods);
    r.append("}\nfn main() {}\n");
    r
}

/// Assemble the fuzzing harness file.  The logging plumbing and the fuzzer
/// entry point are fixed boilerplate handed in by the driver; the drivers,
/// records and dispatcher come from the emitters here.
pub fn finalize_df(
    imports: &str,
    plumbing: &str,
    structs: &str,
    functions: &str,
    methods: &str,
    additional: &str,
) -> (r: String)
    ensures
        r@ == harness_head() + imports@ + plumbing@ + structs@ + functions@ + methods@
            + additional@,
{
    proof {
        reveal_strlit("#![allow(unused)]\n#![allow(non_snake_case)]\n#![allow(non_camel_case_types)]\nmod mod1;\nmod mod2;\n");
    }
    let mut r = String::new();
    r.append("#![allow(unused)]\n#![allow(non_snake_case)]\n#![allow(non_camel_case_types)]\nmod mod1;\nmod mod2;\n");
    r.append(imports);
    r.append(plumbing);
    r.append(structs);
    r.append(functions);
    r.append(methods);
    r.append(additional);
    r
}

} // verus!
