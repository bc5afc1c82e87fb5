//! Rewrites over the reduced expression grammar.
//!
//! Before emission, every `old(e)` marker is erased (sound for
//! preconditions, where the pre-state value is the value at the call site),
//! calls are checked against the allowed set of spec names, and the `spec_`
//! prefix is stripped so that the emitted code calls the executable
//! counterparts.

use vstd::prelude::*;

verus! {

use crate::ast::Expr;
use crate::ast::ExprCall;
use crate::ast::ExprCast;
use crate::ast::ExprField;
use crate::ast::ExprIndex;
use crate::ast::ExprLit;
use crate::ast::ExprMethodCall;
use crate::ast::ExprPath;
use crate::ast::ExprUnary;
use crate::ast::ExprBinary;
use crate::ast::ExprV;
use crate::ast::expr_views;
use crate::ast::lemma_expr_views;
use crate::path::Path;
use crate::path::join_with;
use crate::path::sep_path;
use crate::text::starts_with_spec;
use crate::text::starts_with_str;
use crate::text::str_eq;
use vstd::string::StrSliceExecFns;
use vstd::string::StringExecFns;

broadcast use vstd::std_specs::vec::group_vec_axioms;

/// The `spec_` marker.
pub open spec fn spec_marker() -> Seq<char> {
    seq!['s', 'p', 'e', 'c', '_']
}

/// The rendered name of the pre-state marker function.
pub open spec fn old_marker() -> Seq<char> {
    seq!['o', 'l', 'd']
}

/// The `Self` head segment.
pub open spec fn self_marker() -> Seq<char> {
    seq!['S', 'e', 'l', 'f']
}

/// Strip every repetition of the `spec_` prefix from `s`.
pub open spec fn strip_spec(s: Seq<char>) -> Seq<char>
    decreases s.len(),
{
    if starts_with_spec(s, spec_marker()) {
        strip_spec(s.skip(5))
    } else {
        s
    }
}

/// Stripping the `spec_` prefix is idempotent: the result never starts with
/// the prefix again.
pub proof fn lemma_strip_spec_idempotent(s: Seq<char>)
    ensures
        !starts_with_spec(strip_spec(s), spec_marker()),
        strip_spec(strip_spec(s)) == strip_spec(s),
    decreases s.len(),
{
    if starts_with_spec(s, spec_marker()) {
        lemma_strip_spec_idempotent(s.skip(5));
    }
}

/// Strip every repetition of the `spec_` prefix from a string.
pub fn strip_spec_exec(s: &str) -> (r: String)
    ensures
        r@ == strip_spec(s@),
{
    proof {
        reveal_strlit("spec_");
        assert("spec_"@ =~= spec_marker());
    }
    let mut cur: String = s.to_owned();
    loop
        invariant
            strip_spec(cur@) == strip_spec(s@),
        decreases cur@.len(),
    {
        proof {
            reveal_strlit("spec_");
            assert("spec_"@ =~= spec_marker());
        }
        if starts_with_str(cur.as_str(), "spec_") {
            let n = cur.as_str().unicode_len();
            let next = cur.as_str().substring_char(5, n).to_owned();
            proof {
                assert(next@ =~= cur@.skip(5));
            }
            cur = next;
        } else {
            return cur;
        }
    }
}

/// Whether a call path names the pre-state marker: a path rendering exactly
/// to `old`.
pub open spec fn is_old_path(p: Seq<Seq<char>>) -> bool {
    join_with(p, sep_path()) == old_marker()
}

/// Erase every `old(e)` marker, replacing the call with its argument.
pub open spec fn remove_old_v(e: ExprV) -> ExprV
    decreases e,
{
    match e {
        ExprV::Lit(_) => e,
        ExprV::Path(_) => e,
        ExprV::Index(b, i) => ExprV::Index(
            Box::new(remove_old_v(*b)),
            Box::new(remove_old_v(*i)),
        ),
        ExprV::Cast(x, t) => ExprV::Cast(Box::new(remove_old_v(*x)), t),
        ExprV::Field(b, f) => ExprV::Field(Box::new(remove_old_v(*b)), f),
        ExprV::Binary(op, l, r) => ExprV::Binary(
            op,
            Box::new(remove_old_v(*l)),
            Box::new(remove_old_v(*r)),
        ),
        ExprV::Unary(op, x) => ExprV::Unary(op, Box::new(remove_old_v(*x))),
        ExprV::Call(p, args) => {
            if is_old_path(p) && args.len() == 1 {
                remove_old_v(args[0])
            } else {
                ExprV::Call(p, remove_old_args(args))
            }
        },
        ExprV::MethodCall(r, m, args) => ExprV::MethodCall(
            Box::new(remove_old_v(*r)),
            m,
            remove_old_args(args),
        ),
    }
}

/// Erase the pre-state markers in every argument.
pub open spec fn remove_old_args(args: Seq<ExprV>) -> Seq<ExprV>
    decreases args,
{
    if args.len() == 0 {
        Seq::empty()
    } else {
        remove_old_args(args.drop_last()).push(remove_old_v(args.last()))
    }
}

/// `remove_old_args` maps each element.
pub proof fn lemma_remove_old_args(args: Seq<ExprV>)
    ensures
        remove_old_args(args).len() == args.len(),
        forall|i: int|
            0 <= i < args.len() ==> remove_old_args(args)[i] == remove_old_v(#[trigger] args[i]),
    decreases args.len(),
{
    if args.len() > 0 {
        lemma_remove_old_args(args.drop_last());
        assert forall|i: int|
            0 <= i < args.len() implies remove_old_args(args)[i] == remove_old_v(
            #[trigger] args[i],
        ) by {
            if i < args.len() - 1 {
                assert(args.drop_last()[i] == args[i]);
            }
        }
    }
}

/// Rewriting `old(e)` to `e` reaches a fixed point in one pass: erasing the
/// markers again changes nothing.
pub proof fn lemma_remove_old_idempotent(e: ExprV)
    ensures
        remove_old_v(remove_old_v(e)) == remove_old_v(e),
    decreases e,
{
    match e {
        ExprV::Lit(_) => {},
        ExprV::Path(_) => {},
        ExprV::Index(b, i) => {
            lemma_remove_old_idempotent(*b);
            lemma_remove_old_idempotent(*i);
        },
        ExprV::Cast(x, _) => {
            lemma_remove_old_idempotent(*x);
        },
        ExprV::Field(b, _) => {
            lemma_remove_old_idempotent(*b);
        },
        ExprV::Binary(_, l, r) => {
            lemma_remove_old_idempotent(*l);
            lemma_remove_old_idempotent(*r);
        },
        ExprV::Unary(_, x) => {
            lemma_remove_old_idempotent(*x);
        },
        ExprV::Call(p, args) => {
            if is_old_path(p) && args.len() == 1 {
                lemma_remove_old_idempotent(args[0]);
            } else {
                assert forall|i: int|
                    0 <= i < args.len() implies remove_old_v(remove_old_v(#[trigger] args[i]))
                    == remove_old_v(args[i]) by {
                    lemma_remove_old_idempotent(args[i]);
                }
                lemma_remove_old_args(args);
                lemma_remove_old_args(remove_old_args(args));
                assert forall|i: int|
                    0 <= i < args.len() implies remove_old_args(remove_old_args(args))[i]
                    == remove_old_args(args)[i] by {
                    assert(remove_old_args(args)[i] == remove_old_v(args[i]));
                    assert(remove_old_args(remove_old_args(args))[i] == remove_old_v(
                        remove_old_args(args)[i],
                    ));
                }
                assert(remove_old_args(remove_old_args(args)) =~= remove_old_args(args));
            }
        },
        ExprV::MethodCall(r, m, args) => {
            lemma_remove_old_idempotent(*r);
            assert forall|i: int|
                0 <= i < args.len() implies remove_old_v(remove_old_v(#[trigger] args[i]))
                == remove_old_v(args[i]) by {
                lemma_remove_old_idempotent(args[i]);
            }
            lemma_remove_old_args(args);
            lemma_remove_old_args(remove_old_args(args));
            assert forall|i: int|
                0 <= i < args.len() implies remove_old_args(remove_old_args(args))[i]
                == remove_old_args(args)[i] by {
                assert(remove_old_args(args)[i] == remove_old_v(args[i]));
                assert(remove_old_args(remove_old_args(args))[i] == remove_old_v(
                    remove_old_args(args)[i],
                ));
            }
            assert(remove_old_args(remove_old_args(args)) =~= remove_old_args(args));
        },
    }
}

/// Erase every `old(e)` marker in the expression.
pub fn remove_old(e: Expr) -> (r: Expr)
    ensures
        r@ == remove_old_v(e@),
    decreases e,
{
    match e {
        Expr::Lit(l) => Expr::Lit(l),
        Expr::Path(p) => Expr::Path(p),
        Expr::Index(ix) => {
            let ExprIndex { base, index } = ix;
            let nb = remove_old(*base);
            let ni = remove_old(*index);
            Expr::Index(ExprIndex { base: Box::new(nb), index: Box::new(ni) })
        },
        Expr::Cast(c) => {
            let ExprCast { expr, to_type } = c;
            let nx = remove_old(*expr);
            Expr::Cast(ExprCast { expr: Box::new(nx), to_type })
        },
        Expr::Field(f) => {
            let ExprField { base, field } = f;
            let nb = remove_old(*base);
            Expr::Field(ExprField { base: Box::new(nb), field })
        },
        Expr::Binary(b) => {
            let ExprBinary { op, left, right } = b;
            let nl = remove_old(*left);
            let nr = remove_old(*right);
            Expr::Binary(ExprBinary { op, left: Box::new(nl), right: Box::new(nr) })
        },
        Expr::Unary(u) => {
            let ExprUnary { op, expr } = u;
            let nx = remove_old(*expr);
            Expr::Unary(ExprUnary { op, expr: Box::new(nx) })
        },
        Expr::Call(c) => {
            proof {
                reveal_strlit("old");
                assert("old"@ =~= old_marker());
            }
            let rendered = c.func.path.to_string();
            if str_eq(rendered.as_str(), "old") && c.args.len() == 1 {
                let ghost cargs = c.args@;
                let ExprCall { func, mut args } = c;
                let a = match args.pop() {
                    Some(a) => a,
                    None => {
                        proof {
                            assert(false);
                        }
                        unreached()
                    },
                };
                proof {
                    assert(a == cargs[0]);
                    lemma_expr_views(cargs);
                    assert(a@ == expr_views(cargs)[0]);
                    assert(expr_views(cargs).len() == 1);
                }
                remove_old(a)
            } else {
                let ExprCall { func, args } = c;
                let ghost old_args = args@;
                proof {
                    lemma_expr_views(old_args);
                }
                let nargs = remove_old_vec(args);
                let r = Expr::Call(ExprCall { func, args: nargs });
                proof {
                    assert(r@ == remove_old_v(ExprV::Call(func.path@, expr_views(old_args))));
                }
                r
            }
        },
        Expr::MethodCall(m) => {
            let ExprMethodCall { receiver, method, args } = m;
            let nr = remove_old(*receiver);
            let nargs = remove_old_vec(args);
            Expr::MethodCall(
                ExprMethodCall { receiver: Box::new(nr), method, args: nargs },
            )
        },
    }
}

/// Erase the pre-state markers in every argument.
#[verifier::loop_isolation(false)]
pub fn remove_old_vec(args: Vec<Expr>) -> (r: Vec<Expr>)
    ensures
        expr_views(r@) == remove_old_args(expr_views(args@)),
    decreases args,
{
    let ghost args0 = args;
    let ghost argsv = expr_views(args@);
    proof {
        lemma_expr_views(args@);
    }
    let mut rest = args;
    let total = rest.len();
    let mut r: Vec<Expr> = Vec::new();
    let mut i: usize = 0;
    while rest.len() > 0
        invariant
            args0@.len() == total,
            i + rest@.len() == args0@.len(),
            rest@ == args0@.skip(i as int),
            argsv == expr_views(args0@),
            argsv.len() == args0@.len(),
            expr_views(r@).len() == i,
            forall|j: int|
                0 <= j < i ==> expr_views(r@)[j] == remove_old_v(#[trigger] argsv[j]),
        decreases rest@.len(),
    {
        proof {
            assert(rest@[0] == args0@[i as int]);
        }
        let a = rest.remove(0);
        proof {
            assert(a == args0@[i as int]);
            assert(decreases_to!(args0 => args0[i as int]));
            assert(decreases_to!(args0 => a));
            lemma_expr_views(args0@);
            assert(a@ == argsv[i as int]);
        }
        let ghost prev = r@;
        let ne = remove_old(a);
        r.push(ne);
        proof {
            lemma_expr_views(r@);
            lemma_expr_views(prev);
            assert(rest@ =~= args0@.skip(i + 1));
            assert forall|j: int|
                0 <= j < i + 1 implies expr_views(r@)[j] == remove_old_v(#[trigger] argsv[j]) by {
                if j < i {
                    assert(r@[j] == prev[j]);
                    assert(expr_views(r@)[j] == r@[j]@);
                    assert(expr_views(prev)[j] == prev[j]@);
                }
            }
        }
        i += 1;
    }
    proof {
        lemma_remove_old_args(argsv);
        lemma_expr_views(r@);
        assert forall|j: int|
            0 <= j < argsv.len() implies expr_views(r@)[j] == remove_old_args(argsv)[j] by {
            assert(expr_views(r@)[j] == remove_old_v(argsv[j]));
            assert(remove_old_args(argsv)[j] == remove_old_v(argsv[j]));
        }
        assert(expr_views(r@) =~= remove_old_args(argsv));
    }
    r
}

/// Strip the `spec_` prefix from the last segment of a call path.
pub open spec fn strip_last_seg(p: Seq<Seq<char>>) -> Seq<Seq<char>> {
    if p.len() > 0 {
        p.update(p.len() - 1, strip_spec(p.last()))
    } else {
        p
    }
}

/// Rewrite every call of a `spec_`-prefixed function or method to its
/// executable counterpart by stripping the prefix.
pub open spec fn remove_spec_prefix_v(e: ExprV) -> ExprV
    decreases e,
{
    match e {
        ExprV::Lit(_) => e,
        ExprV::Path(_) => e,
        ExprV::Index(b, i) => ExprV::Index(
            Box::new(remove_spec_prefix_v(*b)),
            Box::new(remove_spec_prefix_v(*i)),
        ),
        ExprV::Cast(x, t) => ExprV::Cast(Box::new(remove_spec_prefix_v(*x)), t),
        ExprV::Field(b, f) => ExprV::Field(Box::new(remove_spec_prefix_v(*b)), f),
        ExprV::Binary(op, l, r) => ExprV::Binary(
            op,
            Box::new(remove_spec_prefix_v(*l)),
            Box::new(remove_spec_prefix_v(*r)),
        ),
        ExprV::Unary(op, x) => ExprV::Unary(op, Box::new(remove_spec_prefix_v(*x))),
        ExprV::Call(p, args) => ExprV::Call(strip_last_seg(p), remove_spec_prefix_args(args)),
        ExprV::MethodCall(r, m, args) => ExprV::MethodCall(
            Box::new(remove_spec_prefix_v(*r)),
            strip_spec(m),
            remove_spec_prefix_args(args),
        ),
    }
}

/// Strip the `spec_` prefixes in every argument.
pub open spec fn remove_spec_prefix_args(args: Seq<ExprV>) -> Seq<ExprV>
    decreases args,
{
    if args.len() == 0 {
        Seq::empty()
    } else {
        remove_spec_prefix_args(args.drop_last()).push(remove_spec_prefix_v(args.last()))
    }
}

/// `remove_spec_prefix_args` maps each element.
pub proof fn lemma_remove_spec_prefix_args(args: Seq<ExprV>)
    ensures
        remove_spec_prefix_args(args).len() == args.len(),
        forall|i: int|
            0 <= i < args.len() ==> remove_spec_prefix_args(args)[i] == remove_spec_prefix_v(
                #[trigger] args[i],
            ),
    decreases args.len(),
{
    if args.len() > 0 {
        lemma_remove_spec_prefix_args(args.drop_last());
        assert forall|i: int|
            0 <= i < args.len() implies remove_spec_prefix_args(args)[i] == remove_spec_prefix_v(
            #[trigger] args[i],
        ) by {
            if i < args.len() - 1 {
                assert(args.drop_last()[i] == args[i]);
            }
        }
    }
}

/// Removing the `spec_` prefix is idempotent.
pub proof fn lemma_remove_spec_prefix_idempotent(e: ExprV)
    ensures
        remove_spec_prefix_v(remove_spec_prefix_v(e)) == remove_spec_prefix_v(e),
    decreases e,
{
    match e {
        ExprV::Lit(_) => {},
        ExprV::Path(_) => {},
        ExprV::Index(b, i) => {
            lemma_remove_spec_prefix_idempotent(*b);
            lemma_remove_spec_prefix_idempotent(*i);
        },
        ExprV::Cast(x, _) => {
            lemma_remove_spec_prefix_idempotent(*x);
        },
        ExprV::Field(b, _) => {
            lemma_remove_spec_prefix_idempotent(*b);
        },
        ExprV::Binary(_, l, r) => {
            lemma_remove_spec_prefix_idempotent(*l);
            lemma_remove_spec_prefix_idempotent(*r);
        },
        ExprV::Unary(_, x) => {
            lemma_remove_spec_prefix_idempotent(*x);
        },
        ExprV::Call(p, args) => {
            if p.len() > 0 {
                lemma_strip_spec_idempotent(p.last());
                assert(strip_last_seg(strip_last_seg(p)) =~= strip_last_seg(p));
            }
            lemma_spec_prefix_args_idem(args);
        },
        ExprV::MethodCall(r, m, args) => {
            lemma_remove_spec_prefix_idempotent(*r);
            lemma_strip_spec_idempotent(m);
            lemma_spec_prefix_args_idem(args);
        },
    }
}

/// The argument lists reach a fixed point too.
proof fn lemma_spec_prefix_args_idem(args: Seq<ExprV>)
    ensures
        remove_spec_prefix_args(remove_spec_prefix_args(args)) == remove_spec_prefix_args(args),
    decreases args,
{
    assert forall|i: int|
        0 <= i < args.len() implies remove_spec_prefix_v(remove_spec_prefix_v(#[trigger] args[i]))
        == remove_spec_prefix_v(args[i]) by {
        lemma_remove_spec_prefix_idempotent(args[i]);
    }
    lemma_remove_spec_prefix_args(args);
    lemma_remove_spec_prefix_args(remove_spec_prefix_args(args));
    assert forall|i: int|
        0 <= i < args.len() implies remove_spec_prefix_args(remove_spec_prefix_args(args))[i]
        == remove_spec_prefix_args(args)[i] by {
        assert(remove_spec_prefix_args(args)[i] == remove_spec_prefix_v(args[i]));
        assert(remove_spec_prefix_args(remove_spec_prefix_args(args))[i] == remove_spec_prefix_v(
            remove_spec_prefix_args(args)[i],
        ));
    }
    assert(remove_spec_prefix_args(remove_spec_prefix_args(args)) =~= remove_spec_prefix_args(
        args,
    ));
}

/// Strip the `spec_` prefixes off every call in the expression.
#[verifier::loop_isolation(false)]
pub fn remove_spec_prefix(e: Expr) -> (r: Expr)
    ensures
        r@ == remove_spec_prefix_v(e@),
    decreases e,
{
    match e {
        Expr::Lit(l) => Expr::Lit(l),
        Expr::Path(p) => Expr::Path(p),
        Expr::Index(ix) => {
            let ExprIndex { base, index } = ix;
            let nb = remove_spec_prefix(*base);
            let ni = remove_spec_prefix(*index);
            Expr::Index(ExprIndex { base: Box::new(nb), index: Box::new(ni) })
        },
        Expr::Cast(c) => {
            let ExprCast { expr, to_type } = c;
            let nx = remove_spec_prefix(*expr);
            Expr::Cast(ExprCast { expr: Box::new(nx), to_type })
        },
        Expr::Field(f) => {
            let ExprField { base, field } = f;
            let nb = remove_spec_prefix(*base);
            Expr::Field(ExprField { base: Box::new(nb), field })
        },
        Expr::Binary(b) => {
            let ExprBinary { op, left, right } = b;
            let nl = remove_spec_prefix(*left);
            let nr = remove_spec_prefix(*right);
            Expr::Binary(ExprBinary { op, left: Box::new(nl), right: Box::new(nr) })
        },
        Expr::Unary(u) => {
            let ExprUnary { op, expr } = u;
            let nx = remove_spec_prefix(*expr);
            Expr::Unary(ExprUnary { op, expr: Box::new(nx) })
        },
        Expr::Call(c) => {
            let ExprCall { func, args } = c;
            let Path(mut segs) = func.path;
            let n = segs.len();
            if n > 0 {
                let stripped = strip_spec_exec(segs[n - 1].as_str());
                segs.set(n - 1, stripped);
            }
            let npath = Path(segs);
            proof {
                assert(npath@ =~= strip_last_seg(func.path@));
            }
            let ghost old_args = args@;
            proof {
                lemma_expr_views(old_args);
            }
            let nargs = remove_spec_prefix_vec(args);
            Expr::Call(ExprCall { func: ExprPath { path: npath }, args: nargs })
        },
        Expr::MethodCall(m) => {
            let ExprMethodCall { receiver, method, args } = m;
            let nr = remove_spec_prefix(*receiver);
            let nm = strip_spec_exec(method.as_str());
            let nargs = remove_spec_prefix_vec(args);
            Expr::MethodCall(
                ExprMethodCall { receiver: Box::new(nr), method: nm, args: nargs },
            )
        },
    }
}

/// Strip the `spec_` prefixes in every argument.
#[verifier::loop_isolation(false)]
pub fn remove_spec_prefix_vec(args: Vec<Expr>) -> (r: Vec<Expr>)
    ensures
        expr_views(r@) == remove_spec_prefix_args(expr_views(args@)),
    decreases args,
{
    let ghost args0 = args;
    let ghost argsv = expr_views(args@);
    proof {
        lemma_expr_views(args@);
    }
    let mut rest = args;
    let total = rest.len();
    let mut r: Vec<Expr> = Vec::new();
    let mut i: usize = 0;
    while rest.len() > 0
        invariant
            args0@.len() == total,
            i + rest@.len() == args0@.len(),
            rest@ == args0@.skip(i as int),
            argsv == expr_views(args0@),
            argsv.len() == args0@.len(),
            expr_views(r@).len() == i,
            forall|j: int|
                0 <= j < i ==> expr_views(r@)[j] == remove_spec_prefix_v(#[trigger] argsv[j]),
        decreases rest@.len(),
    {
        proof {
            assert(rest@[0] == args0@[i as int]);
        }
        let a = rest.remove(0);
        proof {
            assert(a == args0@[i as int]);
            assert(decreases_to!(args0 => args0[i as int]));
            assert(decreases_to!(args0 => a));
            lemma_expr_views(args0@);
            assert(a@ == argsv[i as int]);
        }
        let ghost prev = r@;
        let ne = remove_spec_prefix(a);
        r.push(ne);
        proof {
            lemma_expr_views(r@);
            lemma_expr_views(prev);
            assert(rest@ =~= args0@.skip(i + 1));
            assert forall|j: int|
                0 <= j < i + 1 implies expr_views(r@)[j] == remove_spec_prefix_v(
                #[trigger] argsv[j],
            ) by {
                if j < i {
                    assert(r@[j] == prev[j]);
                    assert(expr_views(r@)[j] == r@[j]@);
                    assert(expr_views(prev)[j] == prev[j]@);
                }
            }
        }
        i += 1;
    }
    proof {
        lemma_remove_spec_prefix_args(argsv);
        lemma_expr_views(r@);
        assert forall|j: int|
            0 <= j < argsv.len() implies expr_views(r@)[j] == remove_spec_prefix_args(argsv)[j]
            by {
            assert(expr_views(r@)[j] == remove_spec_prefix_v(argsv[j]));
            assert(remove_spec_prefix_args(argsv)[j] == remove_spec_prefix_v(argsv[j]));
        }
        assert(expr_views(r@) =~= remove_spec_prefix_args(argsv));
    }
    r
}

/// The rendered views of a list of names.
pub open spec fn rendered_of(v: Seq<String>) -> Seq<Seq<char>> {
    v.map_values(|s: String| s@)
}

/// Whether a called path is admissible: a `spec_`-prefixed last segment is
/// always assumed to have an executable counterpart; a `Self`-headed path is
/// resolved against the impl type; anything else must render to a name in
/// the allowed list.
pub open spec fn callee_ok(
    p: Seq<Seq<char>>,
    allowed: Seq<Seq<char>>,
    self_segs: Option<Seq<Seq<char>>>,
) -> bool {
    if p.len() == 0 {
        false
    } else if starts_with_spec(p.last(), spec_marker()) {
        true
    } else if p[0] == self_marker() {
        match self_segs {
            None => false,
            Some(ss) => allowed.contains(join_with(ss + p.drop_first(), sep_path())),
        }
    } else {
        allowed.contains(join_with(p, sep_path()))
    }
}

/// Whether a called method is admissible.
pub open spec fn method_ok(
    m: Seq<char>,
    allowed: Seq<Seq<char>>,
    self_segs: Option<Seq<Seq<char>>>,
) -> bool {
    if starts_with_spec(m, spec_marker()) {
        true
    } else {
        match self_segs {
            None => false,
            Some(ss) => allowed.contains(join_with(ss.push(m), sep_path())),
        }
    }
}

/// Whether every call in the expression is admissible.
pub open spec fn calls_allowed(
    e: ExprV,
    allowed: Seq<Seq<char>>,
    self_segs: Option<Seq<Seq<char>>>,
) -> bool
    decreases e,
{
    match e {
        ExprV::Lit(_) => true,
        ExprV::Path(_) => true,
        ExprV::Index(b, i) => calls_allowed(*b, allowed, self_segs) && calls_allowed(
            *i,
            allowed,
            self_segs,
        ),
        ExprV::Cast(x, _) => calls_allowed(*x, allowed, self_segs),
        ExprV::Field(b, _) => calls_allowed(*b, allowed, self_segs),
        ExprV::Binary(_, l, r) => calls_allowed(*l, allowed, self_segs) && calls_allowed(
            *r,
            allowed,
            self_segs,
        ),
        ExprV::Unary(_, x) => calls_allowed(*x, allowed, self_segs),
        ExprV::Call(p, args) => callee_ok(p, allowed, self_segs) && args_allowed(
            args,
            allowed,
            self_segs,
        ),
        ExprV::MethodCall(r, m, args) => method_ok(m, allowed, self_segs) && calls_allowed(
            *r,
            allowed,
            self_segs,
        ) && args_allowed(args, allowed, self_segs),
    }
}

/// Whether every call in every argument is admissible.
pub open spec fn args_allowed(
    args: Seq<ExprV>,
    allowed: Seq<Seq<char>>,
    self_segs: Option<Seq<Seq<char>>>,
) -> bool
    decreases args,
{
    if args.len() == 0 {
        true
    } else {
        args_allowed(args.drop_last(), allowed, self_segs) && calls_allowed(
            args.last(),
            allowed,
            self_segs,
        )
    }
}

/// `args_allowed` holds exactly when it holds of each element.
pub proof fn lemma_args_allowed(
    args: Seq<ExprV>,
    allowed: Seq<Seq<char>>,
    self_segs: Option<Seq<Seq<char>>>,
)
    ensures
        args_allowed(args, allowed, self_segs) <==> (forall|i: int|
            0 <= i < args.len() ==> calls_allowed(#[trigger] args[i], allowed, self_segs)),
    decreases args.len(),
{
    if args.len() > 0 {
        lemma_args_allowed(args.drop_last(), allowed, self_segs);
        if args_allowed(args, allowed, self_segs) {
            assert forall|i: int|
                0 <= i < args.len() implies calls_allowed(#[trigger] args[i], allowed, self_segs)
                by {
                if i < args.len() - 1 {
                    assert(args.drop_last()[i] == args[i]);
                }
            }
        }
        if forall|i: int|
            0 <= i < args.len() ==> calls_allowed(#[trigger] args[i], allowed, self_segs) {
            assert forall|i: int|
                0 <= i < args.drop_last().len() implies calls_allowed(
                #[trigger] args.drop_last()[i],
                allowed,
                self_segs,
            ) by {
                assert(args.drop_last()[i] == args[i]);
            }
        }
    }
}

/// Every rendered name of the first list occurs in the second.
pub open spec fn contained_in(a1: Seq<Seq<char>>, a2: Seq<Seq<char>>) -> bool {
    forall|x: Seq<char>| a1.contains(x) ==> a2.contains(x)
}

/// Admissibility of an expression is monotone in the allowed list: a call
/// admissible against a smaller list is admissible against any larger one.
pub proof fn lemma_calls_allowed_mono(
    e: ExprV,
    a1: Seq<Seq<char>>,
    a2: Seq<Seq<char>>,
    self_segs: Option<Seq<Seq<char>>>,
)
    requires
        contained_in(a1, a2),
        calls_allowed(e, a1, self_segs),
    ensures
        calls_allowed(e, a2, self_segs),
    decreases e,
{
    match e {
        ExprV::Lit(_) => {},
        ExprV::Path(_) => {},
        ExprV::Index(b, i) => {
            lemma_calls_allowed_mono(*b, a1, a2, self_segs);
            lemma_calls_allowed_mono(*i, a1, a2, self_segs);
        },
        ExprV::Cast(x, _) => {
            lemma_calls_allowed_mono(*x, a1, a2, self_segs);
        },
        ExprV::Field(b, _) => {
            lemma_calls_allowed_mono(*b, a1, a2, self_segs);
        },
        ExprV::Binary(_, l, r) => {
            lemma_calls_allowed_mono(*l, a1, a2, self_segs);
            lemma_calls_allowed_mono(*r, a1, a2, self_segs);
        },
        ExprV::Unary(_, x) => {
            lemma_calls_allowed_mono(*x, a1, a2, self_segs);
        },
        ExprV::Call(p, args) => {
            assert(callee_ok(p, a2, self_segs));
            lemma_args_allowed_mono(args, a1, a2, self_segs);
        },
        ExprV::MethodCall(r, m, args) => {
            assert(method_ok(m, a2, self_segs));
            lemma_calls_allowed_mono(*r, a1, a2, self_segs);
            lemma_args_allowed_mono(args, a1, a2, self_segs);
        },
    }
}

/// Admissibility of an argument list is monotone in the allowed list.
pub proof fn lemma_args_allowed_mono(
    args: Seq<ExprV>,
    a1: Seq<Seq<char>>,
    a2: Seq<Seq<char>>,
    self_segs: Option<Seq<Seq<char>>>,
)
    requires
        contained_in(a1, a2),
        args_allowed(args, a1, self_segs),
    ensures
        args_allowed(args, a2, self_segs),
    decreases args,
{
    if args.len() > 0 {
        lemma_args_allowed_mono(args.drop_last(), a1, a2, self_segs);
        assert(decreases_to!(args => args.last()));
        lemma_calls_allowed_mono(args.last(), a1, a2, self_segs);
    }
}

/// The segment views of an optional self path.
pub open spec fn self_segs_of(o: &Option<Path>) -> Option<Seq<Seq<char>>> {
    match o {
        Some(p) => Some(p@),
        None => None,
    }
}

/// Whether the allowed list holds the rendered name `s`.
pub fn contains_rendered(allowed: &Vec<String>, s: &str) -> (r: bool)
    ensures
        r == rendered_of(allowed@).contains(s@),
{
    let ghost av = rendered_of(allowed@);
    let mut i: usize = 0;
    while i < allowed.len()
        invariant
            i <= allowed@.len(),
            av == rendered_of(allowed@),
            av.len() == allowed@.len(),
            forall|j: int| 0 <= j < i ==> av[j] != s@,
        decreases allowed@.len() - i,
    {
        if str_eq(allowed[i].as_str(), s) {
            proof {
                assert(av[i as int] == allowed@[i as int]@);
                assert(av.contains(s@));
            }
            return true;
        }
        proof {
            assert(av[i as int] == allowed@[i as int]@);
        }
        i += 1;
    }
    proof {
        if av.contains(s@) {
            let w = choose|j: int| 0 <= j < av.len() && av[j] == s@;
            assert(av[w] != s@);
        }
    }
    false
}

/// The walker that checks every call of an expression against the allowed
/// names.  Once a disallowed call is found it stays aborted.
pub struct CheckFnCall {
    /// The allowed names, rendered with `::`.
    pub allowed: Vec<String>,
    /// The rendered path of the impl type, for `Self` and method calls.
    pub self_segs: Option<Path>,
    /// Whether a disallowed call was found.
    pub aborted: bool,
}

impl CheckFnCall {
    /// Create a walker over the given allowed names and self type.
    pub fn new(fn_list: &Vec<String>, self_ty: Option<&crate::types::Type>) -> (r: CheckFnCall)
        requires
            match self_ty {
                Some(t) => crate::types::type_wf(t@),
                None => true,
            },
        ensures
            r.allowed@ == fn_list@,
            !r.aborted,
            match self_ty {
                Some(t) => self_segs_of(&r.self_segs) == Some(crate::types::rendered_segs(t@)),
                None => r.self_segs is None,
            },
    {
        let mut allowed: Vec<String> = Vec::new();
        let mut i: usize = 0;
        while i < fn_list.len()
            invariant
                i <= fn_list@.len(),
                allowed@.len() == i,
                forall|j: int| 0 <= j < i ==> allowed@[j] == fn_list@[j],
            decreases fn_list@.len() - i,
        {
            allowed.push(fn_list[i].clone());
            i += 1;
        }
        proof {
            assert(allowed@ =~= fn_list@);
        }
        let self_segs = match self_ty {
            Some(t) => Some(t.as_path()),
            None => None,
        };
        CheckFnCall { allowed, self_segs, aborted: false }
    }

    /// Walk the expression; aborted becomes and stays set exactly when some
    /// call is not admissible.
    #[verifier::loop_isolation(false)]
    pub fn visit_expr(&mut self, e: &Expr)
        ensures
            final(self).aborted == (old(self).aborted || !calls_allowed(
                e@,
                rendered_of(old(self).allowed@),
                self_segs_of(&old(self).self_segs),
            )),
            final(self).allowed == old(self).allowed,
            final(self).self_segs == old(self).self_segs,
        decreases *e,
    {
        let ghost allowedv = rendered_of(self.allowed@);
        let ghost selfv = self_segs_of(&self.self_segs);
        match e {
            Expr::Lit(_) => {},
            Expr::Path(_) => {},
            Expr::Index(ix) => {
                self.visit_expr(&*ix.base);
                self.visit_expr(&*ix.index);
            },
            Expr::Cast(c) => {
                self.visit_expr(&*c.expr);
            },
            Expr::Field(f) => {
                self.visit_expr(&*f.base);
            },
            Expr::Binary(b) => {
                self.visit_expr(&*b.left);
                self.visit_expr(&*b.right);
            },
            Expr::Unary(u) => {
                self.visit_expr(&*u.expr);
            },
            Expr::Call(c) => {
                proof {
                    reveal_strlit("spec_");
                    reveal_strlit("Self");
                    assert("spec_"@ =~= spec_marker());
                    assert("Self"@ =~= self_marker());
                }
                let n = c.func.path.0.len();
                if n == 0 {
                    self.aborted = true;
                    return;
                }
                let last = &c.func.path.0[n - 1];
                if starts_with_str(last.as_str(), "spec_") {
                    self.visit_args(&c.args);
                    proof {
                        lemma_expr_views(c.args@);
                    }
                    return;
                }
                let ok: bool;
                if str_eq(c.func.path.0[0].as_str(), "Self") {
                    match &self.self_segs {
                        None => {
                            self.aborted = true;
                            proof {
                                assert(!callee_ok(c.func.path@, allowedv, selfv));
                            }
                            return;
                        },
                        Some(sp) => {
                            let mut full = crate::path::clone_segments(&sp.0);
                            let mut k: usize = 1;
                            while k < n
                                invariant
                                    1 <= k <= n,
                                    n == c.func.path.0@.len(),
                                    full@.map_values(|s: String| s@) =~= sp@ + c.func.path@.subrange(
                                        1,
                                        k as int,
                                    ),
                                decreases n - k,
                            {
                                let ghost prevmap = full@.map_values(|s: String| s@);
                                full.push(c.func.path.0[k].clone());
                                proof {
                                    assert(full@.map_values(|s: String| s@) =~= prevmap.push(
                                        c.func.path.0@[k as int]@,
                                    ));
                                    assert(c.func.path@[k as int] == c.func.path.0@[k as int]@);
                                    assert(c.func.path@.subrange(1, k + 1)
                                        =~= c.func.path@.subrange(1, k as int).push(
                                        c.func.path@[k as int],
                                    ));
                                    assert(full@.map_values(|s: String| s@) =~= sp@
                                        + c.func.path@.subrange(1, k + 1));
                                }
                                k += 1;
                            }
                            proof {
                                assert(c.func.path@.subrange(1, n as int) =~= c.func.path@.drop_first());
                            }
                            let rendered = crate::path::join_segments(&full, "::");
                            proof {
                                reveal_strlit("::");
                                assert("::"@ =~= sep_path());
                            }
                            ok = contains_rendered(&self.allowed, rendered.as_str());
                        },
                    }
                } else {
                    let rendered = c.func.path.to_string();
                    ok = contains_rendered(&self.allowed, rendered.as_str());
                }
                if !ok {
                    self.aborted = true;
                    return;
                }
                self.visit_args(&c.args);
                proof {
                    lemma_expr_views(c.args@);
                }
            },
            Expr::MethodCall(m) => {
                proof {
                    reveal_strlit("spec_");
                    assert("spec_"@ =~= spec_marker());
                }
                if starts_with_str(m.method.as_str(), "spec_") {
                    self.visit_expr(&*m.receiver);
                    self.visit_args(&m.args);
                    return;
                }
                match &self.self_segs {
                    None => {
                        self.aborted = true;
                    },
                    Some(sp) => {
                        let full = sp.duplicate().join(m.method.clone());
                        let rendered = full.to_string();
                        proof {
                            assert(full@ =~= sp@.push(m.method@));
                        }
                        let ok = contains_rendered(&self.allowed, rendered.as_str());
                        if !ok {
                            self.aborted = true;
                            return;
                        }
                        self.visit_expr(&*m.receiver);
                        self.visit_args(&m.args);
                    },
                }
            },
        }
    }

    /// Walk every argument.
    #[verifier::loop_isolation(false)]
    pub fn visit_args(&mut self, args: &Vec<Expr>)
        ensures
            final(self).aborted == (old(self).aborted || !args_allowed(
                expr_views(args@),
                rendered_of(old(self).allowed@),
                self_segs_of(&old(self).self_segs),
            )),
            final(self).allowed == old(self).allowed,
            final(self).self_segs == old(self).self_segs,
        decreases *args,
    {
        let ghost allowedv = rendered_of(self.allowed@);
        let ghost selfv = self_segs_of(&self.self_segs);
        let ghost argsv = expr_views(args@);
        let ghost aborted0 = self.aborted;
        proof {
            lemma_expr_views(args@);
            lemma_args_allowed(argsv, allowedv, selfv);
        }
        let mut i: usize = 0;
        while i < args.len()
            invariant
                i <= args@.len(),
                self.allowed == old(self).allowed,
                self.self_segs == old(self).self_segs,
                self.aborted == (aborted0 || exists|j: int|
                    0 <= j < i && !calls_allowed(#[trigger] argsv[j], allowedv, selfv)),
            decreases args@.len() - i,
        {
            proof {
                assert(decreases_to!(*args => args[i as int]));
                assert(args@[i as int]@ == argsv[i as int]);
            }
            let ghost before = self.aborted;
            self.visit_expr(&args[i]);
            proof {
                if self.aborted && !before {
                    assert(!calls_allowed(argsv[i as int], allowedv, selfv));
                }
                if !self.aborted {
                    assert(calls_allowed(argsv[i as int], allowedv, selfv));
                    assert forall|j: int|
                        0 <= j < i + 1 implies calls_allowed(
                        #[trigger] argsv[j],
                        allowedv,
                        selfv,
                    ) || self.aborted by {}
                }
            }
            i += 1;
        }
        proof {
            lemma_args_allowed(argsv, allowedv, selfv);
        }
    }
}

/// An explicit deep copy of an expression.
pub fn duplicate_expr(e: &Expr) -> (r: Expr)
    ensures
        r@ == e@,
    decreases *e,
{
    match e {
        Expr::Lit(ExprLit::Bool(b)) => Expr::Lit(ExprLit::Bool(*b)),
        Expr::Lit(ExprLit::Int(i)) => Expr::Lit(ExprLit::Int(*i)),
        Expr::Lit(ExprLit::Str(s)) => Expr::Lit(ExprLit::Str(s.clone())),
        Expr::Path(p) => Expr::Path(ExprPath { path: p.path.duplicate() }),
        Expr::Index(ix) => Expr::Index(
            ExprIndex {
                base: Box::new(duplicate_expr(&*ix.base)),
                index: Box::new(duplicate_expr(&*ix.index)),
            },
        ),
        Expr::Cast(c) => Expr::Cast(
            ExprCast { expr: Box::new(duplicate_expr(&*c.expr)), to_type: c.to_type.clone() },
        ),
        Expr::Field(f) => Expr::Field(
            ExprField { base: Box::new(duplicate_expr(&*f.base)), field: f.field.clone() },
        ),
        Expr::Binary(b) => Expr::Binary(
            ExprBinary {
                op: b.op,
                left: Box::new(duplicate_expr(&*b.left)),
                right: Box::new(duplicate_expr(&*b.right)),
            },
        ),
        Expr::Unary(u) => Expr::Unary(
            ExprUnary { op: u.op, expr: Box::new(duplicate_expr(&*u.expr)) },
        ),
        Expr::Call(c) => {
            let mut args: Vec<Expr> = Vec::new();
            let mut i: usize = 0;
            while i < c.args.len()
                invariant
                    i <= c.args@.len(),
                    *e is Call && e->Call_0 == *c,
                    args@.len() == i,
                    forall|j: int| 0 <= j < i ==> (#[trigger] args@[j])@ == c.args@[j]@,
                decreases c.args@.len() - i,
            {
                proof {
                    assert(decreases_to!(*e => (*e)->Call_0));
                    assert(decreases_to!(*c => c.args));
                    assert(decreases_to!(c.args => c.args[i as int]));
                }
                let a = duplicate_expr(&c.args[i]);
                args.push(a);
                i += 1;
            }
            let r = Expr::Call(
                ExprCall { func: ExprPath { path: c.func.path.duplicate() }, args },
            );
            proof {
                lemma_expr_views(args@);
                lemma_expr_views(c.args@);
                assert forall|j: int|
                    0 <= j < args@.len() implies expr_views(args@)[j] == expr_views(c.args@)[j]
                    by {
                    assert(expr_views(args@)[j] == args@[j]@);
                    assert(expr_views(c.args@)[j] == c.args@[j]@);
                }
                assert(expr_views(args@) =~= expr_views(c.args@));
            }
            r
        },
        Expr::MethodCall(m) => {
            let recv = duplicate_expr(&*m.receiver);
            let mut args: Vec<Expr> = Vec::new();
            let mut i: usize = 0;
            while i < m.args.len()
                invariant
                    i <= m.args@.len(),
                    *e is MethodCall && e->MethodCall_0 == *m,
                    args@.len() == i,
                    forall|j: int| 0 <= j < i ==> (#[trigger] args@[j])@ == m.args@[j]@,
                decreases m.args@.len() - i,
            {
                proof {
                    assert(decreases_to!(*e => (*e)->MethodCall_0));
                    assert(decreases_to!(*m => m.args));
                    assert(decreases_to!(m.args => m.args[i as int]));
                }
                let a = duplicate_expr(&m.args[i]);
                args.push(a);
                i += 1;
            }
            let r = Expr::MethodCall(
                ExprMethodCall { receiver: Box::new(recv), method: m.method.clone(), args },
            );
            proof {
                lemma_expr_views(args@);
                lemma_expr_views(m.args@);
                assert forall|j: int|
                    0 <= j < args@.len() implies expr_views(args@)[j] == expr_views(m.args@)[j]
                    by {
                    assert(expr_views(args@)[j] == args@[j]@);
                    assert(expr_views(m.args@)[j] == m.args@[j]@);
                }
                assert(expr_views(args@) =~= expr_views(m.args@));
            }
            r
        },
    }
}

} // verus!
