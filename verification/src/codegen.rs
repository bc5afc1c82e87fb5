//! Emission of executable checkers from the reduced grammar.
//!
//! Each surviving spec function becomes an executable function with the
//! same body; each surviving precondition becomes a boolean checker that
//! tests its clauses in order and returns false on the first failure.  The
//! emitted text is specified exactly, character by character.

use vstd::prelude::*;

verus! {

use crate::ast::Block;
use crate::ast::BinaryOp;
use crate::ast::Expr;
use crate::ast::ExprLit;
use crate::ast::ExprV;
use crate::ast::UnaryOp;
use crate::ast::block_views;
use crate::ast::expr_views;
use crate::ast::lemma_block_views;
use crate::ast::lemma_expr_views;
use crate::path::Path;
use crate::path::join_with;
use crate::path::sep_path;
use crate::path::sep_ident;
use crate::text::int_code;
use crate::text::i128_to_string;
use crate::translate::calls_allowed;
use crate::translate::rendered_of;
use crate::translate::CheckFnCall;
use crate::types::Type;
use crate::types::TypeV;
use crate::types::rendered_segs;
use crate::types::type_wf;
use vstd::string::StrSliceExecFns;
use vstd::string::StringExecFns;

broadcast use vstd::std_specs::vec::group_vec_axioms;

/// The rendered text of a binary operator, with surrounding spaces.
pub open spec fn op_code(op: BinaryOp) -> Seq<char> {
    match op {
        BinaryOp::Add => " + "@,
        BinaryOp::Sub => " - "@,
        BinaryOp::Mul => " * "@,
        BinaryOp::Div => " / "@,
        BinaryOp::Mod => " % "@,
        BinaryOp::Lt => " < "@,
        BinaryOp::Le => " <= "@,
        BinaryOp::Eq => " == "@,
        BinaryOp::Ne => " != "@,
        BinaryOp::Gt => " > "@,
        BinaryOp::Ge => " >= "@,
        BinaryOp::And => " && "@,
        BinaryOp::Or => " || "@,
        BinaryOp::Imply => " || "@,
    }
}

/// The emitted code of an expression.  Implication is lowered to
/// `(!a || b)`; every compound expression is parenthesized.
pub open spec fn code_of(e: ExprV) -> Seq<char>
    decreases e,
{
    match e {
        ExprV::Lit(l) => match l {
            crate::ast::LitV::Bool(b) => if b {
                "true"@
            } else {
                "false"@
            },
            crate::ast::LitV::Int(i) => int_code(i),
            crate::ast::LitV::Str(s) => seq!['"'] + s + seq!['"'],
        },
        ExprV::Path(p) => join_with(p, sep_path()),
        ExprV::Index(b, x) => seq!['('] + code_of(*b) + seq!['['] + code_of(*x) + seq![']', ')'],
        ExprV::Cast(x, t) => seq!['('] + code_of(*x) + " as "@ + t + seq![')'],
        ExprV::Field(b, f) => seq!['('] + code_of(*b) + seq!['.'] + f + seq![')'],
        ExprV::Binary(op, l, r) => {
            if op is Imply {
                seq!['(', '!'] + code_of(*l) + " || "@ + code_of(*r) + seq![')']
            } else {
                seq!['('] + code_of(*l) + op_code(op) + code_of(*r) + seq![')']
            }
        },
        ExprV::Unary(op, x) => seq!['(', '!'] + code_of(*x) + seq![')'],
        ExprV::Call(p, args) => join_with(p, sep_path()) + seq!['('] + code_args(args) + seq![
            ')',
        ],
        ExprV::MethodCall(r, m, args) => code_of(*r) + seq!['.'] + m + seq!['('] + code_args(args)
            + seq![')'],
    }
}

/// The comma-joined code of an argument list.
pub open spec fn code_args(args: Seq<ExprV>) -> Seq<char>
    decreases args,
{
    if args.len() == 0 {
        Seq::empty()
    } else if args.len() == 1 {
        code_of(args[0])
    } else {
        code_args(args.drop_last()) + ", "@ + code_of(args.last())
    }
}

/// Emit the code of an expression.
#[verifier::loop_isolation(false)]
pub fn code_of_expr(e: &Expr) -> (r: String)
    ensures
        r@ == code_of(e@),
    decreases *e,
{
    match e {
        Expr::Lit(ExprLit::Bool(b)) => {
            if *b {
                "true".to_owned()
            } else {
                "false".to_owned()
            }
        },
        Expr::Lit(ExprLit::Int(i)) => i128_to_string(*i),
        Expr::Lit(ExprLit::Str(s)) => {
            proof {
                reveal_strlit("\"");
                assert("\""@ =~= seq!['"']);
            }
            let mut r = String::new();
            r.append("\"");
            r.append(s.as_str());
            r.append("\"");
            proof {
                assert(r@ =~= seq!['"'] + s@ + seq!['"']);
            }
            r
        },
        Expr::Path(p) => p.path.to_string(),
        Expr::Index(ix) => {
            proof {
                reveal_strlit("(");
                reveal_strlit("[");
                reveal_strlit("])");
            }
            let b = code_of_expr(&*ix.base);
            let x = code_of_expr(&*ix.index);
            let mut r = String::new();
            r.append("(");
            r.append(b.as_str());
            r.append("[");
            r.append(x.as_str());
            r.append("])");
            proof {
                assert("("@ =~= seq!['(']);
                assert("["@ =~= seq!['[']);
                assert("])"@ =~= seq![']', ')']);
                assert(r@ =~= code_of(e@));
            }
            r
        },
        Expr::Cast(c) => {
            proof {
                reveal_strlit("(");
                reveal_strlit(" as ");
                reveal_strlit(")");
            }
            let x = code_of_expr(&*c.expr);
            let mut r = String::new();
            r.append("(");
            r.append(x.as_str());
            r.append(" as ");
            r.append(c.to_type.as_str());
            r.append(")");
            proof {
                assert("("@ =~= seq!['(']);
                assert(")"@ =~= seq![')']);
                assert(r@ =~= code_of(e@));
            }
            r
        },
        Expr::Field(f) => {
            proof {
                reveal_strlit("(");
                reveal_strlit(".");
                reveal_strlit(")");
            }
            let b = code_of_expr(&*f.base);
            let mut r = String::new();
            r.append("(");
            r.append(b.as_str());
            r.append(".");
            r.append(f.field.as_str());
            r.append(")");
            proof {
                assert("("@ =~= seq!['(']);
                assert("."@ =~= seq!['.']);
                assert(")"@ =~= seq![')']);
                assert(r@ =~= code_of(e@));
            }
            r
        },
        Expr::Binary(b) => {
            proof {
                reveal_strlit("(");
                reveal_strlit("(!");
                reveal_strlit(")");
                reveal_strlit(" + ");
                reveal_strlit(" - ");
                reveal_strlit(" * ");
                reveal_strlit(" / ");
                reveal_strlit(" % ");
                reveal_strlit(" < ");
                reveal_strlit(" <= ");
                reveal_strlit(" == ");
                reveal_strlit(" != ");
                reveal_strlit(" > ");
                reveal_strlit(" >= ");
                reveal_strlit(" && ");
                reveal_strlit(" || ");
            }
            let l = code_of_expr(&*b.left);
            let x = code_of_expr(&*b.right);
            let mut r = String::new();
            match b.op {
                BinaryOp::Imply => {
                    r.append("(!");
                    r.append(l.as_str());
                    r.append(" || ");
                },
                _ => {
                    r.append("(");
                    r.append(l.as_str());
                    match b.op {
                        BinaryOp::Add => r.append(" + "),
                        BinaryOp::Sub => r.append(" - "),
                        BinaryOp::Mul => r.append(" * "),
                        BinaryOp::Div => r.append(" / "),
                        BinaryOp::Mod => r.append(" % "),
                        BinaryOp::Lt => r.append(" < "),
                        BinaryOp::Le => r.append(" <= "),
                        BinaryOp::Eq => r.append(" == "),
                        BinaryOp::Ne => r.append(" != "),
                        BinaryOp::Gt => r.append(" > "),
                        BinaryOp::Ge => r.append(" >= "),
                        BinaryOp::And => r.append(" && "),
                        BinaryOp::Or => r.append(" || "),
                        BinaryOp::Imply => r.append(" || "),
                    }
                },
            }
            r.append(x.as_str());
            r.append(")");
            proof {
                assert("("@ =~= seq!['(']);
                assert("(!"@ =~= seq!['(', '!']);
                assert(")"@ =~= seq![')']);
                assert(r@ =~= code_of(e@));
            }
            r
        },
        Expr::Unary(u) => {
            proof {
                reveal_strlit("(!");
                reveal_strlit(")");
            }
            let x = code_of_expr(&*u.expr);
            let mut r = String::new();
            r.append("(!");
            r.append(x.as_str());
            r.append(")");
            proof {
                assert("(!"@ =~= seq!['(', '!']);
                assert(")"@ =~= seq![')']);
                assert(r@ =~= code_of(e@));
            }
            r
        },
        Expr::Call(c) => {
            proof {
                reveal_strlit("(");
                reveal_strlit(")");
            }
            let f = c.func.path.to_string();
            let a = code_of_args(&c.args);
            let mut r = String::new();
            r.append(f.as_str());
            r.append("(");
            r.append(a.as_str());
            r.append(")");
            proof {
                assert("("@ =~= seq!['(']);
                assert(")"@ =~= seq![')']);
                assert(r@ =~= code_of(e@));
            }
            r
        },
        Expr::MethodCall(m) => {
            proof {
                reveal_strlit(".");
                reveal_strlit("(");
                reveal_strlit(")");
            }
            let b = code_of_expr(&*m.receiver);
            let a = code_of_args(&m.args);
            let mut r = String::new();
            r.append(b.as_str());
            r.append(".");
            r.append(m.method.as_str());
            r.append("(");
            r.append(a.as_str());
            r.append(")");
            proof {
                assert("."@ =~= seq!['.']);
                assert("("@ =~= seq!['(']);
                assert(")"@ =~= seq![')']);
                assert(r@ =~= code_of(e@));
            }
            r
        },
    }
}

/// Emit the comma-joined code of an argument list.
#[verifier::loop_isolation(false)]
pub fn code_of_args(args: &Vec<Expr>) -> (r: String)
    ensures
        r@ == code_args(expr_views(args@)),
    decreases *args,
{
    let ghost argsv = expr_views(args@);
    proof {
        lemma_expr_views(args@);
    }
    let mut r = String::new();
    if args.len() == 0 {
        return r;
    }
    proof {
        assert(decreases_to!(*args => args[0int]));
    }
    let first = code_of_expr(&args[0]);
    r.append(first.as_str());
    proof {
        assert(argsv.take(1).len() == 1);
        assert(argsv.take(1)[0] == argsv[0]);
        assert(r@ == code_args(argsv.take(1)));
    }
    let mut i: usize = 1;
    while i < args.len()
        invariant
            1 <= i <= args@.len(),
            r@ == code_args(argsv.take(i as int)),
        decreases args@.len() - i,
    {
        proof {
            reveal_strlit(", ");
            assert(decreases_to!(*args => args[i as int]));
        }
        let x = code_of_expr(&args[i]);
        r.append(", ");
        r.append(x.as_str());
        proof {
            lemma_code_args_snoc(argsv.take(i as int + 1));
            assert(argsv.take(i as int + 1).drop_last() =~= argsv.take(i as int));
            assert(r@ =~= code_args(argsv.take(i as int + 1)));
        }
        i += 1;
    }
    proof {
        assert(argsv.take(argsv.len() as int) =~= argsv);
    }
    r
}

/// The code of a non-singleton argument list extends by `", "` and the last
/// argument's code.
pub proof fn lemma_code_args_snoc(args: Seq<ExprV>)
    requires
        args.len() >= 2,
    ensures
        code_args(args) =~= code_args(args.drop_last()) + ", "@ + code_of(args.last()),
{
}

/// The code of a block: the item codes joined by `"; "` between braces.
pub open spec fn block_code(items: Seq<ExprV>) -> Seq<char> {
    "{ "@ + block_join(items) + " }"@
}

/// The item codes joined by `"; "`.
pub open spec fn block_join(items: Seq<ExprV>) -> Seq<char>
    decreases items,
{
    if items.len() == 0 {
        Seq::empty()
    } else if items.len() == 1 {
        code_of(items[0])
    } else {
        block_join(items.drop_last()) + "; "@ + code_of(items.last())
    }
}

/// Emit the code of a block.
#[verifier::loop_isolation(false)]
pub fn code_of_block(b: &Block) -> (r: String)
    ensures
        r@ == block_code(b@),
{
    let ghost itemsv = b@;
    proof {
        lemma_block_views(b.items@);
        reveal_strlit("{ ");
        reveal_strlit(" }");
    }
    let mut r = String::new();
    r.append("{ ");
    let mut i: usize = 0;
    while i < b.items.len()
        invariant
            i <= b.items@.len(),
            itemsv == block_views(b.items@),
            itemsv.len() == b.items@.len(),
            r@ == "{ "@ + block_join(itemsv.take(i as int)),
        decreases b.items@.len() - i,
    {
        proof {
            reveal_strlit("; ");
        }
        let code = match &b.items[i] {
            crate::ast::BlockItem::Expr(e) => code_of_expr(e),
        };
        if i > 0 {
            r.append("; ");
        }
        r.append(code.as_str());
        proof {
            if i == 0 {
                assert(itemsv.take(1).len() == 1);
                assert(itemsv.take(1)[0] == itemsv[0]);
                assert(r@ =~= "{ "@ + block_join(itemsv.take(1)));
            } else {
                assert(itemsv.take(i as int + 1).drop_last() =~= itemsv.take(i as int));
                assert(r@ =~= "{ "@ + block_join(itemsv.take(i as int + 1)));
            }
        }
        i += 1;
    }
    r.append(" }");
    proof {
        assert(itemsv.take(itemsv.len() as int) =~= itemsv);
        assert(r@ =~= block_code(itemsv));
    }
    r
}

/// A free-standing spec function to emit executably: its name, rendered
/// parameter list, rendered return type and body.
pub struct SpecFunction {
    /// Fully qualified name.
    pub name: Path,
    /// The rendered parameter list.
    pub inputs: String,
    /// The rendered return type, absent for the default return.
    pub output: Option<String>,
    /// The body in the reduced grammar.
    pub body: Block,
}

/// A spec method of an impl block.
pub struct SpecMethod {
    /// The rendered impl generics, empty when absent.
    pub generics: String,
    /// The impl type.
    pub impl_type: Type,
    /// The method identifier.
    pub ident: String,
    /// The rendered parameter list.
    pub inputs: String,
    /// The rendered return type, absent for the default return.
    pub output: Option<String>,
    /// The body in the reduced grammar.
    pub body: Block,
}

/// The preconditions of a free-standing function.
pub struct FunctionPrecond {
    /// Fully qualified name of the function.
    pub name: Path,
    /// The rendered parameter list.
    pub inputs: String,
    /// The precondition clauses.
    pub requires: Vec<Expr>,
}

/// The preconditions of an impl method.
pub struct MethodPrecond {
    /// The rendered impl generics, empty when absent.
    pub generics: String,
    /// The impl type.
    pub impl_type: Type,
    /// The method identifier.
    pub ident: String,
    /// The rendered parameter list.
    pub inputs: String,
    /// The precondition clauses.
    pub requires: Vec<Expr>,
}

/// A precondition declared on a trait method, before expansion over the
/// implementing types.
pub struct TraitPrecond {
    /// Fully qualified trait name.
    pub trait_name: Path,
    /// The method identifier.
    pub ident: String,
    /// The rendered parameter list.
    pub inputs: String,
    /// The precondition clauses.
    pub requires: Vec<Expr>,
}

/// One trait impl: which trait is implemented, with which impl generics,
/// for which type.
pub struct TraitImpl {
    /// Fully qualified trait name.
    pub trait_name: Path,
    /// The rendered impl generics, empty when absent.
    pub generics: String,
    /// The implementing type.
    pub impl_type: Type,
}

/// The value of one expanded method precondition.
pub struct ExpandedPrecondV {
    /// The rendered impl generics.
    pub generics: Seq<char>,
    /// The impl type value.
    pub impl_type: TypeV,
    /// The method identifier.
    pub ident: Seq<char>,
    /// The rendered parameter list.
    pub inputs: Seq<char>,
    /// The precondition clause values.
    pub requires: Seq<ExprV>,
}

/// The value of a method precondition.
pub open spec fn method_precond_view(m: MethodPrecond) -> ExpandedPrecondV {
    ExpandedPrecondV {
        generics: m.generics@,
        impl_type: m.impl_type@,
        ident: m.ident@,
        inputs: m.inputs@,
        requires: expr_views(m.requires@),
    }
}

/// The values of a list of method preconditions.
pub open spec fn method_precond_views(ms: Seq<MethodPrecond>) -> Seq<ExpandedPrecondV> {
    ms.map_values(|m: MethodPrecond| method_precond_view(m))
}

/// One trait precondition expanded over the impls: a method precondition
/// for every impl of its trait, in impl order.
pub open spec fn expand_one(p: TraitPrecond, is: Seq<TraitImpl>) -> Seq<ExpandedPrecondV>
    decreases is,
{
    if is.len() == 0 {
        Seq::empty()
    } else {
        let r = expand_one(p, is.drop_last());
        if is.last().trait_name@ == p.trait_name@ {
            r.push(
                ExpandedPrecondV {
                    generics: is.last().generics@,
                    impl_type: is.last().impl_type@,
                    ident: p.ident@,
                    inputs: p.inputs@,
                    requires: expr_views(p.requires@),
                },
            )
        } else {
            r
        }
    }
}

/// All trait preconditions expanded over the impls, in declaration order.
pub open spec fn expand_all(ps: Seq<TraitPrecond>, is: Seq<TraitImpl>) -> Seq<ExpandedPrecondV>
    decreases ps,
{
    if ps.len() == 0 {
        Seq::empty()
    } else {
        expand_all(ps.drop_last(), is) + expand_one(ps.last(), is)
    }
}

/// Copy the clauses of one precondition.
fn duplicate_exprs(v: &Vec<Expr>) -> (r: Vec<Expr>)
    ensures
        expr_views(r@) == expr_views(v@),
{
    let mut r: Vec<Expr> = Vec::new();
    let mut i: usize = 0;
    while i < v.len()
        invariant
            i <= v@.len(),
            r@.len() == i,
            forall|k: int| 0 <= k < i ==> (#[trigger] r@[k])@ == v@[k]@,
        decreases v@.len() - i,
    {
        let copy = crate::translate::duplicate_expr(&v[i]);
        r.push(copy);
        i += 1;
    }
    proof {
        lemma_expr_views(r@);
        lemma_expr_views(v@);
        assert forall|k: int| 0 <= k < expr_views(r@).len() implies expr_views(r@)[k]
            == expr_views(v@)[k] by {
            assert(expr_views(r@)[k] == r@[k]@);
            assert(expr_views(v@)[k] == v@[k]@);
        }
        assert(expr_views(r@) =~= expr_views(v@));
    }
    r
}

/// Expand the trait-method preconditions over the trait impls: a method
/// whose trait carries a precondition receives that precondition at every
/// type the trait is implemented for, with the impl block's generics.
#[verifier::loop_isolation(false)]
pub fn expand_trait_preconds(preconds: &Vec<TraitPrecond>, impls: &Vec<TraitImpl>) -> (r: Vec<
    MethodPrecond,
>)
    ensures
        method_precond_views(r@) == expand_all(preconds@, impls@),
{
    let mut r: Vec<MethodPrecond> = Vec::new();
    let mut i: usize = 0;
    while i < preconds.len()
        invariant
            i <= preconds@.len(),
            method_precond_views(r@) == expand_all(preconds@.take(i as int), impls@),
        decreases preconds@.len() - i,
    {
        let p = &preconds[i];
        let mut j: usize = 0;
        while j < impls.len()
            invariant
                i < preconds@.len(),
                j <= impls@.len(),
                p == &preconds@[i as int],
                method_precond_views(r@) == expand_all(preconds@.take(i as int), impls@)
                    + expand_one(preconds@[i as int], impls@.take(j as int)),
            decreases impls@.len() - j,
        {
            let im = &impls[j];
            let ghost prev = r@;
            proof {
                assert(impls@.take(j as int + 1).drop_last() =~= impls@.take(j as int));
                assert(impls@.take(j as int + 1).last() == impls@[j as int]);
            }
            if im.trait_name.same_as(&p.trait_name) {
                let reqs = duplicate_exprs(&p.requires);
                let mp = MethodPrecond {
                    generics: im.generics.clone(),
                    impl_type: im.impl_type.duplicate(),
                    ident: p.ident.clone(),
                    inputs: p.inputs.clone(),
                    requires: reqs,
                };
                r.push(mp);
                proof {
                    let newv = (ExpandedPrecondV {
                        generics: impls@[j as int].generics@,
                        impl_type: impls@[j as int].impl_type@,
                        ident: preconds@[i as int].ident@,
                        inputs: preconds@[i as int].inputs@,
                        requires: expr_views(preconds@[i as int].requires@),
                    });
                    assert(method_precond_view(r@[r@.len() - 1]) == newv);
                    let lhs = method_precond_views(r@);
                    let rhs = expand_all(preconds@.take(i as int), impls@) + expand_one(
                        preconds@[i as int],
                        impls@.take(j as int + 1),
                    );
                    assert(expand_one(preconds@[i as int], impls@.take(j as int + 1))
                        == expand_one(preconds@[i as int], impls@.take(j as int)).push(newv));
                    assert(lhs.len() == rhs.len());
                    assert forall|k: int| 0 <= k < lhs.len() implies lhs[k] == rhs[k] by {
                        if k < prev.len() {
                            assert(lhs[k] == method_precond_view(r@[k]));
                            assert(r@[k] == prev[k]);
                            assert(method_precond_views(prev)[k] == method_precond_view(prev[k]));
                        } else {
                            assert(lhs[k] == method_precond_view(r@[k]));
                        }
                    }
                    assert(lhs =~= rhs);
                }
            } else {
                proof {
                    assert(method_precond_views(r@) =~= expand_all(
                        preconds@.take(i as int),
                        impls@,
                    ) + expand_one(preconds@[i as int], impls@.take(j as int + 1)));
                }
            }
            j += 1;
        }
        proof {
            assert(impls@.take(impls@.len() as int) =~= impls@);
            assert(preconds@.take(i as int + 1).drop_last() =~= preconds@.take(i as int));
            assert(preconds@.take(i as int + 1).last() == preconds@[i as int]);
            assert(method_precond_views(r@) =~= expand_all(preconds@.take(i as int + 1), impls@));
        }
        i += 1;
    }
    proof {
        assert(preconds@.take(preconds@.len() as int) =~= preconds@);
    }
    r
}

impl SpecMethod {
    /// The fully qualified rendered name of the method.
    pub open spec fn spec_name(&self) -> Seq<char> {
        join_with(rendered_segs(self.impl_type@).push(self.ident@), sep_path())
    }
}

impl MethodPrecond {
    /// The fully qualified rendered name of the method.
    pub open spec fn spec_name(&self) -> Seq<char> {
        join_with(rendered_segs(self.impl_type@).push(self.ident@), sep_path())
    }

    /// The fully qualified name of the method.
    pub fn name(&self) -> (r: Path)
        requires
            type_wf(self.impl_type@),
        ensures
            join_with(r@, sep_path()) == self.spec_name(),
            r@ == rendered_segs(self.impl_type@).push(self.ident@),
    {
        self.impl_type.as_path().join(self.ident.clone())
    }
}

impl SpecFunction {
    /// The rendered name of the function.
    pub open spec fn spec_name(&self) -> Seq<char> {
        join_with(self.name@, sep_path())
    }
}

/// Whether every item of a block makes only admissible calls.
pub open spec fn block_allowed(
    items: Seq<ExprV>,
    allowed: Seq<Seq<char>>,
    self_segs: Option<Seq<Seq<char>>>,
) -> bool {
    forall|i: int| 0 <= i < items.len() ==> calls_allowed(#[trigger] items[i], allowed, self_segs)
}

/// Whether a block makes only admissible calls.
#[verifier::loop_isolation(false)]
pub fn block_generatable(b: &Block, allowed: &Vec<String>, self_ty: Option<&Type>) -> (r: bool)
    requires
        match self_ty {
            Some(t) => type_wf(t@),
            None => true,
        },
    ensures
        r == block_allowed(
            b@,
            rendered_of(allowed@),
            match self_ty {
                Some(t) => Some(rendered_segs(t@)),
                None => None,
            },
        ),
{
    let ghost allowedv = rendered_of(allowed@);
    let ghost selfv = match self_ty {
        Some(t) => Some(rendered_segs(t@)),
        None => None,
    };
    let ghost itemsv = b@;
    proof {
        lemma_block_views(b.items@);
    }
    let mut checker = CheckFnCall::new(allowed, self_ty);
    let mut i: usize = 0;
    while i < b.items.len()
        invariant
            i <= b.items@.len(),
            itemsv == block_views(b.items@),
            itemsv.len() == b.items@.len(),
            checker.allowed@ == allowed@,
            crate::translate::self_segs_of(&checker.self_segs) == selfv,
            checker.aborted == exists|j: int|
                0 <= j < i && !calls_allowed(#[trigger] itemsv[j], allowedv, selfv),
        decreases b.items@.len() - i,
    {
        let ghost before = checker.aborted;
        match &b.items[i] {
            crate::ast::BlockItem::Expr(e) => {
                proof {
                    lemma_block_views(b.items@);
                    assert(b.items@[i as int]@ == itemsv[i as int]);
                }
                checker.visit_expr(e);
            },
        }
        proof {
            assert(checker.aborted == (before || !calls_allowed(
                itemsv[i as int],
                allowedv,
                selfv,
            )));
            if checker.aborted {
                if before {
                    let w = choose|j: int|
                        0 <= j < i && !calls_allowed(#[trigger] itemsv[j], allowedv, selfv);
                    assert(0 <= w < i + 1 && !calls_allowed(itemsv[w], allowedv, selfv));
                } else {
                    assert(!calls_allowed(itemsv[i as int], allowedv, selfv));
                }
            } else {
                assert(forall|j: int|
                    !(0 <= j < i + 1 && !calls_allowed(#[trigger] itemsv[j], allowedv, selfv)));
            }
        }
        i += 1;
    }
    proof {
        if checker.aborted {
            let w = choose|j: int|
                0 <= j < itemsv.len() && !calls_allowed(#[trigger] itemsv[j], allowedv, selfv);
            assert(!block_allowed(itemsv, allowedv, selfv));
        }
    }
    !checker.aborted
}

/// Remove every copy of `name` from the list.
pub fn remove_name(v: &Vec<String>, name: &str) -> (r: Vec<String>)
    ensures
        forall|x: Seq<char>|
            rendered_of(r@).contains(x) == (rendered_of(v@).contains(x) && x != name@),
        r@.len() <= v@.len(),
        !rendered_of(v@).contains(name@) ==> r@ == v@,
        rendered_of(v@).contains(name@) ==> r@.len() < v@.len(),
{
    let mut r: Vec<String> = Vec::new();
    let mut i: usize = 0;
    while i < v.len()
        invariant
            i <= v@.len(),
            r@.len() <= i,
            forall|x: Seq<char>|
                rendered_of(r@).contains(x) == (rendered_of(v@.take(i as int)).contains(x) && x
                    != name@),
            (forall|j: int| 0 <= j < i ==> (#[trigger] v@[j])@ != name@) ==> r@ == v@.take(
                i as int,
            ),
            (exists|j: int| 0 <= j < i && (#[trigger] v@[j])@ == name@) ==> r@.len() < i,
        decreases v@.len() - i,
    {
        let ghost prev = r@;
        if !crate::text::str_eq(v[i].as_str(), name) {
            r.push(v[i].clone());
            proof {
                assert(r@[r@.len() - 1]@ == v@[i as int]@);
                assert forall|x: Seq<char>|
                    rendered_of(r@).contains(x) == (rendered_of(v@.take(i as int + 1)).contains(
                        x,
                    ) && x != name@) by {
                    lemma_rendered_push(prev, r@[r@.len() - 1], x);
                    lemma_rendered_take_step(v@, i as int, x);
                }
                if forall|j: int| 0 <= j < i + 1 ==> (#[trigger] v@[j])@ != name@ {
                    assert(r@ =~= v@.take(i as int + 1));
                }
            }
        } else {
            proof {
                assert(v@[i as int]@ == name@);
                assert forall|x: Seq<char>|
                    rendered_of(r@).contains(x) == (rendered_of(v@.take(i as int + 1)).contains(
                        x,
                    ) && x != name@) by {
                    lemma_rendered_take_step(v@, i as int, x);
                }
            }
        }
        i += 1;
    }
    proof {
        assert(v@.take(v@.len() as int) =~= v@);
        if rendered_of(v@).contains(name@) {
            let w = choose|j: int|
                0 <= j < rendered_of(v@).len() && rendered_of(v@)[j] == name@;
            assert(v@[w]@ == name@);
        } else {
            assert forall|j: int| 0 <= j < v@.len() implies (#[trigger] v@[j])@ != name@ by {
                if v@[j]@ == name@ {
                    assert(rendered_of(v@)[j] == name@);
                    assert(rendered_of(v@).contains(name@));
                }
            }
        }
    }
    r
}

/// Membership in a rendered list extended by one element.
pub proof fn lemma_rendered_push(prev: Seq<String>, s: String, x: Seq<char>)
    ensures
        rendered_of(prev.push(s)).contains(x) == (rendered_of(prev).contains(x) || s@ == x),
{
    let a = rendered_of(prev.push(s));
    let b = rendered_of(prev);
    if a.contains(x) {
        let j = choose|j: int| 0 <= j < a.len() && a[j] == x;
        if j < b.len() {
            assert(b[j] == x);
            assert(b.contains(x));
        } else {
            assert(prev.push(s)[j] == s);
        }
    }
    if b.contains(x) {
        let j = choose|j: int| 0 <= j < b.len() && b[j] == x;
        assert(a[j] == x);
        assert(a.contains(x));
    }
    if s@ == x {
        assert(a[a.len() - 1] == prev.push(s)[prev.len() as int]@);
        assert(a.contains(x));
    }
}

/// Membership in a rendered prefix extended by one position.
pub proof fn lemma_rendered_take_step(v: Seq<String>, i: int, x: Seq<char>)
    requires
        0 <= i < v.len(),
    ensures
        rendered_of(v.take(i + 1)).contains(x) == (rendered_of(v.take(i)).contains(x) || v[i]@
            == x),
{
    assert(v.take(i + 1) =~= v.take(i).push(v[i]));
    lemma_rendered_push(v.take(i), v[i], x);
}

/// Admissibility of a block is monotone in the allowed list: a block
/// admissible against a smaller list is admissible against any larger one.
pub proof fn lemma_block_allowed_mono(
    items: Seq<ExprV>,
    a1: Seq<Seq<char>>,
    a2: Seq<Seq<char>>,
    self_segs: Option<Seq<Seq<char>>>,
)
    requires
        crate::translate::contained_in(a1, a2),
        block_allowed(items, a1, self_segs),
    ensures
        block_allowed(items, a2, self_segs),
{
    assert forall|i: int| 0 <= i < items.len() implies calls_allowed(
        #[trigger] items[i],
        a2,
        self_segs,
    ) by {
        crate::translate::lemma_calls_allowed_mono(items[i], a1, a2, self_segs);
    }
}

/// No two of the spec functions and methods share a rendered name.
pub open spec fn spec_names_distinct(
    spec_fns: Seq<SpecFunction>,
    spec_methods: Seq<SpecMethod>,
) -> bool {
    &&& forall|k1: int, k2: int|
        0 <= k1 < k2 < spec_fns.len() ==> (#[trigger] spec_fns[k1]).spec_name() != (
        #[trigger] spec_fns[k2]).spec_name()
    &&& forall|k1: int, k2: int|
        0 <= k1 < k2 < spec_methods.len() ==> (#[trigger] spec_methods[k1]).spec_name() != (
        #[trigger] spec_methods[k2]).spec_name()
    &&& forall|k1: int, k2: int|
        0 <= k1 < spec_fns.len() && 0 <= k2 < spec_methods.len() ==> (
        #[trigger] spec_fns[k1]).spec_name() != (#[trigger] spec_methods[k2]).spec_name()
}

/// Every spec function or method whose name is outside the allowed list
/// has a body that is not admissible against that list.  Together with the
/// closure property this characterises the greatest fixed point that the
/// allowed-set computation reaches.
pub open spec fn outside_not_admissible(
    spec_fns: Seq<SpecFunction>,
    spec_methods: Seq<SpecMethod>,
    allowed: Seq<Seq<char>>,
) -> bool {
    &&& forall|k: int|
        0 <= k < spec_fns.len() && !allowed.contains((#[trigger] spec_fns[k]).spec_name())
            ==> !block_allowed(spec_fns[k].body@, allowed, None)
    &&& forall|k: int|
        0 <= k < spec_methods.len() && !allowed.contains(
            (#[trigger] spec_methods[k]).spec_name(),
        ) ==> !block_allowed(
            spec_methods[k].body@,
            allowed,
            Some(rendered_segs(spec_methods[k].impl_type@)),
        )
}

/// Compute the allowed set of spec names: start from every spec function
/// and method; repeatedly drop those whose bodies call something outside
/// the set, until a pass removes nothing.  At that fixed point every name
/// still in the set belongs to a function or method whose body makes only
/// admissible calls against the returned set; and, when no two of them
/// share a rendered name, the set is also maximal: every function or
/// method whose body is admissible against the returned set kept its name
/// in it.
#[verifier::loop_isolation(false)]
pub fn calculate_allowed_fns(spec_fns: &Vec<SpecFunction>, spec_methods: &Vec<SpecMethod>) -> (r:
    Vec<String>)
    requires
        forall|i: int|
            0 <= i < spec_methods@.len() ==> type_wf((#[trigger] spec_methods@[i]).impl_type@),
    ensures
        forall|i: int|
            0 <= i < spec_fns@.len() ==> (rendered_of(r@).contains(
                (#[trigger] spec_fns@[i]).spec_name(),
            ) ==> block_allowed(spec_fns@[i].body@, rendered_of(r@), None)),
        forall|i: int|
            0 <= i < spec_methods@.len() ==> (rendered_of(r@).contains(
                (#[trigger] spec_methods@[i]).spec_name(),
            ) ==> block_allowed(
                spec_methods@[i].body@,
                rendered_of(r@),
                Some(rendered_segs(spec_methods@[i].impl_type@)),
            )),
        spec_names_distinct(spec_fns@, spec_methods@) ==> forall|i: int|
            0 <= i < spec_fns@.len() && block_allowed(
                (#[trigger] spec_fns@[i]).body@,
                rendered_of(r@),
                None,
            ) ==> rendered_of(r@).contains(spec_fns@[i].spec_name()),
        spec_names_distinct(spec_fns@, spec_methods@) ==> forall|i: int|
            0 <= i < spec_methods@.len() && block_allowed(
                (#[trigger] spec_methods@[i]).body@,
                rendered_of(r@),
                Some(rendered_segs(spec_methods@[i].impl_type@)),
            ) ==> rendered_of(r@).contains(spec_methods@[i].spec_name()),
{
    let mut allowed: Vec<String> = Vec::new();
    let mut i: usize = 0;
    while i < spec_fns.len()
        invariant
            i <= spec_fns@.len(),
            forall|k: int|
                0 <= k < i ==> rendered_of(allowed@).contains(
                    (#[trigger] spec_fns@[k]).spec_name(),
                ),
        decreases spec_fns@.len() - i,
    {
        let ghost prev = allowed@;
        let name = spec_fns[i].name.to_string();
        allowed.push(name);
        proof {
            assert forall|k: int| 0 <= k < i + 1 implies rendered_of(allowed@).contains(
                (#[trigger] spec_fns@[k]).spec_name(),
            ) by {
                lemma_rendered_push(prev, allowed@[allowed@.len() - 1], spec_fns@[k].spec_name());
            }
        }
        i += 1;
    }
    i = 0;
    while i < spec_methods.len()
        invariant
            i <= spec_methods@.len(),
            forall|k: int|
                0 <= k < spec_fns@.len() ==> rendered_of(allowed@).contains(
                    (#[trigger] spec_fns@[k]).spec_name(),
                ),
            forall|k: int|
                0 <= k < i ==> rendered_of(allowed@).contains(
                    (#[trigger] spec_methods@[k]).spec_name(),
                ),
        decreases spec_methods@.len() - i,
    {
        let ghost prev = allowed@;
        let name = spec_methods[i].name_string();
        allowed.push(name);
        proof {
            assert forall|k: int| 0 <= k < spec_fns@.len() implies rendered_of(
                allowed@,
            ).contains((#[trigger] spec_fns@[k]).spec_name()) by {
                lemma_rendered_push(prev, allowed@[allowed@.len() - 1], spec_fns@[k].spec_name());
            }
            assert forall|k: int| 0 <= k < i + 1 implies rendered_of(allowed@).contains(
                (#[trigger] spec_methods@[k]).spec_name(),
            ) by {
                lemma_rendered_push(
                    prev,
                    allowed@[allowed@.len() - 1],
                    spec_methods@[k].spec_name(),
                );
            }
        }
        i += 1;
    }
    proof {
        assert(outside_not_admissible(spec_fns@, spec_methods@, rendered_of(allowed@)));
    }
    loop
        invariant
            outside_not_admissible(spec_fns@, spec_methods@, rendered_of(allowed@))
                || !spec_names_distinct(spec_fns@, spec_methods@),
        decreases allowed@.len(),
    {
        let ghost allowed0 = allowed@;
        let len0 = allowed.len();
        let mut j: usize = 0;
        while j < spec_fns.len()
            invariant
                j <= spec_fns@.len(),
                allowed@.len() <= len0,
                allowed@.len() == len0 ==> allowed@ == allowed0,
                allowed@.len() == len0 ==> forall|k: int|
                    0 <= k < j ==> (rendered_of(allowed@).contains(
                        (#[trigger] spec_fns@[k]).spec_name(),
                    ) ==> block_allowed(spec_fns@[k].body@, rendered_of(allowed@), None)),
                outside_not_admissible(spec_fns@, spec_methods@, rendered_of(allowed@))
                    || !spec_names_distinct(spec_fns@, spec_methods@),
            decreases spec_fns@.len() - j,
        {
            let keep = block_generatable(&spec_fns[j].body, &allowed, None);
            if !keep {
                let name = spec_fns[j].name.to_string();
                let next = remove_name(&allowed, name.as_str());
                proof {
                    let cur = rendered_of(allowed@);
                    let nextv = rendered_of(next@);
                    if rendered_of(allowed@).contains(name@) {
                        assert(next@.len() < allowed@.len());
                    } else {
                        assert(next@ == allowed@);
                        assert(!rendered_of(next@).contains(spec_fns@[j as int].spec_name()));
                    }
                    assert(crate::translate::contained_in(nextv, cur));
                    assert(name@ == spec_fns@[j as int].spec_name());
                    assert(!block_allowed(spec_fns@[j as int].body@, cur, None));
                    if spec_names_distinct(spec_fns@, spec_methods@) {
                        assert forall|k: int|
                            0 <= k < spec_fns@.len() && !nextv.contains(
                                (#[trigger] spec_fns@[k]).spec_name(),
                            ) implies !block_allowed(spec_fns@[k].body@, nextv, None) by {
                            if block_allowed(spec_fns@[k].body@, nextv, None) {
                                lemma_block_allowed_mono(spec_fns@[k].body@, nextv, cur, None);
                                assert(cur.contains(spec_fns@[k].spec_name()));
                                assert(spec_fns@[k].spec_name() == name@);
                                if k < j {
                                    assert(spec_fns@[k].spec_name() != spec_fns@[
                                        j as int
                                    ].spec_name());
                                } else if j < k {
                                    assert(spec_fns@[j as int].spec_name() != spec_fns@[
                                        k
                                    ].spec_name());
                                }
                                assert(k == j);
                                assert(false);
                            }
                        }
                        assert forall|k: int|
                            0 <= k < spec_methods@.len() && !nextv.contains(
                                (#[trigger] spec_methods@[k]).spec_name(),
                            ) implies !block_allowed(
                            spec_methods@[k].body@,
                            nextv,
                            Some(rendered_segs(spec_methods@[k].impl_type@)),
                        ) by {
                            if block_allowed(
                                spec_methods@[k].body@,
                                nextv,
                                Some(rendered_segs(spec_methods@[k].impl_type@)),
                            ) {
                                lemma_block_allowed_mono(
                                    spec_methods@[k].body@,
                                    nextv,
                                    cur,
                                    Some(rendered_segs(spec_methods@[k].impl_type@)),
                                );
                                assert(cur.contains(spec_methods@[k].spec_name()));
                                assert(spec_methods@[k].spec_name() == name@);
                                assert(spec_fns@[j as int].spec_name() != spec_methods@[
                                    k
                                ].spec_name());
                                assert(false);
                            }
                        }
                    }
                }
                allowed = next;
            }
            j += 1;
        }
        let mut j: usize = 0;
        while j < spec_methods.len()
            invariant
                j <= spec_methods@.len(),
                allowed@.len() <= len0,
                allowed@.len() == len0 ==> allowed@ == allowed0,
                allowed@.len() == len0 ==> forall|k: int|
                    0 <= k < spec_fns@.len() ==> (rendered_of(allowed@).contains(
                        (#[trigger] spec_fns@[k]).spec_name(),
                    ) ==> block_allowed(spec_fns@[k].body@, rendered_of(allowed@), None)),
                allowed@.len() == len0 ==> forall|k: int|
                    0 <= k < j ==> (rendered_of(allowed@).contains(
                        (#[trigger] spec_methods@[k]).spec_name(),
                    ) ==> block_allowed(
                        spec_methods@[k].body@,
                        rendered_of(allowed@),
                        Some(rendered_segs(spec_methods@[k].impl_type@)),
                    )),
                outside_not_admissible(spec_fns@, spec_methods@, rendered_of(allowed@))
                    || !spec_names_distinct(spec_fns@, spec_methods@),
            decreases spec_methods@.len() - j,
        {
            let m = &spec_methods[j];
            let keep = block_generatable(&m.body, &allowed, Some(&m.impl_type));
            if !keep {
                let name = m.name_string();
                let next = remove_name(&allowed, name.as_str());
                proof {
                    let cur = rendered_of(allowed@);
                    let nextv = rendered_of(next@);
                    if rendered_of(allowed@).contains(name@) {
                        assert(next@.len() < allowed@.len());
                    } else {
                        assert(next@ == allowed@);
                        assert(!rendered_of(next@).contains(
                            spec_methods@[j as int].spec_name(),
                        ));
                    }
                    assert(crate::translate::contained_in(nextv, cur));
                    assert(name@ == spec_methods@[j as int].spec_name());
                    assert(!block_allowed(
                        spec_methods@[j as int].body@,
                        cur,
                        Some(rendered_segs(spec_methods@[j as int].impl_type@)),
                    ));
                    if spec_names_distinct(spec_fns@, spec_methods@) {
                        assert forall|k: int|
                            0 <= k < spec_fns@.len() && !nextv.contains(
                                (#[trigger] spec_fns@[k]).spec_name(),
                            ) implies !block_allowed(spec_fns@[k].body@, nextv, None) by {
                            if block_allowed(spec_fns@[k].body@, nextv, None) {
                                lemma_block_allowed_mono(spec_fns@[k].body@, nextv, cur, None);
                                assert(cur.contains(spec_fns@[k].spec_name()));
                                assert(spec_fns@[k].spec_name() == name@);
                                assert(spec_fns@[k].spec_name() != spec_methods@[
                                    j as int
                                ].spec_name());
                                assert(false);
                            }
                        }
                        assert forall|k: int|
                            0 <= k < spec_methods@.len() && !nextv.contains(
                                (#[trigger] spec_methods@[k]).spec_name(),
                            ) implies !block_allowed(
                            spec_methods@[k].body@,
                            nextv,
                            Some(rendered_segs(spec_methods@[k].impl_type@)),
                        ) by {
                            if block_allowed(
                                spec_methods@[k].body@,
                                nextv,
                                Some(rendered_segs(spec_methods@[k].impl_type@)),
                            ) {
                                lemma_block_allowed_mono(
                                    spec_methods@[k].body@,
                                    nextv,
                                    cur,
                                    Some(rendered_segs(spec_methods@[k].impl_type@)),
                                );
                                assert(cur.contains(spec_methods@[k].spec_name()));
                                assert(spec_methods@[k].spec_name() == name@);
                                if k < j {
                                    assert(spec_methods@[k].spec_name() != spec_methods@[
                                        j as int
                                    ].spec_name());
                                } else if j < k {
                                    assert(spec_methods@[j as int].spec_name() != spec_methods@[
                                        k
                                    ].spec_name());
                                }
                                assert(k == j);
                                assert(false);
                            }
                        }
                    }
                }
                allowed = next;
            }
            j += 1;
        }
        if allowed.len() == len0 {
            proof {
                if spec_names_distinct(spec_fns@, spec_methods@) {
                    assert forall|i2: int|
                        0 <= i2 < spec_fns@.len() && block_allowed(
                            (#[trigger] spec_fns@[i2]).body@,
                            rendered_of(allowed@),
                            None,
                        ) implies rendered_of(allowed@).contains(spec_fns@[i2].spec_name()) by {
                        if !rendered_of(allowed@).contains(spec_fns@[i2].spec_name()) {
                            assert(!block_allowed(
                                spec_fns@[i2].body@,
                                rendered_of(allowed@),
                                None,
                            ));
                        }
                    }
                    assert forall|i2: int|
                        0 <= i2 < spec_methods@.len() && block_allowed(
                            (#[trigger] spec_methods@[i2]).body@,
                            rendered_of(allowed@),
                            Some(rendered_segs(spec_methods@[i2].impl_type@)),
                        ) implies rendered_of(allowed@).contains(
                        spec_methods@[i2].spec_name(),
                    ) by {
                        if !rendered_of(allowed@).contains(spec_methods@[i2].spec_name()) {
                            assert(!block_allowed(
                                spec_methods@[i2].body@,
                                rendered_of(allowed@),
                                Some(rendered_segs(spec_methods@[i2].impl_type@)),
                            ));
                        }
                    }
                }
            }
            return allowed;
        }
    }
}

impl SpecMethod {
    /// The rendered fully qualified name of the method.
    pub fn name_string(&self) -> (r: String)
        requires
            type_wf(self.impl_type@),
        ensures
            r@ == self.spec_name(),
    {
        let p = self.impl_type.as_path().join(self.ident.clone());
        proof {
            assert(p@ =~= rendered_segs(self.impl_type@).push(self.ident@));
        }
        p.to_string()
    }
}

/// The rendered return type, with its arrow, or nothing.
pub open spec fn output_code(o: Option<Seq<char>>) -> Seq<char> {
    match o {
        None => Seq::empty(),
        Some(t) => " -> "@ + t,
    }
}

/// The view of an optional rendered type.
pub open spec fn opt_view(o: &Option<String>) -> Option<Seq<char>> {
    match o {
        Some(s) => Some(s@),
        None => None,
    }
}

/// The emitted head of an impl block.
pub open spec fn impl_head(generics: Seq<char>, ty: Seq<char>) -> Seq<char> {
    if generics.len() == 0 {
        "impl "@ + ty
    } else {
        "impl "@ + generics + seq![' '] + ty
    }
}

/// The emitted executable counterpart of a spec function.
pub open spec fn spec_function_code(f: SpecFunction) -> Seq<char> {
    "pub fn "@ + join_with(f.name@, sep_ident()) + seq!['('] + f.inputs@ + seq![')'] + output_code(
        opt_view(&f.output),
    ) + seq![' '] + block_code(f.body@) + seq!['\n']
}

/// The emitted executable counterpart of a spec method.
pub open spec fn spec_method_code(m: SpecMethod) -> Seq<char> {
    impl_head(m.generics@, join_with(rendered_segs(m.impl_type@), sep_path())) + " { pub fn "@
        + m.ident@ + seq!['('] + m.inputs@ + seq![')'] + output_code(opt_view(&m.output)) + seq![
        ' ',
    ] + block_code(m.body@) + " }"@ + seq!['\n']
}

/// The emitted checks of the precondition clauses, each returning false on
/// failure.
pub open spec fn req_checks(reqs: Seq<ExprV>) -> Seq<char>
    decreases reqs,
{
    if reqs.len() == 0 {
        Seq::empty()
    } else {
        req_checks(reqs.drop_last()) + "if !("@ + code_of(reqs.last()) + ") { return false; } "@
    }
}

/// The emitted checker of a free function's precondition.
pub open spec fn precond_fn_code(p: FunctionPrecond) -> Seq<char> {
    "pub fn verieasy_pre_"@ + join_with(p.name@, sep_ident()) + seq!['('] + p.inputs@
        + ") -> bool { "@ + req_checks(expr_views(p.requires@)) + "true }"@ + seq!['\n']
}

/// The emitted checker of a method's precondition.
pub open spec fn precond_method_code(p: MethodPrecond) -> Seq<char> {
    impl_head(p.generics@, join_with(rendered_segs(p.impl_type@), sep_path()))
        + " { pub fn verieasy_pre_"@ + p.ident@ + seq!['('] + p.inputs@ + ") -> bool { "@
        + req_checks(expr_views(p.requires@)) + "true } }"@ + seq!['\n']
}

/// Emit the head of an impl block.
pub fn emit_impl_head(generics: &String, impl_type: &Type) -> (r: String)
    requires
        type_wf(impl_type@),
    ensures
        r@ == impl_head(generics@, join_with(rendered_segs(impl_type@), sep_path())),
{
    proof {
        reveal_strlit("impl ");
    }
    let ty = impl_type.to_path().to_string();
    let mut r = String::new();
    r.append("impl ");
    if generics.as_str().unicode_len() > 0 {
        r.append(generics.as_str());
        r.append(" ");
        proof {
            reveal_strlit(" ");
            assert(" "@ =~= seq![' ']);
        }
    }
    r.append(ty.as_str());
    proof {
        assert(r@ =~= impl_head(generics@, join_with(rendered_segs(impl_type@), sep_path())));
    }
    r
}

/// Emit the rendered return type with its arrow.
pub fn emit_output(o: &Option<String>) -> (r: String)
    ensures
        r@ == output_code(opt_view(o)),
{
    let mut r = String::new();
    match o {
        None => {},
        Some(t) => {
            proof {
                reveal_strlit(" -> ");
            }
            r.append(" -> ");
            r.append(t.as_str());
            proof {
                assert(r@ =~= output_code(opt_view(o)));
            }
        },
    }
    r
}

/// Emit the checks of the precondition clauses.
#[verifier::loop_isolation(false)]
pub fn emit_req_checks(reqs: &Vec<Expr>) -> (r: String)
    ensures
        r@ == req_checks(expr_views(reqs@)),
{
    let ghost reqsv = expr_views(reqs@);
    proof {
        lemma_expr_views(reqs@);
    }
    let mut r = String::new();
    let mut i: usize = 0;
    while i < reqs.len()
        invariant
            i <= reqs@.len(),
            r@ == req_checks(reqsv.take(i as int)),
        decreases reqs@.len() - i,
    {
        proof {
            reveal_strlit("if !(");
            reveal_strlit(") { return false; } ");
        }
        let code = code_of_expr(&reqs[i]);
        r.append("if !(");
        r.append(code.as_str());
        r.append(") { return false; } ");
        proof {
            assert(reqsv.take(i as int + 1).drop_last() =~= reqsv.take(i as int));
            assert(reqsv.take(i as int + 1).last() == reqsv[i as int]);
            assert(r@ =~= req_checks(reqsv.take(i as int + 1)));
        }
        i += 1;
    }
    proof {
        assert(reqsv.take(reqsv.len() as int) =~= reqsv);
    }
    r
}

/// The code generator: the collected spec items and preconditions, after
/// preprocessing.
pub struct CodeGenerator {
    /// The surviving spec functions.
    pub spec_functions: Vec<SpecFunction>,
    /// The surviving spec methods.
    pub spec_methods: Vec<SpecMethod>,
    /// The preconditions of free functions, with processed clauses.
    pub function_preconds: Vec<FunctionPrecond>,
    /// The preconditions of methods, with processed clauses.
    pub method_preconds: Vec<MethodPrecond>,
}

/// The requires clauses that survive the admissibility filter.
pub open spec fn retain_allowed(
    es: Seq<ExprV>,
    allowed: Seq<Seq<char>>,
    self_segs: Option<Seq<Seq<char>>>,
) -> Seq<ExprV>
    decreases es,
{
    if es.len() == 0 {
        Seq::empty()
    } else {
        let r = retain_allowed(es.drop_last(), allowed, self_segs);
        if calls_allowed(es.last(), allowed, self_segs) {
            r.push(es.last())
        } else {
            r
        }
    }
}

/// The spec functions whose bodies are admissible against the allowed
/// names, in their original order.
pub open spec fn filter_allowed_fns(
    fs: Seq<SpecFunction>,
    av: Seq<Seq<char>>,
) -> Seq<SpecFunction>
    decreases fs,
{
    if fs.len() == 0 {
        Seq::empty()
    } else {
        let r = filter_allowed_fns(fs.drop_last(), av);
        if block_allowed(fs.last().body@, av, None) {
            r.push(fs.last())
        } else {
            r
        }
    }
}

/// The spec methods whose bodies are admissible against the allowed names,
/// in their original order.
pub open spec fn filter_allowed_methods(
    ms: Seq<SpecMethod>,
    av: Seq<Seq<char>>,
) -> Seq<SpecMethod>
    decreases ms,
{
    if ms.len() == 0 {
        Seq::empty()
    } else {
        let r = filter_allowed_methods(ms.drop_last(), av);
        if block_allowed(ms.last().body@, av, Some(rendered_segs(ms.last().impl_type@))) {
            r.push(ms.last())
        } else {
            r
        }
    }
}

/// Every clause list of `r` is the full pipeline's output on the matching
/// input list, against the allowed names `av`.
pub open spec fn pipeline_processed(
    r: CodeGenerator,
    fp: Seq<FunctionPrecond>,
    mp: Seq<MethodPrecond>,
    av: Seq<Seq<char>>,
) -> bool {
    &&& forall|k: int|
        0 <= k < fp.len() ==> expr_views((#[trigger] r.function_preconds@[k]).requires@)
            == processed_requires(expr_views(fp[k].requires@), av, None)
    &&& forall|k: int|
        0 <= k < mp.len() ==> expr_views((#[trigger] r.method_preconds@[k]).requires@)
            == processed_requires(
            expr_views(mp[k].requires@),
            av,
            Some(rendered_segs(mp[k].impl_type@)),
        )
}

/// The full clause pipeline: erase `old`, keep the admissible clauses, and
/// strip the `spec_` prefixes.
pub open spec fn processed_requires(
    orig: Seq<ExprV>,
    allowed: Seq<Seq<char>>,
    self_segs: Option<Seq<Seq<char>>>,
) -> Seq<ExprV> {
    crate::translate::remove_spec_prefix_args(
        retain_allowed(crate::translate::remove_old_args(orig), allowed, self_segs),
    )
}

/// Run the clause pipeline on one requires list.
#[verifier::loop_isolation(false)]
pub fn process_requires(reqs: Vec<Expr>, allowed: &Vec<String>, self_ty: Option<&Type>) -> (r:
    Vec<Expr>)
    requires
        match self_ty {
            Some(t) => type_wf(t@),
            None => true,
        },
    ensures
        expr_views(r@) == processed_requires(
            expr_views(reqs@),
            rendered_of(allowed@),
            match self_ty {
                Some(t) => Some(rendered_segs(t@)),
                None => None,
            },
        ),
{
    let ghost origv = expr_views(reqs@);
    let ghost allowedv = rendered_of(allowed@);
    let ghost selfv = match self_ty {
        Some(t) => Some(rendered_segs(t@)),
        None => None,
    };
    let cleaned = crate::translate::remove_old_vec(reqs);
    let ghost cleanedv = expr_views(cleaned@);
    proof {
        lemma_expr_views(cleaned@);
    }
    let mut kept: Vec<Expr> = Vec::new();
    let mut i: usize = 0;
    while i < cleaned.len()
        invariant
            i <= cleaned@.len(),
            cleanedv == expr_views(cleaned@),
            cleanedv.len() == cleaned@.len(),
            expr_views(kept@) == retain_allowed(cleanedv.take(i as int), allowedv, selfv),
        decreases cleaned@.len() - i,
    {
        let mut checker = CheckFnCall::new(allowed, self_ty);
        checker.visit_expr(&cleaned[i]);
        proof {
            lemma_expr_views(cleaned@);
            assert(cleaned@[i as int]@ == cleanedv[i as int]);
            assert(cleanedv.take(i as int + 1).drop_last() =~= cleanedv.take(i as int));
            assert(cleanedv.take(i as int + 1).last() == cleanedv[i as int]);
        }
        let ghost prev = kept@;
        if !checker.aborted {
            let copy = crate::translate::duplicate_expr(&cleaned[i]);
            kept.push(copy);
            proof {
                lemma_expr_views(kept@);
                lemma_expr_views(prev);
                assert forall|j: int|
                    0 <= j < kept@.len() implies expr_views(kept@)[j] == retain_allowed(
                    cleanedv.take(i as int + 1),
                    allowedv,
                    selfv,
                )[j] by {
                    if j < prev.len() {
                        assert(kept@[j] == prev[j]);
                        assert(expr_views(kept@)[j] == kept@[j]@);
                        assert(expr_views(prev)[j] == prev[j]@);
                    } else {
                        assert(expr_views(kept@)[j] == kept@[j]@);
                    }
                }
                assert(expr_views(kept@) =~= retain_allowed(
                    cleanedv.take(i as int + 1),
                    allowedv,
                    selfv,
                ));
            }
        }
        i += 1;
    }
    proof {
        assert(cleanedv.take(cleanedv.len() as int) =~= cleanedv);
    }
    crate::translate::remove_spec_prefix_vec(kept)
}

impl CodeGenerator {
    /// Well-formedness: every impl type can be rendered.
    pub open spec fn wf(&self) -> bool {
        (forall|i: int|
            0 <= i < self.spec_methods@.len() ==> type_wf(
                (#[trigger] self.spec_methods@[i]).impl_type@,
            )) && (forall|i: int|
            0 <= i < self.method_preconds@.len() ==> type_wf(
                (#[trigger] self.method_preconds@[i]).impl_type@,
            ))
    }

    /// Emit one spec function.
    pub fn generate_spec_function(f: &SpecFunction) -> (r: String)
        ensures
            r@ == spec_function_code(*f),
    {
        proof {
            reveal_strlit("pub fn ");
            reveal_strlit("(");
            reveal_strlit(")");
            reveal_strlit(" ");
            reveal_strlit("\n");
        }
        let flat = f.name.to_ident();
        let out = emit_output(&f.output);
        let body = code_of_block(&f.body);
        let mut r = String::new();
        r.append("pub fn ");
        r.append(flat.as_str());
        r.append("(");
        r.append(f.inputs.as_str());
        r.append(")");
        r.append(out.as_str());
        r.append(" ");
        r.append(body.as_str());
        r.append("\n");
        proof {
            assert("("@ =~= seq!['(']);
            assert(")"@ =~= seq![')']);
            assert(" "@ =~= seq![' ']);
            assert("\n"@ =~= seq!['\n']);
            assert(r@ =~= spec_function_code(*f));
        }
        r
    }

    /// Emit one spec method.
    pub fn generate_spec_method(m: &SpecMethod) -> (r: String)
        requires
            type_wf(m.impl_type@),
        ensures
            r@ == spec_method_code(*m),
    {
        proof {
            reveal_strlit(" { pub fn ");
            reveal_strlit("(");
            reveal_strlit(")");
            reveal_strlit(" ");
            reveal_strlit(" }");
            reveal_strlit("\n");
        }
        let head = emit_impl_head(&m.generics, &m.impl_type);
        let out = emit_output(&m.output);
        let body = code_of_block(&m.body);
        let mut r = String::new();
        r.append(head.as_str());
        r.append(" { pub fn ");
        r.append(m.ident.as_str());
        r.append("(");
        r.append(m.inputs.as_str());
        r.append(")");
        r.append(out.as_str());
        r.append(" ");
        r.append(body.as_str());
        r.append(" }");
        r.append("\n");
        proof {
            assert("("@ =~= seq!['(']);
            assert(")"@ =~= seq![')']);
            assert(" "@ =~= seq![' ']);
            assert("\n"@ =~= seq!['\n']);
            assert(r@ =~= spec_method_code(*m));
        }
        r
    }

    /// Emit the checker of one free function's precondition.
    pub fn generate_function_precond(p: &FunctionPrecond) -> (r: String)
        ensures
            r@ == precond_fn_code(*p),
    {
        proof {
            reveal_strlit("pub fn verieasy_pre_");
            reveal_strlit("(");
            reveal_strlit(") -> bool { ");
            reveal_strlit("true }");
            reveal_strlit("\n");
        }
        let flat = p.name.to_ident();
        let checks = emit_req_checks(&p.requires);
        let mut r = String::new();
        r.append("pub fn verieasy_pre_");
        r.append(flat.as_str());
        r.append("(");
        r.append(p.inputs.as_str());
        r.append(") -> bool { ");
        r.append(checks.as_str());
        r.append("true }");
        r.append("\n");
        proof {
            assert("("@ =~= seq!['(']);
            assert("\n"@ =~= seq!['\n']);
            assert(r@ =~= precond_fn_code(*p));
        }
        r
    }

    /// Emit the checker of one method's precondition.
    pub fn generate_method_precond(p: &MethodPrecond) -> (r: String)
        requires
            type_wf(p.impl_type@),
        ensures
            r@ == precond_method_code(*p),
    {
        proof {
            reveal_strlit(" { pub fn verieasy_pre_");
            reveal_strlit("(");
            reveal_strlit(") -> bool { ");
            reveal_strlit("true } }");
            reveal_strlit("\n");
        }
        let head = emit_impl_head(&p.generics, &p.impl_type);
        let checks = emit_req_checks(&p.requires);
        let mut r = String::new();
        r.append(head.as_str());
        r.append(" { pub fn verieasy_pre_");
        r.append(p.ident.as_str());
        r.append("(");
        r.append(p.inputs.as_str());
        r.append(") -> bool { ");
        r.append(checks.as_str());
        r.append("true } }");
        r.append("\n");
        proof {
            assert("("@ =~= seq!['(']);
            assert("\n"@ =~= seq!['\n']);
            assert(r@ =~= precond_method_code(*p));
        }
        r
    }

    /// Generate all emitted code: the spec functions, then the spec
    /// methods, then the function preconditions, then the method
    /// preconditions.
    #[verifier::loop_isolation(false)]
    #[verifier::rlimit(60)]
    pub fn generate_all(&self) -> (r: String)
        requires
            self.wf(),
        ensures
            r@ == fold_spec_fns(self.spec_functions@) + fold_spec_methods(self.spec_methods@)
                + fold_fn_preconds(self.function_preconds@) + fold_method_preconds(
                self.method_preconds@,
            ),
    {
        let mut r = String::new();
        let mut i: usize = 0;
        while i < self.spec_functions.len()
            invariant
                i <= self.spec_functions@.len(),
                r@ == fold_spec_fns(self.spec_functions@.take(i as int)),
            decreases self.spec_functions@.len() - i,
        {
            let code = Self::generate_spec_function(&self.spec_functions[i]);
            r.append(code.as_str());
            proof {
                assert(self.spec_functions@.take(i as int + 1).drop_last()
                    =~= self.spec_functions@.take(i as int));
                assert(r@ =~= fold_spec_fns(self.spec_functions@.take(i as int + 1)));
            }
            i += 1;
        }
        proof {
            assert(self.spec_functions@.take(self.spec_functions@.len() as int)
                =~= self.spec_functions@);
        }
        let mut i: usize = 0;
        while i < self.spec_methods.len()
            invariant
                i <= self.spec_methods@.len(),
                r@ == fold_spec_fns(self.spec_functions@) + fold_spec_methods(
                    self.spec_methods@.take(i as int),
                ),
            decreases self.spec_methods@.len() - i,
        {
            let code = Self::generate_spec_method(&self.spec_methods[i]);
            r.append(code.as_str());
            proof {
                assert(self.spec_methods@.take(i as int + 1).drop_last()
                    =~= self.spec_methods@.take(i as int));
                assert(r@ =~= fold_spec_fns(self.spec_functions@) + fold_spec_methods(
                    self.spec_methods@.take(i as int + 1),
                ));
            }
            i += 1;
        }
        proof {
            assert(self.spec_methods@.take(self.spec_methods@.len() as int)
                =~= self.spec_methods@);
        }
        let mut i: usize = 0;
        while i < self.function_preconds.len()
            invariant
                i <= self.function_preconds@.len(),
                r@ == fold_spec_fns(self.spec_functions@) + fold_spec_methods(self.spec_methods@)
                    + fold_fn_preconds(self.function_preconds@.take(i as int)),
            decreases self.function_preconds@.len() - i,
        {
            let code = Self::generate_function_precond(&self.function_preconds[i]);
            r.append(code.as_str());
            proof {
                assert(self.function_preconds@.take(i as int + 1).drop_last()
                    =~= self.function_preconds@.take(i as int));
                assert(r@ =~= fold_spec_fns(self.spec_functions@) + fold_spec_methods(
                    self.spec_methods@,
                ) + fold_fn_preconds(self.function_preconds@.take(i as int + 1)));
            }
            i += 1;
        }
        proof {
            assert(self.function_preconds@.take(self.function_preconds@.len() as int)
                =~= self.function_preconds@);
        }
        let mut i: usize = 0;
        while i < self.method_preconds.len()
            invariant
                i <= self.method_preconds@.len(),
                r@ == fold_spec_fns(self.spec_functions@) + fold_spec_methods(self.spec_methods@)
                    + fold_fn_preconds(self.function_preconds@) + fold_method_preconds(
                    self.method_preconds@.take(i as int),
                ),
            decreases self.method_preconds@.len() - i,
        {
            let code = Self::generate_method_precond(&self.method_preconds[i]);
            r.append(code.as_str());
            proof {
                assert(self.method_preconds@.take(i as int + 1).drop_last()
                    =~= self.method_preconds@.take(i as int));
                assert(r@ =~= fold_spec_fns(self.spec_functions@) + fold_spec_methods(
                    self.spec_methods@,
                ) + fold_fn_preconds(self.function_preconds@) + fold_method_preconds(
                    self.method_preconds@.take(i as int + 1),
                ));
            }
            i += 1;
        }
        proof {
            assert(self.method_preconds@.take(self.method_preconds@.len() as int)
                =~= self.method_preconds@);
        }
        r
    }

    /// The names of the free functions carrying preconditions.
    pub fn get_function_preconds(&self) -> (r: Vec<String>)
        ensures
            r@.len() == self.function_preconds@.len(),
            forall|k: int|
                0 <= k < r@.len() ==> (#[trigger] r@[k])@ == join_with(
                    self.function_preconds@[k].name@,
                    sep_path(),
                ),
    {
        let mut r: Vec<String> = Vec::new();
        let mut i: usize = 0;
        while i < self.function_preconds.len()
            invariant
                i <= self.function_preconds@.len(),
                r@.len() == i,
                forall|k: int|
                    0 <= k < i ==> (#[trigger] r@[k])@ == join_with(
                        self.function_preconds@[k].name@,
                        sep_path(),
                    ),
            decreases self.function_preconds@.len() - i,
        {
            r.push(self.function_preconds[i].name.to_string());
            i += 1;
        }
        r
    }

    /// The names of the methods carrying preconditions.
    pub fn get_method_preconds(&self) -> (r: Vec<String>)
        requires
            self.wf(),
        ensures
            r@.len() == self.method_preconds@.len(),
            forall|k: int|
                0 <= k < r@.len() ==> (#[trigger] r@[k])@ == self.method_preconds@[k].spec_name(),
    {
        let mut r: Vec<String> = Vec::new();
        let mut i: usize = 0;
        while i < self.method_preconds.len()
            invariant
                i <= self.method_preconds@.len(),
                self.wf(),
                r@.len() == i,
                forall|k: int|
                    0 <= k < i ==> (#[trigger] r@[k])@ == self.method_preconds@[k].spec_name(),
            decreases self.method_preconds@.len() - i,
        {
            let p = self.method_preconds[i].name();
            r.push(p.to_string());
            i += 1;
        }
        r
    }

    /// Create the generator: erase the `old` markers, compute the allowed
    /// set, keep exactly the spec items whose bodies are admissible against
    /// it, drop the clauses that call outside it, and strip the `spec_`
    /// prefixes off the surviving clauses.
    #[verifier::loop_isolation(false)]
    pub fn new(
        spec_fns: Vec<SpecFunction>,
        spec_methods: Vec<SpecMethod>,
        function_preconds: Vec<FunctionPrecond>,
        method_preconds: Vec<MethodPrecond>,
    ) -> (r: CodeGenerator)
        requires
            forall|i: int|
                0 <= i < spec_methods@.len() ==> type_wf(
                    (#[trigger] spec_methods@[i]).impl_type@,
                ),
            forall|i: int|
                0 <= i < method_preconds@.len() ==> type_wf(
                    (#[trigger] method_preconds@[i]).impl_type@,
                ),
        ensures
            r.wf(),
            r.function_preconds@.len() == function_preconds@.len(),
            forall|k: int|
                0 <= k < function_preconds@.len() ==> {
                    &&& (#[trigger] r.function_preconds@[k]).name@ == function_preconds@[k].name@
                    &&& r.function_preconds@[k].inputs@ == function_preconds@[k].inputs@
                },
            r.method_preconds@.len() == method_preconds@.len(),
            forall|k: int|
                0 <= k < method_preconds@.len() ==> {
                    &&& (#[trigger] r.method_preconds@[k]).ident@ == method_preconds@[k].ident@
                    &&& r.method_preconds@[k].impl_type@ == method_preconds@[k].impl_type@
                    &&& r.method_preconds@[k].inputs@ == method_preconds@[k].inputs@
                    &&& r.method_preconds@[k].generics@ == method_preconds@[k].generics@
                },
            // every surviving clause went through the whole pipeline against
            // one allowed set of spec names: the fixed point of the
            // admissibility filter, against which the retained spec items
            // are exactly the admissible ones
            exists|av: Seq<Seq<char>>|
                {
                    &&& #[trigger] pipeline_processed(r, function_preconds@, method_preconds@, av)
                    &&& forall|i: int|
                        0 <= i < spec_fns@.len() ==> (av.contains(
                            (#[trigger] spec_fns@[i]).spec_name(),
                        ) ==> block_allowed(spec_fns@[i].body@, av, None))
                    &&& forall|i: int|
                        0 <= i < spec_methods@.len() ==> (av.contains(
                            (#[trigger] spec_methods@[i]).spec_name(),
                        ) ==> block_allowed(
                            spec_methods@[i].body@,
                            av,
                            Some(rendered_segs(spec_methods@[i].impl_type@)),
                        ))
                    &&& spec_names_distinct(spec_fns@, spec_methods@) ==> forall|i: int|
                        0 <= i < spec_fns@.len() && block_allowed(
                            (#[trigger] spec_fns@[i]).body@,
                            av,
                            None,
                        ) ==> av.contains(spec_fns@[i].spec_name())
                    &&& spec_names_distinct(spec_fns@, spec_methods@) ==> forall|i: int|
                        0 <= i < spec_methods@.len() && block_allowed(
                            (#[trigger] spec_methods@[i]).body@,
                            av,
                            Some(rendered_segs(spec_methods@[i].impl_type@)),
                        ) ==> av.contains(spec_methods@[i].spec_name())
                    &&& r.spec_functions@ == filter_allowed_fns(spec_fns@, av)
                    &&& r.spec_methods@ == filter_allowed_methods(spec_methods@, av)
                },
    {
        let allowed = calculate_allowed_fns(&spec_fns, &spec_methods);
        let ghost av = rendered_of(allowed@);
        let mut kept_fns: Vec<SpecFunction> = Vec::new();
        let mut rest = spec_fns;
        let ghost orig_sf = rest@;
        let total_sf = rest.len();
        let mut i: usize = 0;
        while rest.len() > 0
            invariant
                orig_sf.len() == total_sf,
                i + rest@.len() == orig_sf.len(),
                rest@ == orig_sf.skip(i as int),
                kept_fns@ == filter_allowed_fns(orig_sf.take(i as int), av),
            decreases rest@.len(),
        {
            proof {
                assert(rest@[0] == orig_sf[i as int]);
            }
            let f = rest.remove(0);
            let keep = block_generatable(&f.body, &allowed, None);
            proof {
                assert(orig_sf.take(i as int + 1).drop_last() =~= orig_sf.take(i as int));
                assert(orig_sf.take(i as int + 1).last() == orig_sf[i as int]);
            }
            if keep {
                kept_fns.push(f);
            }
            proof {
                assert(kept_fns@ =~= filter_allowed_fns(orig_sf.take(i as int + 1), av));
                assert(rest@ =~= orig_sf.skip(i + 1));
            }
            i += 1;
        }
        proof {
            assert(orig_sf.take(orig_sf.len() as int) =~= orig_sf);
        }
        let mut kept_methods: Vec<SpecMethod> = Vec::new();
        let mut rest = spec_methods;
        let ghost orig_sm = rest@;
        let total_sm = rest.len();
        let mut i: usize = 0;
        while rest.len() > 0
            invariant
                orig_sm.len() == total_sm,
                i + rest@.len() == orig_sm.len(),
                rest@ == orig_sm.skip(i as int),
                forall|k: int|
                    0 <= k < orig_sm.len() ==> type_wf((#[trigger] orig_sm[k]).impl_type@),
                forall|k: int|
                    0 <= k < kept_methods@.len() ==> type_wf(
                        (#[trigger] kept_methods@[k]).impl_type@,
                    ),
                kept_methods@ == filter_allowed_methods(orig_sm.take(i as int), av),
            decreases rest@.len(),
        {
            proof {
                assert(rest@[0] == orig_sm[i as int]);
            }
            let m = rest.remove(0);
            let keep = block_generatable(&m.body, &allowed, Some(&m.impl_type));
            proof {
                assert(orig_sm.take(i as int + 1).drop_last() =~= orig_sm.take(i as int));
                assert(orig_sm.take(i as int + 1).last() == orig_sm[i as int]);
            }
            if keep {
                kept_methods.push(m);
            }
            proof {
                assert(kept_methods@ =~= filter_allowed_methods(orig_sm.take(i as int + 1), av));
                assert(rest@ =~= orig_sm.skip(i + 1));
            }
            i += 1;
        }
        proof {
            assert(orig_sm.take(orig_sm.len() as int) =~= orig_sm);
        }
        let mut new_fn_preconds: Vec<FunctionPrecond> = Vec::new();
        let mut rest = function_preconds;
        let ghost orig_fp = rest@;
        let total_fp = rest.len();
        let mut i: usize = 0;
        while rest.len() > 0
            invariant
                orig_fp.len() == total_fp,
                i + rest@.len() == orig_fp.len(),
                rest@ == orig_fp.skip(i as int),
                new_fn_preconds@.len() == i,
                forall|k: int|
                    0 <= k < i ==> {
                        &&& (#[trigger] new_fn_preconds@[k]).name@ == orig_fp[k].name@
                        &&& new_fn_preconds@[k].inputs@ == orig_fp[k].inputs@
                        &&& expr_views(new_fn_preconds@[k].requires@) == processed_requires(
                            expr_views(orig_fp[k].requires@),
                            rendered_of(allowed@),
                            None,
                        )
                    },
            decreases rest@.len(),
        {
            proof {
                assert(rest@[0] == orig_fp[i as int]);
            }
            let p = rest.remove(0);
            let FunctionPrecond { name, inputs, requires: reqs } = p;
            let processed = process_requires(reqs, &allowed, None);
            new_fn_preconds.push(FunctionPrecond { name, inputs, requires: processed });
            proof {
                assert(rest@ =~= orig_fp.skip(i + 1));
            }
            i += 1;
        }
        let mut new_m_preconds: Vec<MethodPrecond> = Vec::new();
        let mut rest = method_preconds;
        let ghost orig_mp = rest@;
        let total_mp = rest.len();
        let mut i: usize = 0;
        while rest.len() > 0
            invariant
                orig_mp.len() == total_mp,
                i + rest@.len() == orig_mp.len(),
                rest@ == orig_mp.skip(i as int),
                forall|k: int|
                    0 <= k < orig_mp.len() ==> type_wf((#[trigger] orig_mp[k]).impl_type@),
                new_m_preconds@.len() == i,
                forall|k: int|
                    0 <= k < i ==> {
                        &&& (#[trigger] new_m_preconds@[k]).ident@ == orig_mp[k].ident@
                        &&& new_m_preconds@[k].impl_type@ == orig_mp[k].impl_type@
                        &&& new_m_preconds@[k].inputs@ == orig_mp[k].inputs@
                        &&& new_m_preconds@[k].generics@ == orig_mp[k].generics@
                        &&& type_wf(new_m_preconds@[k].impl_type@)
                        &&& expr_views(new_m_preconds@[k].requires@) == processed_requires(
                            expr_views(orig_mp[k].requires@),
                            rendered_of(allowed@),
                            Some(rendered_segs(orig_mp[k].impl_type@)),
                        )
                    },
            decreases rest@.len(),
        {
            proof {
                assert(rest@[0] == orig_mp[i as int]);
            }
            let p = rest.remove(0);
            let MethodPrecond { generics, impl_type, ident, inputs, requires: reqs } = p;
            let processed = process_requires(reqs, &allowed, Some(&impl_type));
            new_m_preconds.push(
                MethodPrecond { generics, impl_type, ident, inputs, requires: processed },
            );
            proof {
                assert(rest@ =~= orig_mp.skip(i + 1));
            }
            i += 1;
        }
        let r = CodeGenerator {
            spec_functions: kept_fns,
            spec_methods: kept_methods,
            function_preconds: new_fn_preconds,
            method_preconds: new_m_preconds,
        };
        proof {
            assert(pipeline_processed(r, function_preconds@, method_preconds@, av));
            assert(r.spec_functions@ == filter_allowed_fns(orig_sf, av));
            assert(r.spec_methods@ == filter_allowed_methods(orig_sm, av));
        }
        r
    }
}

/// The emitted text of all spec functions, in order.
pub open spec fn fold_spec_fns(fs: Seq<SpecFunction>) -> Seq<char>
    decreases fs,
{
    if fs.len() == 0 {
        Seq::empty()
    } else {
        fold_spec_fns(fs.drop_last()) + spec_function_code(fs.last())
    }
}

/// The emitted text of all spec methods, in order.
pub open spec fn fold_spec_methods(ms: Seq<SpecMethod>) -> Seq<char>
    decreases ms,
{
    if ms.len() == 0 {
        Seq::empty()
    } else {
        fold_spec_methods(ms.drop_last()) + spec_method_code(ms.last())
    }
}

/// The emitted text of all function precondition checkers, in order.
pub open spec fn fold_fn_preconds(ps: Seq<FunctionPrecond>) -> Seq<char>
    decreases ps,
{
    if ps.len() == 0 {
        Seq::empty()
    } else {
        fold_fn_preconds(ps.drop_last()) + precond_fn_code(ps.last())
    }
}

/// The emitted text of all method precondition checkers, in order.
pub open spec fn fold_method_preconds(ps: Seq<MethodPrecond>) -> Seq<char>
    decreases ps,
{
    if ps.len() == 0 {
        Seq::empty()
    } else {
        fold_method_preconds(ps.drop_last()) + precond_method_code(ps.last())
    }
}

} // verus!
