//! The reduced expression grammar of the specification dialect.
//!
//! Precondition clauses and spec-function bodies are held in this closed
//! grammar: literals, paths, indexing, casts, field accesses, the binary and
//! unary operators, free calls and method calls.  Anything outside it is
//! dropped by the collection front end before it reaches this crate.

use vstd::prelude::*;

verus! {

use crate::path::Path;

broadcast use vstd::std_specs::vec::group_vec_axioms;

/// Binary operators of the grammar.
#[derive(Clone, Copy, PartialEq, Eq, Structural)]
pub enum BinaryOp {
    /// Addition.
    Add,
    /// Subtraction.
    Sub,
    /// Multiplication.
    Mul,
    /// Division.
    Div,
    /// Remainder.
    Mod,
    /// Less-than.
    Lt,
    /// Less-or-equal.
    Le,
    /// Equality.
    Eq,
    /// Inequality.
    Ne,
    /// Greater-than.
    Gt,
    /// Greater-or-equal.
    Ge,
    /// Conjunction.
    And,
    /// Disjunction.
    Or,
    /// Implication, lowered to `(!a) || b` on emission.
    Imply,
}

/// Unary operators of the grammar.
#[derive(Clone, Copy, PartialEq, Eq, Structural)]
pub enum UnaryOp {
    /// Boolean negation.
    Not,
}

/// A literal value.
pub enum ExprLit {
    /// A boolean literal.
    Bool(bool),
    /// A signed integer literal.
    Int(i128),
    /// A string literal.
    Str(String),
}

/// A path expression.
pub struct ExprPath {
    /// The referenced path.
    pub path: Path,
}

/// An indexing expression `base[index]`.
pub struct ExprIndex {
    /// The indexed expression.
    pub base: Box<Expr>,
    /// The index expression.
    pub index: Box<Expr>,
}

/// A cast expression `expr as T`, with the target type rendered as text.
pub struct ExprCast {
    /// The cast expression.
    pub expr: Box<Expr>,
    /// The rendered target type.
    pub to_type: String,
}

/// A field access `base.field`.
pub struct ExprField {
    /// The accessed expression.
    pub base: Box<Expr>,
    /// The field name.
    pub field: String,
}

/// A binary expression `left op right`.
pub struct ExprBinary {
    /// The operator.
    pub op: BinaryOp,
    /// The left operand.
    pub left: Box<Expr>,
    /// The right operand.
    pub right: Box<Expr>,
}

/// A unary expression `op expr`.
pub struct ExprUnary {
    /// The operator.
    pub op: UnaryOp,
    /// The operand.
    pub expr: Box<Expr>,
}

/// A free call `func(args)`.
pub struct ExprCall {
    /// The called path.
    pub func: ExprPath,
    /// The arguments.
    pub args: Vec<Expr>,
}

/// A method call `receiver.method(args)`; the view projection is carried as
/// the pseudo-method `view`.
pub struct ExprMethodCall {
    /// The receiver expression.
    pub receiver: Box<Expr>,
    /// The method name.
    pub method: String,
    /// The arguments.
    pub args: Vec<Expr>,
}

/// A checkable expression of the reduced grammar.
pub enum Expr {
    /// Literal value.
    Lit(ExprLit),
    /// Path access.
    Path(ExprPath),
    /// Indexing.
    Index(ExprIndex),
    /// Type cast.
    Cast(ExprCast),
    /// Field access.
    Field(ExprField),
    /// Binary operation.
    Binary(ExprBinary),
    /// Unary operation.
    Unary(ExprUnary),
    /// Call of a free function.
    Call(ExprCall),
    /// Call of a method.
    MethodCall(ExprMethodCall),
}

/// The mathematical value of a literal.
pub enum LitV {
    /// A boolean literal.
    Bool(bool),
    /// An integer literal.
    Int(int),
    /// A string literal.
    Str(Seq<char>),
}

/// The mathematical value of an expression.
#[verifier::ext_equal]
pub enum ExprV {
    /// Literal value.
    Lit(LitV),
    /// Path access: the segments.
    Path(Seq<Seq<char>>),
    /// Indexing: base and index.
    Index(Box<ExprV>, Box<ExprV>),
    /// Cast: expression and rendered target type.
    Cast(Box<ExprV>, Seq<char>),
    /// Field access: base and field name.
    Field(Box<ExprV>, Seq<char>),
    /// Binary operation.
    Binary(BinaryOp, Box<ExprV>, Box<ExprV>),
    /// Unary operation.
    Unary(UnaryOp, Box<ExprV>),
    /// Free call: callee segments and arguments.
    Call(Seq<Seq<char>>, Seq<ExprV>),
    /// Method call: receiver, method name and arguments.
    MethodCall(Box<ExprV>, Seq<char>, Seq<ExprV>),
}

impl ExprLit {
    /// The value of this literal.
    pub open spec fn view(&self) -> LitV {
        match *self {
            ExprLit::Bool(b) => LitV::Bool(b),
            ExprLit::Int(i) => LitV::Int(i as int),
            ExprLit::Str(ref s) => LitV::Str(s@),
        }
    }
}

impl Expr {
    /// The value of this expression.
    pub open spec fn view(&self) -> ExprV
        decreases *self,
    {
        match *self {
            Expr::Lit(ref l) => ExprV::Lit(l@),
            Expr::Path(ref p) => ExprV::Path(p.path@),
            Expr::Index(ref ix) => ExprV::Index(Box::new((*ix.base)@), Box::new((*ix.index)@)),
            Expr::Cast(ref c) => ExprV::Cast(Box::new((*c.expr)@), c.to_type@),
            Expr::Field(ref f) => ExprV::Field(Box::new((*f.base)@), f.field@),
            Expr::Binary(ref b) => ExprV::Binary(
                b.op,
                Box::new((*b.left)@),
                Box::new((*b.right)@),
            ),
            Expr::Unary(ref u) => ExprV::Unary(u.op, Box::new((*u.expr)@)),
            Expr::Call(ref c) => ExprV::Call(c.func.path@, expr_views(c.args@)),
            Expr::MethodCall(ref m) => ExprV::MethodCall(
                Box::new((*m.receiver)@),
                m.method@,
                expr_views(m.args@),
            ),
        }
    }
}

/// The values of a sequence of expressions.
pub open spec fn expr_views(es: Seq<Expr>) -> Seq<ExprV>
    decreases es,
{
    if es.len() == 0 {
        Seq::empty()
    } else {
        expr_views(es.drop_last()).push(es.last()@)
    }
}

/// `expr_views` maps each element to its value.
pub proof fn lemma_expr_views(es: Seq<Expr>)
    ensures
        expr_views(es).len() == es.len(),
        forall|i: int| 0 <= i < es.len() ==> expr_views(es)[i] == (#[trigger] es[i])@,
    decreases es.len(),
{
    if es.len() > 0 {
        lemma_expr_views(es.drop_last());
        assert forall|i: int| 0 <= i < es.len() implies expr_views(es)[i] == (#[trigger] es[i])@
            by {
            if i < es.len() - 1 {
                assert(es.drop_last()[i] == es[i]);
            }
        }
    }
}

/// An item of a block; only expressions are supported.
pub enum BlockItem {
    /// An expression item.
    Expr(Expr),
}

/// A block: a sequence of items.
pub struct Block {
    /// The items of the block.
    pub items: Vec<BlockItem>,
}

impl BlockItem {
    /// The value of this item.
    pub open spec fn view(&self) -> ExprV {
        match *self {
            BlockItem::Expr(ref e) => e@,
        }
    }
}

impl Block {
    /// The values of the block items.
    pub open spec fn view(&self) -> Seq<ExprV> {
        block_views(self.items@)
    }
}

/// The values of a sequence of block items.
pub open spec fn block_views(bs: Seq<BlockItem>) -> Seq<ExprV>
    decreases bs,
{
    if bs.len() == 0 {
        Seq::empty()
    } else {
        block_views(bs.drop_last()).push(bs.last()@)
    }
}

/// `block_views` maps each item to its value.
pub proof fn lemma_block_views(bs: Seq<BlockItem>)
    ensures
        block_views(bs).len() == bs.len(),
        forall|i: int| 0 <= i < bs.len() ==> block_views(bs)[i] == (#[trigger] bs[i])@,
    decreases bs.len(),
{
    if bs.len() > 0 {
        lemma_block_views(bs.drop_last());
        assert forall|i: int| 0 <= i < bs.len() implies block_views(bs)[i] == (#[trigger] bs[i])@
            by {
            if i < bs.len() - 1 {
                assert(bs.drop_last()[i] == bs[i]);
            }
        }
    }
}

} // verus!
