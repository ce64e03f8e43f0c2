use vstd::prelude::*;
use crate::types::{Type, Ty, TypeKind, copy_type, pointer_to, ty_int, types_view};

verus! {

#[derive(Clone, Copy, Debug, PartialEq, Eq, Structural)]
pub enum UnaryOp {
    Plus,       // +
    Minus,      // -
    Addr,       // &
    Deref,      // *
    ExprStmt,   // expression statement
}

#[derive(Clone, Copy, Debug, PartialEq, Eq, Structural)]
pub enum BinaryOp {
    Add,    // +
    Sub,    // -
    Mul,    // *
    Div,    // /
    Eq,     // ==
    Ne,     // !=
    Lt,     // <
    Le,     // <=
    Assign, // =
}

/// A node of the typed syntax tree; each node owns its children.
pub struct Ast {
    pub kind: AstKind,
}

#[allow(inconsistent_fields)]
pub enum AstKind {
    Num(i64),
    UnaryOp(UnaryOp, Box<Ast>),
    BinaryOp(BinaryOp, Box<Ast>, Box<Ast>),
    If { cond: Box<Ast>, then_stmt: Box<Ast>, else_stmt: Option<Box<Ast>> },
    /// Both `for` and `while`.
    For {
        init: Option<Box<Ast>>,
        cond: Option<Box<Ast>>,
        inc: Option<Box<Ast>>,
        body: Box<Ast>,
    },
    Block(Vec<Box<Ast>>),
    /// The name of the enclosing function, and the returned expression.
    Return(String, Box<Ast>),
    /// A local variable and its distance below the frame pointer.
    Var { name: String, ty: Type, offset: usize },
    Funcall { name: String, args: Vec<Box<Ast>> },
    Funcdef { name: String, body: Box<Ast>, params: Vec<Type>, stack_size: usize },
}

/// Mathematical model of an [`Ast`].
pub enum Node {
    Num(i64),
    Unary(UnaryOp, Box<Node>),
    Binary(BinaryOp, Box<Node>, Box<Node>),
    If(Box<Node>, Box<Node>, Option<Box<Node>>),
    For(Option<Box<Node>>, Option<Box<Node>>, Option<Box<Node>>, Box<Node>),
    Block(Seq<Node>),
    Return(Seq<char>, Box<Node>),
    Var(Seq<char>, Ty, usize),
    Funcall(Seq<char>, Seq<Node>),
    Funcdef(Seq<char>, Box<Node>, Seq<Ty>, usize),
}

pub open spec fn opt_view(o: Option<Box<Ast>>) -> Option<Box<Node>>
    decreases o,
{
    match o {
        Some(a) => Some(Box::new(a.view())),
        None => None,
    }
}

pub open spec fn asts_view(s: Seq<Box<Ast>>) -> Seq<Node>
    decreases s,
{
    if s.len() == 0 {
        Seq::empty()
    } else {
        asts_view(s.subrange(0, s.len() - 1)).push(s[s.len() - 1].view())
    }
}

impl Ast {
    pub open spec fn view(&self) -> Node
        decreases self,
    {
        match self.kind {
            AstKind::Num(v) => Node::Num(v),
            AstKind::UnaryOp(op, x) => Node::Unary(op, Box::new(x.view())),
            AstKind::BinaryOp(op, l, r) => Node::Binary(op, Box::new(l.view()), Box::new(r.view())),
            AstKind::If { cond, then_stmt, else_stmt } => Node::If(
                Box::new(cond.view()),
                Box::new(then_stmt.view()),
                opt_view(else_stmt),
            ),
            AstKind::For { init, cond, inc, body } => Node::For(
                opt_view(init),
                opt_view(cond),
                opt_view(inc),
                Box::new(body.view()),
            ),
            AstKind::Block(v) => Node::Block(asts_view(v@)),
            AstKind::Return(f, x) => Node::Return(f@, Box::new(x.view())),
            AstKind::Var { name, ty, offset } => Node::Var(name@, ty.view(), offset),
            AstKind::Funcall { name, args } => Node::Funcall(name@, asts_view(args@)),
            AstKind::Funcdef { name, body, params, stack_size } => Node::Funcdef(
                name@,
                Box::new(body.view()),
                types_view(params@),
                stack_size,
            ),
        }
    }

    pub fn new(kind: AstKind) -> (r: Self)
        ensures
            r.kind == kind,
    {
        Self { kind }
    }

    /// Whether this is a number literal.
    pub fn is_integer(&self) -> (r: bool)
        ensures
            r == (self.view() is Num),
    {
        matches!(self.kind, AstKind::Num(_))
    }

    /// Whether this expression has a pointer type.
    pub fn is_pointer(&self) -> (r: bool)
        ensures
            r == node_is_pointer(self.view()),
    {
        self.expr_type().kind.is_pointer()
    }

    /// The static type of this expression.
    pub fn expr_type(&self) -> (r: Type)
        ensures
            r.view() == expr_ty(self.view()),
        decreases self,
    {
        match &self.kind {
            AstKind::Var { name: _, ty, offset: _ } => copy_type(ty),
            AstKind::UnaryOp(op, x) => match op {
                UnaryOp::Addr => pointer_to(x.expr_type()),
                UnaryOp::Deref => {
                    let t = x.expr_type();
                    match t.kind {
                        TypeKind::Ptr(base) => *base,
                        _ => ty_int(),
                    }
                },
                UnaryOp::Plus | UnaryOp::Minus => x.expr_type(),
                UnaryOp::ExprStmt => ty_int(),
            },
            AstKind::BinaryOp(op, l, r) => match op {
                BinaryOp::Add => {
                    let lt = l.expr_type();
                    if lt.kind.is_pointer() {
                        lt
                    } else {
                        let rt = r.expr_type();
                        if rt.kind.is_pointer() {
                            rt
                        } else {
                            ty_int()
                        }
                    }
                },
                BinaryOp::Sub => {
                    let lt = l.expr_type();
                    if lt.kind.is_pointer() && !r.expr_type().kind.is_pointer() {
                        lt
                    } else {
                        ty_int()
                    }
                },
                BinaryOp::Assign => l.expr_type(),
                _ => ty_int(),
            },
            _ => ty_int(),
        }
    }
}

/// The static type of an expression: a variable has its declared type, `&x`
/// points to the type of `x`, `*x` has the pointee of `x`'s type, pointer plus
/// or minus an integer is that pointer's type, an assignment has the type of
/// its target; everything else (numbers, pointer differences, products,
/// comparisons, calls) is an integer.
pub open spec fn expr_ty(n: Node) -> Ty
    decreases n,
{
    match n {
        Node::Var(_, ty, _) => ty,
        Node::Unary(op, x) => match op {
            UnaryOp::Addr => Ty::Ptr(Box::new(expr_ty(*x))),
            UnaryOp::Deref => match expr_ty(*x) {
                Ty::Ptr(base) => *base,
                _ => Ty::Int,
            },
            UnaryOp::Plus | UnaryOp::Minus => expr_ty(*x),
            UnaryOp::ExprStmt => Ty::Int,
        },
        Node::Binary(op, l, r) => match op {
            BinaryOp::Add => if expr_ty(*l) is Ptr {
                expr_ty(*l)
            } else if expr_ty(*r) is Ptr {
                expr_ty(*r)
            } else {
                Ty::Int
            },
            BinaryOp::Sub => if expr_ty(*l) is Ptr && !(expr_ty(*r) is Ptr) {
                expr_ty(*l)
            } else {
                Ty::Int
            },
            BinaryOp::Assign => expr_ty(*l),
            _ => Ty::Int,
        },
        _ => Ty::Int,
    }
}

/// An expression that pointer arithmetic treats as a pointer: one of pointer type.
pub open spec fn node_is_pointer(n: Node) -> bool {
    expr_ty(n) is Ptr
}

pub proof fn lemma_asts_view_push(s: Seq<Box<Ast>>, a: Box<Ast>)
    ensures
        asts_view(s.push(a)) == asts_view(s).push(a.view()),
{
    assert(s.push(a).subrange(0, s.len() as int) =~= s);
}

} // verus!
