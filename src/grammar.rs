//! The grammar and its meaning, as spec functions over the token model.
//!
//! ```text
//! program      = funcdef*
//! funcdef      = "int" declarator "{" compound-stmt
//! compound-stmt= (declaration | stmt)* "}"
//! declaration  = "int" (declarator ("=" assign)? ("," declarator ("=" assign)?)*)? ";"
//! declarator   = "*"* ident type-suffix
//! type-suffix  = ("(" (param ("," param)*)? ")")?
//! param        = "int" declarator
//! stmt         = "return" expr ";" | "{" compound-stmt
//!              | "if" "(" expr ")" stmt ("else" stmt)?
//!              | "for" "(" expr? ";" expr? ";" expr? ")" stmt
//!              | "while" "(" expr ")" stmt | expr ";"
//! expr         = assign
//! assign       = equality ("=" assign)?
//! equality     = relational ("==" relational | "!=" relational)*
//! relational   = add ("<" add | "<=" add | ">" add | ">=" add)*
//! add          = mul ("+" mul | "-" mul)*
//! mul          = unary ("*" unary | "/" unary)*
//! unary        = ("+" | "-" | "&" | "*") unary | primary
//! primary      = "(" expr ")" | ident "(" (assign ("," assign)*)? ")" | ident | num
//! ```
//!
//! Each function takes the parse state before a phrase and gives the tree of
//! the phrase with the state after it, or the first error. A call whose
//! position came out of another call goes on only if that position moved
//! forward; the parser's own contracts show that it always does.

use vstd::prelude::*;
use crate::ast::{BinaryOp, Node, UnaryOp, expr_ty, node_is_pointer};
use crate::error::{CompileError, SemanticError};
use crate::tokenize::{Keyword, Symbol, Tok};
use crate::types::Ty;

verus! {

/// A local variable: its name, its type and its distance below the frame pointer.
pub struct Local {
    pub name: Seq<char>,
    pub ty: Ty,
    pub offset: usize,
}

/// Parse state: the token position, the enclosing function's name, and the
/// locals declared so far in that function.
pub struct PState {
    pub pos: int,
    pub func: Seq<char>,
    pub locals: Seq<Local>,
}

pub type PResult = Result<(Node, PState), CompileError>;

/// Bytes reserved at the top of each frame for the four saved scratch registers.
pub open spec fn saved_area() -> int {
    32
}

/// Offset of the local declared `k`-th (from 1) in its function.
pub open spec fn local_offset(k: int) -> int {
    saved_area() + 8 * k
}

pub open spec fn spec_align_to(n: int, align: int) -> int {
    (n + align - 1) / align * align
}

pub open spec fn tok_at(t: Seq<Tok>, p: int) -> Tok {
    if 0 <= p < t.len() {
        t[p]
    } else {
        Tok::Eof
    }
}

pub open spec fn is_sym(t: Seq<Tok>, p: int, sym: Symbol) -> bool {
    tok_at(t, p) == Tok::Symbol(sym)
}

pub open spec fn is_kw(t: Seq<Tok>, p: int, k: Keyword) -> bool {
    tok_at(t, p) == Tok::Keyword(k)
}

pub open spec fn adv(s: PState, n: int) -> PState {
    PState { pos: s.pos + n, ..s }
}

pub open spec fn advanced(t: Seq<Tok>, s: PState, s1: PState) -> bool {
    s.pos < s1.pos <= t.len()
}

pub open spec fn syntax_error(p: int) -> CompileError {
    CompileError::SyntaxError(p as usize)
}

/// The local named `name`, if one is declared.
pub open spec fn find_local(ls: Seq<Local>, name: Seq<char>) -> Option<Local> {
    if exists|i: int| 0 <= i < ls.len() && #[trigger] ls[i].name == name {
        Some(ls[choose|i: int| 0 <= i < ls.len() && #[trigger] ls[i].name == name])
    } else {
        None
    }
}

/// Whether a frame holding `n` locals, rounded up to 16 bytes, fits in `usize`.
pub open spec fn frame_fits(n: int) -> bool {
    local_offset(n) + 15 <= usize::MAX
}

/// Declares a local: a name already declared in the function is an error; a new
/// one takes the next 8-byte slot, if the frame still fits in `usize`.
pub open spec fn declare(s: PState, name: Seq<char>, ty: Ty) -> PResult {
    if find_local(s.locals, name) is Some {
        Err(CompileError::SemanticError(SemanticError::Redefinition))
    } else if !frame_fits(s.locals.len() + 1int) {
        Err(CompileError::ResourceExhaustedError)
    } else {
        let off = local_offset(s.locals.len() + 1int) as usize;
        Ok((Node::Var(name, ty, off), PState { locals: s.locals.push(Local { name, ty, offset: off }), ..s }))
    }
}

/// `+` with pointer scaling: a pointer and an integer give the pointer plus
/// eight times the integer; two pointers are an error.
pub open spec fn spec_new_add(l: Node, r: Node) -> Result<Node, CompileError> {
    let lp = node_is_pointer(l);
    let rp = node_is_pointer(r);
    if !lp && !rp {
        Ok(Node::Binary(BinaryOp::Add, Box::new(l), Box::new(r)))
    } else if lp && rp {
        Err(CompileError::SemanticError(SemanticError::InvalidOperands))
    } else if lp {
        Ok(Node::Binary(BinaryOp::Add, Box::new(l), Box::new(Node::Binary(BinaryOp::Mul, Box::new(r), Box::new(Node::Num(8))))))
    } else {
        Ok(Node::Binary(BinaryOp::Add, Box::new(r), Box::new(Node::Binary(BinaryOp::Mul, Box::new(l), Box::new(Node::Num(8))))))
    }
}

/// `-` with pointer scaling: pointer minus integer scales the integer by eight;
/// pointer minus pointer is the byte difference divided by eight; integer minus
/// pointer is an error.
pub open spec fn spec_new_sub(l: Node, r: Node) -> Result<Node, CompileError> {
    let lp = node_is_pointer(l);
    let rp = node_is_pointer(r);
    if !lp && !rp {
        Ok(Node::Binary(BinaryOp::Sub, Box::new(l), Box::new(r)))
    } else if lp && !rp {
        Ok(Node::Binary(BinaryOp::Sub, Box::new(l), Box::new(Node::Binary(BinaryOp::Mul, Box::new(r), Box::new(Node::Num(8))))))
    } else if !lp && rp {
        Err(CompileError::SemanticError(SemanticError::InvalidOperands))
    } else {
        Ok(Node::Binary(BinaryOp::Div, Box::new(Node::Binary(BinaryOp::Sub, Box::new(l), Box::new(r))), Box::new(Node::Num(8))))
    }
}

pub open spec fn bin(op: BinaryOp, l: Node, r: Node) -> Node {
    Node::Binary(op, Box::new(l), Box::new(r))
}

pub open spec fn p_expr(t: Seq<Tok>, s: PState) -> PResult
    decreases t.len() - s.pos, 9int,
{
    p_assign(t, s)
}

pub open spec fn p_assign(t: Seq<Tok>, s: PState) -> PResult
    decreases t.len() - s.pos, 8int,
{
    match p_equality(t, s) {
        Err(e) => Err(e),
        Ok((l, s1)) => if !is_sym(t, s1.pos, Symbol::Assign) {
            Ok((l, s1))
        } else if !advanced(t, s, s1) {
            Err(syntax_error(s.pos))
        } else {
            match p_assign(t, adv(s1, 1)) {
                Err(e) => Err(e),
                Ok((r, s2)) => Ok((bin(BinaryOp::Assign, l, r), s2)),
            }
        },
    }
}

pub open spec fn p_equality(t: Seq<Tok>, s: PState) -> PResult
    decreases t.len() - s.pos, 7int,
{
    match p_relational(t, s) {
        Err(e) => Err(e),
        Ok((l, s1)) => if advanced(t, s, s1) {
            p_equality_rest(t, l, s1)
        } else {
            Err(syntax_error(s.pos))
        },
    }
}

pub open spec fn p_equality_rest(t: Seq<Tok>, l: Node, s: PState) -> PResult
    decreases t.len() - s.pos, 0int,
{
    if is_sym(t, s.pos, Symbol::Eq) || is_sym(t, s.pos, Symbol::Ne) {
        let op = if is_sym(t, s.pos, Symbol::Eq) { BinaryOp::Eq } else { BinaryOp::Ne };
        match p_relational(t, adv(s, 1)) {
            Err(e) => Err(e),
            Ok((r, s1)) => if advanced(t, s, s1) {
                p_equality_rest(t, bin(op, l, r), s1)
            } else {
                Err(syntax_error(s.pos))
            },
        }
    } else {
        Ok((l, s))
    }
}

pub open spec fn p_relational(t: Seq<Tok>, s: PState) -> PResult
    decreases t.len() - s.pos, 6int,
{
    match p_add(t, s) {
        Err(e) => Err(e),
        Ok((l, s1)) => if advanced(t, s, s1) {
            p_relational_rest(t, l, s1)
        } else {
            Err(syntax_error(s.pos))
        },
    }
}

/// `a > b` is read as `b < a`, and `a >= b` as `b <= a`.
pub open spec fn p_relational_rest(t: Seq<Tok>, l: Node, s: PState) -> PResult
    decreases t.len() - s.pos, 0int,
{
    if is_sym(t, s.pos, Symbol::Lt) || is_sym(t, s.pos, Symbol::Le) || is_sym(t, s.pos, Symbol::Gt)
        || is_sym(t, s.pos, Symbol::Ge) {
        match p_add(t, adv(s, 1)) {
            Err(e) => Err(e),
            Ok((r, s1)) => if advanced(t, s, s1) {
                let n = if is_sym(t, s.pos, Symbol::Lt) {
                    bin(BinaryOp::Lt, l, r)
                } else if is_sym(t, s.pos, Symbol::Le) {
                    bin(BinaryOp::Le, l, r)
                } else if is_sym(t, s.pos, Symbol::Gt) {
                    bin(BinaryOp::Lt, r, l)
                } else {
                    bin(BinaryOp::Le, r, l)
                };
                p_relational_rest(t, n, s1)
            } else {
                Err(syntax_error(s.pos))
            },
        }
    } else {
        Ok((l, s))
    }
}

pub open spec fn p_add(t: Seq<Tok>, s: PState) -> PResult
    decreases t.len() - s.pos, 5int,
{
    match p_mul(t, s) {
        Err(e) => Err(e),
        Ok((l, s1)) => if advanced(t, s, s1) {
            p_add_rest(t, l, s1)
        } else {
            Err(syntax_error(s.pos))
        },
    }
}

pub open spec fn p_add_rest(t: Seq<Tok>, l: Node, s: PState) -> PResult
    decreases t.len() - s.pos, 0int,
{
    if is_sym(t, s.pos, Symbol::Add) || is_sym(t, s.pos, Symbol::Sub) {
        match p_mul(t, adv(s, 1)) {
            Err(e) => Err(e),
            Ok((r, s1)) => if advanced(t, s, s1) {
                let n = if is_sym(t, s.pos, Symbol::Add) { spec_new_add(l, r) } else { spec_new_sub(l, r) };
                match n {
                    Err(e) => Err(e),
                    Ok(n) => p_add_rest(t, n, s1),
                }
            } else {
                Err(syntax_error(s.pos))
            },
        }
    } else {
        Ok((l, s))
    }
}

pub open spec fn p_mul(t: Seq<Tok>, s: PState) -> PResult
    decreases t.len() - s.pos, 4int,
{
    match p_unary(t, s) {
        Err(e) => Err(e),
        Ok((l, s1)) => if advanced(t, s, s1) {
            p_mul_rest(t, l, s1)
        } else {
            Err(syntax_error(s.pos))
        },
    }
}

pub open spec fn p_mul_rest(t: Seq<Tok>, l: Node, s: PState) -> PResult
    decreases t.len() - s.pos, 0int,
{
    if is_sym(t, s.pos, Symbol::Asterisk) || is_sym(t, s.pos, Symbol::Div) {
        let op = if is_sym(t, s.pos, Symbol::Asterisk) { BinaryOp::Mul } else { BinaryOp::Div };
        match p_unary(t, adv(s, 1)) {
            Err(e) => Err(e),
            Ok((r, s1)) => if advanced(t, s, s1) {
                p_mul_rest(t, bin(op, l, r), s1)
            } else {
                Err(syntax_error(s.pos))
            },
        }
    } else {
        Ok((l, s))
    }
}

/// Unary minus is read as `0 - x`; unary plus leaves its operand as it is.
pub open spec fn p_unary(t: Seq<Tok>, s: PState) -> PResult
    decreases t.len() - s.pos, 3int,
{
    if is_sym(t, s.pos, Symbol::Add) {
        p_unary(t, adv(s, 1))
    } else if is_sym(t, s.pos, Symbol::Sub) {
        match p_unary(t, adv(s, 1)) {
            Err(e) => Err(e),
            Ok((x, s1)) => Ok((bin(BinaryOp::Sub, Node::Num(0), x), s1)),
        }
    } else if is_sym(t, s.pos, Symbol::Ampersand) || is_sym(t, s.pos, Symbol::Asterisk) {
        let op = if is_sym(t, s.pos, Symbol::Ampersand) { UnaryOp::Addr } else { UnaryOp::Deref };
        match p_unary(t, adv(s, 1)) {
            Err(e) => Err(e),
            Ok((x, s1)) => Ok((Node::Unary(op, Box::new(x)), s1)),
        }
    } else {
        p_primary(t, s)
    }
}

pub open spec fn p_primary(t: Seq<Tok>, s: PState) -> PResult
    decreases t.len() - s.pos, 2int,
{
    if is_sym(t, s.pos, Symbol::OpeningParen) {
        match p_expr(t, adv(s, 1)) {
            Err(e) => Err(e),
            Ok((n, s1)) => if is_sym(t, s1.pos, Symbol::ClosingParen) {
                Ok((n, adv(s1, 1)))
            } else {
                Err(syntax_error(s1.pos))
            },
        }
    } else if tok_at(t, s.pos) is Ident {
        if is_sym(t, s.pos + 1, Symbol::OpeningParen) {
            p_funcall(t, s)
        } else {
            match find_local(s.locals, tok_at(t, s.pos)->Ident_0) {
                Some(l) => Ok((Node::Var(l.name, l.ty, l.offset), adv(s, 1))),
                None => Err(CompileError::SemanticError(SemanticError::UndefinedVariable)),
            }
        }
    } else if tok_at(t, s.pos) is Num {
        Ok((Node::Num(tok_at(t, s.pos)->Num_0), adv(s, 1)))
    } else {
        Err(syntax_error(s.pos))
    }
}

pub open spec fn p_funcall(t: Seq<Tok>, s: PState) -> PResult
    decreases t.len() - s.pos, 1int,
{
    if tok_at(t, s.pos) is Ident && is_sym(t, s.pos + 1, Symbol::OpeningParen) {
        match p_args(t, adv(s, 2), seq![]) {
            Err(e) => Err(e),
            Ok((args, s1)) => Ok((Node::Funcall(tok_at(t, s.pos)->Ident_0, args), s1)),
        }
    } else {
        Err(syntax_error(s.pos))
    }
}

/// The arguments of a call after `(`, up to and including `)`.
pub open spec fn p_args(t: Seq<Tok>, s: PState, acc: Seq<Node>) -> Result<(Seq<Node>, PState), CompileError>
    decreases t.len() - s.pos, 10int,
{
    if is_sym(t, s.pos, Symbol::ClosingParen) {
        Ok((acc, adv(s, 1)))
    } else if acc.len() > 0 && !is_sym(t, s.pos, Symbol::Comma) {
        Err(syntax_error(s.pos))
    } else {
        let s0 = if acc.len() > 0 { adv(s, 1) } else { s };
        match p_assign(t, s0) {
            Err(e) => Err(e),
            Ok((a, s1)) => if advanced(t, s, s1) {
                p_args(t, s1, acc.push(a))
            } else {
                Err(syntax_error(s.pos))
            },
        }
    }
}

/// An optional expression followed by `stop`; gives the state after `stop`.
pub open spec fn p_clause(t: Seq<Tok>, s: PState, stop: Symbol) -> Result<(Option<Box<Node>>, PState), CompileError>
    decreases t.len() - s.pos, 11int,
{
    if is_sym(t, s.pos, stop) {
        Ok((None, adv(s, 1)))
    } else {
        match p_expr(t, s) {
            Err(e) => Err(e),
            Ok((n, s1)) => if is_sym(t, s1.pos, stop) {
                Ok((Some(Box::new(n)), adv(s1, 1)))
            } else {
                Err(syntax_error(s1.pos))
            },
        }
    }
}

pub open spec fn expr_stmt_of(o: Option<Box<Node>>) -> Option<Box<Node>> {
    match o {
        Some(n) => Some(Box::new(Node::Unary(UnaryOp::ExprStmt, n))),
        None => None,
    }
}

pub open spec fn p_expr_stmt(t: Seq<Tok>, s: PState) -> PResult
    decreases t.len() - s.pos, 15int,
{
    match p_expr(t, s) {
        Err(e) => Err(e),
        Ok((n, s1)) => if is_sym(t, s1.pos, Symbol::Semicolon) {
            Ok((Node::Unary(UnaryOp::ExprStmt, Box::new(n)), adv(s1, 1)))
        } else {
            Err(syntax_error(s1.pos))
        },
    }
}

/// `if`, with its optional `else`, from the state after `if`.
pub open spec fn p_if(t: Seq<Tok>, s: PState) -> PResult
    decreases t.len() - s.pos, 16int,
{
    if !is_sym(t, s.pos, Symbol::OpeningParen) {
        Err(syntax_error(s.pos))
    } else {
        match p_expr(t, adv(s, 1)) {
            Err(e) => Err(e),
            Ok((c, s1)) => if !is_sym(t, s1.pos, Symbol::ClosingParen) {
                Err(syntax_error(s1.pos))
            } else if !advanced(t, s, s1) {
                Err(syntax_error(s.pos))
            } else {
                match p_stmt(t, adv(s1, 1)) {
                    Err(e) => Err(e),
                    Ok((th, s2)) => if !is_kw(t, s2.pos, Keyword::Else) {
                        Ok((Node::If(Box::new(c), Box::new(th), None), s2))
                    } else if !advanced(t, s, s2) {
                        Err(syntax_error(s.pos))
                    } else {
                        match p_stmt(t, adv(s2, 1)) {
                            Err(e) => Err(e),
                            Ok((el, s3)) => Ok((Node::If(Box::new(c), Box::new(th), Some(Box::new(el))), s3)),
                        }
                    },
                }
            },
        }
    }
}

/// `for`, from the state after `for`. The initialiser and the increment are
/// expression statements; the condition is an expression.
pub open spec fn p_for(t: Seq<Tok>, s: PState) -> PResult
    decreases t.len() - s.pos, 16int,
{
    if !is_sym(t, s.pos, Symbol::OpeningParen) {
        Err(syntax_error(s.pos))
    } else {
        match p_clause(t, adv(s, 1), Symbol::Semicolon) {
            Err(e) => Err(e),
            Ok((init, s1)) => if !advanced(t, s, s1) {
                Err(syntax_error(s.pos))
            } else {
                match p_clause(t, s1, Symbol::Semicolon) {
                    Err(e) => Err(e),
                    Ok((cond, s2)) => if !advanced(t, s, s2) {
                        Err(syntax_error(s.pos))
                    } else {
                        match p_clause(t, s2, Symbol::ClosingParen) {
                            Err(e) => Err(e),
                            Ok((inc, s3)) => if !advanced(t, s, s3) {
                                Err(syntax_error(s.pos))
                            } else {
                                match p_stmt(t, s3) {
                                    Err(e) => Err(e),
                                    Ok((body, s4)) => Ok((Node::For(expr_stmt_of(init), cond, expr_stmt_of(inc), Box::new(body)), s4)),
                                }
                            },
                        }
                    },
                }
            },
        }
    }
}

/// `while`, from the state after `while`: a `for` with only a condition.
pub open spec fn p_while(t: Seq<Tok>, s: PState) -> PResult
    decreases t.len() - s.pos, 16int,
{
    if !is_sym(t, s.pos, Symbol::OpeningParen) {
        Err(syntax_error(s.pos))
    } else {
        match p_expr(t, adv(s, 1)) {
            Err(e) => Err(e),
            Ok((c, s1)) => if !is_sym(t, s1.pos, Symbol::ClosingParen) {
                Err(syntax_error(s1.pos))
            } else if !advanced(t, s, s1) {
                Err(syntax_error(s.pos))
            } else {
                match p_stmt(t, adv(s1, 1)) {
                    Err(e) => Err(e),
                    Ok((body, s2)) => Ok((Node::For(None, Some(Box::new(c)), None, Box::new(body)), s2)),
                }
            },
        }
    }
}

pub open spec fn p_stmt(t: Seq<Tok>, s: PState) -> PResult
    decreases t.len() - s.pos, 17int,
{
    if is_kw(t, s.pos, Keyword::Return) {
        match p_expr(t, adv(s, 1)) {
            Err(e) => Err(e),
            Ok((x, s1)) => if is_sym(t, s1.pos, Symbol::Semicolon) {
                Ok((Node::Return(s.func, Box::new(x)), adv(s1, 1)))
            } else {
                Err(syntax_error(s1.pos))
            },
        }
    } else if is_kw(t, s.pos, Keyword::If) {
        p_if(t, adv(s, 1))
    } else if is_kw(t, s.pos, Keyword::For) {
        p_for(t, adv(s, 1))
    } else if is_kw(t, s.pos, Keyword::While) {
        p_while(t, adv(s, 1))
    } else if is_sym(t, s.pos, Symbol::OpeningBrace) {
        p_compound(t, adv(s, 1), seq![])
    } else {
        p_expr_stmt(t, s)
    }
}

/// The items of a block after `{`, up to and including `}`.
pub open spec fn p_compound(t: Seq<Tok>, s: PState, acc: Seq<Node>) -> PResult
    decreases t.len() - s.pos, 18int,
{
    if is_sym(t, s.pos, Symbol::ClosingBrace) {
        Ok((Node::Block(acc), adv(s, 1)))
    } else {
        let r = if is_kw(t, s.pos, Keyword::Int) { p_declaration(t, s) } else { p_stmt(t, s) };
        match r {
            Err(e) => Err(e),
            Ok((n, s1)) => if advanced(t, s, s1) {
                p_compound(t, s1, acc.push(n))
            } else {
                Err(syntax_error(s.pos))
            },
        }
    }
}

/// A declaration gives a block of the assignments of its initialisers.
pub open spec fn p_declaration(t: Seq<Tok>, s: PState) -> PResult
    decreases t.len() - s.pos, 17int,
{
    if !is_kw(t, s.pos, Keyword::Int) {
        Err(syntax_error(s.pos))
    } else {
        p_decl_items(t, adv(s, 1), seq![], true)
    }
}

pub open spec fn p_decl_items(t: Seq<Tok>, s: PState, acc: Seq<Node>, first: bool) -> PResult
    decreases t.len() - s.pos, 14int,
{
    if is_sym(t, s.pos, Symbol::Semicolon) {
        Ok((Node::Block(acc), adv(s, 1)))
    } else if !first && !is_sym(t, s.pos, Symbol::Comma) {
        Err(syntax_error(s.pos))
    } else {
        let s0 = if first { s } else { adv(s, 1) };
        match p_declarator(t, s0, Ty::Int, false) {
            Err(e) => Err(e),
            Ok((ty, name, s1)) => if !advanced(t, s, s1) {
                Err(syntax_error(s.pos))
            } else {
                match declare(s1, name, ty) {
                    Err(e) => Err(e),
                    Ok((var, s2)) => if !is_sym(t, s2.pos, Symbol::Assign) {
                        p_decl_items(t, s2, acc, false)
                    } else {
                        match p_assign(t, adv(s2, 1)) {
                            Err(e) => Err(e),
                            Ok((rhs, s3)) => if !advanced(t, s, s3) {
                                Err(syntax_error(s.pos))
                            } else {
                                p_decl_items(
                                    t,
                                    s3,
                                    acc.push(Node::Unary(UnaryOp::ExprStmt, Box::new(bin(BinaryOp::Assign, var, rhs)))),
                                    false,
                                )
                            },
                        }
                    },
                }
            },
        }
    }
}

/// `*`s, a name and a type suffix over the base type `ty`. With `params_local`,
/// the parameters of a function suffix are declared as locals.
pub open spec fn p_declarator(t: Seq<Tok>, s: PState, ty: Ty, params_local: bool) -> Result<(Ty, Seq<char>, PState), CompileError>
    decreases t.len() - s.pos, 13int,
{
    if is_sym(t, s.pos, Symbol::Asterisk) {
        p_declarator(t, adv(s, 1), Ty::Ptr(Box::new(ty)), params_local)
    } else if tok_at(t, s.pos) is Ident {
        match p_type_suffix(t, adv(s, 1), ty, params_local) {
            Err(e) => Err(e),
            Ok((ty2, s2)) => Ok((ty2, tok_at(t, s.pos)->Ident_0, s2)),
        }
    } else {
        Err(syntax_error(s.pos))
    }
}

pub open spec fn p_type_suffix(t: Seq<Tok>, s: PState, ty: Ty, params_local: bool) -> Result<(Ty, PState), CompileError>
    decreases t.len() - s.pos, 12int,
{
    if is_sym(t, s.pos, Symbol::OpeningParen) {
        p_params(t, adv(s, 1), ty, seq![], params_local)
    } else {
        Ok((ty, s))
    }
}

/// The parameters of a function type after `(`, up to and including `)`.
pub open spec fn p_params(t: Seq<Tok>, s: PState, ret: Ty, acc: Seq<Ty>, params_local: bool) -> Result<(Ty, PState), CompileError>
    decreases t.len() - s.pos, 11int,
{
    if is_sym(t, s.pos, Symbol::ClosingParen) {
        Ok((Ty::Func(Box::new(ret), acc), adv(s, 1)))
    } else if acc.len() > 0 && !is_sym(t, s.pos, Symbol::Comma) {
        Err(syntax_error(s.pos))
    } else {
        let s0 = if acc.len() > 0 { adv(s, 1) } else { s };
        if !is_kw(t, s0.pos, Keyword::Int) {
            Err(syntax_error(s0.pos))
        } else {
            match p_declarator(t, adv(s0, 1), Ty::Int, false) {
                Err(e) => Err(e),
                Ok((pty, pname, s1)) => if !advanced(t, s, s1) {
                    Err(syntax_error(s.pos))
                } else if params_local {
                    match declare(s1, pname, pty) {
                        Err(e) => Err(e),
                        Ok((_, s2)) => p_params(t, s2, ret, acc.push(pty), params_local),
                    }
                } else {
                    p_params(t, s1, ret, acc.push(pty), params_local)
                },
            }
        }
    }
}

/// A function definition. Its locals start empty, its parameters are its first
/// locals, and its frame is the last local's offset rounded up to 16.
pub open spec fn p_funcdef(t: Seq<Tok>, s: PState) -> PResult {
    if !is_kw(t, s.pos, Keyword::Int) {
        Err(syntax_error(s.pos))
    } else {
        let s0 = PState { pos: s.pos + 1, func: s.func, locals: seq![] };
        match p_declarator(t, s0, Ty::Int, true) {
            Err(e) => Err(e),
            Ok((ty, name, s1)) => if !(ty is Func) || !is_sym(t, s1.pos, Symbol::OpeningBrace) {
                Err(syntax_error(s1.pos))
            } else {
                match p_compound(t, PState { pos: s1.pos + 1, func: name, locals: s1.locals }, seq![]) {
                    Err(e) => Err(e),
                    Ok((body, s2)) => Ok((
                        Node::Funcdef(
                            name,
                            Box::new(body),
                            ty->Func_1,
                            spec_align_to(local_offset(s2.locals.len() as int), 16) as usize,
                        ),
                        s2,
                    )),
                }
            },
        }
    }
}

pub open spec fn p_program(t: Seq<Tok>, s: PState, acc: Seq<Node>) -> Result<Seq<Node>, CompileError>
    decreases t.len() - s.pos,
{
    if tok_at(t, s.pos) is Eof {
        Ok(acc)
    } else {
        match p_funcdef(t, s) {
            Err(e) => Err(e),
            Ok((f, s1)) => if !advanced(t, s, s1) {
                Err(syntax_error(s.pos))
            } else if defines(acc, fn_name(f)) {
                Err(CompileError::SemanticError(SemanticError::Redefinition))
            } else {
                p_program(t, s1, acc.push(f))
            },
        }
    }
}

/// The name of a function definition.
pub open spec fn fn_name(n: Node) -> Seq<char> {
    match n {
        Node::Funcdef(name, _, _, _) => name,
        _ => Seq::empty(),
    }
}

/// Whether one of the definitions `fs` has the name `name`.
pub open spec fn defines(fs: Seq<Node>, name: Seq<char>) -> bool {
    exists|i: int| 0 <= i < fs.len() && fn_name(#[trigger] fs[i]) == name
}

/// The function definitions of a token list, or its first error. A second
/// definition of a function name is a redefinition.
pub open spec fn spec_parse(t: Seq<Tok>) -> Result<Seq<Node>, CompileError> {
    p_program(t, PState { pos: 0, func: Seq::empty(), locals: Seq::empty() }, Seq::empty())
}

/// Declaring a name that the function has already declared fails with a
/// semantic error and leaves the declared locals as they were.
pub proof fn lemma_redeclaration_fails(s: PState, name: Seq<char>, ty: Ty, i: int)
    requires
        0 <= i < s.locals.len(),
        s.locals[i].name == name,
    ensures
        declare(s, name, ty) == Err::<(Node, PState), CompileError>(
            CompileError::SemanticError(SemanticError::Redefinition),
        ),
{
    assert(find_local(s.locals, name) is Some);
}

/// In `+`, a pointer and an integer may come in either order: the result is the
/// pointer plus eight times the integer.
pub proof fn lemma_new_add_commutes(p: Node, i: Node)
    requires
        node_is_pointer(p),
        !node_is_pointer(i),
    ensures
        spec_new_add(p, i) == spec_new_add(i, p),
        spec_new_add(p, i) == Ok::<Node, CompileError>(
            bin(BinaryOp::Add, p, bin(BinaryOp::Mul, i, Node::Num(8))),
        ),
{
}

/// The result of pointer arithmetic has the type the rules give: pointer plus or
/// minus an integer is that pointer's type, and pointer minus pointer is an
/// integer. So the rules apply again at the next `+` or `-` of a chain.
pub proof fn lemma_pointer_arith_types(l: Node, r: Node)
    ensures
        node_is_pointer(l) && !node_is_pointer(r) ==> spec_new_add(l, r) is Ok && expr_ty(
            spec_new_add(l, r)->Ok_0,
        ) == expr_ty(l),
        node_is_pointer(l) && !node_is_pointer(r) ==> spec_new_sub(l, r) is Ok && expr_ty(
            spec_new_sub(l, r)->Ok_0,
        ) == expr_ty(l),
        node_is_pointer(l) && node_is_pointer(r) ==> spec_new_sub(l, r) is Ok && expr_ty(
            spec_new_sub(l, r)->Ok_0,
        ) == Ty::Int,
{
    assert(expr_ty(bin(BinaryOp::Mul, r, Node::Num(8))) == Ty::Int);
}

} // verus!
