use vstd::prelude::*;
use crate::ast::{Ast, AstKind, BinaryOp, Node, UnaryOp, asts_view, lemma_asts_view_push, opt_view};
use crate::error::{CompileError, SemanticError};
use crate::grammar::{
    Local, frame_fits, advanced, PResult, PState, adv, bin, declare, find_local, is_kw, is_sym, local_offset, p_add,
    p_add_rest, p_args, p_assign, p_clause, p_compound, p_decl_items, p_declaration,
    p_declarator, p_equality, p_equality_rest, p_expr, p_expr_stmt, p_for, p_funcall, p_funcdef,
    p_if, p_mul, p_mul_rest, p_params, p_primary, p_program, p_relational, p_relational_rest,
    p_stmt, p_type_suffix, p_unary, p_while, spec_align_to, defines, fn_name, spec_new_add, spec_new_sub,
    spec_parse, tok_at,
};
use crate::tokenize::{Keyword, Symbol, Tok, Token, TokenKind, tokens_view};
use crate::types::{Ty, Type, TypeKind, copy_type, func_type, lemma_types_view_push, pointer_to, ty_int, types_view};

verus! {

/// A declared local variable.
struct LocalVar {
    name: String,
    ty: Type,
    offset: usize,
}

impl LocalVar {
    spec fn view(&self) -> Local {
        Local { name: self.name@, ty: self.ty.view(), offset: self.offset }
    }
}

spec fn locals_view(s: Seq<LocalVar>) -> Seq<Local> {
    s.map_values(|l: LocalVar| l.view())
}

/// Offsets follow declaration order, and no name is declared twice.
spec fn locals_ok(ls: Seq<Local>) -> bool {
    &&& forall|i: int| 0 <= i < ls.len() ==> #[trigger] ls[i].offset == local_offset(i + 1)
    &&& forall|i: int, j: int|
        0 <= i < ls.len() && 0 <= j < ls.len() && #[trigger] ls[i].name == #[trigger] ls[j].name
            ==> i == j
}

struct ParseContext {
    tokens: Vec<Token>,
    pos: usize,
    curr_funcname: String,
    locals: Vec<LocalVar>,
}

impl ParseContext {
    spec fn toks(&self) -> Seq<Tok> {
        tokens_view(self.tokens@)
    }

    spec fn state(&self) -> PState {
        PState { pos: self.pos as int, func: self.curr_funcname@, locals: locals_view(self.locals@) }
    }

    spec fn wf(&self) -> bool {
        &&& self.pos <= self.tokens.len()
        &&& self.locals_inv()
    }

    #[verifier::opaque]
    spec fn locals_inv(&self) -> bool {
        &&& frame_fits(self.locals.len() as int)
        &&& locals_ok(locals_view(self.locals@))
    }
}

/// The executable result `r` and the context `pc` after a call are what the
/// grammar gives.
spec fn agrees(r: Result<Ast, CompileError>, pc: ParseContext, exp: PResult) -> bool {
    match exp {
        Ok((n, s)) => r is Ok && r->Ok_0.view() == n && pc.state() == s,
        Err(e) => r == Err::<Ast, CompileError>(e),
    }
}

/// A call kept the tokens and the context's invariant.
spec fn kept(pc0: ParseContext, pc1: ParseContext) -> bool {
    &&& pc1.wf()
    &&& pc1.tokens@ == pc0.tokens@
    &&& pc1.pos <= pc1.tokens.len()
}

fn new_binary(op: BinaryOp, lhs: Ast, rhs: Ast) -> (r: Ast)
    ensures
        r.view() == bin(op, lhs.view(), rhs.view()),
{
    Ast::new(AstKind::BinaryOp(op, Box::new(lhs), Box::new(rhs)))
}

fn new_unary(op: UnaryOp, expr: Ast) -> (r: Ast)
    ensures
        r.view() == Node::Unary(op, Box::new(expr.view())),
{
    Ast::new(AstKind::UnaryOp(op, Box::new(expr)))
}

fn num_ast(v: i64) -> (r: Ast)
    ensures
        r.view() == Node::Num(v),
{
    Ast::new(AstKind::Num(v))
}

fn symbol_at(pc: &ParseContext, p: usize, sym: Symbol) -> (r: bool)
    ensures
        r == is_sym(pc.toks(), p as int, sym),
        r ==> p < pc.tokens.len(),
{
    if p < pc.tokens.len() {
        match &pc.tokens[p].kind {
            TokenKind::Symbol(s) => *s == sym,
            _ => false,
        }
    } else {
        false
    }
}

fn keyword_at(pc: &ParseContext, p: usize, k: Keyword) -> (r: bool)
    ensures
        r == is_kw(pc.toks(), p as int, k),
        r ==> p < pc.tokens.len(),
{
    if p < pc.tokens.len() {
        match &pc.tokens[p].kind {
            TokenKind::Keyword(x) => *x == k,
            _ => false,
        }
    } else {
        false
    }
}

fn ident_at(pc: &ParseContext, p: usize) -> (r: bool)
    ensures
        r == (tok_at(pc.toks(), p as int) is Ident),
        r ==> p < pc.tokens.len(),
{
    p < pc.tokens.len() && pc.tokens[p].kind.is_identifier()
}

/// The name of the identifier at `p`.
fn ident_name(pc: &ParseContext, p: usize) -> (r: String)
    requires
        tok_at(pc.toks(), p as int) is Ident,
    ensures
        r@ == tok_at(pc.toks(), p as int)->Ident_0,
{
    match &pc.tokens[p].kind {
        TokenKind::Ident(s) => s.clone(),
        _ => {
            proof { assert(false); }
            String::new()
        }
    }
}

/// The number literal at the current position.
fn new_num(pc: &ParseContext) -> (r: Result<Ast, CompileError>)
    ensures
        tok_at(pc.toks(), pc.pos as int) is Num ==> r is Ok && r->Ok_0.view() == Node::Num(
            tok_at(pc.toks(), pc.pos as int)->Num_0,
        ),
        !(tok_at(pc.toks(), pc.pos as int) is Num) ==> r == Err::<Ast, CompileError>(
            CompileError::SyntaxError(pc.pos),
        ),
{
    if pc.pos < pc.tokens.len() && pc.tokens[pc.pos].kind.is_num() {
        let val = pc.tokens[pc.pos].get_num();
        return Ok(num_ast(val));
    }
    Err(CompileError::SyntaxError(pc.pos))
}

/// Moves `n` tokens on.
fn advance(pc: &mut ParseContext, n: usize)
    requires
        old(pc).wf(),
        old(pc).pos + n <= old(pc).tokens.len(),
    ensures
        kept(*old(pc), *final(pc)),
        final(pc).curr_funcname == old(pc).curr_funcname,
        final(pc).locals == old(pc).locals,
        final(pc).pos == old(pc).pos + n,
        final(pc).state() == adv(old(pc).state(), n as int),
{
    reveal(ParseContext::locals_inv);
    pc.pos = pc.pos + n;
}

/// Moves past `sym`, or fails with a syntax error where it is missing.
fn skip(pc: &mut ParseContext, sym: Symbol) -> (r: Result<(), CompileError>)
    requires
        old(pc).wf(),
    ensures
        kept(*old(pc), *final(pc)),
        final(pc).curr_funcname == old(pc).curr_funcname,
        final(pc).locals == old(pc).locals,
        is_sym(old(pc).toks(), old(pc).pos as int, sym) ==> r is Ok && final(pc).pos == old(pc).pos + 1,
        !is_sym(old(pc).toks(), old(pc).pos as int, sym) ==> r == Err::<(), CompileError>(
            CompileError::SyntaxError(old(pc).pos),
        ),
{
    if !symbol_at(pc, pc.pos, sym) {
        return Err(CompileError::SyntaxError(pc.pos));
    }
    advance(pc, 1);
    Ok(())
}

/// The local named `name`, as a variable node.
fn find_var(pc: &ParseContext, name: &String) -> (r: Option<Ast>)
    requires
        pc.wf(),
    ensures
        match find_local(pc.state().locals, name@) {
            Some(l) => r is Some && r->0.view() == Node::Var(l.name, l.ty, l.offset),
            None => r is None,
        },
{
    let ghost ls = locals_view(pc.locals@);
    reveal(ParseContext::locals_inv);
    let mut i: usize = 0;
    while i < pc.locals.len()
        invariant
            pc.wf(),
            ls == locals_view(pc.locals@),
            i <= pc.locals.len(),
            forall|j: int| 0 <= j < i ==> ls[j].name != name@,
        decreases pc.locals.len() - i,
    {
        reveal(ParseContext::locals_inv);
        let var = &pc.locals[i];
        if var.name == *name {
            assert(ls[i as int].name == name@);
            let ast = Ast::new(AstKind::Var {
                name: var.name.clone(),
                ty: copy_type(&var.ty),
                offset: var.offset,
            });
            return Some(ast);
        }
        i = i + 1;
    }
    None
}

fn var_exists(pc: &ParseContext, name: &String) -> (r: bool)
    requires
        pc.wf(),
    ensures
        r == find_local(pc.state().locals, name@) is Some,
{
    match find_var(pc, name) {
        Some(_) => true,
        None => false,
    }
}

fn new_var_ast(pc: &ParseContext, name: &String) -> (r: Result<Ast, CompileError>)
    requires
        pc.wf(),
    ensures
        match find_local(pc.state().locals, name@) {
            Some(l) => r is Ok && r->Ok_0.view() == Node::Var(l.name, l.ty, l.offset),
            None => r == Err::<Ast, CompileError>(
                CompileError::SemanticError(SemanticError::UndefinedVariable),
            ),
        },
{
    match find_var(pc, name) {
        Some(var) => Ok(var),
        None => Err(CompileError::SemanticError(SemanticError::UndefinedVariable)),
    }
}

/// Declares a local variable in the current function.
fn add_var_ast(pc: &mut ParseContext, ty: Type, name: String) -> (r: Result<Ast, CompileError>)
    requires
        old(pc).wf(),
    ensures
        kept(*old(pc), *final(pc)),
        final(pc).pos == old(pc).pos,
        agrees(r, *final(pc), declare(old(pc).state(), name@, ty.view())),
        r is Err ==> final(pc).state() == old(pc).state(),
{
    reveal(ParseContext::locals_inv);
    if var_exists(pc, &name) {
        return Err(CompileError::SemanticError(SemanticError::Redefinition));
    }
    if pc.locals.len() > (usize::MAX - 55) / 8 {
        return Err(CompileError::ResourceExhaustedError);
    }
    let offset = 32 + 8 * (pc.locals.len() + 1);
    let var = LocalVar { name: name.clone(), ty: copy_type(&ty), offset };
    let ghost ls = locals_view(pc.locals@);
    pc.locals.push(var);
    proof {
        assert(locals_view(pc.locals@) =~= ls.push(var.view()));
        assert forall|i: int| 0 <= i < ls.len() implies ls[i].name != name@ by {
            if ls[i].name == name@ {
                assert(find_local(ls, name@) is Some);
            }
        }
    }
    Ok(Ast::new(AstKind::Var { name, ty, offset }))
}

spec fn agrees_node(r: Result<Ast, CompileError>, exp: Result<Node, CompileError>) -> bool {
    match exp {
        Ok(n) => r is Ok && r->Ok_0.view() == n,
        Err(e) => r == Err::<Ast, CompileError>(e),
    }
}

/// `lhs + rhs`, with pointer scaling.
fn new_add(lhs: Ast, rhs: Ast) -> (r: Result<Ast, CompileError>)
    ensures
        agrees_node(r, spec_new_add(lhs.view(), rhs.view())),
{
    let lp = lhs.is_pointer();
    let rp = rhs.is_pointer();
    if !lp && !rp {
        return Ok(new_binary(BinaryOp::Add, lhs, rhs));
    }
    if lp && rp {
        return Err(CompileError::SemanticError(SemanticError::InvalidOperands));
    }
    if lp {
        Ok(new_binary(BinaryOp::Add, lhs, new_binary(BinaryOp::Mul, rhs, num_ast(8))))
    } else {
        Ok(new_binary(BinaryOp::Add, rhs, new_binary(BinaryOp::Mul, lhs, num_ast(8))))
    }
}

/// `lhs - rhs`, with pointer scaling.
fn new_sub(lhs: Ast, rhs: Ast) -> (r: Result<Ast, CompileError>)
    ensures
        agrees_node(r, spec_new_sub(lhs.view(), rhs.view())),
{
    let lp = lhs.is_pointer();
    let rp = rhs.is_pointer();
    if !lp && !rp {
        return Ok(new_binary(BinaryOp::Sub, lhs, rhs));
    }
    if lp && !rp {
        return Ok(new_binary(BinaryOp::Sub, lhs, new_binary(BinaryOp::Mul, rhs, num_ast(8))));
    }
    if !lp && rp {
        return Err(CompileError::SemanticError(SemanticError::InvalidOperands));
    }
    Ok(new_binary(BinaryOp::Div, new_binary(BinaryOp::Sub, lhs, rhs), num_ast(8)))
}

// expr = assign
fn expr(pc: &mut ParseContext) -> (r: Result<Ast, CompileError>)
    requires
        old(pc).wf(),
    ensures
        kept(*old(pc), *final(pc)),
        r is Ok ==> old(pc).pos < final(pc).pos,
        agrees(r, *final(pc), p_expr(old(pc).toks(), old(pc).state())),
    decreases old(pc).tokens@.len() - old(pc).pos, 9int,
{
    assign(pc)
}

// assign = equality ("=" assign)?
fn assign(pc: &mut ParseContext) -> (r: Result<Ast, CompileError>)
    requires
        old(pc).wf(),
    ensures
        kept(*old(pc), *final(pc)),
        r is Ok ==> old(pc).pos < final(pc).pos,
        agrees(r, *final(pc), p_assign(old(pc).toks(), old(pc).state())),
    decreases old(pc).tokens@.len() - old(pc).pos, 8int,
{
    let lhs = match equality(pc) {
        Ok(a) => a,
        Err(e) => return Err(e),
    };
    if symbol_at(pc, pc.pos, Symbol::Assign) {
        advance(pc, 1);
        let rhs = match assign(pc) {
            Ok(a) => a,
            Err(e) => return Err(e),
        };
        return Ok(new_binary(BinaryOp::Assign, lhs, rhs));
    }
    Ok(lhs)
}

// equality = relational ("==" relational | "!=" relational)*
fn equality(pc: &mut ParseContext) -> (r: Result<Ast, CompileError>)
    requires
        old(pc).wf(),
    ensures
        kept(*old(pc), *final(pc)),
        r is Ok ==> old(pc).pos < final(pc).pos,
        agrees(r, *final(pc), p_equality(old(pc).toks(), old(pc).state())),
    decreases old(pc).tokens@.len() - old(pc).pos, 7int,
{
    let ghost pc0 = *pc;
    let ghost t = pc.toks();
    let mut ast = match relational(pc) {
        Ok(a) => a,
        Err(e) => return Err(e),
    };
    loop
        invariant
            pc0 == *old(pc),
            kept(pc0, *pc),
            t == pc.toks(),
            pc0.pos < pc.pos,
            p_equality(t, pc0.state()) == p_equality_rest(t, ast.view(), pc.state()),
        decreases pc.tokens@.len() - pc.pos,
    {
        let is_eq = symbol_at(pc, pc.pos, Symbol::Eq);
        if !is_eq && !symbol_at(pc, pc.pos, Symbol::Ne) {
            return Ok(ast);
        }
        advance(pc, 1);
        let rhs = match relational(pc) {
            Ok(a) => a,
            Err(e) => return Err(e),
        };
        let op = if is_eq { BinaryOp::Eq } else { BinaryOp::Ne };
        ast = new_binary(op, ast, rhs);
    }
}

// relational = add ("<" add | "<=" add | ">" add | ">=" add)*
fn relational(pc: &mut ParseContext) -> (r: Result<Ast, CompileError>)
    requires
        old(pc).wf(),
    ensures
        kept(*old(pc), *final(pc)),
        r is Ok ==> old(pc).pos < final(pc).pos,
        agrees(r, *final(pc), p_relational(old(pc).toks(), old(pc).state())),
    decreases old(pc).tokens@.len() - old(pc).pos, 6int,
{
    let ghost pc0 = *pc;
    let ghost t = pc.toks();
    let mut ast = match additive(pc) {
        Ok(a) => a,
        Err(e) => return Err(e),
    };
    loop
        invariant
            pc0 == *old(pc),
            kept(pc0, *pc),
            t == pc.toks(),
            pc0.pos < pc.pos,
            p_relational(t, pc0.state()) == p_relational_rest(t, ast.view(), pc.state()),
        decreases pc.tokens@.len() - pc.pos,
    {
        let lt = symbol_at(pc, pc.pos, Symbol::Lt);
        let le = symbol_at(pc, pc.pos, Symbol::Le);
        let gt = symbol_at(pc, pc.pos, Symbol::Gt);
        let ge = symbol_at(pc, pc.pos, Symbol::Ge);
        if !lt && !le && !gt && !ge {
            return Ok(ast);
        }
        advance(pc, 1);
        let rhs = match additive(pc) {
            Ok(a) => a,
            Err(e) => return Err(e),
        };
        ast = if lt {
            new_binary(BinaryOp::Lt, ast, rhs)
        } else if le {
            new_binary(BinaryOp::Le, ast, rhs)
        } else if gt {
            new_binary(BinaryOp::Lt, rhs, ast)
        } else {
            new_binary(BinaryOp::Le, rhs, ast)
        };
    }
}

// add = mul ("+" mul | "-" mul)*
fn additive(pc: &mut ParseContext) -> (r: Result<Ast, CompileError>)
    requires
        old(pc).wf(),
    ensures
        kept(*old(pc), *final(pc)),
        r is Ok ==> old(pc).pos < final(pc).pos,
        agrees(r, *final(pc), p_add(old(pc).toks(), old(pc).state())),
    decreases old(pc).tokens@.len() - old(pc).pos, 5int,
{
    let ghost pc0 = *pc;
    let ghost t = pc.toks();
    let mut ast = match multiplicative(pc) {
        Ok(a) => a,
        Err(e) => return Err(e),
    };
    loop
        invariant
            pc0 == *old(pc),
            kept(pc0, *pc),
            t == pc.toks(),
            pc0.pos < pc.pos,
            p_add(t, pc0.state()) == p_add_rest(t, ast.view(), pc.state()),
        decreases pc.tokens@.len() - pc.pos,
    {
        let plus = symbol_at(pc, pc.pos, Symbol::Add);
        if !plus && !symbol_at(pc, pc.pos, Symbol::Sub) {
            return Ok(ast);
        }
        advance(pc, 1);
        let rhs = match multiplicative(pc) {
            Ok(a) => a,
            Err(e) => return Err(e),
        };
        let combined = if plus { new_add(ast, rhs) } else { new_sub(ast, rhs) };
        ast = match combined {
            Ok(a) => a,
            Err(e) => return Err(e),
        };
    }
}

// mul = unary ("*" unary | "/" unary)*
fn multiplicative(pc: &mut ParseContext) -> (r: Result<Ast, CompileError>)
    requires
        old(pc).wf(),
    ensures
        kept(*old(pc), *final(pc)),
        r is Ok ==> old(pc).pos < final(pc).pos,
        agrees(r, *final(pc), p_mul(old(pc).toks(), old(pc).state())),
    decreases old(pc).tokens@.len() - old(pc).pos, 4int,
{
    let ghost pc0 = *pc;
    let ghost t = pc.toks();
    let mut ast = match unary(pc) {
        Ok(a) => a,
        Err(e) => return Err(e),
    };
    loop
        invariant
            pc0 == *old(pc),
            kept(pc0, *pc),
            t == pc.toks(),
            pc0.pos < pc.pos,
            p_mul(t, pc0.state()) == p_mul_rest(t, ast.view(), pc.state()),
        decreases pc.tokens@.len() - pc.pos,
    {
        let times = symbol_at(pc, pc.pos, Symbol::Asterisk);
        if !times && !symbol_at(pc, pc.pos, Symbol::Div) {
            return Ok(ast);
        }
        advance(pc, 1);
        let rhs = match unary(pc) {
            Ok(a) => a,
            Err(e) => return Err(e),
        };
        let op = if times { BinaryOp::Mul } else { BinaryOp::Div };
        ast = new_binary(op, ast, rhs);
    }
}

// unary = ("+" | "-" | "&" | "*") unary | primary
fn unary(pc: &mut ParseContext) -> (r: Result<Ast, CompileError>)
    requires
        old(pc).wf(),
    ensures
        kept(*old(pc), *final(pc)),
        r is Ok ==> old(pc).pos < final(pc).pos,
        agrees(r, *final(pc), p_unary(old(pc).toks(), old(pc).state())),
    decreases old(pc).tokens@.len() - old(pc).pos, 3int,
{
    if symbol_at(pc, pc.pos, Symbol::Add) {
        advance(pc, 1);
        return unary(pc);
    }
    if symbol_at(pc, pc.pos, Symbol::Sub) {
        advance(pc, 1);
        return match unary(pc) {
            Ok(x) => Ok(new_binary(BinaryOp::Sub, num_ast(0), x)),
            Err(e) => Err(e),
        };
    }
    let addr = symbol_at(pc, pc.pos, Symbol::Ampersand);
    if addr || symbol_at(pc, pc.pos, Symbol::Asterisk) {
        advance(pc, 1);
        let op = if addr { UnaryOp::Addr } else { UnaryOp::Deref };
        return match unary(pc) {
            Ok(x) => Ok(new_unary(op, x)),
            Err(e) => Err(e),
        };
    }
    primary(pc)
}

// primary = "(" expr ")" | ident func-args? | num
fn primary(pc: &mut ParseContext) -> (r: Result<Ast, CompileError>)
    requires
        old(pc).wf(),
    ensures
        kept(*old(pc), *final(pc)),
        r is Ok ==> old(pc).pos < final(pc).pos,
        agrees(r, *final(pc), p_primary(old(pc).toks(), old(pc).state())),
    decreases old(pc).tokens@.len() - old(pc).pos, 2int,
{
    if symbol_at(pc, pc.pos, Symbol::OpeningParen) {
        advance(pc, 1);
        let ast = match expr(pc) {
            Ok(a) => a,
            Err(e) => return Err(e),
        };
        return match skip(pc, Symbol::ClosingParen) {
            Ok(()) => Ok(ast),
            Err(e) => Err(e),
        };
    }
    if ident_at(pc, pc.pos) {
        if symbol_at(pc, pc.pos + 1, Symbol::OpeningParen) {
            return funcall(pc);
        }
        let ident = ident_name(pc, pc.pos);
        advance(pc, 1);
        return new_var_ast(pc, &ident);
    }
    let ast = match new_num(pc) {
        Ok(a) => a,
        Err(e) => return Err(e),
    };
    advance(pc, 1);
    Ok(ast)
}

spec fn call_of(name: Seq<char>, r: Result<(Seq<Node>, PState), CompileError>) -> PResult {
    match r {
        Err(e) => Err(e),
        Ok((a, s1)) => Ok((Node::Funcall(name, a), s1)),
    }
}

// func-args = "(" (assign ("," assign)*)? ")"
#[verifier::rlimit(100)]
fn funcall(pc: &mut ParseContext) -> (r: Result<Ast, CompileError>)
    requires
        old(pc).wf(),
        tok_at(old(pc).toks(), old(pc).pos as int) is Ident,
        is_sym(old(pc).toks(), old(pc).pos + 1, Symbol::OpeningParen),
    ensures
        kept(*old(pc), *final(pc)),
        r is Ok ==> old(pc).pos < final(pc).pos,
        agrees(r, *final(pc), p_funcall(old(pc).toks(), old(pc).state())),
    decreases old(pc).tokens@.len() - old(pc).pos, 1int,
{
    let ghost pc0 = *pc;
    let ghost t = pc.toks();
    let name = ident_name(pc, pc.pos);
    advance(pc, 2);
    let mut args: Vec<Box<Ast>> = Vec::new();
    assert(asts_view(args@) =~= Seq::<Node>::empty());
    loop
        invariant
            pc0 == *old(pc),
            kept(pc0, *pc),
            t == pc.toks(),
            pc0.pos < pc.pos,
            name@ == tok_at(t, pc0.pos as int)->Ident_0,
            asts_view(args@).len() == args.len(),
            p_funcall(t, pc0.state()) == call_of(name@, p_args(t, pc.state(), asts_view(args@))),
        decreases pc.tokens@.len() - pc.pos,
    {
        if symbol_at(pc, pc.pos, Symbol::ClosingParen) {
            advance(pc, 1);
            return Ok(Ast::new(AstKind::Funcall { name, args }));
        }
        let ghost s = pc.state();
        if args.len() != 0 {
            match skip(pc, Symbol::Comma) {
                Ok(()) => {},
                Err(e) => return Err(e),
            }
        }
        assert(pc.state() == if asts_view(args@).len() > 0 { adv(s, 1) } else { s });
        let ast = match assign(pc) {
            Ok(a) => a,
            Err(e) => return Err(e),
        };
        assert(p_args(t, s, asts_view(args@)) == p_args(t, pc.state(), asts_view(args@).push(ast.view())));
        proof {
            lemma_asts_view_push(args@, Box::new(ast));
        }
        args.push(Box::new(ast));
    }
}

spec fn agrees_opt(r: Result<Option<Box<Ast>>, CompileError>, pc: ParseContext, exp: Result<(Option<Box<Node>>, PState), CompileError>) -> bool {
    match exp {
        Ok((n, s)) => r is Ok && opt_view(r->Ok_0) == n && pc.state() == s,
        Err(e) => r == Err::<Option<Box<Ast>>, CompileError>(e),
    }
}

spec fn agrees_decl(r: Result<(Type, String), CompileError>, pc: ParseContext, exp: Result<(Ty, Seq<char>, PState), CompileError>) -> bool {
    match exp {
        Ok((ty, name, s)) => r is Ok && r->Ok_0.0.view() == ty && r->Ok_0.1@ == name && pc.state() == s,
        Err(e) => r == Err::<(Type, String), CompileError>(e),
    }
}

spec fn agrees_ty(r: Result<Type, CompileError>, pc: ParseContext, exp: Result<(Ty, PState), CompileError>) -> bool {
    match exp {
        Ok((ty, s)) => r is Ok && r->Ok_0.view() == ty && pc.state() == s,
        Err(e) => r == Err::<Type, CompileError>(e),
    }
}

// expr-stmt = expr ";"
fn expr_stmt(pc: &mut ParseContext) -> (r: Result<Ast, CompileError>)
    requires
        old(pc).wf(),
    ensures
        kept(*old(pc), *final(pc)),
        r is Ok ==> old(pc).pos < final(pc).pos,
        agrees(r, *final(pc), p_expr_stmt(old(pc).toks(), old(pc).state())),
    decreases old(pc).tokens@.len() - old(pc).pos, 15int,
{
    let x = match expr(pc) {
        Ok(a) => a,
        Err(e) => return Err(e),
    };
    match skip(pc, Symbol::Semicolon) {
        Ok(()) => Ok(new_unary(UnaryOp::ExprStmt, x)),
        Err(e) => Err(e),
    }
}

/// An optional expression and the symbol that ends it.
fn clause(pc: &mut ParseContext, stop: Symbol) -> (r: Result<Option<Box<Ast>>, CompileError>)
    requires
        old(pc).wf(),
    ensures
        kept(*old(pc), *final(pc)),
        r is Ok ==> old(pc).pos < final(pc).pos,
        agrees_opt(r, *final(pc), p_clause(old(pc).toks(), old(pc).state(), stop)),
    decreases old(pc).tokens@.len() - old(pc).pos, 11int,
{
    if symbol_at(pc, pc.pos, stop) {
        advance(pc, 1);
        return Ok(None);
    }
    let x = match expr(pc) {
        Ok(a) => a,
        Err(e) => return Err(e),
    };
    match skip(pc, stop) {
        Ok(()) => Ok(Some(Box::new(x))),
        Err(e) => Err(e),
    }
}

/// Wraps an optional expression as an expression statement.
fn as_statement(o: Option<Box<Ast>>) -> (r: Option<Box<Ast>>)
    ensures
        opt_view(r) == crate::grammar::expr_stmt_of(opt_view(o)),
{
    match o {
        Some(x) => Some(Box::new(new_unary(UnaryOp::ExprStmt, *x))),
        None => None,
    }
}

// "if" "(" expr ")" stmt ("else" stmt)?, after "if"
#[verifier::rlimit(100)]
fn if_stmt(pc: &mut ParseContext) -> (r: Result<Ast, CompileError>)
    requires
        old(pc).wf(),
    ensures
        kept(*old(pc), *final(pc)),
        r is Ok ==> old(pc).pos < final(pc).pos,
        agrees(r, *final(pc), p_if(old(pc).toks(), old(pc).state())),
    decreases old(pc).tokens@.len() - old(pc).pos, 16int,
{
    match skip(pc, Symbol::OpeningParen) {
        Ok(()) => {},
        Err(e) => return Err(e),
    }
    let cond = match expr(pc) {
        Ok(a) => a,
        Err(e) => return Err(e),
    };
    match skip(pc, Symbol::ClosingParen) {
        Ok(()) => {},
        Err(e) => return Err(e),
    }
    let then_stmt = match stmt(pc) {
        Ok(a) => a,
        Err(e) => return Err(e),
    };
    let mut else_stmt = None;
    assert(opt_view(else_stmt) == None::<Box<Node>>);
    if keyword_at(pc, pc.pos, Keyword::Else) {
        advance(pc, 1);
        else_stmt = match stmt(pc) {
            Ok(a) => Some(Box::new(a)),
            Err(e) => return Err(e),
        };
        assert(opt_view(else_stmt) == Some(Box::new(else_stmt->0.view())));
    }
    Ok(Ast::new(AstKind::If { cond: Box::new(cond), then_stmt: Box::new(then_stmt), else_stmt }))
}

// "for" "(" expr? ";" expr? ";" expr? ")" stmt, after "for"
#[verifier::rlimit(100)]
fn for_stmt(pc: &mut ParseContext) -> (r: Result<Ast, CompileError>)
    requires
        old(pc).wf(),
    ensures
        kept(*old(pc), *final(pc)),
        r is Ok ==> old(pc).pos < final(pc).pos,
        agrees(r, *final(pc), p_for(old(pc).toks(), old(pc).state())),
    decreases old(pc).tokens@.len() - old(pc).pos, 16int,
{
    let ghost t = pc.toks();
    let ghost s0 = pc.state();
    match skip(pc, Symbol::OpeningParen) {
        Ok(()) => {},
        Err(e) => return Err(e),
    }
    let init = match clause(pc, Symbol::Semicolon) {
        Ok(a) => a,
        Err(e) => return Err(e),
    };
    let ghost s1 = pc.state();
    assert(advanced(t, s0, s1));
    let cond = match clause(pc, Symbol::Semicolon) {
        Ok(a) => a,
        Err(e) => return Err(e),
    };
    let ghost s2 = pc.state();
    assert(advanced(t, s0, s2));
    let inc = match clause(pc, Symbol::ClosingParen) {
        Ok(a) => a,
        Err(e) => return Err(e),
    };
    let ghost s3 = pc.state();
    assert(advanced(t, s0, s3));
    let body = match stmt(pc) {
        Ok(a) => a,
        Err(e) => return Err(e),
    };
    Ok(Ast::new(AstKind::For {
        init: as_statement(init),
        cond,
        inc: as_statement(inc),
        body: Box::new(body),
    }))
}

// "while" "(" expr ")" stmt, after "while"
#[verifier::rlimit(100)]
fn while_stmt(pc: &mut ParseContext) -> (r: Result<Ast, CompileError>)
    requires
        old(pc).wf(),
    ensures
        kept(*old(pc), *final(pc)),
        r is Ok ==> old(pc).pos < final(pc).pos,
        agrees(r, *final(pc), p_while(old(pc).toks(), old(pc).state())),
    decreases old(pc).tokens@.len() - old(pc).pos, 16int,
{
    match skip(pc, Symbol::OpeningParen) {
        Ok(()) => {},
        Err(e) => return Err(e),
    }
    let cond = match expr(pc) {
        Ok(a) => a,
        Err(e) => return Err(e),
    };
    match skip(pc, Symbol::ClosingParen) {
        Ok(()) => {},
        Err(e) => return Err(e),
    }
    let body = match stmt(pc) {
        Ok(a) => a,
        Err(e) => return Err(e),
    };
    let cond = Some(Box::new(cond));
    assert(opt_view(cond) == Some(Box::new(cond->0.view())));
    assert(opt_view(None) == None::<Box<Node>>);
    Ok(Ast::new(AstKind::For { init: None, cond, inc: None, body: Box::new(body) }))
}

// stmt = "return" expr ";" | "{" compound-stmt | if | for | while | expr-stmt
fn stmt(pc: &mut ParseContext) -> (r: Result<Ast, CompileError>)
    requires
        old(pc).wf(),
    ensures
        kept(*old(pc), *final(pc)),
        r is Ok ==> old(pc).pos < final(pc).pos,
        agrees(r, *final(pc), p_stmt(old(pc).toks(), old(pc).state())),
    decreases old(pc).tokens@.len() - old(pc).pos, 17int,
{
    if keyword_at(pc, pc.pos, Keyword::Return) {
        let func = pc.curr_funcname.clone();
        advance(pc, 1);
        let x = match expr(pc) {
            Ok(a) => a,
            Err(e) => return Err(e),
        };
        return match skip(pc, Symbol::Semicolon) {
            Ok(()) => Ok(Ast::new(AstKind::Return(func, Box::new(x)))),
            Err(e) => Err(e),
        };
    }
    if keyword_at(pc, pc.pos, Keyword::If) {
        advance(pc, 1);
        return if_stmt(pc);
    }
    if keyword_at(pc, pc.pos, Keyword::For) {
        advance(pc, 1);
        return for_stmt(pc);
    }
    if keyword_at(pc, pc.pos, Keyword::While) {
        advance(pc, 1);
        return while_stmt(pc);
    }
    if symbol_at(pc, pc.pos, Symbol::OpeningBrace) {
        advance(pc, 1);
        return compound_stmt(pc);
    }
    expr_stmt(pc)
}

// compound-stmt = (declaration | stmt)* "}"
fn compound_stmt(pc: &mut ParseContext) -> (r: Result<Ast, CompileError>)
    requires
        old(pc).wf(),
    ensures
        kept(*old(pc), *final(pc)),
        r is Ok ==> old(pc).pos < final(pc).pos,
        agrees(r, *final(pc), p_compound(old(pc).toks(), old(pc).state(), Seq::empty())),
    decreases old(pc).tokens@.len() - old(pc).pos, 18int,
{
    let ghost pc0 = *pc;
    let ghost t = pc.toks();
    let mut body: Vec<Box<Ast>> = Vec::new();
    assert(asts_view(body@) =~= Seq::<Node>::empty());
    loop
        invariant
            pc0 == *old(pc),
            kept(pc0, *pc),
            t == pc.toks(),
            pc0.pos <= pc.pos,
            p_compound(t, pc0.state(), Seq::empty()) == p_compound(t, pc.state(), asts_view(body@)),
        decreases pc.tokens@.len() - pc.pos,
    {
        if symbol_at(pc, pc.pos, Symbol::ClosingBrace) {
            advance(pc, 1);
            return Ok(Ast::new(AstKind::Block(body)));
        }
        let item = if keyword_at(pc, pc.pos, Keyword::Int) { declaration(pc) } else { stmt(pc) };
        let ast = match item {
            Ok(a) => a,
            Err(e) => return Err(e),
        };
        proof {
            lemma_asts_view_push(body@, Box::new(ast));
        }
        body.push(Box::new(ast));
    }
}

// typespec = "int"
fn typespec(pc: &mut ParseContext) -> (r: Result<Type, CompileError>)
    requires
        old(pc).wf(),
    ensures
        kept(*old(pc), *final(pc)),
        final(pc).curr_funcname == old(pc).curr_funcname,
        final(pc).locals == old(pc).locals,
        is_kw(old(pc).toks(), old(pc).pos as int, Keyword::Int) ==> r is Ok && r->Ok_0.view() == Ty::Int
            && final(pc).pos == old(pc).pos + 1,
        !is_kw(old(pc).toks(), old(pc).pos as int, Keyword::Int) ==> r == Err::<Type, CompileError>(
            CompileError::SyntaxError(old(pc).pos),
        ),
{
    if !keyword_at(pc, pc.pos, Keyword::Int) {
        return Err(CompileError::SyntaxError(pc.pos));
    }
    advance(pc, 1);
    Ok(ty_int())
}

// declaration = typespec (declarator ("=" expr)? ("," declarator ("=" expr)?)*)? ";"
fn declaration(pc: &mut ParseContext) -> (r: Result<Ast, CompileError>)
    requires
        old(pc).wf(),
    ensures
        kept(*old(pc), *final(pc)),
        r is Ok ==> old(pc).pos < final(pc).pos,
        agrees(r, *final(pc), p_declaration(old(pc).toks(), old(pc).state())),
    decreases old(pc).tokens@.len() - old(pc).pos, 17int,
{
    let ghost pc0 = *pc;
    let ghost t = pc.toks();
    let basety = match typespec(pc) {
        Ok(ty) => ty,
        Err(e) => return Err(e),
    };
    let mut body: Vec<Box<Ast>> = Vec::new();
    let mut first = true;
    assert(asts_view(body@) =~= Seq::<Node>::empty());
    loop
        invariant
            pc0 == *old(pc),
            kept(pc0, *pc),
            t == pc.toks(),
            pc0.pos < pc.pos,
            basety.view() == Ty::Int,
            p_declaration(t, pc0.state()) == p_decl_items(t, pc.state(), asts_view(body@), first),
        decreases pc.tokens@.len() - pc.pos,
    {
        if symbol_at(pc, pc.pos, Symbol::Semicolon) {
            advance(pc, 1);
            return Ok(Ast::new(AstKind::Block(body)));
        }
        if !first {
            match skip(pc, Symbol::Comma) {
                Ok(()) => {},
                Err(e) => return Err(e),
            }
        }
        let (ty, name) = match declarator(pc, copy_type(&basety), false) {
            Ok(d) => d,
            Err(e) => return Err(e),
        };
        let lhs = match add_var_ast(pc, ty, name) {
            Ok(a) => a,
            Err(e) => return Err(e),
        };
        first = false;
        if !symbol_at(pc, pc.pos, Symbol::Assign) {
            continue;
        }
        advance(pc, 1);
        let rhs = match assign(pc) {
            Ok(a) => a,
            Err(e) => return Err(e),
        };
        let init = new_unary(UnaryOp::ExprStmt, new_binary(BinaryOp::Assign, lhs, rhs));
        proof {
            lemma_asts_view_push(body@, Box::new(init));
        }
        body.push(Box::new(init));
    }
}

// declarator = "*"* ident type-suffix
fn declarator(pc: &mut ParseContext, ty: Type, params_local: bool) -> (r: Result<(Type, String), CompileError>)
    requires
        old(pc).wf(),
    ensures
        kept(*old(pc), *final(pc)),
        r is Ok ==> old(pc).pos < final(pc).pos,
        agrees_decl(r, *final(pc), p_declarator(old(pc).toks(), old(pc).state(), ty.view(), params_local)),
    decreases old(pc).tokens@.len() - old(pc).pos, 13int,
{
    let ghost pc0 = *pc;
    let ghost t = pc.toks();
    let ghost ty0 = ty.view();
    let mut ty = ty;
    while symbol_at(pc, pc.pos, Symbol::Asterisk)
        invariant
            pc0 == *old(pc),
            kept(pc0, *pc),
            t == pc.toks(),
            pc0.pos <= pc.pos,
            p_declarator(t, pc0.state(), ty0, params_local)
                == p_declarator(t, pc.state(), ty.view(), params_local),
        decreases pc.tokens@.len() - pc.pos,
    {
        advance(pc, 1);
        ty = pointer_to(ty);
    }
    if !ident_at(pc, pc.pos) {
        return Err(CompileError::SyntaxError(pc.pos));
    }
    let name = ident_name(pc, pc.pos);
    advance(pc, 1);
    match type_suffix(pc, ty, params_local) {
        Ok(ty) => Ok((ty, name)),
        Err(e) => Err(e),
    }
}

// type-suffix = ("(" func-params? ")")?
// func-params = param ("," param)*
// param       = typespec declarator
fn type_suffix(pc: &mut ParseContext, ty: Type, params_local: bool) -> (r: Result<Type, CompileError>)
    requires
        old(pc).wf(),
    ensures
        kept(*old(pc), *final(pc)),
        r is Ok ==> old(pc).pos <= final(pc).pos,
        agrees_ty(r, *final(pc), p_type_suffix(old(pc).toks(), old(pc).state(), ty.view(), params_local)),
    decreases old(pc).tokens@.len() - old(pc).pos, 12int,
{
    let ghost pc0 = *pc;
    let ghost t = pc.toks();
    if !symbol_at(pc, pc.pos, Symbol::OpeningParen) {
        return Ok(ty);
    }
    advance(pc, 1);
    let mut params: Vec<Type> = Vec::new();
    assert(types_view(params@) =~= Seq::<Ty>::empty());
    loop
        invariant
            pc0 == *old(pc),
            kept(pc0, *pc),
            t == pc.toks(),
            pc0.pos < pc.pos,
            types_view(params@).len() == params.len(),
            p_type_suffix(t, pc0.state(), ty.view(), params_local)
                == p_params(t, pc.state(), ty.view(), types_view(params@), params_local),
        decreases pc.tokens@.len() - pc.pos,
    {
        if symbol_at(pc, pc.pos, Symbol::ClosingParen) {
            advance(pc, 1);
            return Ok(func_type(ty, params));
        }
        if params.len() != 0 {
            match skip(pc, Symbol::Comma) {
                Ok(()) => {},
                Err(e) => return Err(e),
            }
        }
        let basety = match typespec(pc) {
            Ok(b) => b,
            Err(e) => return Err(e),
        };
        let (pty, pname) = match declarator(pc, basety, false) {
            Ok(d) => d,
            Err(e) => return Err(e),
        };
        if params_local {
            match add_var_ast(pc, copy_type(&pty), pname) {
                Ok(_) => {},
                Err(e) => return Err(e),
            }
        }
        proof {
            lemma_types_view_push(params@, pty);
        }
        params.push(pty);
    }
}

fn align_to(n: usize, align: usize) -> (r: usize)
    requires
        align > 0,
        n + align - 1 <= usize::MAX,
    ensures
        r == spec_align_to(n as int, align as int),
{
    let q = (n + (align - 1)) / align;
    let ghost m: int = (n + align - 1) as int;
    assert(q * align <= m) by (nonlinear_arith)
        requires
            q == m / (align as int),
            align > 0,
            m >= 0,
    ;
    q * align
}

// funcdef = typespec declarator "{" compound-stmt
fn funcdef(pc: &mut ParseContext) -> (r: Result<Ast, CompileError>)
    requires
        old(pc).wf(),
    ensures
        kept(*old(pc), *final(pc)),
        r is Ok ==> old(pc).pos < final(pc).pos,
        agrees(r, *final(pc), p_funcdef(old(pc).toks(), old(pc).state())),
{
    if !keyword_at(pc, pc.pos, Keyword::Int) {
        return Err(CompileError::SyntaxError(pc.pos));
    }
    reveal(ParseContext::locals_inv);
    pc.locals = Vec::new();
    pc.pos = pc.pos + 1;
    assert(locals_view(pc.locals@) =~= Seq::<Local>::empty());
    let (ty, name) = match declarator(pc, ty_int(), true) {
        Ok(d) => d,
        Err(e) => return Err(e),
    };
    let is_func = match &ty.kind {
        TypeKind::Func { .. } => true,
        _ => false,
    };
    if !is_func || !symbol_at(pc, pc.pos, Symbol::OpeningBrace) {
        return Err(CompileError::SyntaxError(pc.pos));
    }
    reveal(ParseContext::locals_inv);
    pc.pos = pc.pos + 1;
    pc.curr_funcname = name.clone();
    let body = match compound_stmt(pc) {
        Ok(b) => b,
        Err(e) => return Err(e),
    };
    let stack_size = align_to(32 + 8 * pc.locals.len(), 16);
    Ok(Ast::new(AstKind::Funcdef { name, body: Box::new(body), params: ty.get_params(), stack_size }))
}

/// The function definitions of a program.
pub struct Program {
    pub functions: Vec<Ast>,
}

impl Program {
    pub open spec fn view(&self) -> Seq<Node> {
        self.functions@.map_values(|f: Ast| f.view())
    }
}

/// The name of a function definition, or the empty string.
fn function_name(a: &Ast) -> (r: String)
    ensures
        r@ == fn_name(a.view()),
{
    match &a.kind {
        AstKind::Funcdef { name, .. } => name.clone(),
        _ => String::new(),
    }
}

fn at_eof(pc: &ParseContext) -> (r: bool)
    ensures
        r == (tok_at(pc.toks(), pc.pos as int) is Eof),
{
    pc.pos >= pc.tokens.len() || matches!(pc.tokens[pc.pos].kind, TokenKind::Eof)
}

/// Parses a token list into its function definitions, or gives the first error.
#[verifier::rlimit(100)]
pub fn parse(tokens: Vec<Token>) -> (r: Result<Program, CompileError>)
    ensures
        match spec_parse(tokens_view(tokens@)) {
            Ok(fs) => r is Ok && r->Ok_0.view() == fs,
            Err(e) => r == Err::<Program, CompileError>(e),
        },
{
    let ghost t = tokens_view(tokens@);
    let mut prog = Program { functions: Vec::new() };
    let mut pc = ParseContext { tokens, pos: 0, curr_funcname: String::new(), locals: Vec::new() };
    proof {
        reveal(ParseContext::locals_inv);
        assert(locals_view(pc.locals@) =~= Seq::<Local>::empty());
        assert(prog.view() =~= Seq::<Node>::empty());
    }
    while !at_eof(&pc)
        invariant
            pc.wf(),
            t == pc.toks(),
            t == tokens_view(tokens@),
            spec_parse(t) == p_program(t, pc.state(), prog.view()),
        decreases pc.tokens@.len() - pc.pos,
    {
        let func = match funcdef(&mut pc) {
            Ok(f) => f,
            Err(e) => return Err(e),
        };
        let name = function_name(&func);
        assert(defines(prog.view(), fn_name(func.view())) ==> spec_parse(t) == Err::<Seq<Node>, CompileError>(
            CompileError::SemanticError(SemanticError::Redefinition),
        ));
        let mut j: usize = 0;
        while j < prog.functions.len()
            invariant
                t == tokens_view(tokens@),
                defines(prog.view(), fn_name(func.view())) ==> spec_parse(t) == Err::<Seq<Node>, CompileError>(
                    CompileError::SemanticError(SemanticError::Redefinition),
                ),
                j <= prog.functions.len(),
                name@ == fn_name(func.view()),
                forall|k: int| 0 <= k < j ==> fn_name(#[trigger] prog.view()[k]) != name@,
            decreases prog.functions.len() - j,
        {
            if function_name(&prog.functions[j]) == name {
                assert(fn_name(prog.view()[j as int]) == name@);
                return Err(CompileError::SemanticError(SemanticError::Redefinition));
            }
            j = j + 1;
        }
        assert(!defines(prog.view(), fn_name(func.view())));
        proof {
            assert(prog.functions@.push(func).map_values(|f: Ast| f.view()) =~= prog.view().push(func.view()));
        }
        prog.functions.push(func);
    }
    Ok(prog)
}

} // verus!
