//! Code generation: x86-64 assembly in Intel syntax.
//!
//! Expressions are evaluated on a stack of six scratch registers. The cursor
//! `c` is the index of the next free one: a leaf puts its value in register `c`
//! and a binary operator combines registers `c` and `c + 1` into `c`. Each
//! statement starts at cursor 0. An expression that needs a seventh register
//! is an error.

use vstd::prelude::*;
use crate::ast::{Ast, AstKind, BinaryOp, Node, UnaryOp, asts_view};
use crate::error::{CompileError, SemanticError};
use crate::parse::Program;
use crate::grammar::local_offset;
use crate::text::{decimal_i64, decimal_usize, int_decimal};
use crate::types::lemma_types_view_len;

verus! {

/// Number of scratch registers.
pub const SCRATCH_REGS: usize = 6;

pub open spec fn reg_name(i: int) -> Seq<char> {
    if i == 0 { "r10"@ }
    else if i == 1 { "r11"@ }
    else if i == 2 { "r12"@ }
    else if i == 3 { "r13"@ }
    else if i == 4 { "r14"@ }
    else { "r15"@ }
}

/// The registers that carry a call's arguments, in order.
pub open spec fn arg_name(i: int) -> Seq<char> {
    if i == 0 { "rdi"@ }
    else if i == 1 { "rsi"@ }
    else if i == 2 { "rdx"@ }
    else if i == 3 { "rcx"@ }
    else if i == 4 { "r8"@ }
    else { "r9"@ }
}

pub open spec fn nl() -> Seq<char> {
    "\n"@
}

/// `mov dst, src`
pub open spec fn mov(dst: Seq<char>, src: Seq<char>) -> Seq<char> {
    "  mov "@ + dst + ", "@ + src + nl()
}

/// A two-operand instruction.
pub open spec fn instr2(name: Seq<char>, d: Seq<char>, s: Seq<char>) -> Seq<char> {
    "  "@ + name + " "@ + d + ", "@ + s + nl()
}

/// The address `rbp - off`.
pub open spec fn frame_slot(off: int) -> Seq<char> {
    "[rbp-"@ + int_decimal(off) + "]"@
}

pub open spec fn deref(r: Seq<char>) -> Seq<char> {
    "["@ + r + "]"@
}

pub open spec fn label(kind: Seq<char>, n: int) -> Seq<char> {
    ".L."@ + kind + "."@ + int_decimal(n)
}

/// Combines registers `d` and `s` into `d`.
pub open spec fn arith(op: BinaryOp, d: int, s: int) -> Seq<char> {
    let rd = reg_name(d);
    let rs = reg_name(s);
    match op {
        BinaryOp::Add => instr2("add"@, rd, rs),
        BinaryOp::Sub => instr2("sub"@, rd, rs),
        BinaryOp::Mul => instr2("imul"@, rd, rs),
        BinaryOp::Div => mov("rax"@, rd) + "  cqo\n"@ + "  idiv "@ + rs + nl() + mov(rd, "rax"@),
        BinaryOp::Eq => instr2("cmp"@, rd, rs) + "  sete al\n"@ + instr2("movzx"@, rd, "al"@),
        BinaryOp::Ne => instr2("cmp"@, rd, rs) + "  setne al\n"@ + instr2("movzx"@, rd, "al"@),
        BinaryOp::Lt => instr2("cmp"@, rd, rs) + "  setl al\n"@ + instr2("movzx"@, rd, "al"@),
        _ => instr2("cmp"@, rd, rs) + "  setle al\n"@ + instr2("movzx"@, rd, "al"@),
    }
}

/// Code that leaves the address of the lvalue `n` in register `c`.
pub open spec fn gen_addr(n: Node, c: int) -> Result<Seq<char>, CompileError>
    decreases n, 1int,
{
    match n {
        Node::Var(_, _, off) => if c >= SCRATCH_REGS {
            Err(CompileError::ResourceExhaustedError)
        } else {
            Ok(instr2("lea"@, reg_name(c), frame_slot(off as int)))
        },
        Node::Unary(UnaryOp::Deref, x) => gen_expr(*x, c),
        _ => Err(CompileError::SemanticError(SemanticError::NotAnLvalue)),
    }
}

/// Code that leaves the value of the expression `n` in register `c`.
pub open spec fn gen_expr(n: Node, c: int) -> Result<Seq<char>, CompileError>
    decreases n, 2int,
{
    match n {
        Node::Num(v) => if c >= SCRATCH_REGS {
            Err(CompileError::ResourceExhaustedError)
        } else {
            Ok(mov(reg_name(c), int_decimal(v as int)))
        },
        Node::Var(_, _, _) => match gen_addr(n, c) {
            Err(e) => Err(e),
            Ok(a) => Ok(a + mov(reg_name(c), deref(reg_name(c)))),
        },
        Node::Unary(op, x) => match op {
            UnaryOp::Plus => gen_expr(*x, c),
            UnaryOp::Minus => match gen_expr(*x, c) {
                Err(e) => Err(e),
                Ok(a) => Ok(a + "  neg "@ + reg_name(c) + nl()),
            },
            UnaryOp::Addr => gen_addr(*x, c),
            UnaryOp::Deref => match gen_expr(*x, c) {
                Err(e) => Err(e),
                Ok(a) => Ok(a + mov(reg_name(c), deref(reg_name(c)))),
            },
            UnaryOp::ExprStmt => Err(CompileError::SemanticError(SemanticError::MalformedNode)),
        },
        Node::Binary(BinaryOp::Assign, l, r) => match gen_expr(*r, c) {
            Err(e) => Err(e),
            Ok(a) => match gen_addr(*l, c + 1) {
                Err(e) => Err(e),
                Ok(b) => Ok(a + b + mov(deref(reg_name(c + 1)), reg_name(c))),
            },
        },
        Node::Binary(op, l, r) => match gen_expr(*l, c) {
            Err(e) => Err(e),
            Ok(a) => match gen_expr(*r, c + 1) {
                Err(e) => Err(e),
                Ok(b) => Ok(a + b + arith(op, c, c + 1)),
            },
        },
        Node::Funcall(name, args) => if args.len() > SCRATCH_REGS {
            Err(CompileError::ResourceExhaustedError)
        } else {
            match gen_args(args, c) {
                Err(e) => Err(e),
                Ok(a) => if c >= SCRATCH_REGS {
                    Err(CompileError::ResourceExhaustedError)
                } else {
                    Ok(a + arg_moves(args.len() as int, c) + "  push r10\n  push r11\n  call "@ + name + nl()
                        + "  pop r11\n  pop r10\n"@ + mov(reg_name(c), "rax"@))
                },
            }
        },
        _ => Err(CompileError::SemanticError(SemanticError::MalformedNode)),
    }
}

/// The arguments of a call, left to right, into registers `c`, `c + 1`, ...
pub open spec fn gen_args(args: Seq<Node>, c: int) -> Result<Seq<char>, CompileError>
    decreases args, 0int,
{
    if args.len() == 0 {
        Ok(Seq::empty())
    } else {
        match gen_expr(args[0], c) {
            Err(e) => Err(e),
            Ok(a) => match gen_args(args.subrange(1, args.len() as int), c + 1) {
                Err(e) => Err(e),
                Ok(b) => Ok(a + b),
            },
        }
    }
}

/// Moves the `n` evaluated arguments into the argument registers, last first.
pub open spec fn arg_moves(n: int, c: int) -> Seq<char>
    decreases n,
{
    if n <= 0 {
        Seq::empty()
    } else {
        mov(arg_name(n - 1), reg_name(c + n - 1)) + arg_moves(n - 1, c)
    }
}

pub open spec fn label_def(kind: Seq<char>, n: int) -> Seq<char> {
    label(kind, n) + ":"@ + nl()
}

pub open spec fn jump(instr: Seq<char>, kind: Seq<char>, n: int) -> Seq<char> {
    "  "@ + instr + " "@ + label(kind, n) + nl()
}

/// Tests the value in the first scratch register against zero.
pub open spec fn cmp_zero() -> Seq<char> {
    instr2("cmp"@, reg_name(0), "0"@)
}

pub open spec fn pair_after(p: Seq<char>, r: Result<(Seq<char>, int), CompileError>) -> Result<(Seq<char>, int), CompileError> {
    match r {
        Ok((t, l)) => Ok((p + t, l)),
        Err(e) => Err(e),
    }
}

/// Code for a statement, with the label counter before and after it. `if` and
/// `for` take the counter's value for their labels and move it on by one.
pub open spec fn gen_stmt(n: Node, l: int) -> Result<(Seq<char>, int), CompileError>
    decreases n, 2int,
{
    match n {
        Node::Unary(UnaryOp::ExprStmt, x) => match gen_expr(*x, 0) {
            Err(e) => Err(e),
            Ok(a) => Ok((a, l)),
        },
        Node::Return(f, x) => match gen_expr(*x, 0) {
            Err(e) => Err(e),
            Ok(a) => Ok((a + mov("rax"@, reg_name(0)) + "  jmp .L.return."@ + f + nl(), l)),
        },
        Node::Block(ss) => gen_block(ss, l),
        Node::If(..) => gen_if(n, l),
        Node::For(..) => gen_for(n, l),
        _ => Err(CompileError::SemanticError(SemanticError::MalformedNode)),
    }
}

/// `if`: the condition, a jump to `else` (or the end) when it is zero, the
/// `then` branch, and the `else` branch after a jump over it.
pub open spec fn gen_if(n: Node, l: int) -> Result<(Seq<char>, int), CompileError>
    decreases n, 1int,
{
    match n {
    Node::If(c, t, e) => if l >= usize::MAX {
        Err(CompileError::ResourceExhaustedError)
    } else {
        match gen_expr(*c, 0) {
            Err(err) => Err(err),
            Ok(ct) => match gen_stmt(*t, l + 1) {
                Err(err) => Err(err),
                Ok((tt, l2)) => match e {
                    None => Ok((ct + cmp_zero() + jump("je"@, "end"@, l) + tt + label_def("end"@, l), l2)),
                    Some(eb) => match gen_stmt(*eb, l2) {
                        Err(err) => Err(err),
                        Ok((et, l3)) => Ok((
                            ct + cmp_zero() + jump("je"@, "else"@, l) + tt + jump("jmp"@, "end"@, l)
                                + label_def("else"@, l) + et + label_def("end"@, l),
                            l3,
                        )),
                    },
                },
            },
        }
    },
    _ => Err(CompileError::SemanticError(SemanticError::MalformedNode)),
    }
}

/// A loop: the initialiser, the start label, the test, the body, the
/// increment, a jump back, and the end label.
pub open spec fn gen_for(n: Node, l: int) -> Result<(Seq<char>, int), CompileError>
    decreases n, 1int,
{
    match n {
    Node::For(init, cond, inc, body) => if l >= usize::MAX {
        Err(CompileError::ResourceExhaustedError)
    } else {
        match gen_opt_stmt(init, l + 1) {
            Err(err) => Err(err),
            Ok((it, l1)) => match gen_cond(cond, l) {
                Err(err) => Err(err),
                Ok(ct) => match gen_stmt(*body, l1) {
                    Err(err) => Err(err),
                    Ok((bt, l2)) => match gen_opt_stmt(inc, l2) {
                        Err(err) => Err(err),
                        Ok((nt, l3)) => Ok((
                            it + label_def("begin"@, l) + ct + bt + nt + jump("jmp"@, "begin"@, l)
                                + label_def("end"@, l),
                            l3,
                        )),
                    },
                },
            },
        }
    },
    _ => Err(CompileError::SemanticError(SemanticError::MalformedNode)),
    }
}

pub open spec fn gen_opt_stmt(o: Option<Box<Node>>, l: int) -> Result<(Seq<char>, int), CompileError>
    decreases o, 0int,
{
    match o {
        None => Ok((Seq::empty(), l)),
        Some(s) => gen_stmt(*s, l),
    }
}

/// The test of a loop: leave the loop numbered `l` when the condition is zero.
pub open spec fn gen_cond(o: Option<Box<Node>>, l: int) -> Result<Seq<char>, CompileError> {
    match o {
        None => Ok(Seq::empty()),
        Some(c) => match gen_expr(*c, 0) {
            Err(e) => Err(e),
            Ok(ct) => Ok(ct + cmp_zero() + jump("je"@, "end"@, l)),
        },
    }
}

pub open spec fn gen_block(ss: Seq<Node>, l: int) -> Result<(Seq<char>, int), CompileError>
    decreases ss, 0int,
{
    if ss.len() == 0 {
        Ok((Seq::empty(), l))
    } else {
        match gen_stmt(ss[0], l) {
            Err(e) => Err(e),
            Ok((a, l1)) => pair_after(a, gen_block(ss.subrange(1, ss.len() as int), l1)),
        }
    }
}

/// Stores the first `n` argument registers into the slots of the first `n` locals.
pub open spec fn param_stores(n: int) -> Seq<char>
    decreases n,
{
    if n <= 0 {
        Seq::empty()
    } else {
        param_stores(n - 1) + mov(frame_slot(local_offset(n)), arg_name(n - 1))
    }
}

/// Sets up the frame and saves the four callee-saved scratch registers.
#[verifier::opaque]
pub open spec fn prologue(name: Seq<char>, stack: int, nparams: int) -> Seq<char> {
    ".globl "@ + name + nl() + name + ":"@ + nl() + "  push rbp\n"@ + mov("rbp"@, "rsp"@)
        + "  sub rsp, "@ + int_decimal(stack) + nl()
        + mov(frame_slot(8), "r12"@) + mov(frame_slot(16), "r13"@)
        + mov(frame_slot(24), "r14"@) + mov(frame_slot(32), "r15"@)
        + param_stores(nparams)
}

/// Restores the saved registers and returns; `return` jumps here.
#[verifier::opaque]
pub open spec fn epilogue(name: Seq<char>) -> Seq<char> {
    ".L.return."@ + name + ":"@ + nl()
        + mov("r12"@, frame_slot(8)) + mov("r13"@, frame_slot(16))
        + mov("r14"@, frame_slot(24)) + mov("r15"@, frame_slot(32))
        + mov("rsp"@, "rbp"@) + "  pop rbp\n"@ + "  ret\n"@
}

#[verifier::opaque]
pub open spec fn gen_function(n: Node, l: int) -> Result<(Seq<char>, int), CompileError> {
    match n {
        Node::Funcdef(name, body, params, stack) => if params.len() > SCRATCH_REGS {
            Err(CompileError::ResourceExhaustedError)
        } else {
            match gen_stmt(*body, l) {
                Err(e) => Err(e),
                Ok((b, l1)) => Ok((prologue(name, stack as int, params.len() as int) + b + epilogue(name), l1)),
            }
        },
        _ => Err(CompileError::SemanticError(SemanticError::MalformedNode)),
    }
}

/// A function definition, a statement, or else an expression evaluated into the
/// first scratch register.
pub open spec fn gen_node(n: Node, l: int) -> Result<(Seq<char>, int), CompileError> {
    if n is Funcdef {
        gen_function(n, l)
    } else if is_statement(n) {
        gen_stmt(n, l)
    } else {
        match gen_expr(n, 0) {
            Err(e) => Err(e),
            Ok(t) => Ok((t, l)),
        }
    }
}

/// The statement nodes: expression statements, `return`, blocks, `if` and loops.
pub open spec fn is_statement(n: Node) -> bool {
    ||| n matches Node::Unary(UnaryOp::ExprStmt, _)
    ||| n is Return
    ||| n is Block
    ||| n is If
    ||| n is For
}

pub open spec fn gen_functions(fs: Seq<Node>, l: int) -> Result<Seq<char>, CompileError>
    decreases fs.len(),
{
    if fs.len() == 0 {
        Ok(Seq::empty())
    } else {
        match gen_function(fs[0], l) {
            Err(e) => Err(e),
            Ok((a, l1)) => match gen_functions(fs.subrange(1, fs.len() as int), l1) {
                Err(e) => Err(e),
                Ok(b) => Ok(a + b),
            },
        }
    }
}

/// The listing of a program: a header, then each function in order, with label
/// numbers counted from 1 across the whole program.
pub open spec fn spec_codegen(fs: Seq<Node>) -> Result<Seq<char>, CompileError> {
    match gen_functions(fs, 1) {
        Err(e) => Err(e),
        Ok(t) => Ok(".intel_syntax noprefix\n"@ + t),
    }
}

pub open spec fn imax(a: int, b: int) -> int {
    if a >= b { a } else { b }
}

/// The number of scratch registers an expression holds at its deepest point,
/// its own result register included.
pub open spec fn need(n: Node) -> int
    decreases n,
{
    match n {
        Node::Num(_) => 1,
        Node::Var(_, _, _) => 1,
        Node::Unary(op, x) => if op == UnaryOp::Addr { need_addr(*x) } else { need(*x) },
        Node::Binary(BinaryOp::Assign, l, r) => imax(need(*r), 1 + need_addr(*l)),
        Node::Binary(_, l, r) => imax(need(*l), 1 + need(*r)),
        Node::Funcall(_, args) => imax(1, need_args(args)),
        _ => 0,
    }
}

/// Registers needed to compute the address of an lvalue.
pub open spec fn need_addr(n: Node) -> int
    decreases n,
{
    match n {
        Node::Var(_, _, _) => 1,
        Node::Unary(UnaryOp::Deref, x) => need(*x),
        _ => 0,
    }
}

/// Registers needed by call arguments that are evaluated one above another.
pub open spec fn need_args(args: Seq<Node>) -> int
    decreases args,
{
    if args.len() == 0 {
        0
    } else if args.len() == 1 {
        need(args[0])
    } else {
        imax(need(args[0]), 1 + need_args(args.subrange(1, args.len() as int)))
    }
}

/// An expression tree the generator accepts apart from register pressure: only
/// expression nodes, lvalues where an address is taken or assigned, and at most
/// as many call arguments as there are argument registers.
pub open spec fn pure_expr(n: Node) -> bool
    decreases n,
{
    match n {
        Node::Num(_) => true,
        Node::Var(_, _, _) => true,
        Node::Unary(op, x) => match op {
            UnaryOp::Addr => is_lvalue(*x),
            UnaryOp::ExprStmt => false,
            _ => pure_expr(*x),
        },
        Node::Binary(BinaryOp::Assign, l, r) => is_lvalue(*l) && pure_expr(*r),
        Node::Binary(_, l, r) => pure_expr(*l) && pure_expr(*r),
        Node::Funcall(_, args) => args.len() <= SCRATCH_REGS && pure_args(args),
        _ => false,
    }
}

pub open spec fn is_lvalue(n: Node) -> bool
    decreases n,
{
    match n {
        Node::Var(_, _, _) => true,
        Node::Unary(UnaryOp::Deref, x) => pure_expr(*x),
        _ => false,
    }
}

pub open spec fn pure_args(args: Seq<Node>) -> bool
    decreases args,
{
    args.len() == 0 || (pure_expr(args[0]) && pure_args(args.subrange(1, args.len() as int)))
}

/// Register pressure decides: an accepted expression generated at cursor `c`
/// compiles exactly when `c` plus the registers it needs fits in the pool, and
/// otherwise fails with `ResourceExhaustedError` rather than reusing a register.
pub proof fn lemma_register_pressure(n: Node, c: int)
    requires
        pure_expr(n),
        0 <= c,
    ensures
        c + need(n) <= SCRATCH_REGS ==> gen_expr(n, c) is Ok,
        c + need(n) > SCRATCH_REGS ==> gen_expr(n, c) == Err::<Seq<char>, CompileError>(CompileError::ResourceExhaustedError),
    decreases n, 2int,
{
    match n {
        Node::Unary(op, x) => {
            if op == UnaryOp::Addr {
                lemma_addr_pressure(*x, c);
            } else {
                lemma_register_pressure(*x, c);
            }
        },
        Node::Binary(op, l, r) => {
            if op == BinaryOp::Assign {
                lemma_register_pressure(*r, c);
                lemma_addr_pressure(*l, c + 1);
            } else {
                lemma_register_pressure(*l, c);
                lemma_register_pressure(*r, c + 1);
            }
        },
        Node::Funcall(_, args) => {
            lemma_args_pressure(args, c);
        },
        Node::Var(_, _, _) => {
            lemma_addr_pressure(n, c);
        },
        _ => {},
    }
}

/// The same for the address of an lvalue.
pub proof fn lemma_addr_pressure(n: Node, c: int)
    requires
        is_lvalue(n),
        0 <= c,
    ensures
        c + need_addr(n) <= SCRATCH_REGS ==> gen_addr(n, c) is Ok,
        c + need_addr(n) > SCRATCH_REGS ==> gen_addr(n, c) == Err::<Seq<char>, CompileError>(CompileError::ResourceExhaustedError),
    decreases n, 1int,
{
    match n {
        Node::Unary(_, x) => {
            lemma_register_pressure(*x, c);
        },
        _ => {},
    }
}

/// The same for call arguments placed from cursor `c` upwards.
pub proof fn lemma_args_pressure(args: Seq<Node>, c: int)
    requires
        pure_args(args),
        0 <= c,
    ensures
        c + need_args(args) <= SCRATCH_REGS ==> gen_args(args, c) is Ok,
        args.len() > 0 && c + need_args(args) > SCRATCH_REGS ==> gen_args(args, c) == Err::<Seq<char>, CompileError>(
            CompileError::ResourceExhaustedError,
        ),
    decreases args, 0int,
{
    if args.len() > 0 {
        let rest = args.subrange(1, args.len() as int);
        lemma_register_pressure(args[0], c);
        lemma_args_pressure(rest, c + 1);
        assert(gen_args(args, c) == match gen_expr(args[0], c) {
            Err(e) => Err(e),
            Ok(a) => match gen_args(rest, c + 1) {
                Err(e) => Err(e),
                Ok(b) => Ok(a + b),
            },
        });
    }
}

/// The result `r` and the text appended to the listing (from `before` to
/// `after`) are what the spec function `exp` gives.
pub open spec fn emitted(r: Result<(), CompileError>, before: Seq<char>, after: Seq<char>, exp: Result<Seq<char>, CompileError>) -> bool {
    match exp {
        Ok(t) => r is Ok && after == before + t,
        Err(e) => r == Err::<(), CompileError>(e),
    }
}

/// As [`emitted`], with the label counter `l` after the call.
pub open spec fn emitted_l(r: Result<(), CompileError>, before: Seq<char>, after: Seq<char>, l: int, exp: Result<(Seq<char>, int), CompileError>) -> bool {
    match exp {
        Ok((t, l1)) => r is Ok && after == before + t && l == l1,
        Err(e) => r == Err::<(), CompileError>(e),
    }
}

/// Code generation state that lasts across statements and functions.
pub struct GenContext {
    /// The number of the next `if` or `for` labels.
    pub label: usize,
}

impl GenContext {
    pub fn new() -> (r: GenContext)
        ensures
            r.label == 1,
    {
        GenContext { label: 1 }
    }
}

/// The name of scratch register `idx`; there are six.
pub fn reg(idx: usize) -> (r: Result<String, CompileError>)
    ensures
        idx < SCRATCH_REGS ==> r is Ok && r->Ok_0@ == reg_name(idx as int),
        idx >= SCRATCH_REGS ==> r == Err::<String, CompileError>(CompileError::ResourceExhaustedError),
{
    if idx >= SCRATCH_REGS {
        return Err(CompileError::ResourceExhaustedError);
    }
    Ok(String::from_str(reg_str(idx)))
}

/// Distinct indices name distinct scratch registers.
pub proof fn lemma_reg_names_distinct(i: int, j: int)
    requires
        0 <= i < SCRATCH_REGS,
        0 <= j < SCRATCH_REGS,
        i != j,
    ensures
        reg_name(i) != reg_name(j),
{
    reveal_strlit("r10");
    reveal_strlit("r11");
    reveal_strlit("r12");
    reveal_strlit("r13");
    reveal_strlit("r14");
    reveal_strlit("r15");
    assert(reg_name(i)[2] != reg_name(j)[2] || reg_name(i)[1] != reg_name(j)[1]);
}

fn reg_str(idx: usize) -> (r: &'static str)
    requires
        idx < SCRATCH_REGS,
    ensures
        r@ == reg_name(idx as int),
{
    if idx == 0 { "r10" }
    else if idx == 1 { "r11" }
    else if idx == 2 { "r12" }
    else if idx == 3 { "r13" }
    else if idx == 4 { "r14" }
    else { "r15" }
}

fn argreg_str(idx: usize) -> (r: &'static str)
    requires
        idx < SCRATCH_REGS,
    ensures
        r@ == arg_name(idx as int),
{
    if idx == 0 { "rdi" }
    else if idx == 1 { "rsi" }
    else if idx == 2 { "rdx" }
    else if idx == 3 { "rcx" }
    else if idx == 4 { "r8" }
    else { "r9" }
}

fn emit(out: &mut String, s: &str)
    ensures
        final(out)@ == old(out)@ + s@,
{
    out.append(s);
}

fn emit_i64(out: &mut String, v: i64)
    ensures
        final(out)@ == old(out)@ + int_decimal(v as int),
{
    let d = decimal_i64(v);
    out.append(d.as_str());
}

fn emit_usize(out: &mut String, v: usize)
    ensures
        final(out)@ == old(out)@ + int_decimal(v as int),
{
    let d = decimal_usize(v);
    out.append(d.as_str());
}

fn emit_mov(out: &mut String, dst: &str, src: &str)
    ensures
        final(out)@ == old(out)@ + mov(dst@, src@),
{
    let ghost o = out@;
    emit(out, "  mov ");
    emit(out, dst);
    emit(out, ", ");
    emit(out, src);
    emit(out, "\n");
    assert(out@ =~= o + mov(dst@, src@));
}

fn emit_instr2(out: &mut String, name: &str, d: &str, s: &str)
    ensures
        final(out)@ == old(out)@ + instr2(name@, d@, s@),
{
    let ghost o = out@;
    emit(out, "  ");
    emit(out, name);
    emit(out, " ");
    emit(out, d);
    emit(out, ", ");
    emit(out, s);
    emit(out, "\n");
    assert(out@ =~= o + instr2(name@, d@, s@));
}

fn emit_slot(out: &mut String, off: usize)
    ensures
        final(out)@ == old(out)@ + frame_slot(off as int),
{
    let ghost o = out@;
    emit(out, "[rbp-");
    emit_usize(out, off);
    emit(out, "]");
    assert(out@ =~= o + frame_slot(off as int));
}

/// `mov [rbp-off], src`
fn emit_store_slot(out: &mut String, off: usize, src: &str)
    ensures
        final(out)@ == old(out)@ + mov(frame_slot(off as int), src@),
{
    let ghost o = out@;
    emit(out, "  mov ");
    emit_slot(out, off);
    emit(out, ", ");
    emit(out, src);
    emit(out, "\n");
    assert(out@ =~= o + mov(frame_slot(off as int), src@));
}

/// `mov dst, [rbp-off]`
fn emit_load_slot(out: &mut String, dst: &str, off: usize)
    ensures
        final(out)@ == old(out)@ + mov(dst@, frame_slot(off as int)),
{
    let ghost o = out@;
    emit(out, "  mov ");
    emit(out, dst);
    emit(out, ", ");
    emit_slot(out, off);
    emit(out, "\n");
    assert(out@ =~= o + mov(dst@, frame_slot(off as int)));
}

/// `lea reg, [rbp-off]`
fn emit_lea(out: &mut String, c: usize, off: usize)
    requires
        c < SCRATCH_REGS,
    ensures
        final(out)@ == old(out)@ + instr2("lea"@, reg_name(c as int), frame_slot(off as int)),
{
    let ghost o = out@;
    emit(out, "  ");
    emit(out, "lea");
    emit(out, " ");
    emit(out, reg_str(c));
    emit(out, ", ");
    emit_slot(out, off);
    emit(out, "\n");
    assert(out@ =~= o + instr2("lea"@, reg_name(c as int), frame_slot(off as int)));
}

/// `mov reg, [reg]`
fn emit_load(out: &mut String, c: usize)
    requires
        c < SCRATCH_REGS,
    ensures
        final(out)@ == old(out)@ + mov(reg_name(c as int), deref(reg_name(c as int))),
{
    let ghost o = out@;
    emit(out, "  mov ");
    emit(out, reg_str(c));
    emit(out, ", ");
    emit(out, "[");
    emit(out, reg_str(c));
    emit(out, "]");
    emit(out, "\n");
    assert(out@ =~= o + mov(reg_name(c as int), deref(reg_name(c as int))));
}

/// `mov [addr], val`
fn emit_store(out: &mut String, addr: usize, val: usize)
    requires
        addr < SCRATCH_REGS,
        val < SCRATCH_REGS,
    ensures
        final(out)@ == old(out)@ + mov(deref(reg_name(addr as int)), reg_name(val as int)),
{
    let ghost o = out@;
    emit(out, "  mov ");
    emit(out, "[");
    emit(out, reg_str(addr));
    emit(out, "]");
    emit(out, ", ");
    emit(out, reg_str(val));
    emit(out, "\n");
    assert(out@ =~= o + mov(deref(reg_name(addr as int)), reg_name(val as int)));
}

fn emit_label(out: &mut String, kind: &str, n: usize)
    ensures
        final(out)@ == old(out)@ + label(kind@, n as int),
{
    let ghost o = out@;
    emit(out, ".L.");
    emit(out, kind);
    emit(out, ".");
    emit_usize(out, n);
    assert(out@ =~= o + label(kind@, n as int));
}

fn emit_label_def(out: &mut String, kind: &str, n: usize)
    ensures
        final(out)@ == old(out)@ + label_def(kind@, n as int),
{
    let ghost o = out@;
    emit_label(out, kind, n);
    emit(out, ":");
    emit(out, "\n");
    assert(out@ =~= o + label_def(kind@, n as int));
}

fn emit_jump(out: &mut String, instr: &str, kind: &str, n: usize)
    ensures
        final(out)@ == old(out)@ + jump(instr@, kind@, n as int),
{
    let ghost o = out@;
    emit(out, "  ");
    emit(out, instr);
    emit(out, " ");
    emit_label(out, kind, n);
    emit(out, "\n");
    assert(out@ =~= o + jump(instr@, kind@, n as int));
}

fn emit_cmp_zero(out: &mut String)
    ensures
        final(out)@ == old(out)@ + cmp_zero(),
{
    emit_instr2(out, "cmp", reg_str(0), "0");
}

fn emit_arith(out: &mut String, op: BinaryOp, d: usize, s: usize)
    requires
        d < SCRATCH_REGS,
        s < SCRATCH_REGS,
        op != BinaryOp::Assign,
    ensures
        final(out)@ == old(out)@ + arith(op, d as int, s as int),
{
    let ghost o = out@;
    let rd = reg_str(d);
    let rs = reg_str(s);
    match op {
        BinaryOp::Add => emit_instr2(out, "add", rd, rs),
        BinaryOp::Sub => emit_instr2(out, "sub", rd, rs),
        BinaryOp::Mul => emit_instr2(out, "imul", rd, rs),
        BinaryOp::Div => {
            emit_mov(out, "rax", rd);
            emit(out, "  cqo\n");
            emit(out, "  idiv ");
            emit(out, rs);
            emit(out, "\n");
            emit_mov(out, rd, "rax");
            assert(out@ =~= o + arith(op, d as int, s as int));
        },
        _ => {
            emit_instr2(out, "cmp", rd, rs);
            let set = match op {
                BinaryOp::Eq => "  sete al\n",
                BinaryOp::Ne => "  setne al\n",
                BinaryOp::Lt => "  setl al\n",
                _ => "  setle al\n",
            };
            emit(out, set);
            emit_instr2(out, "movzx", rd, "al");
            assert(out@ =~= o + arith(op, d as int, s as int));
        },
    }
}

/// A generated expression occupies its own register and nothing below it.
pub proof fn lemma_gen_ok_in_range(n: Node, c: int)
    ensures
        gen_expr(n, c) is Ok ==> c < SCRATCH_REGS,
        gen_addr(n, c) is Ok ==> c < SCRATCH_REGS,
    decreases n,
{
    match n {
        Node::Unary(_, x) => {
            lemma_gen_ok_in_range(*x, c);
        },
        Node::Binary(_, l, r) => {
            lemma_gen_ok_in_range(*l, c);
            lemma_gen_ok_in_range(*r, c);
        },
        _ => {},
    }
}

/// Generates code that leaves the value of the expression `a` in scratch
/// register `c`.
fn gen_expr_code(a: &Ast, c: usize, out: &mut String) -> (r: Result<(), CompileError>)
    requires
        c <= SCRATCH_REGS,
    ensures
        emitted(r, old(out)@, final(out)@, gen_expr(a.view(), c as int)),
    decreases a, 3int,
{
    match &a.kind {
        AstKind::Num(v) => {
            if c >= SCRATCH_REGS {
                return Err(CompileError::ResourceExhaustedError);
            }
            let ghost o = out@;
            emit(out, "  mov ");
            emit(out, reg_str(c));
            emit(out, ", ");
            emit_i64(out, *v);
            emit(out, "\n");
            assert(out@ =~= o + mov(reg_name(c as int), int_decimal(*v as int)));
            Ok(())
        },
        AstKind::Var { .. } => {
            let ghost o = out@;
            match gen_addr_code(a, c, out) {
                Ok(()) => {},
                Err(e) => return Err(e),
            }
            proof { lemma_gen_ok_in_range(a.view(), c as int); }
            let ghost t1 = gen_addr(a.view(), c as int)->Ok_0;
            emit_load(out, c);
            assert(out@ =~= o + (t1 + mov(reg_name(c as int), deref(reg_name(c as int)))));
            Ok(())
        },
        AstKind::UnaryOp(op, x) => {
            let ghost o = out@;
            match op {
                UnaryOp::Plus => gen_expr_code(x, c, out),
                UnaryOp::Addr => gen_addr_code(x, c, out),
                UnaryOp::ExprStmt => Err(CompileError::SemanticError(SemanticError::MalformedNode)),
                UnaryOp::Minus => {
                    match gen_expr_code(x, c, out) {
                        Ok(()) => {},
                        Err(e) => return Err(e),
                    }
                    proof { lemma_gen_ok_in_range(x.view(), c as int); }
                    let ghost t1 = gen_expr(x.view(), c as int)->Ok_0;
                    emit(out, "  neg ");
                    emit(out, reg_str(c));
                    emit(out, "\n");
                    assert(out@ =~= o + (t1 + "  neg "@ + reg_name(c as int) + nl()));
                    Ok(())
                },
                UnaryOp::Deref => {
                    match gen_expr_code(x, c, out) {
                        Ok(()) => {},
                        Err(e) => return Err(e),
                    }
                    proof { lemma_gen_ok_in_range(x.view(), c as int); }
                    let ghost t1 = gen_expr(x.view(), c as int)->Ok_0;
                    emit_load(out, c);
                    assert(out@ =~= o + (t1 + mov(reg_name(c as int), deref(reg_name(c as int)))));
                    Ok(())
                },
            }
        },
        AstKind::BinaryOp(..) => a.codegen_binaryop(c, out),
        AstKind::Funcall { .. } => gen_call_code(a, c, out),
        _ => Err(CompileError::SemanticError(SemanticError::MalformedNode)),
    }
}

/// Generates a call: the arguments left to right into scratch registers `c`,
/// `c + 1`, ..., moved into the argument registers last first; `r10` and
/// `r11` saved around the call; the result into register `c`.
fn gen_call_code(a: &Ast, c: usize, out: &mut String) -> (r: Result<(), CompileError>)
    requires
        a.kind is Funcall,
        c <= SCRATCH_REGS,
    ensures
        emitted(r, old(out)@, final(out)@, gen_expr(a.view(), c as int)),
    decreases a, 2int,
{
    let (name, args) = match &a.kind {
        AstKind::Funcall { name, args } => (name, args),
        _ => {
            proof { assert(false); }
            return Err(CompileError::SemanticError(SemanticError::MalformedNode));
        },
    };
    let ghost av = asts_view(args@);
    proof { lemma_asts_view_len(args@); }
    if args.len() > SCRATCH_REGS {
        return Err(CompileError::ResourceExhaustedError);
    }
    let ghost o = out@;
    let n = args.len();
    proof {
        assert(av.subrange(0, n as int) =~= av);
        match gen_args(av, c as int) {
            Ok(t) => { assert(Seq::<char>::empty() + t =~= t); },
            Err(_) => {},
        }
        assert(out@.subrange(o.len() as int, out@.len() as int) =~= Seq::<char>::empty());
        assert(out@.subrange(0, o.len() as int) =~= o);
    }
    let mut i: usize = 0;
    while i < n
        invariant
            a.kind == (AstKind::Funcall { name: *name, args: *args }),
            n == args.len(),
            n <= SCRATCH_REGS,
            c <= SCRATCH_REGS,
            i <= n,
            av == asts_view(args@),
            av.len() == n,
            o.len() <= out@.len(),
            out@.subrange(0, o.len() as int) == o,
            i > 0 ==> c + i <= SCRATCH_REGS,
            gen_args(av, c as int) == text_after(
                out@.subrange(o.len() as int, out@.len() as int),
                gen_args(av.subrange(i as int, n as int), c + i),
            ),
        decreases n - i,
    {
        proof {
            assert(decreases_to!(a.kind => a.kind->args));
            assert(decreases_to!(*args => args[i as int]));
            lemma_asts_view_index(args@, i as int);
            assert(av.subrange(i as int, n as int)[0] == av[i as int]);
            assert(av.subrange(i as int, n as int).subrange(1, (n - i) as int) =~= av.subrange(i + 1, n as int));
        }
        let ghost o1 = out@;
        match gen_expr_code(&args[i], c + i, out) {
            Ok(()) => {},
            Err(e) => return Err(e),
        }
        proof {
            lemma_gen_ok_in_range(av[i as int], c + i);
            let t1 = o1.subrange(o.len() as int, o1.len() as int);
            let t2 = out@.subrange(o1.len() as int, out@.len() as int);
            let sub = av.subrange(i as int, n as int);
            assert(t2 =~= gen_expr(av[i as int], c + i)->Ok_0);
            assert(gen_args(sub, c + i) == text_after(t2, gen_args(av.subrange(i + 1, n as int), c + i + 1)));
            assert(out@ =~= o1 + t2);
            assert(out@.subrange(o.len() as int, out@.len() as int) =~= t1 + t2);
            assert(out@.subrange(0, o.len() as int) =~= o);
            match gen_args(av.subrange(i + 1, n as int), c + i + 1) {
                Ok(b) => { assert(t1 + (t2 + b) =~= (t1 + t2) + b); },
                Err(_) => {},
            }
        }
        i = i + 1;
    }
    if c >= SCRATCH_REGS {
        proof {
            assert(av.subrange(n as int, n as int) =~= Seq::<Node>::empty());
        }
        return Err(CompileError::ResourceExhaustedError);
    }
    let ghost o2 = out@;
    let mut j: usize = n;
    while j > 0
        invariant
            j <= n,
            n <= SCRATCH_REGS,
            c < SCRATCH_REGS,
            c + n <= SCRATCH_REGS,
            o2.len() <= out@.len(),
            out@.subrange(0, o2.len() as int) == o2,
            arg_moves(n as int, c as int) == out@.subrange(o2.len() as int, out@.len() as int) + arg_moves(j as int, c as int),
        decreases j,
    {
        let ghost o3 = out@;
        emit_mov(out, argreg_str(j - 1), reg_str(c + j - 1));
        proof {
            let p = o3.subrange(o2.len() as int, o3.len() as int);
            let m = mov(arg_name(j - 1), reg_name(c + j - 1));
            assert(out@.subrange(o2.len() as int, out@.len() as int) =~= p + m);
            assert(out@.subrange(0, o2.len() as int) =~= o2);
            assert(p + (m + arg_moves(j - 1, c as int)) =~= (p + m) + arg_moves(j - 1, c as int));
        }
        j = j - 1;
    }
    let ghost o4 = out@;
    emit(out, "  push r10\n  push r11\n  call ");
    emit(out, name.as_str());
    emit(out, "\n");
    emit(out, "  pop r11\n  pop r10\n");
    emit_mov(out, reg_str(c), "rax");
    proof {
        assert(av.subrange(n as int, n as int) =~= Seq::<Node>::empty());
        assert(arg_moves(0, c as int) =~= Seq::<char>::empty());
        let ta = o2.subrange(o.len() as int, o2.len() as int);
        let tm = o4.subrange(o2.len() as int, o4.len() as int);
        assert(tm =~= arg_moves(n as int, c as int));
        assert(ta + Seq::<char>::empty() =~= ta);
        assert(out@ =~= o + (ta + arg_moves(n as int, c as int) + "  push r10\n  push r11\n  call "@ + name@ + nl()
            + "  pop r11\n  pop r10\n"@ + mov(reg_name(c as int), "rax"@)));
    }
    Ok(())
}

pub open spec fn text_after(p: Seq<char>, r: Result<Seq<char>, CompileError>) -> Result<Seq<char>, CompileError> {
    match r {
        Ok(t) => Ok(p + t),
        Err(e) => Err(e),
    }
}

proof fn lemma_asts_view_len(s: Seq<Box<Ast>>)
    ensures
        asts_view(s).len() == s.len(),
    decreases s.len(),
{
    if s.len() > 0 {
        lemma_asts_view_len(s.subrange(0, s.len() - 1));
    }
}

proof fn lemma_asts_view_index(s: Seq<Box<Ast>>, i: int)
    requires
        0 <= i < s.len(),
    ensures
        asts_view(s)[i] == s[i].view(),
    decreases s.len(),
{
    lemma_asts_view_len(s);
    if i < s.len() - 1 {
        lemma_asts_view_index(s.subrange(0, s.len() - 1), i);
    }
}

/// Generates code that leaves the address of the lvalue `a` in scratch
/// register `c`.
fn gen_addr_code(a: &Ast, c: usize, out: &mut String) -> (r: Result<(), CompileError>)
    requires
        c <= SCRATCH_REGS,
    ensures
        emitted(r, old(out)@, final(out)@, gen_addr(a.view(), c as int)),
    decreases a, 1int,
{
    match &a.kind {
        AstKind::Var { name: _, ty: _, offset } => {
            if c >= SCRATCH_REGS {
                return Err(CompileError::ResourceExhaustedError);
            }
            emit_lea(out, c, *offset);
            Ok(())
        },
        AstKind::UnaryOp(UnaryOp::Deref, x) => gen_expr_code(x, c, out),
        _ => Err(CompileError::SemanticError(SemanticError::NotAnLvalue)),
    }
}

impl Ast {
    /// Generates code for a binary operation node: the left operand into
    /// scratch register `cur`, the right one into `cur + 1`, and the result
    /// into `cur`. An assignment evaluates its right side into `cur` and the
    /// target's address into `cur + 1`, and stores.
    pub fn codegen_binaryop(&self, cur: usize, out: &mut String) -> (r: Result<(), CompileError>)
        requires
            self.kind is BinaryOp,
            cur <= SCRATCH_REGS,
        ensures
            emitted(r, old(out)@, final(out)@, gen_expr(self.view(), cur as int)),
        decreases self, 2int,
    {
        let (op, lhs, rhs) = match &self.kind {
            AstKind::BinaryOp(op, l, r) => (*op, &**l, &**r),
            _ => {
                proof { assert(false); }
                return Err(CompileError::SemanticError(SemanticError::MalformedNode));
            },
        };
        assert(self.view() == Node::Binary(op, Box::new(lhs.view()), Box::new(rhs.view())));
        let ghost o = out@;
        if op == BinaryOp::Assign {
            match gen_expr_code(rhs, cur, out) {
                Ok(()) => {},
                Err(e) => return Err(e),
            }
            proof { lemma_gen_ok_in_range(rhs.view(), cur as int); }
            let ghost t1 = gen_expr(rhs.view(), cur as int)->Ok_0;
            match gen_addr_code(lhs, cur + 1, out) {
                Ok(()) => {},
                Err(e) => return Err(e),
            }
            proof { lemma_gen_ok_in_range(lhs.view(), cur + 1); }
            let ghost t2 = gen_addr(lhs.view(), cur + 1)->Ok_0;
            emit_store(out, cur + 1, cur);
            assert(out@ =~= o + (t1 + t2 + mov(deref(reg_name(cur + 1)), reg_name(cur as int))));
            return Ok(());
        }
        match gen_expr_code(lhs, cur, out) {
            Ok(()) => {},
            Err(e) => return Err(e),
        }
        proof { lemma_gen_ok_in_range(lhs.view(), cur as int); }
        let ghost t1 = gen_expr(lhs.view(), cur as int)->Ok_0;
        match gen_expr_code(rhs, cur + 1, out) {
            Ok(()) => {},
            Err(e) => return Err(e),
        }
        proof { lemma_gen_ok_in_range(rhs.view(), cur + 1); }
        let ghost t2 = gen_expr(rhs.view(), cur + 1)->Ok_0;
        emit_arith(out, op, cur, cur + 1);
        assert(out@ =~= o + (t1 + t2 + arith(op, cur as int, cur + 1)));
        Ok(())
    }
}

/// Generates code for a statement.
fn gen_stmt_code(a: &Ast, ctx: &mut GenContext, out: &mut String) -> (r: Result<(), CompileError>)
    ensures
        emitted_l(r, old(out)@, final(out)@, final(ctx).label as int, gen_stmt(a.view(), old(ctx).label as int)),
    decreases a, 2int,
{
    let ghost o = out@;
    let ghost l0 = ctx.label as int;
    match &a.kind {
        AstKind::UnaryOp(UnaryOp::ExprStmt, x) => gen_expr_code(x, 0, out),
        AstKind::Return(f, x) => {
            match gen_expr_code(x, 0, out) {
                Ok(()) => {},
                Err(e) => return Err(e),
            }
            let ghost t1 = gen_expr(x.view(), 0)->Ok_0;
            emit_mov(out, "rax", reg_str(0));
            emit(out, "  jmp .L.return.");
            emit(out, f.as_str());
            emit(out, "\n");
            assert(out@ =~= o + (t1 + mov("rax"@, reg_name(0)) + "  jmp .L.return."@ + f@ + nl()));
            Ok(())
        },
        AstKind::Block(..) => gen_block_code(a, ctx, out),
        AstKind::If { .. } => gen_if_code(a, ctx, out),
        AstKind::For { .. } => gen_for_code(a, ctx, out),
        _ => Err(CompileError::SemanticError(SemanticError::MalformedNode)),
    }
}


/// Generates the statements of a block in order.
fn gen_block_code(a: &Ast, ctx: &mut GenContext, out: &mut String) -> (r: Result<(), CompileError>)
    requires
        a.kind is Block,
    ensures
        emitted_l(r, old(out)@, final(out)@, final(ctx).label as int, gen_stmt(a.view(), old(ctx).label as int)),
    decreases a, 0int,
{
    let ghost o = out@;
    let ghost l0 = ctx.label as int;
    let ss = match &a.kind {
        AstKind::Block(ss) => ss,
        _ => {
            proof { assert(false); }
            return Err(CompileError::SemanticError(SemanticError::MalformedNode));
        },
    };
    let ghost sv = asts_view(ss@);
    proof {
        lemma_asts_view_len(ss@);
        assert(sv.subrange(0, sv.len() as int) =~= sv);
        match gen_block(sv, l0) {
            Ok((t, _)) => { assert(Seq::<char>::empty() + t =~= t); },
            Err(_) => {},
        }
    }
    let n = ss.len();
    let mut i: usize = 0;
    while i < n
        invariant
            o == old(out)@,
            l0 == old(ctx).label as int,
            a.kind == AstKind::Block(*ss),
            n == ss.len(),
            i <= n,
            sv == asts_view(ss@),
            sv.len() == n,
            o.len() <= out@.len(),
            out@.subrange(0, o.len() as int) == o,
            gen_block(sv, l0) == pair_after(
                out@.subrange(o.len() as int, out@.len() as int),
                gen_block(sv.subrange(i as int, n as int), ctx.label as int),
            ),
        decreases n - i,
    {
        proof {
            assert(decreases_to!(a.kind => a.kind->Block_0));
            assert(decreases_to!(*ss => ss[i as int]));
            lemma_asts_view_index(ss@, i as int);
            assert(sv.subrange(i as int, n as int)[0] == sv[i as int]);
            assert(sv.subrange(i as int, n as int).subrange(1, (n - i) as int) =~= sv.subrange(i + 1, n as int));
        }
        let ghost o1 = out@;
        let ghost l1 = ctx.label as int;
        match gen_stmt_code(&ss[i], ctx, out) {
            Ok(()) => {},
            Err(e) => {
                assert(gen_block(sv.subrange(i as int, n as int), l1) == Err::<(Seq<char>, int), CompileError>(e));
                return Err(e);
            },
        }
        proof {
            let t1 = o1.subrange(o.len() as int, o1.len() as int);
            let t2 = gen_stmt(sv[i as int], l1)->Ok_0.0;
            assert(out@.subrange(o.len() as int, out@.len() as int) =~= t1 + t2);
            assert(out@.subrange(0, o.len() as int) =~= o);
            match gen_block(sv.subrange(i + 1, n as int), ctx.label as int) {
                Ok((b, _)) => { assert(t1 + (t2 + b) =~= (t1 + t2) + b); },
                Err(_) => {},
            }
        }
        i = i + 1;
    }
    proof {
        assert(sv.subrange(n as int, n as int) =~= Seq::<Node>::empty());
        let t = out@.subrange(o.len() as int, out@.len() as int);
        assert(t + Seq::<char>::empty() =~= t);
        assert(out@ =~= o + t);
    }
    Ok(())
}

/// Generates `if`: the condition, a jump over the `then` branch, and the `else` branch.
fn gen_if_code(a: &Ast, ctx: &mut GenContext, out: &mut String) -> (r: Result<(), CompileError>)
    requires
        a.kind is If,
    ensures
        emitted_l(r, old(out)@, final(out)@, final(ctx).label as int, gen_if(a.view(), old(ctx).label as int)),
    decreases a, 0int,
{
    let ghost o = out@;
    let (cond, then_stmt, else_stmt) = match &a.kind {
        AstKind::If { cond, then_stmt, else_stmt } => (cond, then_stmt, else_stmt),
        _ => {
            proof { assert(false); }
            return Err(CompileError::SemanticError(SemanticError::MalformedNode));
        },
    };
    if ctx.label == usize::MAX {
        return Err(CompileError::ResourceExhaustedError);
    }
    let l = ctx.label;
    ctx.label = l + 1;
    match gen_expr_code(cond, 0, out) {
        Ok(()) => {},
        Err(e) => return Err(e),
    }
    let ghost mut acc = gen_expr(cond.view(), 0)->Ok_0;
    let ghost p;
    emit_cmp_zero(out);
    proof { p = cmp_zero(); lemma_assoc(o, acc, p); acc = acc + p; }
    match else_stmt {
        None => {
            assert(crate::ast::opt_view(*else_stmt) == None::<Box<Node>>);
            emit_jump(out, "je", "end", l);
            proof { p = jump("je"@, "end"@, l as int); lemma_assoc(o, acc, p); acc = acc + p; }
            match gen_stmt_code(then_stmt, ctx, out) {
                Ok(()) => {},
                Err(e) => return Err(e),
            }
            proof { p = gen_stmt(then_stmt.view(), l + 1)->Ok_0.0; lemma_assoc(o, acc, p); acc = acc + p; }
            emit_label_def(out, "end", l);
            proof { p = label_def("end"@, l as int); lemma_assoc(o, acc, p); acc = acc + p; }
        },
        Some(eb) => {
            assert(crate::ast::opt_view(*else_stmt) == Some(Box::new(eb.view())));
            emit_jump(out, "je", "else", l);
            proof { p = jump("je"@, "else"@, l as int); lemma_assoc(o, acc, p); acc = acc + p; }
            match gen_stmt_code(then_stmt, ctx, out) {
                Ok(()) => {},
                Err(e) => return Err(e),
            }
            proof { p = gen_stmt(then_stmt.view(), l + 1)->Ok_0.0; lemma_assoc(o, acc, p); acc = acc + p; }
            let ghost l2 = ctx.label as int;
            emit_jump(out, "jmp", "end", l);
            proof { p = jump("jmp"@, "end"@, l as int); lemma_assoc(o, acc, p); acc = acc + p; }
            emit_label_def(out, "else", l);
            proof { p = label_def("else"@, l as int); lemma_assoc(o, acc, p); acc = acc + p; }
            match gen_stmt_code(eb, ctx, out) {
                Ok(()) => {},
                Err(e) => return Err(e),
            }
            proof { p = gen_stmt(eb.view(), l2)->Ok_0.0; lemma_assoc(o, acc, p); acc = acc + p; }
            emit_label_def(out, "end", l);
            proof { p = label_def("end"@, l as int); lemma_assoc(o, acc, p); acc = acc + p; }
        },
    }
    Ok(())
}

/// Generates a loop: initialiser, test at the top, body, increment, jump back.
fn gen_for_code(a: &Ast, ctx: &mut GenContext, out: &mut String) -> (r: Result<(), CompileError>)
    requires
        a.kind is For,
    ensures
        emitted_l(r, old(out)@, final(out)@, final(ctx).label as int, gen_for(a.view(), old(ctx).label as int)),
    decreases a, 0int,
{
    let ghost o = out@;
    let (init, cond, inc, body) = match &a.kind {
        AstKind::For { init, cond, inc, body } => (init, cond, inc, body),
        _ => {
            proof { assert(false); }
            return Err(CompileError::SemanticError(SemanticError::MalformedNode));
        },
    };
    if ctx.label == usize::MAX {
        return Err(CompileError::ResourceExhaustedError);
    }
    let l = ctx.label;
    ctx.label = l + 1;
    let ghost mut acc: Seq<char> = Seq::empty();
    let ghost p;
    assert(out@ =~= o + acc);
    match init {
        Some(s) => {
            assert(crate::ast::opt_view(*init) == Some(Box::new(s.view())));
            match gen_stmt_code(s, ctx, out) {
                Ok(()) => {},
                Err(e) => return Err(e),
            }
            proof { p = gen_stmt(s.view(), l + 1)->Ok_0.0; assert(out@ =~= o + p); acc = p; }
        },
        None => {
            assert(crate::ast::opt_view(*init) == None::<Box<Node>>);
        },
    }
    let ghost l1 = ctx.label as int;
    let ghost it = acc;
    emit_label_def(out, "begin", l);
    proof { p = label_def("begin"@, l as int); lemma_assoc(o, acc, p); acc = acc + p; }
    let ghost before_cond = acc;
    match cond {
        Some(c) => {
            assert(crate::ast::opt_view(*cond) == Some(Box::new(c.view())));
            match gen_expr_code(c, 0, out) {
                Ok(()) => {},
                Err(e) => return Err(e),
            }
            proof { p = gen_expr(c.view(), 0)->Ok_0; lemma_assoc(o, acc, p); acc = acc + p; }
            emit_cmp_zero(out);
            proof { p = cmp_zero(); lemma_assoc(o, acc, p); acc = acc + p; }
            emit_jump(out, "je", "end", l);
            proof {
                p = jump("je"@, "end"@, l as int);
                lemma_assoc(o, acc, p);
                acc = acc + p;
                let ct = gen_expr(c.view(), 0)->Ok_0 + cmp_zero() + jump("je"@, "end"@, l as int);
                assert(acc =~= before_cond + ct);
                acc = before_cond + ct;
            }
        },
        None => {
            assert(crate::ast::opt_view(*cond) == None::<Box<Node>>);
            proof { assert(before_cond + Seq::<char>::empty() =~= before_cond); }
        },
    }
    match gen_stmt_code(body, ctx, out) {
        Ok(()) => {},
        Err(e) => return Err(e),
    }
    proof { p = gen_stmt(body.view(), l1)->Ok_0.0; lemma_assoc(o, acc, p); acc = acc + p; }
    let ghost l2 = ctx.label as int;
    match inc {
        Some(s) => {
            assert(crate::ast::opt_view(*inc) == Some(Box::new(s.view())));
            match gen_stmt_code(s, ctx, out) {
                Ok(()) => {},
                Err(e) => return Err(e),
            }
            proof { p = gen_stmt(s.view(), l2)->Ok_0.0; lemma_assoc(o, acc, p); acc = acc + p; }
        },
        None => {
            assert(crate::ast::opt_view(*inc) == None::<Box<Node>>);
            proof { assert(acc + Seq::<char>::empty() =~= acc); acc = acc + Seq::<char>::empty(); }
        },
    }
    emit_jump(out, "jmp", "begin", l);
    proof { p = jump("jmp"@, "begin"@, l as int); lemma_assoc(o, acc, p); acc = acc + p; }
    emit_label_def(out, "end", l);
    proof { p = label_def("end"@, l as int); lemma_assoc(o, acc, p); acc = acc + p; }
    Ok(())
}

proof fn lemma_assoc(a: Seq<char>, b: Seq<char>, c: Seq<char>)
    ensures
        (a + b) + c == a + (b + c),
{
    assert((a + b) + c =~= a + (b + c));
}

fn emit_prologue(out: &mut String, name: &str, stack_size: usize, n: usize)
    requires
        n <= SCRATCH_REGS,
    ensures
        final(out)@ == old(out)@ + prologue(name@, stack_size as int, n as int),
{
    let ghost o = out@;
    let ghost mut acc: Seq<char> = ".globl "@;
    emit(out, ".globl ");
    emit(out, name);
    proof { lemma_assoc(o, acc, name@); acc = acc + name@; }
    emit(out, "\n");
    proof { lemma_assoc(o, acc, nl()); acc = acc + nl(); }
    emit(out, name);
    proof { lemma_assoc(o, acc, name@); acc = acc + name@; }
    emit(out, ":");
    proof { lemma_assoc(o, acc, ":"@); acc = acc + ":"@; }
    emit(out, "\n");
    proof { lemma_assoc(o, acc, nl()); acc = acc + nl(); }
    emit(out, "  push rbp\n");
    proof { lemma_assoc(o, acc, "  push rbp\n"@); acc = acc + "  push rbp\n"@; }
    emit_mov(out, "rbp", "rsp");
    proof { lemma_assoc(o, acc, mov("rbp"@, "rsp"@)); acc = acc + mov("rbp"@, "rsp"@); }
    emit(out, "  sub rsp, ");
    proof { lemma_assoc(o, acc, "  sub rsp, "@); acc = acc + "  sub rsp, "@; }
    emit_usize(out, stack_size);
    proof { lemma_assoc(o, acc, int_decimal(stack_size as int)); acc = acc + int_decimal(stack_size as int); }
    emit(out, "\n");
    proof { lemma_assoc(o, acc, nl()); acc = acc + nl(); }
    emit_store_slot(out, 8, "r12");
    proof { lemma_assoc(o, acc, mov(frame_slot(8), "r12"@)); acc = acc + mov(frame_slot(8), "r12"@); }
    emit_store_slot(out, 16, "r13");
    proof { lemma_assoc(o, acc, mov(frame_slot(16), "r13"@)); acc = acc + mov(frame_slot(16), "r13"@); }
    emit_store_slot(out, 24, "r14");
    proof { lemma_assoc(o, acc, mov(frame_slot(24), "r14"@)); acc = acc + mov(frame_slot(24), "r14"@); }
    emit_store_slot(out, 32, "r15");
    proof { lemma_assoc(o, acc, mov(frame_slot(32), "r15"@)); acc = acc + mov(frame_slot(32), "r15"@); }
    let ghost o1 = out@;
    let mut i: usize = 0;
    assert(out@ =~= o1 + param_stores(0));
    while i < n
        invariant
            n <= SCRATCH_REGS,
            i <= n,
            out@ == o1 + param_stores(i as int),
        decreases n - i,
    {
        emit_store_slot(out, 32 + 8 * (i + 1), argreg_str(i));
        assert(out@ =~= o1 + param_stores(i + 1));
        i = i + 1;
    }
    proof {
        lemma_assoc(o, acc, param_stores(n as int));
        acc = acc + param_stores(n as int);
        reveal(prologue);
        assert(acc == prologue(name@, stack_size as int, n as int));
    }
}

fn emit_epilogue(out: &mut String, name: &str)
    ensures
        final(out)@ == old(out)@ + epilogue(name@),
{
    let ghost o = out@;
    emit(out, ".L.return.");
    emit(out, name);
    emit(out, ":");
    emit(out, "\n");
    emit_load_slot(out, "r12", 8);
    emit_load_slot(out, "r13", 16);
    emit_load_slot(out, "r14", 24);
    emit_load_slot(out, "r15", 32);
    emit_mov(out, "rsp", "rbp");
    emit(out, "  pop rbp\n");
    emit(out, "  ret\n");
    reveal(epilogue);
    assert(out@ =~= o + epilogue(name@));
}

/// Generates code for a function definition.
fn gen_function_code(a: &Ast, ctx: &mut GenContext, out: &mut String) -> (r: Result<(), CompileError>)
    ensures
        emitted_l(r, old(out)@, final(out)@, final(ctx).label as int, gen_function(a.view(), old(ctx).label as int)),
{
    reveal(gen_function);
    let ghost o = out@;
    match &a.kind {
        AstKind::Funcdef { name, body, params, stack_size } => {
            proof { lemma_types_view_len(params@); }
            if params.len() > SCRATCH_REGS {
                return Err(CompileError::ResourceExhaustedError);
            }
            emit_prologue(out, name.as_str(), *stack_size, params.len());
            let ghost o2 = out@;
            match gen_stmt_code(body, ctx, out) {
                Ok(()) => {},
                Err(e) => return Err(e),
            }
            let ghost bt = gen_stmt(body.view(), old(ctx).label as int)->Ok_0.0;
            let ghost o3 = out@;
            emit_epilogue(out, name.as_str());
            assert(o3 == o2 + bt);
            assert(out@ =~= o + (prologue(name@, *stack_size as int, params.len() as int) + bt + epilogue(name@)));
            Ok(())
        },
        _ => Err(CompileError::SemanticError(SemanticError::MalformedNode)),
    }
}

impl Ast {
    /// Generates code for a function definition, a statement, or an expression
    /// (its value left in the first scratch register).
    pub fn codegen(&self, ctx: &mut GenContext, out: &mut String) -> (r: Result<(), CompileError>)
        ensures
            emitted_l(r, old(out)@, final(out)@, final(ctx).label as int, gen_node(self.view(), old(ctx).label as int)),
    {
        reveal(gen_function);
        match &self.kind {
            AstKind::Funcdef { .. } => gen_function_code(self, ctx, out),
            AstKind::UnaryOp(UnaryOp::ExprStmt, _) | AstKind::Return(..) | AstKind::Block(..)
            | AstKind::If { .. } | AstKind::For { .. } => gen_stmt_code(self, ctx, out),
            _ => gen_expr_code(self, 0, out),
        }
    }
}

/// The assembly listing of a program, or the first error met while generating it.
pub fn codegen(prog: &Program) -> (r: Result<String, CompileError>)
    ensures
        match spec_codegen(prog.view()) {
            Ok(t) => r is Ok && r->Ok_0@ == t,
            Err(e) => r == Err::<String, CompileError>(e),
        },
{
    let ghost fs = prog.view();
    let mut out = String::new();
    emit(&mut out, ".intel_syntax noprefix\n");
    let ghost o = out@;
    let mut ctx = GenContext::new();
    let n = prog.functions.len();
    proof {
        assert(fs.subrange(0, n as int) =~= fs);
        match gen_functions(fs, 1) {
            Ok(t) => { assert(Seq::<char>::empty() + t =~= t); },
            Err(_) => {},
        }
        assert(out@.subrange(o.len() as int, out@.len() as int) =~= Seq::<char>::empty());
    }
    let mut i: usize = 0;
    while i < n
        invariant
            n == prog.functions.len(),
            fs == prog.view(),
            i <= n,
            o == ".intel_syntax noprefix\n"@,
            o.len() <= out@.len(),
            out@.subrange(0, o.len() as int) == o,
            gen_functions(fs, 1) == text_after(
                out@.subrange(o.len() as int, out@.len() as int),
                gen_functions(fs.subrange(i as int, n as int), ctx.label as int),
            ),
        decreases n - i,
    {
        proof {
            assert(fs.subrange(i as int, n as int)[0] == fs[i as int]);
            assert(fs.subrange(i as int, n as int).subrange(1, (n - i) as int) =~= fs.subrange(i + 1, n as int));
        }
        let ghost o1 = out@;
        let ghost l1 = ctx.label as int;
        match gen_function_code(&prog.functions[i], &mut ctx, &mut out) {
            Ok(()) => {},
            Err(e) => return Err(e),
        }
        proof {
            let t1 = o1.subrange(o.len() as int, o1.len() as int);
            let t2 = gen_function(fs[i as int], l1)->Ok_0.0;
            assert(out@.subrange(o.len() as int, out@.len() as int) =~= t1 + t2);
            assert(out@.subrange(0, o.len() as int) =~= o);
            match gen_functions(fs.subrange(i + 1, n as int), ctx.label as int) {
                Ok(b) => { assert(t1 + (t2 + b) =~= (t1 + t2) + b); },
                Err(_) => {},
            }
        }
        i = i + 1;
    }
    proof {
        assert(fs.subrange(n as int, n as int) =~= Seq::<Node>::empty());
        let t = out@.subrange(o.len() as int, out@.len() as int);
        assert(t + Seq::<char>::empty() =~= t);
        assert(out@ =~= o + t);
    }
    Ok(out)
}

} // verus!
