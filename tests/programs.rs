use std::collections::HashMap;

use toycc::compiler::compile;
use toycc::error::{CompileError, SemanticError};

/// Runs `main` of an assembly listing on a small model of the x86-64 subset the
/// generator emits, and gives the value it returns.
fn run(listing: &str) -> i64 {
    let lines: Vec<&str> = listing.lines().map(|l| l.trim()).filter(|l| !l.is_empty()).collect();
    let mut labels: HashMap<String, usize> = HashMap::new();
    for (i, l) in lines.iter().enumerate() {
        if l.ends_with(':') {
            labels.insert(l.trim_end_matches(':').to_string(), i);
        }
    }
    let mut regs: HashMap<String, i64> = HashMap::new();
    let mut mem: HashMap<i64, i64> = HashMap::new();
    regs.insert("rsp".to_string(), 1 << 20);
    regs.insert("rbp".to_string(), 1 << 20);
    let push = |regs: &mut HashMap<String, i64>, mem: &mut HashMap<i64, i64>, v: i64| {
        let sp = regs["rsp"] - 8;
        regs.insert("rsp".to_string(), sp);
        mem.insert(sp, v);
    };
    push(&mut regs, &mut mem, -1);
    let mut flags = (0i64, 0i64);
    let mut pc = labels["main"];
    let mut steps = 0;
    loop {
        steps += 1;
        assert!(steps < 1_000_000, "program does not halt");
        let line = lines[pc];
        pc += 1;
        if line.ends_with(':') || line.starts_with('.') {
            continue;
        }
        let (op, rest) = match line.find(' ') {
            Some(i) => (&line[..i], line[i + 1..].trim()),
            None => (line, ""),
        };
        let args: Vec<&str> = if rest.is_empty() { vec![] } else { rest.split(", ").collect() };
        let addr = |regs: &HashMap<String, i64>, a: &str| -> i64 {
            let inner = &a[1..a.len() - 1];
            match inner.find('-') {
                Some(i) => regs[&inner[..i]] - inner[i + 1..].parse::<i64>().unwrap(),
                None => regs[inner],
            }
        };
        let read = |regs: &HashMap<String, i64>, mem: &HashMap<i64, i64>, a: &str| -> i64 {
            if a.starts_with('[') {
                *mem.get(&addr(regs, a)).unwrap_or(&0)
            } else if a == "al" {
                regs.get("rax").copied().unwrap_or(0) & 0xff
            } else if let Ok(v) = a.parse::<i64>() {
                v
            } else {
                regs.get(a).copied().unwrap_or(0)
            }
        };
        match op {
            "mov" => {
                let v = read(&regs, &mem, args[1]);
                if args[0].starts_with('[') {
                    let a = addr(&regs, args[0]);
                    mem.insert(a, v);
                } else {
                    regs.insert(args[0].to_string(), v);
                }
            }
            "lea" => {
                let a = addr(&regs, args[1]);
                regs.insert(args[0].to_string(), a);
            }
            "add" | "sub" | "imul" => {
                let d = read(&regs, &mem, args[0]);
                let s = read(&regs, &mem, args[1]);
                let v = match op {
                    "add" => d.wrapping_add(s),
                    "sub" => d.wrapping_sub(s),
                    _ => d.wrapping_mul(s),
                };
                regs.insert(args[0].to_string(), v);
            }
            "neg" => {
                let d = read(&regs, &mem, args[0]);
                regs.insert(args[0].to_string(), d.wrapping_neg());
            }
            "cqo" => {}
            "idiv" => {
                let s = read(&regs, &mem, args[0]);
                let d = regs["rax"];
                regs.insert("rax".to_string(), d / s);
                regs.insert("rdx".to_string(), d % s);
            }
            "cmp" => {
                flags = (read(&regs, &mem, args[0]), read(&regs, &mem, args[1]));
            }
            "sete" | "setne" | "setl" | "setle" => {
                let b = match op {
                    "sete" => flags.0 == flags.1,
                    "setne" => flags.0 != flags.1,
                    "setl" => flags.0 < flags.1,
                    _ => flags.0 <= flags.1,
                };
                let rax = regs.get("rax").copied().unwrap_or(0);
                regs.insert("rax".to_string(), (rax & !0xff) | (b as i64));
            }
            "movzx" => {
                let v = read(&regs, &mem, args[1]);
                regs.insert(args[0].to_string(), v);
            }
            "push" => {
                let v = read(&regs, &mem, args[0]);
                push(&mut regs, &mut mem, v);
            }
            "pop" => {
                let sp = regs["rsp"];
                let v = mem[&sp];
                regs.insert("rsp".to_string(), sp + 8);
                regs.insert(args[0].to_string(), v);
            }
            "call" => {
                push(&mut regs, &mut mem, pc as i64);
                pc = labels[args[0]];
            }
            "ret" => {
                let sp = regs["rsp"];
                let v = mem[&sp];
                regs.insert("rsp".to_string(), sp + 8);
                if v < 0 {
                    return regs["rax"];
                }
                pc = v as usize;
            }
            "jmp" => pc = labels[args[0]],
            "je" => {
                if flags.0 == flags.1 {
                    pc = labels[args[0]];
                }
            }
            _ => panic!("unknown instruction: {}", line),
        }
    }
}

fn run_source(src: &str) -> i64 {
    let listing = compile(&src.to_string()).expect("compiles");
    run(&listing)
}

#[test]
fn returns_arithmetic() {
    assert_eq!(run_source("int main() { return 5+20-4; }"), 21);
}

#[test]
fn declarations_and_assignments() {
    assert_eq!(run_source("int main() { int a; a=3; int b=5*2; return a+b; }"), 13);
}

#[test]
fn write_through_pointer() {
    assert_eq!(run_source("int main() { int a; int *p; p=&a; *p=7; return a; }"), 7);
}

#[test]
fn for_loop_sums() {
    assert_eq!(run_source("int main() { int i; int sum; for (i=0; i<5; i=i+1) sum=sum+i; return sum; }"), 10);
}

#[test]
fn comparison_yields_zero_or_one() {
    assert_eq!(run_source("int main() { int a; int b; a=1; b=2; return a<b; }"), 1);
    assert_eq!(run_source("int main() { int a; int b; a=1; b=2; return b<a; }"), 0);
}

#[test]
fn redeclaration_is_a_semantic_error() {
    assert_eq!(
        compile(&"int main() { int a; int a; return 0; }".to_string()),
        Err(CompileError::SemanticError(SemanticError::Redefinition))
    );
}

#[test]
fn too_many_temporaries_exhaust_registers() {
    let src = "int main() { return 1+(1+(1+(1+(1+(1+(1+1)))))); }";
    assert_eq!(compile(&src.to_string()), Err(CompileError::ResourceExhaustedError));
    // six live values still fit
    assert_eq!(run_source("int main() { return 1+(1+(1+(1+(1+1)))); }"), 6);
}

#[test]
fn block_locals_stay_visible_after_the_block() {
    assert_eq!(run_source("int main() { { int x; x = 4; } return x; }"), 4);
}

#[test]
fn truncating_division_and_unary_minus() {
    assert_eq!(run_source("int main() { return -7/2; }"), -3);
    assert_eq!(run_source("int main() { return (3+4)*2 - +1; }"), 13);
}

#[test]
fn greater_than_swaps_operands() {
    assert_eq!(run_source("int main() { return 3>2; }"), 1);
    assert_eq!(run_source("int main() { return 2>=3; }"), 0);
    assert_eq!(run_source("int main() { return 2==2; }"), 1);
    assert_eq!(run_source("int main() { return 2!=2; }"), 0);
}

#[test]
fn if_else_and_while() {
    assert_eq!(run_source("int main() { int x; x=0; if (x==0) return 5; else return 6; }"), 5);
    assert_eq!(run_source("int main() { int x; x=1; if (x==0) return 5; else return 6; }"), 6);
    assert_eq!(run_source("int main() { int i; i=0; while (i<10) i=i+3; return i; }"), 12);
}

#[test]
fn pointer_arithmetic_scales_by_eight() {
    assert_eq!(run_source("int main() { int a; int b; int *p; int *q; p=&a; q=&b; return p-q; }"), 1);
    assert_eq!(run_source("int main() { int a; int b; int *p; b=9; p=&a; return *(p-1); }"), 9);
}

#[test]
fn calls_pass_arguments_to_parameters() {
    let src = "int add(int x, int y) { return x+y; } int main() { return add(3, 4) * 2; }";
    assert_eq!(run_source(src), 14);
}

#[test]
fn pointer_operand_errors() {
    assert_eq!(
        compile(&"int main() { int *p; int *q; return p+q; }".to_string()),
        Err(CompileError::SemanticError(SemanticError::InvalidOperands))
    );
    assert_eq!(
        compile(&"int main() { int *p; return 1-p; }".to_string()),
        Err(CompileError::SemanticError(SemanticError::InvalidOperands))
    );
}

#[test]
fn undefined_variable_and_lvalue_errors() {
    assert_eq!(
        compile(&"int main() { return y; }".to_string()),
        Err(CompileError::SemanticError(SemanticError::UndefinedVariable))
    );
    assert_eq!(
        compile(&"int main() { 1 = 2; return 0; }".to_string()),
        Err(CompileError::SemanticError(SemanticError::NotAnLvalue))
    );
}

#[test]
fn syntax_and_lexical_errors() {
    // tokens: int main ( ) { return 1 } -> the `}` at index 7 is unexpected
    assert_eq!(compile(&"int main() { return 1 }".to_string()), Err(CompileError::SyntaxError(7)));
    assert_eq!(compile(&"int main() { return 1 @ 2; }".to_string()), Err(CompileError::LexicalError(22)));
}

#[test]
fn listing_layout() {
    let listing = compile(&"int main() { int a; int b; int c; if (1) a=1; if (2) b=2; return 0; }".to_string()).unwrap();
    assert!(listing.starts_with(".intel_syntax noprefix\n.globl main\nmain:\n"));
    assert!(listing.contains("  sub rsp, 64\n"));
    assert!(listing.contains(".L.end.1:\n"));
    assert!(listing.contains(".L.end.2:\n"));
    assert!(listing.contains(".L.return.main:\n"));
    assert!(listing.ends_with("  ret\n"));
}

#[test]
fn each_function_starts_from_an_empty_frame() {
    let src = "int f() { int a; int b; return 0; } int main() { int c; c = 2; return c; }";
    let listing = compile(&src.to_string()).unwrap();
    assert!(listing.contains("  lea r10, [rbp-40]\n"));
    assert_eq!(run(&listing), 2);
}

#[test]
fn chained_pointer_arithmetic_scales_every_step() {
    let src = "int main() { int a; int b; int c; int *p; a=5; p=&c; return *(p+1+1); }";
    assert_eq!(run_source(src), 5);
    assert_eq!(run_source("int main() { int a; int b; int c; a=6; return *(&c + 2); }"), 6);
    let src = "int main() { int a; int b; int *p; int **pp; a=7; p=&b; pp=&p; return *(*pp + 1); }";
    assert_eq!(run_source(src), 7);
    let src = "int main() { int a; int b; int c; int *p; a=8; p=&a; return *(p-1+1); }";
    assert_eq!(run_source(src), 8);
    assert_eq!(run_source("int main() { int a; int b; int *p; p=&a; return (p-1) - p; }"), -1);
}

#[test]
fn a_function_name_is_defined_once() {
    assert_eq!(
        compile(&"int f() { return 1; } int f() { return 2; } int main() { return 0; }".to_string()),
        Err(CompileError::SemanticError(SemanticError::Redefinition))
    );
}
