use toycc::ast::{Ast, AstKind, BinaryOp};
use toycc::codegen::{reg, GenContext};
use toycc::error::CompileError;
use toycc::parse::parse;
use toycc::tokenize::{Keyword, Lexer, Symbol, Token, TokenKind};
use toycc::types::{copy_type, func_type, pointer_to, ty_int, Type, TypeKind};

fn tokens(src: &str) -> Vec<Token> {
    Lexer::new(&src.to_string()).tokenize().expect("tokenizes")
}

#[test]
fn two_character_symbols_win() {
    let ts = tokens("a==b<=c!=d>=e<f");
    let kinds: Vec<String> = ts.iter().map(|t| format!("{:?}", t.kind)).collect();
    assert_eq!(kinds.len(), 12);
    assert!(matches!(ts[1].kind, TokenKind::Symbol(Symbol::Eq)));
    assert!(matches!(ts[3].kind, TokenKind::Symbol(Symbol::Le)));
    assert!(matches!(ts[5].kind, TokenKind::Symbol(Symbol::Ne)));
    assert!(matches!(ts[7].kind, TokenKind::Symbol(Symbol::Ge)));
    assert!(matches!(ts[9].kind, TokenKind::Symbol(Symbol::Lt)));
    assert!(matches!(ts[11].kind, TokenKind::Eof));
}

#[test]
fn keywords_need_a_word_boundary() {
    let ts = tokens("int intx return_ 42");
    assert!(matches!(ts[0].kind, TokenKind::Keyword(Keyword::Int)));
    assert!(ts[1].kind.is_identifier());
    assert_eq!(ts[1].get_string(), "intx");
    assert_eq!(ts[2].get_string(), "return_");
    assert!(ts[3].kind.is_num());
    assert_eq!(ts[3].get_num(), 42);
    assert_eq!(ts[3].get_string(), "42");
    assert!(ts[0].kind.is_keyword());
    assert_eq!(ts[0].get_string(), "error:keyword int");
    assert_eq!(tokens("+")[0].get_string(), "error:symbol +");
    assert_eq!(tokens(">=")[0].get_string(), "error:symbol >=");
    assert_eq!(tokens("")[0].get_string(), "error:end of input");
}

#[test]
fn empty_source_is_just_eof() {
    let ts = tokens(" \t\n");
    assert_eq!(ts.len(), 1);
    assert!(matches!(ts[0].kind, TokenKind::Eof));
}

#[test]
fn lexical_errors() {
    assert_eq!(Lexer::new(&"a # b".to_string()).tokenize().err(), Some(CompileError::LexicalError(2)));
    assert_eq!(Lexer::new(&"x = 99999999999999999999;".to_string()).tokenize().err(), Some(CompileError::LexicalError(4)));
    assert_eq!(tokens("9223372036854775807")[0].get_num(), i64::MAX);
}

#[test]
fn parse_builds_scaled_pointer_addition() {
    let prog = parse(tokens("int main() { int *p; return 2+p; }")).unwrap();
    assert_eq!(prog.functions.len(), 1);
    match &prog.functions[0].kind {
        AstKind::Funcdef { name, body, params, stack_size } => {
            assert_eq!(name, "main");
            assert!(params.is_empty());
            assert_eq!(*stack_size, 48);
            match &body.kind {
                AstKind::Block(items) => {
                    assert_eq!(items.len(), 2);
                    match &items[1].kind {
                        AstKind::Return(f, e) => {
                            assert_eq!(f, "main");
                            match &e.kind {
                                AstKind::BinaryOp(BinaryOp::Add, l, r) => {
                                    assert!(l.is_pointer());
                                    assert!(matches!(r.kind, AstKind::BinaryOp(BinaryOp::Mul, _, _)));
                                }
                                _ => panic!("expected an addition"),
                            }
                        }
                        _ => panic!("expected a return"),
                    }
                }
                _ => panic!("expected a block"),
            }
        }
        _ => panic!("expected a function"),
    }
}

#[test]
fn parse_records_parameter_types() {
    let prog = parse(tokens("int f(int a, int *b) { return a; }")).unwrap();
    match &prog.functions[0].kind {
        AstKind::Funcdef { params, stack_size, .. } => {
            assert_eq!(params.len(), 2);
            assert!(matches!(params[0].kind, TypeKind::Int));
            assert!(params[1].kind.is_pointer());
            assert_eq!(*stack_size, 48);
        }
        _ => panic!("expected a function"),
    }
}

#[test]
fn missing_semicolon_is_a_syntax_error() {
    assert_eq!(parse(tokens("int main() { int a return a; }")).err(), Some(CompileError::SyntaxError(7)));
}

#[test]
fn types() {
    let p = pointer_to(ty_int());
    assert!(p.kind.is_pointer());
    assert!(!ty_int().kind.is_pointer());
    let f = func_type(ty_int(), vec![ty_int(), pointer_to(ty_int())]);
    let c = copy_type(&f);
    let ps = c.get_params();
    assert_eq!(ps.len(), 2);
    assert!(ps[1].kind.is_pointer());
    assert!(matches!(Type::new(TypeKind::Int).kind, TypeKind::Int));
}

#[test]
fn ast_predicates() {
    let n = Ast::new(AstKind::Num(3));
    assert!(n.is_integer());
    assert!(!n.is_pointer());
}

#[test]
fn scratch_register_names() {
    assert_eq!(reg(0), Ok("r10".to_string()));
    assert_eq!(reg(5), Ok("r15".to_string()));
    assert_eq!(reg(6), Err(CompileError::ResourceExhaustedError));
}

#[test]
fn statement_codegen_counts_labels() {
    let prog = parse(tokens("int main() { if (1) return 1; return 0; }")).unwrap();
    let mut ctx = GenContext::new();
    let mut out = String::new();
    prog.functions[0].codegen(&mut ctx, &mut out).unwrap();
    assert_eq!(ctx.label, 2);
    assert!(out.contains("  je .L.end.1\n"));
    assert!(out.contains("  mov rax, r10\n  jmp .L.return.main\n"));
}

#[test]
fn bare_expressions_generate_into_the_first_register() {
    let deep = parse(tokens("int main() { return 1+(2+(3+(4+(5+(6+7))))); }")).unwrap();
    let e = match &deep.functions[0].kind {
        AstKind::Funcdef { body, .. } => match &body.kind {
            AstKind::Block(items) => match &items[0].kind {
                AstKind::Return(_, e) => e,
                _ => panic!("expected a return"),
            },
            _ => panic!("expected a block"),
        },
        _ => panic!("expected a function"),
    };
    let mut ctx = GenContext::new();
    let mut out = String::new();
    assert_eq!(e.codegen(&mut ctx, &mut out), Err(CompileError::ResourceExhaustedError));
    let mut out = String::new();
    Ast::new(AstKind::Num(5)).codegen(&mut ctx, &mut out).unwrap();
    assert_eq!(out, "  mov r10, 5\n");
    assert_eq!(ctx.label, 1);
}

#[test]
fn pointer_types_follow_expressions() {
    let prog = parse(tokens("int main() { int a; int *p; int **pp; return a; }")).unwrap();
    assert_eq!(prog.functions.len(), 1);
    let addr = parse(tokens("int main() { int a; return &a + 1; }")).unwrap();
    match &addr.functions[0].kind {
        AstKind::Funcdef { body, .. } => match &body.kind {
            AstKind::Block(items) => match &items[1].kind {
                AstKind::Return(_, e) => match &e.kind {
                    AstKind::BinaryOp(BinaryOp::Add, l, r) => {
                        assert!(l.is_pointer());
                        assert!(e.is_pointer());
                        assert!(matches!(r.kind, AstKind::BinaryOp(BinaryOp::Mul, _, _)));
                    }
                    _ => panic!("expected an addition"),
                },
                _ => panic!("expected a return"),
            },
            _ => panic!("expected a block"),
        },
        _ => panic!("expected a function"),
    }
}
