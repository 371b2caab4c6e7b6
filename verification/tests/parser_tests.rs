use lox::num::Num;
use lox::parser::{parse, print_ast, Expr, LiteralValue, Statement};
use lox::scanner::{scan, TokenType};

#[test]
fn test_declaration() {
    let input = b"var a = 3;".to_vec();
    let tokens = scan(input);
    let statements = parse(tokens).unwrap();
    let statement = statements.first().unwrap();
    assert_eq!(print_ast(statement), b"var a = 3".to_vec());
}

#[test]
fn test_assignment() {
    let input = b"a = 3;".to_vec();
    let tokens = scan(input);
    let statements = parse(tokens).unwrap();
    let statement = statements.first().unwrap();
    assert_eq!(print_ast(statement), b"a = 3".to_vec());
}

#[test]
fn parser_test_blocks() {
    let input = b"{ var a = 3; print a; }".to_vec();
    let tokens = scan(input);
    let statements = parse(tokens).unwrap();
    let statement = statements.first().unwrap();
    assert_eq!(print_ast(statement), b"{var a = 3;print a;}".to_vec());
}

#[test]
fn test_parser_with_declaration_statement() {
    let input = b"var a = 3;".to_vec();
    let tokens = scan(input);
    let statements = parse(tokens).unwrap();
    assert_eq!(statements.len(), 1);
    let statement = &statements[0];
    match statement {
        Statement::Declaration(token, expr) => {
            assert_eq!(token.token_type, TokenType::Identifier);
            assert_eq!(token.lexeme, b"a".to_vec());
            match expr {
                Some(Expr::Literal(LiteralValue::Number(num))) => {
                    assert_eq!(num, &Num { n: 3, d: 1 });
                }
                _ => panic!("Expected literal expression"),
            }
        }
        _ => panic!("Expected declaration statement"),
    }
}

#[test]
fn test_parser_with_fun_declaration_statement() {
    let input = b"fun a() { print 3; }".to_vec();
    let tokens = scan(input);
    let statements = parse(tokens).unwrap();
    assert_eq!(statements.len(), 1);
    let statement = &statements[0];
    match statement {
        Statement::Function { name, params, block } => {
            assert_eq!(name.lexeme, b"a".to_vec());
            assert_eq!(params.len(), 0);
            assert_eq!(block.len(), 1);
            let print_statement = &block[0];
            match print_statement {
                Statement::Print(expr) => match expr {
                    Expr::Literal(LiteralValue::Number(num)) => {
                        assert_eq!(num, &Num { n: 3, d: 1 });
                    }
                    _ => panic!("Expected literal expression"),
                },
                _ => panic!("Expected print statement"),
            }
        }
        _ => panic!("Expected function declaration statement"),
    }
}

#[test]
fn parse_error_on_var_without_name() {
    // `var = 3;`: one UnexpectedCharacter error at the `=` token.
    let input = b"var = 3;".to_vec();
    let tokens = scan(input);
    let errors = parse(tokens).unwrap_err();
    assert_eq!(errors.len(), 1);
    assert_eq!(
        errors[0].error_type,
        lox::parser::ErrorType::UnexpectedCharacter
    );
    assert_eq!(errors[0].token.lexeme, b"=".to_vec());
}

#[test]
fn parse_errors_are_identical_across_runs() {
    // The same erroneous source, fed twice, produces identical error lists.
    let e1 = parse(scan(b"var = 3; print ; fun".to_vec())).unwrap_err();
    let e2 = parse(scan(b"var = 3; print ; fun".to_vec())).unwrap_err();
    assert_eq!(e1, e2);
}

#[test]
fn invalid_assignment_target_is_reported() {
    let input = b"1 = 2;".to_vec();
    let tokens = scan(input);
    let errors = parse(tokens).unwrap_err();
    // The bad target at `=`, then the recovery sees the stray `;`.
    assert_eq!(errors.len(), 2);
    assert_eq!(
        errors[0].error_type,
        lox::parser::ErrorType::InvalidAssignmentTarget
    );
    assert_eq!(errors[0].token.lexeme, b"=".to_vec());
}

#[test]
fn binary_precedence_shape() {
    // 1 + 2 * 3 parses as 1 + (2 * 3).
    let tokens = scan(b"print 1 + 2 * 3;".to_vec());
    let statements = parse(tokens).unwrap();
    assert_eq!(print_ast(&statements[0]), b"print (+ 1 (* 2 3))".to_vec());
}

#[test]
fn curried_calls_parse() {
    let tokens = scan(b"f(1)(2);".to_vec());
    let statements = parse(tokens).unwrap();
    assert_eq!(print_ast(&statements[0]), b"f(1, )(2, )".to_vec());
}
