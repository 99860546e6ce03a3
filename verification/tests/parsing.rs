use kaleido::lexer::{Token, TokenReader};
use kaleido::parser::{
    check_ops_wf, AstNode, BinaryExprAstNode, CallExprAstNode, ExprAstNode, NumberExprAstNode,
    Parser, PrototypeAstNode, VariableExprAstNode,
};

fn parser_for(src: &str) -> Parser {
    let tokens = TokenReader::new(src.chars().collect()).tokenize().expect("lexes");
    Parser::new(tokens)
}

fn num(s: &str) -> ExprAstNode {
    ExprAstNode::Number(NumberExprAstNode { value: s.to_string() })
}

fn var(s: &str) -> ExprAstNode {
    ExprAstNode::Variable(VariableExprAstNode { name: s.to_string() })
}

fn bin(op: Token, lhs: ExprAstNode, rhs: ExprAstNode) -> ExprAstNode {
    ExprAstNode::Binary(BinaryExprAstNode { op, lhs: Box::new(lhs), rhs: Box::new(rhs) })
}

fn call(callee: &str, args: Vec<ExprAstNode>) -> ExprAstNode {
    ExprAstNode::Call(CallExprAstNode { callee: callee.to_string(), args })
}

fn expr_of(src: &str) -> ExprAstNode {
    parser_for(src).parse_expression().expect("parses")
}

#[test]
fn tighter_operator_binds_on_the_right() {
    assert_eq!(expr_of("1 + 2 * 3"), bin(Token::Plus, num("1"), bin(Token::Star, num("2"), num("3"))));
}

#[test]
fn tighter_operator_binds_on_the_left() {
    assert_eq!(expr_of("1 * 2 + 3"), bin(Token::Plus, bin(Token::Star, num("1"), num("2")), num("3")));
}

#[test]
fn equal_precedence_groups_left() {
    assert_eq!(
        expr_of("1 - 2 - 3"),
        bin(Token::Minus, bin(Token::Minus, num("1"), num("2")), num("3"))
    );
}

#[test]
fn parentheses_override_precedence() {
    assert_eq!(
        expr_of("(1 + 2) * 3"),
        bin(Token::Star, bin(Token::Plus, num("1"), num("2")), num("3"))
    );
}

#[test]
fn less_than_binds_loosest() {
    assert_eq!(
        expr_of("a < b + 1"),
        bin(Token::LessThan, var("a"), bin(Token::Plus, var("b"), num("1")))
    );
}

#[test]
fn empty_parens_are_the_null_expression() {
    assert_eq!(expr_of("()"), ExprAstNode::Null);
}

#[test]
fn call_with_arguments() {
    assert_eq!(
        expr_of("foo(1, 2 + 3)"),
        call("foo", vec![num("1"), bin(Token::Plus, num("2"), num("3"))])
    );
}

#[test]
fn call_with_no_arguments() {
    assert_eq!(expr_of("foo()"), call("foo", vec![]));
}

#[test]
fn call_missing_comma_fails() {
    assert!(parser_for("foo(1 2)").parse_expression().is_err());
}

#[test]
fn unclosed_paren_fails() {
    assert!(parser_for("(1 + 2").parse_expression().is_err());
}

#[test]
fn bare_identifier_is_a_variable() {
    assert_eq!(expr_of("x"), var("x"));
}

#[test]
fn definition_parses_to_prototype_and_body() {
    let got = parser_for("def foo(a b) a + b").parse_top_level().expect("parses");
    match got {
        Some(AstNode::Function(f)) => {
            assert_eq!(f.prototype, PrototypeAstNode {
                name: "foo".to_string(),
                args: vec!["a".to_string(), "b".to_string()],
            });
            assert_eq!(*f.body, bin(Token::Plus, var("a"), var("b")));
        }
        other => panic!("expected a function, got {:?}", other),
    }
}

#[test]
fn extern_parses_to_a_bare_prototype() {
    let got = parser_for("extern sin(x)").parse_top_level().expect("parses");
    assert_eq!(
        got,
        Some(AstNode::Prototype(PrototypeAstNode {
            name: "sin".to_string(),
            args: vec!["x".to_string()],
        }))
    );
}

#[test]
fn prototype_with_no_parameters() {
    let got = parser_for("extern now()").parse_top_level().expect("parses");
    assert_eq!(
        got,
        Some(AstNode::Prototype(PrototypeAstNode { name: "now".to_string(), args: vec![] }))
    );
}

#[test]
fn anonymous_expression_wraps_as_empty_function() {
    let got = parser_for("1 + 2").parse_top_level().expect("parses");
    match got {
        Some(AstNode::Function(f)) => {
            assert_eq!(f.prototype, PrototypeAstNode { name: String::new(), args: vec![] });
            assert_eq!(*f.body, bin(Token::Plus, num("1"), num("2")));
        }
        other => panic!("expected an anonymous function, got {:?}", other),
    }
}

#[test]
fn end_of_input_parses_to_nothing() {
    assert_eq!(parser_for("").parse_top_level(), Ok(None));
}

#[test]
fn semicolon_parses_to_nothing() {
    assert_eq!(parser_for("; def f(x) x").parse_top_level(), Ok(None));
}

#[test]
fn malformed_definition_is_an_error_not_an_abort() {
    let mut p = parser_for("def 1(x) x");
    assert!(p.parse_top_level().is_err());
}

#[test]
fn malformed_extern_is_an_error() {
    assert!(parser_for("extern ()").parse_top_level().is_err());
}

#[test]
fn two_forms_parse_in_sequence() {
    let mut p = parser_for("def id(x) x id(4)");
    let first = p.parse_top_level().expect("parses").expect("a form");
    let second = p.parse_top_level().expect("parses").expect("a form");
    assert!(matches!(first, AstNode::Function(_)));
    match second {
        AstNode::Function(f) => assert_eq!(*f.body, call("id", vec![num("4")])),
        other => panic!("expected an anonymous function, got {:?}", other),
    }
    assert_eq!(p.parse_top_level(), Ok(None));
}

#[test]
fn parser_output_has_operator_tokens_only() {
    let e = expr_of("1 + foo(2 * 3, a < 4)");
    assert!(check_ops_wf(&e));
}

#[test]
fn check_ops_wf_rejects_a_foreign_token() {
    let e = bin(Token::Comma, num("1"), num("2"));
    assert!(!check_ops_wf(&e));
}
