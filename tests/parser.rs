use calculator::ast::{BinaryOperator, Expr, Stmt};
use calculator::lexer::Lexer;
use calculator::parser::{Parser, Precedence};
use calculator::token::TokenKind;

fn num(text: &str) -> Box<Expr> {
    Box::new(Expr::Number(text.to_string()))
}

fn parse(input: &str) -> Vec<Stmt> {
    let mut lexer = Lexer::new(input);
    let mut parser = Parser::new(lexer.lex().unwrap());
    parser.parse()
}

#[test]
fn parser() {
    let testcases = vec![
        (
            "1 + 2",
            vec![Stmt::Expr(Expr::BinaryOp(num("1"), BinaryOperator::Add, num("2")))],
        ),
        (
            "1 + 2 * 3",
            vec![Stmt::Expr(Expr::BinaryOp(
                num("1"),
                BinaryOperator::Add,
                Box::new(Expr::BinaryOp(num("2"), BinaryOperator::Multiply, num("3"))),
            ))],
        ),
        (
            "(1 + 2) * 3",
            vec![Stmt::Expr(Expr::BinaryOp(
                Box::new(Expr::BinaryOp(num("1"), BinaryOperator::Add, num("2"))),
                BinaryOperator::Multiply,
                num("3"),
            ))],
        ),
        (
            "1 + 2 * 3 + 4",
            vec![Stmt::Expr(Expr::BinaryOp(
                Box::new(Expr::BinaryOp(
                    num("1"),
                    BinaryOperator::Add,
                    Box::new(Expr::BinaryOp(num("2"), BinaryOperator::Multiply, num("3"))),
                )),
                BinaryOperator::Add,
                num("4"),
            ))],
        ),
        (
            "sin(1)",
            vec![Stmt::Expr(Expr::Call(
                Box::new(Expr::Identifier("sin".to_string())),
                Box::new(vec![Expr::Number("1".to_string())]),
            ))],
        ),
    ];

    for (input, expected) in testcases {
        println!("{}", input);
        assert_eq!(parse(input), expected);
    }
}

#[test]
fn subtraction_and_division_are_left_associative() {
    assert_eq!(
        parse("8 - 4 - 2"),
        vec![Stmt::Expr(Expr::BinaryOp(
            Box::new(Expr::BinaryOp(num("8"), BinaryOperator::Subtract, num("4"))),
            BinaryOperator::Subtract,
            num("2"),
        ))]
    );
    assert_eq!(
        parse("8 / 4 % 3"),
        vec![Stmt::Expr(Expr::BinaryOp(
            Box::new(Expr::BinaryOp(num("8"), BinaryOperator::Divide, num("4"))),
            BinaryOperator::Modulo,
            num("3"),
        ))]
    );
}

#[test]
fn calls_with_several_and_no_arguments() {
    assert_eq!(
        parse("max(1, 2 + 3)"),
        vec![Stmt::Expr(Expr::Call(
            Box::new(Expr::Identifier("max".to_string())),
            Box::new(vec![
                Expr::Number("1".to_string()),
                Expr::BinaryOp(num("2"), BinaryOperator::Add, num("3")),
            ]),
        ))]
    );
    assert_eq!(
        parse("pi()"),
        vec![Stmt::Expr(Expr::Call(Box::new(Expr::Identifier("pi".to_string())), Box::new(vec![])))]
    );
}

#[test]
fn malformed_input_gives_a_shorter_program() {
    assert_eq!(parse(""), vec![]);
    assert_eq!(parse("+"), vec![]);
    assert_eq!(parse("1 +"), vec![]);
    assert_eq!(parse("f(1,"), vec![]);
    assert_eq!(parse("1 2"), vec![Stmt::Expr(Expr::Number("1".to_string())), Stmt::Expr(Expr::Number("2".to_string()))]);
    assert_eq!(parse("(1 + 2"), vec![]);
    assert_eq!(parse("(1 + 2 3"), vec![Stmt::Expr(Expr::Number("3".to_string()))]);
}

#[test]
fn precedence_of_tokens() {
    assert_eq!(Precedence::from(TokenKind::Plus), Precedence::Term);
    assert_eq!(Precedence::from(TokenKind::Minus), Precedence::Term);
    assert_eq!(Precedence::from(TokenKind::Star), Precedence::Factor);
    assert_eq!(Precedence::from(TokenKind::Slash), Precedence::Factor);
    assert_eq!(Precedence::from(TokenKind::Percent), Precedence::Factor);
    assert_eq!(Precedence::from(TokenKind::LeftParen), Precedence::Grouping);
    assert_eq!(Precedence::from(TokenKind::Less), Precedence::Lowest);
    assert!(Precedence::from(TokenKind::Star).level() > Precedence::from(TokenKind::Plus).level());
}
