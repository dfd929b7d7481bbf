use lox::ast::{AstPrinterVisitor, Binary, Expr, Grouping, Literal, Operator, Unary};
use lox::token::{Token, TokenType};

#[test]
fn ast_printer_it_works() {
    let expr = Expr::Binary(Binary::new(
        Box::new(Expr::Unary(Unary::new(
            Operator::new(Token::new(TokenType::Minus, "-".to_owned(), 1)),
            Box::new(Expr::Literal(Literal::new(Token::new(
                TokenType::Number,
                "123".to_owned(),
                1,
            )))),
        ))),
        Box::new(Expr::Grouping(Grouping::new(Box::new(Expr::Literal(Literal::new(
            Token::new(TokenType::Number, "321".to_owned(), 1),
        )))))),
        Operator::new(Token::new(TokenType::Star, "*".to_owned(), 1)),
    ));
    let expected = "(* (- 123) (group 321))".to_owned();
    let ast = AstPrinterVisitor::new().print(&expr);
    println!("{ast}");
    assert_eq!(ast, expected);
}

#[test]
fn literal_prints_its_text() {
    let expr = Expr::Literal(Literal::new(Token::new(TokenType::String, "hi".to_owned(), 2)));
    assert_eq!(AstPrinterVisitor::new().print(&expr), "hi");
}
