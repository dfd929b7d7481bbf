use vstd::prelude::*;
use vstd::string::StringExecFns;

use crate::token::{Token, TokenType};

verus! {

/// The operator of a unary or binary expression.
pub struct Operator {
    pub token: Token,
}

pub open spec fn is_operator_token(t: TokenType) -> bool {
    match t {
        TokenType::EqualEqual | TokenType::BangEqual | TokenType::Less | TokenType::LessEqual
        | TokenType::Greater | TokenType::GreaterEqual | TokenType::Plus | TokenType::Minus
        | TokenType::Star | TokenType::Slash => true,
        _ => false,
    }
}

pub open spec fn is_literal_token(t: TokenType) -> bool {
    match t {
        TokenType::Number | TokenType::String | TokenType::True | TokenType::False
        | TokenType::Nil => true,
        _ => false,
    }
}

impl Operator {
    pub fn new(token: Token) -> (r: Operator)
        requires
            is_operator_token(token.token_type),
        ensures
            r.token == token,
    {
        Operator { token }
    }
}

/// A literal: a number, a string, `true`, `false` or `nil`.
pub struct Literal {
    pub token: Token,
}

impl Literal {
    pub fn new(token: Token) -> (r: Literal)
        requires
            is_literal_token(token.token_type),
        ensures
            r.token == token,
    {
        Literal { token }
    }
}

pub struct Binary {
    pub left: Box<Expr>,
    pub right: Box<Expr>,
    pub operator: Operator,
}

impl Binary {
    pub fn new(left: Box<Expr>, right: Box<Expr>, operator: Operator) -> (r: Binary)
        ensures
            r.left == left,
            r.right == right,
            r.operator == operator,
    {
        Binary { left, right, operator }
    }
}

pub struct Unary {
    pub operator: Operator,
    pub right: Box<Expr>,
}

impl Unary {
    pub fn new(operator: Operator, right: Box<Expr>) -> (r: Unary)
        ensures
            r.operator == operator,
            r.right == right,
    {
        Unary { operator, right }
    }
}

pub struct Grouping {
    pub expr: Box<Expr>,
}

impl Grouping {
    pub fn new(expr: Box<Expr>) -> (r: Grouping)
        ensures
            r.expr == expr,
    {
        Grouping { expr }
    }
}

/// An expression tree.
pub enum Expr {
    Binary(Binary),
    Unary(Unary),
    Grouping(Grouping),
    Literal(Literal),
}

/// The parenthesized prefix form of an expression: `(op left right)`, `(op right)`,
/// `(group expr)`, or a literal's text.
pub open spec fn printed(e: Expr) -> Seq<char>
    decreases e,
{
    match e {
        Expr::Binary(b) => "("@ + b.operator.token.lexeme@ + " "@ + printed(*b.left) + " "@
            + printed(*b.right) + ")"@,
        Expr::Unary(u) => "("@ + u.operator.token.lexeme@ + " "@ + printed(*u.right) + ")"@,
        Expr::Grouping(g) => "(group "@ + printed(*g.expr) + ")"@,
        Expr::Literal(l) => l.token.lexeme@,
    }
}

/// Prints expression trees in prefix form.
pub struct AstPrinterVisitor {}

impl AstPrinterVisitor {
    pub fn new() -> (r: AstPrinterVisitor) {
        AstPrinterVisitor {  }
    }

    pub fn print(&self, expr: &Expr) -> (r: String)
        ensures
            r@ == printed(*expr),
        decreases expr,
    {
        match expr {
            Expr::Binary(b) => {
                let mut out = String::new();
                out.append("(");
                out.append(b.operator.token.lexeme.as_str());
                out.append(" ");
                let left = self.print(&b.left);
                out.append(left.as_str());
                out.append(" ");
                let right = self.print(&b.right);
                out.append(right.as_str());
                out.append(")");
                out
            },
            Expr::Unary(u) => {
                let mut out = String::new();
                out.append("(");
                out.append(u.operator.token.lexeme.as_str());
                out.append(" ");
                let right = self.print(&u.right);
                out.append(right.as_str());
                out.append(")");
                out
            },
            Expr::Grouping(g) => {
                let mut out = String::new();
                out.append("(group ");
                let inner = self.print(&g.expr);
                out.append(inner.as_str());
                out.append(")");
                out
            },
            Expr::Literal(l) => l.token.lexeme.clone(),
        }
    }
}

} // verus!
