//! Syntax trees of the calculator language.

use crate::scanner::Token;
use crate::scanner::TokenView;
use vstd::prelude::*;

verus! {

/// An expression as a mathematical value: names and numerals are sequences
/// of characters, argument lists are sequences.
pub enum ExprView {
    Literal(Seq<char>),
    Binary { lhs: Box<ExprView>, operator: TokenView, rhs: Box<ExprView> },
    Unary { operator: TokenView, rhs: Box<ExprView> },
    Grouping(Box<ExprView>),
    Var(Seq<char>),
    FnCall { name: Seq<char>, arguments: Seq<ExprView> },
}

/// A statement as a mathematical value.
pub enum StmtView {
    VarAssign { name: Seq<char>, value: ExprView },
    FnAssign { name: Seq<char>, parameters: Seq<Seq<char>>, body: ExprView },
    Expr(ExprView),
}

/// The value of an expression.
pub open spec fn expr_view(e: Expr) -> ExprView
    decreases e,
{
    match e {
        Expr::Literal(l) => ExprView::Literal(l.text()),
        Expr::Binary(b) => ExprView::Binary {
            lhs: Box::new(expr_view(b.lhs)),
            operator: b.operator@,
            rhs: Box::new(expr_view(b.rhs)),
        },
        Expr::Unary(u) => ExprView::Unary { operator: u.operator@, rhs: Box::new(expr_view(u.rhs)) },
        Expr::Grouping(g) => ExprView::Grouping(Box::new(expr_view(g.0))),
        Expr::Var(v) => ExprView::Var(v.name@),
        Expr::FnCall(f) => ExprView::FnCall { name: f.name@, arguments: exprs_view(f.arguments@) },
    }
}

/// The values of a sequence of expressions.
pub open spec fn exprs_view(exprs: Seq<Expr>) -> Seq<ExprView>
    decreases exprs,
{
    Seq::new(
        exprs.len(),
        |i: int|
            if 0 <= i < exprs.len() {
                expr_view(exprs[i])
            } else {
                ExprView::Var(Seq::empty())
            },
    )
}

/// The values of a sequence of names.
pub open spec fn names_view(names: Seq<String>) -> Seq<Seq<char>> {
    Seq::new(names.len(), |i: int| names[i]@)
}

impl View for Expr {
    type V = ExprView;

    open spec fn view(&self) -> ExprView {
        expr_view(*self)
    }
}

impl View for Stmt {
    type V = StmtView;

    open spec fn view(&self) -> StmtView {
        match *self {
            Stmt::VarAssign(a) => StmtView::VarAssign { name: a.name@, value: a.value@ },
            Stmt::FnAssign(a) => StmtView::FnAssign {
                name: a.name@,
                parameters: names_view(a.arguments@),
                body: a.expr@,
            },
            Stmt::Expr(e) => StmtView::Expr(e@),
        }
    }
}

/// An expression.
#[derive(Debug, PartialEq)]
pub enum Expr {
    Literal(Literal),
    Binary(Box<BinaryExpr>),
    Unary(Box<UnaryExpr>),
    Grouping(Box<GroupingExpr>),
    Var(Var),
    FnCall(FnCall),
}

/// One line of input: an assignment or a bare expression.
#[derive(Debug, PartialEq)]
pub enum Stmt {
    VarAssign(VarAssign),
    FnAssign(FnAssign),
    Expr(Expr),
}

/// `name = value`
#[derive(Debug, PartialEq)]
pub struct VarAssign {
    pub name: String,
    pub value: Expr,
}

/// A reference to a variable, a parameter or `ans`.
#[derive(Debug, PartialEq)]
pub struct Var {
    pub name: String,
}

/// `name(arguments)`
#[derive(Debug, PartialEq)]
pub struct FnCall {
    pub name: String,
    pub arguments: Vec<Expr>,
}

/// `name(arguments) = expr`
#[derive(Debug, PartialEq)]
pub struct FnAssign {
    pub name: String,
    pub arguments: Vec<String>,
    pub expr: Expr,
}

/// A literal as it was written.
#[derive(Debug, PartialEq)]
pub enum Literal {
    /// A decimal numeral: digits, optionally followed by a point and more
    /// digits. The text is kept exactly; it is turned into a number when the
    /// expression is evaluated.
    Number(String),
}

impl Clone for Literal {
    fn clone(&self) -> (r: Self)
        ensures
            r == *self,
    {
        match self {
            Literal::Number(text) => Literal::Number(text.clone()),
        }
    }
}

impl Literal {
    /// The numeral of the literal.
    pub open spec fn text(self) -> Seq<char> {
        match self {
            Literal::Number(text) => text@,
        }
    }

    /// The literal as text.
    pub fn to_string(&self) -> (r: String)
        ensures
            r@ == self.text(),
    {
        match self {
            Literal::Number(text) => text.clone(),
        }
    }
}

/// `lhs operator rhs`
#[derive(Debug, PartialEq)]
pub struct BinaryExpr {
    pub lhs: Expr,
    pub operator: Token,
    pub rhs: Expr,
}

/// `operator rhs`
#[derive(Debug, PartialEq)]
pub struct UnaryExpr {
    pub operator: Token,
    pub rhs: Expr,
}

/// `( expression )`
#[derive(Debug, PartialEq)]
pub struct GroupingExpr(pub Expr);

} // verus!
