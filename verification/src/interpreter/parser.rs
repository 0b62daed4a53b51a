//! The grammar of the calculator language and its recursive-descent parser.
//!
//! ```text
//! statement  := assignment | expression
//! assignment := (identifier | call) '=' expression
//! expression := term
//! term       := factor (('+' | '-') factor)*
//! factor     := unary (('*' | '/') unary)*
//! unary      := ('-' | '+') unary | exponent
//! exponent   := primary ('^' signed)*
//! signed     := ('-' | '+') signed | primary
//! primary    := number | '(' expression ')' | identifier | call
//! call       := identifier '(' expression (',' expression)* ')'
//! ```
//!
//! The grammar is written down twice: as specification functions over
//! sequences, which say what every token sequence means, and as the parser,
//! which is proved to compute exactly that.

use super::ast::{
    BinaryExpr, Expr, ExprView, FnAssign, FnCall, GroupingExpr, Literal, Stmt, StmtView, UnaryExpr,
    Var, VarAssign,
};
use super::ast::{exprs_view, names_view};
use crate::scanner::{Token, TokenKind, TokenView};
use crate::text::{can_slice, chars_of};
use vstd::prelude::*;
use vstd::string::StringExecFns;
use vstd::string::StringSliceAdditionalSpecFns;

verus! {

/// What parsing an expression gives: its value and the position of the
/// token after it, or a message.
pub type Parsed = Result<(ExprView, int), Seq<char>>;

pub open spec fn msg_expected_expression() -> Seq<char> {
    "Expected expression"@
}

pub open spec fn msg_unclosed_group() -> Seq<char> {
    "Expect ')' after expression."@
}

pub open spec fn msg_unclosed_call() -> Seq<char> {
    "Expect ')' after function call."@
}

pub open spec fn msg_invalid_parameters() -> Seq<char> {
    "Invalid function args"@
}

pub open spec fn msg_invalid_target() -> Seq<char> {
    "Expected function or variable assignment"@
}

pub open spec fn msg_trailing_input() -> Seq<char> {
    "Expected EOF"@
}

/// The class of the token at `pos`. Behind the last token stands the end of
/// input.
pub open spec fn kind_at(toks: Seq<Token>, pos: int) -> TokenKind {
    if 0 <= pos < toks.len() {
        toks[pos].kind
    } else {
        TokenKind::Eof
    }
}

/// A parse that began at `pos` went forward and stayed inside the tokens.
pub open spec fn advanced(toks: Seq<Token>, pos: int, next: int) -> bool {
    pos < next <= toks.len()
}

/// The name that the token at `pos` covers in the source, if its range can
/// be cut out of the source.
pub open spec fn name_at(toks: Seq<Token>, src: Seq<u8>, pos: int) -> Option<Seq<char>> {
    if can_slice(src, toks[pos].start as int, toks[pos].end as int) {
        Some(chars_of(src, toks[pos].start as int, toks[pos].end as int))
    } else {
        None
    }
}

pub open spec fn binary(lhs: ExprView, operator: Token, rhs: ExprView) -> ExprView {
    ExprView::Binary { lhs: Box::new(lhs), operator: operator@, rhs: Box::new(rhs) }
}

/// `expression := term`
pub open spec fn spec_expression(toks: Seq<Token>, src: Seq<u8>, pos: int) -> Parsed
    decreases toks.len() - pos, 7nat,
{
    spec_term(toks, src, pos)
}

/// `term := factor (('+' | '-') factor)*`
pub open spec fn spec_term(toks: Seq<Token>, src: Seq<u8>, pos: int) -> Parsed
    decreases toks.len() - pos, 6nat,
{
    match spec_factor(toks, src, pos) {
        Err(m) => Err(m),
        Ok((lhs, next)) => if advanced(toks, pos, next) {
            spec_term_rest(toks, src, next, lhs)
        } else {
            Ok((lhs, next))
        },
    }
}

/// The operators and operands of a term that follow the operand `lhs`;
/// they fold to the left.
pub open spec fn spec_term_rest(toks: Seq<Token>, src: Seq<u8>, pos: int, lhs: ExprView) -> Parsed
    decreases toks.len() - pos, 0nat,
{
    if kind_at(toks, pos) == TokenKind::Plus || kind_at(toks, pos) == TokenKind::Minus {
        match spec_factor(toks, src, pos + 1) {
            Err(m) => Err(m),
            Ok((rhs, next)) => if advanced(toks, pos, next) {
                spec_term_rest(toks, src, next, binary(lhs, toks[pos], rhs))
            } else {
                Ok((rhs, next))
            },
        }
    } else {
        Ok((lhs, pos))
    }
}

/// `factor := unary (('*' | '/') unary)*`
pub open spec fn spec_factor(toks: Seq<Token>, src: Seq<u8>, pos: int) -> Parsed
    decreases toks.len() - pos, 5nat,
{
    match spec_unary(toks, src, pos) {
        Err(m) => Err(m),
        Ok((lhs, next)) => if advanced(toks, pos, next) {
            spec_factor_rest(toks, src, next, lhs)
        } else {
            Ok((lhs, next))
        },
    }
}

/// The operators and operands of a factor that follow the operand `lhs`.
pub open spec fn spec_factor_rest(toks: Seq<Token>, src: Seq<u8>, pos: int, lhs: ExprView) -> Parsed
    decreases toks.len() - pos, 0nat,
{
    if kind_at(toks, pos) == TokenKind::Slash || kind_at(toks, pos) == TokenKind::Star {
        match spec_unary(toks, src, pos + 1) {
            Err(m) => Err(m),
            Ok((rhs, next)) => if advanced(toks, pos, next) {
                spec_factor_rest(toks, src, next, binary(lhs, toks[pos], rhs))
            } else {
                Ok((rhs, next))
            },
        }
    } else {
        Ok((lhs, pos))
    }
}

/// `unary := ('-' | '+') unary | exponent`
pub open spec fn spec_unary(toks: Seq<Token>, src: Seq<u8>, pos: int) -> Parsed
    decreases toks.len() - pos, 4nat,
{
    if kind_at(toks, pos) == TokenKind::Minus || kind_at(toks, pos) == TokenKind::Plus {
        match spec_unary(toks, src, pos + 1) {
            Err(m) => Err(m),
            Ok((rhs, next)) => Ok(
                (ExprView::Unary { operator: toks[pos]@, rhs: Box::new(rhs) }, next),
            ),
        }
    } else {
        spec_exp(toks, src, pos)
    }
}

/// `signed := ('-' | '+') signed | primary`: what stands behind `^`. It
/// takes no `^` of its own.
pub open spec fn spec_signed(toks: Seq<Token>, src: Seq<u8>, pos: int) -> Parsed
    decreases toks.len() - pos, 3nat,
{
    if kind_at(toks, pos) == TokenKind::Minus || kind_at(toks, pos) == TokenKind::Plus {
        match spec_signed(toks, src, pos + 1) {
            Err(m) => Err(m),
            Ok((rhs, next)) => Ok(
                (ExprView::Unary { operator: toks[pos]@, rhs: Box::new(rhs) }, next),
            ),
        }
    } else {
        spec_primary(toks, src, pos)
    }
}

/// `exponent := primary ('^' signed)*`
pub open spec fn spec_exp(toks: Seq<Token>, src: Seq<u8>, pos: int) -> Parsed
    decreases toks.len() - pos, 3nat,
{
    match spec_primary(toks, src, pos) {
        Err(m) => Err(m),
        Ok((lhs, next)) => if advanced(toks, pos, next) {
            spec_exp_rest(toks, src, next, lhs)
        } else {
            Ok((lhs, next))
        },
    }
}

/// The exponents that follow the base `lhs`. They fold to the left:
/// `2^3^2` is `(2^3)^2`.
pub open spec fn spec_exp_rest(toks: Seq<Token>, src: Seq<u8>, pos: int, lhs: ExprView) -> Parsed
    decreases toks.len() - pos, 0nat,
{
    if kind_at(toks, pos) == TokenKind::Exp {
        match spec_signed(toks, src, pos + 1) {
            Err(m) => Err(m),
            Ok((rhs, next)) => if advanced(toks, pos, next) {
                spec_exp_rest(toks, src, next, binary(lhs, toks[pos], rhs))
            } else {
                Ok((rhs, next))
            },
        }
    } else {
        Ok((lhs, pos))
    }
}

/// `primary := number | '(' expression ')' | identifier | call`
pub open spec fn spec_primary(toks: Seq<Token>, src: Seq<u8>, pos: int) -> Parsed
    decreases toks.len() - pos, 2nat,
{
    let kind = kind_at(toks, pos);
    if kind == TokenKind::Number {
        match toks[pos].literal {
            Some(l) => Ok((ExprView::Literal(l.text()), pos + 1)),
            None => Err(msg_expected_expression()),
        }
    } else if kind == TokenKind::LParen {
        match spec_expression(toks, src, pos + 1) {
            Err(m) => Err(m),
            Ok((inner, next)) => if kind_at(toks, next) == TokenKind::RParen {
                Ok((ExprView::Grouping(Box::new(inner)), next + 1))
            } else {
                Err(msg_unclosed_group())
            },
        }
    } else if kind == TokenKind::Indentifier {
        match name_at(toks, src, pos) {
            None => Err(msg_expected_expression()),
            Some(name) => if kind_at(toks, pos + 1) == TokenKind::LParen {
                spec_arguments(toks, src, pos + 2, name, Seq::empty())
            } else {
                Ok((ExprView::Var(name), pos + 1))
            },
        }
    } else {
        Err(msg_expected_expression())
    }
}

/// `expression (',' expression)* ')'`: the arguments of a call of `name`
/// that follow the arguments `done`.
pub open spec fn spec_arguments(
    toks: Seq<Token>,
    src: Seq<u8>,
    pos: int,
    name: Seq<char>,
    done: Seq<ExprView>,
) -> Parsed
    decreases toks.len() - pos, 8nat,
{
    match spec_expression(toks, src, pos) {
        Err(m) => Err(m),
        Ok((argument, next)) => if kind_at(toks, next) == TokenKind::Comma {
            if advanced(toks, pos, next) {
                spec_arguments(toks, src, next + 1, name, done.push(argument))
            } else {
                Ok((argument, next))
            }
        } else if kind_at(toks, next) == TokenKind::RParen {
            Ok((ExprView::FnCall { name, arguments: done.push(argument) }, next + 1))
        } else {
            Err(msg_unclosed_call())
        },
    }
}

/// The names of the parameters that the arguments of an assignment's target
/// stand for: each argument must be a bare name.
pub open spec fn parameter_names(arguments: Seq<ExprView>) -> Option<Seq<Seq<char>>> {
    if forall|i: int| 0 <= i < arguments.len() ==> #[trigger] arguments[i] is Var {
        Some(Seq::new(arguments.len(), |i: int| arguments[i]->Var_0))
    } else {
        None
    }
}

/// `statement := assignment | expression`, with the position of the token
/// after the statement.
pub open spec fn spec_stmt(toks: Seq<Token>, src: Seq<u8>, pos: int) -> Result<
    (StmtView, int),
    Seq<char>,
> {
    match spec_expression(toks, src, pos) {
        Err(m) => Err(m),
        Ok((target, next)) => if kind_at(toks, next) == TokenKind::Equal {
            match spec_expression(toks, src, next + 1) {
                Err(m) => Err(m),
                Ok((value, end)) => match target {
                    ExprView::Var(name) => Ok((StmtView::VarAssign { name, value }, end)),
                    ExprView::FnCall { name, arguments } => match parameter_names(arguments) {
                        Some(parameters) => Ok(
                            (StmtView::FnAssign { name, parameters, body: value }, end),
                        ),
                        None => Err(msg_invalid_parameters()),
                    },
                    _ => Err(msg_invalid_target()),
                },
            }
        } else {
            Ok((StmtView::Expr(target), next))
        },
    }
}

/// What a token sequence means, read from `pos`: one statement that reaches
/// the end of input, or a message.
pub open spec fn spec_parse(toks: Seq<Token>, src: Seq<u8>, pos: int) -> Result<
    StmtView,
    Seq<char>,
> {
    match spec_stmt(toks, src, pos) {
        Err(m) => Err(m),
        Ok((stmt, next)) => if kind_at(toks, next) == TokenKind::Eof {
            Ok(stmt)
        } else {
            Err(msg_trailing_input())
        },
    }
}

/// A parse that succeeded went forward and stayed inside the tokens.
pub open spec fn went_forward(toks: Seq<Token>, pos: int, parsed: Parsed) -> bool {
    parsed matches Ok((_, next)) ==> advanced(toks, pos, next)
}

/// A parse of further operators that succeeded did not go back and stayed
/// inside the tokens.
pub open spec fn not_back(toks: Seq<Token>, pos: int, parsed: Parsed) -> bool {
    parsed matches Ok((_, next)) ==> pos <= next <= toks.len()
}

/// Every expression takes at least one token, and none from behind the end
/// of input. So wherever the grammar above asks whether a parse went
/// forward, it did.
pub proof fn law_expression_goes_forward(toks: Seq<Token>, src: Seq<u8>, pos: int)
    ensures
        went_forward(toks, pos, spec_expression(toks, src, pos)),
    decreases toks.len() - pos, 7nat,
{
    lemma_term_goes_forward(toks, src, pos);
}

proof fn lemma_term_goes_forward(toks: Seq<Token>, src: Seq<u8>, pos: int)
    ensures
        went_forward(toks, pos, spec_term(toks, src, pos)),
    decreases toks.len() - pos, 6nat,
{
    lemma_factor_goes_forward(toks, src, pos);
    if let Ok((lhs, next)) = spec_factor(toks, src, pos) {
        lemma_term_rest_not_back(toks, src, next, lhs);
    }
}

proof fn lemma_term_rest_not_back(toks: Seq<Token>, src: Seq<u8>, pos: int, lhs: ExprView)
    requires
        0 <= pos <= toks.len(),
    ensures
        not_back(toks, pos, spec_term_rest(toks, src, pos, lhs)),
    decreases toks.len() - pos, 0nat,
{
    if kind_at(toks, pos) == TokenKind::Plus || kind_at(toks, pos) == TokenKind::Minus {
        lemma_factor_goes_forward(toks, src, pos + 1);
        if let Ok((rhs, next)) = spec_factor(toks, src, pos + 1) {
            lemma_term_rest_not_back(toks, src, next, binary(lhs, toks[pos], rhs));
        }
    }
}

proof fn lemma_factor_goes_forward(toks: Seq<Token>, src: Seq<u8>, pos: int)
    ensures
        went_forward(toks, pos, spec_factor(toks, src, pos)),
    decreases toks.len() - pos, 5nat,
{
    lemma_unary_goes_forward(toks, src, pos);
    if let Ok((lhs, next)) = spec_unary(toks, src, pos) {
        lemma_factor_rest_not_back(toks, src, next, lhs);
    }
}

proof fn lemma_factor_rest_not_back(toks: Seq<Token>, src: Seq<u8>, pos: int, lhs: ExprView)
    requires
        0 <= pos <= toks.len(),
    ensures
        not_back(toks, pos, spec_factor_rest(toks, src, pos, lhs)),
    decreases toks.len() - pos, 0nat,
{
    if kind_at(toks, pos) == TokenKind::Slash || kind_at(toks, pos) == TokenKind::Star {
        lemma_unary_goes_forward(toks, src, pos + 1);
        if let Ok((rhs, next)) = spec_unary(toks, src, pos + 1) {
            lemma_factor_rest_not_back(toks, src, next, binary(lhs, toks[pos], rhs));
        }
    }
}

proof fn lemma_unary_goes_forward(toks: Seq<Token>, src: Seq<u8>, pos: int)
    ensures
        went_forward(toks, pos, spec_unary(toks, src, pos)),
    decreases toks.len() - pos, 4nat,
{
    if kind_at(toks, pos) == TokenKind::Minus || kind_at(toks, pos) == TokenKind::Plus {
        lemma_unary_goes_forward(toks, src, pos + 1);
    } else {
        lemma_exp_goes_forward(toks, src, pos);
    }
}

proof fn lemma_signed_goes_forward(toks: Seq<Token>, src: Seq<u8>, pos: int)
    ensures
        went_forward(toks, pos, spec_signed(toks, src, pos)),
    decreases toks.len() - pos, 3nat,
{
    if kind_at(toks, pos) == TokenKind::Minus || kind_at(toks, pos) == TokenKind::Plus {
        lemma_signed_goes_forward(toks, src, pos + 1);
    } else {
        lemma_primary_goes_forward(toks, src, pos);
    }
}

proof fn lemma_exp_goes_forward(toks: Seq<Token>, src: Seq<u8>, pos: int)
    ensures
        went_forward(toks, pos, spec_exp(toks, src, pos)),
    decreases toks.len() - pos, 3nat,
{
    lemma_primary_goes_forward(toks, src, pos);
    if let Ok((lhs, next)) = spec_primary(toks, src, pos) {
        lemma_exp_rest_not_back(toks, src, next, lhs);
    }
}

proof fn lemma_exp_rest_not_back(toks: Seq<Token>, src: Seq<u8>, pos: int, lhs: ExprView)
    requires
        0 <= pos <= toks.len(),
    ensures
        not_back(toks, pos, spec_exp_rest(toks, src, pos, lhs)),
    decreases toks.len() - pos, 0nat,
{
    if kind_at(toks, pos) == TokenKind::Exp {
        lemma_signed_goes_forward(toks, src, pos + 1);
        if let Ok((rhs, next)) = spec_signed(toks, src, pos + 1) {
            lemma_exp_rest_not_back(toks, src, next, binary(lhs, toks[pos], rhs));
        }
    }
}

proof fn lemma_primary_goes_forward(toks: Seq<Token>, src: Seq<u8>, pos: int)
    ensures
        went_forward(toks, pos, spec_primary(toks, src, pos)),
    decreases toks.len() - pos, 2nat,
{
    let kind = kind_at(toks, pos);
    if kind == TokenKind::LParen {
        law_expression_goes_forward(toks, src, pos + 1);
    } else if kind == TokenKind::Indentifier && kind_at(toks, pos + 1) == TokenKind::LParen {
        if let Some(name) = name_at(toks, src, pos) {
            lemma_arguments_go_forward(toks, src, pos + 2, name, Seq::empty());
        }
    }
}

proof fn lemma_arguments_go_forward(
    toks: Seq<Token>,
    src: Seq<u8>,
    pos: int,
    name: Seq<char>,
    done: Seq<ExprView>,
)
    ensures
        went_forward(toks, pos, spec_arguments(toks, src, pos, name, done)),
    decreases toks.len() - pos, 8nat,
{
    law_expression_goes_forward(toks, src, pos);
    if let Ok((argument, next)) = spec_expression(toks, src, pos) {
        if kind_at(toks, next) == TokenKind::Comma {
            lemma_arguments_go_forward(toks, src, next + 1, name, done.push(argument));
        }
    }
}

/// `m` is one of the six messages of the parser.
pub open spec fn is_parse_message(m: Seq<char>) -> bool {
    ||| m == msg_expected_expression()
    ||| m == msg_unclosed_group()
    ||| m == msg_unclosed_call()
    ||| m == msg_invalid_parameters()
    ||| m == msg_invalid_target()
    ||| m == msg_trailing_input()
}

/// A parse that failed gave one of the messages of the parser.
pub open spec fn failed_with_message(parsed: Parsed) -> bool {
    parsed matches Err(m) ==> is_parse_message(m)
}

/// Whatever the tokens are, parsing gives a statement or one of the six
/// messages: for an operand that is missing, a parenthesis that is not
/// closed (of a group, of a call), a target that cannot be assigned to
/// (parameters that are no names, anything but a name or a call), or
/// tokens behind the statement.
pub proof fn law_parse_fails_with_a_message(toks: Seq<Token>, src: Seq<u8>, pos: int)
    ensures
        spec_parse(toks, src, pos) matches Err(m) ==> is_parse_message(m),
        spec_stmt(toks, src, pos) matches Err(m) ==> is_parse_message(m),
{
    lemma_expression_message(toks, src, pos);
    if let Ok((target, next)) = spec_expression(toks, src, pos) {
        lemma_expression_message(toks, src, next + 1);
    }
}

proof fn lemma_expression_message(toks: Seq<Token>, src: Seq<u8>, pos: int)
    ensures
        failed_with_message(spec_expression(toks, src, pos)),
    decreases toks.len() - pos, 7nat,
{
    lemma_term_message(toks, src, pos);
}

proof fn lemma_term_message(toks: Seq<Token>, src: Seq<u8>, pos: int)
    ensures
        failed_with_message(spec_term(toks, src, pos)),
    decreases toks.len() - pos, 6nat,
{
    lemma_factor_message(toks, src, pos);
    if let Ok((lhs, next)) = spec_factor(toks, src, pos) {
        if advanced(toks, pos, next) {
            lemma_term_rest_message(toks, src, next, lhs);
        }
    }
}

proof fn lemma_term_rest_message(toks: Seq<Token>, src: Seq<u8>, pos: int, lhs: ExprView)
    ensures
        failed_with_message(spec_term_rest(toks, src, pos, lhs)),
    decreases toks.len() - pos, 0nat,
{
    if kind_at(toks, pos) == TokenKind::Plus || kind_at(toks, pos) == TokenKind::Minus {
        lemma_factor_message(toks, src, pos + 1);
        if let Ok((rhs, next)) = spec_factor(toks, src, pos + 1) {
            if advanced(toks, pos, next) {
                lemma_term_rest_message(toks, src, next, binary(lhs, toks[pos], rhs));
            }
        }
    }
}

proof fn lemma_factor_message(toks: Seq<Token>, src: Seq<u8>, pos: int)
    ensures
        failed_with_message(spec_factor(toks, src, pos)),
    decreases toks.len() - pos, 5nat,
{
    lemma_unary_message(toks, src, pos);
    if let Ok((lhs, next)) = spec_unary(toks, src, pos) {
        if advanced(toks, pos, next) {
            lemma_factor_rest_message(toks, src, next, lhs);
        }
    }
}

proof fn lemma_factor_rest_message(toks: Seq<Token>, src: Seq<u8>, pos: int, lhs: ExprView)
    ensures
        failed_with_message(spec_factor_rest(toks, src, pos, lhs)),
    decreases toks.len() - pos, 0nat,
{
    if kind_at(toks, pos) == TokenKind::Slash || kind_at(toks, pos) == TokenKind::Star {
        lemma_unary_message(toks, src, pos + 1);
        if let Ok((rhs, next)) = spec_unary(toks, src, pos + 1) {
            if advanced(toks, pos, next) {
                lemma_factor_rest_message(toks, src, next, binary(lhs, toks[pos], rhs));
            }
        }
    }
}

proof fn lemma_unary_message(toks: Seq<Token>, src: Seq<u8>, pos: int)
    ensures
        failed_with_message(spec_unary(toks, src, pos)),
    decreases toks.len() - pos, 4nat,
{
    if kind_at(toks, pos) == TokenKind::Minus || kind_at(toks, pos) == TokenKind::Plus {
        lemma_unary_message(toks, src, pos + 1);
    } else {
        lemma_exp_message(toks, src, pos);
    }
}

proof fn lemma_signed_message(toks: Seq<Token>, src: Seq<u8>, pos: int)
    ensures
        failed_with_message(spec_signed(toks, src, pos)),
    decreases toks.len() - pos, 3nat,
{
    if kind_at(toks, pos) == TokenKind::Minus || kind_at(toks, pos) == TokenKind::Plus {
        lemma_signed_message(toks, src, pos + 1);
    } else {
        lemma_primary_message(toks, src, pos);
    }
}

proof fn lemma_exp_message(toks: Seq<Token>, src: Seq<u8>, pos: int)
    ensures
        failed_with_message(spec_exp(toks, src, pos)),
    decreases toks.len() - pos, 3nat,
{
    lemma_primary_message(toks, src, pos);
    if let Ok((lhs, next)) = spec_primary(toks, src, pos) {
        if advanced(toks, pos, next) {
            lemma_exp_rest_message(toks, src, next, lhs);
        }
    }
}

proof fn lemma_exp_rest_message(toks: Seq<Token>, src: Seq<u8>, pos: int, lhs: ExprView)
    ensures
        failed_with_message(spec_exp_rest(toks, src, pos, lhs)),
    decreases toks.len() - pos, 0nat,
{
    if kind_at(toks, pos) == TokenKind::Exp {
        lemma_signed_message(toks, src, pos + 1);
        if let Ok((rhs, next)) = spec_signed(toks, src, pos + 1) {
            if advanced(toks, pos, next) {
                lemma_exp_rest_message(toks, src, next, binary(lhs, toks[pos], rhs));
            }
        }
    }
}

proof fn lemma_primary_message(toks: Seq<Token>, src: Seq<u8>, pos: int)
    ensures
        failed_with_message(spec_primary(toks, src, pos)),
    decreases toks.len() - pos, 2nat,
{
    let kind = kind_at(toks, pos);
    if kind == TokenKind::LParen {
        lemma_expression_message(toks, src, pos + 1);
    } else if kind == TokenKind::Indentifier && kind_at(toks, pos + 1) == TokenKind::LParen {
        if let Some(name) = name_at(toks, src, pos) {
            lemma_arguments_message(toks, src, pos + 2, name, Seq::empty());
        }
    }
}

proof fn lemma_arguments_message(
    toks: Seq<Token>,
    src: Seq<u8>,
    pos: int,
    name: Seq<char>,
    done: Seq<ExprView>,
)
    ensures
        failed_with_message(spec_arguments(toks, src, pos, name, done)),
    decreases toks.len() - pos, 8nat,
{
    lemma_expression_message(toks, src, pos);
    if let Ok((argument, next)) = spec_expression(toks, src, pos) {
        if kind_at(toks, next) == TokenKind::Comma && advanced(toks, pos, next) {
            lemma_arguments_message(toks, src, next + 1, name, done.push(argument));
        }
    }
}

/// The tokens that scanning gives fit their source, so the name of each of
/// them is found in it, and the text of each operator is printed as it was
/// written.
pub proof fn law_scanned_tokens_are_found(toks: Seq<Token>, src: Seq<u8>, pos: int)
    requires
        crate::scanner::tokens_fit(src, crate::scanner::tokens_view(toks)),
        0 <= pos < toks.len(),
    ensures
        name_at(toks, src, pos) == Some(
            chars_of(src, toks[pos].start as int, toks[pos].end as int),
        ),
        operator_text(src, toks[pos]@) == chars_of(
            src,
            toks[pos].start as int,
            toks[pos].end as int,
        ),
{
    assert(crate::scanner::token_fits(src, crate::scanner::tokens_view(toks)[pos]));
}

/// A recursive-descent parser over the tokens of one line of input.
pub struct Parser<'a> {
    current: usize,
    tokens: &'a [Token],
    source: &'a str,
}

/// The exprs_view of a sequence grows with the sequence.
proof fn lemma_exprs_view_push(exprs: Seq<Expr>, e: Expr)
    ensures
        exprs_view(exprs.push(e)) == exprs_view(exprs).push(e@),
{
    assert(exprs_view(exprs.push(e)) =~= exprs_view(exprs).push(e@));
}

/// The names of the parameters that `arguments` stand for, if each of them
/// is a bare name.
fn parameter_list(arguments: &Vec<Expr>) -> (r: Option<Vec<String>>)
    ensures
        match parameter_names(exprs_view(arguments@)) {
            Some(names) => r matches Some(v) && names_view(v@) == names,
            None => r is None,
        },
{
    let mut parameters: Vec<String> = Vec::new();
    let mut i: usize = 0;
    while i < arguments.len()
        invariant
            i <= arguments.len(),
            parameters@.len() == i,
            forall|j: int| 0 <= j < i ==> (#[trigger] exprs_view(arguments@)[j]) is Var,
            forall|j: int|
                0 <= j < i ==> (#[trigger] parameters@[j])@ == exprs_view(arguments@)[j]->Var_0,
        decreases arguments.len() - i,
    {
        match &arguments[i] {
            Expr::Var(v) => parameters.push(v.name.clone()),
            _ => {
                assert(!(exprs_view(arguments@)[i as int] is Var));
                return None;
            },
        }
        i += 1;
    }
    assert(names_view(parameters@) =~= parameter_names(exprs_view(arguments@))->0);
    Some(parameters)
}

impl<'a> Parser<'a> {
    /// The tokens that are parsed.
    pub closed spec fn toks(&self) -> Seq<Token> {
        self.tokens@
    }

    /// The bytes of the source that the tokens point into.
    pub closed spec fn src(&self) -> Seq<u8> {
        self.source.spec_bytes()
    }

    /// The characters of the source.
    pub closed spec fn source_text(&self) -> Seq<char> {
        self.source@
    }

    /// The position of the next token to be read.
    pub closed spec fn pos(&self) -> int {
        self.current as int
    }

    /// `self` reads the same tokens of the same source as `other`.
    pub open spec fn same_input(&self, other: &Self) -> bool {
        &&& self.toks() == other.toks()
        &&& self.src() == other.src()
        &&& self.source_text() == other.source_text()
    }

    /// The result `r` of a parsing step that began at `start` and left the
    /// parser `self` is what the grammar gives.
    pub open spec fn agrees(&self, r: Result<Expr, String>, start: int, expected: Parsed) -> bool {
        match expected {
            Ok((e, next)) => {
                &&& r matches Ok(x)
                &&& x@ == e
                &&& self.pos() == next
                &&& advanced(self.toks(), start, next)
            },
            Err(m) => r matches Err(s) && s@ == m,
        }
    }

    /// A parser at the first of `tokens`, which point into `source`.
    pub fn new(tokens: &'a [Token], source: &'a str) -> (p: Self)
        ensures
            p.toks() == tokens@,
            p.src() == source.spec_bytes(),
            p.source_text() == source@,
            p.pos() == 0,
    {
        Self { current: 0, tokens, source }
    }

    fn is_at_end(&self) -> (r: bool)
        ensures
            r == (kind_at(self.toks(), self.pos()) == TokenKind::Eof),
    {
        self.current >= self.tokens.len() || self.tokens[self.current].kind == TokenKind::Eof
    }

    fn check(&self, kind: TokenKind) -> (r: bool)
        ensures
            r == (kind != TokenKind::Eof && kind_at(self.toks(), self.pos()) == kind),
    {
        if self.is_at_end() {
            return false;
        }
        self.tokens[self.current].kind == kind
    }

    fn advance(&mut self)
        ensures
            final(self).same_input(old(self)),
            final(self).pos() == if kind_at(old(self).toks(), old(self).pos()) == TokenKind::Eof {
                old(self).pos()
            } else {
                old(self).pos() + 1
            },
    {
        if self.current < self.tokens.len() && self.tokens[self.current].kind != TokenKind::Eof {
            self.current += 1;
        }
    }

    fn previous(&self) -> (r: &Token)
        requires
            0 < self.pos() <= self.toks().len(),
        ensures
            *r == self.toks()[self.pos() - 1],
    {
        &self.tokens[self.current - 1]
    }

    /// Steps over the next token if its class is one of `kinds`.
    fn match_tokens(&mut self, kinds: &[TokenKind]) -> (r: bool)
        ensures
            final(self).same_input(old(self)),
            r == (kind_at(old(self).toks(), old(self).pos()) != TokenKind::Eof && kinds@.contains(
                kind_at(old(self).toks(), old(self).pos()),
            )),
            final(self).pos() == if r {
                old(self).pos() + 1
            } else {
                old(self).pos()
            },
            r ==> old(self).pos() < old(self).toks().len(),
    {
        let mut i: usize = 0;
        while i < kinds.len()
            invariant
                i <= kinds.len(),
                *self == *old(self),
                forall|j: int|
                    0 <= j < i ==> !(kind_at(self.toks(), self.pos()) != TokenKind::Eof
                        && kind_at(self.toks(), self.pos()) == #[trigger] kinds@[j]),
            decreases kinds.len() - i,
        {
            if self.check(kinds[i]) {
                self.advance();
                return true;
            }
            i += 1;
        }
        false
    }

    /// Steps over the next token if its class is `kind`, and fails with
    /// `message` otherwise.
    fn consume(&mut self, kind: TokenKind, message: &str) -> (r: Result<(), String>)
        requires
            kind != TokenKind::Eof,
        ensures
            final(self).same_input(old(self)),
            kind_at(old(self).toks(), old(self).pos()) == kind ==> r is Ok && final(self).pos()
                == old(self).pos() + 1 && old(self).pos() < old(self).toks().len(),
            kind_at(old(self).toks(), old(self).pos()) != kind ==> (r matches Err(s) && s@
                == message@),
    {
        if self.check(kind) {
            self.advance();
            return Ok(());
        }
        Err(String::from_str(message))
    }

    fn expression(&mut self) -> (r: Result<Expr, String>)
        ensures
            final(self).same_input(old(self)),
            final(self).agrees(
                r,
                old(self).pos(),
                spec_expression(old(self).toks(), old(self).src(), old(self).pos()),
            ),
        decreases old(self).toks().len() - old(self).pos(), 7nat,
    {
        self.term()
    }

    fn term(&mut self) -> (r: Result<Expr, String>)
        ensures
            final(self).same_input(old(self)),
            final(self).agrees(
                r,
                old(self).pos(),
                spec_term(old(self).toks(), old(self).src(), old(self).pos()),
            ),
        decreases old(self).toks().len() - old(self).pos(), 6nat,
    {
        let ghost start = self.pos();
        let ghost toks = self.toks();
        let ghost src = self.src();
        let mut expr = self.factor()?;
        loop
            invariant
                self.same_input(old(self)),
                toks == self.toks(),
                src == self.src(),
                start == old(self).pos(),
                advanced(toks, start, self.pos()),
                spec_term(toks, src, start) == spec_term_rest(toks, src, self.pos(), expr@),
            decreases toks.len() - self.pos(),
        {
            if !self.match_tokens(&[TokenKind::Plus, TokenKind::Minus]) {
                return Ok(expr);
            }
            let operator = self.previous().clone();
            let rhs = self.factor()?;
            expr = Expr::Binary(Box::new(BinaryExpr { lhs: expr, operator, rhs }));
        }
    }

    fn factor(&mut self) -> (r: Result<Expr, String>)
        ensures
            final(self).same_input(old(self)),
            final(self).agrees(
                r,
                old(self).pos(),
                spec_factor(old(self).toks(), old(self).src(), old(self).pos()),
            ),
        decreases old(self).toks().len() - old(self).pos(), 5nat,
    {
        let ghost start = self.pos();
        let ghost toks = self.toks();
        let ghost src = self.src();
        let mut expr = self.unary()?;
        loop
            invariant
                self.same_input(old(self)),
                toks == self.toks(),
                src == self.src(),
                start == old(self).pos(),
                advanced(toks, start, self.pos()),
                spec_factor(toks, src, start) == spec_factor_rest(toks, src, self.pos(), expr@),
            decreases toks.len() - self.pos(),
        {
            if !self.match_tokens(&[TokenKind::Slash, TokenKind::Star]) {
                return Ok(expr);
            }
            let operator = self.previous().clone();
            let rhs = self.unary()?;
            expr = Expr::Binary(Box::new(BinaryExpr { lhs: expr, operator, rhs }));
        }
    }

    fn unary(&mut self) -> (r: Result<Expr, String>)
        ensures
            final(self).same_input(old(self)),
            final(self).agrees(
                r,
                old(self).pos(),
                spec_unary(old(self).toks(), old(self).src(), old(self).pos()),
            ),
        decreases old(self).toks().len() - old(self).pos(), 4nat,
    {
        if self.match_tokens(&[TokenKind::Minus, TokenKind::Plus]) {
            let operator = self.previous().clone();
            let rhs = self.unary()?;
            return Ok(Expr::Unary(Box::new(UnaryExpr { operator, rhs })));
        }
        self.exp()
    }

    fn signed(&mut self) -> (r: Result<Expr, String>)
        ensures
            final(self).same_input(old(self)),
            final(self).agrees(
                r,
                old(self).pos(),
                spec_signed(old(self).toks(), old(self).src(), old(self).pos()),
            ),
        decreases old(self).toks().len() - old(self).pos(), 3nat,
    {
        if self.match_tokens(&[TokenKind::Minus, TokenKind::Plus]) {
            let operator = self.previous().clone();
            let rhs = self.signed()?;
            return Ok(Expr::Unary(Box::new(UnaryExpr { operator, rhs })));
        }
        self.primary()
    }

    fn exp(&mut self) -> (r: Result<Expr, String>)
        ensures
            final(self).same_input(old(self)),
            final(self).agrees(
                r,
                old(self).pos(),
                spec_exp(old(self).toks(), old(self).src(), old(self).pos()),
            ),
        decreases old(self).toks().len() - old(self).pos(), 3nat,
    {
        let ghost start = self.pos();
        let ghost toks = self.toks();
        let ghost src = self.src();
        let mut expr = self.primary()?;
        loop
            invariant
                self.same_input(old(self)),
                toks == self.toks(),
                src == self.src(),
                start == old(self).pos(),
                advanced(toks, start, self.pos()),
                spec_exp(toks, src, start) == spec_exp_rest(toks, src, self.pos(), expr@),
            decreases toks.len() - self.pos(),
        {
            if !self.match_tokens(&[TokenKind::Exp]) {
                return Ok(expr);
            }
            let operator = self.previous().clone();
            let rhs = self.signed()?;
            expr = Expr::Binary(Box::new(BinaryExpr { lhs: expr, operator, rhs }));
        }
    }

    fn primary(&mut self) -> (r: Result<Expr, String>)
        ensures
            final(self).same_input(old(self)),
            final(self).agrees(
                r,
                old(self).pos(),
                spec_primary(old(self).toks(), old(self).src(), old(self).pos()),
            ),
        decreases old(self).toks().len() - old(self).pos(), 2nat,
    {
        let ghost start = self.pos();
        let ghost toks = self.toks();
        let ghost src = self.src();
        if self.match_tokens(&[TokenKind::Number]) {
            return match &self.previous().literal {
                Some(l) => Ok(Expr::Literal(l.clone())),
                None => Err(String::from_str("Expected expression")),
            };
        }
        if self.match_tokens(&[TokenKind::LParen]) {
            let expr = self.expression()?;
            self.consume(TokenKind::RParen, "Expect ')' after expression.")?;
            return Ok(Expr::Grouping(Box::new(GroupingExpr(expr))));
        }
        if self.match_tokens(&[TokenKind::Indentifier]) {
            let token = self.previous();
            let name = match crate::text::slice(self.source, token.start, token.end) {
                Some(part) => String::from_str(part),
                None => {
                    return Err(String::from_str("Expected expression"));
                },
            };
            if self.match_tokens(&[TokenKind::LParen]) {
                let mut arguments: Vec<Expr> = Vec::new();
                assert(exprs_view(arguments@) =~= Seq::empty());
                loop
                    invariant
                        self.same_input(old(self)),
                        toks == self.toks(),
                        src == self.src(),
                        start == old(self).pos(),
                        start + 2 <= self.pos() <= toks.len(),
                        spec_primary(toks, src, start) == spec_arguments(
                            toks,
                            src,
                            self.pos(),
                            name@,
                            exprs_view(arguments@),
                        ),
                    decreases toks.len() - self.pos(),
                {
                    let argument = self.expression()?;
                    proof {
                        lemma_exprs_view_push(arguments@, argument);
                    }
                    arguments.push(argument);
                    if !self.match_tokens(&[TokenKind::Comma]) {
                        self.consume(TokenKind::RParen, "Expect ')' after function call.")?;
                        return Ok(Expr::FnCall(FnCall { name, arguments }));
                    }
                }
            } else {
                return Ok(Expr::Var(Var { name }));
            }
        }
        Err(String::from_str("Expected expression"))
    }

    fn stmt(&mut self) -> (r: Result<Stmt, String>)
        ensures
            final(self).same_input(old(self)),
            match spec_stmt(old(self).toks(), old(self).src(), old(self).pos()) {
                Ok((stmt, next)) => r matches Ok(s) && s@ == stmt && final(self).pos() == next,
                Err(m) => r matches Err(s) && s@ == m,
            },
    {
        let expr = self.expression()?;
        if self.match_tokens(&[TokenKind::Equal]) {
            let value = self.expression()?;
            return match expr {
                Expr::Var(v) => Ok(Stmt::VarAssign(VarAssign { name: v.name, value })),
                Expr::FnCall(f) => match parameter_list(&f.arguments) {
                    Some(parameters) => Ok(
                        Stmt::FnAssign(FnAssign { name: f.name, arguments: parameters, expr: value }),
                    ),
                    None => Err(String::from_str("Invalid function args")),
                },
                _ => Err(String::from_str("Expected function or variable assignment")),
            };
        }
        Ok(Stmt::Expr(expr))
    }

    /// Parses one statement that reaches the end of input.
    pub fn parse(&mut self) -> (r: Result<Stmt, String>)
        ensures
            final(self).same_input(old(self)),
            match spec_parse(old(self).toks(), old(self).src(), old(self).pos()) {
                Ok(stmt) => r matches Ok(s) && s@ == stmt,
                Err(m) => r matches Err(s) && s@ == m,
            },
    {
        let res = self.stmt()?;
        if !self.is_at_end() {
            return Err(String::from_str("Expected EOF"));
        }
        Ok(res)
    }

    /// The message `msg` under the source, with a caret under the place
    /// where `token` begins.
    pub fn error(&self, msg: String, token: &Token) -> (r: String)
        ensures
            r@ == self.source_text() + seq!['\n'] + crate::text::repeated(' ', token.start as nat)
                + seq!['^', ' '] + msg@,
    {
        proof {
            reveal_strlit("\n");
            reveal_strlit(" ");
            reveal_strlit("^ ");
        }
        let mut out = String::from_str(self.source);
        out.append("\n");
        crate::text::push_repeated(&mut out, " ", token.start);
        out.append("^ ");
        out.append(msg.as_str());
        assert(out@ =~= self.source_text() + seq!['\n'] + crate::text::repeated(
            ' ',
            token.start as nat,
        ) + seq!['^', ' '] + msg@);
        out
    }
}

/// The text of an operator: what its token covers in the source, or a
/// question mark where the range of the token cannot be cut out of the
/// source.
pub open spec fn operator_text(src: Seq<u8>, operator: TokenView) -> Seq<char> {
    if can_slice(src, operator.start as int, operator.end as int) {
        chars_of(src, operator.start as int, operator.end as int)
    } else {
        seq!['?']
    }
}

/// An expression in prefix form, with every node in parentheses:
/// `(+ 2 (* 3 4))`.
pub open spec fn render_expr(src: Seq<u8>, e: ExprView) -> Seq<char>
    decreases e, 0nat,
{
    match e {
        ExprView::Literal(text) => text,
        ExprView::Grouping(inner) => "(group "@ + render_expr(src, *inner) + seq![')'],
        ExprView::Var(name) => name,
        ExprView::Binary { lhs, operator, rhs } => seq!['('] + operator_text(src, operator)
            + seq![' '] + render_expr(src, *lhs) + seq![' '] + render_expr(src, *rhs) + seq![')'],
        ExprView::Unary { operator, rhs } => seq!['('] + operator_text(src, operator) + seq![' ']
            + render_expr(src, *rhs) + seq![')'],
        ExprView::FnCall { name, arguments } => seq!['('] + name + render_arguments(
            src,
            arguments,
            0,
        ) + seq![')'],
    }
}

/// The arguments from place `i` on, each after a space.
pub open spec fn render_arguments(src: Seq<u8>, arguments: Seq<ExprView>, i: int) -> Seq<char>
    decreases arguments, arguments.len() - i,
{
    if 0 <= i < arguments.len() {
        seq![' '] + render_expr(src, arguments[i]) + render_arguments(src, arguments, i + 1)
    } else {
        Seq::empty()
    }
}

/// The names from place `i` on, each after a space.
pub open spec fn render_names(names: Seq<Seq<char>>, i: int) -> Seq<char>
    decreases names.len() - i,
{
    if 0 <= i < names.len() {
        seq![' '] + names[i] + render_names(names, i + 1)
    } else {
        Seq::empty()
    }
}

/// A statement as text: an assignment as its target, ` = ` and its value.
pub open spec fn render_stmt(src: Seq<u8>, s: StmtView) -> Seq<char> {
    match s {
        StmtView::VarAssign { name, value } => name + " = "@ + render_expr(src, value),
        StmtView::FnAssign { name, parameters, body } => seq!['('] + name + render_names(
            parameters,
            0,
        ) + seq![')'] + " = "@ + render_expr(src, body),
        StmtView::Expr(e) => render_expr(src, e),
    }
}

/// Writes syntax trees out as text, for testing and for looking at them.
pub struct AstPrinter<'a> {
    pub source: &'a str,
}

impl<'a> AstPrinter<'a> {
    /// The bytes of the source that the tokens of the trees point into.
    pub open spec fn src(&self) -> Seq<u8> {
        self.source.spec_bytes()
    }

    fn operator(&self, operator: &Token) -> (r: &'a str)
        ensures
            r@ == operator_text(self.src(), operator@),
    {
        proof {
            reveal_strlit("?");
        }
        match crate::text::slice(self.source, operator.start, operator.end) {
            Some(part) => part,
            None => {
                assert("?"@ =~= seq!['?']);
                "?"
            },
        }
    }

    pub fn visit_grouping_expr(&self, e: &GroupingExpr) -> (r: String)
        ensures
            r@ == render_expr(self.src(), ExprView::Grouping(Box::new(e.0@))),
        decreases e, 1nat,
    {
        proof {
            reveal_strlit(")");
        }
        let mut out = String::from_str("(group ");
        let inner = self.visit_expr(&e.0);
        out.append(inner.as_str());
        out.append(")");
        assert(out@ =~= "(group "@ + render_expr(self.src(), e.0@) + seq![')']);
        out
    }

    pub fn visit_var(&self, e: &Var) -> (r: String)
        ensures
            r@ == e.name@,
    {
        e.name.clone()
    }

    pub fn visit_binary_expr(&self, e: &BinaryExpr) -> (r: String)
        ensures
            r@ == render_expr(
                self.src(),
                ExprView::Binary {
                    lhs: Box::new(e.lhs@),
                    operator: e.operator@,
                    rhs: Box::new(e.rhs@),
                },
            ),
        decreases e, 1nat,
    {
        proof {
            reveal_strlit("(");
            reveal_strlit(" ");
            reveal_strlit(")");
        }
        let mut out = String::from_str("(");
        out.append(self.operator(&e.operator));
        out.append(" ");
        let lhs = self.visit_expr(&e.lhs);
        out.append(lhs.as_str());
        out.append(" ");
        let rhs = self.visit_expr(&e.rhs);
        out.append(rhs.as_str());
        out.append(")");
        assert(out@ =~= seq!['('] + operator_text(self.src(), e.operator@) + seq![' ']
            + render_expr(self.src(), e.lhs@) + seq![' '] + render_expr(self.src(), e.rhs@)
            + seq![')']);
        out
    }

    pub fn visit_unary_expr(&self, e: &UnaryExpr) -> (r: String)
        ensures
            r@ == render_expr(
                self.src(),
                ExprView::Unary { operator: e.operator@, rhs: Box::new(e.rhs@) },
            ),
        decreases e, 1nat,
    {
        proof {
            reveal_strlit("(");
            reveal_strlit(" ");
            reveal_strlit(")");
        }
        let mut out = String::from_str("(");
        out.append(self.operator(&e.operator));
        out.append(" ");
        let rhs = self.visit_expr(&e.rhs);
        out.append(rhs.as_str());
        out.append(")");
        assert(out@ =~= seq!['('] + operator_text(self.src(), e.operator@) + seq![' ']
            + render_expr(self.src(), e.rhs@) + seq![')']);
        out
    }

    pub fn visit_literal(&self, e: &Literal) -> (r: String)
        ensures
            r@ == e.text(),
    {
        e.to_string()
    }

    fn arguments(&self, arguments: &Vec<Expr>, i: usize, out: &mut String)
        requires
            i <= arguments@.len(),
        ensures
            final(out)@ == old(out)@ + render_arguments(
                self.src(),
                exprs_view(arguments@),
                i as int,
            ),
        decreases arguments, arguments@.len() - i,
    {
        if i < arguments.len() {
            proof {
                reveal_strlit(" ");
            }
            out.append(" ");
            let argument = self.visit_expr(&arguments[i]);
            out.append(argument.as_str());
            self.arguments(arguments, i + 1, out);
            assert(final(out)@ =~= old(out)@ + render_arguments(
                self.src(),
                exprs_view(arguments@),
                i as int,
            ));
        } else {
            assert(final(out)@ =~= old(out)@ + render_arguments(
                self.src(),
                exprs_view(arguments@),
                i as int,
            ));
        }
    }

    pub fn visit_func_call(&self, e: &FnCall) -> (r: String)
        ensures
            r@ == render_expr(
                self.src(),
                ExprView::FnCall { name: e.name@, arguments: exprs_view(e.arguments@) },
            ),
        decreases e, 1nat,
    {
        proof {
            reveal_strlit("(");
            reveal_strlit(")");
        }
        let mut s = String::from_str("(");
        s.append(e.name.as_str());
        self.arguments(&e.arguments, 0, &mut s);
        s.append(")");
        assert(s@ =~= seq!['('] + e.name@ + render_arguments(
            self.src(),
            exprs_view(e.arguments@),
            0,
        ) + seq![')']);
        s
    }

    /// The expression in prefix form; see [`render_expr`].
    pub fn visit_expr(&self, e: &Expr) -> (r: String)
        ensures
            r@ == render_expr(self.src(), e@),
        decreases e, 2nat,
    {
        match e {
            Expr::Literal(e) => self.visit_literal(e),
            Expr::Binary(e) => self.visit_binary_expr(e),
            Expr::Unary(e) => self.visit_unary_expr(e),
            Expr::Grouping(e) => self.visit_grouping_expr(e),
            Expr::Var(e) => self.visit_var(e),
            Expr::FnCall(e) => self.visit_func_call(e),
        }
    }

    /// The statement as text; see [`render_stmt`].
    pub fn visit_stmt(&self, s: &Stmt) -> (r: String)
        ensures
            r@ == render_stmt(self.src(), s@),
    {
        proof {
            reveal_strlit("(");
            reveal_strlit(")");
            reveal_strlit(" ");
        }
        match s {
            Stmt::VarAssign(e) => {
                let mut out = e.name.clone();
                out.append(" = ");
                let value = self.visit_expr(&e.value);
                out.append(value.as_str());
                out
            },
            Stmt::FnAssign(e) => {
                let mut out = String::from_str("(");
                out.append(e.name.as_str());
                let mut i: usize = 0;
                let ghost head = out@;
                let ghost names = names_view(e.arguments@);
                assert(head =~= seq!['('] + e.name@);
                while i < e.arguments.len()
                    invariant
                        i <= e.arguments@.len(),
                        names == names_view(e.arguments@),
                        out@ + render_names(names, i as int) == head + render_names(names, 0),
                    decreases e.arguments.len() - i,
                {
                    proof {
                        reveal_strlit(" ");
                    }
                    let ghost before = out@;
                    out.append(" ");
                    out.append(e.arguments[i].as_str());
                    assert(out@ + render_names(names, i + 1) =~= before + render_names(
                        names,
                        i as int,
                    ));
                    i += 1;
                }
                assert(out@ =~= head + render_names(names, 0));
                out.append(")");
                out.append(" = ");
                let body = self.visit_expr(&e.expr);
                out.append(body.as_str());
                assert(out@ =~= seq!['('] + e.name@ + render_names(names, 0) + seq![')'] + " = "@
                    + render_expr(self.src(), e.expr@));
                out
            },
            Stmt::Expr(e) => self.visit_expr(e),
        }
    }
}

} // verus!
