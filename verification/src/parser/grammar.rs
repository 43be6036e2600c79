//! The grammar of the language, as functions from a token sequence and a
//! position to a syntax tree and the position after it.
//!
//! From lowest to highest precedence an expression is an assignment, a logical
//! `or`, a logical `and`, an equality, a comparison, a term, a factor, a unary
//! operation, a call, or a primary expression. Assignment associates to the
//! right; every binary level associates to the left.

use vstd::prelude::*;
use crate::ast::expr::{Depth, ExprView};
use crate::ast::statement::StatementView;
use crate::lexer::token::{Keyword, LiteralView, TokenType, TokenView};
use crate::parser::error::ParseErrorView;

verus! {

/// The outcome of parsing one construct: the tree or the error, and the
/// position of the first token that was not consumed.
pub struct Parsed<T> {
    pub result: Result<T, ParseErrorView>,
    pub next: int,
}

/// A successful parse.
pub open spec fn done<T>(value: T, next: int) -> Parsed<T> {
    Parsed { result: Ok(value), next }
}

/// A failed parse.
pub open spec fn fail<T>(error: ParseErrorView, next: int) -> Parsed<T> {
    Parsed { result: Err(error), next }
}

/// The outcome of a parse whose parts do not follow one another; no token
/// sequence leads here.
pub open spec fn stuck<T>(next: int) -> Parsed<T> {
    fail(ParseErrorView { line: 0, message: Seq::empty() }, next)
}

/// The number of tokens at and after `pos`.
pub open spec fn remaining(tokens: Seq<TokenView>, pos: int) -> nat {
    if 0 <= pos <= tokens.len() {
        (tokens.len() - pos) as nat
    } else {
        0
    }
}

/// Whether the token at `pos` exists and has the given kind.
pub open spec fn check(tokens: Seq<TokenView>, pos: int, kind: TokenType) -> bool {
    0 <= pos < tokens.len() && tokens[pos].kind == kind
}

/// The error reported at `token`.
pub open spec fn error_at(token: TokenView, message: Seq<char>) -> ParseErrorView {
    ParseErrorView {
        line: token.line,
        message: if token.kind == TokenType::Eof {
            "Error at end: "@ + message
        } else {
            "Error at '"@ + token.lexeme + "': "@ + message
        },
    }
}

/// The error reported when a token is wanted and none is left.
pub open spec fn end_of_input(tokens: Seq<TokenView>) -> ParseErrorView {
    if tokens.len() > 0 {
        error_at(tokens.last(), "Unexpected end of input"@)
    } else {
        ParseErrorView { line: 0, message: "Error at end: Unexpected end of input"@ }
    }
}

/// Takes the token at `pos`.
pub open spec fn advance(tokens: Seq<TokenView>, pos: int) -> Parsed<TokenView> {
    if 0 <= pos < tokens.len() {
        done(tokens[pos], pos + 1)
    } else {
        fail(end_of_input(tokens), pos)
    }
}

/// Takes the token at `pos` and insists on its kind. A token of another kind
/// is taken all the same.
pub open spec fn consume(
    tokens: Seq<TokenView>,
    pos: int,
    kind: TokenType,
    message: Seq<char>,
) -> Parsed<TokenView> {
    if 0 <= pos < tokens.len() {
        if tokens[pos].kind == kind {
            done(tokens[pos], pos + 1)
        } else {
            fail(error_at(tokens[pos], message), pos + 1)
        }
    } else {
        fail(end_of_input(tokens), pos)
    }
}

/// The binary levels of the grammar, from the tightest to the loosest.
#[derive(Debug, Clone, Copy, PartialEq, Eq, Structural)]
pub enum Level {
    Factor,
    Term,
    Comparison,
    Equality,
    And,
    Or,
}

impl Level {
    /// The place of the level among the levels, tightest first.
    pub open spec fn index(self) -> nat {
        match self {
            Level::Factor => 0,
            Level::Term => 1,
            Level::Comparison => 2,
            Level::Equality => 3,
            Level::And => 4,
            Level::Or => 5,
        }
    }

    /// Whether a token of this kind is an operator of the level.
    pub open spec fn has_operator(self, kind: TokenType) -> bool {
        match self {
            Level::Factor => kind == TokenType::Slash || kind == TokenType::Star,
            Level::Term => kind == TokenType::Minus || kind == TokenType::Plus,
            Level::Comparison => kind == TokenType::Less || kind == TokenType::Greater || kind
                == TokenType::LessEqual || kind == TokenType::GreaterEqual,
            Level::Equality => kind == TokenType::BangEqual || kind == TokenType::EqualEqual,
            Level::And => kind == TokenType::Keyword(Keyword::And),
            Level::Or => kind == TokenType::Keyword(Keyword::Or),
        }
    }

    /// The node for `left operator right` at this level.
    pub open spec fn combine(self, left: ExprView, operator: TokenView, right: ExprView) -> ExprView {
        match self {
            Level::And => ExprView::LogicAnd { left: Box::new(left), right: Box::new(right) },
            Level::Or => ExprView::LogicOr { left: Box::new(left), right: Box::new(right) },
            _ => ExprView::Binary { left: Box::new(left), operator, right: Box::new(right) },
        }
    }
}

/// A literal, a variable, or an expression in parentheses.
pub open spec fn primary(tokens: Seq<TokenView>, pos: int) -> Parsed<ExprView>
    decreases remaining(tokens, pos), 0nat,
{
    if 0 <= pos < tokens.len() {
        let token = tokens[pos];
        match token.kind {
            TokenType::Number | TokenType::String => done(
                ExprView::Literal { value: token },
                pos + 1,
            ),
            TokenType::Keyword(Keyword::Nil)
            | TokenType::Keyword(Keyword::False)
            | TokenType::Keyword(Keyword::True) => done(
                ExprView::Literal { value: token },
                pos + 1,
            ),
            TokenType::Identifier => done(
                ExprView::Variable { name: token, depth: Depth::Unresolved },
                pos + 1,
            ),
            TokenType::LeftParen => {
                let inner = expression(tokens, pos + 1);
                match inner.result {
                    Err(e) => fail(e, inner.next),
                    Ok(e) => {
                        let close = consume(
                            tokens,
                            inner.next,
                            TokenType::RightParen,
                            "Expect expression."@,
                        );
                        match close.result {
                            Err(e) => fail(e, close.next),
                            Ok(_) => done(
                                ExprView::Grouping { expression: Box::new(e) },
                                close.next,
                            ),
                        }
                    },
                }
            },
            _ => fail(error_at(token, "Expect expression."@), pos + 1),
        }
    } else {
        fail(end_of_input(tokens), pos)
    }
}

/// The argument list and closing parenthesis of a call whose opening
/// parenthesis is at `pos`.
pub open spec fn finish_call(tokens: Seq<TokenView>, pos: int, callee: ExprView) -> Parsed<
    ExprView,
>
    decreases remaining(tokens, pos), 1nat,
{
    if 0 <= pos < tokens.len() {
        let list = if check(tokens, pos + 1, TokenType::RightParen) {
            done(Seq::empty(), pos + 1)
        } else {
            arguments(tokens, pos + 1, Seq::empty())
        };
        match list.result {
            Err(e) => fail(e, list.next),
            Ok(items) => {
                let close = consume(
                    tokens,
                    list.next,
                    TokenType::RightParen,
                    "Expect ')' after arguments."@,
                );
                match close.result {
                    Err(e) => fail(e, close.next),
                    Ok(paren) => done(
                        ExprView::Call { callee: Box::new(callee), paren, arguments: items },
                        close.next,
                    ),
                }
            },
        }
    } else {
        fail(end_of_input(tokens), pos)
    }
}

/// One or more expressions separated by commas, added to `so_far`.
pub open spec fn arguments(tokens: Seq<TokenView>, pos: int, so_far: Seq<ExprView>) -> Parsed<
    Seq<ExprView>,
>
    decreases remaining(tokens, pos), 19nat,
{
    let item = expression(tokens, pos);
    match item.result {
        Err(e) => fail(e, item.next),
        Ok(e) => if check(tokens, item.next, TokenType::Comma) && 0 <= pos <= item.next {
            arguments(tokens, item.next + 1, so_far.push(e))
        } else {
            done(so_far.push(e), item.next)
        },
    }
}

/// The call suffixes that follow `callee`.
pub open spec fn call_rest(tokens: Seq<TokenView>, pos: int, callee: ExprView) -> Parsed<ExprView>
    decreases remaining(tokens, pos), 2nat,
{
    if check(tokens, pos, TokenType::LeftParen) {
        let called = finish_call(tokens, pos, callee);
        match called.result {
            Err(e) => fail(e, called.next),
            Ok(e) => if 0 <= pos < called.next {
                call_rest(tokens, called.next, e)
            } else {
                stuck(called.next)
            },
        }
    } else {
        done(callee, pos)
    }
}

/// A primary expression followed by any number of call suffixes.
pub open spec fn call(tokens: Seq<TokenView>, pos: int) -> Parsed<ExprView>
    decreases remaining(tokens, pos), 3nat,
{
    let callee = primary(tokens, pos);
    match callee.result {
        Err(e) => fail(e, callee.next),
        Ok(e) => if 0 <= pos <= callee.next {
            call_rest(tokens, callee.next, e)
        } else {
            stuck(callee.next)
        },
    }
}

/// Any number of `!` and `-`, then a call.
pub open spec fn unary(tokens: Seq<TokenView>, pos: int) -> Parsed<ExprView>
    decreases remaining(tokens, pos), 4nat,
{
    if check(tokens, pos, TokenType::Bang) || check(tokens, pos, TokenType::Minus) {
        let right = unary(tokens, pos + 1);
        match right.result {
            Err(e) => fail(e, right.next),
            Ok(e) => done(
                ExprView::Unary { operator: tokens[pos], right: Box::new(e) },
                right.next,
            ),
        }
    } else {
        call(tokens, pos)
    }
}

/// An operand of the given level: an expression of the next tighter level.
pub open spec fn operand(tokens: Seq<TokenView>, pos: int, level: Level) -> Parsed<ExprView>
    decreases remaining(tokens, pos), 5 + 2 * level.index(),
{
    match level {
        Level::Factor => unary(tokens, pos),
        Level::Term => binary(tokens, pos, Level::Factor),
        Level::Comparison => binary(tokens, pos, Level::Term),
        Level::Equality => binary(tokens, pos, Level::Comparison),
        Level::And => binary(tokens, pos, Level::Equality),
        Level::Or => binary(tokens, pos, Level::And),
    }
}

/// The operators and operands that follow `left` at the given level, folded
/// to the left.
pub open spec fn binary_rest(tokens: Seq<TokenView>, pos: int, level: Level, left: ExprView) -> Parsed<
    ExprView,
>
    decreases remaining(tokens, pos), 0nat,
{
    if 0 <= pos < tokens.len() && level.has_operator(tokens[pos].kind) {
        let right = operand(tokens, pos + 1, level);
        match right.result {
            Err(e) => fail(e, right.next),
            Ok(e) => if 0 <= pos < right.next {
                binary_rest(tokens, right.next, level, level.combine(left, tokens[pos], e))
            } else {
                stuck(right.next)
            },
        }
    } else {
        done(left, pos)
    }
}

/// One or more operands of the given level, separated by its operators.
pub open spec fn binary(tokens: Seq<TokenView>, pos: int, level: Level) -> Parsed<ExprView>
    decreases remaining(tokens, pos), 6 + 2 * level.index(),
{
    let first = operand(tokens, pos, level);
    match first.result {
        Err(e) => fail(e, first.next),
        Ok(e) => if 0 <= pos < first.next {
            binary_rest(tokens, first.next, level, e)
        } else {
            stuck(first.next)
        },
    }
}

/// A logical `or`, or a variable, `=` and an assignment.
pub open spec fn assignment(tokens: Seq<TokenView>, pos: int) -> Parsed<ExprView>
    decreases remaining(tokens, pos), 17nat,
{
    let target = binary(tokens, pos, Level::Or);
    match target.result {
        Err(e) => fail(e, target.next),
        Ok(left) => if check(tokens, target.next, TokenType::Equal) && 0 <= pos <= target.next {
            let value = assignment(tokens, target.next + 1);
            match value.result {
                Err(e) => fail(e, value.next),
                Ok(v) => match left {
                    ExprView::Variable { name, .. } => done(
                        ExprView::Assign { name, value: Box::new(v), depth: Depth::Unresolved },
                        value.next,
                    ),
                    _ => fail(
                        error_at(tokens[target.next], "Invalid assignment target."@),
                        value.next,
                    ),
                },
            }
        } else {
            done(left, target.next)
        },
    }
}

/// An expression.
pub open spec fn expression(tokens: Seq<TokenView>, pos: int) -> Parsed<ExprView>
    decreases remaining(tokens, pos), 18nat,
{
    assignment(tokens, pos)
}

/// The token that stands for a missing loop condition: the literal `true`.
pub open spec fn always_true() -> TokenView {
    TokenView {
        kind: TokenType::Keyword(Keyword::True),
        lexeme: "true"@,
        literal: Some(LiteralView::Boolean(true)),
        line: 0,
    }
}

/// The loop that a `for` statement stands for: the initializer, then a
/// `while` over the body followed by the increment.
pub open spec fn desugar_for(
    initializer: Option<StatementView>,
    condition: ExprView,
    increment: Option<ExprView>,
    body: StatementView,
) -> StatementView {
    let stepped = match increment {
        Some(e) => StatementView::Block {
            statements: seq![body, StatementView::Expression { expression: e }],
        },
        None => body,
    };
    let looped = StatementView::While { condition, body: Box::new(stepped) };
    match initializer {
        Some(first) => StatementView::Block { statements: seq![first, looped] },
        None => looped,
    }
}

/// An expression and `;`.
pub open spec fn expression_statement(tokens: Seq<TokenView>, pos: int) -> Parsed<StatementView>
    decreases remaining(tokens, pos), 20nat,
{
    let value = expression(tokens, pos);
    match value.result {
        Err(e) => fail(e, value.next),
        Ok(e) => {
            let end = consume(
                tokens,
                value.next,
                TokenType::Semicolon,
                "Expect ';' after expression."@,
            );
            match end.result {
                Err(e) => fail(e, end.next),
                Ok(_) => done(StatementView::Expression { expression: e }, end.next),
            }
        },
    }
}

/// `print`, an expression and `;`. The keyword is at `pos`.
pub open spec fn print_statement(tokens: Seq<TokenView>, pos: int) -> Parsed<StatementView>
    decreases remaining(tokens, pos), 20nat,
{
    if 0 <= pos < tokens.len() {
        let value = expression(tokens, pos + 1);
        match value.result {
            Err(e) => fail(e, value.next),
            Ok(e) => {
                let end = consume(
                    tokens,
                    value.next,
                    TokenType::Semicolon,
                    "Expect ';' after value."@,
                );
                match end.result {
                    Err(e) => fail(e, end.next),
                    Ok(_) => done(StatementView::Print { expression: e }, end.next),
                }
            },
        }
    } else {
        fail(end_of_input(tokens), pos)
    }
}

/// `return`, an optional expression and `;`. The keyword is at `pos`.
pub open spec fn return_statement(tokens: Seq<TokenView>, pos: int) -> Parsed<StatementView>
    decreases remaining(tokens, pos), 20nat,
{
    if 0 <= pos < tokens.len() {
        let value = if check(tokens, pos + 1, TokenType::Semicolon) {
            done(None, pos + 1)
        } else {
            let given = expression(tokens, pos + 1);
            match given.result {
                Err(e) => fail(e, given.next),
                Ok(e) => done(Some(e), given.next),
            }
        };
        match value.result {
            Err(e) => fail(e, value.next),
            Ok(v) => {
                let end = consume(
                    tokens,
                    value.next,
                    TokenType::Semicolon,
                    "Expect ';' after return value."@,
                );
                match end.result {
                    Err(e) => fail(e, end.next),
                    Ok(_) => done(
                        StatementView::Return { keyword: tokens[pos], value: v },
                        end.next,
                    ),
                }
            },
        }
    } else {
        fail(end_of_input(tokens), pos)
    }
}

/// `var`, a name, an optional `=` and initializer, and `;`. The keyword is at
/// `pos`.
pub open spec fn var_declaration(tokens: Seq<TokenView>, pos: int) -> Parsed<StatementView>
    decreases remaining(tokens, pos), 20nat,
{
    if 0 <= pos < tokens.len() {
        let name = consume(tokens, pos + 1, TokenType::Identifier, "Expect variable name."@);
        match name.result {
            Err(e) => fail(e, name.next),
            Ok(n) => {
                let initializer = if check(tokens, pos + 2, TokenType::Equal) {
                    let given = expression(tokens, pos + 3);
                    match given.result {
                        Err(e) => fail(e, given.next),
                        Ok(e) => done(Some(e), given.next),
                    }
                } else {
                    done(None, pos + 2)
                };
                match initializer.result {
                    Err(e) => fail(e, initializer.next),
                    Ok(i) => {
                        let end = consume(
                            tokens,
                            initializer.next,
                            TokenType::Semicolon,
                            "Expect ';' after variable declaration."@,
                        );
                        match end.result {
                            Err(e) => fail(e, end.next),
                            Ok(_) => done(
                                StatementView::Var { name: n, initializer: i },
                                end.next,
                            ),
                        }
                    },
                }
            },
        }
    } else {
        fail(end_of_input(tokens), pos)
    }
}

/// One or more parameter names separated by commas, added to `so_far`.
pub open spec fn parameters(tokens: Seq<TokenView>, pos: int, so_far: Seq<TokenView>) -> Parsed<
    Seq<TokenView>,
>
    decreases remaining(tokens, pos),
{
    let name = consume(tokens, pos, TokenType::Identifier, "Expect parameter name."@);
    match name.result {
        Err(e) => fail(e, name.next),
        Ok(n) => if check(tokens, pos + 1, TokenType::Comma) {
            parameters(tokens, pos + 2, so_far.push(n))
        } else {
            done(so_far.push(n), pos + 1)
        },
    }
}

/// `fun`, a name, the parameters in parentheses, and the body in braces. The
/// keyword is at `pos`.
pub open spec fn function_declaration(tokens: Seq<TokenView>, pos: int) -> Parsed<StatementView>
    decreases remaining(tokens, pos), 20nat,
{
    if 0 <= pos < tokens.len() {
        let name = consume(tokens, pos + 1, TokenType::Identifier, "Expect function name."@);
        match name.result {
            Err(e) => fail(e, name.next),
            Ok(n) => {
                let open = consume(
                    tokens,
                    pos + 2,
                    TokenType::LeftParen,
                    "Expect '(' after function name."@,
                );
                match open.result {
                    Err(e) => fail(e, open.next),
                    Ok(_) => {
                        let params = if check(tokens, pos + 3, TokenType::RightParen) {
                            done(Seq::empty(), pos + 3)
                        } else {
                            parameters(tokens, pos + 3, Seq::empty())
                        };
                        match params.result {
                            Err(e) => fail(e, params.next),
                            Ok(p) => {
                                let close = consume(
                                    tokens,
                                    params.next,
                                    TokenType::RightParen,
                                    "Expect ')' after parameters."@,
                                );
                                match close.result {
                                    Err(e) => fail(e, close.next),
                                    Ok(_) => {
                                        let brace = consume(
                                            tokens,
                                            close.next,
                                            TokenType::LeftBrace,
                                            "Expect '{' before function body."@,
                                        );
                                        match brace.result {
                                            Err(e) => fail(e, brace.next),
                                            Ok(_) => if pos < brace.next {
                                                let body = block(tokens, brace.next, Seq::empty());
                                                match body.result {
                                                    Err(e) => fail(e, body.next),
                                                    Ok(b) => done(
                                                        StatementView::Function {
                                                            name: n,
                                                            params: p,
                                                            body: b,
                                                        },
                                                        body.next,
                                                    ),
                                                }
                                            } else {
                                                stuck(brace.next)
                                            },
                                        }
                                    },
                                }
                            },
                        }
                    },
                }
            },
        }
    } else {
        fail(end_of_input(tokens), pos)
    }
}

/// The declarations of a block up to its closing brace, added to `so_far`.
/// The opening brace lies before `pos`.
pub open spec fn block(tokens: Seq<TokenView>, pos: int, so_far: Seq<StatementView>) -> Parsed<
    Seq<StatementView>,
>
    decreases remaining(tokens, pos), 26nat,
{
    if !check(tokens, pos, TokenType::RightBrace) && 0 <= pos < tokens.len() - 1 {
        let item = declaration(tokens, pos);
        match item.result {
            Err(e) => fail(e, item.next),
            Ok(s) => if pos < item.next {
                block(tokens, item.next, so_far.push(s))
            } else {
                stuck(item.next)
            },
        }
    } else {
        let close = consume(tokens, pos, TokenType::RightBrace, "Expect '}' after block."@);
        match close.result {
            Err(e) => fail(e, close.next),
            Ok(_) => done(so_far, close.next),
        }
    }
}

/// `if`, a condition in parentheses, a statement, and an optional `else` and
/// statement. The keyword is at `pos`.
pub open spec fn if_statement(tokens: Seq<TokenView>, pos: int) -> Parsed<StatementView>
    decreases remaining(tokens, pos), 20nat,
{
    if 0 <= pos < tokens.len() {
        let open = consume(tokens, pos + 1, TokenType::LeftParen, "Expect '(' after 'if'."@);
        match open.result {
            Err(e) => fail(e, open.next),
            Ok(_) => {
                let condition = expression(tokens, pos + 2);
                match condition.result {
                    Err(e) => fail(e, condition.next),
                    Ok(c) => {
                        let close = consume(
                            tokens,
                            condition.next,
                            TokenType::RightParen,
                            "Expect ')' after if condition."@,
                        );
                        match close.result {
                            Err(e) => fail(e, close.next),
                            Ok(_) => if pos < close.next {
                                let then_branch = statement(tokens, close.next);
                                match then_branch.result {
                                    Err(e) => fail(e, then_branch.next),
                                    Ok(t) => if check(
                                        tokens,
                                        then_branch.next,
                                        TokenType::Keyword(Keyword::Else),
                                    ) && pos <= then_branch.next {
                                        let else_branch = statement(tokens, then_branch.next + 1);
                                        match else_branch.result {
                                            Err(e) => fail(e, else_branch.next),
                                            Ok(f) => done(
                                                StatementView::If {
                                                    condition: c,
                                                    then_branch: Box::new(t),
                                                    else_branch: Some(Box::new(f)),
                                                },
                                                else_branch.next,
                                            ),
                                        }
                                    } else {
                                        done(
                                            StatementView::If {
                                                condition: c,
                                                then_branch: Box::new(t),
                                                else_branch: None,
                                            },
                                            then_branch.next,
                                        )
                                    },
                                }
                            } else {
                                stuck(close.next)
                            },
                        }
                    },
                }
            },
        }
    } else {
        fail(end_of_input(tokens), pos)
    }
}

/// `while`, a condition in parentheses, and a statement. The keyword is at
/// `pos`.
pub open spec fn while_statement(tokens: Seq<TokenView>, pos: int) -> Parsed<StatementView>
    decreases remaining(tokens, pos), 20nat,
{
    if 0 <= pos < tokens.len() {
        let open = consume(tokens, pos + 1, TokenType::LeftParen, "Expect '(' after 'while'."@);
        match open.result {
            Err(e) => fail(e, open.next),
            Ok(_) => {
                let condition = expression(tokens, pos + 2);
                match condition.result {
                    Err(e) => fail(e, condition.next),
                    Ok(c) => {
                        let close = consume(
                            tokens,
                            condition.next,
                            TokenType::RightParen,
                            "Expect ')' after while condition."@,
                        );
                        match close.result {
                            Err(e) => fail(e, close.next),
                            Ok(_) => if pos < close.next {
                                let body = statement(tokens, close.next);
                                match body.result {
                                    Err(e) => fail(e, body.next),
                                    Ok(b) => done(
                                        StatementView::While { condition: c, body: Box::new(b) },
                                        body.next,
                                    ),
                                }
                            } else {
                                stuck(close.next)
                            },
                        }
                    },
                }
            },
        }
    } else {
        fail(end_of_input(tokens), pos)
    }
}

/// The initializer clause of a `for` statement, which starts at `pos`: `;`
/// alone, a variable declaration, or an expression statement.
pub open spec fn for_initializer(tokens: Seq<TokenView>, pos: int) -> Parsed<Option<StatementView>>
    decreases remaining(tokens, pos), 21nat,
{
    if check(tokens, pos, TokenType::Semicolon) {
        done(None, pos + 1)
    } else {
        let first = if check(tokens, pos, TokenType::Keyword(Keyword::Var)) {
            var_declaration(tokens, pos)
        } else {
            expression_statement(tokens, pos)
        };
        match first.result {
            Err(e) => fail(e, first.next),
            Ok(s) => done(Some(s), first.next),
        }
    }
}

/// The condition clause of a `for` statement, which starts at `pos`: an
/// expression, or nothing, which stands for `true`. The `;` after it is left.
pub open spec fn for_condition(tokens: Seq<TokenView>, pos: int) -> Parsed<ExprView>
    decreases remaining(tokens, pos), 21nat,
{
    if !check(tokens, pos, TokenType::Semicolon) {
        expression(tokens, pos)
    } else {
        done(ExprView::Literal { value: always_true() }, pos)
    }
}

/// The increment clause of a `for` statement, which starts at `pos`: an
/// expression or nothing. The `)` after it is left.
pub open spec fn for_increment(tokens: Seq<TokenView>, pos: int) -> Parsed<Option<ExprView>>
    decreases remaining(tokens, pos), 21nat,
{
    if !check(tokens, pos, TokenType::RightParen) {
        let given = expression(tokens, pos);
        match given.result {
            Err(e) => fail(e, given.next),
            Ok(e) => done(Some(e), given.next),
        }
    } else {
        done(None, pos)
    }
}

/// `for`, the three clauses in parentheses, and a statement; the result is
/// the loop that the statement stands for. The keyword is at `pos`.
pub open spec fn for_statement(tokens: Seq<TokenView>, pos: int) -> Parsed<StatementView>
    decreases remaining(tokens, pos), 22nat,
{
    if 0 <= pos < tokens.len() {
        let open = consume(tokens, pos + 1, TokenType::LeftParen, "Expect '(' after 'for'."@);
        match open.result {
            Err(e) => fail(e, open.next),
            Ok(_) => {
                let initializer = for_initializer(tokens, pos + 2);
                match initializer.result {
                    Err(e) => fail(e, initializer.next),
                    Ok(i) => if pos < initializer.next {
                        let condition = for_condition(tokens, initializer.next);
                        match condition.result {
                            Err(e) => fail(e, condition.next),
                            Ok(c) => {
                                let semicolon = consume(
                                    tokens,
                                    condition.next,
                                    TokenType::Semicolon,
                                    "Expect ';' after loop condition."@,
                                );
                                match semicolon.result {
                                    Err(e) => fail(e, semicolon.next),
                                    Ok(_) => if pos < semicolon.next {
                                        let increment = for_increment(tokens, semicolon.next);
                                        match increment.result {
                                            Err(e) => fail(e, increment.next),
                                            Ok(n) => {
                                                let close = consume(
                                                    tokens,
                                                    increment.next,
                                                    TokenType::RightParen,
                                                    "Expect ')' after for clauses."@,
                                                );
                                                match close.result {
                                                    Err(e) => fail(e, close.next),
                                                    Ok(_) => if pos < close.next {
                                                        let body = statement(tokens, close.next);
                                                        match body.result {
                                                            Err(e) => fail(e, body.next),
                                                            Ok(b) => done(
                                                                desugar_for(i, c, n, b),
                                                                body.next,
                                                            ),
                                                        }
                                                    } else {
                                                        stuck(close.next)
                                                    },
                                                }
                                            },
                                        }
                                    } else {
                                        stuck(semicolon.next)
                                    },
                                }
                            },
                        }
                    } else {
                        stuck(initializer.next)
                    },
                }
            },
        }
    } else {
        fail(end_of_input(tokens), pos)
    }
}

/// A block in braces, whose opening brace is at `pos`.
pub open spec fn block_statement(tokens: Seq<TokenView>, pos: int) -> Parsed<StatementView>
    decreases remaining(tokens, pos), 20nat,
{
    if 0 <= pos < tokens.len() {
        let body = block(tokens, pos + 1, Seq::empty());
        match body.result {
            Err(e) => fail(e, body.next),
            Ok(b) => done(StatementView::Block { statements: b }, body.next),
        }
    } else {
        fail(end_of_input(tokens), pos)
    }
}

/// A statement: the first token decides which.
pub open spec fn statement(tokens: Seq<TokenView>, pos: int) -> Parsed<StatementView>
    decreases remaining(tokens, pos), 24nat,
{
    if check(tokens, pos, TokenType::Keyword(Keyword::Print)) {
        print_statement(tokens, pos)
    } else if check(tokens, pos, TokenType::LeftBrace) {
        block_statement(tokens, pos)
    } else if check(tokens, pos, TokenType::Keyword(Keyword::If)) {
        if_statement(tokens, pos)
    } else if check(tokens, pos, TokenType::Keyword(Keyword::While)) {
        while_statement(tokens, pos)
    } else if check(tokens, pos, TokenType::Keyword(Keyword::For)) {
        for_statement(tokens, pos)
    } else if check(tokens, pos, TokenType::Keyword(Keyword::Return)) {
        return_statement(tokens, pos)
    } else {
        expression_statement(tokens, pos)
    }
}

/// A declaration: a variable, a function, or a statement.
pub open spec fn declaration(tokens: Seq<TokenView>, pos: int) -> Parsed<StatementView>
    decreases remaining(tokens, pos), 25nat,
{
    if check(tokens, pos, TokenType::Keyword(Keyword::Var)) {
        var_declaration(tokens, pos)
    } else if check(tokens, pos, TokenType::Keyword(Keyword::Fun)) {
        function_declaration(tokens, pos)
    } else {
        statement(tokens, pos)
    }
}

/// Whether a token of this kind starts a statement, so that parsing can
/// resume at it after an error.
pub open spec fn starts_statement(kind: TokenType) -> bool {
    kind == TokenType::Keyword(Keyword::Class) || kind == TokenType::Keyword(Keyword::Fun) || kind
        == TokenType::Keyword(Keyword::Var) || kind == TokenType::Keyword(Keyword::For) || kind
        == TokenType::Keyword(Keyword::If) || kind == TokenType::Keyword(Keyword::While) || kind
        == TokenType::Keyword(Keyword::Print) || kind == TokenType::Keyword(Keyword::Return)
}

/// The first position at or after `pos` where parsing can resume: just after
/// a `;`, at a token that starts a statement, or at the end.
pub open spec fn boundary(tokens: Seq<TokenView>, pos: int) -> int
    decreases remaining(tokens, pos),
{
    if 0 <= pos < tokens.len() {
        if tokens[pos].kind == TokenType::Semicolon {
            pos + 1
        } else if starts_statement(tokens[pos].kind) {
            pos
        } else {
            boundary(tokens, pos + 1)
        }
    } else {
        pos
    }
}

/// Where parsing resumes after an error that left the parser at `pos`: one
/// token is dropped, then the tokens up to the next boundary.
pub open spec fn synchronize(tokens: Seq<TokenView>, pos: int) -> int {
    boundary(tokens, advance(tokens, pos).next)
}

/// The statements and the errors of a program or of the rest of one.
pub struct Program {
    pub statements: Seq<StatementView>,
    pub errors: Seq<ParseErrorView>,
}

/// The declarations from `pos` up to the last token, which is the end-of-input
/// marker and is never parsed. After a faulty declaration its error is kept
/// and parsing resumes at the next boundary.
pub open spec fn program(tokens: Seq<TokenView>, pos: int) -> Program
    decreases remaining(tokens, pos),
{
    if 0 <= pos < tokens.len() - 1 {
        let item = declaration(tokens, pos);
        match item.result {
            Ok(s) => if pos < item.next {
                let rest = program(tokens, item.next);
                Program { statements: seq![s] + rest.statements, errors: rest.errors }
            } else {
                Program { statements: seq![s], errors: Seq::empty() }
            },
            Err(e) => {
                let resume = synchronize(tokens, item.next);
                if pos < resume {
                    let rest = program(tokens, resume);
                    Program { statements: rest.statements, errors: seq![e] + rest.errors }
                } else {
                    Program { statements: Seq::empty(), errors: seq![e] }
                }
            },
        }
    } else {
        Program { statements: Seq::empty(), errors: Seq::empty() }
    }
}

} // verus!
