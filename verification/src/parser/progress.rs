//! Parsing moves forward: no construct of the grammar ends before it
//! starts or after the last token, every construct that is parsed takes at
//! least one token, and every error carries a message. So no token sequence
//! leads to [`stuck`](crate::parser::grammar::stuck).

use vstd::prelude::*;
use crate::ast::expr::ExprView;
use crate::ast::statement::StatementView;
use crate::lexer::token::{Keyword, TokenType, TokenView};
use crate::parser::grammar::{
    advance, arguments, assignment, binary, binary_rest, block, block_statement, call, call_rest,
    check, consume, declaration, end_of_input, error_at, expression, expression_statement,
    finish_call, for_condition, for_increment, for_initializer, for_statement,
    function_declaration, if_statement, operand, parameters, primary, print_statement, program,
    remaining, return_statement, statement, synchronize, boundary, unary, var_declaration,
    while_statement, Level, Parsed,
};

verus! {

/// Whether a parse that started at `pos` ended in order: not before its
/// start nor after the last token, and with a message if it failed.
pub open spec fn in_order<T>(p: Parsed<T>, tokens: Seq<TokenView>, pos: int) -> bool {
    &&& pos <= p.next <= tokens.len()
    &&& p.result matches Err(e) ==> e.message.len() > 0
}

/// Whether a parse that started at `pos` ended in order and, if it
/// succeeded, took a token.
pub open spec fn advanced<T>(p: Parsed<T>, tokens: Seq<TokenView>, pos: int) -> bool {
    &&& in_order(p, tokens, pos)
    &&& p.result is Ok ==> pos < p.next
}

/// Every error reported at a token carries a message.
pub proof fn lemma_error_at(token: TokenView, message: Seq<char>)
    ensures
        error_at(token, message).message.len() > 0,
{
    reveal_strlit("Error at end: ");
    reveal_strlit("Error at '");
    reveal_strlit("': ");
}

/// The error for the end of the input carries a message.
pub proof fn lemma_end_of_input(tokens: Seq<TokenView>)
    ensures
        end_of_input(tokens).message.len() > 0,
{
    reveal_strlit("Error at end: Unexpected end of input");
    if tokens.len() > 0 {
        lemma_error_at(tokens.last(), "Unexpected end of input"@);
    }
}

/// Taking a token ends in order.
pub proof fn lemma_consume(tokens: Seq<TokenView>, pos: int, kind: TokenType, message: Seq<char>)
    requires
        0 <= pos <= tokens.len(),
    ensures
        advanced(consume(tokens, pos, kind, message), tokens, pos),
        advanced(advance(tokens, pos), tokens, pos),
{
    lemma_end_of_input(tokens);
    if pos < tokens.len() {
        lemma_error_at(tokens[pos], message);
    }
}

pub proof fn lemma_primary(tokens: Seq<TokenView>, pos: int)
    requires
        0 <= pos <= tokens.len(),
    ensures
        advanced(primary(tokens, pos), tokens, pos),
    decreases remaining(tokens, pos), 0nat,
{
    lemma_end_of_input(tokens);
    if pos < tokens.len() {
        lemma_error_at(tokens[pos], "Expect expression."@);
        if tokens[pos].kind == TokenType::LeftParen {
            lemma_expression(tokens, pos + 1);
            let inner = expression(tokens, pos + 1);
            lemma_consume(tokens, inner.next, TokenType::RightParen, "Expect expression."@);
        }
    }
}

pub proof fn lemma_finish_call(tokens: Seq<TokenView>, pos: int, callee: ExprView)
    requires
        0 <= pos <= tokens.len(),
    ensures
        advanced(finish_call(tokens, pos, callee), tokens, pos),
    decreases remaining(tokens, pos), 1nat,
{
    lemma_end_of_input(tokens);
    if pos < tokens.len() {
        if !check(tokens, pos + 1, TokenType::RightParen) {
            lemma_arguments(tokens, pos + 1, Seq::empty());
        }
        let list = if check(tokens, pos + 1, TokenType::RightParen) {
            crate::parser::grammar::done(Seq::empty(), pos + 1)
        } else {
            arguments(tokens, pos + 1, Seq::empty())
        };
        lemma_consume(tokens, list.next, TokenType::RightParen, "Expect ')' after arguments."@);
    }
}

pub proof fn lemma_arguments(tokens: Seq<TokenView>, pos: int, so_far: Seq<ExprView>)
    requires
        0 <= pos <= tokens.len(),
    ensures
        advanced(arguments(tokens, pos, so_far), tokens, pos),
    decreases remaining(tokens, pos), 19nat,
{
    lemma_expression(tokens, pos);
    let item = expression(tokens, pos);
    match item.result {
        Ok(e) => {
            if check(tokens, item.next, TokenType::Comma) {
                lemma_arguments(tokens, item.next + 1, so_far.push(e));
            }
        },
        Err(_) => {},
    }
}

pub proof fn lemma_call_rest(tokens: Seq<TokenView>, pos: int, callee: ExprView)
    requires
        0 <= pos <= tokens.len(),
    ensures
        in_order(call_rest(tokens, pos, callee), tokens, pos),
    decreases remaining(tokens, pos), 2nat,
{
    if check(tokens, pos, TokenType::LeftParen) {
        lemma_finish_call(tokens, pos, callee);
        let called = finish_call(tokens, pos, callee);
        match called.result {
            Ok(e) => {
                lemma_call_rest(tokens, called.next, e);
            },
            Err(_) => {},
        }
    }
}

pub proof fn lemma_call(tokens: Seq<TokenView>, pos: int)
    requires
        0 <= pos <= tokens.len(),
    ensures
        advanced(call(tokens, pos), tokens, pos),
    decreases remaining(tokens, pos), 3nat,
{
    lemma_primary(tokens, pos);
    let callee = primary(tokens, pos);
    match callee.result {
        Ok(e) => {
            lemma_call_rest(tokens, callee.next, e);
        },
        Err(_) => {},
    }
}

pub proof fn lemma_unary(tokens: Seq<TokenView>, pos: int)
    requires
        0 <= pos <= tokens.len(),
    ensures
        advanced(unary(tokens, pos), tokens, pos),
    decreases remaining(tokens, pos), 4nat,
{
    if check(tokens, pos, TokenType::Bang) || check(tokens, pos, TokenType::Minus) {
        lemma_unary(tokens, pos + 1);
    } else {
        lemma_call(tokens, pos);
    }
}

pub proof fn lemma_operand(tokens: Seq<TokenView>, pos: int, level: Level)
    requires
        0 <= pos <= tokens.len(),
    ensures
        advanced(operand(tokens, pos, level), tokens, pos),
    decreases remaining(tokens, pos), 5 + 2 * level.index(),
{
    match level {
        Level::Factor => lemma_unary(tokens, pos),
        Level::Term => lemma_binary(tokens, pos, Level::Factor),
        Level::Comparison => lemma_binary(tokens, pos, Level::Term),
        Level::Equality => lemma_binary(tokens, pos, Level::Comparison),
        Level::And => lemma_binary(tokens, pos, Level::Equality),
        Level::Or => lemma_binary(tokens, pos, Level::And),
    }
}

pub proof fn lemma_binary_rest(tokens: Seq<TokenView>, pos: int, level: Level, left: ExprView)
    requires
        0 <= pos <= tokens.len(),
    ensures
        in_order(binary_rest(tokens, pos, level, left), tokens, pos),
    decreases remaining(tokens, pos), 0nat,
{
    if pos < tokens.len() && level.has_operator(tokens[pos].kind) {
        lemma_operand(tokens, pos + 1, level);
        let right = operand(tokens, pos + 1, level);
        match right.result {
            Ok(e) => {
                lemma_binary_rest(tokens, right.next, level, level.combine(left, tokens[pos], e));
            },
            Err(_) => {},
        }
    }
}

pub proof fn lemma_binary(tokens: Seq<TokenView>, pos: int, level: Level)
    requires
        0 <= pos <= tokens.len(),
    ensures
        advanced(binary(tokens, pos, level), tokens, pos),
    decreases remaining(tokens, pos), 6 + 2 * level.index(),
{
    lemma_operand(tokens, pos, level);
    let first = operand(tokens, pos, level);
    match first.result {
        Ok(e) => {
            lemma_binary_rest(tokens, first.next, level, e);
        },
        Err(_) => {},
    }
}

pub proof fn lemma_assignment(tokens: Seq<TokenView>, pos: int)
    requires
        0 <= pos <= tokens.len(),
    ensures
        advanced(assignment(tokens, pos), tokens, pos),
    decreases remaining(tokens, pos), 17nat,
{
    lemma_binary(tokens, pos, Level::Or);
    let target = binary(tokens, pos, Level::Or);
    match target.result {
        Ok(left) => {
            if check(tokens, target.next, TokenType::Equal) {
                lemma_assignment(tokens, target.next + 1);
                lemma_error_at(tokens[target.next], "Invalid assignment target."@);
            }
        },
        Err(_) => {},
    }
}

/// An expression ends in order and, if it is one, takes a token.
pub proof fn lemma_expression(tokens: Seq<TokenView>, pos: int)
    requires
        0 <= pos <= tokens.len(),
    ensures
        advanced(expression(tokens, pos), tokens, pos),
    decreases remaining(tokens, pos), 18nat,
{
    lemma_assignment(tokens, pos);
}

pub proof fn lemma_expression_statement(tokens: Seq<TokenView>, pos: int)
    requires
        0 <= pos <= tokens.len(),
    ensures
        advanced(expression_statement(tokens, pos), tokens, pos),
    decreases remaining(tokens, pos), 20nat,
{
    lemma_expression(tokens, pos);
    let value = expression(tokens, pos);
    lemma_consume(tokens, value.next, TokenType::Semicolon, "Expect ';' after expression."@);
}

pub proof fn lemma_print_statement(tokens: Seq<TokenView>, pos: int)
    requires
        0 <= pos <= tokens.len(),
    ensures
        advanced(print_statement(tokens, pos), tokens, pos),
    decreases remaining(tokens, pos), 20nat,
{
    lemma_end_of_input(tokens);
    if pos < tokens.len() {
        lemma_expression(tokens, pos + 1);
        let value = expression(tokens, pos + 1);
        lemma_consume(tokens, value.next, TokenType::Semicolon, "Expect ';' after value."@);
    }
}

pub proof fn lemma_return_statement(tokens: Seq<TokenView>, pos: int)
    requires
        0 <= pos <= tokens.len(),
    ensures
        advanced(return_statement(tokens, pos), tokens, pos),
    decreases remaining(tokens, pos), 20nat,
{
    lemma_end_of_input(tokens);
    if pos < tokens.len() {
        if check(tokens, pos + 1, TokenType::Semicolon) {
            lemma_consume(
                tokens,
                pos + 1,
                TokenType::Semicolon,
                "Expect ';' after return value."@,
            );
        } else {
            lemma_expression(tokens, pos + 1);
            let given = expression(tokens, pos + 1);
            lemma_consume(
                tokens,
                given.next,
                TokenType::Semicolon,
                "Expect ';' after return value."@,
            );
        }
    }
}

pub proof fn lemma_var_declaration(tokens: Seq<TokenView>, pos: int)
    requires
        0 <= pos <= tokens.len(),
    ensures
        advanced(var_declaration(tokens, pos), tokens, pos),
    decreases remaining(tokens, pos), 20nat,
{
    lemma_end_of_input(tokens);
    if pos < tokens.len() {
        lemma_consume(tokens, pos + 1, TokenType::Identifier, "Expect variable name."@);
        let name = consume(tokens, pos + 1, TokenType::Identifier, "Expect variable name."@);
        if name.result is Ok {
            if check(tokens, pos + 2, TokenType::Equal) {
                lemma_expression(tokens, pos + 3);
                let given = expression(tokens, pos + 3);
                lemma_consume(
                    tokens,
                    given.next,
                    TokenType::Semicolon,
                    "Expect ';' after variable declaration."@,
                );
            } else {
                lemma_consume(
                    tokens,
                    pos + 2,
                    TokenType::Semicolon,
                    "Expect ';' after variable declaration."@,
                );
            }
        }
    }
}

pub proof fn lemma_parameters(tokens: Seq<TokenView>, pos: int, so_far: Seq<TokenView>)
    requires
        0 <= pos <= tokens.len(),
    ensures
        advanced(parameters(tokens, pos, so_far), tokens, pos),
    decreases remaining(tokens, pos),
{
    lemma_consume(tokens, pos, TokenType::Identifier, "Expect parameter name."@);
    let name = consume(tokens, pos, TokenType::Identifier, "Expect parameter name."@);
    match name.result {
        Ok(n) => {
            if check(tokens, pos + 1, TokenType::Comma) {
                lemma_parameters(tokens, pos + 2, so_far.push(n));
            }
        },
        Err(_) => {},
    }
}

pub proof fn lemma_function_declaration(tokens: Seq<TokenView>, pos: int)
    requires
        0 <= pos <= tokens.len(),
    ensures
        advanced(function_declaration(tokens, pos), tokens, pos),
    decreases remaining(tokens, pos), 20nat,
{
    lemma_end_of_input(tokens);
    if pos < tokens.len() {
        lemma_consume(tokens, pos + 1, TokenType::Identifier, "Expect function name."@);
        let name = consume(tokens, pos + 1, TokenType::Identifier, "Expect function name."@);
        if name.result is Ok {
            lemma_consume(
                tokens,
                pos + 2,
                TokenType::LeftParen,
                "Expect '(' after function name."@,
            );
            let open = consume(
                tokens,
                pos + 2,
                TokenType::LeftParen,
                "Expect '(' after function name."@,
            );
            if open.result is Ok {
                if !check(tokens, pos + 3, TokenType::RightParen) {
                    lemma_parameters(tokens, pos + 3, Seq::empty());
                }
                let params = if check(tokens, pos + 3, TokenType::RightParen) {
                    crate::parser::grammar::done(Seq::empty(), pos + 3)
                } else {
                    parameters(tokens, pos + 3, Seq::empty())
                };
                if params.result is Ok {
                    lemma_consume(
                        tokens,
                        params.next,
                        TokenType::RightParen,
                        "Expect ')' after parameters."@,
                    );
                    let close = consume(
                        tokens,
                        params.next,
                        TokenType::RightParen,
                        "Expect ')' after parameters."@,
                    );
                    if close.result is Ok {
                        lemma_consume(
                            tokens,
                            close.next,
                            TokenType::LeftBrace,
                            "Expect '{' before function body."@,
                        );
                        let brace = consume(
                            tokens,
                            close.next,
                            TokenType::LeftBrace,
                            "Expect '{' before function body."@,
                        );
                        if brace.result is Ok {
                            lemma_block(tokens, brace.next, Seq::empty());
                        }
                    }
                }
            }
        }
    }
}

pub proof fn lemma_block(tokens: Seq<TokenView>, pos: int, so_far: Seq<StatementView>)
    requires
        0 <= pos <= tokens.len(),
    ensures
        advanced(block(tokens, pos, so_far), tokens, pos),
    decreases remaining(tokens, pos), 26nat,
{
    if !check(tokens, pos, TokenType::RightBrace) && pos < tokens.len() - 1 {
        lemma_declaration(tokens, pos);
        let item = declaration(tokens, pos);
        match item.result {
            Ok(s) => {
                lemma_block(tokens, item.next, so_far.push(s));
            },
            Err(_) => {},
        }
    } else {
        lemma_consume(tokens, pos, TokenType::RightBrace, "Expect '}' after block."@);
    }
}

pub proof fn lemma_if_statement(tokens: Seq<TokenView>, pos: int)
    requires
        0 <= pos <= tokens.len(),
    ensures
        advanced(if_statement(tokens, pos), tokens, pos),
    decreases remaining(tokens, pos), 20nat,
{
    lemma_end_of_input(tokens);
    if pos < tokens.len() {
        lemma_consume(tokens, pos + 1, TokenType::LeftParen, "Expect '(' after 'if'."@);
        let open = consume(tokens, pos + 1, TokenType::LeftParen, "Expect '(' after 'if'."@);
        if open.result is Ok {
            lemma_expression(tokens, pos + 2);
            let condition = expression(tokens, pos + 2);
            if condition.result is Ok {
                lemma_consume(
                    tokens,
                    condition.next,
                    TokenType::RightParen,
                    "Expect ')' after if condition."@,
                );
                let close = consume(
                    tokens,
                    condition.next,
                    TokenType::RightParen,
                    "Expect ')' after if condition."@,
                );
                if close.result is Ok {
                    lemma_statement(tokens, close.next);
                    let then_branch = statement(tokens, close.next);
                    if then_branch.result is Ok && check(
                        tokens,
                        then_branch.next,
                        TokenType::Keyword(Keyword::Else),
                    ) {
                        lemma_statement(tokens, then_branch.next + 1);
                    }
                }
            }
        }
    }
}

pub proof fn lemma_while_statement(tokens: Seq<TokenView>, pos: int)
    requires
        0 <= pos <= tokens.len(),
    ensures
        advanced(while_statement(tokens, pos), tokens, pos),
    decreases remaining(tokens, pos), 20nat,
{
    lemma_end_of_input(tokens);
    if pos < tokens.len() {
        lemma_consume(tokens, pos + 1, TokenType::LeftParen, "Expect '(' after 'while'."@);
        let open = consume(tokens, pos + 1, TokenType::LeftParen, "Expect '(' after 'while'."@);
        if open.result is Ok {
            lemma_expression(tokens, pos + 2);
            let condition = expression(tokens, pos + 2);
            if condition.result is Ok {
                lemma_consume(
                    tokens,
                    condition.next,
                    TokenType::RightParen,
                    "Expect ')' after while condition."@,
                );
                let close = consume(
                    tokens,
                    condition.next,
                    TokenType::RightParen,
                    "Expect ')' after while condition."@,
                );
                if close.result is Ok {
                    lemma_statement(tokens, close.next);
                }
            }
        }
    }
}

pub proof fn lemma_for_initializer(tokens: Seq<TokenView>, pos: int)
    requires
        0 <= pos <= tokens.len(),
    ensures
        advanced(for_initializer(tokens, pos), tokens, pos),
    decreases remaining(tokens, pos), 21nat,
{
    if !check(tokens, pos, TokenType::Semicolon) {
        if check(tokens, pos, TokenType::Keyword(Keyword::Var)) {
            lemma_var_declaration(tokens, pos);
        } else {
            lemma_expression_statement(tokens, pos);
        }
    }
}

pub proof fn lemma_for_condition(tokens: Seq<TokenView>, pos: int)
    requires
        0 <= pos <= tokens.len(),
    ensures
        in_order(for_condition(tokens, pos), tokens, pos),
    decreases remaining(tokens, pos), 21nat,
{
    if !check(tokens, pos, TokenType::Semicolon) {
        lemma_expression(tokens, pos);
    }
}

pub proof fn lemma_for_increment(tokens: Seq<TokenView>, pos: int)
    requires
        0 <= pos <= tokens.len(),
    ensures
        in_order(for_increment(tokens, pos), tokens, pos),
    decreases remaining(tokens, pos), 21nat,
{
    if !check(tokens, pos, TokenType::RightParen) {
        lemma_expression(tokens, pos);
    }
}

pub proof fn lemma_for_statement(tokens: Seq<TokenView>, pos: int)
    requires
        0 <= pos <= tokens.len(),
    ensures
        advanced(for_statement(tokens, pos), tokens, pos),
    decreases remaining(tokens, pos), 22nat,
{
    lemma_end_of_input(tokens);
    if pos < tokens.len() {
        lemma_consume(tokens, pos + 1, TokenType::LeftParen, "Expect '(' after 'for'."@);
        let open = consume(tokens, pos + 1, TokenType::LeftParen, "Expect '(' after 'for'."@);
        if open.result is Ok {
            lemma_for_initializer(tokens, pos + 2);
            let initializer = for_initializer(tokens, pos + 2);
            if initializer.result is Ok {
                lemma_for_condition(tokens, initializer.next);
                let condition = for_condition(tokens, initializer.next);
                if condition.result is Ok {
                    lemma_consume(
                        tokens,
                        condition.next,
                        TokenType::Semicolon,
                        "Expect ';' after loop condition."@,
                    );
                    let semicolon = consume(
                        tokens,
                        condition.next,
                        TokenType::Semicolon,
                        "Expect ';' after loop condition."@,
                    );
                    if semicolon.result is Ok {
                        lemma_for_increment(tokens, semicolon.next);
                        let increment = for_increment(tokens, semicolon.next);
                        if increment.result is Ok {
                            lemma_consume(
                                tokens,
                                increment.next,
                                TokenType::RightParen,
                                "Expect ')' after for clauses."@,
                            );
                            let close = consume(
                                tokens,
                                increment.next,
                                TokenType::RightParen,
                                "Expect ')' after for clauses."@,
                            );
                            if close.result is Ok {
                                lemma_statement(tokens, close.next);
                            }
                        }
                    }
                }
            }
        }
    }
}

pub proof fn lemma_block_statement(tokens: Seq<TokenView>, pos: int)
    requires
        0 <= pos <= tokens.len(),
    ensures
        advanced(block_statement(tokens, pos), tokens, pos),
    decreases remaining(tokens, pos), 20nat,
{
    lemma_end_of_input(tokens);
    if pos < tokens.len() {
        lemma_block(tokens, pos + 1, Seq::empty());
    }
}

/// A statement ends in order and, if it is one, takes a token.
pub proof fn lemma_statement(tokens: Seq<TokenView>, pos: int)
    requires
        0 <= pos <= tokens.len(),
    ensures
        advanced(statement(tokens, pos), tokens, pos),
    decreases remaining(tokens, pos), 24nat,
{
    if check(tokens, pos, TokenType::Keyword(Keyword::Print)) {
        lemma_print_statement(tokens, pos);
    } else if check(tokens, pos, TokenType::LeftBrace) {
        lemma_block_statement(tokens, pos);
    } else if check(tokens, pos, TokenType::Keyword(Keyword::If)) {
        lemma_if_statement(tokens, pos);
    } else if check(tokens, pos, TokenType::Keyword(Keyword::While)) {
        lemma_while_statement(tokens, pos);
    } else if check(tokens, pos, TokenType::Keyword(Keyword::For)) {
        lemma_for_statement(tokens, pos);
    } else if check(tokens, pos, TokenType::Keyword(Keyword::Return)) {
        lemma_return_statement(tokens, pos);
    } else {
        lemma_expression_statement(tokens, pos);
    }
}

/// A declaration ends in order and, if it is one, takes a token.
pub proof fn lemma_declaration(tokens: Seq<TokenView>, pos: int)
    requires
        0 <= pos <= tokens.len(),
    ensures
        advanced(declaration(tokens, pos), tokens, pos),
    decreases remaining(tokens, pos), 25nat,
{
    if check(tokens, pos, TokenType::Keyword(Keyword::Var)) {
        lemma_var_declaration(tokens, pos);
    } else if check(tokens, pos, TokenType::Keyword(Keyword::Fun)) {
        lemma_function_declaration(tokens, pos);
    } else {
        lemma_statement(tokens, pos);
    }
}

/// Recovery moves forward: parsing resumes after the place of the error, or
/// at the end.
pub proof fn lemma_synchronize(tokens: Seq<TokenView>, pos: int)
    requires
        0 <= pos <= tokens.len(),
    ensures
        pos <= synchronize(tokens, pos) <= tokens.len(),
        pos < tokens.len() ==> pos < synchronize(tokens, pos),
{
    lemma_boundary(tokens, advance(tokens, pos).next);
}

proof fn lemma_boundary(tokens: Seq<TokenView>, pos: int)
    requires
        0 <= pos <= tokens.len(),
    ensures
        pos <= boundary(tokens, pos) <= tokens.len(),
    decreases remaining(tokens, pos),
{
    if pos < tokens.len() && tokens[pos].kind != TokenType::Semicolon
        && !crate::parser::grammar::starts_statement(tokens[pos].kind) {
        lemma_boundary(tokens, pos + 1);
    }
}

/// The statements of a program are those of its first declaration and those
/// of the rest; the errors likewise, with recovery in between. Nothing of a
/// program is lost for want of progress.
pub proof fn lemma_program(tokens: Seq<TokenView>, pos: int)
    requires
        0 <= pos < tokens.len() - 1,
    ensures
        declaration(tokens, pos).result matches Ok(s) ==> program(tokens, pos).statements == seq![
            s,
        ] + program(tokens, declaration(tokens, pos).next).statements && program(
            tokens,
            pos,
        ).errors == program(tokens, declaration(tokens, pos).next).errors,
        declaration(tokens, pos).result matches Err(e) ==> program(tokens, pos).statements
            == program(
            tokens,
            synchronize(tokens, declaration(tokens, pos).next),
        ).statements && program(tokens, pos).errors == seq![e] + program(
            tokens,
            synchronize(tokens, declaration(tokens, pos).next),
        ).errors,
{
    lemma_declaration(tokens, pos);
    lemma_synchronize(tokens, declaration(tokens, pos).next);
}

} // verus!
