//! The recursive-descent parser. Every method consumes exactly the tokens the
//! grammar says and builds exactly the tree the grammar says.

use vstd::prelude::*;
use crate::ast::expr::{expr_views, lemma_expr_view_lists, Depth, Expr, ExprView};
use crate::ast::statement::{
    lemma_statement_view_lists, statement_views, Statement, StatementView,
};
use crate::lexer::scanner::token_views;
use crate::lexer::token::{Keyword, Literal, Token, TokenType, TokenView};
use crate::parser::error::{ParseError, ParseErrorView};
use crate::parser::grammar;
use crate::parser::grammar::{Level, Parsed};
use crate::text::push_text;

verus! {

/// The views of a run of syntax errors.
pub open spec fn parse_error_views(errors: Seq<ParseError>) -> Seq<ParseErrorView> {
    errors.map_values(|e: ParseError| e@)
}

/// The parser's state: the tokens, the position of the next token to read,
/// and the errors reported so far.
pub struct Parser {
    tokens: Vec<Token>,
    current: usize,
    errors: Vec<ParseError>,
}

impl Parser {
    /// The tokens being parsed.
    pub closed spec fn tokens(&self) -> Seq<TokenView> {
        token_views(self.tokens@)
    }

    /// The position of the next token to read.
    pub closed spec fn position(&self) -> int {
        self.current as int
    }

    /// The errors reported so far, oldest first.
    pub closed spec fn errors(&self) -> Seq<ParseErrorView> {
        parse_error_views(self.errors@)
    }

    /// The state is consistent: the position lies inside the tokens or just
    /// after them.
    pub closed spec fn wf(&self) -> bool {
        self.current <= self.tokens.len()
    }

    /// What holds of the state after a parsing step that started in `before`:
    /// the tokens and errors are as they were and the position has not moved
    /// back.
    pub closed spec fn follows(&self, before: Parser) -> bool {
        &&& self.wf()
        &&& self.tokens == before.tokens
        &&& self.errors == before.errors
        &&& before.current <= self.current
    }

    /// The step from `before` produced the expression or error `r` and ended
    /// where the grammar's outcome `p` ends; a success consumed a token.
    pub closed spec fn parsed_expr(
        &self,
        before: Parser,
        r: Result<Expr, ParseError>,
        p: Parsed<ExprView>,
    ) -> bool {
        &&& self.follows(before)
        &&& self.current == p.next
        &&& r is Ok ==> before.current < self.current
        &&& match r {
            Ok(e) => p.result == Ok::<ExprView, ParseErrorView>(e@),
            Err(e) => p.result == Err::<ExprView, ParseErrorView>(e@),
        }
    }

    /// As [`Parser::parsed_expr`], for a statement.
    pub closed spec fn parsed_statement(
        &self,
        before: Parser,
        r: Result<Statement, ParseError>,
        p: Parsed<StatementView>,
    ) -> bool {
        &&& self.follows(before)
        &&& self.current == p.next
        &&& r is Ok ==> before.current < self.current
        &&& match r {
            Ok(s) => p.result == Ok::<StatementView, ParseErrorView>(s@),
            Err(e) => p.result == Err::<StatementView, ParseErrorView>(e@),
        }
    }

    /// As [`Parser::parsed_expr`], for a single token.
    pub closed spec fn parsed_token(
        &self,
        before: Parser,
        r: Result<Token, ParseError>,
        p: Parsed<TokenView>,
    ) -> bool {
        &&& self.follows(before)
        &&& self.current == p.next
        &&& r is Ok ==> before.current < self.current
        &&& match r {
            Ok(t) => p.result == Ok::<TokenView, ParseErrorView>(t@),
            Err(e) => p.result == Err::<TokenView, ParseErrorView>(e@),
        }
    }

    /// A parser at the first of `tokens`, with no error reported.
    pub fn new(tokens: Vec<Token>) -> (r: Self)
        ensures
            r.wf(),
            r.tokens() == token_views(tokens@),
            r.position() == 0,
            r.errors() == Seq::<ParseErrorView>::empty(),
    {
        let r = Parser { tokens, current: 0, errors: Vec::new() };
        assert(r.errors() =~= Seq::<ParseErrorView>::empty());
        r
    }

    /// The error reported at `token`.
    fn error(token: &Token, message: &str) -> (r: ParseError)
        ensures
            r@ == grammar::error_at(token@, message@),
    {
        let mut text = String::new();
        if token.token_type == TokenType::Eof {
            push_text(&mut text, "Error at end: ");
        } else {
            push_text(&mut text, "Error at '");
            push_text(&mut text, token.lexeme.as_str());
            push_text(&mut text, "': ");
        }
        push_text(&mut text, message);
        assert(text@ =~= grammar::error_at(token@, message@).message);
        ParseError::new(token.line, text)
    }

    /// The error reported when a token is wanted and none is left.
    fn end_of_input(&self) -> (r: ParseError)
        ensures
            r@ == grammar::end_of_input(self.tokens()),
    {
        if self.tokens.len() > 0 {
            Self::error(&self.tokens[self.tokens.len() - 1], "Unexpected end of input")
        } else {
            let mut text = String::new();
            push_text(&mut text, "Error at end: Unexpected end of input");
            assert(text@ =~= "Error at end: Unexpected end of input"@);
            ParseError::new(0, text)
        }
    }

    /// Skips to where parsing can resume after an error.
    fn synchronize(&mut self)
        requires
            old(self).wf(),
        ensures
            final(self).follows(*old(self)),
            final(self).current == grammar::synchronize(
                old(self).tokens(),
                old(self).current as int,
            ),
            old(self).current < old(self).tokens.len() ==> old(self).current < final(self).current,
    {
        self.consume_any();
        let ghost tokens = self.tokens();
        let ghost from = self.current as int;
        while self.current < self.tokens.len()
            invariant
                self.follows(*old(self)),
                tokens == self.tokens(),
                tokens == old(self).tokens(),
                from == grammar::advance(tokens, old(self).current as int).next,
                from <= self.current,
                grammar::boundary(tokens, self.current as int) == grammar::boundary(tokens, from),
            ensures
                self.current == grammar::boundary(tokens, from),
            decreases self.tokens.len() - self.current,
        {
            let kind = self.tokens[self.current].token_type;
            if kind == TokenType::Semicolon {
                self.current = self.current + 1;
                return ;
            }
            if kind == TokenType::Keyword(Keyword::Class) || kind == TokenType::Keyword(
                Keyword::Fun,
            ) || kind == TokenType::Keyword(Keyword::Var) || kind == TokenType::Keyword(
                Keyword::For,
            ) || kind == TokenType::Keyword(Keyword::If) || kind == TokenType::Keyword(
                Keyword::While,
            ) || kind == TokenType::Keyword(Keyword::Print) || kind == TokenType::Keyword(
                Keyword::Return,
            ) {
                return ;
            }
            self.current = self.current + 1;
        }
    }

    /// Takes the current token.
    fn advance(&mut self) -> (r: Result<Token, ParseError>)
        requires
            old(self).wf(),
        ensures
            final(self).parsed_token(
                *old(self),
                r,
                grammar::advance(old(self).tokens(), old(self).current as int),
            ),
    {
        if self.current < self.tokens.len() {
            let token = self.tokens[self.current].clone();
            self.current = self.current + 1;
            Ok(token)
        } else {
            Err(self.end_of_input())
        }
    }

    /// The current token, if there is one.
    fn current_token(&self) -> (r: Option<&Token>)
        requires
            self.wf(),
        ensures
            self.current < self.tokens.len() ==> r == Some(&self.tokens@[self.current as int]),
            self.current >= self.tokens.len() ==> r.is_none(),
    {
        if self.current < self.tokens.len() {
            Some(&self.tokens[self.current])
        } else {
            None
        }
    }

    /// Whether the current token exists and has the expected kind.
    fn check(&self, expected: TokenType) -> (r: bool)
        requires
            self.wf(),
        ensures
            r == grammar::check(self.tokens(), self.current as int, expected),
    {
        match self.current_token() {
            Some(token) => token.token_type == expected,
            None => false,
        }
    }

    /// Whether the current token exists and is an operator of `level`.
    fn at_operator(&self, level: Level) -> (r: bool)
        requires
            self.wf(),
        ensures
            r == (self.current < self.tokens.len() && level.has_operator(
                self.tokens()[self.current as int].kind,
            )),
    {
        match self.current_token() {
            Some(token) => {
                let kind = token.token_type;
                match level {
                    Level::Factor => kind == TokenType::Slash || kind == TokenType::Star,
                    Level::Term => kind == TokenType::Minus || kind == TokenType::Plus,
                    Level::Comparison => kind == TokenType::Less || kind == TokenType::Greater
                        || kind == TokenType::LessEqual || kind == TokenType::GreaterEqual,
                    Level::Equality => kind == TokenType::BangEqual || kind
                        == TokenType::EqualEqual,
                    Level::And => kind == TokenType::Keyword(Keyword::And),
                    Level::Or => kind == TokenType::Keyword(Keyword::Or),
                }
            },
            None => false,
        }
    }

    /// Takes the current token and insists on its kind.
    fn consume(&mut self, expected: TokenType, error_message: &str) -> (r: Result<
        Token,
        ParseError,
    >)
        requires
            old(self).wf(),
        ensures
            final(self).parsed_token(
                *old(self),
                r,
                grammar::consume(
                    old(self).tokens(),
                    old(self).current as int,
                    expected,
                    error_message@,
                ),
            ),
    {
        match self.advance() {
            Ok(token) => {
                if token.token_type != expected {
                    Err(Self::error(&token, error_message))
                } else {
                    Ok(token)
                }
            },
            Err(e) => Err(e),
        }
    }

    /// Drops the current token, if there is one.
    fn consume_any(&mut self)
        requires
            old(self).wf(),
        ensures
            final(self).follows(*old(self)),
            final(self).current == grammar::advance(
                old(self).tokens(),
                old(self).current as int,
            ).next,
    {
        let _ = self.advance();
    }

    /// Parses a whole program: every declaration up to the end-of-input
    /// token. A faulty declaration is reported, the tokens up to the next
    /// statement boundary are dropped, and parsing goes on.
    pub fn parse(&mut self) -> (r: Vec<Statement>)
        requires
            old(self).wf(),
        ensures
            final(self).wf(),
            final(self).tokens() == old(self).tokens(),
            statement_views(r@) == grammar::program(
                old(self).tokens(),
                old(self).position(),
            ).statements,
            final(self).errors() == old(self).errors() + grammar::program(
                old(self).tokens(),
                old(self).position(),
            ).errors,
    {
        let mut statements: Vec<Statement> = Vec::new();
        let ghost tokens = self.tokens();
        let ghost whole = grammar::program(tokens, self.current as int);
        assert(statement_views(statements@) =~= Seq::<StatementView>::empty());
        assert(statement_views(statements@) + whole.statements =~= whole.statements);
        while self.tokens.len() > 0 && self.current < self.tokens.len() - 1
            invariant
                self.wf(),
                self.tokens == old(self).tokens,
                tokens == self.tokens(),
                whole == grammar::program(tokens, old(self).current as int),
                statement_views(statements@) + grammar::program(
                    tokens,
                    self.current as int,
                ).statements == whole.statements,
                self.errors() + grammar::program(tokens, self.current as int).errors == old(
                    self,
                ).errors() + whole.errors,
            decreases self.tokens.len() - self.current,
        {
            let ghost before_statements = statement_views(statements@);
            let ghost before_errors = self.errors();
            let ghost pos = self.current as int;
            let ghost here = grammar::program(tokens, pos);
            match self.declaration() {
                Ok(statement) => {
                    statements.push(statement);
                    proof {
                        let rest = grammar::program(tokens, self.current as int);
                        assert(statement_views(statements@) =~= before_statements.push(
                            statement@,
                        ));
                        assert(statement_views(statements@) + rest.statements
                            =~= before_statements + here.statements);
                    }
                },
                Err(e) => {
                    self.errors.push(e);
                    assert(self.errors() =~= before_errors.push(e@));
                    let ghost failed = self.current as int;
                    self.synchronize();
                    proof {
                        let rest = grammar::program(tokens, self.current as int);
                        assert(self.errors() + rest.errors =~= before_errors + here.errors);
                    }
                },
            }
        }
        proof {
            let rest = grammar::program(tokens, self.current as int);
            assert(statement_views(statements@) + rest.statements =~= statement_views(
                statements@,
            ));
            assert(self.errors() + rest.errors =~= self.errors());
        }
        statements
    }

    /// The syntax errors reported so far, oldest first.
    pub fn syntax_errors(&self) -> (r: &Vec<ParseError>)
        ensures
            parse_error_views(r@) == self.errors(),
    {
        &self.errors
    }

    /// Whether any syntax error has been reported.
    pub fn had_error(&self) -> (r: bool)
        ensures
            r == (self.errors().len() > 0),
    {
        self.errors.len() > 0
    }

    fn declaration(&mut self) -> (r: Result<Statement, ParseError>)
        requires
            old(self).wf(),
        ensures
            final(self).parsed_statement(
                *old(self),
                r,
                grammar::declaration(old(self).tokens(), old(self).current as int),
            ),
        decreases grammar::remaining(old(self).tokens(), old(self).current as int), 250nat,
    {
        if self.check(TokenType::Keyword(Keyword::Var)) {
            self.var_declaration()
        } else if self.check(TokenType::Keyword(Keyword::Fun)) {
            self.function_declaration()
        } else {
            self.statement()
        }
    }

    fn var_declaration(&mut self) -> (r: Result<Statement, ParseError>)
        requires
            old(self).wf(),
        ensures
            final(self).parsed_statement(
                *old(self),
                r,
                grammar::var_declaration(old(self).tokens(), old(self).current as int),
            ),
        decreases grammar::remaining(old(self).tokens(), old(self).current as int), 200nat,
    {
        match self.advance() {
            Ok(_) => {},
            Err(e) => {
                return Err(e);
            },
        }
        let name = match self.consume(TokenType::Identifier, "Expect variable name.") {
            Ok(token) => token,
            Err(e) => {
                return Err(e);
            },
        };
        let initializer = if self.check(TokenType::Equal) {
            self.consume_any();
            match self.expression() {
                Ok(e) => Some(e),
                Err(e) => {
                    return Err(e);
                },
            }
        } else {
            None
        };
        match self.consume(TokenType::Semicolon, "Expect ';' after variable declaration.") {
            Ok(_) => {},
            Err(e) => {
                return Err(e);
            },
        }
        Ok(Statement::Var { name, initializer })
    }

    fn function_declaration(&mut self) -> (r: Result<Statement, ParseError>)
        requires
            old(self).wf(),
        ensures
            final(self).parsed_statement(
                *old(self),
                r,
                grammar::function_declaration(old(self).tokens(), old(self).current as int),
            ),
        decreases grammar::remaining(old(self).tokens(), old(self).current as int), 200nat,
    {
        let ghost tokens = self.tokens();
        let ghost pos = self.current as int;
        match self.advance() {
            Ok(_) => {},
            Err(e) => {
                return Err(e);
            },
        }
        let name = match self.consume(TokenType::Identifier, "Expect function name.") {
            Ok(token) => token,
            Err(e) => {
                return Err(e);
            },
        };
        match self.consume(TokenType::LeftParen, "Expect '(' after function name.") {
            Ok(_) => {},
            Err(e) => {
                return Err(e);
            },
        }
        let mut params: Vec<Token> = Vec::new();
        if !self.check(TokenType::RightParen) {
            let ghost list = grammar::parameters(tokens, pos + 3, Seq::empty());
            assert(token_views(params@) =~= Seq::<TokenView>::empty());
            loop
                invariant_except_break
                    grammar::parameters(tokens, self.current as int, token_views(params@))
                        == list,
                invariant
                    self.follows(*old(self)),
                    tokens == self.tokens(),
                    pos == old(self).current,
                    pos + 3 <= self.current,
                    list == grammar::parameters(tokens, pos + 3, Seq::empty()),
                    !grammar::check(tokens, pos + 3, TokenType::RightParen),
                    grammar::consume(
                        tokens,
                        pos + 1,
                        TokenType::Identifier,
                        "Expect function name."@,
                    ).result is Ok,
                    grammar::consume(
                        tokens,
                        pos + 2,
                        TokenType::LeftParen,
                        "Expect '(' after function name."@,
                    ).result is Ok,
                ensures
                    self.follows(*old(self)),
                    list == grammar::done(token_views(params@), self.current as int),
                decreases self.tokens.len() - self.current,
            {
                let ghost so_far = token_views(params@);
                let param = match self.consume(TokenType::Identifier, "Expect parameter name.") {
                    Ok(token) => token,
                    Err(e) => {
                        return Err(e);
                    },
                };
                params.push(param);
                assert(token_views(params@) =~= so_far.push(param@));
                if !self.check(TokenType::Comma) {
                    break ;
                }
                self.consume_any();
            }
        } else {
            assert(token_views(params@) =~= Seq::<TokenView>::empty());
        }
        match self.consume(TokenType::RightParen, "Expect ')' after parameters.") {
            Ok(_) => {},
            Err(e) => {
                return Err(e);
            },
        }
        match self.consume(TokenType::LeftBrace, "Expect '{' before function body.") {
            Ok(_) => {},
            Err(e) => {
                return Err(e);
            },
        }
        let body = match self.block() {
            Ok(statements) => statements,
            Err(e) => {
                return Err(e);
            },
        };
        let declared = Statement::Function { name, params, body };
        proof {
            lemma_statement_view_lists(declared);
        }
        Ok(declared)
    }

    fn statement(&mut self) -> (r: Result<Statement, ParseError>)
        requires
            old(self).wf(),
        ensures
            final(self).parsed_statement(
                *old(self),
                r,
                grammar::statement(old(self).tokens(), old(self).current as int),
            ),
        decreases grammar::remaining(old(self).tokens(), old(self).current as int), 240nat,
    {
        if self.check(TokenType::Keyword(Keyword::Print)) {
            self.print_statement()
        } else if self.check(TokenType::LeftBrace) {
            self.block_statement()
        } else if self.check(TokenType::Keyword(Keyword::If)) {
            self.if_statement()
        } else if self.check(TokenType::Keyword(Keyword::While)) {
            self.while_statement()
        } else if self.check(TokenType::Keyword(Keyword::For)) {
            self.for_statement()
        } else if self.check(TokenType::Keyword(Keyword::Return)) {
            self.return_statement()
        } else {
            self.expression_statement()
        }
    }

    fn print_statement(&mut self) -> (r: Result<Statement, ParseError>)
        requires
            old(self).wf(),
        ensures
            final(self).parsed_statement(
                *old(self),
                r,
                grammar::print_statement(old(self).tokens(), old(self).current as int),
            ),
        decreases grammar::remaining(old(self).tokens(), old(self).current as int), 200nat,
    {
        match self.advance() {
            Ok(_) => {},
            Err(e) => {
                return Err(e);
            },
        }
        let expression = match self.expression() {
            Ok(e) => e,
            Err(e) => {
                return Err(e);
            },
        };
        match self.consume(TokenType::Semicolon, "Expect ';' after value.") {
            Ok(_) => {},
            Err(e) => {
                return Err(e);
            },
        }
        Ok(Statement::Print { expression })
    }

    fn return_statement(&mut self) -> (r: Result<Statement, ParseError>)
        requires
            old(self).wf(),
        ensures
            final(self).parsed_statement(
                *old(self),
                r,
                grammar::return_statement(old(self).tokens(), old(self).current as int),
            ),
        decreases grammar::remaining(old(self).tokens(), old(self).current as int), 200nat,
    {
        let keyword = match self.advance() {
            Ok(token) => token,
            Err(e) => {
                return Err(e);
            },
        };
        let value = if self.check(TokenType::Semicolon) {
            None
        } else {
            match self.expression() {
                Ok(e) => Some(e),
                Err(e) => {
                    return Err(e);
                },
            }
        };
        match self.consume(TokenType::Semicolon, "Expect ';' after return value.") {
            Ok(_) => {},
            Err(e) => {
                return Err(e);
            },
        }
        Ok(Statement::Return { keyword, value })
    }

    fn expression_statement(&mut self) -> (r: Result<Statement, ParseError>)
        requires
            old(self).wf(),
        ensures
            final(self).parsed_statement(
                *old(self),
                r,
                grammar::expression_statement(old(self).tokens(), old(self).current as int),
            ),
        decreases grammar::remaining(old(self).tokens(), old(self).current as int), 200nat,
    {
        let expression = match self.expression() {
            Ok(e) => e,
            Err(e) => {
                return Err(e);
            },
        };
        match self.consume(TokenType::Semicolon, "Expect ';' after expression.") {
            Ok(_) => {},
            Err(e) => {
                return Err(e);
            },
        }
        Ok(Statement::Expression { expression })
    }

    /// The declarations of a block whose opening brace has been read, and its
    /// closing brace.
    fn block(&mut self) -> (r: Result<Vec<Statement>, ParseError>)
        requires
            old(self).wf(),
        ensures
            final(self).follows(*old(self)),
            final(self).current == grammar::block(
                old(self).tokens(),
                old(self).current as int,
                Seq::empty(),
            ).next,
            r is Ok ==> old(self).current < final(self).current,
            match r {
                Ok(statements) => grammar::block(
                    old(self).tokens(),
                    old(self).current as int,
                    Seq::empty(),
                ).result == Ok::<Seq<StatementView>, ParseErrorView>(statement_views(statements@)),
                Err(e) => grammar::block(
                    old(self).tokens(),
                    old(self).current as int,
                    Seq::empty(),
                ).result == Err::<Seq<StatementView>, ParseErrorView>(e@),
            },
        decreases grammar::remaining(old(self).tokens(), old(self).current as int), 260nat,
    {
        let ghost tokens = self.tokens();
        let ghost whole = grammar::block(tokens, self.current as int, Seq::empty());
        let mut statements: Vec<Statement> = Vec::new();
        assert(statement_views(statements@) =~= Seq::<StatementView>::empty());
        while !self.check(TokenType::RightBrace) && self.tokens.len() > 0 && self.current
            < self.tokens.len() - 1
            invariant
                self.follows(*old(self)),
                tokens == self.tokens(),
                whole == grammar::block(tokens, old(self).current as int, Seq::empty()),
                grammar::block(tokens, self.current as int, statement_views(statements@))
                    == whole,
            decreases self.tokens.len() - self.current,
        {
            let ghost so_far = statement_views(statements@);
            let declaration = match self.declaration() {
                Ok(s) => s,
                Err(e) => {
                    return Err(e);
                },
            };
            statements.push(declaration);
            assert(statement_views(statements@) =~= so_far.push(declaration@));
        }
        match self.consume(TokenType::RightBrace, "Expect '}' after block.") {
            Ok(_) => {},
            Err(e) => {
                return Err(e);
            },
        }
        Ok(statements)
    }

    fn block_statement(&mut self) -> (r: Result<Statement, ParseError>)
        requires
            old(self).wf(),
        ensures
            final(self).parsed_statement(
                *old(self),
                r,
                grammar::block_statement(old(self).tokens(), old(self).current as int),
            ),
        decreases grammar::remaining(old(self).tokens(), old(self).current as int), 200nat,
    {
        match self.advance() {
            Ok(_) => {},
            Err(e) => {
                return Err(e);
            },
        }
        let statements = match self.block() {
            Ok(statements) => statements,
            Err(e) => {
                return Err(e);
            },
        };
        let block = Statement::Block { statements };
        proof {
            lemma_statement_view_lists(block);
        }
        Ok(block)
    }

    fn if_statement(&mut self) -> (r: Result<Statement, ParseError>)
        requires
            old(self).wf(),
        ensures
            final(self).parsed_statement(
                *old(self),
                r,
                grammar::if_statement(old(self).tokens(), old(self).current as int),
            ),
        decreases grammar::remaining(old(self).tokens(), old(self).current as int), 200nat,
    {
        match self.advance() {
            Ok(_) => {},
            Err(e) => {
                return Err(e);
            },
        }
        match self.consume(TokenType::LeftParen, "Expect '(' after 'if'.") {
            Ok(_) => {},
            Err(e) => {
                return Err(e);
            },
        }
        let condition = match self.expression() {
            Ok(e) => e,
            Err(e) => {
                return Err(e);
            },
        };
        match self.consume(TokenType::RightParen, "Expect ')' after if condition.") {
            Ok(_) => {},
            Err(e) => {
                return Err(e);
            },
        }
        let then_branch = match self.statement() {
            Ok(s) => s,
            Err(e) => {
                return Err(e);
            },
        };
        let else_branch: Option<Box<Statement>> = if self.check(
            TokenType::Keyword(Keyword::Else),
        ) {
            self.consume_any();
            match self.statement() {
                Ok(s) => Some(Box::new(s)),
                Err(e) => {
                    return Err(e);
                },
            }
        } else {
            None
        };
        Ok(Statement::If { condition, then_branch: Box::new(then_branch), else_branch })
    }

    fn while_statement(&mut self) -> (r: Result<Statement, ParseError>)
        requires
            old(self).wf(),
        ensures
            final(self).parsed_statement(
                *old(self),
                r,
                grammar::while_statement(old(self).tokens(), old(self).current as int),
            ),
        decreases grammar::remaining(old(self).tokens(), old(self).current as int), 200nat,
    {
        match self.advance() {
            Ok(_) => {},
            Err(e) => {
                return Err(e);
            },
        }
        match self.consume(TokenType::LeftParen, "Expect '(' after 'while'.") {
            Ok(_) => {},
            Err(e) => {
                return Err(e);
            },
        }
        let condition = match self.expression() {
            Ok(e) => e,
            Err(e) => {
                return Err(e);
            },
        };
        match self.consume(TokenType::RightParen, "Expect ')' after while condition.") {
            Ok(_) => {},
            Err(e) => {
                return Err(e);
            },
        }
        let body = match self.statement() {
            Ok(s) => s,
            Err(e) => {
                return Err(e);
            },
        };
        Ok(Statement::While { condition, body: Box::new(body) })
    }

    /// The literal `true` that stands for a missing loop condition.
    fn always_true() -> (r: Expr)
        ensures
            r@ == (ExprView::Literal { value: grammar::always_true() }),
    {
        let mut lexeme = String::new();
        push_text(&mut lexeme, "true");
        assert(lexeme@ =~= "true"@);
        Expr::Literal {
            value: Token::new(
                TokenType::Keyword(Keyword::True),
                lexeme,
                Some(Literal::Boolean(true)),
                0,
            ),
        }
    }

    /// Builds the loop that a `for` statement stands for.
    fn desugar_for(
        initializer: Option<Statement>,
        condition: Expr,
        increment: Option<Expr>,
        body: Statement,
    ) -> (r: Statement)
        ensures
            r@ == grammar::desugar_for(
                match initializer {
                    Some(s) => Some(s@),
                    None => None,
                },
                condition@,
                match increment {
                    Some(e) => Some(e@),
                    None => None,
                },
                body@,
            ),
    {
        let stepped = match increment {
            Some(e) => {
                let ghost body_view = body@;
                let mut statements: Vec<Statement> = Vec::new();
                statements.push(body);
                statements.push(Statement::Expression { expression: e });
                let block = Statement::Block { statements };
                proof {
                    lemma_statement_view_lists(block);
                    assert(statement_views(statements@) =~= seq![
                        body_view,
                        StatementView::Expression { expression: e@ },
                    ]);
                }
                block
            },
            None => body,
        };
        let looped = Statement::While { condition, body: Box::new(stepped) };
        match initializer {
            Some(first) => {
                let ghost first_view = first@;
                let ghost looped_view = looped@;
                let mut statements: Vec<Statement> = Vec::new();
                statements.push(first);
                statements.push(looped);
                let block = Statement::Block { statements };
                proof {
                    lemma_statement_view_lists(block);
                    assert(statement_views(statements@) =~= seq![first_view, looped_view]);
                }
                block
            },
            None => looped,
        }
    }

    /// Parses a `for` statement into the `while` loop it stands for.
    #[verifier::rlimit(60)]
    fn for_statement(&mut self) -> (r: Result<Statement, ParseError>)
        requires
            old(self).wf(),
        ensures
            final(self).parsed_statement(
                *old(self),
                r,
                grammar::for_statement(old(self).tokens(), old(self).current as int),
            ),
        decreases grammar::remaining(old(self).tokens(), old(self).current as int), 220nat,
    {
        match self.advance() {
            Ok(_) => {},
            Err(e) => {
                return Err(e);
            },
        }
        match self.consume(TokenType::LeftParen, "Expect '(' after 'for'.") {
            Ok(_) => {},
            Err(e) => {
                return Err(e);
            },
        }
        let initializer = if self.check(TokenType::Semicolon) {
            self.consume_any();
            None
        } else if self.check(TokenType::Keyword(Keyword::Var)) {
            match self.var_declaration() {
                Ok(s) => Some(s),
                Err(e) => {
                    return Err(e);
                },
            }
        } else {
            match self.expression_statement() {
                Ok(s) => Some(s),
                Err(e) => {
                    return Err(e);
                },
            }
        };
        let condition = if !self.check(TokenType::Semicolon) {
            match self.expression() {
                Ok(e) => e,
                Err(e) => {
                    return Err(e);
                },
            }
        } else {
            Self::always_true()
        };
        match self.consume(TokenType::Semicolon, "Expect ';' after loop condition.") {
            Ok(_) => {},
            Err(e) => {
                return Err(e);
            },
        }
        let increment = if !self.check(TokenType::RightParen) {
            match self.expression() {
                Ok(e) => Some(e),
                Err(e) => {
                    return Err(e);
                },
            }
        } else {
            None
        };
        match self.consume(TokenType::RightParen, "Expect ')' after for clauses.") {
            Ok(_) => {},
            Err(e) => {
                return Err(e);
            },
        }
        let body = match self.statement() {
            Ok(s) => s,
            Err(e) => {
                return Err(e);
            },
        };
        Ok(Self::desugar_for(initializer, condition, increment, body))
    }

    /// Parses one expression.
    pub fn expression(&mut self) -> (r: Result<Expr, ParseError>)
        requires
            old(self).wf(),
        ensures
            final(self).wf(),
            final(self).tokens() == old(self).tokens(),
            final(self).errors() == old(self).errors(),
            final(self).position() == grammar::expression(
                old(self).tokens(),
                old(self).position(),
            ).next,
            match r {
                Ok(e) => grammar::expression(old(self).tokens(), old(self).position()).result
                    == Ok::<ExprView, ParseErrorView>(e@),
                Err(e) => grammar::expression(old(self).tokens(), old(self).position()).result
                    == Err::<ExprView, ParseErrorView>(e@),
            },
            final(self).parsed_expr(
                *old(self),
                r,
                grammar::expression(old(self).tokens(), old(self).position()),
            ),
        decreases grammar::remaining(old(self).tokens(), old(self).position()), 180nat,
    {
        self.assignment()
    }

    fn assignment(&mut self) -> (r: Result<Expr, ParseError>)
        requires
            old(self).wf(),
        ensures
            final(self).parsed_expr(
                *old(self),
                r,
                grammar::assignment(old(self).tokens(), old(self).current as int),
            ),
        decreases grammar::remaining(old(self).tokens(), old(self).current as int), 170nat,
    {
        let expr = match self.logic_or() {
            Ok(e) => e,
            Err(e) => {
                return Err(e);
            },
        };
        if self.check(TokenType::Equal) {
            let equals = match self.advance() {
                Ok(token) => token,
                Err(e) => {
                    return Err(e);
                },
            };
            let value = match self.assignment() {
                Ok(e) => e,
                Err(e) => {
                    return Err(e);
                },
            };
            match expr {
                Expr::Variable { name, depth: _ } => {
                    return Ok(
                        Expr::Assign { name, value: Box::new(value), depth: Depth::Unresolved },
                    );
                },
                _ => {
                    return Err(Self::error(&equals, "Invalid assignment target."));
                },
            }
        }
        Ok(expr)
    }

    fn logic_or(&mut self) -> (r: Result<Expr, ParseError>)
        requires
            old(self).wf(),
        ensures
            final(self).parsed_expr(
                *old(self),
                r,
                grammar::binary(old(self).tokens(), old(self).current as int, Level::Or),
            ),
        decreases grammar::remaining(old(self).tokens(), old(self).current as int), 165nat,
    {
        self.binary(Level::Or)
    }

    fn logic_and(&mut self) -> (r: Result<Expr, ParseError>)
        requires
            old(self).wf(),
        ensures
            final(self).parsed_expr(
                *old(self),
                r,
                grammar::binary(old(self).tokens(), old(self).current as int, Level::And),
            ),
        decreases grammar::remaining(old(self).tokens(), old(self).current as int), 145nat,
    {
        self.binary(Level::And)
    }

    fn equality(&mut self) -> (r: Result<Expr, ParseError>)
        requires
            old(self).wf(),
        ensures
            final(self).parsed_expr(
                *old(self),
                r,
                grammar::binary(old(self).tokens(), old(self).current as int, Level::Equality),
            ),
        decreases grammar::remaining(old(self).tokens(), old(self).current as int), 125nat,
    {
        self.binary(Level::Equality)
    }

    fn comparison(&mut self) -> (r: Result<Expr, ParseError>)
        requires
            old(self).wf(),
        ensures
            final(self).parsed_expr(
                *old(self),
                r,
                grammar::binary(old(self).tokens(), old(self).current as int, Level::Comparison),
            ),
        decreases grammar::remaining(old(self).tokens(), old(self).current as int), 105nat,
    {
        self.binary(Level::Comparison)
    }

    fn term(&mut self) -> (r: Result<Expr, ParseError>)
        requires
            old(self).wf(),
        ensures
            final(self).parsed_expr(
                *old(self),
                r,
                grammar::binary(old(self).tokens(), old(self).current as int, Level::Term),
            ),
        decreases grammar::remaining(old(self).tokens(), old(self).current as int), 85nat,
    {
        self.binary(Level::Term)
    }

    fn factor(&mut self) -> (r: Result<Expr, ParseError>)
        requires
            old(self).wf(),
        ensures
            final(self).parsed_expr(
                *old(self),
                r,
                grammar::binary(old(self).tokens(), old(self).current as int, Level::Factor),
            ),
        decreases grammar::remaining(old(self).tokens(), old(self).current as int), 65nat,
    {
        self.binary(Level::Factor)
    }

    /// An operand of `level`: an expression of the next tighter level.
    fn operand(&mut self, level: Level) -> (r: Result<Expr, ParseError>)
        requires
            old(self).wf(),
        ensures
            final(self).parsed_expr(
                *old(self),
                r,
                grammar::operand(old(self).tokens(), old(self).current as int, level),
            ),
        decreases grammar::remaining(old(self).tokens(), old(self).current as int), 50 + 20
            * level.index(),
    {
        match level {
            Level::Factor => self.unary(),
            Level::Term => self.factor(),
            Level::Comparison => self.term(),
            Level::Equality => self.comparison(),
            Level::And => self.equality(),
            Level::Or => self.logic_and(),
        }
    }

    /// The node for `left operator right` at `level`.
    fn combine(level: Level, left: Expr, operator: Token, right: Expr) -> (r: Expr)
        ensures
            r@ == level.combine(left@, operator@, right@),
    {
        match level {
            Level::And => Expr::LogicAnd { left: Box::new(left), right: Box::new(right) },
            Level::Or => Expr::LogicOr { left: Box::new(left), right: Box::new(right) },
            _ => Expr::Binary { left: Box::new(left), operator, right: Box::new(right) },
        }
    }

    /// One or more operands of `level` separated by its operators, folded to
    /// the left.
    fn binary(&mut self, level: Level) -> (r: Result<Expr, ParseError>)
        requires
            old(self).wf(),
        ensures
            final(self).parsed_expr(
                *old(self),
                r,
                grammar::binary(old(self).tokens(), old(self).current as int, level),
            ),
        decreases grammar::remaining(old(self).tokens(), old(self).current as int), 60 + 20
            * level.index(),
    {
        let ghost tokens = self.tokens();
        let ghost whole = grammar::binary(tokens, self.current as int, level);
        let mut expr = match self.operand(level) {
            Ok(e) => e,
            Err(e) => {
                return Err(e);
            },
        };
        while self.at_operator(level)
            invariant
                self.follows(*old(self)),
                tokens == self.tokens(),
                old(self).current < self.current,
                whole == grammar::binary(tokens, old(self).current as int, level),
                grammar::binary_rest(tokens, self.current as int, level, expr@) == whole,
            decreases self.tokens.len() - self.current,
        {
            let operator = self.tokens[self.current].clone();
            self.current = self.current + 1;
            let right = match self.operand(level) {
                Ok(e) => e,
                Err(e) => {
                    return Err(e);
                },
            };
            expr = Self::combine(level, expr, operator, right);
        }
        Ok(expr)
    }

    fn unary(&mut self) -> (r: Result<Expr, ParseError>)
        requires
            old(self).wf(),
        ensures
            final(self).parsed_expr(
                *old(self),
                r,
                grammar::unary(old(self).tokens(), old(self).current as int),
            ),
        decreases grammar::remaining(old(self).tokens(), old(self).current as int), 40nat,
    {
        if self.check(TokenType::Bang) || self.check(TokenType::Minus) {
            let operator = match self.advance() {
                Ok(token) => token,
                Err(e) => {
                    return Err(e);
                },
            };
            let right = match self.unary() {
                Ok(e) => e,
                Err(e) => {
                    return Err(e);
                },
            };
            return Ok(Expr::Unary { operator, right: Box::new(right) });
        }
        self.call()
    }

    fn call(&mut self) -> (r: Result<Expr, ParseError>)
        requires
            old(self).wf(),
        ensures
            final(self).parsed_expr(
                *old(self),
                r,
                grammar::call(old(self).tokens(), old(self).current as int),
            ),
        decreases grammar::remaining(old(self).tokens(), old(self).current as int), 30nat,
    {
        let ghost tokens = self.tokens();
        let ghost whole = grammar::call(tokens, self.current as int);
        let mut expr = match self.primary() {
            Ok(e) => e,
            Err(e) => {
                return Err(e);
            },
        };
        while self.check(TokenType::LeftParen)
            invariant
                self.follows(*old(self)),
                tokens == self.tokens(),
                old(self).current < self.current,
                whole == grammar::call(tokens, old(self).current as int),
                grammar::call_rest(tokens, self.current as int, expr@) == whole,
            decreases self.tokens.len() - self.current,
        {
            expr = match self.finish_call(expr) {
                Ok(e) => e,
                Err(e) => {
                    return Err(e);
                },
            };
        }
        Ok(expr)
    }

    fn finish_call(&mut self, callee: Expr) -> (r: Result<Expr, ParseError>)
        requires
            old(self).wf(),
        ensures
            final(self).parsed_expr(
                *old(self),
                r,
                grammar::finish_call(old(self).tokens(), old(self).current as int, callee@),
            ),
        decreases grammar::remaining(old(self).tokens(), old(self).current as int), 10nat,
    {
        let ghost tokens = self.tokens();
        let ghost pos = self.current as int;
        match self.advance() {
            Ok(_) => {},
            Err(e) => {
                return Err(e);
            },
        }
        let mut arguments: Vec<Expr> = Vec::new();
        assert(expr_views(arguments@) =~= Seq::<ExprView>::empty());
        if !self.check(TokenType::RightParen) {
            let ghost list = grammar::arguments(tokens, pos + 1, Seq::empty());
            loop
                invariant_except_break
                    grammar::arguments(tokens, self.current as int, expr_views(arguments@))
                        == list,
                invariant
                    self.follows(*old(self)),
                    tokens == self.tokens(),
                    pos == old(self).current,
                    pos < self.tokens.len(),
                    pos + 1 <= self.current,
                    list == grammar::arguments(tokens, pos + 1, Seq::empty()),
                    !grammar::check(tokens, pos + 1, TokenType::RightParen),
                ensures
                    self.follows(*old(self)),
                    pos + 1 <= self.current,
                    list == grammar::done(expr_views(arguments@), self.current as int),
                decreases self.tokens.len() - self.current,
            {
                let ghost so_far = expr_views(arguments@);
                let argument = match self.expression() {
                    Ok(e) => e,
                    Err(e) => {
                        return Err(e);
                    },
                };
                arguments.push(argument);
                assert(expr_views(arguments@) =~= so_far.push(argument@));
                if !self.check(TokenType::Comma) {
                    break ;
                }
                self.consume_any();
            }
        }
        let paren = match self.consume(TokenType::RightParen, "Expect ')' after arguments.") {
            Ok(token) => token,
            Err(e) => {
                return Err(e);
            },
        };
        let called = Expr::Call { callee: Box::new(callee), paren, arguments };
        proof {
            lemma_expr_view_lists(called);
        }
        Ok(called)
    }

    fn primary(&mut self) -> (r: Result<Expr, ParseError>)
        requires
            old(self).wf(),
        ensures
            final(self).parsed_expr(
                *old(self),
                r,
                grammar::primary(old(self).tokens(), old(self).current as int),
            ),
        decreases grammar::remaining(old(self).tokens(), old(self).current as int), 0nat,
    {
        let current_token = match self.advance() {
            Ok(token) => token,
            Err(e) => {
                return Err(e);
            },
        };
        match current_token.token_type {
            TokenType::Number | TokenType::String => Ok(Expr::Literal { value: current_token }),
            TokenType::LeftParen => {
                let expr = match self.expression() {
                    Ok(e) => e,
                    Err(e) => {
                        return Err(e);
                    },
                };
                match self.consume(TokenType::RightParen, "Expect expression.") {
                    Ok(_) => {},
                    Err(e) => {
                        return Err(e);
                    },
                }
                Ok(Expr::Grouping { expression: Box::new(expr) })
            },
            TokenType::Keyword(Keyword::Nil)
            | TokenType::Keyword(Keyword::False)
            | TokenType::Keyword(Keyword::True) => Ok(Expr::Literal { value: current_token }),
            TokenType::Identifier => Ok(
                Expr::Variable { name: current_token, depth: Depth::Unresolved },
            ),
            _ => Err(Self::error(&current_token, "Expect expression.")),
        }
    }
}

} // verus!
