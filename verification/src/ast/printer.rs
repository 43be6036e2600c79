//! The printed form of syntax trees, for people who debug programs.
//!
//! An expression is printed on one line, in prefix form with parentheses. A
//! statement is printed on one line, or, where it holds other statements,
//! with each of them on a line of its own, indented one level further.

use vstd::prelude::*;
use crate::ast::expr::{expr_views, lemma_expr_view_lists, Expr, ExprView};
use crate::ast::statement::{
    lemma_statement_view_lists, statement_views, Statement, StatementView,
};
use crate::lexer::scanner::token_views;
use crate::lexer::token::{Token, TokenView};
use crate::text::push_text;

verus! {

/// The indentation of a line at the given level: four spaces for each level.
pub open spec fn indentation(level: nat) -> Seq<char>
    decreases level,
{
    if level == 0 {
        Seq::empty()
    } else {
        indentation((level - 1) as nat) + "    "@
    }
}

/// The level one further in; levels stop at the largest number the machine
/// can hold.
pub open spec fn deeper(level: nat) -> nat {
    if level < usize::MAX {
        level + 1
    } else {
        level
    }
}

/// The names of the first `count` tokens, each with a space before it.
pub open spec fn names_text(tokens: Seq<TokenView>, count: int) -> Seq<char>
    decreases count,
{
    if count <= 0 || count > tokens.len() {
        Seq::empty()
    } else {
        names_text(tokens, count - 1) + " "@ + tokens[count - 1].lexeme
    }
}

/// The printed form of a literal token: its payload, or its lexeme where it
/// has none.
pub open spec fn literal_text(token: TokenView) -> Seq<char> {
    match token.literal {
        Some(l) => l.display(),
        None => token.lexeme,
    }
}

/// The printed form of an expression.
pub open spec fn expr_text(e: ExprView) -> Seq<char>
    decreases e, 1nat, 0nat,
{
    match e {
        ExprView::Binary { left, operator, right } => "("@ + operator.lexeme + " "@ + expr_text(
            *left,
        ) + " "@ + expr_text(*right) + ")"@,
        ExprView::Literal { value } => literal_text(value),
        ExprView::Grouping { expression } => "(group "@ + expr_text(*expression) + ")"@,
        ExprView::Unary { operator, right } => "("@ + operator.lexeme + " "@ + expr_text(*right)
            + ")"@,
        ExprView::Variable { name, .. } => "(var "@ + name.lexeme + ")"@,
        ExprView::Assign { name, value, .. } => "(assign "@ + name.lexeme + " "@ + expr_text(
            *value,
        ) + ")"@,
        ExprView::LogicOr { left, right } => "(or "@ + expr_text(*left) + " "@ + expr_text(*right)
            + ")"@,
        ExprView::LogicAnd { left, right } => "(and "@ + expr_text(*left) + " "@ + expr_text(
            *right,
        ) + ")"@,
        ExprView::Call { callee, arguments, .. } => "(call "@ + expr_text(*callee)
            + arguments_text(e, arguments.len() as int) + ")"@,
        ExprView::Lambda { params, body } => "(lambda (params"@ + names_text(
            params,
            params.len() as int,
        ) + ") (body"@ + lambda_body_text(e, body.len() as int) + "))"@,
    }
}

/// The printed forms of the first `count` arguments of a call, each with a
/// space before it.
pub open spec fn arguments_text(e: ExprView, count: int) -> Seq<char>
    decreases e, 0nat, count,
{
    match e {
        ExprView::Call { arguments, .. } => if count <= 0 || count > arguments.len() {
            Seq::empty()
        } else {
            arguments_text(e, count - 1) + " "@ + expr_text(arguments[count - 1])
        },
        _ => Seq::empty(),
    }
}

/// The printed forms of the first `count` statements of the body of a
/// function expression, each with a space before it.
pub open spec fn lambda_body_text(e: ExprView, count: int) -> Seq<char>
    decreases e, 0nat, count,
{
    match e {
        ExprView::Lambda { body, .. } => if count <= 0 || count > body.len() {
            Seq::empty()
        } else {
            lambda_body_text(e, count - 1) + " "@ + statement_text(body[count - 1], 0)
        },
        _ => Seq::empty(),
    }
}

/// The printed form of a statement, without the indentation of its first
/// line. The statements inside it are indented to `one level further in.
pub open spec fn statement_text(s: StatementView, level: nat) -> Seq<char>
    decreases s, 1nat, 0nat,
{
    match s {
        StatementView::Expression { expression } => "(expr "@ + expr_text(expression) + ")"@,
        StatementView::Print { expression } => "(print "@ + expr_text(expression) + ")"@,
        StatementView::Var { name, initializer } => match initializer {
            Some(e) => "(var "@ + name.lexeme + " "@ + expr_text(e) + ")"@,
            None => "(var "@ + name.lexeme + ")"@,
        },
        StatementView::Block { statements } => "(block"@ + children_text(
            s,
            statements.len() as int,
            level,
        ) + ")"@,
        StatementView::If { condition, then_branch, else_branch } => "(if "@ + expr_text(
            condition,
        ) + line_text(*then_branch, deeper(level)) + match else_branch {
            Some(other) => line_text(*other, deeper(level)),
            None => Seq::empty(),
        } + ")"@,
        StatementView::While { condition, body } => "(while "@ + expr_text(condition) + line_text(
            *body,
            deeper(level),
        ) + ")"@,
        StatementView::Function { name, params, body } => "(fun "@ + name.lexeme + " (params"@
            + names_text(params, params.len() as int) + ")"@ + children_text(
            s,
            body.len() as int,
            level,
        ) + ")"@,
        StatementView::Return { keyword, value } => match value {
            Some(e) => "(return "@ + expr_text(e) + ")"@,
            None => "(return)"@,
        },
    }
}

/// A statement on a line of its own: a line break, the indentation of the
/// level, and the statement.
pub open spec fn line_text(s: StatementView, level: nat) -> Seq<char>
    decreases s, 2nat, 0nat,
{
    "\n"@ + indentation(level) + statement_text(s, level)
}

/// The first `count` statements of a block or of a function body, each on a
/// line of its own at `one level further in.
pub open spec fn children_text(s: StatementView, count: int, level: nat) -> Seq<char>
    decreases s, 0nat, count,
{
    match s {
        StatementView::Block { statements } => if count <= 0 || count > statements.len() {
            Seq::empty()
        } else {
            children_text(s, count - 1, level) + line_text(statements[count - 1], deeper(level))
        },
        StatementView::Function { body, .. } => if count <= 0 || count > body.len() {
            Seq::empty()
        } else {
            children_text(s, count - 1, level) + line_text(body[count - 1], deeper(level))
        },
        _ => Seq::empty(),
    }
}

/// The first `count` statements of a program, each followed by a line break.
pub open spec fn program_text(statements: Seq<StatementView>, count: int) -> Seq<char>
    decreases count,
{
    if count <= 0 || count > statements.len() {
        Seq::empty()
    } else {
        program_text(statements, count - 1) + statement_text(statements[count - 1], 0) + "\n"@
    }
}

/// The pretty-printer.
#[derive(Debug, Clone, Copy)]
pub struct AstPrinter;

impl AstPrinter {
    /// The indentation of a line at `level`.
    pub fn indent(&self, level: usize) -> (r: String)
        ensures
            r@ == indentation(level as nat),
    {
        let mut out = String::new();
        let mut i: usize = 0;
        assert(out@ =~= indentation(0));
        while i < level
            invariant
                i <= level,
                out@ == indentation(i as nat),
            decreases level - i,
        {
            push_text(&mut out, "    ");
            i = i + 1;
        }
        out
    }

    /// The printed form of an expression.
    pub fn print_to_string(&self, expr: &Expr) -> (r: String)
        ensures
            r@ == expr_text(expr@),
    {
        let mut out = String::new();
        self.visit(expr, &mut out);
        assert(out@ =~= expr_text(expr@));
        out
    }

    /// The printed form of a program: each statement followed by a line
    /// break.
    pub fn print_statements_to_string(&self, statements: &Vec<Statement>) -> (r: String)
        ensures
            r@ == program_text(statement_views(statements@), statements@.len() as int),
    {
        let mut out = String::new();
        let mut i: usize = 0;
        assert(out@ =~= program_text(statement_views(statements@), 0));
        while i < statements.len()
            invariant
                i <= statements.len(),
                out@ == program_text(statement_views(statements@), i as int),
            decreases statements.len() - i,
        {
            self.visit_statement(&statements[i], 0, &mut out);
            push_text(&mut out, "\n");
            i = i + 1;
        }
        out
    }

    /// Appends to `out` the names of `tokens`, each with a space before it.
    fn visit_names(&self, tokens: &Vec<Token>, out: &mut String)
        ensures
            final(out)@ == old(out)@ + names_text(token_views(tokens@), tokens@.len() as int),
    {
        let mut i: usize = 0;
        assert(out@ =~= old(out)@ + names_text(token_views(tokens@), 0));
        while i < tokens.len()
            invariant
                i <= tokens.len(),
                out@ == old(out)@ + names_text(token_views(tokens@), i as int),
            decreases tokens.len() - i,
        {
            push_text(out, " ");
            push_text(out, tokens[i].lexeme.as_str());
            assert(out@ =~= old(out)@ + names_text(token_views(tokens@), i + 1));
            i = i + 1;
        }
    }

    /// Appends to `out` the printed form of a literal token.
    fn visit_literal(&self, value: &Token, out: &mut String)
        ensures
            final(out)@ == old(out)@ + literal_text(value@),
    {
        match &value.literal {
            Some(l) => {
                let shown = l.to_string();
                push_text(out, shown.as_str());
            },
            None => {
                push_text(out, value.lexeme.as_str());
            },
        }
    }

    /// Appends to `out` the printed form of an expression.
    fn visit(&self, expr: &Expr, out: &mut String)
        ensures
            final(out)@ == old(out)@ + expr_text(expr@),
        decreases expr,
    {
        match expr {
            Expr::Binary { left, operator, right } => {
                push_text(out, "(");
                push_text(out, operator.lexeme.as_str());
                push_text(out, " ");
                self.visit(left, out);
                push_text(out, " ");
                self.visit(right, out);
                push_text(out, ")");
                assert(out@ =~= old(out)@ + expr_text(expr@));
            },
            Expr::Literal { value } => {
                self.visit_literal(value, out);
            },
            Expr::Grouping { expression } => {
                push_text(out, "(group ");
                self.visit(expression, out);
                push_text(out, ")");
                assert(out@ =~= old(out)@ + expr_text(expr@));
            },
            Expr::Unary { operator, right } => {
                push_text(out, "(");
                push_text(out, operator.lexeme.as_str());
                push_text(out, " ");
                self.visit(right, out);
                push_text(out, ")");
                assert(out@ =~= old(out)@ + expr_text(expr@));
            },
            Expr::Variable { name, .. } => {
                push_text(out, "(var ");
                push_text(out, name.lexeme.as_str());
                push_text(out, ")");
                assert(out@ =~= old(out)@ + expr_text(expr@));
            },
            Expr::Assign { name, value, .. } => {
                push_text(out, "(assign ");
                push_text(out, name.lexeme.as_str());
                push_text(out, " ");
                self.visit(value, out);
                push_text(out, ")");
                assert(out@ =~= old(out)@ + expr_text(expr@));
            },
            Expr::LogicOr { left, right } => {
                push_text(out, "(or ");
                self.visit(left, out);
                push_text(out, " ");
                self.visit(right, out);
                push_text(out, ")");
                assert(out@ =~= old(out)@ + expr_text(expr@));
            },
            Expr::LogicAnd { left, right } => {
                push_text(out, "(and ");
                self.visit(left, out);
                push_text(out, " ");
                self.visit(right, out);
                push_text(out, ")");
                assert(out@ =~= old(out)@ + expr_text(expr@));
            },
            Expr::Call { callee, arguments, .. } => {
                proof {
                    lemma_expr_view_lists(*expr);
                }
                push_text(out, "(call ");
                self.visit(callee, out);
                let ghost head = out@;
                let mut i: usize = 0;
                assert(out@ =~= head + arguments_text(expr@, 0));
                while i < arguments.len()
                    invariant
                        i <= arguments.len(),
                        expr@->Call_arguments == expr_views(arguments@),
                        expr@ is Call,
                        *expr matches Expr::Call { arguments: a, .. } && a == arguments,
                        out@ == head + arguments_text(expr@, i as int),
                    decreases arguments.len() - i,
                {
                    push_text(out, " ");
                    self.visit(&arguments[i], out);
                    assert(out@ =~= head + arguments_text(expr@, i + 1));
                    i = i + 1;
                }
                push_text(out, ")");
                assert(out@ =~= old(out)@ + expr_text(expr@));
            },
            Expr::Lambda { params, body } => {
                proof {
                    lemma_expr_view_lists(*expr);
                }
                push_text(out, "(lambda (params");
                self.visit_names(params, out);
                push_text(out, ") (body");
                let ghost head = out@;
                let mut i: usize = 0;
                assert(out@ =~= head + lambda_body_text(expr@, 0));
                while i < body.len()
                    invariant
                        i <= body.len(),
                        expr@->Lambda_body == statement_views(body@),
                        expr@ is Lambda,
                        *expr matches Expr::Lambda { body: b, .. } && b == body,
                        out@ == head + lambda_body_text(expr@, i as int),
                    decreases body.len() - i,
                {
                    push_text(out, " ");
                    self.visit_statement(&body[i], 0, out);
                    assert(out@ =~= head + lambda_body_text(expr@, i + 1));
                    i = i + 1;
                }
                push_text(out, "))");
                assert(out@ =~= old(out)@ + expr_text(expr@));
            },
        }
    }

    /// The level one further in.
    fn deeper(level: usize) -> (r: usize)
        ensures
            r == deeper(level as nat),
    {
        if level < usize::MAX {
            level + 1
        } else {
            level
        }
    }

    /// Appends to `out` a statement on a line of its own at `level`.
    fn visit_line(&self, statement: &Statement, level: usize, out: &mut String)
        ensures
            final(out)@ == old(out)@ + line_text(statement@, level as nat),
        decreases statement, 2nat,
    {
        push_text(out, "\n");
        let margin = self.indent(level);
        push_text(out, margin.as_str());
        self.visit_statement(statement, level, out);
        assert(out@ =~= old(out)@ + line_text(statement@, level as nat));
    }

    /// Appends to `out` the statements of a block or of a function body, each
    /// on a line of its own at `one level further in.
    fn visit_children(
        &self,
        parent: &Statement,
        children: &Vec<Statement>,
        level: usize,
        out: &mut String,
    )
        requires
            match parent {
                Statement::Block { statements } => statements == children,
                Statement::Function { body, .. } => body == children,
                _ => false,
            },
        ensures
            final(out)@ == old(out)@ + children_text(
                parent@,
                children@.len() as int,
                level as nat,
            ),
        decreases parent, 0nat,
    {
        proof {
            lemma_statement_view_lists(*parent);
        }
        let mut i: usize = 0;
        assert(out@ =~= old(out)@ + children_text(parent@, 0, level as nat));
        while i < children.len()
            invariant
                i <= children.len(),
                match parent {
                    Statement::Block { statements } => statements == children
                        && parent@->Block_statements == statement_views(children@),
                    Statement::Function { body, .. } => body == children && parent@->Function_body
                        == statement_views(children@),
                    _ => false,
                },
                out@ == old(out)@ + children_text(parent@, i as int, level as nat),
            decreases children.len() - i,
        {
            self.visit_line(&children[i], Self::deeper(level), out);
            assert(out@ =~= old(out)@ + children_text(parent@, i + 1, level as nat));
            i = i + 1;
        }
    }

    /// Appends to `out` the printed form of a statement whose first line is
    /// at `level`.
    #[verifier::rlimit(60)]
    fn visit_statement(&self, statement: &Statement, level: usize, out: &mut String)
        ensures
            final(out)@ == old(out)@ + statement_text(statement@, level as nat),
        decreases statement, 1nat,
    {
        match statement {
            Statement::Expression { expression } => {
                push_text(out, "(expr ");
                self.visit(expression, out);
                push_text(out, ")");
                assert(out@ =~= old(out)@ + statement_text(statement@, level as nat));
            },
            Statement::Print { expression } => {
                push_text(out, "(print ");
                self.visit(expression, out);
                push_text(out, ")");
                assert(out@ =~= old(out)@ + statement_text(statement@, level as nat));
            },
            Statement::Var { name, initializer } => {
                push_text(out, "(var ");
                push_text(out, name.lexeme.as_str());
                match initializer {
                    Some(e) => {
                        push_text(out, " ");
                        self.visit(e, out);
                    },
                    None => {},
                }
                push_text(out, ")");
                assert(out@ =~= old(out)@ + statement_text(statement@, level as nat));
            },
            Statement::Block { statements } => {
                push_text(out, "(block");
                self.visit_children(statement, statements, level, out);
                push_text(out, ")");
                assert(out@ =~= old(out)@ + statement_text(statement@, level as nat));
            },
            Statement::If { condition, then_branch, else_branch } => {
                push_text(out, "(if ");
                self.visit(condition, out);
                self.visit_line(then_branch, Self::deeper(level), out);
                match else_branch {
                    Some(other) => {
                        self.visit_line(other, Self::deeper(level), out);
                    },
                    None => {},
                }
                push_text(out, ")");
                assert(out@ =~= old(out)@ + statement_text(statement@, level as nat));
            },
            Statement::While { condition, body } => {
                push_text(out, "(while ");
                self.visit(condition, out);
                self.visit_line(body, Self::deeper(level), out);
                push_text(out, ")");
                assert(out@ =~= old(out)@ + statement_text(statement@, level as nat));
            },
            Statement::Function { name, params, body } => {
                push_text(out, "(fun ");
                push_text(out, name.lexeme.as_str());
                push_text(out, " (params");
                self.visit_names(params, out);
                push_text(out, ")");
                self.visit_children(statement, body, level, out);
                push_text(out, ")");
                assert(out@ =~= old(out)@ + statement_text(statement@, level as nat));
            },
            Statement::Return { keyword: _, value } => {
                match value {
                    Some(e) => {
                        push_text(out, "(return ");
                        self.visit(e, out);
                        push_text(out, ")");
                    },
                    None => {
                        push_text(out, "(return)");
                    },
                }
                assert(out@ =~= old(out)@ + statement_text(statement@, level as nat));
            },
        }
    }
}


impl crate::ast::expr::ExprNode for Expr {
    open spec fn printed(&self) -> Seq<char> {
        expr_text(self@)
    }

    fn visit(&self) -> (r: String) {
        AstPrinter.print_to_string(self)
    }
}

} // verus!
