//! The static scope resolver: one pass over the program that fills in the
//! resolution slot of every variable reference and assignment.

use vstd::prelude::*;
use crate::ast::expr::{expr_views, lemma_expr_view_lists, Depth, Expr, ExprView};
use crate::ast::statement::{
    lemma_statement_view_lists, statement_views, Statement, StatementView,
};
use crate::lexer::scanner::token_views;
use crate::lexer::token::{Token, TokenView};
use crate::parser::error::{ParseError, ParseErrorView};
use crate::parser::resolution;
use crate::parser::resolution::DeclarationView;
use crate::parser::shape::{erase_expr, erase_stmt};
use crate::runtime::host::Host;
use crate::runtime::interpreter::Interpreter;
use crate::text::{push_text, str_equals};

verus! {

/// A name declared in a scope, and whether its initializer is done.
#[derive(Debug)]
pub struct Declaration {
    pub name: String,
    pub ready: bool,
}

impl View for Declaration {
    type V = DeclarationView;

    open spec fn view(&self) -> DeclarationView {
        DeclarationView { name: self.name@, ready: self.ready }
    }
}

/// The view of one scope.
pub open spec fn scope_view(scope: Vec<Declaration>) -> Seq<DeclarationView> {
    scope@.map_values(|d: Declaration| d@)
}

/// The views of a stack of scopes.
pub open spec fn scope_views(scopes: Seq<Vec<Declaration>>) -> Seq<Seq<DeclarationView>> {
    scopes.map_values(|s: Vec<Declaration>| scope_view(s))
}

/// Whether the code being resolved lies inside a function.
#[derive(Debug, Clone, Copy, PartialEq, Eq, Structural)]
pub enum FunctionType {
    TopLevel,
    Function,
}

/// The results of resolving each expression of `list` in the same scopes.
pub open spec fn expr_results(
    list: Seq<ExprView>,
    scopes: Seq<Seq<DeclarationView>>,
    in_function: bool,
) -> Seq<Result<ExprView, ParseErrorView>> {
    Seq::new(list.len(), |i: int| resolution::resolve_expr(list[i], scopes, in_function))
}

/// The results of resolving each statement of `list`, each in the scopes that
/// the statements before it leave.
pub open spec fn statement_results(
    list: Seq<StatementView>,
    scopes: Seq<Seq<DeclarationView>>,
    in_function: bool,
) -> Seq<Result<StatementView, ParseErrorView>> {
    Seq::new(
        list.len(),
        |i: int|
            resolution::resolve_stmt(list[i], resolution::scopes_at(list, i, scopes), in_function),
    )
}

/// Results that are all successes collect to their items.
pub proof fn lemma_collect_ok<T>(results: Seq<Result<T, ParseErrorView>>, items: Seq<T>)
    requires
        results.len() == items.len(),
        forall|i: int| 0 <= i < results.len() ==> results[i] == Ok::<T, ParseErrorView>(items[i]),
    ensures
        resolution::collect(results) == Ok::<Seq<T>, ParseErrorView>(items),
    decreases results.len(),
{
    if results.len() > 0 {
        lemma_collect_ok(results.drop_last(), items.drop_last());
        assert(items.drop_last().push(items.last()) =~= items);
    } else {
        assert(items =~= Seq::<T>::empty());
    }
}

/// Results collect to their first error.
pub proof fn lemma_collect_err<T>(results: Seq<Result<T, ParseErrorView>>, at: int, error: ParseErrorView)
    requires
        0 <= at < results.len(),
        forall|i: int| 0 <= i < at ==> (#[trigger] results[i]) is Ok,
        results[at] == Err::<T, ParseErrorView>(error),
    ensures
        resolution::collect(results) == Err::<Seq<T>, ParseErrorView>(error),
    decreases results.len(),
{
    if at == results.len() - 1 {
        let before = results.drop_last();
        let items = Seq::new(before.len(), |i: int| before[i]->Ok_0);
        lemma_collect_ok(before, items);
    } else {
        lemma_collect_err(results.drop_last(), at, error);
    }
}

/// Resolving a statement changes the innermost scope at most: the number of
/// scopes and all scopes around the innermost stay as they are.
pub proof fn lemma_after_keeps_outer(statement: StatementView, scopes: Seq<Seq<DeclarationView>>)
    ensures
        resolution::after(statement, scopes).len() == scopes.len(),
        resolution::after(statement, scopes).drop_last() == scopes.drop_last(),
    decreases statement,
{
    match statement {
        StatementView::Var { name, .. } => {
            let r = resolution::after(statement, scopes);
            assert(r.drop_last() =~= scopes.drop_last());
        },
        StatementView::Function { name, .. } => {
            let r = resolution::after(statement, scopes);
            assert(r.drop_last() =~= scopes.drop_last());
        },
        StatementView::If { then_branch, else_branch, .. } => {
            lemma_after_keeps_outer(*then_branch, scopes);
            match else_branch {
                Some(other) => {
                    lemma_after_keeps_outer(*other, resolution::after(*then_branch, scopes));
                },
                None => {},
            }
        },
        StatementView::While { body, .. } => {
            lemma_after_keeps_outer(*body, scopes);
        },
        _ => {},
    }
}

/// Resolving a run of statements changes the innermost scope at most.
pub proof fn lemma_scopes_at_keeps_outer(
    list: Seq<StatementView>,
    i: int,
    scopes: Seq<Seq<DeclarationView>>,
)
    ensures
        resolution::scopes_at(list, i, scopes).len() == scopes.len(),
        resolution::scopes_at(list, i, scopes).drop_last() == scopes.drop_last(),
    decreases i,
{
    if 0 < i <= list.len() {
        lemma_scopes_at_keeps_outer(list, i - 1, scopes);
        lemma_after_keeps_outer(list[i - 1], resolution::scopes_at(list, i - 1, scopes));
    }
}

/// The expression with another resolution slot, if it has one.
pub open spec fn with_depth(e: ExprView, depth: Depth) -> ExprView {
    match e {
        ExprView::Variable { name, .. } => ExprView::Variable { name, depth },
        ExprView::Assign { name, value, .. } => ExprView::Assign { name, value, depth },
        other => other,
    }
}

/// The resolution slot of the expression, if it has one.
pub open spec fn depth_of(e: ExprView) -> Depth {
    match e {
        ExprView::Variable { depth, .. } => depth,
        ExprView::Assign { depth, .. } => depth,
        _ => Depth::Unresolved,
    }
}

/// The resolver's state: the interpreter that will run the program, the
/// stack of scopes, and whether the code at hand lies inside a function.
pub struct Resolver<'r, 'a, H: Host> {
    interpreter: &'r mut Interpreter<'a, H>,
    scopes: Vec<Vec<Declaration>>,
    current_function: FunctionType,
}

impl<'r, 'a, H: Host> Resolver<'r, 'a, H> {
    /// The stack of scopes, innermost last.
    pub closed spec fn scopes(&self) -> Seq<Seq<DeclarationView>> {
        scope_views(self.scopes@)
    }

    /// Whether the code at hand lies inside a function.
    pub closed spec fn in_function(&self) -> bool {
        self.current_function == FunctionType::Function
    }

    /// A resolver at the top level of a program: no scope is open and no
    /// function is entered.
    pub fn new(interpreter: &'r mut Interpreter<'a, H>) -> (r: Self)
        ensures
            r.scopes() == Seq::<Seq<DeclarationView>>::empty(),
            !r.in_function(),
    {
        let r = Resolver { interpreter, scopes: Vec::new(), current_function: FunctionType::TopLevel };
        assert(r.scopes() =~= Seq::<Seq<DeclarationView>>::empty());
        r
    }

    /// The error reported at `token`.
    fn error(token: &Token, message: &str) -> (r: ParseError)
        ensures
            r@ == resolution::error_at(token@, message@),
    {
        let mut text = String::new();
        push_text(&mut text, "At '");
        push_text(&mut text, token.lexeme.as_str());
        push_text(&mut text, "': ");
        push_text(&mut text, message);
        assert(text@ =~= resolution::error_at(token@, message@).message);
        ParseError::new(token.line, text)
    }

    /// Where `scope` declares `name`, if it does.
    fn find(name: &str, scope: &Vec<Declaration>) -> (r: Option<usize>)
        ensures
            match r {
                Some(i) => resolution::position(scope_view(*scope), name@, 0) == Some(i as int)
                    && i < scope.len(),
                None => resolution::position(scope_view(*scope), name@, 0).is_none(),
            },
    {
        let mut i: usize = 0;
        while i < scope.len()
            invariant
                i <= scope.len(),
                resolution::position(scope_view(*scope), name@, i as int) == resolution::position(
                    scope_view(*scope),
                    name@,
                    0,
                ),
            decreases scope.len() - i,
        {
            if str_equals(scope[i].name.as_str(), name) {
                return Some(i);
            }
            i = i + 1;
        }
        None
    }

    /// Whether `scope` declares `name`.
    fn is_declared(name: &str, scope: &Vec<Declaration>) -> (r: bool)
        ensures
            r == resolution::declares(scope_view(*scope), name@),
    {
        Self::find(name, scope).is_some()
    }

    /// Whether `scope` declares the name, and if so whether it is ready.
    fn get(name: &Token, scope: &Vec<Declaration>) -> (r: Option<bool>)
        ensures
            r == resolution::status(scope_view(*scope), name@.lexeme),
    {
        match Self::find(name.lexeme.as_str(), scope) {
            Some(i) => Some(scope[i].ready),
            None => None,
        }
    }

    /// The innermost scope, if any scope is open.
    fn get_top(&self) -> (r: Option<&Vec<Declaration>>)
        ensures
            match r {
                Some(top) => self.scopes().len() > 0 && scope_view(*top) == self.scopes().last(),
                None => self.scopes().len() == 0,
            },
    {
        if self.scopes.len() > 0 {
            Some(&self.scopes[self.scopes.len() - 1])
        } else {
            None
        }
    }

    fn begin_scope(&mut self)
        ensures
            final(self).scopes() == resolution::begin_scope(old(self).scopes()),
            final(self).in_function() == old(self).in_function(),
    {
        let scope: Vec<Declaration> = Vec::new();
        assert(scope_view(scope) =~= Seq::<DeclarationView>::empty());
        self.scopes.push(scope);
        assert(self.scopes() =~= resolution::begin_scope(old(self).scopes()));
    }

    fn end_scope(&mut self)
        ensures
            final(self).scopes() == if old(self).scopes().len() > 0 {
                old(self).scopes().drop_last()
            } else {
                old(self).scopes()
            },
            final(self).in_function() == old(self).in_function(),
    {
        if self.scopes.len() > 0 {
            self.scopes.pop();
            assert(self.scopes() =~= old(self).scopes().drop_last());
        }
    }

    /// Marks `name` in the innermost scope.
    fn mark(&mut self, name: &str, ready: bool)
        requires
            old(self).scopes().len() > 0,
        ensures
            final(self).scopes() == old(self).scopes().update(
                old(self).scopes().len() - 1,
                resolution::marked(old(self).scopes().last(), name@, ready),
            ),
            final(self).in_function() == old(self).in_function(),
    {
        let top = self.scopes.len() - 1;
        let mut owned = String::new();
        push_text(&mut owned, name);
        assert(owned@ =~= name@);
        let found = Self::find(name, &self.scopes[top]);
        let ghost before = scope_view(self.scopes@[top as int]);
        match found {
            Some(i) => {
                self.scopes[top].set(i, Declaration { name: owned, ready });
            },
            None => {
                self.scopes[top].push(Declaration { name: owned, ready });
            },
        }
        assert(scope_view(self.scopes@[top as int]) =~= resolution::marked(before, name@, ready));
        assert(self.scopes() =~= old(self).scopes().update(
            old(self).scopes().len() - 1,
            resolution::marked(old(self).scopes().last(), name@, ready),
        ));
    }

    /// Declares `name` in the innermost scope, not yet ready.
    fn declare(&mut self, name: &Token) -> (r: Result<(), ParseError>)
        ensures
            final(self).in_function() == old(self).in_function(),
            match r {
                Ok(_) => resolution::declare(old(self).scopes(), name@) == Ok::<
                    Seq<Seq<DeclarationView>>,
                    ParseErrorView,
                >(final(self).scopes()),
                Err(e) => resolution::declare(old(self).scopes(), name@) == Err::<
                    Seq<Seq<DeclarationView>>,
                    ParseErrorView,
                >(e@) && final(self).scopes() == old(self).scopes(),
            },
    {
        let declared = match self.get_top() {
            Some(top) => Self::is_declared(name.lexeme.as_str(), top),
            None => {
                return Ok(());
            },
        };
        if declared {
            return Err(
                Self::error(name, "Variable with this name already declared in this scope"),
            );
        }
        self.mark(name.lexeme.as_str(), false);
        Ok(())
    }

    /// Marks `name` as ready in the innermost scope.
    fn define(&mut self, name: &Token)
        ensures
            final(self).scopes() == resolution::define(old(self).scopes(), name@.lexeme),
            final(self).in_function() == old(self).in_function(),
    {
        if self.scopes.len() == 0 {
            return ;
        }
        self.mark(name.lexeme.as_str(), true);
    }

    /// Writes into `expression` the distance to the nearest declaration of
    /// `name`; leaves it as it is if no scope declares the name.
    fn resolve_local(&mut self, expression: &mut Expr, name: &Token)
        ensures
            final(self).scopes() == old(self).scopes(),
            final(self).in_function() == old(self).in_function(),
            final(expression)@ == with_depth(
                old(expression)@,
                resolution::resolved(old(self).scopes(), name@.lexeme, depth_of(old(expression)@)),
            ),
            erase_expr(final(expression)@) == erase_expr(old(expression)@),
    {
        let ghost scopes = self.scopes();
        let mut i: usize = self.scopes.len();
        assert(scopes.take(i as int) =~= scopes);
        while i > 0
            invariant
                i <= self.scopes.len(),
                scopes == self.scopes(),
                scopes == old(self).scopes(),
                self.in_function() == old(self).in_function(),
                *expression == *old(expression),
                resolution::distance(scopes, name@.lexeme) == match resolution::distance(
                    scopes.take(i as int),
                    name@.lexeme,
                ) {
                    Some(d) => Some((d + (scopes.len() - i)) as nat),
                    None => None,
                },
            decreases i,
        {
            i = i - 1;
            proof {
                let upto = scopes.take(i + 1);
                assert(upto.drop_last() =~= scopes.take(i as int));
                assert(upto.last() == scopes[i as int]);
            }
            if Self::is_declared(name.lexeme.as_str(), &self.scopes[i]) {
                let hops = self.scopes.len() - 1 - i;
                self.interpreter.resolve(expression, hops);
                return ;
            }
        }
        assert(scopes.take(0) =~= Seq::<Seq<DeclarationView>>::empty());
    }
}


/// Introducing parameters changes the innermost scope at most.
pub proof fn lemma_with_parameters_keeps_outer(
    scopes: Seq<Seq<DeclarationView>>,
    params: Seq<TokenView>,
    count: int,
)
    ensures
        resolution::with_parameters(scopes, params, count) matches Ok(inner) ==> inner.len()
            == scopes.len() && inner.drop_last() == scopes.drop_last(),
    decreases count,
{
    if count > 0 {
        lemma_with_parameters_keeps_outer(scopes, params, count - 1);
        match resolution::with_parameters(scopes, params, count - 1) {
            Ok(so_far) => {
                match resolution::introduce(so_far, params[count - 1]) {
                    Ok(inner) => {
                        assert(inner.drop_last() =~= so_far.drop_last());
                    },
                    Err(_) => {},
                }
            },
            Err(_) => {},
        }
    }
}

/// Whether two runs of statements are the same but for their resolution
/// slots.
pub open spec fn same_shapes(before: Seq<Statement>, after: Seq<Statement>) -> bool {
    &&& after.len() == before.len()
    &&& forall|j: int|
        0 <= j < before.len() ==> erase_stmt((#[trigger] after[j])@) == erase_stmt(before[j]@)
}

/// What a resolution step on an expression has done: on success the
/// expression is resolved and the resolver's state is as it was; on failure
/// the error is the one that resolution gives.
pub open spec fn expr_outcome(
    r: Result<(), ParseError>,
    before: ExprView,
    after: ExprView,
    scopes: Seq<Seq<DeclarationView>>,
    in_function: bool,
    scopes_after: Seq<Seq<DeclarationView>>,
    in_function_after: bool,
) -> bool {
    match r {
        Ok(_) => resolution::resolve_expr(before, scopes, in_function) == Ok::<
            ExprView,
            ParseErrorView,
        >(after) && scopes_after == scopes && in_function_after == in_function,
        Err(e) => resolution::resolve_expr(before, scopes, in_function) == Err::<
            ExprView,
            ParseErrorView,
        >(e@),
    }
}

/// What a resolution step on a statement has done: on success the statement
/// is resolved and the scopes are those that the statement leaves; on
/// failure the error is the one that resolution gives.
pub open spec fn stmt_outcome(
    r: Result<(), ParseError>,
    before: StatementView,
    after: StatementView,
    scopes: Seq<Seq<DeclarationView>>,
    in_function: bool,
    scopes_after: Seq<Seq<DeclarationView>>,
    in_function_after: bool,
) -> bool {
    match r {
        Ok(_) => resolution::resolve_stmt(before, scopes, in_function) == Ok::<
            StatementView,
            ParseErrorView,
        >(after) && scopes_after == resolution::after(before, scopes) && in_function_after
            == in_function,
        Err(e) => resolution::resolve_stmt(before, scopes, in_function) == Err::<
            StatementView,
            ParseErrorView,
        >(e@),
    }
}

/// What a resolution step on a run of statements has done.
pub open spec fn list_outcome(
    r: Result<(), ParseError>,
    before: Seq<StatementView>,
    after: Seq<StatementView>,
    scopes: Seq<Seq<DeclarationView>>,
    in_function: bool,
    scopes_after: Seq<Seq<DeclarationView>>,
    in_function_after: bool,
) -> bool {
    match r {
        Ok(_) => resolution::collect(statement_results(before, scopes, in_function)) == Ok::<
            Seq<StatementView>,
            ParseErrorView,
        >(after) && scopes_after == resolution::scopes_at(before, before.len() as int, scopes)
            && in_function_after == in_function,
        Err(e) => resolution::collect(statement_results(before, scopes, in_function)) == Err::<
            Seq<StatementView>,
            ParseErrorView,
        >(e@),
    }
}

/// What resolving a function's body in the scopes of the function gives.
pub open spec fn function_outcome(
    r: Result<(), ParseError>,
    params: Seq<TokenView>,
    before: Seq<StatementView>,
    after: Seq<StatementView>,
    scopes: Seq<Seq<DeclarationView>>,
    in_function: bool,
    scopes_after: Seq<Seq<DeclarationView>>,
    in_function_after: bool,
) -> bool {
    match resolution::function_scopes(scopes, params) {
        Err(e) => r is Err && r->Err_0@ == e,
        Ok(inner) => match r {
            Ok(_) => resolution::collect(statement_results(before, inner, true)) == Ok::<
                Seq<StatementView>,
                ParseErrorView,
            >(after) && scopes_after == scopes && in_function_after == in_function,
            Err(e) => resolution::collect(statement_results(before, inner, true)) == Err::<
                Seq<StatementView>,
                ParseErrorView,
            >(e@),
        },
    }
}

impl<'r, 'a, H: Host> Resolver<'r, 'a, H> {
    /// Resolves a statement in place.
    pub fn resolve(&mut self, statement: &mut Statement) -> (r: Result<(), ParseError>)
        ensures
            stmt_outcome(
                r,
                old(statement)@,
                final(statement)@,
                old(self).scopes(),
                old(self).in_function(),
                final(self).scopes(),
                final(self).in_function(),
            ),
            erase_stmt(final(statement)@) == erase_stmt(old(statement)@),
        decreases *old(statement), 1nat,
    {
        match statement {
            Statement::Expression { expression } => self.resolve_expression(expression),
            Statement::Print { .. } => self.resolve_print_statement(statement),
            Statement::Var { .. } => self.resolve_var_statement(statement),
            Statement::Block { statements } => {
                let r = self.resolve_block(statements);
                proof {
                    lemma_statement_view_lists(*old(statement));
                    lemma_statement_view_lists(*statement);
                    let list = statement_views(old(statement)->Block_statements@);
                    let inner = resolution::begin_scope(old(self).scopes());
                    assert(resolution::body_results(
                        old(statement)@,
                        inner,
                        old(self).in_function(),
                    ) =~= statement_results(list, inner, old(self).in_function()));
                    assert(erase_stmt(statement@)->Block_statements =~= erase_stmt(
                        old(statement)@,
                    )->Block_statements);
                }
                r
            },
            Statement::If { .. } => self.resolve_if_statement(statement),
            Statement::While { .. } => self.resolve_while_statement(statement),
            Statement::Function { .. } => self.resolve_function_statement(statement),
            Statement::Return { .. } => self.resolve_return_statement(statement),
        }
    }

    /// Resolves an expression in place.
    #[verifier::rlimit(50)]
    pub fn resolve_expression(&mut self, expression: &mut Expr) -> (r: Result<(), ParseError>)
        ensures
            expr_outcome(
                r,
                old(expression)@,
                final(expression)@,
                old(self).scopes(),
                old(self).in_function(),
                final(self).scopes(),
                final(self).in_function(),
            ),
            erase_expr(final(expression)@) == erase_expr(old(expression)@),
        decreases *old(expression), 1nat,
    {
        match expression {
            Expr::Binary { .. } => self.resolve_binary_expr(expression),
            Expr::Literal { .. } => Ok(()),
            Expr::Grouping { .. } => self.resolve_grouping_expr(expression),
            Expr::Unary { .. } => self.resolve_unary_expr(expression),
            Expr::Variable { .. } => self.resolve_variable_expr(expression),
            Expr::Assign { .. } => self.resolve_assign_expr(expression),
            Expr::LogicOr { .. } => self.resolve_logic_expr(expression),
            Expr::LogicAnd { .. } => self.resolve_logic_expr(expression),
            Expr::Call { .. } => self.resolve_call_expr(expression),
            Expr::Lambda { params, body } => {
                let r = self.resolve_function(params, body, FunctionType::Function);
                proof {
                    lemma_expr_view_lists(*old(expression));
                    lemma_expr_view_lists(*expression);
                    let list = statement_views(old(expression)->Lambda_body@);
                    match resolution::function_scopes(
                        old(self).scopes(),
                        token_views(old(expression)->Lambda_params@),
                    ) {
                        Ok(inner) => {
                            assert(resolution::lambda_results(old(expression)@, inner)
                                =~= statement_results(list, inner, true));
                        },
                        Err(_) => {},
                    }
                    assert(erase_expr(expression@)->Lambda_body =~= erase_expr(
                        old(expression)@,
                    )->Lambda_body);
                }
                r
            },
        }
    }

    /// Resolves a whole program in place: every statement in order, up to the
    /// first error.
    pub fn resolve_statements(&mut self, statements: &mut Vec<Statement>) -> (r: Result<
        (),
        ParseError,
    >)
        ensures
            list_outcome(
                r,
                statement_views(old(statements)@),
                statement_views(final(statements)@),
                old(self).scopes(),
                old(self).in_function(),
                final(self).scopes(),
                final(self).in_function(),
            ),
            same_shapes(old(statements)@, final(statements)@),
        decreases *old(statements), 0nat,
    {
        let ghost before = statements@;
        let ghost list = statement_views(before);
        let ghost start = self.scopes();
        let ghost in_function = self.in_function();
        let ghost results = statement_results(list, start, in_function);
        let mut i: usize = 0;
        while i < statements.len()
            invariant
                i <= statements.len(),
                statements@.len() == before.len(),
                before == old(statements)@,
                list == statement_views(before),
                start == old(self).scopes(),
                in_function == old(self).in_function(),
                results == statement_results(list, start, in_function),
                self.in_function() == in_function,
                self.scopes() == resolution::scopes_at(list, i as int, start),
                forall|j: int| i <= j < before.len() ==> statements@[j] == before[j],
                same_shapes(before, statements@),
                forall|j: int|
                    #![trigger results[j]]
                    #![trigger statements@[j]]
                    0 <= j < i ==> results[j] == Ok::<StatementView, ParseErrorView>(
                        statements@[j]@,
                    ),
            decreases statements.len() - i,
        {
            match self.resolve(&mut statements[i]) {
                Ok(_) => {},
                Err(e) => {
                    proof {
                        lemma_collect_err(results, i as int, e@);
                    }
                    return Err(e);
                },
            }
            i = i + 1;
        }
        proof {
            lemma_collect_ok(results, statement_views(statements@));
        }
        Ok(())
    }

    /// Resolves the statements of a block in a new scope.
    fn resolve_block(&mut self, statements: &mut Vec<Statement>) -> (r: Result<(), ParseError>)
        ensures
            match r {
                Ok(_) => resolution::collect(
                    statement_results(
                        statement_views(old(statements)@),
                        resolution::begin_scope(old(self).scopes()),
                        old(self).in_function(),
                    ),
                ) == Ok::<Seq<StatementView>, ParseErrorView>(statement_views(final(statements)@))
                    && final(self).scopes() == old(self).scopes() && final(self).in_function()
                    == old(self).in_function(),
                Err(e) => resolution::collect(
                    statement_results(
                        statement_views(old(statements)@),
                        resolution::begin_scope(old(self).scopes()),
                        old(self).in_function(),
                    ),
                ) == Err::<Seq<StatementView>, ParseErrorView>(e@),
            },
            same_shapes(old(statements)@, final(statements)@),
        decreases *old(statements), 1nat,
    {
        self.begin_scope();
        match self.resolve_statements(statements) {
            Ok(_) => {},
            Err(e) => {
                return Err(e);
            },
        }
        proof {
            let list = statement_views(old(statements)@);
            let inner = resolution::begin_scope(old(self).scopes());
            lemma_scopes_at_keeps_outer(list, list.len() as int, inner);
            assert(inner.drop_last() =~= old(self).scopes());
        }
        self.end_scope();
        Ok(())
    }

    fn resolve_var_statement(&mut self, statement: &mut Statement) -> (r: Result<(), ParseError>)
        requires
            *old(statement) is Var,
        ensures
            stmt_outcome(
                r,
                old(statement)@,
                final(statement)@,
                old(self).scopes(),
                old(self).in_function(),
                final(self).scopes(),
                final(self).in_function(),
            ),
            erase_stmt(final(statement)@) == erase_stmt(old(statement)@),
        decreases *old(statement), 0nat,
    {
        match statement {
            Statement::Var { name, initializer } => {
                match self.declare(name) {
                    Ok(_) => {},
                    Err(e) => {
                        return Err(e);
                    },
                }
                match initializer {
                    Some(given) => {
                        match self.resolve_expression(given) {
                            Ok(_) => {},
                            Err(e) => {
                                return Err(e);
                            },
                        }
                    },
                    None => {},
                }
                self.define(name);
                Ok(())
            },
            _ => Ok(()),
        }
    }

    fn resolve_if_statement(&mut self, statement: &mut Statement) -> (r: Result<(), ParseError>)
        requires
            *old(statement) is If,
        ensures
            stmt_outcome(
                r,
                old(statement)@,
                final(statement)@,
                old(self).scopes(),
                old(self).in_function(),
                final(self).scopes(),
                final(self).in_function(),
            ),
            erase_stmt(final(statement)@) == erase_stmt(old(statement)@),
        decreases *old(statement), 0nat,
    {
        match statement {
            Statement::If { condition, then_branch, else_branch } => {
                match self.resolve_expression(condition) {
                    Ok(_) => {},
                    Err(e) => {
                        return Err(e);
                    },
                }
                match self.resolve(&mut **then_branch) {
                    Ok(_) => {},
                    Err(e) => {
                        return Err(e);
                    },
                }
                match else_branch {
                    Some(other) => {
                        match self.resolve(&mut **other) {
                            Ok(_) => {},
                            Err(e) => {
                                return Err(e);
                            },
                        }
                    },
                    None => {},
                }
                Ok(())
            },
            _ => Ok(()),
        }
    }

    fn resolve_print_statement(&mut self, statement: &mut Statement) -> (r: Result<(), ParseError>)
        requires
            *old(statement) is Print,
        ensures
            stmt_outcome(
                r,
                old(statement)@,
                final(statement)@,
                old(self).scopes(),
                old(self).in_function(),
                final(self).scopes(),
                final(self).in_function(),
            ),
            erase_stmt(final(statement)@) == erase_stmt(old(statement)@),
        decreases *old(statement), 0nat,
    {
        match statement {
            Statement::Print { expression } => self.resolve_expression(expression),
            _ => Ok(()),
        }
    }

    fn resolve_return_statement(&mut self, statement: &mut Statement) -> (r: Result<
        (),
        ParseError,
    >)
        requires
            *old(statement) is Return,
        ensures
            stmt_outcome(
                r,
                old(statement)@,
                final(statement)@,
                old(self).scopes(),
                old(self).in_function(),
                final(self).scopes(),
                final(self).in_function(),
            ),
            erase_stmt(final(statement)@) == erase_stmt(old(statement)@),
        decreases *old(statement), 0nat,
    {
        match statement {
            Statement::Return { keyword, value } => {
                if self.current_function == FunctionType::TopLevel {
                    return Err(Self::error(keyword, "Can't return from top-level code"));
                }
                match value {
                    Some(given) => self.resolve_expression(given),
                    None => Ok(()),
                }
            },
            _ => Ok(()),
        }
    }

    fn resolve_while_statement(&mut self, statement: &mut Statement) -> (r: Result<(), ParseError>)
        requires
            *old(statement) is While,
        ensures
            stmt_outcome(
                r,
                old(statement)@,
                final(statement)@,
                old(self).scopes(),
                old(self).in_function(),
                final(self).scopes(),
                final(self).in_function(),
            ),
            erase_stmt(final(statement)@) == erase_stmt(old(statement)@),
        decreases *old(statement), 0nat,
    {
        match statement {
            Statement::While { condition, body } => {
                match self.resolve_expression(condition) {
                    Ok(_) => {},
                    Err(e) => {
                        return Err(e);
                    },
                }
                self.resolve(&mut **body)
            },
            _ => Ok(()),
        }
    }

    fn resolve_function_statement(&mut self, statement: &mut Statement) -> (r: Result<
        (),
        ParseError,
    >)
        requires
            *old(statement) is Function,
        ensures
            stmt_outcome(
                r,
                old(statement)@,
                final(statement)@,
                old(self).scopes(),
                old(self).in_function(),
                final(self).scopes(),
                final(self).in_function(),
            ),
            erase_stmt(final(statement)@) == erase_stmt(old(statement)@),
        decreases *old(statement), 0nat,
    {
        match statement {
            Statement::Function { name, params, body } => {
                match self.declare(name) {
                    Ok(_) => {},
                    Err(e) => {
                        return Err(e);
                    },
                }
                self.define(name);
                let ghost outer = self.scopes();
                let r = self.resolve_function(params, body, FunctionType::Function);
                proof {
                    lemma_statement_view_lists(*old(statement));
                    lemma_statement_view_lists(*statement);
                    let list = statement_views(old(statement)->Function_body@);
                    match resolution::function_scopes(
                        outer,
                        token_views(old(statement)->Function_params@),
                    ) {
                        Ok(inner) => {
                            assert(resolution::body_results(old(statement)@, inner, true)
                                =~= statement_results(list, inner, true));
                        },
                        Err(_) => {},
                    }
                    assert(erase_stmt(statement@)->Function_body =~= erase_stmt(
                        old(statement)@,
                    )->Function_body);
                }
                r
            },
            _ => Ok(()),
        }
    }

    /// Resolves the body of a function: in a scope that holds the
    /// parameters, as a block.
    fn resolve_function(
        &mut self,
        params: &Vec<Token>,
        body: &mut Vec<Statement>,
        function_type: FunctionType,
    ) -> (r: Result<(), ParseError>)
        requires
            function_type == FunctionType::Function,
        ensures
            function_outcome(
                r,
                token_views(params@),
                statement_views(old(body)@),
                statement_views(final(body)@),
                old(self).scopes(),
                old(self).in_function(),
                final(self).scopes(),
                final(self).in_function(),
            ),
            same_shapes(old(body)@, final(body)@),
        decreases *old(body), 2nat,
    {
        let enclosing_function = self.current_function;
        self.current_function = function_type;
        self.begin_scope();
        let ghost outer = old(self).scopes();
        let ghost first = resolution::begin_scope(outer);
        let ghost names = token_views(params@);
        let mut i: usize = 0;
        while i < params.len()
            invariant
                i <= params.len(),
                *body == *old(body),
                outer == old(self).scopes(),
                first == resolution::begin_scope(outer),
                names == token_views(params@),
                self.current_function == function_type,
                function_type == FunctionType::Function,
                enclosing_function == old(self).current_function,
                resolution::with_parameters(first, names, i as int) == Ok::<
                    Seq<Seq<DeclarationView>>,
                    ParseErrorView,
                >(self.scopes()),
            decreases params.len() - i,
        {
            match self.declare(&params[i]) {
                Ok(_) => {},
                Err(e) => {
                    proof {
                        lemma_parameters_fail(first, names, i as int + 1, names.len() as int);
                    }
                    return Err(e);
                },
            }
            self.define(&params[i]);
            i = i + 1;
        }
        match self.resolve_block(body) {
            Ok(_) => {},
            Err(e) => {
                return Err(e);
            },
        }
        proof {
            lemma_with_parameters_keeps_outer(first, names, names.len() as int);
            assert(first.drop_last() =~= outer);
        }
        self.end_scope();
        self.current_function = enclosing_function;
        Ok(())
    }

    fn resolve_assign_expr(&mut self, expression: &mut Expr) -> (r: Result<(), ParseError>)
        requires
            *old(expression) is Assign,
        ensures
            expr_outcome(
                r,
                old(expression)@,
                final(expression)@,
                old(self).scopes(),
                old(self).in_function(),
                final(self).scopes(),
                final(self).in_function(),
            ),
            erase_expr(final(expression)@) == erase_expr(old(expression)@),
        decreases *old(expression), 0nat,
    {
        let name = match expression {
            Expr::Assign { name, value, .. } => {
                match self.resolve_expression(&mut **value) {
                    Ok(_) => {},
                    Err(e) => {
                        return Err(e);
                    },
                }
                name.clone()
            },
            _ => {
                return Ok(());
            },
        };
        self.resolve_local(expression, &name);
        Ok(())
    }

    fn resolve_variable_expr(&mut self, expression: &mut Expr) -> (r: Result<(), ParseError>)
        requires
            *old(expression) is Variable,
        ensures
            expr_outcome(
                r,
                old(expression)@,
                final(expression)@,
                old(self).scopes(),
                old(self).in_function(),
                final(self).scopes(),
                final(self).in_function(),
            ),
            erase_expr(final(expression)@) == erase_expr(old(expression)@),
        decreases *old(expression), 0nat,
    {
        let name = match expression {
            Expr::Variable { name, .. } => name.clone(),
            _ => {
                return Ok(());
            },
        };
        let unready = match self.get_top() {
            Some(top) => match Self::get(&name, top) {
                Some(ready) => !ready,
                None => false,
            },
            None => false,
        };
        if unready {
            return Err(Self::error(&name, "Can't read local variable in its own initializer"));
        }
        self.resolve_local(expression, &name);
        Ok(())
    }

    fn resolve_binary_expr(&mut self, expression: &mut Expr) -> (r: Result<(), ParseError>)
        requires
            *old(expression) is Binary,
        ensures
            expr_outcome(
                r,
                old(expression)@,
                final(expression)@,
                old(self).scopes(),
                old(self).in_function(),
                final(self).scopes(),
                final(self).in_function(),
            ),
            erase_expr(final(expression)@) == erase_expr(old(expression)@),
        decreases *old(expression), 0nat,
    {
        match expression {
            Expr::Binary { left, right, .. } => {
                match self.resolve_expression(&mut **left) {
                    Ok(_) => {},
                    Err(e) => {
                        return Err(e);
                    },
                }
                self.resolve_expression(&mut **right)
            },
            _ => Ok(()),
        }
    }

    fn resolve_call_expr(&mut self, expression: &mut Expr) -> (r: Result<(), ParseError>)
        requires
            *old(expression) is Call,
        ensures
            expr_outcome(
                r,
                old(expression)@,
                final(expression)@,
                old(self).scopes(),
                old(self).in_function(),
                final(self).scopes(),
                final(self).in_function(),
            ),
            erase_expr(final(expression)@) == erase_expr(old(expression)@),
        decreases *old(expression), 0nat,
    {
        proof {
            lemma_expr_view_lists(*old(expression));
        }
        match expression {
            Expr::Call { callee, arguments, .. } => {
                match self.resolve_expression(&mut **callee) {
                    Ok(_) => {},
                    Err(e) => {
                        return Err(e);
                    },
                }
                let ghost before = arguments@;
                let ghost list = expr_views(before);
                let ghost scopes = self.scopes();
                let ghost in_function = self.in_function();
                let ghost results = expr_results(list, scopes, in_function);
                proof {
                    assert(resolution::argument_results(old(expression)@, scopes, in_function)
                        =~= results);
                }
                let mut i: usize = 0;
                let mut failure: Option<ParseError> = None;
                while i < arguments.len() && failure.is_none()
                    invariant
                        i <= arguments.len(),
                        arguments@.len() == before.len(),
                        before == old(expression)->Call_arguments@,
                        *old(expression) is Call,
                        list == expr_views(before),
                        scopes == old(self).scopes(),
                        in_function == old(self).in_function(),
                        results == expr_results(list, scopes, in_function),
                        results == resolution::argument_results(
                            old(expression)@,
                            scopes,
                            in_function,
                        ),
                        failure is None ==> self.in_function() == in_function && self.scopes()
                            == scopes,
                        forall|j: int| i <= j < before.len() ==> arguments@[j] == before[j],
                        erase_expr((**callee)@) == erase_expr(old(expression)->Call_callee@),
                        forall|j: int|
                            0 <= j < before.len() ==> erase_expr((#[trigger] arguments@[j])@)
                                == erase_expr(before[j]@),
                        resolution::resolve_expr(
                            old(expression)->Call_callee@,
                            scopes,
                            in_function,
                        ) == Ok::<ExprView, ParseErrorView>((**callee)@),
                        failure matches Some(e) ==> resolution::collect(results) == Err::<
                            Seq<ExprView>,
                            ParseErrorView,
                        >(e@),
                        failure is None ==> forall|j: int|
                            #![trigger results[j]]
                            #![trigger arguments@[j]]
                            0 <= j < i ==> results[j] == Ok::<ExprView, ParseErrorView>(
                                arguments@[j]@,
                            ),
                    decreases arguments.len() - i,
                {
                    let ghost earlier = arguments@;
                    match self.resolve_expression(&mut arguments[i]) {
                        Ok(_) => {},
                        Err(e) => {
                            proof {
                                lemma_collect_err(results, i as int, e@);
                            }
                            failure = Some(e);
                        },
                    }
                    proof {
                        assert forall|j: int| 0 <= j < before.len() implies erase_expr(
                            (#[trigger] arguments@[j])@,
                        ) == erase_expr(before[j]@) by {
                            if j != i {
                                assert(arguments@[j] == earlier[j]);
                            }
                        }
                    }
                    i = i + 1;
                }
                proof {
                    if failure is None {
                        lemma_collect_ok(results, expr_views(arguments@));
                    }
                }
                match failure {
                    Some(e) => {
                        proof {
                            let now = Expr::Call {
                                callee: *callee,
                                paren: old(expression)->Call_paren,
                                arguments: *arguments,
                            };
                            lemma_expr_view_lists(now);
                            assert(erase_expr(now@)->Call_arguments =~= erase_expr(
                                old(expression)@,
                            )->Call_arguments);
                        }
                        return Err(e);
                    },
                    None => {},
                }
            },
            _ => {},
        }
        proof {
            lemma_expr_view_lists(*expression);
            assert(erase_expr(expression@)->Call_arguments =~= erase_expr(
                old(expression)@,
            )->Call_arguments);
        }
        Ok(())
    }

    fn resolve_grouping_expr(&mut self, expression: &mut Expr) -> (r: Result<(), ParseError>)
        requires
            *old(expression) is Grouping,
        ensures
            expr_outcome(
                r,
                old(expression)@,
                final(expression)@,
                old(self).scopes(),
                old(self).in_function(),
                final(self).scopes(),
                final(self).in_function(),
            ),
            erase_expr(final(expression)@) == erase_expr(old(expression)@),
        decreases *old(expression), 0nat,
    {
        match expression {
            Expr::Grouping { expression: inner } => self.resolve_expression(&mut **inner),
            _ => Ok(()),
        }
    }

    fn resolve_logic_expr(&mut self, expression: &mut Expr) -> (r: Result<(), ParseError>)
        requires
            *old(expression) is LogicOr || *old(expression) is LogicAnd,
        ensures
            expr_outcome(
                r,
                old(expression)@,
                final(expression)@,
                old(self).scopes(),
                old(self).in_function(),
                final(self).scopes(),
                final(self).in_function(),
            ),
            erase_expr(final(expression)@) == erase_expr(old(expression)@),
        decreases *old(expression), 0nat,
    {
        match expression {
            Expr::LogicOr { left, right } => {
                match self.resolve_expression(&mut **left) {
                    Ok(_) => {},
                    Err(e) => {
                        return Err(e);
                    },
                }
                self.resolve_expression(&mut **right)
            },
            Expr::LogicAnd { left, right } => {
                match self.resolve_expression(&mut **left) {
                    Ok(_) => {},
                    Err(e) => {
                        return Err(e);
                    },
                }
                self.resolve_expression(&mut **right)
            },
            _ => Ok(()),
        }
    }

    fn resolve_unary_expr(&mut self, expression: &mut Expr) -> (r: Result<(), ParseError>)
        requires
            *old(expression) is Unary,
        ensures
            expr_outcome(
                r,
                old(expression)@,
                final(expression)@,
                old(self).scopes(),
                old(self).in_function(),
                final(self).scopes(),
                final(self).in_function(),
            ),
            erase_expr(final(expression)@) == erase_expr(old(expression)@),
        decreases *old(expression), 0nat,
    {
        match expression {
            Expr::Unary { right, .. } => self.resolve_expression(&mut **right),
            _ => Ok(()),
        }
    }
}

/// Once a parameter cannot be introduced, no longer run of parameters can.
pub proof fn lemma_parameters_fail(
    scopes: Seq<Seq<DeclarationView>>,
    params: Seq<TokenView>,
    failed: int,
    count: int,
)
    requires
        0 < failed <= count,
        resolution::with_parameters(scopes, params, failed) is Err,
    ensures
        resolution::with_parameters(scopes, params, count) == resolution::with_parameters(
            scopes,
            params,
            failed,
        ),
    decreases count - failed,
{
    if failed < count {
        lemma_parameters_fail(scopes, params, failed, count - 1);
    }
}

} // verus!
