//! Laws of resolution: what the rules imply for every name and every stack
//! of scopes.

use vstd::prelude::*;
use crate::ast::expr::{Depth, ExprView};
use crate::ast::statement::StatementView;
use crate::lexer::token::TokenView;
use crate::parser::error::ParseErrorView;
use crate::parser::resolution::{
    begin_scope, declare, declares, define, distance, error_at, in_own_initializer, introduce,
    marked, position, resolve_expr, resolve_stmt, resolved, status, DeclarationView,
};

verus! {

/// A found position lies inside the scope, at or after the start, and holds
/// the name; where none is found, no declaration from the start on holds it.
pub proof fn lemma_position(scope: Seq<DeclarationView>, name: Seq<char>, from: int)
    requires
        0 <= from,
    ensures
        match position(scope, name, from) {
            Some(i) => from <= i < scope.len() && scope[i].name == name,
            None => forall|j: int| from <= j < scope.len() ==> scope[j].name != name,
        },
    decreases scope.len() - from,
{
    if from < scope.len() && scope[from].name != name {
        lemma_position(scope, name, from + 1);
    }
}

/// Marking the declaration at `at` anew moves no name.
proof fn lemma_position_after_update(
    scope: Seq<DeclarationView>,
    at: int,
    ready: bool,
    name: Seq<char>,
    from: int,
)
    requires
        0 <= at < scope.len(),
        0 <= from,
    ensures
        position(scope.update(at, DeclarationView { name: scope[at].name, ready }), name, from)
            == position(scope, name, from),
    decreases scope.len() - from,
{
    let after = scope.update(at, DeclarationView { name: scope[at].name, ready });
    if from < scope.len() {
        assert(after[from].name == scope[from].name);
        if scope[from].name != name {
            lemma_position_after_update(scope, at, ready, name, from + 1);
        }
    }
}

/// A name that no declaration holds is found at the end once it is pushed
/// there.
proof fn lemma_position_after_push(
    scope: Seq<DeclarationView>,
    name: Seq<char>,
    ready: bool,
    from: int,
)
    requires
        0 <= from <= scope.len(),
        forall|j: int| from <= j < scope.len() ==> scope[j].name != name,
    ensures
        position(scope.push(DeclarationView { name, ready }), name, from) == Some(
            scope.len() as int,
        ),
    decreases scope.len() - from,
{
    let after = scope.push(DeclarationView { name, ready });
    if from < scope.len() {
        assert(after[from] == scope[from]);
        lemma_position_after_push(scope, name, ready, from + 1);
    }
}

/// A scope in which a name has been marked declares the name, with the mark
/// it was given.
pub proof fn lemma_marked(scope: Seq<DeclarationView>, name: Seq<char>, ready: bool)
    ensures
        declares(marked(scope, name, ready), name),
        status(marked(scope, name, ready), name) == Some(ready),
{
    lemma_position(scope, name, 0);
    match position(scope, name, 0) {
        Some(at) => {
            lemma_position_after_update(scope, at, ready, name, 0);
        },
        None => {
            lemma_position_after_push(scope, name, ready, 0);
        },
    }
}

/// A reference to a variable that is declared in the innermost scope and not
/// yet ready is a resolution error.
pub proof fn lemma_unready_reference(
    scopes: Seq<Seq<DeclarationView>>,
    name: TokenView,
    depth: Depth,
    in_function: bool,
)
    requires
        in_own_initializer(scopes, name.lexeme),
    ensures
        resolve_expr(ExprView::Variable { name, depth }, scopes, in_function) == Err::<
            ExprView,
            ParseErrorView,
        >(error_at(name, "Can't read local variable in its own initializer"@)),
{
}

/// A local variable whose initializer is a reference to the variable itself
/// is a resolution error, in every scope but the global one.
pub proof fn lemma_own_initializer(
    scopes: Seq<Seq<DeclarationView>>,
    name: TokenView,
    reference: TokenView,
    depth: Depth,
    in_function: bool,
)
    requires
        scopes.len() > 0,
        reference.lexeme == name.lexeme,
    ensures
        resolve_stmt(
            StatementView::Var {
                name,
                initializer: Some(ExprView::Variable { name: reference, depth }),
            },
            scopes,
            in_function,
        ) is Err,
        !declares(scopes.last(), name.lexeme) ==> resolve_stmt(
            StatementView::Var {
                name,
                initializer: Some(ExprView::Variable { name: reference, depth }),
            },
            scopes,
            in_function,
        ) == Err::<StatementView, ParseErrorView>(
            error_at(reference, "Can't read local variable in its own initializer"@),
        ),
{
    if !declares(scopes.last(), name.lexeme) {
        lemma_marked(scopes.last(), name.lexeme, false);
        let declared = declare(scopes, name)->Ok_0;
        assert(declared.last() == marked(scopes.last(), name.lexeme, false));
        lemma_unready_reference(declared, reference, depth, in_function);
    }
}

/// Declaring a name twice in one scope is a resolution error; declaring it
/// again in a scope further in is not.
pub proof fn lemma_redeclaration(scopes: Seq<Seq<DeclarationView>>, name: TokenView)
    requires
        scopes.len() > 0,
        declares(scopes.last(), name.lexeme),
    ensures
        declare(scopes, name) == Err::<Seq<Seq<DeclarationView>>, ParseErrorView>(
            error_at(name, "Variable with this name already declared in this scope"@),
        ),
        declare(begin_scope(scopes), name) is Ok,
{
    assert(begin_scope(scopes).last() =~= Seq::<DeclarationView>::empty());
}

/// The distance of a reference is that to the nearest declaration: the scope
/// that many steps out declares the name, and no scope nearer does. A name
/// has no distance only if no scope declares it.
pub proof fn lemma_nearest_declaration(scopes: Seq<Seq<DeclarationView>>, name: Seq<char>)
    ensures
        match distance(scopes, name) {
            Some(d) => d < scopes.len() && declares(scopes[scopes.len() - 1 - d], name)
                && forall|i: int|
                scopes.len() - 1 - d < i < scopes.len() ==> !declares(#[trigger] scopes[i], name),
            None => forall|i: int| 0 <= i < scopes.len() ==> !declares(#[trigger] scopes[i], name),
        },
    decreases scopes.len(),
{
    if scopes.len() > 0 && !declares(scopes.last(), name) {
        let outer = scopes.drop_last();
        lemma_nearest_declaration(outer, name);
        match distance(outer, name) {
            Some(d) => {
                assert(outer[outer.len() - 1 - d] == scopes[scopes.len() - 1 - (d + 1)]);
                assert forall|i: int| scopes.len() - 1 - (d + 1) < i < scopes.len() implies !declares(
                    #[trigger] scopes[i],
                    name,
                ) by {
                    if i < outer.len() {
                        assert(outer[i] == scopes[i]);
                    }
                }
            },
            None => {
                assert forall|i: int| 0 <= i < scopes.len() implies !declares(
                    #[trigger] scopes[i],
                    name,
                ) by {
                    if i < outer.len() {
                        assert(outer[i] == scopes[i]);
                    }
                }
            },
        }
    }
}

/// A declaration in the innermost scope shadows every declaration of the
/// same name further out: a reference resolves to distance zero, whatever
/// the scopes around declare.
pub proof fn lemma_shadowing(scopes: Seq<Seq<DeclarationView>>, name: Seq<char>, before: Depth)
    requires
        scopes.len() > 0,
        declares(scopes.last(), name),
    ensures
        resolved(scopes, name, before) == Depth::Resolved(0),
{
}

/// A name introduced in a new block is the one that references inside the
/// block resolve to, whatever the scopes around the block declare.
pub proof fn lemma_block_shadows(
    scopes: Seq<Seq<DeclarationView>>,
    name: TokenView,
    reference: TokenView,
    before: Depth,
    in_function: bool,
)
    requires
        reference.lexeme == name.lexeme,
    ensures
        introduce(begin_scope(scopes), name) matches Ok(inner) && resolve_expr(
            ExprView::Variable { name: reference, depth: before },
            inner,
            in_function,
        ) == Ok::<ExprView, ParseErrorView>(
            ExprView::Variable { name: reference, depth: Depth::Resolved(0) },
        ),
{
    let opened = begin_scope(scopes);
    assert(opened.last() =~= Seq::<DeclarationView>::empty());
    let declared = declare(opened, name)->Ok_0;
    lemma_marked(opened.last(), name.lexeme, false);
    assert(declared.last() == marked(opened.last(), name.lexeme, false));
    let inner = define(declared, name.lexeme);
    lemma_marked(declared.last(), name.lexeme, true);
    assert(inner.last() == marked(declared.last(), name.lexeme, true));
}

/// A reference to a name that no scope declares is left as it was: it will
/// be looked up in the global scope.
pub proof fn lemma_global_fallback(
    scopes: Seq<Seq<DeclarationView>>,
    name: TokenView,
    before: Depth,
    in_function: bool,
)
    requires
        forall|i: int| 0 <= i < scopes.len() ==> !declares(#[trigger] scopes[i], name.lexeme),
    ensures
        resolve_expr(ExprView::Variable { name, depth: before }, scopes, in_function) == Ok::<
            ExprView,
            ParseErrorView,
        >(ExprView::Variable { name, depth: before }),
{
    lemma_nearest_declaration(scopes, name.lexeme);
    if scopes.len() > 0 {
        assert(!declares(scopes[scopes.len() - 1], name.lexeme));
    }
}

/// `return` outside every function is a resolution error.
pub proof fn lemma_return_at_top_level(
    scopes: Seq<Seq<DeclarationView>>,
    keyword: TokenView,
    value: Option<ExprView>,
)
    ensures
        resolve_stmt(StatementView::Return { keyword, value }, scopes, false) == Err::<
            StatementView,
            ParseErrorView,
        >(error_at(keyword, "Can't return from top-level code"@)),
{
}

} // verus!
