//! The evaluator's statements: blocks, control flow, declarations, and the
//! calling of functions.

use vstd::prelude::*;
use crate::ast::expr::Expr;
use crate::ast::statement::{lemma_statement_view_lists, statement_views, Statement};
use crate::lexer::scanner::token_views;
use crate::lexer::token::Token;
use crate::runtime::control_flow::{outcome_view, ControlFlow, Signal};
use crate::runtime::environment::ScopeView;
use crate::runtime::function::{Callable, EnvRef, Function};
use crate::runtime::host::Host;
use crate::runtime::interpreter::{
    branch_view, failure, line_views, optional_view, value_views, Interpreter,
};
use crate::runtime::runtime_error::RuntimeError;
use crate::runtime::semantics;
use crate::runtime::semantics::{Exchange, Step};
use crate::runtime::value::{Value, ValueView};
use crate::text::push_text;

verus! {

impl<'a, H: Host> Interpreter<'a, H> {
    /// Runs statements as a block: in a new scope inside the current one.
    pub(crate) fn execute_body(&mut self, statements: &'a Vec<Statement>) -> (r: Result<
        Value<'a>,
        ControlFlow<'a>,
    >)
        requires
            old(self).wf(),
        ensures
            final(self).proceeds(*old(self)),
            forall|host: Seq<Exchange>|
                final(self).heard(host) ==> final(self).realizes(
                    r,
                    #[trigger] semantics::execute_body(
                        host,
                        statement_views(statements@),
                        old(self)@,
                    ),
                ),
        decreases old(self).fuel, 3nat,
    {
        let ghost start = self@;
        let inner = self.scopes.new_scope(Some(self.environment));
        let ghost inside = self@;
        let r = self.execute_block(statements, inner);
        proof {
            assert forall|host: Seq<Exchange>| self.heard(host) implies self.realizes(
                r,
                #[trigger] semantics::execute_body(host, statement_views(statements@), start),
            ) by {
                assert(self.realizes(
                    r,
                    semantics::execute_block(
                        host,
                        statement_views(statements@),
                        inner as nat,
                        inside,
                    ),
                ));
            }
        }
        r
    }

    /// Runs statements in the scope `environment`, and makes the scope that
    /// was current before current again afterwards, however the statements
    /// end.
    pub fn execute_block(&mut self, statements: &'a Vec<Statement>, environment: EnvRef) -> (r:
        Result<Value<'a>, ControlFlow<'a>>)
        requires
            old(self).wf(),
            environment < old(self).scopes@.len(),
        ensures
            final(self).proceeds(*old(self)),
            forall|host: Seq<Exchange>|
                final(self).heard(host) ==> final(self).realizes(
                    r,
                    #[trigger] semantics::execute_block(
                        host,
                        statement_views(statements@),
                        environment as nat,
                        old(self)@,
                    ),
                ),
        decreases old(self).fuel, 2nat,
    {
        let ghost start = self@;
        let previous_environment = self.environment;
        self.environment = environment;
        let ghost items = statement_views(statements@);
        let ghost from = self@;
        let mut i: usize = 0;
        while i < statements.len()
            invariant
                self.globals == 0,
                self.environment == environment,
                environment < self.scopes@.len(),
                previous_environment == old(self).environment,
                previous_environment < self.scopes@.len(),
                self.fuel <= old(self).fuel,
                self.scopes@.len() >= old(self).scopes@.len(),
                semantics::extends(self.conversation@, old(self).conversation@),
                i <= statements.len(),
                items == statement_views(statements@),
                start == old(self)@,
                from == start.enter(environment as nat),
                forall|host: Seq<Exchange>|
                    self.heard(host) ==> #[trigger] semantics::execute_statements(
                        host,
                        items,
                        0,
                        from,
                    ) == semantics::execute_statements(host, items, i as int, self@),
            decreases statements.len() - i,
        {
            let ghost here = self@;
            let ghost heard_here = self.conversation@;
            match self.execute(&statements[i]) {
                Ok(_) => {},
                Err(e) => {
                    let ghost ended = self@;
                    self.environment = previous_environment;
                    proof {
                        assert forall|host: Seq<Exchange>| self.heard(host) implies self.realizes(
                            Err(e),
                            #[trigger] semantics::execute_block(
                                host,
                                items,
                                environment as nat,
                                start,
                            ),
                        ) by {
                            semantics::lemma_extends(host, self.conversation@, heard_here);
                            assert(semantics::execute(host, items[i as int], here) == Some(
                                Step { result: Err(e@), state: ended },
                            ));
                            assert(semantics::execute_statements(host, items, i as int, here)
                                == Some(Step { result: Err(e@), state: ended }));
                            assert(semantics::execute_statements(host, items, 0, from) == Some(
                                Step { result: Err(e@), state: ended },
                            ));
                        }
                    }
                    return Err(e);
                },
            }
            proof {
                assert forall|host: Seq<Exchange>| self.heard(host) implies #[trigger] semantics::execute_statements(
                    host,
                    items,
                    0,
                    from,
                ) == semantics::execute_statements(host, items, i + 1, self@) by {
                    semantics::lemma_extends(host, self.conversation@, heard_here);
                    assert(semantics::execute(host, items[i as int], here) matches Some(step)
                        && step.result is Ok && step.state == self@);
                    assert(semantics::execute_statements(host, items, i as int, here)
                        == semantics::execute_statements(host, items, i + 1, self@));
                }
            }
            i = i + 1;
        }
        let ghost ended = self@;
        self.environment = previous_environment;
        proof {
            assert forall|host: Seq<Exchange>| self.heard(host) implies self.realizes(
                Ok(Value::Nil),
                #[trigger] semantics::execute_block(host, items, environment as nat, start),
            ) by {
                assert(semantics::execute_statements(host, items, i as int, ended) == Some(
                    Step { result: Ok(ValueView::Nil), state: ended },
                ));
                assert(semantics::execute_statements(host, items, 0, from) == Some(
                    Step { result: Ok(ValueView::Nil), state: ended },
                ));
            }
        }
        Ok(Value::Nil)
    }

    fn execute_expression(&mut self, expression: &'a Expr) -> (r: Result<
        Value<'a>,
        ControlFlow<'a>,
    >)
        requires
            old(self).wf(),
        ensures
            final(self).proceeds(*old(self)),
            forall|host: Seq<Exchange>|
                final(self).heard(host) ==> final(self).realizes(
                    r,
                    semantics::kept(
                        #[trigger] semantics::evaluate(host, expression@, old(self)@),
                        old(self)@,
                    ),
                ),
        decreases old(self).fuel, 6nat,
    {
        self.evaluate(expression)
    }

    /// The text of a value as `print` shows it. The text of a floating-point
    /// number is the host's.
    fn shown(&mut self, value: &Value<'a>) -> (r: String)
        ensures
            final(self).talked(*old(self)),
            forall|host: Seq<Exchange>|
                final(self).heard(host) ==> #[trigger] semantics::shown(host, value@, old(self)@)
                    == Some((r@, final(self)@)),
    {
        match value.to_string() {
            Some(s) => s,
            None => match value {
                Value::Float(f) => self.ask_text(*f),
                _ => String::new(),
            },
        }
    }

    fn execute_print(&mut self, expression: &'a Expr) -> (r: Result<Value<'a>, ControlFlow<'a>>)
        requires
            old(self).wf(),
        ensures
            final(self).proceeds(*old(self)),
            forall|host: Seq<Exchange>|
                final(self).heard(host) ==> final(self).realizes(
                    r,
                    #[trigger] semantics::execute_print(host, expression@, old(self)@),
                ),
        decreases old(self).fuel, 6nat,
    {
        let ghost start = self@;
        let value = match self.evaluate(expression) {
            Ok(v) => v,
            Err(e) => {
                proof {
                    assert forall|host: Seq<Exchange>| self.heard(host) implies self.realizes(
                        Err(e),
                        #[trigger] semantics::execute_print(host, expression@, start),
                    ) by {
                        assert(self.realizes(Err(e), semantics::evaluate(host, expression@, start)));
                    }
                }
                return Err(e);
            },
        };
        let ghost heard_value = self.conversation@;
        let ghost after_value = self@;
        let text = self.shown(&value);
        let ghost after_text = self@;
        let ghost before = line_views(self.output@);
        self.output.push(text);
        proof {
            assert(line_views(self.output@) =~= before.push(text@));
            assert forall|host: Seq<Exchange>| self.heard(host) implies self.realizes(
                Ok(Value::Nil),
                #[trigger] semantics::execute_print(host, expression@, start),
            ) by {
                semantics::lemma_extends(host, self.conversation@, heard_value);
                assert(semantics::evaluate(host, expression@, start) == Some(
                    Step { result: Ok(value@), state: after_value },
                ));
                assert(semantics::shown(host, value@, after_value) == Some((text@, after_text)));
            }
        }
        Ok(Value::Nil)
    }

    fn execute_if_statement(
        &mut self,
        condition: &'a Expr,
        then_branch: &'a Statement,
        else_branch: &'a Option<Box<Statement>>,
    ) -> (r: Result<Value<'a>, ControlFlow<'a>>)
        requires
            old(self).wf(),
        ensures
            final(self).proceeds(*old(self)),
            forall|host: Seq<Exchange>|
                final(self).heard(host) ==> final(self).realizes(
                    r,
                    #[trigger] semantics::execute_if(
                        host,
                        condition@,
                        then_branch@,
                        branch_view(*else_branch),
                        old(self)@,
                    ),
                ),
        decreases old(self).fuel, 6nat,
    {
        let ghost start = self@;
        let ghost other = branch_view(*else_branch);
        let condition_value = match self.evaluate(condition) {
            Ok(v) => v,
            Err(e) => {
                proof {
                    assert forall|host: Seq<Exchange>| self.heard(host) implies self.realizes(
                        Err(e),
                        #[trigger] semantics::execute_if(
                            host,
                            condition@,
                            then_branch@,
                            other,
                            start,
                        ),
                    ) by {
                        assert(self.realizes(Err(e), semantics::evaluate(host, condition@, start)));
                    }
                }
                return Err(e);
            },
        };
        let ghost heard_condition = self.conversation@;
        let ghost after_condition = self@;
        let ghost decided = condition_value@;
        if condition_value.is_truthy() {
            let r = self.execute(then_branch);
            proof {
                assert forall|host: Seq<Exchange>| self.heard(host) implies self.realizes(
                    r,
                    #[trigger] semantics::execute_if(host, condition@, then_branch@, other, start),
                ) by {
                    semantics::lemma_extends(host, self.conversation@, heard_condition);
                    assert(semantics::evaluate(host, condition@, start) == Some(
                        Step { result: Ok(decided), state: after_condition },
                    ));
                    assert(self.realizes(
                        r,
                        semantics::execute(host, then_branch@, after_condition),
                    ));
                }
            }
            r
        } else {
            match else_branch {
                Some(else_stmt) => {
                    let r = self.execute(else_stmt);
                    proof {
                        assert forall|host: Seq<Exchange>| self.heard(host) implies self.realizes(
                            r,
                            #[trigger] semantics::execute_if(
                                host,
                                condition@,
                                then_branch@,
                                other,
                                start,
                            ),
                        ) by {
                            semantics::lemma_extends(host, self.conversation@, heard_condition);
                            assert(semantics::evaluate(host, condition@, start) == Some(
                                Step { result: Ok(decided), state: after_condition },
                            ));
                            assert(self.realizes(
                                r,
                                semantics::execute(host, else_stmt@, after_condition),
                            ));
                        }
                    }
                    r
                },
                None => {
                    proof {
                        assert forall|host: Seq<Exchange>| self.heard(host) implies self.realizes(
                            Ok(Value::Nil),
                            #[trigger] semantics::execute_if(
                                host,
                                condition@,
                                then_branch@,
                                other,
                                start,
                            ),
                        ) by {
                            assert(semantics::evaluate(host, condition@, start) == Some(
                                Step { result: Ok(decided), state: after_condition },
                            ));
                        }
                    }
                    Ok(Value::Nil)
                },
            }
        }
    }

    fn execute_var_statement(&mut self, name: &'a Token, initializer: &'a Option<Expr>) -> (r:
        Result<Value<'a>, ControlFlow<'a>>)
        requires
            old(self).wf(),
        ensures
            final(self).proceeds(*old(self)),
            forall|host: Seq<Exchange>|
                final(self).heard(host) ==> final(self).realizes(
                    r,
                    #[trigger] semantics::execute_var(
                        host,
                        name@,
                        optional_view(*initializer),
                        old(self)@,
                    ),
                ),
        decreases old(self).fuel, 6nat,
    {
        let ghost start = self@;
        let ghost given = optional_view(*initializer);
        let value = match initializer {
            Some(init_expr) => match self.evaluate(init_expr) {
                Ok(v) => v,
                Err(e) => {
                    proof {
                        assert forall|host: Seq<Exchange>| self.heard(host) implies self.realizes(
                            Err(e),
                            #[trigger] semantics::execute_var(host, name@, given, start),
                        ) by {
                            assert(self.realizes(
                                Err(e),
                                semantics::evaluate(host, init_expr@, start),
                            ));
                        }
                    }
                    return Err(e);
                },
            },
            None => Value::Nil,
        };
        let ghost after_value = self@;
        let ghost bound = value@;
        self.scopes.define(self.environment, name.lexeme.clone(), value);
        proof {
            assert forall|host: Seq<Exchange>| self.heard(host) implies self.realizes(
                Ok(Value::Nil),
                #[trigger] semantics::execute_var(host, name@, given, start),
            ) by {
                match initializer {
                    Some(init_expr) => {
                        assert(semantics::evaluate(host, init_expr@, start) == Some(
                            Step { result: Ok(bound), state: after_value },
                        ));
                    },
                    None => {},
                }
            }
        }
        Ok(Value::Nil)
    }

    fn execute_while_statement(&mut self, condition: &'a Expr, body: &'a Statement) -> (r: Result<
        Value<'a>,
        ControlFlow<'a>,
    >)
        requires
            old(self).wf(),
        ensures
            final(self).proceeds(*old(self)),
            forall|host: Seq<Exchange>|
                final(self).heard(host) ==> final(self).realizes(
                    r,
                    #[trigger] semantics::execute_while(host, condition@, body@, old(self)@),
                ),
        decreases old(self).fuel, 6nat,
    {
        let ghost start = self@;
        loop
            invariant
                self.proceeds(*old(self)),
                start == old(self)@,
                forall|host: Seq<Exchange>|
                    self.heard(host) ==> #[trigger] semantics::execute_while(
                        host,
                        condition@,
                        body@,
                        start,
                    ) == semantics::execute_while(host, condition@, body@, self@),
            decreases self.fuel,
        {
            let ghost here = self@;
            let ghost heard_here = self.conversation@;
            let condition_value = match self.evaluate(condition) {
                Ok(v) => v,
                Err(e) => {
                    proof {
                        assert forall|host: Seq<Exchange>| self.heard(host) implies self.realizes(
                            Err(e),
                            #[trigger] semantics::execute_while(host, condition@, body@, start),
                        ) by {
                            semantics::lemma_extends(host, self.conversation@, heard_here);
                            assert(self.realizes(
                                Err(e),
                                semantics::evaluate(host, condition@, here),
                            ));
                            assert(self.realizes(
                                Err(e),
                                semantics::execute_while(host, condition@, body@, here),
                            ));
                        }
                    }
                    return Err(e);
                },
            };
            let ghost heard_condition = self.conversation@;
            let ghost after_condition = self@;
            let ghost decided = condition_value@;
            if !condition_value.is_truthy() {
                proof {
                    assert forall|host: Seq<Exchange>| self.heard(host) implies self.realizes(
                        Ok(Value::Nil),
                        #[trigger] semantics::execute_while(host, condition@, body@, start),
                    ) by {
                        semantics::lemma_extends(host, self.conversation@, heard_here);
                        assert(semantics::evaluate(host, condition@, here) == Some(
                            Step { result: Ok(decided), state: after_condition },
                        ));
                        assert(self.realizes(
                            Ok(Value::Nil),
                            semantics::execute_while(host, condition@, body@, here),
                        ));
                    }
                }
                return Ok(Value::Nil);
            }
            match self.execute(body) {
                Ok(_) => {},
                Err(e) => {
                    proof {
                        assert forall|host: Seq<Exchange>| self.heard(host) implies self.realizes(
                            Err(e),
                            #[trigger] semantics::execute_while(host, condition@, body@, start),
                        ) by {
                            semantics::lemma_extends(host, self.conversation@, heard_condition);
                            semantics::lemma_extends(host, heard_condition, heard_here);
                            assert(semantics::evaluate(host, condition@, here) == Some(
                                Step { result: Ok(decided), state: after_condition },
                            ));
                            assert(self.realizes(
                                Err(e),
                                semantics::execute(host, body@, after_condition),
                            ));
                            assert(self.realizes(
                                Err(e),
                                semantics::execute_while(host, condition@, body@, here),
                            ));
                        }
                    }
                    return Err(e);
                },
            }
            proof {
                assert forall|host: Seq<Exchange>| self.heard(host) implies #[trigger] semantics::execute_while(
                    host,
                    condition@,
                    body@,
                    start,
                ) == semantics::execute_while(host, condition@, body@, self@) by {
                    semantics::lemma_extends(host, self.conversation@, heard_condition);
                    semantics::lemma_extends(host, heard_condition, heard_here);
                    assert(semantics::evaluate(host, condition@, here) == Some(
                        Step { result: Ok(decided), state: after_condition },
                    ));
                    assert(semantics::execute(host, body@, after_condition) matches Some(step)
                        && step.result is Ok && step.state == self@);
                    assert(semantics::execute_while(host, condition@, body@, here)
                        == semantics::execute_while(host, condition@, body@, self@));
                }
            }
        }
    }

    fn execute_function_statement(&mut self, statement: &'a Statement) -> (r: Result<
        Value<'a>,
        ControlFlow<'a>,
    >)
        requires
            old(self).wf(),
            statement is Function,
        ensures
            final(self).proceeds(*old(self)),
            final(self).fuel == old(self).fuel,
            r is Ok,
            r->Ok_0@ == ValueView::Nil,
            final(self)@ == old(self)@.with_scopes(
                crate::runtime::environment::define(
                    old(self)@.scopes,
                    old(self).environment as int,
                    statement@->Function_name.lexeme,
                    semantics::closure(
                        old(self)@,
                        statement@->Function_name.lexeme,
                        statement@->Function_params,
                        statement@->Function_body,
                    ),
                ),
            ),
    {
        match Function::from_statement(statement, self.environment) {
            Some(function) => {
                let mut name = String::new();
                push_text(&mut name, function.name());
                assert(name@ =~= function@.name);
                self.scopes.define(
                    self.environment,
                    name,
                    Value::Callable(Callable::Function(function)),
                );
                Ok(Value::Nil)
            },
            None => Ok(Value::Nil),
        }
    }

    fn execute_return_statement(&mut self, value: &'a Option<Expr>) -> (r: Result<
        Value<'a>,
        ControlFlow<'a>,
    >)
        requires
            old(self).wf(),
        ensures
            final(self).proceeds(*old(self)),
            forall|host: Seq<Exchange>|
                final(self).heard(host) ==> final(self).realizes(
                    r,
                    #[trigger] semantics::execute_return(host, optional_view(*value), old(self)@),
                ),
        decreases old(self).fuel, 6nat,
    {
        let ghost start = self@;
        let ghost given = optional_view(*value);
        let return_value = match value {
            Some(value_expr) => match self.evaluate(value_expr) {
                Ok(v) => v,
                Err(e) => {
                    proof {
                        assert forall|host: Seq<Exchange>| self.heard(host) implies self.realizes(
                            Err(e),
                            #[trigger] semantics::execute_return(host, given, start),
                        ) by {
                            assert(self.realizes(
                                Err(e),
                                semantics::evaluate(host, value_expr@, start),
                            ));
                        }
                    }
                    return Err(e);
                },
            },
            None => Value::Nil,
        };
        proof {
            assert forall|host: Seq<Exchange>| self.heard(host) implies self.realizes(
                Err(ControlFlow::Return(return_value)),
                #[trigger] semantics::execute_return(host, given, start),
            ) by {
                match value {
                    Some(value_expr) => {
                        assert(self.realizes(
                            Ok(return_value),
                            semantics::evaluate(host, value_expr@, start),
                        ));
                    },
                    None => {},
                }
            }
        }
        Err(ControlFlow::Return(return_value))
    }

    /// Executes a statement.
    ///
    /// For every conversation that starts as the one with the host went, the
    /// semantics give the result returned and the state left.
    pub fn execute(&mut self, statement: &'a Statement) -> (r: Result<Value<'a>, ControlFlow<'a>>)
        requires
            old(self).wf(),
        ensures
            final(self).proceeds(*old(self)),
            r is Ok ==> final(self).fuel < old(self).fuel,
            old(self).fuel > 0 ==> final(self).fuel < old(self).fuel,
            forall|host: Seq<Exchange>|
                final(self).heard(host) ==> final(self).realizes(
                    r,
                    #[trigger] semantics::execute(host, statement@, old(self)@),
                ),
        decreases old(self).fuel, 0nat,
    {
        if self.fuel == 0 {
            return Err(failure(0, "Evaluation budget exhausted."));
        }
        self.fuel = self.fuel - 1;
        let ghost ticked = self@;
        let r = match statement {
            Statement::Expression { expression } => self.execute_expression(expression),
            Statement::Print { expression } => self.execute_print(expression),
            Statement::Var { name, initializer } => self.execute_var_statement(name, initializer),
            Statement::Block { statements } => self.execute_body(statements),
            Statement::If { condition, then_branch, else_branch } => self.execute_if_statement(
                condition,
                then_branch,
                else_branch,
            ),
            Statement::While { condition, body } => self.execute_while_statement(condition, body),
            Statement::Function { .. } => self.execute_function_statement(statement),
            Statement::Return { keyword: _, value } => self.execute_return_statement(value),
        };
        proof {
            lemma_statement_view_lists(*statement);
            assert forall|host: Seq<Exchange>| self.heard(host) implies self.realizes(
                r,
                #[trigger] semantics::execute(host, statement@, old(self)@),
            ) by {
                match statement {
                    Statement::Expression { expression } => {
                        assert(self.realizes(r, semantics::evaluate(host, expression@, ticked)));
                    },
                    Statement::Print { expression } => {
                        assert(self.realizes(
                            r,
                            semantics::execute_print(host, expression@, ticked),
                        ));
                    },
                    Statement::Var { name, initializer } => {
                        assert(self.realizes(
                            r,
                            semantics::execute_var(
                                host,
                                name@,
                                optional_view(*initializer),
                                ticked,
                            ),
                        ));
                    },
                    Statement::Block { statements } => {
                        assert(self.realizes(
                            r,
                            semantics::execute_body(host, statement_views(statements@), ticked),
                        ));
                    },
                    Statement::If { condition, then_branch, else_branch } => {
                        assert(self.realizes(
                            r,
                            semantics::execute_if(
                                host,
                                condition@,
                                then_branch@,
                                branch_view(*else_branch),
                                ticked,
                            ),
                        ));
                    },
                    Statement::While { condition, body } => {
                        assert(self.realizes(
                            r,
                            semantics::execute_while(host, condition@, body@, ticked),
                        ));
                    },
                    Statement::Function { .. } => {},
                    Statement::Return { keyword: _, value } => {
                        assert(self.realizes(
                            r,
                            semantics::execute_return(host, optional_view(*value), ticked),
                        ));
                    },
                }
            }
        }
        r
    }

    /// Runs a program: every statement in order, up to the first runtime
    /// error, which is the result.
    ///
    /// For every conversation that starts as the one with the host went, the
    /// semantics give the error returned, or none, and the state left.
    pub fn interpret(&mut self, statements: &'a Vec<Statement>) -> (r: Result<(), RuntimeError>)
        requires
            old(self).wf(),
        ensures
            final(self).proceeds(*old(self)),
            forall|host: Seq<Exchange>|
                final(self).heard(host) ==> #[trigger] semantics::interpret(
                    host,
                    statement_views(statements@),
                    0,
                    old(self)@,
                ) == Some(
                    Step {
                        result: match r {
                            Ok(_) => Ok(ValueView::Nil),
                            Err(e) => Err(Signal::RuntimeError(e@)),
                        },
                        state: final(self)@,
                    },
                ),
    {
        let ghost items = statement_views(statements@);
        let ghost start = self@;
        let mut i: usize = 0;
        while i < statements.len()
            invariant
                self.proceeds(*old(self)),
                i <= statements.len(),
                items == statement_views(statements@),
                start == old(self)@,
                forall|host: Seq<Exchange>|
                    self.heard(host) ==> #[trigger] semantics::interpret(host, items, 0, start)
                        == semantics::interpret(host, items, i as int, self@),
            decreases statements.len() - i,
        {
            let ghost here = self@;
            let ghost heard_here = self.conversation@;
            match self.execute(&statements[i]) {
                Err(ControlFlow::RuntimeError(runtime_error)) => {
                    proof {
                        assert forall|host: Seq<Exchange>| self.heard(host) implies #[trigger] semantics::interpret(
                            host,
                            items,
                            0,
                            start,
                        ) == Some(
                            Step {
                                result: Err(Signal::RuntimeError(runtime_error@)),
                                state: self@,
                            },
                        ) by {
                            semantics::lemma_extends(host, self.conversation@, heard_here);
                            assert(semantics::execute(host, items[i as int], here) == Some(
                                Step {
                                    result: Err(Signal::RuntimeError(runtime_error@)),
                                    state: self@,
                                },
                            ));
                            assert(semantics::interpret(host, items, i as int, here) == Some(
                                Step {
                                    result: Err(Signal::RuntimeError(runtime_error@)),
                                    state: self@,
                                },
                            ));
                        }
                    }
                    return Err(runtime_error);
                },
                Err(ControlFlow::Return(value)) => {
                    proof {
                        assert forall|host: Seq<Exchange>| self.heard(host) implies #[trigger] semantics::interpret(
                            host,
                            items,
                            0,
                            start,
                        ) == semantics::interpret(host, items, i + 1, self@) by {
                            semantics::lemma_extends(host, self.conversation@, heard_here);
                            assert(semantics::execute(host, items[i as int], here) == Some(
                                Step { result: Err(Signal::Return(value@)), state: self@ },
                            ));
                            assert(semantics::interpret(host, items, i as int, here)
                                == semantics::interpret(host, items, i + 1, self@));
                        }
                    }
                },
                Ok(value) => {
                    proof {
                        assert forall|host: Seq<Exchange>| self.heard(host) implies #[trigger] semantics::interpret(
                            host,
                            items,
                            0,
                            start,
                        ) == semantics::interpret(host, items, i + 1, self@) by {
                            semantics::lemma_extends(host, self.conversation@, heard_here);
                            assert(semantics::execute(host, items[i as int], here) == Some(
                                Step { result: Ok(value@), state: self@ },
                            ));
                            assert(semantics::interpret(host, items, i as int, here)
                                == semantics::interpret(host, items, i + 1, self@));
                        }
                    }
                },
            }
            i = i + 1;
        }
        Ok(())
    }
}

impl<'a> Function<'a> {
    /// Calls the function: a new scope inside the closure scope takes the
    /// parameters, the body runs as a block inside that scope, and the
    /// caller's scope is current again afterwards. A `return` gives the
    /// value of the call; the end of the body gives `nil`. A call with
    /// another number of arguments than the function has parameters is an
    /// error.
    pub fn call<H: Host>(&self, interpreter: &mut Interpreter<'a, H>, args: Vec<Value<'a>>) -> (r:
        Result<Value<'a>, ControlFlow<'a>>)
        requires
            old(interpreter).wf(),
        ensures
            final(interpreter).proceeds(*old(interpreter)),
            forall|host: Seq<Exchange>|
                final(interpreter).heard(host) ==> final(interpreter).realizes(
                    r,
                    #[trigger] semantics::call_function(
                        host,
                        self@,
                        value_views(args@),
                        old(interpreter)@,
                    ),
                ),
        decreases old(interpreter).fuel, 4nat,
    {
        let ghost start = interpreter@;
        if args.len() != self.params.len() {
            return Err(
                Interpreter::<'a, H>::arity_error(None, self.params.len(), args.len()),
            );
        }
        if self.closure >= interpreter.scopes.len() {
            return Err(failure(0, "Function closure is not a scope."));
        }
        let ghost outer = interpreter.scopes@;
        let ghost params = token_views(self.params@);
        let ghost arguments = value_views(args@);
        let frame = interpreter.scopes.new_scope(Some(self.closure));
        let mut i: usize = 0;
        assert(interpreter.scopes@ =~= outer.push(
            ScopeView {
                enclosing: Some(self.closure as nat),
                bindings: semantics::bound(params, arguments, 0).bindings,
            },
        ));
        while i < self.params.len()
            invariant
                i <= self.params.len(),
                args.len() == self.params.len(),
                frame == outer.len(),
                params == token_views(self.params@),
                arguments == value_views(args@),
                interpreter.globals == old(interpreter).globals,
                interpreter.environment == old(interpreter).environment,
                interpreter.fuel == old(interpreter).fuel,
                interpreter.output == old(interpreter).output,
                interpreter.conversation == old(interpreter).conversation,
                interpreter.scopes@ == outer.push(
                    ScopeView {
                        enclosing: Some(self.closure as nat),
                        bindings: semantics::bound(params, arguments, i as nat).bindings,
                    },
                ),
            decreases self.params.len() - i,
        {
            interpreter.scopes.define(frame, self.params[i].lexeme.clone(), args[i].clone());
            proof {
                let grown = semantics::bound(params, arguments, (i + 1) as nat);
                assert(interpreter.scopes@ =~= outer.push(
                    ScopeView { enclosing: Some(self.closure as nat), bindings: grown.bindings },
                ));
            }
            i = i + 1;
        }
        let previous_environment = interpreter.environment;
        interpreter.environment = frame;
        let ghost inside = interpreter@;
        let result = interpreter.execute_body(self.body);
        let ghost ended = interpreter@;
        interpreter.environment = previous_environment;
        let r = match result {
            Ok(_) => Ok(Value::Nil),
            Err(ControlFlow::Return(return_value)) => Ok(return_value),
            Err(ControlFlow::RuntimeError(runtime_error)) => Err(
                ControlFlow::RuntimeError(runtime_error),
            ),
        };
        proof {
            assert forall|host: Seq<Exchange>|
                interpreter.heard(host) implies interpreter.realizes(
                r,
                #[trigger] semantics::call_function(host, self@, arguments, start),
            ) by {
                assert(semantics::execute_body(host, statement_views(self.body@), inside)
                    == Some(Step { result: outcome_view(result), state: ended }));
            }
        }
        r
    }
}

} // verus!
