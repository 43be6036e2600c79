use rust_interpreter::Depth::{Resolved, Unresolved};
use rust_interpreter::{
    scan, Arithmetic, Callable, Clock, ControlFlow, Environment, EnvRef, Expr, Float, FloatOrder,
    Function, Host, Interpreter, Parser, Resolver, Statement, Value,
};

/// A host that computes with the machine's floating-point numbers.
struct Machine;

fn number(value: Float) -> f64 {
    f64::from_bits(value.bits)
}

fn float(value: f64) -> Float {
    Float { bits: value.to_bits() }
}

impl Host for Machine {
    fn float_from_numeral(&mut self, numeral: &str) -> Float {
        float(numeral.parse().unwrap())
    }

    fn float_from_integer(&mut self, value: i64) -> Float {
        float(value as f64)
    }

    fn float_arithmetic(&mut self, operation: Arithmetic, left: Float, right: Float) -> Float {
        let (a, b) = (number(left), number(right));
        float(match operation {
            Arithmetic::Add => a + b,
            Arithmetic::Subtract => a - b,
            Arithmetic::Multiply => a * b,
            Arithmetic::Divide => a / b,
        })
    }

    fn float_negate(&mut self, value: Float) -> Float {
        float(-number(value))
    }

    fn float_compare(&mut self, left: Float, right: Float) -> FloatOrder {
        match number(left).partial_cmp(&number(right)) {
            Some(std::cmp::Ordering::Less) => FloatOrder::Less,
            Some(std::cmp::Ordering::Equal) => FloatOrder::Equal,
            Some(std::cmp::Ordering::Greater) => FloatOrder::Greater,
            None => FloatOrder::Unordered,
        }
    }

    fn float_to_string(&mut self, value: Float) -> String {
        format!("{}", number(value))
    }

    fn clock(&mut self) -> Float {
        float(1234.5)
    }
}

fn parse_expr<'a>(input: &str) -> (Interpreter<'a, Machine>, Expr) {
    let tokens = scan(input);
    let mut parser = Parser::new(tokens.tokens);
    let expr = parser.expression().unwrap_or_else(|e| panic!("parse error: {}", e.to_string()));
    (Interpreter::new(Machine), expr)
}

fn parse_stmts<'a>(input: &str) -> (Interpreter<'a, Machine>, Vec<Statement>) {
    let tokens = scan(input);
    let mut parser = Parser::new(tokens.tokens);
    let mut statements = parser.parse();
    let mut interpreter = Interpreter::new(Machine);
    let mut resolver = Resolver::new(&mut interpreter);
    resolver.resolve_statements(&mut statements).unwrap_or_else(|e| panic!("{}", e.to_string()));
    (interpreter, statements)
}

#[test]
fn evaluate_addition() {
    let (mut interpreter, expr) = parse_expr("1 + 2");
    let v = interpreter.evaluate(&expr).unwrap_or_else(|_| panic!("eval error"));
    match v {
        Value::Integer(n) => assert_eq!(n, 3),
        other => panic!("unexpected value: {:?}", other),
    }
}

#[test]
fn evaluate_unary_minus() {
    let (mut interpreter, expr) = parse_expr("-5");
    let v = interpreter.evaluate(&expr).unwrap_or_else(|_| panic!("eval error"));
    match v {
        Value::Integer(n) => assert_eq!(n, -5),
        other => panic!("unexpected value: {:?}", other),
    }
}

#[test]
fn evaluate_logic_not_truthiness() {
    let (mut interpreter, expr) = parse_expr("!123");
    let v = interpreter.evaluate(&expr).unwrap_or_else(|_| panic!("eval error"));
    match v {
        Value::Bool(b) => assert_eq!(b, false),
        other => panic!("unexpected value: {:?}", other),
    }
}

#[test]
fn evaluate_variable_lookup() {
    let (mut interpreter, expr) = parse_expr("a");
    // define variable in environment
    let current = interpreter.environment;
    interpreter.scopes.define(current, "a".to_string(), Value::Integer(42));
    let v = interpreter.evaluate(&expr).unwrap_or_else(|_| panic!("eval error"));
    match v {
        Value::Integer(n) => assert_eq!(n, 42),
        other => panic!("unexpected value: {:?}", other),
    }
}

#[test]
fn function_call_returns_sum() {
    // Parse a function declaration
    let (mut interpreter, statements) = parse_stmts(
        "
        fun add(x, y) {
            return x + y;
        }
        ",
    );
    // Make sure we have only one statement which is the function declaration
    assert!(statements.len() == 1, "expected one statement");
    let stmt = statements.into_iter().next().expect("one statement expected");

    // bind in current environment
    let env: EnvRef = interpreter.scopes.new_scope(None);
    interpreter.environment = env;

    // Build function from statement
    let func = Function::from_statement(&stmt, env).unwrap_or_else(|| panic!("function build error"));

    // Call the function with args
    let result = func.call(&mut interpreter, vec![Value::Float(float(2.0)), Value::Float(float(3.0))]);
    match result {
        Ok(value) => assert!(matches!(value, Value::Float(n) if number(n) == 5.0)),
        Err(control_flow) => {
            panic!("unexpected control flow: {:?}", control_flow);
        }
    }
}

#[test]
fn evaluate_string_concatenation() {
    let (mut interpreter, expr) = parse_expr("\"hello\" + \" world\"");
    let v = interpreter.evaluate(&expr).unwrap_or_else(|_| panic!("eval error"));
    match v {
        Value::Str(s) => assert_eq!(s, "hello world"),
        other => panic!("unexpected value: {:?}", other),
    }
}

#[test]
fn evaluate_multiplication_and_division() {
    let (mut interpreter, expr) = parse_expr("6 * 7");
    let v = interpreter.evaluate(&expr).unwrap_or_else(|_| panic!("eval error"));
    match v {
        Value::Integer(n) => assert_eq!(n, 42),
        other => panic!("unexpected value: {:?}", other),
    }

    let (mut interpreter, expr) = parse_expr("20 / 4");
    let v = interpreter.evaluate(&expr).unwrap_or_else(|_| panic!("eval error"));
    match v {
        Value::Float(n) => assert_eq!(number(n), 5.0),
        other => panic!("unexpected value: {:?}", other),
    }
}

#[test]
fn evaluate_comparison_operators() {
    let (mut interpreter, expr) = parse_expr("5 > 3");
    let v = interpreter.evaluate(&expr).unwrap_or_else(|_| panic!("eval error"));
    match v {
        Value::Bool(b) => assert_eq!(b, true),
        other => panic!("unexpected value: {:?}", other),
    }

    let (mut interpreter, expr) = parse_expr("2 <= 10");
    let v = interpreter.evaluate(&expr).unwrap_or_else(|_| panic!("eval error"));
    match v {
        Value::Bool(b) => assert_eq!(b, true),
        other => panic!("unexpected value: {:?}", other),
    }

    let (mut interpreter, expr) = parse_expr("7 == 7");
    let v = interpreter.evaluate(&expr).unwrap_or_else(|_| panic!("eval error"));
    match v {
        Value::Bool(b) => assert_eq!(b, true),
        other => panic!("unexpected value: {:?}", other),
    }
}

#[test]
fn evaluate_logical_operators() {
    let (mut interpreter, expr) = parse_expr("true and false");
    let v = interpreter.evaluate(&expr).unwrap_or_else(|_| panic!("eval error"));
    match v {
        Value::Bool(b) => assert_eq!(b, false),
        other => panic!("unexpected value: {:?}", other),
    }

    let (mut interpreter, expr) = parse_expr("true or false");
    let v = interpreter.evaluate(&expr).unwrap_or_else(|_| panic!("eval error"));
    match v {
        Value::Bool(b) => assert_eq!(b, true),
        other => panic!("unexpected value: {:?}", other),
    }
}

#[test]
fn evaluate_grouped_expressions() {
    let (mut interpreter, expr) = parse_expr("(1 + 2) * 3");
    let v = interpreter.evaluate(&expr).unwrap_or_else(|_| panic!("eval error"));
    match v {
        Value::Integer(n) => assert_eq!(n, 9),
        other => panic!("unexpected value: {:?}", other),
    }
}

#[test]
fn evaluate_nil_value() {
    let (mut interpreter, expr) = parse_expr("nil");
    let v = interpreter.evaluate(&expr).unwrap_or_else(|_| panic!("eval error"));
    match v {
        Value::Nil => {}
        other => panic!("unexpected value: {:?}", other),
    }
}

#[test]
fn evaluate_subtraction() {
    let (mut interpreter, expr) = parse_expr("10 - 3");
    let v = interpreter.evaluate(&expr).unwrap_or_else(|_| panic!("eval error"));
    match v {
        Value::Integer(n) => assert_eq!(n, 7),
        other => panic!("unexpected value: {:?}", other),
    }
}

#[test]
fn evaluate_nested_arithmetic() {
    let (mut interpreter, expr) = parse_expr("2 * 3 + 4 * 5");
    let v = interpreter.evaluate(&expr).unwrap_or_else(|_| panic!("eval error"));
    match v {
        Value::Integer(n) => assert_eq!(n, 26),
        other => panic!("unexpected value: {:?}", other),
    }
}

#[test]
fn evaluate_inequality() {
    let (mut interpreter, expr) = parse_expr("5 != 3");
    let v = interpreter.evaluate(&expr).unwrap_or_else(|_| panic!("eval error"));
    match v {
        Value::Bool(b) => assert_eq!(b, true),
        other => panic!("unexpected value: {:?}", other),
    }

    let (mut interpreter, expr) = parse_expr("7 != 7");
    let v = interpreter.evaluate(&expr).unwrap_or_else(|_| panic!("eval error"));
    match v {
        Value::Bool(b) => assert_eq!(b, false),
        other => panic!("unexpected value: {:?}", other),
    }
}

#[test]
fn evaluate_boolean_literals() {
    let (mut interpreter, expr) = parse_expr("true");
    let v = interpreter.evaluate(&expr).unwrap_or_else(|_| panic!("eval error"));
    match v {
        Value::Bool(b) => assert_eq!(b, true),
        other => panic!("unexpected value: {:?}", other),
    }

    let (mut interpreter, expr) = parse_expr("false");
    let v = interpreter.evaluate(&expr).unwrap_or_else(|_| panic!("eval error"));
    match v {
        Value::Bool(b) => assert_eq!(b, false),
        other => panic!("unexpected value: {:?}", other),
    }
}

/// What an expression evaluates to, as text: the value, or the error.
fn value_of(input: &str) -> String {
    let (mut interpreter, expr) = parse_expr(input);
    match interpreter.evaluate(&expr) {
        Ok(Value::Float(f)) => format!("float {}", number(f)),
        Ok(Value::Integer(i)) => format!("integer {}", i),
        Ok(Value::Str(s)) => format!("string {}", s),
        Ok(other) => other.to_string().unwrap(),
        Err(ControlFlow::RuntimeError(e)) => e.to_string(),
        Err(ControlFlow::Return(_)) => "return".to_string(),
    }
}

/// Runs a program through every stage. Gives the lines it printed and the
/// runtime error it ended with, if any.
fn run(input: &str) -> (Vec<String>, Option<String>) {
    let mut scanner = rust_interpreter::Scanner::new(input);
    scanner.scan_tokens();
    assert!(!scanner.had_error());
    let mut parser = Parser::new(scanner.into_tokens().tokens);
    let mut statements = parser.parse();
    assert!(!parser.had_error(), "{:?}", parser.syntax_errors());
    let mut interpreter = Interpreter::new(Machine);
    {
        let mut resolver = Resolver::new(&mut interpreter);
        resolver.resolve_statements(&mut statements).unwrap_or_else(|e| panic!("{}", e.to_string()));
    }
    let error = interpreter.interpret(&statements).err().map(|e| e.to_string());
    (interpreter.output.clone(), error)
}

fn resolution_error(input: &str) -> Option<String> {
    let mut parser = Parser::new(scan(input).tokens);
    let mut statements = parser.parse();
    assert!(!parser.had_error(), "{:?}", parser.syntax_errors());
    let mut interpreter = Interpreter::new(Machine);
    let mut resolver = Resolver::new(&mut interpreter);
    resolver.resolve_statements(&mut statements).err().map(|e| e.to_string())
}

#[test]
fn integer_arithmetic_is_exact() {
    assert_eq!(value_of("6 * 7"), "integer 42");
    assert_eq!(value_of("2 - 5"), "integer -3");
    assert_eq!(value_of("9223372036854775806 + 1"), "integer 9223372036854775807");
    assert_eq!(value_of("0 - 9223372036854775807 - 1"), "integer -9223372036854775808");
    assert_eq!(value_of("3037000499 * 3037000499"), "integer 9223372030926249001");
}

#[test]
fn integer_overflow_is_a_runtime_error() {
    assert_eq!(
        value_of("9223372036854775807 + 1"),
        "[line 1] RuntimeError: Error at '+': Integer overflow."
    );
    assert_eq!(
        value_of("3037000500 * 3037000500"),
        "[line 1] RuntimeError: Error at '*': Integer overflow."
    );
    assert_eq!(
        value_of("0 - 9223372036854775807 - 2"),
        "[line 1] RuntimeError: Error at '-': Integer overflow."
    );
    assert_eq!(
        value_of("-(0 - 9223372036854775807 - 1)"),
        "[line 1] RuntimeError: Error at '-': Integer overflow."
    );
}

#[test]
fn integer_literals_stop_at_the_largest_integer() {
    assert_eq!(value_of("9223372036854775807"), "integer 9223372036854775807");
    assert_eq!(value_of("9223372036854775808"), "integer 9223372036854775807");
    assert_eq!(value_of("99999999999999999999999"), "integer 9223372036854775807");
    assert_eq!(value_of("007"), "integer 7");
}

#[test]
fn division_always_gives_a_float() {
    assert_eq!(value_of("20 / 4"), "float 5");
    assert_eq!(value_of("7 / 2"), "float 3.5");
    assert_eq!(value_of("1 / 0"), "float inf");
}

#[test]
fn arithmetic_with_a_float_gives_a_float() {
    assert_eq!(value_of("1.5 + 2"), "float 3.5");
    assert_eq!(value_of("2 * 0.25"), "float 0.5");
    assert_eq!(value_of("1.0 - 1"), "float 0");
    assert_eq!(value_of("-2.5"), "float -2.5");
    assert_eq!(value_of("2.0"), "float 2");
}

#[test]
fn comparisons_need_numbers() {
    assert_eq!(value_of("1 < 2"), "true");
    assert_eq!(value_of("2 < 2"), "false");
    assert_eq!(value_of("2 <= 2"), "true");
    assert_eq!(value_of("3 >= 4"), "false");
    assert_eq!(value_of("1.5 > 1"), "true");
    assert_eq!(value_of("1 >= 1.0"), "true");
    assert_eq!(
        value_of("\"a\" < 1"),
        "[line 1] RuntimeError: Error at '<': Operand must be a number for <"
    );
    assert_eq!(
        value_of("1 >= nil"),
        "[line 1] RuntimeError: Error at '>=': Operand must be a number for >="
    );
}

#[test]
fn plus_joins_strings_and_rejects_mixtures() {
    assert_eq!(value_of("\"ab\" + \"\" + \"c\""), "string abc");
    assert_eq!(
        value_of("\"a\" + 1"),
        "[line 1] RuntimeError: Error at '+': Operands must be two numbers or two strings for '+'"
    );
    assert_eq!(
        value_of("1 + \"a\""),
        "[line 1] RuntimeError: Error at '+': Operands must be two numbers or two strings for '+'"
    );
    assert_eq!(
        value_of("\"a\" - \"b\""),
        "[line 1] RuntimeError: Error at '-': Operands must be two numbers for '-'"
    );
    assert_eq!(
        value_of("nil * 2"),
        "[line 1] RuntimeError: Error at '*': Operands must be two numbers for '*'"
    );
    assert_eq!(
        value_of("true / 2"),
        "[line 1] RuntimeError: Error at '/': Operands must be two numbers for '/'"
    );
}

#[test]
fn not_tells_truthiness_and_minus_needs_a_number() {
    assert_eq!(value_of("!nil"), "true");
    assert_eq!(value_of("!false"), "true");
    assert_eq!(value_of("!0"), "false");
    assert_eq!(value_of("!\"\""), "false");
    assert_eq!(value_of("!true"), "false");
    assert_eq!(value_of("-(3)"), "integer -3");
    assert_eq!(
        value_of("-\"a\""),
        "[line 1] RuntimeError: Error at '-': Operand must be a number for unary '-'"
    );
    assert_eq!(
        value_of("-nil"),
        "[line 1] RuntimeError: Error at '-': Operand must be a number for unary '-'"
    );
}

#[test]
fn equality_never_holds_across_kinds() {
    assert_eq!(value_of("7 == 7"), "true");
    assert_eq!(value_of("\"7\" == 7"), "false");
    assert_eq!(value_of("\"7\" != 7"), "true");
    assert_eq!(value_of("7 == 7.0"), "false");
    assert_eq!(value_of("7.0 == 7.0"), "true");
    assert_eq!(value_of("nil == false"), "false");
    assert_eq!(value_of("nil == nil"), "true");
    assert_eq!(value_of("true == true"), "true");
    assert_eq!(value_of("\"a\" == \"a\""), "true");
    assert_eq!(value_of("\"a\" == \"b\""), "false");
    assert_eq!(value_of("0 == nil"), "false");
    assert_eq!(value_of("clock == clock"), "false");
}

#[test]
fn logic_operators_short_circuit_and_give_an_operand() {
    assert_eq!(value_of("nil or \"x\""), "string x");
    assert_eq!(value_of("1 or missing"), "integer 1");
    assert_eq!(value_of("nil and missing"), "nil");
    assert_eq!(value_of("1 and 2"), "integer 2");
    assert_eq!(value_of("false or missing"), "[line 1] RuntimeError: Undefined variable 'missing'.");
}

#[test]
fn undefined_variables_are_runtime_errors() {
    assert_eq!(value_of("a"), "[line 1] RuntimeError: Undefined variable 'a'.");
    assert_eq!(value_of("\n a = 1"), "[line 2] RuntimeError: Undefined variable 'a'.");
}

#[test]
fn only_callables_can_be_called() {
    assert_eq!(
        value_of("\"f\"(1)"),
        "[line 1] RuntimeError: Error at ')': Can only call functions and classes."
    );
    assert_eq!(
        value_of("nil()"),
        "[line 1] RuntimeError: Error at ')': Can only call functions and classes."
    );
}

#[test]
fn the_clock_is_the_hosts() {
    assert_eq!(value_of("clock()"), "float 1234.5");
    assert_eq!(value_of("clock"), "<fn clock>");
    assert_eq!(
        value_of("clock(1)"),
        "[line 1] RuntimeError: Error at ')': Expected 0 arguments but got 1."
    );
}

#[test]
fn end_to_end_function_call_prints_the_sum() {
    let (output, error) = run("fun add(x, y) { return x + y; } print add(2, 3);");
    assert_eq!(error, None);
    assert_eq!(output, vec!["5".to_string()]);
}

#[test]
fn for_loop_prints_what_the_while_loop_prints() {
    let (for_output, error) = run("for (var i = 0; i < 3; i = i + 1) print i;");
    assert_eq!(error, None);
    let (while_output, error) = run("{ var i = 0; while (i < 3) { print i; i = i + 1; } }");
    assert_eq!(error, None);
    assert_eq!(for_output, vec!["0".to_string(), "1".to_string(), "2".to_string()]);
    assert_eq!(for_output, while_output);
}

#[test]
fn wrong_argument_counts_are_runtime_errors() {
    let (output, error) = run("fun f(a, b) { print a; } print 1; f(1); print 2;");
    assert_eq!(output, vec!["1".to_string()]);
    assert_eq!(
        error,
        Some("[line 1] RuntimeError: Error at ')': Expected 2 arguments but got 1.".to_string())
    );
    let (_, error) = run("fun f() {}\nf(1, 2,\n 3);");
    assert_eq!(
        error,
        Some("[line 3] RuntimeError: Error at ')': Expected 0 arguments but got 3.".to_string())
    );
}

#[test]
fn calling_a_function_directly_checks_the_argument_count() {
    let (mut interpreter, statements) = parse_stmts("fun f(a) { return a; }");
    let function = Function::from_statement(&statements[0], 0).unwrap();
    assert_eq!(function.arity(), 1);
    assert_eq!(function.name(), "f");
    assert_eq!(function.to_string(), "<fn f>");
    match function.call(&mut interpreter, vec![]) {
        Err(ControlFlow::RuntimeError(e)) => {
            assert_eq!(e.to_string(), "[line 0] RuntimeError: Expected 1 arguments but got 0.")
        }
        other => panic!("unexpected outcome: {:?}", other),
    }
    match function.call(&mut interpreter, vec![Value::Integer(9)]) {
        Ok(Value::Integer(9)) => {}
        other => panic!("unexpected outcome: {:?}", other),
    }
    assert!(Function::from_statement(&Statement::Block { statements: vec![] }, 0).is_none());
}

#[test]
fn closures_see_later_assignments() {
    let (output, error) = run(
        "var count = 0;
         fun show() { print count; }
         show();
         count = 5;
         show();
         {
             var inner = 1;
             fun peek() { print inner; }
             peek();
             inner = inner + 1;
             peek();
         }",
    );
    assert_eq!(error, None);
    assert_eq!(output, vec!["0", "5", "1", "2"]);
}

#[test]
fn closures_outlive_the_call_that_made_them() {
    let (output, error) = run(
        "fun counter() {
             var n = 0;
             fun next() { n = n + 1; return n; }
             return next;
         }
         var a = counter();
         var b = counter();
         print a(); print a(); print b(); print a();",
    );
    assert_eq!(error, None);
    assert_eq!(output, vec!["1", "2", "1", "3"]);
}

#[test]
fn shadowing_resolves_to_the_nearest_declaration() {
    let (output, error) = run(
        "var a = \"global\";
         {
             var a = \"outer\";
             {
                 var a = \"inner\";
                 print a;
             }
             print a;
             {
                 print a;
             }
         }
         print a;",
    );
    assert_eq!(error, None);
    assert_eq!(output, vec!["inner", "outer", "outer", "global"]);
}

#[test]
fn a_closure_keeps_the_binding_it_was_resolved_to() {
    let (output, error) = run(
        "var a = \"global\";
         {
             fun show() { print a; }
             show();
             var a = \"block\";
             show();
         }",
    );
    assert_eq!(error, None);
    assert_eq!(output, vec!["global", "global"]);
}

#[test]
fn parameters_can_be_redeclared_in_the_body() {
    let (output, error) = run("fun f(a) { print a; var a = 2; print a; } f(1);");
    assert_eq!(error, None);
    assert_eq!(output, vec!["1", "2"]);
    assert_eq!(
        resolution_error("fun f(a) { var a = a + 1; }"),
        Some(
            "[line 1] ParseError: At 'a': Can't read local variable in its own initializer"
                .to_string()
        )
    );
}

#[test]
fn recursion_and_return_values() {
    let (output, error) = run(
        "fun fib(n) { if (n < 2) return n; return fib(n - 1) + fib(n - 2); }
         print fib(15);
         fun nothing() {}
         print nothing();
         fun early() { while (true) { return \"out\"; } }
         print early();",
    );
    assert_eq!(error, None);
    assert_eq!(output, vec!["610", "nil", "out"]);
}

#[test]
fn print_shows_every_kind_of_value() {
    let (output, error) = run(
        "fun f() {} print 1; print -2; print 2.5; print 10 / 4; print \"s\"; print true; print nil; print f; print clock;",
    );
    assert_eq!(error, None);
    assert_eq!(output, vec!["1", "-2", "2.5", "2.5", "s", "true", "nil", "<fn f>", "<fn clock>"]);
}

#[test]
fn a_runtime_error_stops_the_program_but_keeps_the_output() {
    let (output, error) = run("print 1;\nprint 2 + \"x\";\nprint 3;");
    assert_eq!(output, vec!["1"]);
    assert_eq!(
        error,
        Some(
            "[line 2] RuntimeError: Error at '+': Operands must be two numbers or two strings for '+'"
                .to_string()
        )
    );
}

#[test]
fn reading_a_variable_in_its_own_initializer_is_a_resolution_error() {
    assert_eq!(
        resolution_error("{ var a = a; }"),
        Some(
            "[line 1] ParseError: At 'a': Can't read local variable in its own initializer"
                .to_string()
        )
    );
    assert_eq!(resolution_error("var a = 1; { var b = a; }"), None);
    assert_eq!(resolution_error("var a = a;"), None);
}

#[test]
fn declaring_a_name_twice_in_one_scope_is_a_resolution_error() {
    assert_eq!(
        resolution_error("{ var a = 1;\n var a = 2; }"),
        Some(
            "[line 2] ParseError: At 'a': Variable with this name already declared in this scope"
                .to_string()
        )
    );
    assert_eq!(
        resolution_error("fun f(a, a) {}"),
        Some(
            "[line 1] ParseError: At 'a': Variable with this name already declared in this scope"
                .to_string()
        )
    );
    assert_eq!(resolution_error("var a = 1; var a = 2;"), None);
    assert_eq!(resolution_error("{ var a = 1; { var a = 2; } }"), None);
}

#[test]
fn return_outside_a_function_is_a_resolution_error() {
    assert_eq!(
        resolution_error("return 1;"),
        Some("[line 1] ParseError: At 'return': Can't return from top-level code".to_string())
    );
    assert_eq!(
        resolution_error("{ if (true) return; }"),
        Some("[line 1] ParseError: At 'return': Can't return from top-level code".to_string())
    );
    assert_eq!(resolution_error("fun f() { if (true) return; }"), None);
}

#[test]
fn the_budget_bounds_evaluation() {
    let tokens = scan("while (true) {}");
    let mut parser = Parser::new(tokens.tokens);
    let statements = parser.parse();
    let mut interpreter = Interpreter::with_budget(Machine, 1000);
    let error = interpreter.interpret(&statements).unwrap_err();
    assert_eq!(error.to_string(), "[line 0] RuntimeError: Evaluation budget exhausted.");
    assert_eq!(interpreter.fuel, 0);
}

#[test]
fn without_resolution_names_are_looked_up_globally() {
    let tokens = scan("var a = 1; a = a + 1; print a; fun f() { return a; } print f();");
    let mut parser = Parser::new(tokens.tokens);
    let statements = parser.parse();
    let mut interpreter = Interpreter::new(Machine);
    assert!(interpreter.interpret(&statements).is_ok());
    assert_eq!(interpreter.output, vec!["2", "2"]);
}

#[test]
fn environments_define_get_and_assign() {
    let mut scopes: Environment = Environment::new();
    let inner = scopes.new_scope(Some(0));
    let innermost = scopes.new_scope(Some(inner));
    scopes.define(0, "a".to_string(), Value::Integer(1));
    scopes.define(inner, "b".to_string(), Value::Integer(2));
    scopes.define(inner, "b".to_string(), Value::Integer(3));
    assert!(matches!(scopes.get(innermost, "a", 1), Ok(Value::Integer(1))));
    assert!(matches!(scopes.get(innermost, "b", 1), Ok(Value::Integer(3))));
    assert!(matches!(scopes.get(0, "b", 1), Err(ControlFlow::RuntimeError(_))));
    assert!(matches!(scopes.get_at(innermost, 1, "b", 1), Ok(Value::Integer(3))));
    assert!(matches!(scopes.get_at(innermost, 2, "a", 1), Ok(Value::Integer(1))));
    match scopes.get_at(innermost, 1, "a", 7) {
        Err(ControlFlow::RuntimeError(e)) => {
            assert_eq!(e.to_string(), "[line 7] RuntimeError: Undefined variable 'a'.")
        }
        other => panic!("unexpected outcome: {:?}", other),
    }
    assert!(scopes.get_at(innermost, 3, "a", 1).is_err());
    assert!(scopes.assign(innermost, "a", Value::Integer(10), 1).is_ok());
    assert!(matches!(scopes.get(0, "a", 1), Ok(Value::Integer(10))));
    assert!(scopes.assign(innermost, "zz", Value::Nil, 1).is_err());
    assert!(scopes.assign_at(innermost, 1, "b", Value::Integer(20), 1).is_ok());
    assert!(matches!(scopes.get(inner, "b", 1), Ok(Value::Integer(20))));
    assert!(scopes.assign_at(innermost, 0, "b", Value::Nil, 1).is_err());
    assert!(scopes.assign_at(innermost, 9, "b", Value::Nil, 1).is_err());
    assert_eq!(scopes.len(), 3);
}

fn token(token_type: rust_interpreter::TokenType, lexeme: &str) -> rust_interpreter::Token {
    rust_interpreter::Token::new(token_type, lexeme.to_string(), None, 1)
}

fn variable(name: &str) -> Expr {
    Expr::Variable {
        name: token(rust_interpreter::TokenType::Identifier, name),
        depth: rust_interpreter::Depth::Unresolved,
    }
}

/// The resolution slots of the references in a program, in the order in
/// which the references are written.
fn slots(input: &str) -> Vec<(String, rust_interpreter::Depth)> {
    fn in_expr(e: &Expr, out: &mut Vec<(String, rust_interpreter::Depth)>) {
        match e {
            Expr::Assign { name, value, depth } => {
                in_expr(value, out);
                out.push((name.lexeme.clone(), *depth));
            }
            Expr::LogicOr { left, right }
            | Expr::LogicAnd { left, right }
            | Expr::Binary { left, right, .. } => {
                in_expr(left, out);
                in_expr(right, out);
            }
            Expr::Literal { .. } => {}
            Expr::Grouping { expression } => in_expr(expression, out),
            Expr::Unary { right, .. } => in_expr(right, out),
            Expr::Variable { name, depth } => out.push((name.lexeme.clone(), *depth)),
            Expr::Call { callee, arguments, .. } => {
                in_expr(callee, out);
                for argument in arguments {
                    in_expr(argument, out);
                }
            }
            Expr::Lambda { body, .. } => {
                for statement in body {
                    in_stmt(statement, out);
                }
            }
        }
    }
    fn in_stmt(s: &Statement, out: &mut Vec<(String, rust_interpreter::Depth)>) {
        match s {
            Statement::Expression { expression } | Statement::Print { expression } => {
                in_expr(expression, out)
            }
            Statement::If { condition, then_branch, else_branch } => {
                in_expr(condition, out);
                in_stmt(then_branch, out);
                if let Some(other) = else_branch {
                    in_stmt(other, out);
                }
            }
            Statement::Var { initializer, .. } => {
                if let Some(e) = initializer {
                    in_expr(e, out);
                }
            }
            Statement::While { condition, body } => {
                in_expr(condition, out);
                in_stmt(body, out);
            }
            Statement::Block { statements } | Statement::Function { body: statements, .. } => {
                for statement in statements {
                    in_stmt(statement, out);
                }
            }
            Statement::Return { value, .. } => {
                if let Some(e) = value {
                    in_expr(e, out);
                }
            }
        }
    }
    let (_, statements) = parse_stmts(input);
    let mut out = Vec::new();
    for statement in &statements {
        in_stmt(statement, &mut out);
    }
    out
}

#[test]
fn resolution_distances_count_scopes_to_the_nearest_declaration() {
    assert_eq!(
        slots("var g; { var a; { var b; a; b; g; { a = b; } } }"),
        vec![
            ("a".to_string(), Resolved(1)),
            ("b".to_string(), Resolved(0)),
            ("g".to_string(), Unresolved),
            ("b".to_string(), Resolved(1)),
            ("a".to_string(), Resolved(2)),
        ]
    );
    assert_eq!(
        slots("{ var a; { var a; a; } a; }"),
        vec![("a".to_string(), Resolved(0)), ("a".to_string(), Resolved(0))]
    );
}

#[test]
fn parameters_lie_one_scope_outside_the_body() {
    assert_eq!(
        slots("fun f(x) { var y = x; return x + y + f; }"),
        vec![
            ("x".to_string(), Resolved(1)),
            ("x".to_string(), Resolved(1)),
            ("y".to_string(), Resolved(0)),
            ("f".to_string(), Unresolved),
        ]
    );
    assert_eq!(
        slots("{ fun f(x) { return f(x); } }"),
        vec![("f".to_string(), Resolved(2)), ("x".to_string(), Resolved(1))]
    );
}

#[test]
fn the_interpreter_writes_a_distance_into_references_only() {
    let mut interpreter = Interpreter::new(Machine);
    let mut reference = variable("a");
    interpreter.resolve(&mut reference, 3);
    assert!(matches!(
        reference,
        Expr::Variable { depth: rust_interpreter::Depth::Resolved(3), .. }
    ));
    let mut assignment = Expr::Assign {
        name: token(rust_interpreter::TokenType::Identifier, "a"),
        value: Box::new(variable("b")),
        depth: rust_interpreter::Depth::Unresolved,
    };
    interpreter.resolve(&mut assignment, 2);
    match &assignment {
        Expr::Assign { depth, value, .. } => {
            assert_eq!(*depth, rust_interpreter::Depth::Resolved(2));
            assert!(matches!(
                **value,
                Expr::Variable { depth: rust_interpreter::Depth::Unresolved, .. }
            ));
        }
        other => panic!("unexpected expression: {:?}", other),
    }
    let mut group = Expr::Grouping { expression: Box::new(variable("a")) };
    interpreter.resolve(&mut group, 1);
    match &group {
        Expr::Grouping { expression } => assert!(matches!(
            **expression,
            Expr::Variable { depth: rust_interpreter::Depth::Unresolved, .. }
        )),
        other => panic!("unexpected expression: {:?}", other),
    }
}

#[test]
fn function_expressions_close_over_the_current_scope() {
    // fun (x) { return x + n; }, called in a block where n is 10
    let plus = token(rust_interpreter::TokenType::Plus, "+");
    let lambda = Expr::Lambda {
        params: vec![token(rust_interpreter::TokenType::Identifier, "x")],
        body: vec![Statement::Return {
            keyword: token(rust_interpreter::TokenType::Keyword(rust_interpreter::Keyword::Return), "return"),
            value: Some(Expr::Binary {
                left: Box::new(variable("x")),
                operator: plus,
                right: Box::new(variable("n")),
            }),
        }],
    };
    let mut statements = vec![Statement::Block {
        statements: vec![
            Statement::Var {
                name: token(rust_interpreter::TokenType::Identifier, "n"),
                initializer: Some(Expr::Literal {
                    value: rust_interpreter::Token::new(
                        rust_interpreter::TokenType::Number,
                        "10".to_string(),
                        Some(rust_interpreter::Literal::Number("10".to_string())),
                        1,
                    ),
                }),
            },
            Statement::Print {
                expression: Expr::Call {
                    callee: Box::new(lambda),
                    paren: token(rust_interpreter::TokenType::RightParen, ")"),
                    arguments: vec![Expr::Literal {
                        value: rust_interpreter::Token::new(
                            rust_interpreter::TokenType::Number,
                            "5".to_string(),
                            Some(rust_interpreter::Literal::Number("5".to_string())),
                            1,
                        ),
                    }],
                },
            },
        ],
    }];
    let mut interpreter = Interpreter::new(Machine);
    {
        let mut resolver = Resolver::new(&mut interpreter);
        resolver.resolve_statements(&mut statements).unwrap_or_else(|e| panic!("{}", e.to_string()));
    }
    assert!(interpreter.interpret(&statements).is_ok());
    assert_eq!(interpreter.output, vec!["15"]);
    let shown = rust_interpreter::AstPrinter.print_statements_to_string(&statements);
    assert_eq!(
        shown,
        "(block\n    (var n 10.0)\n    (print (call (lambda (params x) (body (return (+ (var x) (var n))))) 5.0)))\n"
    );
}

#[test]
fn unknown_operators_are_runtime_errors() {
    let mut interpreter = Interpreter::new(Machine);
    let comma = token(rust_interpreter::TokenType::Comma, ",");
    match interpreter.binary_operation(&comma, Value::Integer(1), Value::Integer(2)) {
        Err(ControlFlow::RuntimeError(e)) => assert_eq!(
            e.to_string(),
            "[line 1] RuntimeError: Error at ',': Unsupported binary operator: Comma"
        ),
        other => panic!("unexpected outcome: {:?}", other),
    }
    let star = token(rust_interpreter::TokenType::Star, "*");
    match interpreter.unary_operation(&star, Value::Integer(1)) {
        Err(ControlFlow::RuntimeError(e)) => assert_eq!(
            e.to_string(),
            "[line 1] RuntimeError: Error at '*': Unsupported unary operator: Star"
        ),
        other => panic!("unexpected outcome: {:?}", other),
    }
    let end = token(rust_interpreter::TokenType::Eof, "");
    match Interpreter::<Machine>::error(&end, "Oops.") {
        ControlFlow::RuntimeError(e) => {
            assert_eq!(e.to_string(), "[line 1] RuntimeError: Error at end: Oops.")
        }
        other => panic!("unexpected outcome: {:?}", other),
    }
}

#[test]
fn value_operations_one_by_one() {
    let mut interpreter = Interpreter::new(Machine);
    assert!(Interpreter::<Machine>::is_truthy(&Value::Integer(0)));
    assert!(!Interpreter::<Machine>::is_truthy(&Value::Nil));
    assert!(!Interpreter::<Machine>::is_truthy(&Value::Bool(false)));
    assert!(interpreter.is_equal(&Value::Str("a".to_string()), &Value::Str("a".to_string())));
    assert!(!interpreter.is_equal(&Value::Integer(1), &Value::Float(float(1.0))));
    assert!(interpreter.is_equal(&Value::Float(float(0.0)), &Value::Float(float(-0.0))));
    assert!(!interpreter.is_equal(&Value::Float(float(f64::NAN)), &Value::Float(float(f64::NAN))));
    assert_eq!(rust_interpreter::runtime::interpreter::integer_of("0"), 0);
    assert_eq!(rust_interpreter::runtime::interpreter::integer_of("1234567890"), 1234567890);
    assert!(rust_interpreter::runtime::interpreter::integer_comparison(
        rust_interpreter::TokenType::LessEqual,
        -1,
        -1
    ));
    assert!(rust_interpreter::runtime::interpreter::ordering_holds(
        rust_interpreter::TokenType::GreaterEqual,
        FloatOrder::Equal
    ));
    assert!(!rust_interpreter::runtime::interpreter::ordering_holds(
        rust_interpreter::TokenType::Less,
        FloatOrder::Unordered
    ));
    assert_eq!(Value::Float(float(1.0)).to_string(), None);
    assert_eq!(Value::Integer(-12).to_string(), Some("-12".to_string()));
    assert_eq!(
        Value::Integer(i64::MIN).to_string(),
        Some("-9223372036854775808".to_string())
    );
}

#[test]
fn comparisons_with_nan_never_hold() {
    assert_eq!(value_of("0.0 / 0.0 < 1"), "false");
    assert_eq!(value_of("0.0 / 0.0 >= 1"), "false");
    assert_eq!(value_of("0.0 / 0.0 == 0.0 / 0.0"), "false");
    assert_eq!(value_of("0.0 / 0.0 != 0.0 / 0.0"), "true");
}

#[test]
fn blocks_run_in_the_scope_they_are_given() {
    let tokens = scan("var a = 1; print 7;");
    let mut parser = Parser::new(tokens.tokens);
    let statements = parser.parse();
    let mut interpreter = Interpreter::new(Machine);
    let scope = interpreter.scopes.new_scope(Some(0));
    let before = interpreter.environment;
    assert!(interpreter.execute_block(&statements, scope).is_ok());
    assert_eq!(interpreter.environment, before);
    assert_eq!(interpreter.output, vec!["7"]);
    assert!(interpreter.scopes.get(0, "a", 1).is_err());
    assert!(matches!(interpreter.scopes.get(scope, "a", 1), Ok(Value::Integer(1))));
}

#[test]
fn the_scope_is_restored_after_an_error_inside_blocks() {
    let tokens = scan("{ { { print missing; } } }");
    let mut parser = Parser::new(tokens.tokens);
    let statements = parser.parse();
    let mut interpreter = Interpreter::new(Machine);
    let before = interpreter.environment;
    assert!(interpreter.interpret(&statements).is_err());
    assert_eq!(interpreter.environment, before);
}

#[test]
fn a_return_at_the_top_level_stops_nothing() {
    let tokens = scan("print 1; return 5; print 2;");
    let mut parser = Parser::new(tokens.tokens);
    let statements = parser.parse();
    let mut interpreter = Interpreter::new(Machine);
    assert!(interpreter.interpret(&statements).is_ok());
    assert_eq!(interpreter.output, vec!["1", "2"]);
    assert!(matches!(
        interpreter.execute(&statements[1]),
        Err(ControlFlow::Return(Value::Integer(5)))
    ));
}

#[test]
fn the_budget_counts_expressions_and_statements() {
    let (_, expr) = parse_expr("1 + 2");
    let mut interpreter = Interpreter::with_budget(Machine, 3);
    assert!(matches!(interpreter.evaluate(&expr), Ok(Value::Integer(3))));
    assert_eq!(interpreter.fuel, 0);
    let mut interpreter = Interpreter::with_budget(Machine, 2);
    match interpreter.evaluate(&expr) {
        Err(ControlFlow::RuntimeError(e)) => {
            assert_eq!(e.to_string(), "[line 0] RuntimeError: Evaluation budget exhausted.")
        }
        other => panic!("unexpected outcome: {:?}", other),
    }
}

#[test]
fn the_built_in_clock_and_callables() {
    assert_eq!(Clock.arity(), 0);
    assert_eq!(Clock.name(), "clock");
    assert_eq!(Clock.to_string(), "<native fn clock>");
    let clock = Callable::Clock(Clock);
    assert_eq!(clock.arity(), 0);
    assert_eq!(clock.name(), "clock");
    let (_, statements) = parse_stmts("fun three(a, b, c) {}");
    let function = Function::from_statement(&statements[0], 0).unwrap();
    let callable = Callable::Function(function);
    assert_eq!(callable.arity(), 3);
    assert_eq!(callable.name(), "three");
}

#[test]
fn errors_are_built_from_a_line_and_a_message() {
    let e = rust_interpreter::RuntimeError::new(12, "Boom.".to_string());
    assert_eq!(e.line, 12);
    assert_eq!(e.message, "Boom.");
    assert_eq!(e.to_string(), "[line 12] RuntimeError: Boom.");
    let p = rust_interpreter::ParseError::new(0, "Bad.".to_string());
    assert_eq!(p.to_string(), "[line 0] ParseError: Bad.");
    let p = rust_interpreter::ParseError::new(usize::MAX, String::new());
    assert_eq!(p.to_string(), format!("[line {}] ParseError: ", usize::MAX));
}
