use rust_interpreter::{scan, AstPrinter, Expr, ExprNode, Parser, Statement, TokenType};

#[test]
fn parse_simple_addition_expression() {
    let input = "1 + 2;";
    let tokens = scan(input);
    let mut parser = Parser::new(tokens.tokens);
    let expr = parser.expression().unwrap_or_else(|e| panic!("parse error: {}", e.to_string()));
    match expr {
        Expr::Binary { operator, .. } => {
            assert!(matches!(operator.token_type, TokenType::Plus));
        }
        _ => panic!("expected binary expression"),
    }
}

#[test]
fn parse_error_on_invalid_expression() {
    let input = "1 + ;";
    let tokens = scan(input);
    let mut parser = Parser::new(tokens.tokens);

    // This should result in a parse error (Result::Err)
    let result = parser.expression();
    assert!(result.is_err());
}

#[test]
fn parse_math_expression() {
    let input = "1 + 2 * 4 - 8 + 9 / 2.99 + (3 - (4 / 2));";
    let tokens = scan(input);
    let mut parser = Parser::new(tokens.tokens);
    let expr = parser.expression().unwrap_or_else(|e| panic!("parse error: {}", e.to_string()));

    // Use AstPrinter to get the string representation of the AST
    assert!(matches!(AstPrinter.print_to_string(&expr).as_str(), "(+ (+ (- (+ 1.0 (* 2.0 4.0)) 8.0) (/ 9.0 2.99)) (group (- 3.0 (group (/ 4.0 2.0)))))"));
}

fn printed(input: &str) -> String {
    let mut parser = Parser::new(scan(input).tokens);
    match parser.expression() {
        Ok(expr) => AstPrinter.print_to_string(&expr),
        Err(e) => e.to_string(),
    }
}

fn program(input: &str) -> (String, Vec<String>) {
    let mut parser = Parser::new(scan(input).tokens);
    let statements = parser.parse();
    let errors = parser.syntax_errors().iter().map(|e| e.to_string()).collect();
    (AstPrinter.print_statements_to_string(&statements), errors)
}

#[test]
fn binary_levels_associate_to_the_left() {
    assert_eq!(printed("1 - 2 - 3"), "(- (- 1.0 2.0) 3.0)");
    assert_eq!(printed("8 / 4 / 2"), "(/ (/ 8.0 4.0) 2.0)");
    assert_eq!(printed("1 < 2 < 3"), "(< (< 1.0 2.0) 3.0)");
    assert_eq!(printed("1 == 2 != 3"), "(!= (== 1.0 2.0) 3.0)");
}

#[test]
fn precedence_runs_from_logic_down_to_unary() {
    assert_eq!(
        printed("a or b and c == d < e + f * -g"),
        "(or (var a) (and (var b) (== (var c) (< (var d) (+ (var e) (* (var f) (- (var g))))))))"
    );
    assert_eq!(printed("!!true"), "(! (! true))");
    assert_eq!(printed("-f(1)"), "(- (call (var f) 1.0))");
}

#[test]
fn assignment_associates_to_the_right() {
    assert_eq!(printed("a = b = 3"), "(assign a (assign b 3.0))");
}

#[test]
fn assignment_target_must_be_a_variable() {
    assert_eq!(printed("1 = 2"), "[line 1] ParseError: Error at '=': Invalid assignment target.");
    assert_eq!(
        printed("(a) = 2"),
        "[line 1] ParseError: Error at '=': Invalid assignment target."
    );
}

#[test]
fn calls_collect_arguments_and_chain() {
    assert_eq!(printed("f()"), "(call (var f))");
    assert_eq!(printed("f(1, a + 2)(nil)"), "(call (call (var f) 1.0 (+ (var a) 2.0)) nil)");
    let mut parser = Parser::new(scan("f(1\n)").tokens);
    match parser.expression().unwrap() {
        Expr::Call { paren, arguments, .. } => {
            assert_eq!(paren.token_type, TokenType::RightParen);
            assert_eq!(paren.line, 2);
            assert_eq!(arguments.len(), 1);
        }
        other => panic!("expected a call, got {:?}", other),
    }
}

#[test]
fn expression_errors_name_the_offending_token() {
    assert_eq!(printed("1 + ;"), "[line 1] ParseError: Error at ';': Expect expression.");
    assert_eq!(printed("(1 + 2"), "[line 1] ParseError: Error at end: Expect expression.");
    assert_eq!(printed("f(1"), "[line 1] ParseError: Error at end: Expect ')' after arguments.");
    assert_eq!(printed("\n\n*"), "[line 3] ParseError: Error at '*': Expect expression.");
}

#[test]
fn parser_on_no_tokens_reports_the_end_of_input() {
    let mut parser = Parser::new(Vec::new());
    assert_eq!(
        parser.expression().unwrap_err().to_string(),
        "[line 0] ParseError: Error at end: Unexpected end of input"
    );
    let mut parser = Parser::new(Vec::new());
    assert!(parser.parse().is_empty());
    assert!(!parser.had_error());
}

#[test]
fn statements_of_every_kind() {
    let (text, errors) = program(
        "var a; var b = 1; print b; { a = b; } if (a) print 1; else print 2; while (a) a = nil; return; return a; a;",
    );
    assert!(errors.is_empty());
    assert_eq!(
        text,
        "(var a)\n(var b 1.0)\n(print (var b))\n(block\n    (expr (assign a (var b))))\n(if (var a)\n    (print 1.0)\n    (print 2.0))\n(while (var a)\n    (expr (assign a nil)))\n(return)\n(return (var a))\n(expr (var a))\n"
    );
}

#[test]
fn function_declarations_take_parameters_and_a_body() {
    let (text, errors) = program("fun add(x, y) { return x + y; } fun f() { { print 1; } }");
    assert!(errors.is_empty());
    assert_eq!(
        text,
        "(fun add (params x y)\n    (return (+ (var x) (var y))))\n(fun f (params)\n    (block\n        (print 1.0)))\n"
    );
}

#[test]
fn for_desugars_into_while() {
    let (for_text, errors) = program("for (var i = 0; i < 3; i = i + 1) print i;");
    assert!(errors.is_empty());
    let (while_text, errors) = program("{ var i = 0; while (i < 3) { print i; i = i + 1; } }");
    assert!(errors.is_empty());
    assert_eq!(for_text, while_text);
    assert_eq!(
        for_text,
        "(block\n    (var i 0.0)\n    (while (< (var i) 3.0)\n        (block\n            (print (var i))\n            (expr (assign i (+ (var i) 1.0))))))\n"
    );
}

#[test]
fn for_clauses_may_be_missing() {
    let (text, errors) = program("for (;;) print 1;");
    assert!(errors.is_empty());
    assert_eq!(text, "(while true\n    (print 1.0))\n");
    let (text, errors) = program("for (i = 0; ; ) print 1;");
    assert!(errors.is_empty());
    assert_eq!(text, "(block\n    (expr (assign i 0.0))\n    (while true\n        (print 1.0)))\n");
    let (text, errors) = program("for (; i < 2; i = i + 1) {}");
    assert!(errors.is_empty());
    assert_eq!(
        text,
        "(while (< (var i) 2.0)\n    (block\n        (block)\n        (expr (assign i (+ (var i) 1.0)))))\n"
    );
}

#[test]
fn parsing_resumes_after_each_faulty_statement() {
    let (text, errors) = program("print 1 print 2; var = 3; print 4; fun (a) {} print 5;");
    assert_eq!(
        errors,
        vec![
            "[line 1] ParseError: Error at 'print': Expect ';' after value.".to_string(),
            "[line 1] ParseError: Error at '=': Expect variable name.".to_string(),
            "[line 1] ParseError: Error at '(': Expect function name.".to_string(),
        ]
    );
    assert_eq!(text, "(print 4.0)\n(print 5.0)\n");
}

#[test]
fn missing_tokens_are_reported_by_name() {
    let cases = [
        ("var a = 1", "Error at end: Expect ';' after variable declaration."),
        ("a", "Error at end: Expect ';' after expression."),
        ("{ a;", "Error at end: Expect '}' after block."),
        ("if a", "Error at 'a': Expect '(' after 'if'."),
        ("if (a;", "Error at ';': Expect ')' after if condition."),
        ("while a", "Error at 'a': Expect '(' after 'while'."),
        ("while (a;", "Error at ';': Expect ')' after while condition."),
        ("for a", "Error at 'a': Expect '(' after 'for'."),
        ("for (;a)", "Error at ')': Expect ';' after loop condition."),
        ("for (;;a;", "Error at ';': Expect ')' after for clauses."),
        ("fun f", "Error at end: Expect '(' after function name."),
        ("fun f(1", "Error at '1': Expect parameter name."),
        ("fun f(a;", "Error at ';': Expect ')' after parameters."),
        ("fun f();", "Error at ';': Expect '{' before function body."),
        ("return 1", "Error at end: Expect ';' after return value."),
    ];
    for (source, message) in cases {
        let (_, errors) = program(source);
        assert_eq!(errors.len(), 1, "{}", source);
        assert_eq!(errors[0], format!("[line 1] ParseError: {}", message), "{}", source);
    }
}

#[test]
fn parse_yields_statement_variants() {
    let mut parser = Parser::new(scan("fun add(x, y) { return x + y; } print add(2, 3);").tokens);
    let statements = parser.parse();
    assert_eq!(statements.len(), 2);
    assert!(matches!(statements[0], Statement::Function { .. }));
    assert!(matches!(statements[1], Statement::Print { .. }));
}

#[test]
fn expressions_show_themselves() {
    let mut parser = Parser::new(scan("(1 + 2) * x").tokens);
    let expr = parser.expression().unwrap();
    assert_eq!(expr.visit(), "(* (group (+ 1.0 2.0)) (var x))");
    assert_eq!(AstPrinter.indent(0), "");
    assert_eq!(AstPrinter.indent(2), "        ");
}
