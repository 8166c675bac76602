use lib::expr::{Expr, Literal};
use lib::parser::Parser;
use lib::scanner::Scanner;
use lib::stmt::Stmt;
use lib::token::{Token, TokenType};

fn parse(src: &str) -> Result<Vec<Stmt>, String> {
    let mut scanner = Scanner::new(src);
    let tokens = scanner.scan_tokens().unwrap();
    let mut parser = Parser::new(tokens);
    parser.parse()
}

fn texts(src: &str) -> Vec<String> {
    parse(src).unwrap().iter().map(|s| s.to_string()).collect()
}

#[test]
fn empty_program_parses_to_nothing() {
    assert!(parse("").unwrap().is_empty());
}

#[test]
fn factor_binds_tighter_than_term() {
    assert_eq!(texts("1 + 2 * 3;"), vec!["+ 1 * 2 3"]);
}

#[test]
fn term_groups_to_the_left() {
    assert_eq!(texts("1 - 2 - 3;"), vec!["- - 1 2 3"]);
}

#[test]
fn factor_groups_to_the_right() {
    assert_eq!(texts("2 * 3 % 4;"), vec!["* 2 % 3 4"]);
}

#[test]
fn comparison_and_equality() {
    assert_eq!(texts("1 < 2 == true;"), vec!["== < 1 2 true"]);
    assert_eq!(texts("1<=2!=false;"), vec!["!= <= 1 2 false"]);
}

#[test]
fn grouping_and_unary() {
    assert_eq!(texts("(1 + 2);"), vec!["(+ 1 2)"]);
    assert_eq!(texts("-1;"), vec!["-1"]);
    assert_eq!(texts("! true;"), vec!["!true"]);
    assert_eq!(texts("!true;"), vec!["!true"]);
}

#[test]
fn logical_operators() {
    assert_eq!(texts("a or b;"), vec!["`a` or `b`"]);
    assert_eq!(texts("a and b or c;"), vec!["``a` and `b`` or `c`"]);
}

#[test]
fn assignment_to_variable_and_element() {
    assert_eq!(texts("x = 1;"), vec!["x = 1"]);
    let stmts = parse("a[0] = 2;").unwrap();
    match &stmts[0] {
        Stmt::Expression { expr: Expr::Assignment { name, position, .. } } => {
            assert_eq!(name.lexeme, "a");
            assert_eq!(position.as_ref().unwrap().to_string(), "0");
        },
        _ => panic!("not an assignment"),
    }
}

#[test]
fn invalid_assignment_target_is_an_error() {
    assert_eq!(parse("1 = 2;").err(), Some("Invalid assignment target 1".to_string()));
}

#[test]
fn missing_expression_reports_its_line() {
    // The first of a run of white-space characters is not counted, so the
    // `)` below stands on line 2.
    assert_eq!(parse("\n\n);").err(), Some("Line 2: Expected Expression".to_string()));
}

#[test]
fn errors_are_collected_and_joined() {
    assert_eq!(
        parse("); );").err(),
        Some("Line 1: Expected Expression\nLine 1: Expected Expression".to_string())
    );
}

#[test]
fn recovery_goes_on_after_an_error() {
    assert_eq!(
        parse("var = 1; var x = ;").err(),
        Some("Line 1: Expected variable name\nLine 1: Expected Expression".to_string())
    );
}

#[test]
fn variable_declarations() {
    let stmts = parse("var x = 1; var y;").unwrap();
    assert_eq!(stmts.len(), 2);
    match &stmts[0] {
        Stmt::Var { name, initializer: Some(init) } => {
            assert_eq!(name.lexeme, "x");
            assert_eq!(init.to_string(), "1");
        },
        _ => panic!("not a declaration"),
    }
    match &stmts[1] {
        Stmt::Var { name, initializer: None } => assert_eq!(name.lexeme, "y"),
        _ => panic!("not a declaration"),
    }
    assert_eq!(stmts[0].to_string(), "Variable: x (Identifier)");
}

#[test]
fn semicolons_are_optional() {
    assert_eq!(texts("1 2"), vec!["1", "2"]);
}

#[test]
fn calls_arrays_and_access() {
    assert_eq!(texts("f(1, 2);"), vec!["function )()"]);
    assert_eq!(texts("[1, 2, [3]];"), vec!["[1, 2, [3]]"]);
    assert_eq!(texts("[];"), vec!["[]"]);
    assert_eq!(texts("a[1 + 2];"), vec!["a[+ 1 2]"]);
    let stmts = parse("f(1)(2);").unwrap();
    match &stmts[0] {
        Stmt::Expression { expr: Expr::Call { callee, args, .. } } => {
            assert_eq!(args.len(), 1);
            assert!(matches!(**callee, Expr::Call { .. }));
        },
        _ => panic!("not a call"),
    }
}

#[test]
fn resolution_indices_count_up() {
    let stmts = parse("a; b[c]; d = e;").unwrap();
    let index_of = |s: &Stmt| match s {
        Stmt::Expression { expr } => match expr {
            Expr::Variable { index, .. } => *index,
            Expr::Access { index, .. } => *index,
            Expr::Assignment { index, .. } => *index,
            _ => panic!("unexpected expression"),
        },
        _ => panic!("unexpected statement"),
    };
    assert_eq!(index_of(&stmts[0]), 0);
    // `c` is read before the access to `b` is complete.
    assert_eq!(index_of(&stmts[1]), 2);
    // `d` gets its index when read; `e` comes next.
    assert_eq!(index_of(&stmts[2]), 3);
}

#[test]
fn literals_in_expressions() {
    let stmts = parse("nil; true; false; \"s\"; 2.50;").unwrap();
    let lits: Vec<&Literal> = stmts
        .iter()
        .map(|s| match s {
            Stmt::Expression { expr: Expr::Literal { literal } } => literal,
            _ => panic!("not a literal"),
        })
        .collect();
    assert_eq!(*lits[0], Literal::Nil);
    assert_eq!(*lits[1], Literal::Boolean(true));
    assert_eq!(*lits[2], Literal::Boolean(false));
    assert_eq!(*lits[3], Literal::Str("s".to_string()));
    assert_eq!(*lits[4], Literal::Number("2.50".to_string()));
}

#[test]
fn if_while_block_and_return() {
    assert_eq!(texts("if (x) 1; else 2;"), vec!["if x then 1\n else 2"]);
    assert_eq!(texts("if (x) 1;"), vec!["if x then 1\n else "]);
    assert_eq!(texts("while (x) { 1; 2; }"), vec!["while (x) 1\n2"]);
    assert_eq!(texts("{ 1; { 2; } }"), vec!["1\n2"]);
    assert_eq!(texts("return 1;"), vec!["returning 1"]);
    assert_eq!(texts("return;"), vec!["returning "]);
}

#[test]
fn missing_closing_brace_is_an_error() {
    // The end-of-file token stands on the line after the last.
    assert_eq!(parse("{ 1;").err(), Some("Line 2: Expected '}' after block".to_string()));
}

#[test]
fn function_declaration() {
    let stmts = parse("fun add(a, b) { return a + b; }").unwrap();
    assert_eq!(stmts[0].to_string(), "<function> add(2)");
    match &stmts[0] {
        Stmt::Function { name, params, body } => {
            assert_eq!(name.lexeme, "add");
            assert_eq!(params.iter().map(|p| p.lexeme.clone()).collect::<Vec<_>>(), vec!["a", "b"]);
            assert_eq!(body.len(), 1);
            assert!(matches!(body[0], Stmt::Return { value: Some(_) }));
        },
        _ => panic!("not a function"),
    }
    assert_eq!(texts("fun f() {}"), vec!["<function> f(0)"]);
}

#[test]
fn function_declaration_errors() {
    assert_eq!(parse("fun (a) {}").err(), Some("Line 1: Expected function name".to_string()));
    assert_eq!(parse("fun f a {}").err(), Some("Line 1: Expected '(' after function name".to_string()));
    assert_eq!(parse("fun f(1) {}").err(), Some("Line 1: Expected parameter name".to_string()));
    assert_eq!(parse("fun f(a) a;").err(), Some("Line 1: Expected '{' before function body.".to_string()));
}

#[test]
fn too_many_parameters() {
    let names: Vec<String> = (0..256).map(|_| "a".to_string()).collect();
    let src = format!("fun f({}) {{}}", names.join(","));
    assert_eq!(parse(&src).err(), Some("Line 1: Cant have more than 255 arguments".to_string()));
    let names: Vec<String> = (0..255).map(|_| "a".to_string()).collect();
    let src = format!("fun f({}) {{}}", names.join(","));
    assert_eq!(texts(&src), vec!["<function> f(255)"]);
}

#[test]
fn too_many_arguments() {
    let args: Vec<String> = (0..256).map(|_| "1".to_string()).collect();
    let src = format!("f({});", args.join(","));
    assert_eq!(parse(&src).err(), Some("Line 1: Can't have more than 255 arguments".to_string()));
    let args: Vec<String> = (0..255).map(|_| "1".to_string()).collect();
    let src = format!("f({});", args.join(","));
    let stmts = parse(&src).unwrap();
    match &stmts[0] {
        Stmt::Expression { expr: Expr::Call { args, .. } } => assert_eq!(args.len(), 255),
        _ => panic!("not a call"),
    }
}

#[test]
fn for_loop_reads_as_while_loop() {
    assert_eq!(
        texts("for (var i = 0; i < 3; i = i + 1) print(i);"),
        vec!["Variable: i (Identifier)\nwhile (< i 3) function )()\ni = + i 1"]
    );
    let stmts = parse("for (var i = 0; i < 3; i = i + 1) print(i);").unwrap();
    match &stmts[0] {
        Stmt::Block { statements } => {
            assert_eq!(statements.len(), 2);
            assert!(matches!(statements[0], Stmt::Var { .. }));
            match &statements[1] {
                Stmt::While { body, .. } => match &**body {
                    Stmt::Block { statements } => {
                        assert_eq!(statements.len(), 2);
                        assert!(matches!(statements[1], Stmt::Expression { expr: Expr::Assignment { .. } }));
                    },
                    _ => panic!("body is not a block"),
                },
                _ => panic!("not a while loop"),
            }
        },
        _ => panic!("not a block"),
    }
}

#[test]
fn for_loop_without_clauses_loops_on_true() {
    assert_eq!(texts("for (;;) x;"), vec!["while (true) x"]);
    let stmts = parse("for (;;) x;").unwrap();
    match &stmts[0] {
        Stmt::While { condition: Expr::Literal { literal }, .. } => assert_eq!(*literal, Literal::Boolean(true)),
        _ => panic!("not a while loop"),
    }
}

#[test]
fn for_loop_errors() {
    assert_eq!(parse("for x;").err(), Some("Line 1: Expected '(' after 'for'".to_string()));
    assert_eq!(parse("for (;; x;").err(), Some("Line 1: Expected ')' after clauses".to_string()));
}

#[test]
fn parse_tokens_built_by_hand() {
    let tokens = vec![
        Token::new(TokenType::Number, "7", 4),
        Token::new(TokenType::Star, "*", 4),
        Token::new(TokenType::Number, "6", 4),
        Token::new(TokenType::Eof, "", 5),
    ];
    let mut parser = Parser::new(tokens);
    let stmts = parser.parse().unwrap();
    assert_eq!(stmts.len(), 1);
    assert_eq!(stmts[0].to_string(), "* 7 6");
}

fn try_parse(src: &str) -> Option<Result<Vec<Stmt>, String>> {
    let mut scanner = Scanner::new(src);
    let tokens = scanner.scan_tokens().unwrap();
    let mut parser = Parser::new(tokens);
    parser.try_parse()
}

#[test]
fn number_that_is_no_float_is_reported() {
    assert!(try_parse("1.2.3;").is_none());
    assert!(try_parse("x = [1, 2..];").is_none());
    // Skipped by error recovery, the number is never read as a literal.
    assert_eq!(
        try_parse("var 1.2.3;").map(|r| r.err()),
        Some(Some("Line 1: Expected variable name".to_string()))
    );
    let stmts = try_parse("1.; 2.5;").unwrap().unwrap();
    assert_eq!(stmts.iter().map(|s| s.to_string()).collect::<Vec<_>>(), vec!["1.", "2.5"]);
}

fn expr_indices(e: &Expr, out: &mut Vec<usize>) {
    match e {
        Expr::Array { elements } => elements.iter().for_each(|x| expr_indices(x, out)),
        Expr::Access { position, index, .. } => {
            expr_indices(position, out);
            out.push(*index);
        },
        Expr::Binary { left, right, .. } | Expr::Logical { left, right, .. } => {
            expr_indices(left, out);
            expr_indices(right, out);
        },
        Expr::Grouping { expr } => expr_indices(expr, out),
        Expr::Call { callee, args, .. } => {
            expr_indices(callee, out);
            args.iter().for_each(|x| expr_indices(x, out));
        },
        Expr::Literal { .. } => {},
        Expr::Unary { right, .. } => expr_indices(right, out),
        Expr::Variable { index, .. } => out.push(*index),
        Expr::Assignment { value, position, index, .. } => {
            if let Some(p) = position {
                expr_indices(p, out);
            }
            out.push(*index);
            expr_indices(value, out);
        },
    }
}

fn stmt_indices(s: &Stmt, out: &mut Vec<usize>) {
    match s {
        Stmt::Expression { expr } => expr_indices(expr, out),
        Stmt::If { condition, then_branch, else_branch } => {
            expr_indices(condition, out);
            stmt_indices(then_branch, out);
            if let Some(b) = else_branch {
                stmt_indices(b, out);
            }
        },
        Stmt::Return { value } => value.iter().for_each(|e| expr_indices(e, out)),
        Stmt::Var { initializer, .. } => initializer.iter().for_each(|e| expr_indices(e, out)),
        Stmt::While { condition, body } => {
            expr_indices(condition, out);
            stmt_indices(body, out);
        },
        Stmt::Block { statements } => statements.iter().for_each(|s| stmt_indices(s, out)),
        Stmt::Function { body, .. } => body.iter().for_each(|s| stmt_indices(s, out)),
    }
}

#[test]
fn resolution_indices_are_distinct() {
    let src = "fun f(a) { var b = a[a]; return b + a; }\n\
               for (var i = 0; i < n; i = i + 1) { if (i) x[i] = f(i); else print(-i); }\n\
               while (y and z) y = [z, z];\n";
    let stmts = parse(src).unwrap();
    let mut indices = Vec::new();
    stmts.iter().for_each(|s| stmt_indices(s, &mut indices));
    let mut sorted = indices.clone();
    sorted.sort();
    sorted.dedup();
    assert_eq!(sorted.len(), indices.len());
    assert_eq!(sorted, (0..indices.len()).collect::<Vec<_>>());
}

#[test]
fn assignment_without_spaces() {
    assert_eq!(texts("x=1;"), vec!["x = 1"]);
    assert_eq!(texts("a[0]=b"), vec!["a = b"]);
}
