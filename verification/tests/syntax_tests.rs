use lib::expr::{Expr, Literal};
use lib::stmt::Stmt;
use lib::token::{Token, TokenType};

fn tok(t: TokenType, lexeme: &str) -> Token {
    Token::new(t, lexeme, 1)
}

fn num(n: &str) -> Expr {
    Expr::new_literal(Literal::Number(n.to_string()))
}

#[test]
fn token_new_keeps_its_fields() {
    let t = Token::new(TokenType::Identifier, "abc", 7);
    assert_eq!(t.token_type, TokenType::Identifier);
    assert_eq!(t.lexeme, "abc");
    assert_eq!(t.line, 7);
}

#[test]
fn token_type_names() {
    assert_eq!(TokenType::LeftParen.to_string(), "Left Parenthesis");
    assert_eq!(TokenType::SemiColon.to_string(), "Semicolon");
    assert_eq!(TokenType::Bang.to_string(), "Not");
    assert_eq!(TokenType::Equal.to_string(), "Assignment");
    assert_eq!(TokenType::EqualEqual.to_string(), "Equals");
    assert_eq!(TokenType::Identifier.to_string(), "Identifier");
    assert_eq!(TokenType::Eof.to_string(), "Eof");
    assert_eq!(TokenType::Ignored.to_string(), "None");
}

#[test]
fn literal_text() {
    assert_eq!(Literal::Number("2.5".to_string()).to_string(), "2.5");
    assert_eq!(Literal::Str("hey".to_string()).to_string(), "hey");
    assert_eq!(Literal::Boolean(true).to_string(), "true");
    assert_eq!(Literal::Boolean(false).to_string(), "false");
    assert_eq!(Literal::Nil.to_string(), "nil");
    let arr = Literal::Array(vec![
        Literal::Number("1".to_string()),
        Literal::Array(vec![]),
        Literal::Str("x".to_string()),
    ]);
    assert_eq!(arr.to_string(), "[1, [], x]");
}

#[test]
fn literal_type_names() {
    assert_eq!(Literal::Number("1".to_string()).to_type(), "Number");
    assert_eq!(Literal::Str(String::new()).to_type(), "String");
    assert_eq!(Literal::Boolean(false).to_type(), "Boolean");
    assert_eq!(Literal::Nil.to_type(), "nil");
    assert_eq!(Literal::Array(vec![]).to_type(), "array");
}

#[test]
fn literal_from_token() {
    assert_eq!(Literal::from_token(tok(TokenType::Number, "12.5")), Literal::Number("12.5".to_string()));
    assert_eq!(Literal::from_token(tok(TokenType::String, "s")), Literal::Str("s".to_string()));
    assert_eq!(Literal::from_token(tok(TokenType::Identifier, "name")), Literal::Str("name".to_string()));
    assert_eq!(Literal::from_token(tok(TokenType::True, "true")), Literal::Boolean(true));
    assert_eq!(Literal::from_token(tok(TokenType::False, "false")), Literal::Boolean(false));
    assert_eq!(Literal::from_token(tok(TokenType::Nil, "nil")), Literal::Nil);
}

#[test]
fn truthiness() {
    assert!(!Literal::Number("0".to_string()).is_truthy());
    assert!(!Literal::Number("00.000".to_string()).is_truthy());
    assert!(Literal::Number("0.5".to_string()).is_truthy());
    assert!(!Literal::Str(String::new()).is_truthy());
    assert!(Literal::Str("a".to_string()).is_truthy());
    assert!(Literal::Boolean(true).is_truthy());
    assert!(!Literal::Boolean(false).is_truthy());
    assert!(!Literal::Nil.is_truthy());
    assert!(!Literal::Array(vec![]).is_truthy());
    assert!(Literal::Array(vec![Literal::Nil]).is_truthy());
}

#[test]
fn falsiness() {
    assert_eq!(Literal::Number("0.0".to_string()).is_falsy(), Literal::Boolean(true));
    assert_eq!(Literal::Number("3".to_string()).is_falsy(), Literal::Boolean(false));
    assert_eq!(Literal::Str(String::new()).is_falsy(), Literal::Boolean(true));
    assert_eq!(Literal::Str("a".to_string()).is_falsy(), Literal::Boolean(false));
    assert_eq!(Literal::Nil.is_falsy(), Literal::Boolean(true));
    assert_eq!(Literal::Array(vec![]).is_falsy(), Literal::Boolean(true));
    assert_eq!(Literal::Array(vec![Literal::Nil]).is_falsy(), Literal::Boolean(false));
    // A boolean reports its own value.
    assert_eq!(Literal::Boolean(true).is_falsy(), Literal::Boolean(true));
    assert_eq!(Literal::Boolean(false).is_falsy(), Literal::Boolean(false));
}

#[test]
fn falsy_is_not_truthy_apart_from_booleans() {
    let samples = vec![
        Literal::Number("0".to_string()),
        Literal::Number("10".to_string()),
        Literal::Str(String::new()),
        Literal::Str("q".to_string()),
        Literal::Nil,
        Literal::Array(vec![]),
        Literal::Array(vec![Literal::Nil]),
    ];
    for l in &samples {
        assert_eq!(l.is_falsy(), Literal::Boolean(!l.is_truthy()));
    }
}

#[test]
fn expression_text() {
    let sum = Expr::new_binary(num("1"), tok(TokenType::Plus, "+"), num("2"));
    assert_eq!(sum.to_string(), "+ 1 2");
    assert_eq!(Expr::new_grouping(sum).to_string(), "(+ 1 2)");
    let neg = Expr::create_unary(tok(TokenType::Minus, "-"), num("3"));
    assert_eq!(neg.to_string(), "-3");
    let var = Expr::create_variable(tok(TokenType::Identifier, "x"), 0);
    assert_eq!(var.to_string(), "x");
    let logical = Expr::new_logical(
        Expr::new_literal(Literal::Boolean(true)),
        tok(TokenType::And, "and"),
        Expr::new_literal(Literal::Nil),
    );
    assert_eq!(logical.to_string(), "`true` and `nil`");
    let assign = Expr::create_assigment(tok(TokenType::Identifier, "y"), num("4"), None, 1);
    assert_eq!(assign.to_string(), "y = 4");
    let access = Expr::access(tok(TokenType::Identifier, "a"), num("0"), 2);
    assert_eq!(access.to_string(), "a[0]");
    let array = Expr::array(vec![num("1"), num("2")]);
    assert_eq!(array.to_string(), "[1, 2]");
    let call = Expr::create_call(
        Expr::create_variable(tok(TokenType::Identifier, "f"), 3),
        tok(TokenType::RightParen, ")"),
        vec![num("1")],
    );
    assert_eq!(call.to_string(), "function )()");
}

#[test]
fn constructors_build_their_variant() {
    match Expr::create_assigment(tok(TokenType::Identifier, "v"), num("1"), Some(Box::new(num("0"))), 9) {
        Expr::Assignment { name, value, position, index } => {
            assert_eq!(name.lexeme, "v");
            assert_eq!(value.to_string(), "1");
            assert_eq!(position.unwrap().to_string(), "0");
            assert_eq!(index, 9);
        },
        _ => panic!("not an assignment"),
    }
    match Expr::access(tok(TokenType::Identifier, "a"), num("5"), 4) {
        Expr::Access { name, position, index } => {
            assert_eq!(name.lexeme, "a");
            assert_eq!(position.to_string(), "5");
            assert_eq!(index, 4);
        },
        _ => panic!("not an access"),
    }
}

#[test]
fn statement_text() {
    let x = || Expr::create_variable(tok(TokenType::Identifier, "x"), 0);
    assert_eq!(Stmt::Expression { expr: x() }.to_string(), "x");
    let var = Stmt::Var { name: tok(TokenType::Identifier, "v"), initializer: None };
    assert_eq!(var.to_string(), "Variable: v (Identifier)");
    let w = Stmt::While { condition: x(), body: Box::new(Stmt::Expression { expr: num("1") }) };
    assert_eq!(w.to_string(), "while (x) 1");
    let block = Stmt::Block {
        statements: vec![Stmt::Expression { expr: num("1") }, Stmt::Expression { expr: num("2") }],
    };
    assert_eq!(block.to_string(), "1\n2");
    assert_eq!(Stmt::Block { statements: vec![] }.to_string(), "");
    let branch = Stmt::If {
        condition: x(),
        then_branch: Box::new(Stmt::Expression { expr: num("1") }),
        else_branch: Some(Box::new(Stmt::Expression { expr: num("2") })),
    };
    assert_eq!(branch.to_string(), "if x then 1\n else 2");
    let function = Stmt::Function {
        name: tok(TokenType::Identifier, "f"),
        params: vec![tok(TokenType::Identifier, "a"), tok(TokenType::Identifier, "b")],
        body: vec![],
    };
    assert_eq!(function.to_string(), "<function> f(2)");
    assert_eq!(Stmt::Return { value: Some(num("3")) }.to_string(), "returning 3");
    assert_eq!(Stmt::Return { value: None }.to_string(), "returning ");
}

#[test]
fn token_type_names_are_distinct() {
    let all = [
        TokenType::LeftParen,
        TokenType::RightParen,
        TokenType::LeftBrace,
        TokenType::RightBrace,
        TokenType::LeftBox,
        TokenType::RightBox,
        TokenType::Comma,
        TokenType::Dot,
        TokenType::Minus,
        TokenType::Plus,
        TokenType::Percent,
        TokenType::SemiColon,
        TokenType::Slash,
        TokenType::Star,
        TokenType::Bang,
        TokenType::BangEqual,
        TokenType::Equal,
        TokenType::EqualEqual,
        TokenType::Greater,
        TokenType::GreaterEqual,
        TokenType::Less,
        TokenType::LessEqual,
        TokenType::Identifier,
        TokenType::String,
        TokenType::Number,
        TokenType::And,
        TokenType::Break,
        TokenType::Class,
        TokenType::Else,
        TokenType::False,
        TokenType::Fun,
        TokenType::For,
        TokenType::If,
        TokenType::Nil,
        TokenType::Or,
        TokenType::Return,
        TokenType::Super,
        TokenType::This,
        TokenType::True,
        TokenType::Var,
        TokenType::While,
        TokenType::Eof,
        TokenType::Ignored,
    ];
    let mut names: Vec<&str> = all.iter().map(|t| t.to_string()).collect();
    assert!(names.iter().all(|n| !n.is_empty()));
    names.sort();
    names.dedup();
    assert_eq!(names.len(), all.len());
}

#[test]
fn zero_numbers_in_any_notation() {
    for text in ["0", "-0", "+0.0", "0e5", "0.0E-3", "00.000"] {
        let l = Literal::Number(text.to_string());
        assert!(!l.is_truthy(), "{text:?}");
        assert_eq!(l.is_falsy(), Literal::Boolean(true), "{text:?}");
    }
    for text in ["1e-5", "-2", "inf", "-infinity", "nan", "0.5e0"] {
        let l = Literal::Number(text.to_string());
        assert!(l.is_truthy(), "{text:?}");
        assert_eq!(l.is_falsy(), Literal::Boolean(false), "{text:?}");
    }
}

#[test]
fn clones_keep_their_value() {
    let lit = Literal::Array(vec![Literal::Number("1".to_string()), Literal::Nil]);
    assert_eq!(lit.clone(), lit);
    let expr = Expr::create_assigment(
        tok(TokenType::Identifier, "a"),
        Expr::array(vec![num("1"), Expr::new_grouping(num("2"))]),
        Some(Box::new(num("0"))),
        3,
    );
    assert_eq!(expr.clone().to_string(), expr.to_string());
    let stmt = Stmt::Function {
        name: tok(TokenType::Identifier, "f"),
        params: vec![tok(TokenType::Identifier, "x")],
        body: vec![Stmt::Block { statements: vec![Stmt::Return { value: Some(num("1")) }] }],
    };
    assert_eq!(stmt.clone().to_string(), stmt.to_string());
    match stmt.clone() {
        Stmt::Function { params, body, .. } => {
            assert_eq!(params[0].lexeme, "x");
            assert_eq!(body[0].to_string(), "returning 1");
        },
        _ => panic!("not a function"),
    }
}

