use lib::scanner::{ScanError, Scanner};
use lib::token::{Token, TokenType};

fn scan(src: &str) -> Result<Vec<Token>, String> {
    let mut scanner = Scanner::new(src);
    scanner.scan_tokens()
}

fn kinds(tokens: &[Token]) -> Vec<TokenType> {
    tokens.iter().map(|t| t.token_type).collect()
}

fn lexemes(tokens: &[Token]) -> Vec<String> {
    tokens.iter().map(|t| t.lexeme.clone()).collect()
}

#[test]
fn empty_source_gives_only_eof() {
    let tokens = scan("").unwrap();
    assert_eq!(tokens, vec![Token::new(TokenType::Eof, "", 2)]);
}

#[test]
fn variable_declaration_tokens() {
    let tokens = scan("var x = 1;\n").unwrap();
    assert_eq!(
        kinds(&tokens),
        vec![
            TokenType::Var,
            TokenType::Identifier,
            TokenType::Equal,
            TokenType::Number,
            TokenType::SemiColon,
            TokenType::Eof
        ]
    );
    assert_eq!(lexemes(&tokens), vec!["var", "x", "=", "1", ";", ""]);
    assert!(tokens[..5].iter().all(|t| t.line == 1));
    // A lone newline right after a token does not count as a line.
    assert_eq!(tokens[5].line, 2);
}

#[test]
fn single_character_tokens() {
    let tokens = scan("(){}[],.-+%;*\n").unwrap();
    assert_eq!(
        kinds(&tokens),
        vec![
            TokenType::LeftParen,
            TokenType::RightParen,
            TokenType::LeftBrace,
            TokenType::RightBrace,
            TokenType::LeftBox,
            TokenType::RightBox,
            TokenType::Comma,
            TokenType::Dot,
            TokenType::Minus,
            TokenType::Plus,
            TokenType::Percent,
            TokenType::SemiColon,
            TokenType::Star,
            TokenType::Eof
        ]
    );
}

#[test]
fn keywords_and_identifiers() {
    let tokens =
        scan("and break class else false for fun if nil or return super this true var while foo_bar;")
            .unwrap();
    assert_eq!(
        kinds(&tokens),
        vec![
            TokenType::And,
            TokenType::Break,
            TokenType::Class,
            TokenType::Else,
            TokenType::False,
            TokenType::For,
            TokenType::Fun,
            TokenType::If,
            TokenType::Nil,
            TokenType::Or,
            TokenType::Return,
            TokenType::Super,
            TokenType::This,
            TokenType::True,
            TokenType::Var,
            TokenType::While,
            TokenType::Identifier,
            TokenType::SemiColon,
            TokenType::Eof
        ]
    );
    assert_eq!(tokens[16].lexeme, "foo_bar");
}

#[test]
fn identifier_stops_at_digit() {
    let tokens = scan("ab1;").unwrap();
    assert_eq!(
        kinds(&tokens),
        vec![TokenType::Identifier, TokenType::Number, TokenType::SemiColon, TokenType::Eof]
    );
    assert_eq!(lexemes(&tokens), vec!["ab", "1", ";", ""]);
}

#[test]
fn numbers_keep_their_text() {
    let tokens = scan("3.14 1.2.3 42;").unwrap();
    assert_eq!(lexemes(&tokens), vec!["3.14", "1.2.3", "42", ";", ""]);
    assert!(tokens[..3].iter().all(|t| t.token_type == TokenType::Number));
}

#[test]
fn string_literal_drops_quotes() {
    let tokens = scan("\"hi there\";").unwrap();
    assert_eq!(tokens[0], Token::new(TokenType::String, "hi there", 1));
    assert_eq!(tokens[1].token_type, TokenType::SemiColon);
}

#[test]
fn multiline_string_takes_its_last_line() {
    let tokens = scan("\"a\nb\";").unwrap();
    assert_eq!(tokens[0], Token::new(TokenType::String, "a\nb", 2));
    assert_eq!(tokens[1].line, 2);
    assert_eq!(tokens[2], Token::new(TokenType::Eof, "", 3));
}

#[test]
fn comments_and_white_space_give_no_token() {
    let tokens = scan("// a comment\n1;\n\n  2;\n").unwrap();
    assert_eq!(
        kinds(&tokens),
        vec![TokenType::Number, TokenType::SemiColon, TokenType::Number, TokenType::SemiColon, TokenType::Eof]
    );
    assert_eq!(tokens[0].line, 2);
    assert_eq!(tokens[2].line, 3);
    assert_eq!(tokens[4].line, 4);
}

#[test]
fn unexpected_character_is_an_error() {
    assert_eq!(scan("@"), Err("[SCANNER]:1:1\nUnexpected Character @".to_string()));
    // Spaces after the first add to the column.
    assert_eq!(scan("  @"), Err("[SCANNER]:1:2\nUnexpected Character @".to_string()));
}

#[test]
fn unterminated_string_is_an_error() {
    assert_eq!(scan("\"abc"), Err("[SCANNER]:1:1\nUnterminated  String".to_string()));
    assert_eq!(scan("\"a\nbc"), Err("[SCANNER]:2:1\nUnterminated  String".to_string()));
}

#[test]
fn scan_error_message_format() {
    let e = ScanError::raise((3, 14), "boom".to_string());
    assert_eq!(e.message(), "[SCANNER]:3:14\nboom");
}

#[test]
fn scanned_tokens_end_with_single_eof() {
    let tokens = scan("fun f(a) { return a + 1; }\nprint(f(2));\n").unwrap();
    assert_eq!(tokens.last().unwrap().token_type, TokenType::Eof);
    let eofs = tokens.iter().filter(|t| t.token_type == TokenType::Eof).count();
    assert_eq!(eofs, 1);
    assert!(tokens.iter().all(|t| t.token_type != TokenType::Ignored));
    assert!(tokens.windows(2).all(|w| w[0].line <= w[1].line));
}

#[test]
fn identifiers_never_spell_keywords() {
    let tokens = scan("classy class fortune for iffy if nil nils;").unwrap();
    let keywords = [
        "and", "break", "class", "else", "false", "for", "fun", "if", "nil", "or", "return", "super",
        "this", "true", "var", "while",
    ];
    for t in &tokens {
        if t.token_type == TokenType::Identifier {
            assert!(!keywords.contains(&t.lexeme.as_str()));
        }
    }
    assert_eq!(
        kinds(&tokens),
        vec![
            TokenType::Identifier,
            TokenType::Class,
            TokenType::Identifier,
            TokenType::For,
            TokenType::Identifier,
            TokenType::If,
            TokenType::Nil,
            TokenType::Identifier,
            TokenType::SemiColon,
            TokenType::Eof
        ]
    );
}

#[test]
fn two_character_operators() {
    let tokens = scan("!= == <= >= /;").unwrap();
    assert_eq!(
        kinds(&tokens),
        vec![
            TokenType::BangEqual,
            TokenType::EqualEqual,
            TokenType::LessEqual,
            TokenType::GreaterEqual,
            TokenType::Slash,
            TokenType::SemiColon,
            TokenType::Eof
        ]
    );
    assert_eq!(lexemes(&tokens), vec!["!=", "==", "<=", ">=", "/", ";", ""]);
}

#[test]
fn lone_operator_leaves_next_character() {
    let tokens = scan("1 < 2;").unwrap();
    assert_eq!(
        kinds(&tokens),
        vec![TokenType::Number, TokenType::Less, TokenType::Number, TokenType::SemiColon, TokenType::Eof]
    );
    assert_eq!(tokens[1].lexeme, "<");
    let tokens = scan("!x;").unwrap();
    assert_eq!(
        tokens,
        vec![
            Token::new(TokenType::Bang, "!", 1),
            Token::new(TokenType::Identifier, "x", 1),
            Token::new(TokenType::SemiColon, ";", 1),
            Token::new(TokenType::Eof, "", 2),
        ]
    );
    let tokens = scan("x=1;").unwrap();
    assert_eq!(
        tokens,
        vec![
            Token::new(TokenType::Identifier, "x", 1),
            Token::new(TokenType::Equal, "=", 1),
            Token::new(TokenType::Number, "1", 1),
            Token::new(TokenType::SemiColon, ";", 1),
            Token::new(TokenType::Eof, "", 2),
        ]
    );
}

#[test]
fn lexeme_at_the_end_of_the_source() {
    assert_eq!(
        scan("some_example_str"),
        Ok(vec![Token::new(TokenType::Identifier, "some_example_str", 1), Token::new(TokenType::Eof, "", 2)])
    );
    assert_eq!(
        scan("12.5"),
        Ok(vec![Token::new(TokenType::Number, "12.5", 1), Token::new(TokenType::Eof, "", 2)])
    );
    for (src, t) in [
        ("!", TokenType::Bang),
        ("=", TokenType::Equal),
        ("<", TokenType::Less),
        (">", TokenType::Greater),
        ("/", TokenType::Slash),
        ("!=", TokenType::BangEqual),
    ] {
        assert_eq!(scan(src), Ok(vec![Token::new(t, src, 1), Token::new(TokenType::Eof, "", 2)]));
    }
    let tokens = scan("a b").unwrap();
    assert_eq!(lexemes(&tokens), vec!["a", "b", ""]);
    assert_eq!(scan("// c"), Ok(vec![Token::new(TokenType::Eof, "", 3)]));
}

#[test]
fn non_ascii_text_is_cut_by_character() {
    assert_eq!(
        scan("é"),
        Ok(vec![Token::new(TokenType::Identifier, "é", 1), Token::new(TokenType::Eof, "", 2)])
    );
    assert_eq!(
        scan("é;"),
        Ok(vec![
            Token::new(TokenType::Identifier, "é", 1),
            Token::new(TokenType::SemiColon, ";", 1),
            Token::new(TokenType::Eof, "", 2),
        ])
    );
    assert_eq!(
        scan("// é\n1;"),
        Ok(vec![
            Token::new(TokenType::Number, "1", 2),
            Token::new(TokenType::SemiColon, ";", 2),
            Token::new(TokenType::Eof, "", 3),
        ])
    );
    assert_eq!(
        scan("\"éa\";"),
        Ok(vec![
            Token::new(TokenType::String, "éa", 1),
            Token::new(TokenType::SemiColon, ";", 1),
            Token::new(TokenType::Eof, "", 2),
        ])
    );
}

#[test]
fn unicode_white_space_separates_tokens() {
    let tokens = scan("\u{3000}1;").unwrap();
    assert_eq!(kinds(&tokens), vec![TokenType::Number, TokenType::SemiColon, TokenType::Eof]);
    let tokens = scan("a\u{a0}b;").unwrap();
    assert_eq!(lexemes(&tokens), vec!["a", "b", ";", ""]);
}

#[test]
fn end_of_file_token_comes_last_on_a_later_line() {
    let tokens = scan("var a = 1;\n\nprint(a);\n").unwrap();
    let eof = tokens.last().unwrap();
    assert_eq!(eof.lexeme, "");
    assert!(tokens[..tokens.len() - 1].iter().all(|t| t.line >= 1 && t.line < eof.line));
}

#[test]
fn tabs_count_four_columns() {
    assert_eq!(scan("\t\t@"), Err("[SCANNER]:1:5\nUnexpected Character @".to_string()));
    assert_eq!(scan(" \t \r @"), Err("[SCANNER]:1:1\nUnexpected Character @".to_string()));
}
