//! Tokens: the lexemes the scanner produces and the parser reads.

use vstd::prelude::*;

verus! {

/// The kind of a token.
#[derive(Clone, Copy, Debug, PartialEq, Eq, Structural)]
pub enum TokenType {
    // Single-character tokens.
    LeftParen,
    RightParen,
    LeftBrace,
    RightBrace,
    LeftBox,
    RightBox,
    Comma,
    Dot,
    Minus,
    Plus,
    Percent,
    SemiColon,
    Slash,
    Star,
    // One or two character tokens.
    Bang,
    BangEqual,
    Equal,
    EqualEqual,
    Greater,
    GreaterEqual,
    Less,
    LessEqual,
    // Literals.
    Identifier,
    String,
    Number,
    // Keywords.
    And,
    Break,
    Class,
    Else,
    False,
    Fun,
    For,
    If,
    Nil,
    Or,
    Return,
    Super,
    This,
    True,
    Var,
    While,
    // End of file.
    Eof,
    // Produced for whitespace and comments; never handed to the parser.
    Ignored,
}

/// The human readable name of a token type.
pub open spec fn token_type_name(t: TokenType) -> Seq<char> {
    match t {
        TokenType::LeftParen => "Left Parenthesis"@,
        TokenType::RightParen => "Right Parenthesis"@,
        TokenType::LeftBrace => "Left Brace"@,
        TokenType::LeftBox => "Left Box"@,
        TokenType::RightBox => "Right Box"@,
        TokenType::RightBrace => "Right Brace"@,
        TokenType::Comma => "Comma"@,
        TokenType::Dot => "Dot"@,
        TokenType::Minus => "Minus"@,
        TokenType::Plus => "Plus"@,
        TokenType::Percent => "Percent"@,
        TokenType::SemiColon => "Semicolon"@,
        TokenType::Slash => "Slash"@,
        TokenType::Star => "Star"@,
        TokenType::Bang => "Not"@,
        TokenType::BangEqual => "Not Equal"@,
        TokenType::Equal => "Assignment"@,
        TokenType::EqualEqual => "Equals"@,
        TokenType::Greater => "Greater"@,
        TokenType::GreaterEqual => "Greater Equal"@,
        TokenType::Less => "Less"@,
        TokenType::LessEqual => "Less Equal"@,
        TokenType::Identifier => "Identifier"@,
        TokenType::String => "String"@,
        TokenType::Number => "Number"@,
        TokenType::And => "And"@,
        TokenType::Break => "Break"@,
        TokenType::Class => "Class"@,
        TokenType::Else => "Else"@,
        TokenType::False => "False"@,
        TokenType::Fun => "Fun"@,
        TokenType::For => "For"@,
        TokenType::If => "If"@,
        TokenType::Nil => "Nil"@,
        TokenType::Or => "Or"@,
        TokenType::Return => "Return"@,
        TokenType::Super => "Super"@,
        TokenType::This => "This"@,
        TokenType::True => "True"@,
        TokenType::Var => "Var"@,
        TokenType::While => "While"@,
        TokenType::Eof => "Eof"@,
        TokenType::Ignored => "None"@,
    }
}

/// The names of the token types are nonempty and pairwise distinct.
pub proof fn lemma_token_type_names_distinct(t1: TokenType, t2: TokenType)
    ensures
        token_type_name(t1).len() > 0,
        t1 != t2 ==> token_type_name(t1) != token_type_name(t2),
{
    reveal_strlit("Left Parenthesis");
    reveal_strlit("Right Parenthesis");
    reveal_strlit("Left Brace");
    reveal_strlit("Left Box");
    reveal_strlit("Right Box");
    reveal_strlit("Right Brace");
    reveal_strlit("Comma");
    reveal_strlit("Dot");
    reveal_strlit("Minus");
    reveal_strlit("Plus");
    reveal_strlit("Percent");
    reveal_strlit("Semicolon");
    reveal_strlit("Slash");
    reveal_strlit("Star");
    reveal_strlit("Not");
    reveal_strlit("Not Equal");
    reveal_strlit("Assignment");
    reveal_strlit("Equals");
    reveal_strlit("Greater");
    reveal_strlit("Greater Equal");
    reveal_strlit("Less");
    reveal_strlit("Less Equal");
    reveal_strlit("Identifier");
    reveal_strlit("String");
    reveal_strlit("Number");
    reveal_strlit("And");
    reveal_strlit("Break");
    reveal_strlit("Class");
    reveal_strlit("Else");
    reveal_strlit("False");
    reveal_strlit("Fun");
    reveal_strlit("For");
    reveal_strlit("If");
    reveal_strlit("Nil");
    reveal_strlit("Or");
    reveal_strlit("Return");
    reveal_strlit("Super");
    reveal_strlit("This");
    reveal_strlit("True");
    reveal_strlit("Var");
    reveal_strlit("While");
    reveal_strlit("Eof");
    reveal_strlit("None");
    let n1 = token_type_name(t1);
    let n2 = token_type_name(t2);
    if n1 == n2 {
        assert(n1.len() == n2.len() && n1[0] == n2[0] && n1[n1.len() - 1] == n2[n2.len() - 1]);
    }
}

/// How the operator types are named: `<` is "Less" and `>` is "Greater",
/// `!` is "Not"; an operator that one `=` extends into a comparison is
/// named by its first character's name followed by " Equal" (`<=` is
/// "Less Equal", `>=` "Greater Equal", `!=` "Not Equal"); `=` alone is
/// "Assignment" and `==` is "Equals".
pub proof fn lemma_operator_names()
    ensures
        token_type_name(TokenType::Less) == "Less"@,
        token_type_name(TokenType::Greater) == "Greater"@,
        token_type_name(TokenType::Bang) == "Not"@,
        token_type_name(TokenType::LessEqual) == token_type_name(TokenType::Less) + " Equal"@,
        token_type_name(TokenType::GreaterEqual) == token_type_name(TokenType::Greater) + " Equal"@,
        token_type_name(TokenType::BangEqual) == token_type_name(TokenType::Bang) + " Equal"@,
        token_type_name(TokenType::Equal) == "Assignment"@,
        token_type_name(TokenType::EqualEqual) == "Equals"@,
{
    reveal_strlit("Less");
    reveal_strlit("Greater");
    reveal_strlit("Not");
    reveal_strlit(" Equal");
    reveal_strlit("Less Equal");
    reveal_strlit("Greater Equal");
    reveal_strlit("Not Equal");
    assert(token_type_name(TokenType::LessEqual) =~= "Less"@ + " Equal"@);
    assert(token_type_name(TokenType::GreaterEqual) =~= "Greater"@ + " Equal"@);
    assert(token_type_name(TokenType::BangEqual) =~= "Not"@ + " Equal"@);
}

impl TokenType {
    /// The human readable name of this token type.
    pub fn to_string(&self) -> (s: &'static str)
        ensures
            s@ == token_type_name(*self),
    {
        match self {
            TokenType::LeftParen => "Left Parenthesis",
            TokenType::RightParen => "Right Parenthesis",
            TokenType::LeftBrace => "Left Brace",
            TokenType::LeftBox => "Left Box",
            TokenType::RightBox => "Right Box",
            TokenType::RightBrace => "Right Brace",
            TokenType::Comma => "Comma",
            TokenType::Dot => "Dot",
            TokenType::Minus => "Minus",
            TokenType::Plus => "Plus",
            TokenType::Percent => "Percent",
            TokenType::SemiColon => "Semicolon",
            TokenType::Slash => "Slash",
            TokenType::Star => "Star",
            TokenType::Bang => "Not",
            TokenType::BangEqual => "Not Equal",
            TokenType::Equal => "Assignment",
            TokenType::EqualEqual => "Equals",
            TokenType::Greater => "Greater",
            TokenType::GreaterEqual => "Greater Equal",
            TokenType::Less => "Less",
            TokenType::LessEqual => "Less Equal",
            TokenType::Identifier => "Identifier",
            TokenType::String => "String",
            TokenType::Number => "Number",
            TokenType::And => "And",
            TokenType::Break => "Break",
            TokenType::Class => "Class",
            TokenType::Else => "Else",
            TokenType::False => "False",
            TokenType::Fun => "Fun",
            TokenType::For => "For",
            TokenType::If => "If",
            TokenType::Nil => "Nil",
            TokenType::Or => "Or",
            TokenType::Return => "Return",
            TokenType::Super => "Super",
            TokenType::This => "This",
            TokenType::True => "True",
            TokenType::Var => "Var",
            TokenType::While => "While",
            TokenType::Eof => "Eof",
            TokenType::Ignored => "None",
        }
    }
}

/// A token: its kind, the source text it was read from, and its line.
#[derive(Debug, PartialEq)]
pub struct Token {
    pub token_type: TokenType,
    pub lexeme: String,
    pub line: usize,
}

/// The mathematical value of a token.
pub struct TokenView {
    pub token_type: TokenType,
    pub lexeme: Seq<char>,
    pub line: int,
}

impl View for Token {
    type V = TokenView;

    open spec fn view(&self) -> TokenView {
        TokenView { token_type: self.token_type, lexeme: self.lexeme@, line: self.line as int }
    }
}

/// The values of a sequence of tokens.
pub open spec fn tokens_view(ts: Seq<Token>) -> Seq<TokenView> {
    ts.map_values(|t: Token| t@)
}

impl Clone for Token {
    fn clone(&self) -> (t: Self)
        ensures
            t@ == self@,
    {
        Token { token_type: self.token_type, lexeme: self.lexeme.clone(), line: self.line }
    }
}

impl Token {
    /// Builds a token from its parts.
    pub fn new(token_type: TokenType, lexeme: &str, line: usize) -> (t: Self)
        ensures
            t@ == (TokenView { token_type, lexeme: lexeme@, line: line as int }),
    {
        Token { token_type, lexeme: String::from_str(lexeme), line }
    }
}

} // verus!
