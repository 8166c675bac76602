//! # Scanner
//!
//! Turns a source text into tokens according to Lox's lexical rules. The
//! public interface is `Scanner::new` and `Scanner::scan_tokens`.

use vstd::prelude::*;
use crate::chars::{is_alphabetic, is_ascii_alphabetic, is_ascii_digit, is_numeric, is_whitespace};
use crate::scan_spec::{
    char_at, comment_end, keyword, number_end, scan_error_text, scan_from,
    scan_outcome, string_scan, whitespace_scan, word_end, word_type, ScanOutcome, ScanState, Step,
    step, eof_token, initial_state, lemma_step_advances, closed_by_eof, no_keyword_identifiers,
    lemma_scan_closed_by_eof,
};
use crate::text::push_decimal;
use crate::token::{tokens_view, Token, TokenType, TokenView};

verus! {

/// Whether a source has no more characters than a string can hold: no
/// value takes more than `isize::MAX` bytes, and a character takes at
/// least one.
pub open spec fn source_fits(s: Seq<char>) -> bool {
    s.len() <= isize::MAX
}

/// Whether a scan state keeps the scanner's counters within `usize`.
pub open spec fn state_fits(st: ScanState) -> bool {
    &&& 0 <= st.start <= st.current < usize::MAX - 4
    &&& 0 <= st.line <= st.current + 1
    &&& 0 <= st.column <= usize::MAX
}

/// Calls `str::len`: the length of `s` in bytes, that of its UTF-8
/// encoding. Beyond that, the contract claims that it is at most
/// `isize::MAX`, as no value, a string slice included, takes more than
/// `isize::MAX` bytes (the standard library's rule for slices and
/// allocations).
#[verifier::external_body]
fn byte_len(s: &str) -> (n: usize)
    ensures
        n == vstd::utf8::encode_utf8(s@).len(),
        n <= isize::MAX,
{
    s.len()
}

/// A text takes at least one byte of UTF-8 per character.
proof fn lemma_utf8_at_least_chars(cs: Seq<char>)
    ensures
        vstd::utf8::encode_utf8(cs).len() >= cs.len(),
    decreases cs.len(),
{
    if cs.len() > 0 {
        lemma_utf8_at_least_chars(cs.drop_first());
    }
}

/// A scanner over one source text.
pub struct Scanner {
    src: String,
    chars: Vec<char>,
    start: usize,
    current: usize,
    line: usize,
    column: usize,
}

/// An error met while scanning: its line and column, and a message.
#[derive(Debug)]
pub struct ScanError((usize, usize), String);

impl ScanError {
    /// The text of this error, as `message` renders it.
    pub closed spec fn text(&self) -> Seq<char> {
        scan_error_text(self.0.0 as int, self.0.1 as int, self.1@)
    }

    /// An error at `location` (line, column) with message `msg`.
    pub fn raise(location: (usize, usize), msg: String) -> (e: Self)
        ensures
            e.text() == scan_error_text(location.0 as int, location.1 as int, msg@),
    {
        ScanError(location, msg)
    }

    /// Renders the error as `[SCANNER]:<line>:<column>` and the message on
    /// the next line.
    pub fn message(&self) -> (m: String)
        ensures
            m@ == self.text(),
    {
        let mut m = String::from_str("[SCANNER]:");
        push_decimal(&mut m, self.0.0);
        m.append(":");
        push_decimal(&mut m, self.0.1);
        m.append("\n");
        m.append(self.1.as_str());
        m
    }
}

/// Whether `chars[from..to]` is the text `word`.
fn word_is(chars: &Vec<char>, from: usize, to: usize, word: &str) -> (r: bool)
    requires
        from <= to <= chars.len(),
    ensures
        r == (chars@.subrange(from as int, to as int) == word@),
{
    let n = word.unicode_len();
    if to - from != n {
        return false;
    }
    let mut i: usize = 0;
    while i < n
        invariant
            from <= to <= chars.len(),
            to - from == n,
            n == word@.len(),
            i <= n,
            forall|j: int| 0 <= j < i ==> chars@[from + j] == word@[j],
        decreases n - i,
    {
        if chars[from + i] != word.get_char(i) {
            assert(chars@.subrange(from as int, to as int)[i as int] != word@[i as int]);
            return false;
        }
        i = i + 1;
    }
    assert(chars@.subrange(from as int, to as int) =~= word@);
    true
}

/// The keyword type of `chars[from..to]`, if it is a keyword.
fn lookup_keyword(chars: &Vec<char>, from: usize, to: usize) -> (r: Option<TokenType>)
    requires
        from <= to <= chars.len(),
    ensures
        r == keyword(chars@.subrange(from as int, to as int)),
{
    if word_is(chars, from, to, "and") { Some(TokenType::And) }
    else if word_is(chars, from, to, "break") { Some(TokenType::Break) }
    else if word_is(chars, from, to, "class") { Some(TokenType::Class) }
    else if word_is(chars, from, to, "else") { Some(TokenType::Else) }
    else if word_is(chars, from, to, "false") { Some(TokenType::False) }
    else if word_is(chars, from, to, "for") { Some(TokenType::For) }
    else if word_is(chars, from, to, "fun") { Some(TokenType::Fun) }
    else if word_is(chars, from, to, "if") { Some(TokenType::If) }
    else if word_is(chars, from, to, "nil") { Some(TokenType::Nil) }
    else if word_is(chars, from, to, "or") { Some(TokenType::Or) }
    else if word_is(chars, from, to, "return") { Some(TokenType::Return) }
    else if word_is(chars, from, to, "super") { Some(TokenType::Super) }
    else if word_is(chars, from, to, "this") { Some(TokenType::This) }
    else if word_is(chars, from, to, "true") { Some(TokenType::True) }
    else if word_is(chars, from, to, "var") { Some(TokenType::Var) }
    else if word_is(chars, from, to, "while") { Some(TokenType::While) }
    else { None }
}

impl Scanner {
    /// The source text.
    pub closed spec fn source(&self) -> Seq<char> {
        self.src@
    }

    /// The position state.
    pub closed spec fn state(&self) -> ScanState {
        ScanState {
            start: self.start as int,
            current: self.current as int,
            line: self.line as int,
            column: self.column as int,
        }
    }

    /// The scanner's characters agree with its source.
    closed spec fn text_ok(&self) -> bool {
        &&& self.chars@ == self.src@
        &&& source_fits(self.src@)
    }

    /// The scanner is well formed: its counters fit in `usize`.
    pub closed spec fn wf(&self) -> bool {
        &&& self.text_ok()
        &&& state_fits(self.state())
    }

    /// A scanner at the start of `src`.
    pub fn new(src: &str) -> (s: Self)
        ensures
            s.source() == src@,
            s.state() == initial_state(),
            s.wf(),
    {
        let bytes = byte_len(src);
        proof {
            lemma_utf8_at_least_chars(src@);
            assert(src@.len() <= bytes);
        }
        let n = src.unicode_len();
        let mut chars: Vec<char> = Vec::new();
        let mut i: usize = 0;
        while i < n
            invariant
                n == src@.len(),
                i <= n,
                chars@ == src@.subrange(0, i as int),
            decreases n - i,
        {
            chars.push(src.get_char(i));
            i = i + 1;
            assert(chars@ =~= src@.subrange(0, i as int));
        }
        assert(chars@ =~= src@);
        Scanner { src: String::from_str(src), chars, start: 0, current: 0, line: 1, column: 1 }
    }

    /// The scanner differs from `old` at most in its position counters,
    /// which are now `current`, `line` and `column`.
    closed spec fn moved_from(&self, old: &Scanner, current: int, line: int, column: int) -> bool {
        &&& self.src == old.src
        &&& self.chars == old.chars
        &&& self.start == old.start
        &&& self.current == current
        &&& self.line == line
        &&& self.column == column
    }

    /// Moves one character on; the character read, if any.
    fn advance(&mut self) -> (c: Option<char>)
        requires
            old(self).text_ok(),
            old(self).current < usize::MAX - 4,
        ensures
            final(self).moved_from(
                old(self),
                old(self).current + 1,
                old(self).line as int,
                old(self).column as int,
            ),
            c == char_at(old(self).src@, old(self).current as int),
    {
        self.current += 1;
        if self.current - 1 < self.chars.len() {
            Some(self.chars[self.current - 1])
        } else {
            None
        }
    }

    /// Moves past the next character if it is `expected`; whether it did.
    fn expect(&mut self, expected: char) -> (r: bool)
        requires
            old(self).text_ok(),
            old(self).current < usize::MAX - 4,
        ensures
            final(self).moved_from(
                old(self),
                if r { old(self).current + 1 } else { old(self).current as int },
                old(self).line as int,
                old(self).column as int,
            ),
            r == (char_at(old(self).src@, old(self).current as int) == Some(expected)),
    {
        if self.current < self.chars.len() && self.chars[self.current] == expected {
            self.current += 1;
            true
        } else {
            false
        }
    }

    /// The text of the current lexeme.
    fn generate_lexeme(&self) -> (l: &str)
        requires
            self.text_ok(),
            self.start <= self.current <= self.src@.len(),
        ensures
            l@ == self.src@.subrange(self.start as int, self.current as int),
    {
        self.src.as_str().substring_char(self.start, self.current)
    }

    /// A token of type `token_type` for the current lexeme.
    fn generate_token(&self, token_type: TokenType) -> (t: Token)
        requires
            self.text_ok(),
            self.start <= self.current <= self.src@.len(),
        ensures
            t@ == (TokenView {
                token_type,
                lexeme: self.src@.subrange(self.start as int, self.current as int),
                line: self.line as int,
            }),
    {
        let text = self.generate_lexeme();
        Token::new(token_type, text, self.line)
    }

    /// Reads the rest of a string literal.
    fn string(&mut self) -> (r: Result<Token, ScanError>)
        requires
            old(self).text_ok(),
            old(self).start < old(self).current <= old(self).src@.len(),
            old(self).line <= old(self).current,
        ensures
            ({
                let (closed, e, l) = string_scan(
                    old(self).src@,
                    old(self).current as int,
                    old(self).line as int,
                );
                &&& final(self).moved_from(old(self), e, l, old(self).column as int)
                &&& final(self).line <= final(self).current
                &&& old(self).current < final(self).current
                &&& if closed {
                    &&& final(self).current <= old(self).src@.len()
                    &&& r matches Ok(t) && t@ == (TokenView {
                        token_type: TokenType::String,
                        lexeme: old(self).src@.subrange(old(self).start + 1, e - 1),
                        line: l,
                    })
                } else {
                    r matches Err(err) && err.text() == scan_error_text(
                        l,
                        old(self).column as int,
                        "Unterminated  String"@,
                    )
                }
            }),
    {
        let ghost s = self.src@;
        let ghost goal = string_scan(s, self.current as int, self.line as int);
        let ghost p0 = self.current as int;
        loop
            invariant_except_break
                self.text_ok(),
                self.src == old(self).src,
                self.chars == old(self).chars,
                self.start == old(self).start,
                self.column == old(self).column,
                s == self.src@,
                p0 <= self.current <= s.len(),
                self.line <= self.current,
                string_scan(s, self.current as int, self.line as int) == goal,
                p0 == old(self).current,
                goal == string_scan(old(self).src@, p0, old(self).line as int),
            ensures
                self.text_ok(),
                self.src == old(self).src,
                self.chars == old(self).chars,
                self.start == old(self).start,
                self.column == old(self).column,
                s == self.src@,
                p0 < self.current <= s.len(),
                self.line <= self.current,
                goal == (true, self.current as int, self.line as int),
                p0 == old(self).current,
                goal == string_scan(old(self).src@, p0, old(self).line as int),
            decreases s.len() - self.current,
        {
            match self.advance() {
                None => {
                    assert(string_scan(s, self.current - 1, self.line as int) == (
                        false,
                        self.current as int,
                        self.line as int,
                    ));
                    return Err(
                        ScanError::raise(
                            (self.line, self.column),
                            String::from_str("Unterminated  String"),
                        ),
                    );
                },
                Some(c) => {
                    if c == '\n' {
                        self.line += 1;
                    } else if c == '"' {
                        break ;
                    }
                },
            }
        }
        let text = self.src.as_str().substring_char(self.start + 1, self.current - 1);
        Ok(Token::new(TokenType::String, text, self.line))
    }

    /// Skips white space.
    fn whitespace(&mut self) -> (t: Token)
        requires
            old(self).text_ok(),
            old(self).current <= old(self).src@.len(),
            old(self).line <= old(self).current + 1,
        ensures
            ({
                let (e, l, col) = whitespace_scan(
                    old(self).src@,
                    old(self).current as int,
                    old(self).line as int,
                    old(self).column as int,
                );
                &&& final(self).moved_from(old(self), e, l, col)
                &&& t@ == (TokenView { token_type: TokenType::Ignored, lexeme: Seq::empty(), line: l })
            }),
            final(self).current <= old(self).src@.len() + 1,
            final(self).line <= final(self).current + 1,
    {
        let ghost s = self.src@;
        let ghost goal = whitespace_scan(
            s,
            self.current as int,
            self.line as int,
            self.column as int,
        );
        loop
            invariant_except_break
                self.text_ok(),
                self.src == old(self).src,
                self.chars == old(self).chars,
                self.start == old(self).start,
                s == self.src@,
                self.current <= s.len(),
                self.line <= self.current + 1,
                whitespace_scan(s, self.current as int, self.line as int, self.column as int)
                    == goal,
            ensures
                self.text_ok(),
                self.src == old(self).src,
                self.chars == old(self).chars,
                self.start == old(self).start,
                s == self.src@,
                self.current <= s.len() + 1,
                self.line <= self.current + 1,
                goal == (self.current as int, self.line as int, self.column as int),
            decreases s.len() - self.current,
        {
            match self.advance() {
                None => break ,
                Some(' ') => self.column = self.column.wrapping_add(1),
                Some('\r') => self.column = 0,
                Some('\n') => self.line += 1,
                Some('\t') => self.column = self.column.wrapping_add(4),
                Some(_) => {
                    self.current -= 1;
                    break ;
                },
            }
        }
        Token { token_type: TokenType::Ignored, lexeme: String::new(), line: self.line }
    }

    /// Reads the rest of a word: an identifier or a keyword.
    fn identifier(&mut self) -> (t: Token)
        requires
            old(self).text_ok(),
            old(self).start < old(self).current <= old(self).src@.len(),
        ensures
            ({
                let s = old(self).src@;
                let e = word_end(s, old(self).current as int);
                let lexeme = s.subrange(old(self).start as int, e);
                &&& final(self).moved_from(
                    old(self),
                    e,
                    old(self).line as int,
                    old(self).column as int,
                )
                &&& old(self).current <= e
                &&& t@ == (TokenView {
                    token_type: word_type(lexeme),
                    lexeme,
                    line: old(self).line as int,
                })
            }),
    {
        let ghost s = self.src@;
        let ghost goal = word_end(s, self.current as int);
        loop
            invariant_except_break
                self.text_ok(),
                self.src == old(self).src,
                self.chars == old(self).chars,
                self.start == old(self).start,
                self.line == old(self).line,
                self.column == old(self).column,
                s == self.src@,
                old(self).current <= self.current <= s.len(),
                word_end(s, self.current as int) == goal,
            ensures
                self.text_ok(),
                self.src == old(self).src,
                self.chars == old(self).chars,
                self.start == old(self).start,
                self.line == old(self).line,
                self.column == old(self).column,
                s == self.src@,
                self.current == goal,
                old(self).current <= self.current <= s.len(),
            decreases s.len() - self.current,
        {
            match self.advance() {
                Some(c) => {
                    if !is_ascii_alphabetic(c) && c != '_' {
                        self.current -= 1;
                        break ;
                    }
                },
                None => {
                    self.current -= 1;
                    break ;
                },
            }
        }
        let text = self.generate_lexeme();
        let token_type = match lookup_keyword(&self.chars, self.start, self.current) {
            Some(t) => t,
            None => TokenType::Identifier,
        };
        Token::new(token_type, text, self.line)
    }

    /// Reads the rest of a number: ASCII digits and dots.
    fn number(&mut self) -> (t: Token)
        requires
            old(self).text_ok(),
            old(self).start < old(self).current <= old(self).src@.len(),
        ensures
            ({
                let s = old(self).src@;
                let e = number_end(s, old(self).current as int);
                &&& final(self).moved_from(
                    old(self),
                    e,
                    old(self).line as int,
                    old(self).column as int,
                )
                &&& old(self).current <= e
                &&& t@ == (TokenView {
                    token_type: TokenType::Number,
                    lexeme: s.subrange(old(self).start as int, e),
                    line: old(self).line as int,
                })
            }),
    {
        let ghost s = self.src@;
        let ghost goal = number_end(s, self.current as int);
        loop
            invariant_except_break
                self.text_ok(),
                self.src == old(self).src,
                self.chars == old(self).chars,
                self.start == old(self).start,
                self.line == old(self).line,
                self.column == old(self).column,
                s == self.src@,
                old(self).current <= self.current <= s.len(),
                number_end(s, self.current as int) == goal,
            ensures
                self.text_ok(),
                self.src == old(self).src,
                self.chars == old(self).chars,
                self.start == old(self).start,
                self.line == old(self).line,
                self.column == old(self).column,
                s == self.src@,
                self.current == goal,
                old(self).current <= self.current <= s.len(),
            decreases s.len() - self.current,
        {
            match self.advance() {
                Some('.') => {},
                Some(c) => {
                    if !is_ascii_digit(c) {
                        self.current -= 1;
                        break ;
                    }
                },
                None => {
                    self.current -= 1;
                    break ;
                },
            }
        }
        self.generate_token(TokenType::Number)
    }

    /// Skips a line comment, up to and including the newline that ends it.
    fn single_line_comment(&mut self) -> (t: Token)
        requires
            old(self).text_ok(),
            old(self).current <= old(self).src@.len(),
            old(self).line + 1 <= old(self).current,
        ensures
            final(self).moved_from(
                old(self),
                comment_end(old(self).src@, old(self).current as int),
                old(self).line + 1,
                old(self).column as int,
            ),
            old(self).current < final(self).current <= old(self).src@.len() + 1,
            t@ == (TokenView {
                token_type: TokenType::Ignored,
                lexeme: Seq::empty(),
                line: old(self).line as int,
            }),
    {
        let ghost s = self.src@;
        let ghost goal = comment_end(s, self.current as int);
        loop
            invariant_except_break
                self.text_ok(),
                self.src == old(self).src,
                self.chars == old(self).chars,
                self.start == old(self).start,
                self.line == old(self).line,
                self.column == old(self).column,
                s == self.src@,
                old(self).current <= self.current <= s.len(),
                comment_end(s, self.current as int) == goal,
            ensures
                self.text_ok(),
                self.src == old(self).src,
                self.chars == old(self).chars,
                self.start == old(self).start,
                self.line == old(self).line,
                self.column == old(self).column,
                s == self.src@,
                self.current == goal,
                old(self).current < self.current <= s.len() + 1,
            decreases s.len() - self.current,
        {
            match self.advance() {
                Some(c) => {
                    if c == '\n' {
                        break ;
                    }
                },
                None => break ,
            }
        }
        self.line += 1;
        Token { token_type: TokenType::Ignored, lexeme: String::new(), line: self.line - 1 }
    }

    /// Reads one lexeme: `None` at the end of the source, else a token
    /// (of type `Ignored` for white space and comments), or an error.
    fn generate_tokens(&mut self) -> (r: Result<Option<Token>, ScanError>)
        requires
            old(self).wf(),
        ensures
            final(self).src == old(self).src,
            final(self).chars == old(self).chars,
            final(self).text_ok(),
            match step(old(self).src@, old(self).state()) {
                Step::Done => r matches Ok(None) && final(self).moved_from(
                    old(self),
                    old(self).current + 1,
                    old(self).line as int,
                    old(self).column as int,
                ),
                Step::Fail(msg, after) => r matches Err(e) && e.text() == msg
                    && final(self).state() == after,
                Step::Emit(tok, after) => r matches Ok(Some(t)) && t@ == tok
                    && final(self).state() == after
                    && final(self).line <= final(self).current + 1,
            },
    {
        let ghost s = self.src@;
        let ghost st = self.state();
        let c = match self.advance() {
            None => {
                return Ok(None);
            },
            Some(c) => c,
        };
        assert(c == s[st.current]);
        let token = if c == '(' {
            self.generate_token(TokenType::LeftParen)
        } else if c == ')' {
            self.generate_token(TokenType::RightParen)
        } else if c == '[' {
            self.generate_token(TokenType::LeftBox)
        } else if c == ']' {
            self.generate_token(TokenType::RightBox)
        } else if c == '{' {
            self.generate_token(TokenType::LeftBrace)
        } else if c == '}' {
            self.generate_token(TokenType::RightBrace)
        } else if c == ',' {
            self.generate_token(TokenType::Comma)
        } else if c == '.' {
            self.generate_token(TokenType::Dot)
        } else if c == '-' {
            self.generate_token(TokenType::Minus)
        } else if c == '+' {
            self.generate_token(TokenType::Plus)
        } else if c == '%' {
            self.generate_token(TokenType::Percent)
        } else if c == ';' {
            self.generate_token(TokenType::SemiColon)
        } else if c == '*' {
            self.generate_token(TokenType::Star)
        } else if c == '!' {
            if self.expect('=') {
                self.generate_token(TokenType::BangEqual)
            } else {
                self.generate_token(TokenType::Bang)
            }
        } else if c == '=' {
            if self.expect('=') {
                self.generate_token(TokenType::EqualEqual)
            } else {
                self.generate_token(TokenType::Equal)
            }
        } else if c == '<' {
            if self.expect('=') {
                self.generate_token(TokenType::LessEqual)
            } else {
                self.generate_token(TokenType::Less)
            }
        } else if c == '>' {
            if self.expect('=') {
                self.generate_token(TokenType::GreaterEqual)
            } else {
                self.generate_token(TokenType::Greater)
            }
        } else if c == '/' {
            if self.expect('/') {
                self.single_line_comment()
            } else {
                self.generate_token(TokenType::Slash)
            }
        } else if c == '"' {
            match self.string() {
                Ok(t) => t,
                Err(e) => {
                    return Err(e);
                },
            }
        } else if is_whitespace(c) {
            self.whitespace();
            Token { token_type: TokenType::Ignored, lexeme: String::new(), line: self.line }
        } else if is_alphabetic(c) || c == '_' {
            self.identifier()
        } else if is_numeric(c) {
            self.number()
        } else {
            let mut msg = String::from_str("Unexpected Character ");
            let found = self.src.as_str().substring_char(self.current - 1, self.current);
            assert(found@ =~= seq![c]);
            msg.append(found);
            return Err(ScanError::raise((self.line, self.column), msg));
        };
        Ok(Some(token))
    }

    /// Scans the rest of the source into tokens, closed by an end-of-file
    /// token on the line after the last; white space and comments give no
    /// token. An error is rendered as `ScanError::message` does. From a
    /// fresh scanner the tokens are closed by their only end-of-file token
    /// and name no keyword as an identifier (`closed_by_eof`,
    /// `no_keyword_identifiers`). Column counts wrap around past the largest
    /// `usize`, as unsigned arithmetic does in optimised builds.
    pub fn scan_tokens(&mut self) -> (r: Result<Vec<Token>, String>)
        requires
            old(self).wf(),
        ensures
            final(self).source() == old(self).source(),
            final(self).wf() == state_fits(final(self).state()),
            match scan_outcome(old(self).source(), old(self).state()) {
                ScanOutcome::Tokens(ts, st) => r matches Ok(v) && tokens_view(v@) == ts
                    && final(self).state() == st,
                ScanOutcome::Failure(msg, st) => r matches Err(m) && m@ == msg
                    && final(self).state() == st,
            },
            old(self).state() == initial_state() ==> (r matches Ok(v) ==> closed_by_eof(
                tokens_view(v@),
            ) && no_keyword_identifiers(tokens_view(v@))),
    {
        proof {
            lemma_scan_closed_by_eof(self.src@);
        }
        let ghost s = self.src@;
        let ghost goal = scan_outcome(s, self.state());
        let mut tokens: Vec<Token> = Vec::new();
        assert(tokens_view(tokens@) =~= Seq::empty());
        loop
            invariant_except_break
                self.wf(),
                self.src@ == s,
                s == old(self).src@,
                goal == scan_outcome(old(self).src@, old(self).state()),
                scan_from(s, self.state(), tokens_view(tokens@)) == goal,
            ensures
                self.text_ok(),
                self.src@ == s,
                s == old(self).src@,
                goal == scan_outcome(old(self).src@, old(self).state()),
                goal == ScanOutcome::Tokens(
                    tokens_view(tokens@).push(eof_token(self.line as int)),
                    self.state(),
                ),
                self.line <= usize::MAX - 3,
            decreases usize::MAX - 4 - self.current,
        {
            proof {
                lemma_step_advances(s, self.state());
            }
            match self.generate_tokens() {
                Err(e) => {
                    return Err(e.message());
                },
                Ok(None) => {
                    break;
                },
                Ok(Some(token)) => {
                    let ghost before = tokens@;
                    if token.token_type != TokenType::Ignored {
                        tokens.push(token);
                        assert(tokens_view(tokens@) =~= tokens_view(before).push(token@));
                    }
                    self.start = self.current;
                },
            }
        }
        let eof = Token { token_type: TokenType::Eof, lexeme: String::new(), line: self.line + 1 };
        let ghost before = tokens@;
        tokens.push(eof);
        assert(tokens_view(tokens@) =~= tokens_view(before).push(eof_token(self.line as int)));
        Ok(tokens)
    }
}

} // verus!
