//! What scanning a source text yields, stated over its characters.
//!
//! A scan keeps a position state: `start` (where the current lexeme began),
//! `current` (the next character to read; reading past the end still moves it
//! on by one), `line` and `column`. One step reads one lexeme.

use vstd::prelude::*;
use crate::chars::{ascii_alphabetic, ascii_digit, unicode_alphabetic, unicode_numeric, unicode_whitespace};
use crate::text::decimal;
use crate::token::{token_type_name, TokenType, TokenView};

verus! {

/// The position state of a scan.
pub struct ScanState {
    pub start: int,
    pub current: int,
    pub line: int,
    pub column: int,
}

/// The outcome of reading one lexeme.
pub enum Step {
    /// The source was exhausted before the step began.
    Done,
    /// The step reported an error; the state it left behind.
    Fail(Seq<char>, ScanState),
    /// The step produced a token and left this state.
    Emit(TokenView, ScanState),
}

/// The outcome of scanning the rest of a source.
pub enum ScanOutcome {
    Tokens(Seq<TokenView>, ScanState),
    Failure(Seq<char>, ScanState),
}

/// The character at `p`, if there is one.
pub open spec fn char_at(s: Seq<char>, p: int) -> Option<char> {
    if 0 <= p < s.len() { Some(s[p]) } else { None }
}

/// The text of a scan error at `line` and `column`.
pub open spec fn scan_error_text(line: int, column: int, msg: Seq<char>) -> Seq<char> {
    "[SCANNER]:"@ + decimal(line as nat) + ":"@ + decimal(column as nat) + "\n"@ + msg
}

/// The token type of a keyword, if `lexeme` is one.
pub open spec fn keyword(lexeme: Seq<char>) -> Option<TokenType> {
    if lexeme == "and"@ { Some(TokenType::And) }
    else if lexeme == "break"@ { Some(TokenType::Break) }
    else if lexeme == "class"@ { Some(TokenType::Class) }
    else if lexeme == "else"@ { Some(TokenType::Else) }
    else if lexeme == "false"@ { Some(TokenType::False) }
    else if lexeme == "for"@ { Some(TokenType::For) }
    else if lexeme == "fun"@ { Some(TokenType::Fun) }
    else if lexeme == "if"@ { Some(TokenType::If) }
    else if lexeme == "nil"@ { Some(TokenType::Nil) }
    else if lexeme == "or"@ { Some(TokenType::Or) }
    else if lexeme == "return"@ { Some(TokenType::Return) }
    else if lexeme == "super"@ { Some(TokenType::Super) }
    else if lexeme == "this"@ { Some(TokenType::This) }
    else if lexeme == "true"@ { Some(TokenType::True) }
    else if lexeme == "var"@ { Some(TokenType::Var) }
    else if lexeme == "while"@ { Some(TokenType::While) }
    else { None }
}

/// The token type of a word: its keyword type, or `Identifier`.
pub open spec fn word_type(lexeme: Seq<char>) -> TokenType {
    match keyword(lexeme) {
        Some(t) => t,
        None => TokenType::Identifier,
    }
}

/// The token type of a character that is a token on its own.
pub open spec fn single_char_type(c: char) -> Option<TokenType> {
    if c == '(' { Some(TokenType::LeftParen) }
    else if c == ')' { Some(TokenType::RightParen) }
    else if c == '[' { Some(TokenType::LeftBox) }
    else if c == ']' { Some(TokenType::RightBox) }
    else if c == '{' { Some(TokenType::LeftBrace) }
    else if c == '}' { Some(TokenType::RightBrace) }
    else if c == ',' { Some(TokenType::Comma) }
    else if c == '.' { Some(TokenType::Dot) }
    else if c == '-' { Some(TokenType::Minus) }
    else if c == '+' { Some(TokenType::Plus) }
    else if c == '%' { Some(TokenType::Percent) }
    else if c == ';' { Some(TokenType::SemiColon) }
    else if c == '*' { Some(TokenType::Star) }
    else { None }
}

/// For a character that may be followed by `=`: the token type alone, and with `=`.
pub open spec fn pair_types(c: char) -> Option<(TokenType, TokenType)> {
    if c == '!' { Some((TokenType::Bang, TokenType::BangEqual)) }
    else if c == '=' { Some((TokenType::Equal, TokenType::EqualEqual)) }
    else if c == '<' { Some((TokenType::Less, TokenType::LessEqual)) }
    else if c == '>' { Some((TokenType::Greater, TokenType::GreaterEqual)) }
    else { None }
}

/// Reading the body of a string literal from `p`: whether a closing quote
/// was found, the position after the last read, and the line reached.
pub open spec fn string_scan(s: Seq<char>, p: int, line: int) -> (bool, int, int)
    decreases s.len() - p,
{
    if p < 0 || p >= s.len() {
        (false, p + 1, line)
    } else if s[p] == '\n' {
        string_scan(s, p + 1, line + 1)
    } else if s[p] == '"' {
        (true, p + 1, line)
    } else {
        string_scan(s, p + 1, line)
    }
}

/// A column count after a step, which wraps around past the largest
/// `usize` as unsigned arithmetic does in optimised builds.
pub open spec fn wrap_column(c: int) -> int {
    if c > usize::MAX {
        c - (usize::MAX + 1)
    } else {
        c
    }
}

/// Skipping white space from `p`: the position, line and column reached.
/// Spaces add one column, tabs four, a carriage return resets the column
/// to zero and a newline adds a line.
pub open spec fn whitespace_scan(s: Seq<char>, p: int, line: int, column: int) -> (int, int, int)
    decreases s.len() - p,
{
    if p < 0 || p >= s.len() {
        (p + 1, line, column)
    } else if s[p] == ' ' {
        whitespace_scan(s, p + 1, line, wrap_column(column + 1))
    } else if s[p] == '\r' {
        whitespace_scan(s, p + 1, line, 0)
    } else if s[p] == '\n' {
        whitespace_scan(s, p + 1, line + 1, column)
    } else if s[p] == '\t' {
        whitespace_scan(s, p + 1, line, wrap_column(column + 4))
    } else {
        (p, line, column)
    }
}

/// The end of a word that continues at `p` with ASCII letters and `_`.
pub open spec fn word_end(s: Seq<char>, p: int) -> int
    decreases s.len() - p,
{
    if p < 0 || p >= s.len() {
        p
    } else if ascii_alphabetic(s[p]) || s[p] == '_' {
        word_end(s, p + 1)
    } else {
        p
    }
}

/// The end of a number that continues at `p` with ASCII digits and dots.
pub open spec fn number_end(s: Seq<char>, p: int) -> int
    decreases s.len() - p,
{
    if p < 0 || p >= s.len() {
        p
    } else if s[p] == '.' || ascii_digit(s[p]) {
        number_end(s, p + 1)
    } else {
        p
    }
}

/// The position after a line comment whose text starts at `p`: past the
/// next newline, or one past the end of the source.
pub open spec fn comment_end(s: Seq<char>, p: int) -> int
    decreases s.len() - p,
{
    if p < 0 || p >= s.len() {
        p + 1
    } else if s[p] == '\n' {
        p + 1
    } else {
        comment_end(s, p + 1)
    }
}

/// A token whose lexeme runs from the lexeme start up to `end`.
pub open spec fn lexeme_token(s: Seq<char>, st: ScanState, end: int, t: TokenType) -> Step {
    Step::Emit(
        TokenView { token_type: t, lexeme: s.subrange(st.start, end), line: st.line },
        ScanState { start: st.start, current: end, line: st.line, column: st.column },
    )
}

/// Reading one lexeme from `st`.
pub open spec fn step(s: Seq<char>, st: ScanState) -> Step {
    if st.current < 0 || st.current >= s.len() {
        Step::Done
    } else {
        let c = s[st.current];
        let p = st.current + 1;
        if single_char_type(c) is Some {
            lexeme_token(s, st, p, single_char_type(c)->0)
        } else if pair_types(c) is Some {
            let (one, two) = pair_types(c)->0;
            if char_at(s, p) == Some('=') {
                lexeme_token(s, st, p + 1, two)
            } else {
                lexeme_token(s, st, p, one)
            }
        } else if c == '/' {
            if char_at(s, p) == Some('/') {
                let e = comment_end(s, p + 1);
                Step::Emit(
                    TokenView { token_type: TokenType::Ignored, lexeme: Seq::empty(), line: st.line },
                    ScanState { start: st.start, current: e, line: st.line + 1, column: st.column },
                )
            } else {
                lexeme_token(s, st, p, TokenType::Slash)
            }
        } else if c == '"' {
            let (closed, e, l) = string_scan(s, p, st.line);
            let after = ScanState { start: st.start, current: e, line: l, column: st.column };
            if closed {
                Step::Emit(
                    TokenView {
                        token_type: TokenType::String,
                        lexeme: s.subrange(st.start + 1, e - 1),
                        line: l,
                    },
                    after,
                )
            } else {
                Step::Fail(scan_error_text(l, st.column, "Unterminated  String"@), after)
            }
        } else if unicode_whitespace(c) {
            let (e, l, col) = whitespace_scan(s, p, st.line, st.column);
            Step::Emit(
                TokenView { token_type: TokenType::Ignored, lexeme: Seq::empty(), line: l },
                ScanState { start: st.start, current: e, line: l, column: col },
            )
        } else if unicode_alphabetic(c) || c == '_' {
            let e = word_end(s, p);
            lexeme_token(s, st, e, word_type(s.subrange(st.start, e)))
        } else if unicode_numeric(c) {
            lexeme_token(s, st, number_end(s, p), TokenType::Number)
        } else {
            Step::Fail(
                scan_error_text(st.line, st.column, "Unexpected Character "@.push(c)),
                ScanState { start: st.start, current: p, line: st.line, column: st.column },
            )
        }
    }
}

/// The end-of-file token that closes a scan ended on `line`.
pub open spec fn eof_token(line: int) -> TokenView {
    TokenView { token_type: TokenType::Eof, lexeme: Seq::empty(), line: line + 1 }
}

/// Scanning the rest of `s` from `st`, after the tokens `acc`. Tokens of
/// type `Ignored` (white space and comments) are left out. The guard on
/// positions never fails (`lemma_step_advances`); it only makes the
/// recursion visibly well founded.
pub open spec fn scan_from(s: Seq<char>, st: ScanState, acc: Seq<TokenView>) -> ScanOutcome
    decreases s.len() + 2 - st.current,
{
    match step(s, st) {
        Step::Done => ScanOutcome::Tokens(
            acc.push(eof_token(st.line)),
            ScanState { start: st.start, current: st.current + 1, line: st.line, column: st.column },
        ),
        Step::Fail(msg, after) => ScanOutcome::Failure(msg, after),
        Step::Emit(t, after) => {
            if st.current < after.current <= s.len() + 1 {
                let next = ScanState {
                    start: after.current,
                    current: after.current,
                    line: after.line,
                    column: after.column,
                };
                let acc2 = if t.token_type == TokenType::Ignored { acc } else { acc.push(t) };
                scan_from(s, next, acc2)
            } else {
                ScanOutcome::Failure(Seq::empty(), after)
            }
        },
    }
}

/// Scanning the rest of `s` from `st`.
pub open spec fn scan_outcome(s: Seq<char>, st: ScanState) -> ScanOutcome {
    scan_from(s, st, Seq::empty())
}

/// The state of a fresh scanner.
pub open spec fn initial_state() -> ScanState {
    ScanState { start: 0, current: 0, line: 1, column: 1 }
}

/// Scanning a whole source from the beginning.
pub open spec fn scan(s: Seq<char>) -> ScanOutcome {
    scan_outcome(s, initial_state())
}

/// Whether `ts` is closed by its only end-of-file token, whose lexeme is
/// empty and whose line comes after that of every other token; holds no
/// token of type `Ignored`; and has line numbers, from 1 on, that never go
/// down.
pub open spec fn closed_by_eof(ts: Seq<TokenView>) -> bool {
    &&& ts.len() > 0
    &&& ts.last().token_type == TokenType::Eof
    &&& ts.last().lexeme == Seq::<char>::empty()
    &&& forall|i: int|
        0 <= i < ts.len() - 1 ==> #[trigger] ts[i].token_type != TokenType::Eof
            && ts[i].token_type != TokenType::Ignored
    &&& forall|i: int, j: int| 0 <= i <= j < ts.len() ==> #[trigger] ts[i].line <= #[trigger] ts[j].line
    &&& forall|i: int| 0 <= i < ts.len() - 1 ==> #[trigger] ts[i].line < ts.last().line
    &&& forall|i: int| 0 <= i < ts.len() ==> #[trigger] ts[i].line >= 1
}

/// Whether no identifier token in `ts` spells a keyword.
pub open spec fn no_keyword_identifiers(ts: Seq<TokenView>) -> bool {
    forall|i: int|
        0 <= i < ts.len() && #[trigger] ts[i].token_type == TokenType::Identifier
            ==> keyword(ts[i].lexeme) is None
}

proof fn lemma_string_scan_line(s: Seq<char>, p: int, line: int)
    ensures
        string_scan(s, p, line).2 >= line,
    decreases s.len() - p,
{
    if 0 <= p < s.len() && s[p] != '"' {
        if s[p] == '\n' {
            lemma_string_scan_line(s, p + 1, line + 1);
        } else {
            lemma_string_scan_line(s, p + 1, line);
        }
    }
}

proof fn lemma_whitespace_scan_line(s: Seq<char>, p: int, line: int, column: int)
    ensures
        whitespace_scan(s, p, line, column).1 >= line,
    decreases s.len() - p,
{
    if 0 <= p < s.len() {
        if s[p] == ' ' {
            lemma_whitespace_scan_line(s, p + 1, line, wrap_column(column + 1));
        } else if s[p] == '\r' {
            lemma_whitespace_scan_line(s, p + 1, line, 0);
        } else if s[p] == '\n' {
            lemma_whitespace_scan_line(s, p + 1, line + 1, column);
        } else if s[p] == '\t' {
            lemma_whitespace_scan_line(s, p + 1, line, wrap_column(column + 4));
        }
    }
}

proof fn lemma_string_scan_end(s: Seq<char>, p: int, line: int)
    requires
        0 <= p <= s.len(),
    ensures
        p < string_scan(s, p, line).1 <= s.len() + 1,
        string_scan(s, p, line).0 ==> string_scan(s, p, line).1 <= s.len(),
    decreases s.len() - p,
{
    if p < s.len() && s[p] != '"' {
        if s[p] == '\n' {
            lemma_string_scan_end(s, p + 1, line + 1);
        } else {
            lemma_string_scan_end(s, p + 1, line);
        }
    }
}

proof fn lemma_whitespace_scan_end(s: Seq<char>, p: int, line: int, column: int)
    requires
        0 <= p <= s.len(),
    ensures
        p <= whitespace_scan(s, p, line, column).0 <= s.len() + 1,
    decreases s.len() - p,
{
    if p < s.len() {
        if s[p] == ' ' {
            lemma_whitespace_scan_end(s, p + 1, line, wrap_column(column + 1));
        } else if s[p] == '\r' {
            lemma_whitespace_scan_end(s, p + 1, line, 0);
        } else if s[p] == '\n' {
            lemma_whitespace_scan_end(s, p + 1, line + 1, column);
        } else if s[p] == '\t' {
            lemma_whitespace_scan_end(s, p + 1, line, wrap_column(column + 4));
        }
    }
}

proof fn lemma_word_end(s: Seq<char>, p: int)
    requires
        0 <= p <= s.len(),
    ensures
        p <= word_end(s, p) <= s.len(),
    decreases s.len() - p,
{
    if p < s.len() && (ascii_alphabetic(s[p]) || s[p] == '_') {
        lemma_word_end(s, p + 1);
    }
}

proof fn lemma_number_end(s: Seq<char>, p: int)
    requires
        0 <= p <= s.len(),
    ensures
        p <= number_end(s, p) <= s.len(),
    decreases s.len() - p,
{
    if p < s.len() && (s[p] == '.' || ascii_digit(s[p])) {
        lemma_number_end(s, p + 1);
    }
}

proof fn lemma_comment_end(s: Seq<char>, p: int)
    requires
        0 <= p <= s.len(),
    ensures
        p < comment_end(s, p) <= s.len() + 1,
    decreases s.len() - p,
{
    if p < s.len() && s[p] != '\n' {
        lemma_comment_end(s, p + 1);
    }
}

/// A step that emits a token moves on, and no further than one past the
/// end of the source.
pub proof fn lemma_step_advances(s: Seq<char>, st: ScanState)
    requires
        0 <= st.start <= st.current,
    ensures
        step(s, st) matches Step::Emit(t, after) ==> st.current < after.current <= s.len() + 1,
{
    if 0 <= st.current < s.len() {
        let c = s[st.current];
        let p = st.current + 1;
        if single_char_type(c) is Some {
        } else if pair_types(c) is Some {
        } else if c == '/' {
            if char_at(s, p) == Some('/') {
                lemma_comment_end(s, p + 1);
            }
        } else if c == '"' {
            lemma_string_scan_end(s, p, st.line);
        } else if unicode_whitespace(c) {
            lemma_whitespace_scan_end(s, p, st.line, st.column);
        } else if unicode_alphabetic(c) || c == '_' {
            lemma_word_end(s, p);
        } else if unicode_numeric(c) {
            lemma_number_end(s, p);
        }
    }
}

/// A step never emits an end-of-file token, never moves back a line, and
/// gives a kept token a line between the lines before and after it.
proof fn lemma_step_emit(s: Seq<char>, st: ScanState)
    ensures
        step(s, st) matches Step::Emit(t, after) ==> {
            &&& t.token_type != TokenType::Eof
            &&& t.token_type == TokenType::Identifier ==> keyword(t.lexeme) is None
            &&& st.line <= after.line
            &&& t.token_type != TokenType::Ignored ==> st.line <= t.line <= after.line
        },
{
    if 0 <= st.current < s.len() {
        let c = s[st.current];
        let p = st.current + 1;
        if c == '"' {
            lemma_string_scan_line(s, p, st.line);
        } else if unicode_whitespace(c) {
            lemma_whitespace_scan_line(s, p, st.line, st.column);
        }
    }
}

proof fn lemma_scan_from_closed(s: Seq<char>, st: ScanState, acc: Seq<TokenView>)
    requires
        forall|i: int|
            0 <= i < acc.len() ==> #[trigger] acc[i].token_type != TokenType::Eof
                && acc[i].token_type != TokenType::Ignored,
        forall|i: int, j: int| 0 <= i <= j < acc.len() ==> #[trigger] acc[i].line <= #[trigger] acc[j].line,
        forall|i: int| 0 <= i < acc.len() ==> #[trigger] acc[i].line <= st.line,
        forall|i: int| 0 <= i < acc.len() ==> #[trigger] acc[i].line >= 1,
        st.line >= 1,
        no_keyword_identifiers(acc),
    ensures
        scan_from(s, st, acc) matches ScanOutcome::Tokens(ts, _) ==> closed_by_eof(ts)
            && no_keyword_identifiers(ts),
    decreases s.len() + 2 - st.current,
{
    lemma_step_emit(s, st);
    match step(s, st) {
        Step::Done => {
            let ts = acc.push(eof_token(st.line));
            assert forall|i: int, j: int| 0 <= i <= j < ts.len() implies #[trigger] ts[i].line
                <= #[trigger] ts[j].line by {
                if j < acc.len() {
                    assert(ts[i] == acc[i] && ts[j] == acc[j]);
                } else if i < acc.len() {
                    assert(ts[i] == acc[i]);
                }
            }
            assert forall|i: int| 0 <= i < ts.len() - 1 implies #[trigger] ts[i].token_type
                != TokenType::Eof && ts[i].token_type != TokenType::Ignored by {
                assert(ts[i] == acc[i]);
            }
            assert forall|i: int| 0 <= i < ts.len() - 1 implies #[trigger] ts[i].line < ts.last().line by {
                assert(ts[i] == acc[i]);
            }
            assert forall|i: int| 0 <= i < ts.len() implies #[trigger] ts[i].line >= 1 by {
                if i < acc.len() {
                    assert(ts[i] == acc[i]);
                }
            }
            assert forall|i: int|
                0 <= i < ts.len() && #[trigger] ts[i].token_type == TokenType::Identifier implies keyword(
                ts[i].lexeme) is None by {
                assert(ts[i] == acc[i]);
            }
        },
        Step::Emit(t, after) => {
            if st.current < after.current <= s.len() + 1 {
                let next = ScanState {
                    start: after.current,
                    current: after.current,
                    line: after.line,
                    column: after.column,
                };
                if t.token_type == TokenType::Ignored {
                    lemma_scan_from_closed(s, next, acc);
                } else {
                    let acc2 = acc.push(t);
                    assert forall|i: int, j: int| 0 <= i <= j < acc2.len() implies #[trigger] acc2[i].line
                        <= #[trigger] acc2[j].line by {
                        if j < acc.len() {
                            assert(acc2[i] == acc[i] && acc2[j] == acc[j]);
                        } else if i < acc.len() {
                            assert(acc2[i] == acc[i]);
                        }
                    }
                    assert forall|i: int| 0 <= i < acc2.len() implies #[trigger] acc2[i].token_type
                        != TokenType::Eof && acc2[i].token_type != TokenType::Ignored by {
                        if i < acc.len() {
                            assert(acc2[i] == acc[i]);
                        }
                    }
                    assert forall|i: int| 0 <= i < acc2.len() implies #[trigger] acc2[i].line
                        <= next.line by {
                        if i < acc.len() {
                            assert(acc2[i] == acc[i]);
                        }
                    }
                    assert forall|i: int|
                        0 <= i < acc2.len() && #[trigger] acc2[i].token_type == TokenType::Identifier
                        implies keyword(acc2[i].lexeme) is None by {
                        if i < acc.len() {
                            assert(acc2[i] == acc[i]);
                        }
                    }
                    assert forall|i: int| 0 <= i < acc2.len() implies #[trigger] acc2[i].line >= 1 by {
                        if i < acc.len() {
                            assert(acc2[i] == acc[i]);
                        }
                    }
                    lemma_scan_from_closed(s, next, acc2);
                }
            }
        },
        _ => {},
    }
}

/// A successful scan yields tokens closed by their only end-of-file token,
/// with no token for white space or comments, with line numbers that never
/// go down, and with no identifier that spells a keyword.
pub proof fn lemma_scan_closed_by_eof(s: Seq<char>)
    ensures
        scan(s) matches ScanOutcome::Tokens(ts, _) ==> closed_by_eof(ts) && no_keyword_identifiers(ts),
{
    lemma_scan_from_closed(s, initial_state(), Seq::empty());
}

/// A word runs to the end of a source whose characters from `p` on are all
/// ASCII letters or `_`.
proof fn lemma_word_to_end(s: Seq<char>, p: int)
    requires
        0 <= p <= s.len(),
        forall|i: int| p <= i < s.len() ==> ascii_alphabetic(s[i]) || s[i] == '_',
    ensures
        word_end(s, p) == s.len(),
    decreases s.len() - p,
{
    if p < s.len() {
        lemma_word_to_end(s, p + 1);
    }
}

/// No keyword starts with `_`.
proof fn lemma_underscore_is_no_keyword(w: Seq<char>)
    requires
        w.len() > 0,
        w[0] == '_',
    ensures
        keyword(w) is None,
{
    reveal_strlit("and");
    reveal_strlit("break");
    reveal_strlit("class");
    reveal_strlit("else");
    reveal_strlit("false");
    reveal_strlit("for");
    reveal_strlit("fun");
    reveal_strlit("if");
    reveal_strlit("nil");
    reveal_strlit("or");
    reveal_strlit("return");
    reveal_strlit("super");
    reveal_strlit("this");
    reveal_strlit("true");
    reveal_strlit("var");
    reveal_strlit("while");
}

/// A word may start with `_`: a source that is `_` followed by ASCII
/// letters and `_` scans to one identifier token whose lexeme is the whole
/// source, on line 1, then the end-of-file token.
pub proof fn lemma_underscore_word(w: Seq<char>)
    requires
        forall|i: int| 0 <= i < w.len() ==> ascii_alphabetic(w[i]) || w[i] == '_',
    ensures
        scan(seq!['_'] + w) == ScanOutcome::Tokens(
            seq![
                TokenView { token_type: TokenType::Identifier, lexeme: seq!['_'] + w, line: 1 },
                eof_token(1),
            ],
            ScanState { start: w.len() + 1int, current: w.len() + 2int, line: 1, column: 1 },
        ),
{
    let s = seq!['_'] + w;
    let n: int = s.len() as int;
    assert forall|i: int| 1 <= i < n implies ascii_alphabetic(s[i]) || s[i] == '_' by {
        assert(s[i] == w[i - 1]);
    }
    lemma_word_to_end(s, 1);
    assert(s.subrange(0, n) =~= s);
    lemma_underscore_is_no_keyword(s);
    let t = TokenView { token_type: TokenType::Identifier, lexeme: s, line: 1 };
    let after = ScanState { start: 0, current: n, line: 1, column: 1 };
    assert(!unicode_whitespace('_'));
    assert(step(s, initial_state()) == Step::Emit(t, after));
    let next = ScanState { start: n, current: n, line: 1, column: 1 };
    assert(step(s, next) == Step::Done);
    assert(scan_from(s, next, seq![t]) == ScanOutcome::Tokens(
        seq![t].push(eof_token(1)),
        ScanState { start: n, current: n + 1, line: 1, column: 1 },
    ));
    assert(Seq::<TokenView>::empty().push(t) == seq![t]);
    assert(seq![t].push(eof_token(1)) == seq![t, eof_token(1)]);
}

/// The names of the token types that the symbols read as: `(` is a "Left
/// Parenthesis", `+` a "Plus", `<` a "Less" and `<=` a "Less Equal", and
/// so on for every symbol the scanner reads.
pub proof fn lemma_symbol_names()
    ensures
        token_type_name(single_char_type('(')->0) == "Left Parenthesis"@,
        token_type_name(single_char_type(')')->0) == "Right Parenthesis"@,
        token_type_name(single_char_type('[')->0) == "Left Box"@,
        token_type_name(single_char_type(']')->0) == "Right Box"@,
        token_type_name(single_char_type('{')->0) == "Left Brace"@,
        token_type_name(single_char_type('}')->0) == "Right Brace"@,
        token_type_name(single_char_type(',')->0) == "Comma"@,
        token_type_name(single_char_type('.')->0) == "Dot"@,
        token_type_name(single_char_type('-')->0) == "Minus"@,
        token_type_name(single_char_type('+')->0) == "Plus"@,
        token_type_name(single_char_type('%')->0) == "Percent"@,
        token_type_name(single_char_type(';')->0) == "Semicolon"@,
        token_type_name(single_char_type('*')->0) == "Star"@,
        pair_types('!') matches Some((one, two)) && token_type_name(one) == "Not"@
            && token_type_name(two) == "Not Equal"@,
        pair_types('=') matches Some((one, two)) && token_type_name(one) == "Assignment"@
            && token_type_name(two) == "Equals"@,
        pair_types('<') matches Some((one, two)) && token_type_name(one) == "Less"@
            && token_type_name(two) == "Less Equal"@,
        pair_types('>') matches Some((one, two)) && token_type_name(one) == "Greater"@
            && token_type_name(two) == "Greater Equal"@,
{
}

/// The upper-case form of an ASCII lower-case letter.
pub open spec fn upper(c: char) -> char {
    ((c as int) - 32) as char
}

/// The type of every keyword is named by the keyword with its first letter
/// in upper case (`while` is a "While", `nil` a "Nil").
pub proof fn lemma_keyword_names(w: Seq<char>)
    requires
        keyword(w) is Some,
    ensures
        token_type_name(keyword(w)->0) == seq![upper(w[0])] + w.subrange(1, w.len() as int),
{
    reveal_strlit("and");
    reveal_strlit("break");
    reveal_strlit("class");
    reveal_strlit("else");
    reveal_strlit("false");
    reveal_strlit("for");
    reveal_strlit("fun");
    reveal_strlit("if");
    reveal_strlit("nil");
    reveal_strlit("or");
    reveal_strlit("return");
    reveal_strlit("super");
    reveal_strlit("this");
    reveal_strlit("true");
    reveal_strlit("var");
    reveal_strlit("while");
    reveal_strlit("And");
    reveal_strlit("Break");
    reveal_strlit("Class");
    reveal_strlit("Else");
    reveal_strlit("False");
    reveal_strlit("For");
    reveal_strlit("Fun");
    reveal_strlit("If");
    reveal_strlit("Nil");
    reveal_strlit("Or");
    reveal_strlit("Return");
    reveal_strlit("Super");
    reveal_strlit("This");
    reveal_strlit("True");
    reveal_strlit("Var");
    reveal_strlit("While");
    assert(token_type_name(keyword(w)->0) =~= seq![upper(w[0])] + w.subrange(1, w.len() as int));
}

} // verus!
