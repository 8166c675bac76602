//! # Recursive Descent Parser
//!
//! Builds the syntax tree of a token sequence by recursive descent. The
//! public interface is `Parser::new`, `Parser::parse` and
//! `Parser::try_parse`; the parser does not keep the tree it returns. What
//! a parse yields is stated by `parse_spec::parse_result`.

use vstd::prelude::*;
use crate::expr::{Expr, ExprV, Literal, expr_views};
use crate::numbers::is_float_text;
use crate::parse_spec::{
    PState, grammar, tok, at_end, check, matches_any, consume, synchronise, sync_loop,
    eof_from, next, expression, assignment, or_expr, and_expr, equality,
    equality_tail, comparison, comparison_tail, term, term_tail, factor, factor_tail, unary, call,
    call_tail, finish_call, call_args, array_items, primary, equality_ops, comparison_ops, term_ops,
    factor_ops, expr_statement, return_statement, var_declaration,
    while_statement, else_branch, if_statement, for_initializer, optional_expression,
    for_statement, for_rest, statement, block, block_items, params, function, function_body,
    declaration, program, parse_result, for_loop, fwd, stray,
};
use crate::stmt::{opt_expr_view, opt_stmt_view, Stmt, StmtV, stmt_views};
use crate::text::{push_decimal, join_strings, strings_view};
use crate::token::{tokens_view, Token, TokenType, TokenView};

verus! {

/// The value of an expression result.
pub open spec fn expr_result(r: Result<Expr, String>) -> Result<ExprV, Seq<char>> {
    match r {
        Ok(e) => Ok(e.view()),
        Err(m) => Err(m@),
    }
}

/// The value of a token result.
pub open spec fn token_result(r: Result<Token, String>) -> Result<TokenView, Seq<char>> {
    match r {
        Ok(t) => Ok(t@),
        Err(m) => Err(m@),
    }
}

/// The value of a statement result.
pub open spec fn stmt_result(r: Result<Stmt, String>) -> Result<StmtV, Seq<char>> {
    match r {
        Ok(s) => Ok(s.view()),
        Err(m) => Err(m@),
    }
}

/// The value of a statement-list result.
pub open spec fn stmts_result(r: Result<Vec<Stmt>, String>) -> Result<Seq<StmtV>, Seq<char>> {
    match r {
        Ok(ss) => Ok(stmt_views(ss@)),
        Err(m) => Err(m@),
    }
}

/// A parser over a token sequence.
pub struct Parser {
    tokens: Vec<Token>,
    current: usize,
    index: usize,
    bad_number: bool,
}

impl Parser {
    /// The tokens being parsed.
    pub closed spec fn tokens(&self) -> Seq<TokenView> {
        tokens_view(self.tokens@)
    }

    /// The parse state: the next token, the next resolution index, and
    /// whether a number literal that is no floating-point number was read.
    pub closed spec fn state(&self) -> PState {
        PState { pos: self.current as int, idx: self.index as int, bad_number: self.bad_number }
    }

    /// The parser is well formed: an end-of-file token lies ahead, and
    /// fewer indices were handed out than tokens read.
    pub closed spec fn wf(&self) -> bool {
        &&& eof_from(self.tokens(), self.current as int)
        &&& self.index <= self.current
    }

    /// The parser went on from `old` over the same tokens, stays well
    /// formed, and has not moved back.
    closed spec fn went_on(&self, old: &Parser) -> bool {
        &&& self.tokens == old.tokens
        &&& self.wf()
        &&& old.current <= self.current
    }

    /// A parser at the start of `tokens`.
    pub fn new(tokens: Vec<Token>) -> (p: Self)
        ensures
            p.tokens() == tokens_view(tokens@),
            p.state() == (PState { pos: 0, idx: 0, bad_number: false }),
            p.wf() == eof_from(tokens_view(tokens@), 0),
    {
        Parser { tokens, current: 0, index: 0, bad_number: false }
    }

    proof fn lemma_in_bounds(&self)
        requires
            self.wf(),
        ensures
            self.current < self.tokens@.len(),
            self.tokens().len() == self.tokens@.len(),
            tok(self.tokens(), self.current as int) == self.tokens@[self.current as int]@,
    {
        let i = choose|i: int|
            self.current <= i < self.tokens().len() && #[trigger] self.tokens()[i].token_type
                == TokenType::Eof;
    }

    /// The next token.
    fn peek(&self) -> (t: &Token)
        requires
            self.wf(),
        ensures
            t@ == tok(self.tokens(), self.current as int),
    {
        proof {
            self.lemma_in_bounds();
        }
        &self.tokens[self.current]
    }

    /// Whether the parse is at the end of file.
    fn is_at_end(&self) -> (r: bool)
        requires
            self.wf(),
        ensures
            r == at_end(self.tokens(), self.current as int),
    {
        self.peek().token_type == TokenType::Eof
    }

    /// Whether the next token, short of the end of file, has type `typ`.
    fn check(&self, typ: &TokenType) -> (r: bool)
        requires
            self.wf(),
        ensures
            r == check(self.tokens(), self.current as int, *typ),
    {
        if self.is_at_end() {
            return false;
        }
        self.peek().token_type == *typ
    }

    /// The token before the next one.
    fn previous(&self) -> (t: Token)
        requires
            self.wf(),
            0 < self.current,
        ensures
            t@ == tok(self.tokens(), self.current - 1),
    {
        proof {
            self.lemma_in_bounds();
        }
        self.tokens[self.current - 1].clone()
    }

    /// Moves past the next token unless at the end of file; the token
    /// moved past (or the one before the end).
    fn advance(&mut self) -> (t: Token)
        requires
            old(self).wf(),
            0 < old(self).current || !at_end(old(self).tokens(), old(self).current as int),
        ensures
            final(self).went_on(old(self)),
            final(self).index == old(self).index,
            final(self).bad_number == old(self).bad_number,
            final(self).current == if at_end(old(self).tokens(), old(self).current as int) {
                old(self).current as int
            } else {
                old(self).current + 1
            },
            t@ == tok(final(self).tokens(), final(self).current - 1),
    {
        proof {
            self.lemma_in_bounds();
        }
        if !self.is_at_end() {
            let n = self.tokens.len();
            proof {
                let ts = self.tokens();
                let i = choose|i: int|
                    self.current <= i < ts.len() && #[trigger] ts[i].token_type == TokenType::Eof;
                assert(i != self.current);
                assert(self.current + 1 <= i < ts.len() && ts[i].token_type == TokenType::Eof);
                assert(self.current + 1 < n);
            }
            self.current += 1;
        }
        self.previous()
    }

    /// Moves past the next token if, short of the end of file, it has one
    /// of `types`; whether it did.
    fn match_tokens(&mut self, types: &[TokenType]) -> (r: bool)
        requires
            old(self).wf(),
        ensures
            final(self).went_on(old(self)),
            final(self).index == old(self).index,
            final(self).bad_number == old(self).bad_number,
            r == matches_any(old(self).tokens(), old(self).current as int, types@),
            final(self).current == if r { old(self).current + 1 } else { old(self).current as int },
    {
        let mut i: usize = 0;
        while i < types.len()
            invariant
                self.wf(),
                self.tokens == old(self).tokens,
                self.current == old(self).current,
                self.index == old(self).index,
                self.bad_number == old(self).bad_number,
                i <= types@.len(),
                forall|j: int| 0 <= j < i ==> !check(self.tokens(), self.current as int, types@[j]),
            decreases types.len() - i,
        {
            if self.check(&types[i]) {
                self.advance();
                return true;
            }
            i = i + 1;
        }
        false
    }

    /// The next resolution index; hands it out.
    fn index(&mut self) -> (i: usize)
        requires
            old(self).wf(),
            old(self).index < old(self).current,
        ensures
            i == old(self).index,
            final(self).tokens == old(self).tokens,
            final(self).current == old(self).current,
            final(self).index == old(self).index + 1,
            final(self).bad_number == old(self).bad_number,
            final(self).wf(),
    {
        let index = self.index;
        self.index += 1;
        index
    }

    /// Consumes a token of type `token_type`, or reports `msg` at the next
    /// token's line.
    fn consume(&mut self, token_type: TokenType, msg: &str) -> (r: Result<Token, String>)
        requires
            old(self).wf(),
            token_type != TokenType::Eof,
        ensures
            final(self).went_on(old(self)),
            (token_result(r), final(self).state()) == consume(
                old(self).tokens(),
                old(self).state(),
                token_type,
                msg@,
            ),
    {
        let line = self.peek().line;
        if self.peek().token_type == token_type {
            self.advance();
            let token = self.previous();
            Ok(token)
        } else {
            let mut m = String::from_str("Line ");
            push_decimal(&mut m, line);
            m.append(": ");
            m.append(msg);
            Err(m)
        }
    }

    /// Parses an expression.
    fn expression(&mut self) -> (r: Result<Expr, String>)
        requires
            old(self).wf(),
        ensures
            final(self).went_on(old(self)),
            r is Ok ==> old(self).current < final(self).current,
            (expr_result(r), final(self).state()) === expression(old(self).tokens(), old(self).state()),
        decreases old(self).tokens@.len() - old(self).current, 30int,
    {
        proof {
            reveal(grammar);
        }
        self.assigment()
    }

    /// An assignment, or the expression on its left alone.
    fn assigment(&mut self) -> (r: Result<Expr, String>)
        requires
            old(self).wf(),
        ensures
            final(self).went_on(old(self)),
            r is Ok ==> old(self).current < final(self).current,
            (expr_result(r), final(self).state()) === assignment(old(self).tokens(), old(self).state()),
        decreases old(self).tokens@.len() - old(self).current, 29int,
    {
        proof {
            reveal(grammar);
        }
        let expr = match self.or() {
            Ok(e) => e,
            Err(m) => {
                return Err(m);
            },
        };
        proof {
            self.lemma_in_bounds();
        }
        let types = [TokenType::Equal];
        proof {
            assert(types@ =~= seq![TokenType::Equal]);
        }
        if self.match_tokens(&types) {
            let value = match self.assigment() {
                Ok(e) => e,
                Err(m) => {
                    return Err(m);
                },
            };
            match expr {
                Expr::Variable { index, name } => Ok(Expr::create_assigment(name, value, None, index)),
                Expr::Access { name, position, index } => Ok(
                    Expr::create_assigment(name, value, Some(position), index),
                ),
                other => {
                    let mut m = String::from_str("Invalid assignment target ");
                    let text = other.to_string();
                    m.append(text.as_str());
                    Err(m)
                },
            }
        } else {
            Ok(expr)
        }
    }

    /// `or`: an `and` expression, or two joined by `or`.
    fn or(&mut self) -> (r: Result<Expr, String>)
        requires
            old(self).wf(),
        ensures
            final(self).went_on(old(self)),
            r is Ok ==> old(self).current < final(self).current,
            (expr_result(r), final(self).state()) === or_expr(old(self).tokens(), old(self).state()),
        decreases old(self).tokens@.len() - old(self).current, 28int,
    {
        proof {
            reveal(grammar);
        }
        let mut expr = match self.and() {
            Ok(e) => e,
            Err(m) => {
                return Err(m);
            },
        };
        proof {
            self.lemma_in_bounds();
        }
        let types = [TokenType::Or];
        proof {
            assert(types@ =~= seq![TokenType::Or]);
        }
        if self.match_tokens(&types) {
            let operator: Token = self.previous();
            let right: Expr = match self.and() {
                Ok(e) => e,
                Err(m) => {
                    return Err(m);
                },
            };
            expr = Expr::new_logical(expr, operator, right);
        }
        return Ok(expr);
    }

    /// `and`: an equality, or two joined by `and`.
    fn and(&mut self) -> (r: Result<Expr, String>)
        requires
            old(self).wf(),
        ensures
            final(self).went_on(old(self)),
            r is Ok ==> old(self).current < final(self).current,
            (expr_result(r), final(self).state()) === and_expr(old(self).tokens(), old(self).state()),
        decreases old(self).tokens@.len() - old(self).current, 27int,
    {
        proof {
            reveal(grammar);
        }
        let mut expr: Expr = match self.equality() {
            Ok(e) => e,
            Err(m) => {
                return Err(m);
            },
        };
        proof {
            self.lemma_in_bounds();
        }
        let types = [TokenType::And];
        proof {
            assert(types@ =~= seq![TokenType::And]);
        }
        if self.match_tokens(&types) {
            let operator: Token = self.previous();
            let right: Expr = match self.equality() {
                Ok(e) => e,
                Err(m) => {
                    return Err(m);
                },
            };
            expr = Expr::new_logical(expr, operator, right);
        }
        return Ok(expr);
    }

    /// `equality`: comparisons joined by `!=` and `==`, grouped to the left.
    fn equality(&mut self) -> (r: Result<Expr, String>)
        requires
            old(self).wf(),
        ensures
            final(self).went_on(old(self)),
            r is Ok ==> old(self).current < final(self).current,
            (expr_result(r), final(self).state()) === equality(old(self).tokens(), old(self).state()),
        decreases old(self).tokens@.len() - old(self).current, 26int,
    {
        proof {
            reveal(grammar);
        }
        let mut expr = match self.comparison() {
            Ok(e) => e,
            Err(m) => {
                return Err(m);
            },
        };
        proof {
            self.lemma_in_bounds();
        }
        let ghost goal = equality(old(self).tokens(), old(self).state());
        loop
            invariant_except_break
                self.went_on(old(self)),
                old(self).current < self.current,
                goal == equality(old(self).tokens(), old(self).state()),
                goal == equality_tail(self.tokens(), expr.view(), self.state()),
            ensures
                self.went_on(old(self)),
                old(self).current < self.current,
                goal == equality(old(self).tokens(), old(self).state()),
                goal == (Ok::<ExprV, Seq<char>>(expr.view()), self.state()),
            decreases self.tokens@.len() - self.current,
        {
            proof {
                reveal(grammar);
            }
            let ghost st = self.state();
            proof {
                self.lemma_in_bounds();
            }
            let types = [TokenType::BangEqual, TokenType::EqualEqual];
            proof {
                assert(types@ =~= seq![TokenType::BangEqual, TokenType::EqualEqual]);
            }
            if !self.match_tokens(&types) {
                assert(!matches_any(self.tokens(), st.pos, equality_ops()));
                break;
            }
            assert(matches_any(self.tokens(), st.pos, equality_ops()));
            let operator = self.previous();
            let right = match self.comparison() {
                Ok(e) => e,
                Err(m) => {
                    return Err(m);
                },
            };
            proof {
                self.lemma_in_bounds();
            }
            expr = Expr::new_binary(expr, operator, right);
        }
        Ok(expr)
    }

    /// `comparison`: terms joined by `>`, `>=`, `<` and `<=`, grouped to the left.
    fn comparison(&mut self) -> (r: Result<Expr, String>)
        requires
            old(self).wf(),
        ensures
            final(self).went_on(old(self)),
            r is Ok ==> old(self).current < final(self).current,
            (expr_result(r), final(self).state()) === comparison(old(self).tokens(), old(self).state()),
        decreases old(self).tokens@.len() - old(self).current, 24int,
    {
        proof {
            reveal(grammar);
        }
        let mut expr = match self.term() {
            Ok(e) => e,
            Err(m) => {
                return Err(m);
            },
        };
        proof {
            self.lemma_in_bounds();
        }
        let ghost goal = comparison(old(self).tokens(), old(self).state());
        loop
            invariant_except_break
                self.went_on(old(self)),
                old(self).current < self.current,
                goal == comparison(old(self).tokens(), old(self).state()),
                goal == comparison_tail(self.tokens(), expr.view(), self.state()),
            ensures
                self.went_on(old(self)),
                old(self).current < self.current,
                goal == comparison(old(self).tokens(), old(self).state()),
                goal == (Ok::<ExprV, Seq<char>>(expr.view()), self.state()),
            decreases self.tokens@.len() - self.current,
        {
            proof {
                reveal(grammar);
            }
            let ghost st = self.state();
            proof {
                self.lemma_in_bounds();
            }
            let types = [TokenType::Greater, TokenType::GreaterEqual, TokenType::Less, TokenType::LessEqual];
            proof {
                assert(types@ =~= seq![TokenType::Greater, TokenType::GreaterEqual, TokenType::Less, TokenType::LessEqual]);
            }
            if !self.match_tokens(&types) {
                assert(!matches_any(self.tokens(), st.pos, comparison_ops()));
                break;
            }
            assert(matches_any(self.tokens(), st.pos, comparison_ops()));
            let operator = self.previous();
            let right = match self.term() {
                Ok(e) => e,
                Err(m) => {
                    return Err(m);
                },
            };
            proof {
                self.lemma_in_bounds();
            }
            expr = Expr::new_binary(expr, operator, right);
        }
        Ok(expr)
    }

    /// `term`: factors joined by `-` and `+`, grouped to the left.
    fn term(&mut self) -> (r: Result<Expr, String>)
        requires
            old(self).wf(),
        ensures
            final(self).went_on(old(self)),
            r is Ok ==> old(self).current < final(self).current,
            (expr_result(r), final(self).state()) === term(old(self).tokens(), old(self).state()),
        decreases old(self).tokens@.len() - old(self).current, 22int,
    {
        proof {
            reveal(grammar);
        }
        let mut expr = match self.factor() {
            Ok(e) => e,
            Err(m) => {
                return Err(m);
            },
        };
        proof {
            self.lemma_in_bounds();
        }
        let ghost goal = term(old(self).tokens(), old(self).state());
        loop
            invariant_except_break
                self.went_on(old(self)),
                old(self).current < self.current,
                goal == term(old(self).tokens(), old(self).state()),
                goal == term_tail(self.tokens(), expr.view(), self.state()),
            ensures
                self.went_on(old(self)),
                old(self).current < self.current,
                goal == term(old(self).tokens(), old(self).state()),
                goal == (Ok::<ExprV, Seq<char>>(expr.view()), self.state()),
            decreases self.tokens@.len() - self.current,
        {
            proof {
                reveal(grammar);
            }
            let ghost st = self.state();
            proof {
                self.lemma_in_bounds();
            }
            let types = [TokenType::Minus, TokenType::Plus];
            proof {
                assert(types@ =~= seq![TokenType::Minus, TokenType::Plus]);
            }
            if !self.match_tokens(&types) {
                assert(!matches_any(self.tokens(), st.pos, term_ops()));
                break;
            }
            assert(matches_any(self.tokens(), st.pos, term_ops()));
            let operator = self.previous();
            let right = match self.factor() {
                Ok(e) => e,
                Err(m) => {
                    return Err(m);
                },
            };
            proof {
                self.lemma_in_bounds();
            }
            expr = Expr::new_binary(expr, operator, right);
        }
        Ok(expr)
    }

    /// `factor`: unary expressions joined by `/`, `*` and `%`, grouped to the right.
    fn factor(&mut self) -> (r: Result<Expr, String>)
        requires
            old(self).wf(),
        ensures
            final(self).went_on(old(self)),
            r is Ok ==> old(self).current < final(self).current,
            (expr_result(r), final(self).state()) === factor(old(self).tokens(), old(self).state()),
        decreases old(self).tokens@.len() - old(self).current, 20int,
    {
        proof {
            reveal(grammar);
        }
        let mut expr = match self.unary() {
            Ok(e) => e,
            Err(m) => {
                return Err(m);
            },
        };
        proof {
            self.lemma_in_bounds();
        }
        let ghost goal = factor(old(self).tokens(), old(self).state());
        loop
            invariant_except_break
                self.went_on(old(self)),
                old(self).current < self.current,
                goal == factor(old(self).tokens(), old(self).state()),
                goal == factor_tail(self.tokens(), expr.view(), self.state()),
            ensures
                self.went_on(old(self)),
                old(self).current < self.current,
                goal == factor(old(self).tokens(), old(self).state()),
                goal == (Ok::<ExprV, Seq<char>>(expr.view()), self.state()),
            decreases self.tokens@.len() - self.current,
        {
            proof {
                reveal(grammar);
            }
            let ghost st = self.state();
            proof {
                self.lemma_in_bounds();
            }
            let types = [TokenType::Slash, TokenType::Star, TokenType::Percent];
            proof {
                assert(types@ =~= seq![TokenType::Slash, TokenType::Star, TokenType::Percent]);
            }
            if !self.match_tokens(&types) {
                assert(!matches_any(self.tokens(), st.pos, factor_ops()));
                break;
            }
            assert(matches_any(self.tokens(), st.pos, factor_ops()));
            let operator = self.previous();
            let right = match self.factor() {
                Ok(e) => e,
                Err(m) => {
                    return Err(m);
                },
            };
            proof {
                self.lemma_in_bounds();
            }
            expr = Expr::new_binary(expr, operator, right);
        }
        Ok(expr)
    }

    /// `!` or `-` applied to a unary expression, or a call.
    fn unary(&mut self) -> (r: Result<Expr, String>)
        requires
            old(self).wf(),
        ensures
            final(self).went_on(old(self)),
            r is Ok ==> old(self).current < final(self).current,
            (expr_result(r), final(self).state()) === unary(old(self).tokens(), old(self).state()),
        decreases old(self).tokens@.len() - old(self).current, 18int,
    {
        proof {
            reveal(grammar);
        }
        let types = [TokenType::Bang, TokenType::Minus];
        proof {
            assert(types@ =~= seq![TokenType::Bang, TokenType::Minus]);
        }
        if self.match_tokens(&types) {
            let operator = self.previous();
            let right = match self.unary() {
                Ok(e) => e,
                Err(m) => {
                    return Err(m);
                },
            };
            return Ok(Expr::create_unary(operator, right));
        }
        self.call()
    }

    /// A primary expression followed by any number of argument lists.
    fn call(&mut self) -> (r: Result<Expr, String>)
        requires
            old(self).wf(),
        ensures
            final(self).went_on(old(self)),
            r is Ok ==> old(self).current < final(self).current,
            (expr_result(r), final(self).state()) === call(old(self).tokens(), old(self).state()),
        decreases old(self).tokens@.len() - old(self).current, 17int,
    {
        proof {
            reveal(grammar);
        }
        let mut expr = match self.primary() {
            Ok(e) => e,
            Err(m) => {
                return Err(m);
            },
        };
        proof {
            self.lemma_in_bounds();
        }
        let ghost goal = call(old(self).tokens(), old(self).state());
        loop
            invariant_except_break
                self.went_on(old(self)),
                old(self).current < self.current,
                goal == call(old(self).tokens(), old(self).state()),
                goal == call_tail(self.tokens(), expr.view(), self.state()),
            ensures
                self.went_on(old(self)),
                old(self).current < self.current,
                goal == call(old(self).tokens(), old(self).state()),
                goal == (Ok::<ExprV, Seq<char>>(expr.view()), self.state()),
            decreases self.tokens@.len() - self.current,
        {
            proof {
                reveal(grammar);
            }
            proof {
                self.lemma_in_bounds();
            }
            let types = [TokenType::LeftParen];
            proof {
                assert(types@ =~= seq![TokenType::LeftParen]);
            }
            if self.match_tokens(&types) {
                expr = match self.finish_call(expr) {
                    Ok(e) => e,
                    Err(m) => {
                        return Err(m);
                    },
                };
                proof {
                    self.lemma_in_bounds();
                }
            } else {
                break;
            }
        }
        Ok(expr)
    }

    /// The arguments of a call to `callee`, after its `(`, and the `)`.
    fn finish_call(&mut self, callee: Expr) -> (r: Result<Expr, String>)
        requires
            old(self).wf(),
        ensures
            final(self).went_on(old(self)),
            r is Ok ==> old(self).current < final(self).current,
            (expr_result(r), final(self).state()) === finish_call(
                old(self).tokens(),
                callee.view(),
                old(self).state(),
            ),
        decreases old(self).tokens@.len() - old(self).current, 37int,
    {
        proof {
            reveal(grammar);
        }
        let mut arguments: Vec<Expr> = Vec::new();
        let ghost ts = self.tokens();
        let ghost goal = call_args(ts, self.state(), Seq::empty());
        assert(expr_views(arguments@) =~= Seq::empty());
        if !self.check(&TokenType::RightParen) {
            loop
                invariant_except_break
                    self.went_on(old(self)),
                    ts == old(self).tokens(),
                    goal == call_args(ts, old(self).state(), Seq::empty()),
                    !check(ts, old(self).current as int, TokenType::RightParen),
                    goal == call_args(ts, self.state(), expr_views(arguments@)),
                ensures
                    self.went_on(old(self)),
                    ts == old(self).tokens(),
                    goal == call_args(ts, old(self).state(), Seq::empty()),
                    !check(ts, old(self).current as int, TokenType::RightParen),
                    goal == (Ok::<Seq<ExprV>, Seq<char>>(expr_views(arguments@)), self.state()),
                decreases self.tokens@.len() - self.current,
            {
                proof {
                    reveal(grammar);
                    self.lemma_in_bounds();
                }
                if arguments.len() >= 255 {
                    let line = self.peek().line;
                    let mut m = String::from_str("Line ");
                    push_decimal(&mut m, line);
                    m.append(": ");
                    m.append("Can't have more than 255 arguments");
                    return Err(m);
                }
                let argument = match self.expression() {
                    Ok(e) => e,
                    Err(m) => {
                        return Err(m);
                    },
                };
                let ghost before = arguments@;
                arguments.push(argument);
                assert(expr_views(arguments@) =~= expr_views(before).push(argument.view()));
                proof {
                    self.lemma_in_bounds();
                }
                let types = [TokenType::Comma];
                proof {
                    assert(types@ =~= seq![TokenType::Comma]);
                }
                if !self.match_tokens(&types) {
                    break;
                }
            }
        }
        let paren: Token = match self.consume(TokenType::RightParen, "Expected ')' after arguments") {
            Ok(t) => t,
            Err(m) => {
                return Err(m);
            },
        };
        return Ok(Expr::create_call(callee, paren, arguments));
    }

    /// A grouping, an array, a literal, a variable or an element access.
    #[verifier::rlimit(40)]
    fn primary(&mut self) -> (r: Result<Expr, String>)
        requires
            old(self).wf(),
        ensures
            final(self).went_on(old(self)),
            r is Ok ==> old(self).current < final(self).current,
            (expr_result(r), final(self).state()) === primary(old(self).tokens(), old(self).state()),
        decreases old(self).tokens@.len() - old(self).current, 15int,
    {
        proof {
            reveal(grammar);
        }
        proof {
            self.lemma_in_bounds();
        }
        let token = self.peek().clone();
        match token.token_type {
            TokenType::LeftParen => {
                self.advance();
                let expr = match self.expression() {
                    Ok(e) => e,
                    Err(m) => {
                        return Err(m);
                    },
                };
                match self.consume(TokenType::RightParen, "Expected `)`") {
                    Ok(_) => {},
                    Err(m) => {
                        return Err(m);
                    },
                }
                return Ok(Expr::new_grouping(expr));
            },
            TokenType::LeftBox => {
                self.advance();
                let mut elements: Vec<Expr> = Vec::new();
                let ghost ts = self.tokens();
                let ghost st1 = self.state();
                let ghost goal = array_items(ts, st1, Seq::empty());
                assert(expr_views(elements@) =~= Seq::empty());
                if !self.check(&TokenType::RightBox) {
                    loop
                        invariant_except_break
                            self.went_on(old(self)),
                            ts == old(self).tokens(),
                            st1.pos <= self.current,
                            st1 == next(old(self).state()),
                            !check(ts, st1.pos, TokenType::RightBox),
                            tok(ts, old(self).current as int).token_type == TokenType::LeftBox,
                            token@ == tok(ts, old(self).current as int),
                            goal == array_items(ts, st1, Seq::empty()),
                            goal == array_items(ts, self.state(), expr_views(elements@)),
                        ensures
                            self.went_on(old(self)),
                            ts == old(self).tokens(),
                            st1.pos < self.current,
                            st1 == next(old(self).state()),
                            !check(ts, st1.pos, TokenType::RightBox),
                            tok(ts, old(self).current as int).token_type == TokenType::LeftBox,
                            token@ == tok(ts, old(self).current as int),
                            goal == array_items(ts, st1, Seq::empty()),
                            goal == (Ok::<Seq<ExprV>, Seq<char>>(expr_views(elements@)), self.state()),
                        decreases self.tokens@.len() - self.current,
                    {
                        proof {
                            reveal(grammar);
                        }
                        let element = match self.expression() {
                            Ok(e) => e,
                            Err(m) => {
                                return Err(m);
                            },
                        };
                        let ghost before = elements@;
                        elements.push(element);
                        assert(expr_views(elements@) =~= expr_views(before).push(element.view()));
                        proof {
                            self.lemma_in_bounds();
                        }
                        let types = [TokenType::Comma];
                        proof {
                            assert(types@ =~= seq![TokenType::Comma]);
                        }
                        if !self.match_tokens(&types) {
                            break;
                        }
                    }
                }
                match self.consume(TokenType::RightBox, "Expected ']' after array elements") {
                    Ok(_) => {},
                    Err(m) => {
                        return Err(m);
                    },
                }
                Ok(Expr::array(elements))
            },
            TokenType::False | TokenType::True | TokenType::Nil | TokenType::Number
            | TokenType::String => {
                self.advance();
                if token.token_type == TokenType::Number && !is_float_text(token.lexeme.as_str()) {
                    self.bad_number = true;
                    return Ok(Expr::new_literal(Literal::Number(token.lexeme)));
                }
                return Ok(Expr::new_literal(Literal::from_token(token)));
            },
            TokenType::Identifier => {
                self.advance();
                proof {
                    self.lemma_in_bounds();
                }
                let types = [TokenType::LeftBox];
                proof {
                    assert(types@ =~= seq![TokenType::LeftBox]);
                }
                if self.match_tokens(&types) {
                    let position = match self.expression() {
                        Ok(e) => e,
                        Err(m) => {
                            return Err(m);
                        },
                    };
                    match self.consume(TokenType::RightBox, "Expected ']' after array access") {
                        Ok(_) => {},
                        Err(m) => {
                            return Err(m);
                        },
                    }
                    let index = self.index();
                    Ok(Expr::access(token, position, index))
                } else {
                    let name = self.previous();
                    let index = self.index();
                    Ok(Expr::create_variable(name, index))
                }
            },
            _ => {
                let mut m = String::from_str("Line ");
                push_decimal(&mut m, token.line);
                m.append(": ");
                m.append("Expected Expression");
                return Err(m);
            },
        }
    }

    /// An expression statement: an expression and an optional `;`.
    fn expr_statement(&mut self) -> (r: Result<Stmt, String>)
        requires
            old(self).wf(),
        ensures
            final(self).went_on(old(self)),
            r is Ok ==> old(self).current < final(self).current,
            (stmt_result(r), final(self).state()) === expr_statement(old(self).tokens(), old(self).state()),
        decreases old(self).tokens@.len() - old(self).current, 38int,
    {
        proof {
            reveal(grammar);
        }
        let expr = match self.expression() {
            Ok(e) => e,
            Err(m) => {
                return Err(m);
            },
        };
        if self.peek().token_type == TokenType::SemiColon {
            match self.consume(TokenType::SemiColon, "Expected ';' after expression") {
                Ok(_) => {},
                Err(m) => {
                    return Err(m);
                },
            }
        }
        Ok(Stmt::Expression { expr })
    }

    /// A `return` statement, after the `return`.
    fn return_statement(&mut self) -> (r: Result<Stmt, String>)
        requires
            old(self).wf(),
        ensures
            final(self).went_on(old(self)),
            (stmt_result(r), final(self).state()) === return_statement(old(self).tokens(), old(self).state()),
        decreases old(self).tokens@.len() - old(self).current, 42int,
    {
        proof {
            reveal(grammar);
        }
        let value = match self.check(&TokenType::SemiColon) {
            true => None,
            false => Some(
                match self.expression() {
                    Ok(e) => e,
                    Err(m) => {
                        return Err(m);
                    },
                },
            ),
        };
        if self.peek().token_type == TokenType::SemiColon {
            match self.consume(TokenType::SemiColon, "Expected ';' after return value") {
                Ok(_) => {},
                Err(m) => {
                    return Err(m);
                },
            }
        }
        Ok(Stmt::Return { value })
    }

    /// A variable declaration, after the `var`.
    fn var_declaration(&mut self) -> (r: Result<Stmt, String>)
        requires
            old(self).wf(),
        ensures
            final(self).went_on(old(self)),
            r is Ok ==> old(self).current < final(self).current,
            (stmt_result(r), final(self).state()) === var_declaration(old(self).tokens(), old(self).state()),
        decreases old(self).tokens@.len() - old(self).current, 41int,
    {
        proof {
            reveal(grammar);
        }
        let name: Token = match self.consume(TokenType::Identifier, "Expected variable name") {
            Ok(t) => t,
            Err(m) => {
                return Err(m);
            },
        };
        let types = [TokenType::Equal];
        proof {
            assert(types@ =~= seq![TokenType::Equal]);
        }
        let initializer = if self.match_tokens(&types) {
            Some(
                match self.expression() {
                    Ok(e) => e,
                    Err(m) => {
                        return Err(m);
                    },
                },
            )
        } else {
            None
        };
        if self.peek().token_type == TokenType::SemiColon {
            match self.consume(TokenType::SemiColon, "Expected ';' after variable declaration") {
                Ok(_) => {},
                Err(m) => {
                    return Err(m);
                },
            }
        }
        Ok(Stmt::Var { name, initializer })
    }

    /// A `while` loop, after the `while`.
    fn while_statement(&mut self) -> (r: Result<Stmt, String>)
        requires
            old(self).wf(),
        ensures
            final(self).went_on(old(self)),
            r is Ok ==> old(self).current < final(self).current,
            (stmt_result(r), final(self).state()) === while_statement(old(self).tokens(), old(self).state()),
        decreases old(self).tokens@.len() - old(self).current, 43int,
    {
        proof {
            reveal(grammar);
        }
        match self.consume(TokenType::LeftParen, "Expected '(' after 'while'") {
            Ok(_) => {},
            Err(m) => {
                return Err(m);
            },
        }
        let condition: Expr = match self.expression() {
            Ok(e) => e,
            Err(m) => {
                return Err(m);
            },
        };
        match self.consume(TokenType::RightParen, "Expected ')' after condition") {
            Ok(_) => {},
            Err(m) => {
                return Err(m);
            },
        }
        proof {
            self.lemma_in_bounds();
        }
        let body: Stmt = match self.statement() {
            Ok(s) => s,
            Err(m) => {
                return Err(m);
            },
        };
        Ok(Stmt::While { condition, body: Box::new(body) })
    }

    /// An `if` statement, after the `if`.
    fn if_statement(&mut self) -> (r: Result<Stmt, String>)
        requires
            old(self).wf(),
        ensures
            final(self).went_on(old(self)),
            r is Ok ==> old(self).current < final(self).current,
            (stmt_result(r), final(self).state()) === if_statement(old(self).tokens(), old(self).state()),
        decreases old(self).tokens@.len() - old(self).current, 44int,
    {
        proof {
            reveal(grammar);
        }
        match self.consume(TokenType::LeftParen, "Expected '(' after 'if'") {
            Ok(_) => {},
            Err(m) => {
                return Err(m);
            },
        }
        let condition: Expr = match self.expression() {
            Ok(e) => e,
            Err(m) => {
                return Err(m);
            },
        };
        match self.consume(TokenType::RightParen, "Expected ')' after condition") {
            Ok(_) => {},
            Err(m) => {
                return Err(m);
            },
        }
        proof {
            self.lemma_in_bounds();
        }
        let then_branch: Box<Stmt> = Box::new(
            match self.statement() {
                Ok(s) => s,
                Err(m) => {
                    return Err(m);
                },
            },
        );
        proof {
            self.lemma_in_bounds();
        }
        let ghost ts = self.tokens();
        let ghost s4 = self.state();
        let mut else_branch: Option<Box<Stmt>> = None;
        let types = [TokenType::Else];
        proof {
            assert(types@ =~= seq![TokenType::Else]);
        }
        if self.match_tokens(&types) {
            else_branch = Some(
                Box::new(
                    match self.statement() {
                        Ok(s) => s,
                        Err(m) => {
                            assert(crate::parse_spec::else_branch(ts, s4) == (
                                Err::<Option<Box<StmtV>>, Seq<char>>(m@),
                                self.state(),
                            ));
                            return Err(m);
                        },
                    },
                ),
            );
        }
        assert(crate::parse_spec::else_branch(ts, s4) == (
            Ok::<Option<Box<StmtV>>, Seq<char>>(
                match else_branch {
                    Some(b) => Some(Box::new(b.view())),
                    None => None,
                },
            ),
            self.state(),
        ));
        Ok(Stmt::If { condition, then_branch, else_branch })
    }

    /// A `for` loop, after the `for`, read as the `while` loop it stands for.
    fn for_statement(&mut self) -> (r: Result<Stmt, String>)
        requires
            old(self).wf(),
        ensures
            final(self).went_on(old(self)),
            r is Ok ==> old(self).current < final(self).current,
            (stmt_result(r), final(self).state()) === for_statement(old(self).tokens(), old(self).state()),
        decreases old(self).tokens@.len() - old(self).current, 45int,
    {
        proof {
            reveal(grammar);
        }
        let ghost ts = self.tokens();
        let ghost st = self.state();
        match self.consume(TokenType::LeftParen, "Expected '(' after 'for'") {
            Ok(_) => {},
            Err(m) => {
                return Err(m);
            },
        }
        let ghost s1 = self.state();
        proof {
            self.lemma_in_bounds();
        }
        let semicolon = [TokenType::SemiColon];
        proof {
            assert(semicolon@ =~= seq![TokenType::SemiColon]);
        }
        let var = [TokenType::Var];
        proof {
            assert(var@ =~= seq![TokenType::Var]);
        }
        let initializer: Option<Stmt>;
        if self.match_tokens(&semicolon) {
            initializer = None;
        } else if self.match_tokens(&var) {
            initializer = Some(
                match self.var_declaration() {
                    Ok(s) => s,
                    Err(m) => {
                        assert(for_initializer(ts, s1) == (Err::<Option<StmtV>, Seq<char>>(m@), self.state()));
                        return Err(m);
                    },
                },
            );
        } else {
            initializer = Some(
                match self.expr_statement() {
                    Ok(s) => s,
                    Err(m) => {
                        assert(for_initializer(ts, s1) == (Err::<Option<StmtV>, Seq<char>>(m@), self.state()));
                        return Err(m);
                    },
                },
            );
        }
        let ghost s2 = self.state();
        assert(for_initializer(ts, s1) == (
            Ok::<Option<StmtV>, Seq<char>>(opt_stmt_view(initializer)),
            s2,
        ));
        self.for_rest(initializer)
    }

    /// The rest of a `for` loop after its initializer: the condition, the
    /// increment and the body, read as the `while` loop they stand for.
    fn for_rest(&mut self, initializer: Option<Stmt>) -> (r: Result<Stmt, String>)
        requires
            old(self).wf(),
        ensures
            final(self).went_on(old(self)),
            r is Ok ==> old(self).current < final(self).current,
            (stmt_result(r), final(self).state()) === for_rest(
                old(self).tokens(),
                opt_stmt_view(initializer),
                old(self).state(),
            ),
        decreases old(self).tokens@.len() - old(self).current, 43int,
    {
        proof {
            reveal(grammar);
            self.lemma_in_bounds();
        }
        let ghost ts = self.tokens();
        let ghost s2 = self.state();
        let condition: Option<Expr> = if !self.check(&TokenType::SemiColon) {
            Some(
                match self.expression() {
                    Ok(e) => e,
                    Err(m) => {
                        assert(optional_expression(ts, s2, TokenType::SemiColon) == (
                            Err::<Option<ExprV>, Seq<char>>(m@),
                            self.state(),
                        ));
                        return Err(m);
                    },
                },
            )
        } else {
            None
        };
        assert(optional_expression(ts, s2, TokenType::SemiColon) == (
            Ok::<Option<ExprV>, Seq<char>>(opt_expr_view(condition)),
            self.state(),
        ));
        match self.consume(TokenType::SemiColon, "Expected ';' after condition") {
            Ok(_) => {},
            Err(m) => {
                return Err(m);
            },
        }
        let ghost s4 = self.state();
        proof {
            self.lemma_in_bounds();
        }
        let change: Option<Expr> = if !self.check(&TokenType::RightParen) {
            Some(
                match self.expression() {
                    Ok(e) => e,
                    Err(m) => {
                        assert(optional_expression(ts, s4, TokenType::RightParen) == (
                            Err::<Option<ExprV>, Seq<char>>(m@),
                            self.state(),
                        ));
                        return Err(m);
                    },
                },
            )
        } else {
            None
        };
        assert(optional_expression(ts, s4, TokenType::RightParen) == (
            Ok::<Option<ExprV>, Seq<char>>(opt_expr_view(change)),
            self.state(),
        ));
        match self.consume(TokenType::RightParen, "Expected ')' after clauses") {
            Ok(_) => {},
            Err(m) => {
                return Err(m);
            },
        }
        proof {
            self.lemma_in_bounds();
        }
        let body = match self.statement() {
            Ok(s) => s,
            Err(m) => {
                return Err(m);
            },
        };
        Ok(Self::desugar_for(initializer, condition, change, body))
    }

    /// The `while` loop a `for` loop stands for.
    fn desugar_for(
        initializer: Option<Stmt>,
        condition: Option<Expr>,
        change: Option<Expr>,
        body: Stmt,
    ) -> (s: Stmt)
        ensures
            s.view() == for_loop(
                opt_stmt_view(initializer),
                opt_expr_view(condition),
                opt_expr_view(change),
                body.view(),
            ),
    {
        let ghost b0 = body.view();
        let ghost b1 = match opt_expr_view(change) {
            Some(c) => StmtV::Block { statements: seq![b0, StmtV::Expression { expr: c }] },
            None => b0,
        };
        let mut body = body;
        if let Some(change) = change {
            let ghost c = change.view();
            let statements = vec![body, Stmt::Expression { expr: change }];
            assert(statements@.len() == 2);
            assert(statements@[0].view() == b0);
            assert(stmt_views(statements@) =~= seq![b0, StmtV::Expression { expr: c }]);
            body = Stmt::Block { statements };
        }
        assert(body.view() == b1);
        let condition = match condition {
            None => Expr::Literal { literal: Literal::Boolean(true) },
            Some(c) => c,
        };
        body = Stmt::While { condition, body: Box::new(body) };
        let ghost b2 = body.view();
        if let Some(initializer) = initializer {
            let ghost i = initializer.view();
            let statements = vec![initializer, body];
            assert(stmt_views(statements@) =~= seq![i, b2]);
            body = Stmt::Block { statements };
        }
        body
    }

    /// A statement.
    fn statement(&mut self) -> (r: Result<Stmt, String>)
        requires
            old(self).wf(),
        ensures
            final(self).went_on(old(self)),
            r is Ok ==> old(self).current < final(self).current,
            (stmt_result(r), final(self).state()) === statement(old(self).tokens(), old(self).state()),
        decreases old(self).tokens@.len() - old(self).current, 46int,
    {
        proof {
            reveal(grammar);
            self.lemma_in_bounds();
        }
        let types = [TokenType::For];
        proof {
            assert(types@ =~= seq![TokenType::For]);
        }
        if self.match_tokens(&types) {
            return self.for_statement();
        }
        let types = [TokenType::If];
        proof {
            assert(types@ =~= seq![TokenType::If]);
        }
        if self.match_tokens(&types) {
            return self.if_statement();
        }
        let types = [TokenType::Return];
        proof {
            assert(types@ =~= seq![TokenType::Return]);
        }
        if self.match_tokens(&types) {
            return self.return_statement();
        }
        let types = [TokenType::While];
        proof {
            assert(types@ =~= seq![TokenType::While]);
        }
        if self.match_tokens(&types) {
            return self.while_statement();
        }
        let types = [TokenType::LeftBrace];
        proof {
            assert(types@ =~= seq![TokenType::LeftBrace]);
        }
        if self.match_tokens(&types) {
            return self.block();
        }
        return self.expr_statement();
    }

    /// A block, after its `{`.
    fn block(&mut self) -> (r: Result<Stmt, String>)
        requires
            old(self).wf(),
        ensures
            final(self).went_on(old(self)),
            r is Ok ==> old(self).current < final(self).current,
            (stmt_result(r), final(self).state()) === block(old(self).tokens(), old(self).state()),
        decreases old(self).tokens@.len() - old(self).current, 49int,
    {
        proof {
            reveal(grammar);
        }
        let statements = match self.block_statements() {
            Ok(ss) => ss,
            Err(m) => {
                return Err(m);
            },
        };
        Ok(Stmt::Block { statements })
    }

    /// The declarations of a block, after its `{`, up to and including its `}`.
    fn block_statements(&mut self) -> (r: Result<Vec<Stmt>, String>)
        requires
            old(self).wf(),
        ensures
            final(self).went_on(old(self)),
            r is Ok ==> old(self).current < final(self).current,
            (stmts_result(r), final(self).state()) === block_items(
                old(self).tokens(),
                old(self).state(),
                Seq::empty(),
            ),
        decreases old(self).tokens@.len() - old(self).current, 48int,
    {
        proof {
            reveal(grammar);
        }
        let ghost ts = self.tokens();
        let ghost goal = block_items(ts, self.state(), Seq::empty());
        let mut statements: Vec<Stmt> = Vec::new();
        assert(stmt_views(statements@) =~= Seq::empty());
        while !self.check(&TokenType::RightBrace) && !self.is_at_end()
            invariant
                self.went_on(old(self)),
                ts == old(self).tokens(),
                goal == block_items(ts, old(self).state(), Seq::empty()),
                goal == block_items(ts, self.state(), stmt_views(statements@)),
            decreases self.tokens@.len() - self.current,
        {
            proof {
                reveal(grammar);
                self.lemma_in_bounds();
            }
            let declaration = match self.declaration() {
                Ok(d) => d,
                Err(m) => {
                    return Err(m);
                },
            };
            proof {
                self.lemma_in_bounds();
            }
            let ghost before = statements@;
            statements.push(declaration);
            assert(stmt_views(statements@) =~= stmt_views(before).push(declaration.view()));
        }
        proof {
            reveal(grammar);
        }
        match self.consume(TokenType::RightBrace, "Expected '}' after block") {
            Ok(_) => {},
            Err(m) => {
                return Err(m);
            },
        }
        Ok(statements)
    }

    /// A function declaration, after the `fun`; `kind` names what is
    /// declared in the messages.
    fn function(&mut self, kind: &str) -> (r: Result<Stmt, String>)
        requires
            old(self).wf(),
        ensures
            final(self).went_on(old(self)),
            r is Ok ==> old(self).current < final(self).current,
            (stmt_result(r), final(self).state()) === function(old(self).tokens(), old(self).state(), kind@),
        decreases old(self).tokens@.len() - old(self).current, 40int,
    {
        proof {
            reveal(grammar);
        }
        let ghost ts = self.tokens();
        let ghost st = self.state();
        let mut m1 = String::from_str("Expected ");
        m1.append(kind);
        m1.append(" name");
        let name = match self.consume(TokenType::Identifier, m1.as_str()) {
            Ok(t) => t,
            Err(m) => {
                return Err(m);
            },
        };
        let mut m2 = String::from_str("Expected '(' after ");
        m2.append(kind);
        m2.append(" name");
        match self.consume(TokenType::LeftParen, m2.as_str()) {
            Ok(_) => {},
            Err(m) => {
                return Err(m);
            },
        }
        let ghost s2 = self.state();
        let mut parameters: Vec<Token> = Vec::new();
        assert(tokens_view(parameters@) =~= Seq::empty());
        if !self.check(&TokenType::RightParen) {
            let ghost goal = params(ts, s2, Seq::empty());
            let ghost whole = match goal.0 {
                Err(m) => (Err::<StmtV, Seq<char>>(m), goal.1),
                Ok(ps) => if fwd(ts, st, goal.1) {
                    function_body(ts, kind@, name@, ps, goal.1)
                } else {
                    stray(goal.1)
                },
            };
            assert(function(ts, st, kind@) == whole);
            loop
                invariant_except_break
                    st == old(self).state(),
                    function(ts, st, kind@) == whole,
                    whole == match goal.0 {
                        Err(m) => (Err::<StmtV, Seq<char>>(m), goal.1),
                        Ok(ps) => if fwd(ts, st, goal.1) {
                            function_body(ts, kind@, name@, ps, goal.1)
                        } else {
                            stray(goal.1)
                        },
                    },
                    self.went_on(old(self)),
                    ts == old(self).tokens(),
                    st.pos < s2.pos <= self.current,
                    goal == params(ts, s2, Seq::empty()),
                    goal == params(ts, self.state(), tokens_view(parameters@)),
                ensures
                    st == old(self).state(),
                    function(ts, st, kind@) == whole,
                    whole == match goal.0 {
                        Err(m) => (Err::<StmtV, Seq<char>>(m), goal.1),
                        Ok(ps) => if fwd(ts, st, goal.1) {
                            function_body(ts, kind@, name@, ps, goal.1)
                        } else {
                            stray(goal.1)
                        },
                    },
                    self.went_on(old(self)),
                    ts == old(self).tokens(),
                    st.pos < s2.pos <= self.current,
                    goal == params(ts, s2, Seq::empty()),
                    goal == (Ok::<Seq<TokenView>, Seq<char>>(tokens_view(parameters@)), self.state()),
                decreases self.tokens@.len() - self.current,
            {
                proof {
                    reveal(grammar);
                    self.lemma_in_bounds();
                }
                if parameters.len() >= 255 {
                    let line = self.peek().line;
                    let mut m = String::from_str("Line ");
                    push_decimal(&mut m, line);
                    m.append(": ");
                    m.append("Cant have more than 255 arguments");
                    return Err(m);
                }
                let parameter = match self.consume(TokenType::Identifier, "Expected parameter name") {
                    Ok(t) => t,
                    Err(m) => {
                        return Err(m);
                    },
                };
                let ghost before = parameters@;
                parameters.push(parameter);
                assert(tokens_view(parameters@) =~= tokens_view(before).push(parameter@));
                proof {
                    self.lemma_in_bounds();
                }
                let types = [TokenType::Comma];
                proof {
                    assert(types@ =~= seq![TokenType::Comma]);
                }
                if !self.match_tokens(&types) {
                    break;
                }
            }
        }
        let ghost s3 = self.state();
        assert(function(ts, st, kind@) == function_body(ts, kind@, name@, tokens_view(parameters@), s3));
        match self.consume(TokenType::RightParen, "Expected ')' after parameters.") {
            Ok(_) => {},
            Err(m) => {
                return Err(m);
            },
        }
        let mut m3 = String::from_str("Expected '{' before ");
        m3.append(kind);
        m3.append(" body.");
        match self.consume(TokenType::LeftBrace, m3.as_str()) {
            Ok(_) => {},
            Err(m) => {
                return Err(m);
            },
        }
        let body = match self.block_statements() {
            Ok(ss) => ss,
            Err(m) => {
                return Err(m);
            },
        };
        Ok(Stmt::Function { name, params: parameters, body })
    }

    /// A declaration: a variable, a function or a statement.
    fn declaration(&mut self) -> (r: Result<Stmt, String>)
        requires
            old(self).wf(),
        ensures
            final(self).went_on(old(self)),
            r is Ok ==> old(self).current < final(self).current,
            (stmt_result(r), final(self).state()) === declaration(old(self).tokens(), old(self).state()),
        decreases old(self).tokens@.len() - old(self).current, 47int,
    {
        proof {
            reveal(grammar);
            self.lemma_in_bounds();
        }
        let types = [TokenType::Var];
        proof {
            assert(types@ =~= seq![TokenType::Var]);
        }
        if self.match_tokens(&types) {
            return self.var_declaration();
        }
        let types = [TokenType::Fun];
        proof {
            assert(types@ =~= seq![TokenType::Fun]);
        }
        if self.match_tokens(&types) {
            return self.function("function");
        }
        self.statement()
    }

    /// Error recovery: skips tokens to just past a `;`, to a token that
    /// starts a declaration or statement, or to the end of file.
    fn synchronise(&mut self)
        requires
            old(self).wf(),
            0 < old(self).current || !at_end(old(self).tokens(), old(self).current as int),
        ensures
            final(self).went_on(old(self)),
            final(self).index == old(self).index,
            final(self).bad_number == old(self).bad_number,
            final(self).current == synchronise(old(self).tokens(), old(self).current as int),
            !at_end(old(self).tokens(), old(self).current as int) ==> old(self).current
                < final(self).current,
    {
        let ghost ts = self.tokens();
        self.advance();
        let ghost start = self.current as int;
        while !self.is_at_end()
            invariant
                self.went_on(old(self)),
                ts == old(self).tokens(),
                self.index == old(self).index,
                self.bad_number == old(self).bad_number,
                0 < self.current,
                start <= self.current,
                start == if at_end(ts, old(self).current as int) {
                    old(self).current as int
                } else {
                    old(self).current + 1
                },
                sync_loop(ts, self.current as int) == sync_loop(ts, start),
            decreases self.tokens@.len() - self.current,
        {
            proof {
                self.lemma_in_bounds();
            }
            if self.previous().token_type == TokenType::SemiColon {
                return;
            }
            match self.peek().token_type {
                TokenType::Class | TokenType::Fun | TokenType::Var | TokenType::For | TokenType::If
                | TokenType::While | TokenType::Return => {
                    return;
                },
                _ => {},
            }
            self.advance();
        }
    }

    /// Parses the tokens into statements, as `parse_result` states. Each
    /// declaration that fails is recorded and the parse recovers and goes
    /// on; the errors, if any, come back joined by newlines.
    fn parse_program(&mut self) -> (r: Result<Vec<Stmt>, String>)
        requires
            old(self).wf(),
        ensures
            final(self).tokens() == old(self).tokens(),
            final(self).wf(),
            at_end(final(self).tokens(), final(self).state().pos),
            (stmts_result(r), final(self).state()) === parse_result(old(self).tokens(), old(self).state()),
    {
        let ghost ts = self.tokens();
        let ghost goal = program(ts, self.state(), Seq::empty(), Seq::empty());
        let mut statements: Vec<Stmt> = Vec::new();
        let mut errors: Vec<String> = Vec::new();
        assert(stmt_views(statements@) =~= Seq::empty());
        assert(strings_view(errors@) =~= Seq::empty());
        while !self.is_at_end()
            invariant
                self.went_on(old(self)),
                ts == old(self).tokens(),
                goal == program(ts, old(self).state(), Seq::empty(), Seq::empty()),
                goal == program(ts, self.state(), stmt_views(statements@), strings_view(errors@)),
            decreases self.tokens@.len() - self.current,
        {
            proof {
                self.lemma_in_bounds();
            }
            match self.declaration() {
                Ok(statement) => {
                    proof {
                        self.lemma_in_bounds();
                    }
                    let ghost before = statements@;
                    statements.push(statement);
                    assert(stmt_views(statements@) =~= stmt_views(before).push(statement.view()));
                },
                Err(error) => {
                    let ghost before = errors@;
                    errors.push(error);
                    assert(strings_view(errors@) =~= strings_view(before).push(error@));
                    self.synchronise();
                    proof {
                        self.lemma_in_bounds();
                    }
                },
            }
        }
        if errors.len() == 0 {
            Ok(statements)
        } else {
            Err(join_strings(&errors, "\n"))
        }
    }

    /// Parses the tokens into statements, as `parse_result` states. Each
    /// declaration that fails is recorded and the parse recovers and goes
    /// on; the errors, if any, come back joined by newlines. The parse must
    /// not read a number literal whose text is not that of a floating-point
    /// number; `try_parse` tells when it would.
    pub fn parse(&mut self) -> (r: Result<Vec<Stmt>, String>)
        requires
            old(self).wf(),
            !parse_result(old(self).tokens(), old(self).state()).1.bad_number,
        ensures
            final(self).tokens() == old(self).tokens(),
            final(self).wf(),
            at_end(final(self).tokens(), final(self).state().pos),
            (stmts_result(r), final(self).state()) === parse_result(old(self).tokens(), old(self).state()),
    {
        self.parse_program()
    }

    /// Parses as `parse` does, or gives `None` where the parse reads a
    /// number literal whose text is not that of a floating-point number.
    pub fn try_parse(&mut self) -> (r: Option<Result<Vec<Stmt>, String>>)
        requires
            old(self).wf(),
        ensures
            final(self).tokens() == old(self).tokens(),
            final(self).wf(),
            at_end(final(self).tokens(), final(self).state().pos),
            final(self).state() == parse_result(old(self).tokens(), old(self).state()).1,
            r is None <==> final(self).state().bad_number,
            r matches Some(x) ==> stmts_result(x) == parse_result(old(self).tokens(), old(self).state()).0,
    {
        let r = self.parse_program();
        if self.bad_number {
            None
        } else {
            Some(r)
        }
    }
}

} // verus!
