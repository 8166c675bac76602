//! What the grammar does with operators and calls, stated apart from the
//! rules that define it: which token types are binary, logical and prefix
//! operators and the nodes they build, where a comparison goes on and where
//! it ends, that a call may have no arguments, and what whole statements of
//! those forms parse to.

use vstd::prelude::*;
use crate::expr::{ExprV, LiteralV};
use crate::parse_spec::{
    and_expr, at_end, call, call_tail, comparison, comparison_tail, declaration, equality, equality_tail,
    factor, factor_tail, finish_call, grammar, literal_read, or_expr, parse_result, primary,
    program, sync_loop, synchronise, term, term_tail, tok, unary, PState,
};
use crate::stmt::StmtV;
use crate::token::{TokenType, TokenView};

verus! {

/// Whether `t` is one of the comparison operators `>`, `>=`, `<`, `<=`.
pub open spec fn comparison_operator(t: TokenType) -> bool {
    t == TokenType::Greater || t == TokenType::GreaterEqual || t == TokenType::Less
        || t == TokenType::LessEqual
}

/// A comparison operator at `st` joins the left operand `e` to the term
/// after it into a binary node, and the comparison goes on from there.
pub proof fn lemma_comparison_operator_joins(ts: Seq<TokenView>, e: ExprV, st: PState)
    requires
        0 <= st.pos < ts.len(),
        comparison_operator(ts[st.pos].token_type),
        term(ts, PState { pos: st.pos + 1, ..st }).0 is Ok,
        st.pos + 1 <= term(ts, PState { pos: st.pos + 1, ..st }).1.pos <= ts.len(),
    ensures
        comparison_tail(ts, e, st) == comparison_tail(
            ts,
            ExprV::Binary {
                left: Box::new(e),
                operator: ts[st.pos],
                right: Box::new(term(ts, PState { pos: st.pos + 1, ..st }).0->Ok_0),
            },
            term(ts, PState { pos: st.pos + 1, ..st }).1,
        ),
{
    reveal(grammar);
}

/// A comparison ends at any token that is no comparison operator.
pub proof fn lemma_comparison_ends(ts: Seq<TokenView>, e: ExprV, st: PState)
    requires
        !comparison_operator(tok(ts, st.pos).token_type),
    ensures
        comparison_tail(ts, e, st) == (Ok::<ExprV, Seq<char>>(e), st),
{
    reveal(grammar);
}

/// A call whose `(` is followed at once by `)` has no arguments: from a
/// state whose next token is `)`, the rest of the call is that token, and
/// the call ends one token on.
pub proof fn lemma_call_without_arguments(ts: Seq<TokenView>, callee: ExprV, st: PState)
    requires
        0 <= st.pos < ts.len(),
        ts[st.pos].token_type == TokenType::RightParen,
    ensures
        finish_call(ts, callee, st) == (
            Ok::<ExprV, Seq<char>>(
                ExprV::Call { callee: Box::new(callee), paren: ts[st.pos], args: Seq::empty() },
            ),
            PState { pos: st.pos + 1, ..st },
        ),
{
    reveal(grammar);
}

/// Whether `t` is one of the equality operators `!=`, `==`.
pub open spec fn equality_operator(t: TokenType) -> bool {
    t == TokenType::BangEqual || t == TokenType::EqualEqual
}

/// Whether `t` is one of the additive operators `-`, `+`.
pub open spec fn additive_operator(t: TokenType) -> bool {
    t == TokenType::Minus || t == TokenType::Plus
}

/// Whether `t` is one of the multiplicative operators `/`, `*`, `%`.
pub open spec fn multiplicative_operator(t: TokenType) -> bool {
    t == TokenType::Slash || t == TokenType::Star || t == TokenType::Percent
}

/// Whether `t` is an operator that builds a binary node.
pub open spec fn binary_operator(t: TokenType) -> bool {
    equality_operator(t) || comparison_operator(t) || additive_operator(t)
        || multiplicative_operator(t)
}

/// Whether `t` is one of the logical operators `and`, `or`.
pub open spec fn logical_operator(t: TokenType) -> bool {
    t == TokenType::And || t == TokenType::Or
}

/// Whether `t` is one of the prefix operators `!`, `-`.
pub open spec fn unary_operator(t: TokenType) -> bool {
    t == TokenType::Bang || t == TokenType::Minus
}

/// Whether a token of type `t` starts an expression statement (it starts
/// no declaration and no other kind of statement).
spec fn starts_expression_statement(t: TokenType) -> bool {
    t != TokenType::For && t != TokenType::If && t != TokenType::Return && t != TokenType::While
        && t != TokenType::LeftBrace && t != TokenType::Var && t != TokenType::Fun
}

/// A number token not followed by `(` is a whole unary operand: the
/// number's literal.
proof fn lemma_number_unary(ts: Seq<TokenView>, st: PState)
    requires
        0 <= st.pos,
        st.pos + 1 < ts.len(),
        ts[st.pos].token_type == TokenType::Number,
        ts[st.pos + 1].token_type != TokenType::LeftParen,
    ensures
        unary(ts, st) == (
            Ok::<ExprV, Seq<char>>(ExprV::Literal { literal: LiteralV::Number(ts[st.pos].lexeme) }),
            literal_read(ts[st.pos], st),
        ),
{
    reveal(grammar);
    let e = ExprV::Literal { literal: LiteralV::Number(ts[st.pos].lexeme) };
    let s1 = literal_read(ts[st.pos], st);
    assert(primary(ts, st) == (Ok::<ExprV, Seq<char>>(e), s1));
    assert(call_tail(ts, e, s1) == (Ok::<ExprV, Seq<char>>(e), s1));
    assert(call(ts, st) == (Ok::<ExprV, Seq<char>>(e), s1));
}

/// A unary operand followed by no multiplicative operator is a whole factor.
proof fn lemma_factor_of_unary(ts: Seq<TokenView>, st: PState, e: ExprV, s: PState)
    requires
        unary(ts, st) == (Ok::<ExprV, Seq<char>>(e), s),
        st.pos <= s.pos < ts.len(),
        !multiplicative_operator(ts[s.pos].token_type),
    ensures
        factor(ts, st) == (Ok::<ExprV, Seq<char>>(e), s),
{
    reveal(grammar);
    assert(factor_tail(ts, e, s) == (Ok::<ExprV, Seq<char>>(e), s));
}

/// A factor followed by no additive operator is a whole term.
proof fn lemma_term_of_factor(ts: Seq<TokenView>, st: PState, e: ExprV, s: PState)
    requires
        factor(ts, st) == (Ok::<ExprV, Seq<char>>(e), s),
        st.pos <= s.pos < ts.len(),
        !additive_operator(ts[s.pos].token_type),
    ensures
        term(ts, st) == (Ok::<ExprV, Seq<char>>(e), s),
{
    reveal(grammar);
    assert(term_tail(ts, e, s) == (Ok::<ExprV, Seq<char>>(e), s));
}

/// A term followed by no comparison operator is a whole comparison.
proof fn lemma_comparison_of_term(ts: Seq<TokenView>, st: PState, e: ExprV, s: PState)
    requires
        term(ts, st) == (Ok::<ExprV, Seq<char>>(e), s),
        st.pos <= s.pos < ts.len(),
        !comparison_operator(ts[s.pos].token_type),
    ensures
        comparison(ts, st) == (Ok::<ExprV, Seq<char>>(e), s),
{
    lemma_comparison_ends(ts, e, s);
    reveal(grammar);
}

/// A comparison followed by no equality operator is a whole equality.
proof fn lemma_equality_of_comparison(ts: Seq<TokenView>, st: PState, e: ExprV, s: PState)
    requires
        comparison(ts, st) == (Ok::<ExprV, Seq<char>>(e), s),
        st.pos <= s.pos < ts.len(),
        !equality_operator(ts[s.pos].token_type),
    ensures
        equality(ts, st) == (Ok::<ExprV, Seq<char>>(e), s),
{
    reveal(grammar);
    assert(equality_tail(ts, e, s) == (Ok::<ExprV, Seq<char>>(e), s));
}

/// A unary operand followed by no binary operator is a whole equality.
proof fn lemma_equality_of_unary(ts: Seq<TokenView>, st: PState, e: ExprV, s: PState)
    requires
        unary(ts, st) == (Ok::<ExprV, Seq<char>>(e), s),
        st.pos <= s.pos < ts.len(),
        !binary_operator(ts[s.pos].token_type),
    ensures
        equality(ts, st) == (Ok::<ExprV, Seq<char>>(e), s),
{
    lemma_factor_of_unary(ts, st, e, s);
    lemma_term_of_factor(ts, st, e, s);
    lemma_comparison_of_term(ts, st, e, s);
    lemma_equality_of_comparison(ts, st, e, s);
}

/// An equality followed by no `and` is a whole conjunction.
proof fn lemma_and_of_equality(ts: Seq<TokenView>, st: PState, e: ExprV, s: PState)
    requires
        equality(ts, st) == (Ok::<ExprV, Seq<char>>(e), s),
        st.pos <= s.pos < ts.len(),
        ts[s.pos].token_type != TokenType::And,
    ensures
        and_expr(ts, st) == (Ok::<ExprV, Seq<char>>(e), s),
{
    reveal(grammar);
}

/// A conjunction followed by no `or` is a whole disjunction.
proof fn lemma_or_of_and(ts: Seq<TokenView>, st: PState, e: ExprV, s: PState)
    requires
        and_expr(ts, st) == (Ok::<ExprV, Seq<char>>(e), s),
        st.pos <= s.pos < ts.len(),
        ts[s.pos].token_type != TokenType::Or,
    ensures
        or_expr(ts, st) == (Ok::<ExprV, Seq<char>>(e), s),
{
    reveal(grammar);
}

/// A disjunction at the start of the tokens that ends before the last two,
/// a `;` and the end of file, is the whole program: one expression
/// statement.
proof fn lemma_program_of_or(ts: Seq<TokenView>, st: PState, e: ExprV, s: PState)
    requires
        st.pos == 0,
        or_expr(ts, st) == (Ok::<ExprV, Seq<char>>(e), s),
        0 < s.pos,
        s.pos + 2 == ts.len(),
        ts[s.pos].token_type == TokenType::SemiColon,
        ts[s.pos + 1].token_type == TokenType::Eof,
        ts[0].token_type != TokenType::Eof,
        starts_expression_statement(ts[0].token_type),
    ensures
        parse_result(ts, st).0 == Ok::<Seq<StmtV>, Seq<char>>(seq![StmtV::Expression { expr: e }]),
{
    reveal(grammar);
    let ok = (Ok::<ExprV, Seq<char>>(e), s);
    assert(crate::parse_spec::assignment(ts, st) == ok);
    assert(crate::parse_spec::expression(ts, st) == ok);
    let s3 = PState { pos: s.pos + 1, ..s };
    let d = StmtV::Expression { expr: e };
    assert(crate::parse_spec::expr_statement(ts, st) == (Ok::<StmtV, Seq<char>>(d), s3));
    assert(crate::parse_spec::statement(ts, st) == (Ok::<StmtV, Seq<char>>(d), s3));
    assert(declaration(ts, st) == (Ok::<StmtV, Seq<char>>(d), s3));
    assert(program(ts, s3, seq![d], Seq::empty()) == (seq![d], Seq::<Seq<char>>::empty(), s3));
    assert(Seq::<StmtV>::empty().push(d) == seq![d]);
    assert(program(ts, st, Seq::empty(), Seq::empty()) == (seq![d], Seq::<Seq<char>>::empty(), s3));
}

/// The tokens of an operation `a op b`, then `;` and the end of file.
spec fn operation_tokens(a: TokenView, op: TokenView, b: TokenView, semi: TokenView, eof: TokenView) -> Seq<TokenView> {
    seq![a, op, b, semi, eof]
}

/// An operation of two numbers, up to the `;`, is a whole equality: the
/// binary node of its operator.
#[verifier::rlimit(40)]
proof fn lemma_operation_equality(
    a: TokenView,
    op: TokenView,
    b: TokenView,
    semi: TokenView,
    eof: TokenView,
)
    requires
        a.token_type == TokenType::Number,
        binary_operator(op.token_type),
        b.token_type == TokenType::Number,
        semi.token_type == TokenType::SemiColon,
        eof.token_type == TokenType::Eof,
    ensures
        ({
            let st = PState { pos: 0, idx: 0, bad_number: false };
            let s1 = literal_read(a, st);
            let bin = ExprV::Binary {
                left: Box::new(ExprV::Literal { literal: LiteralV::Number(a.lexeme) }),
                operator: op,
                right: Box::new(ExprV::Literal { literal: LiteralV::Number(b.lexeme) }),
            };
            equality(operation_tokens(a, op, b, semi, eof), st) == (
                Ok::<ExprV, Seq<char>>(bin),
                literal_read(b, PState { pos: s1.pos + 1, ..s1 }),
            )
        }),
{
    let ts = operation_tokens(a, op, b, semi, eof);
    let st = PState { pos: 0, idx: 0, bad_number: false };
    let la = ExprV::Literal { literal: LiteralV::Number(a.lexeme) };
    let lb = ExprV::Literal { literal: LiteralV::Number(b.lexeme) };
    let s1 = literal_read(a, st);
    let s1n = PState { pos: s1.pos + 1, ..s1 };
    let s2 = literal_read(b, s1n);
    let bin = ExprV::Binary { left: Box::new(la), operator: op, right: Box::new(lb) };
    let ok = (Ok::<ExprV, Seq<char>>(bin), s2);
    lemma_number_unary(ts, st);
    lemma_number_unary(ts, s1n);
    lemma_equality_of_unary(ts, s1n, lb, s2);
    if multiplicative_operator(op.token_type) {
        assert(factor(ts, st) == ok) by {
            reveal(grammar);
            lemma_factor_of_unary(ts, s1n, lb, s2);
            assert(factor_tail(ts, bin, s2) == ok);
            let ops = crate::parse_spec::factor_ops();
            assert(ops[0] == TokenType::Slash && ops[1] == TokenType::Star && ops[2] == TokenType::Percent);
            assert(crate::parse_spec::matches_any(ts, 1, ops));
            assert(factor_tail(ts, la, s1) == ok);
        }
        lemma_term_of_factor(ts, st, bin, s2);
        lemma_comparison_of_term(ts, st, bin, s2);
        lemma_equality_of_comparison(ts, st, bin, s2);
    } else if additive_operator(op.token_type) {
        lemma_factor_of_unary(ts, st, la, s1);
        lemma_factor_of_unary(ts, s1n, lb, s2);
        assert(term(ts, st) == ok) by {
            reveal(grammar);
            assert(term_tail(ts, bin, s2) == ok);
            let ops = crate::parse_spec::term_ops();
            assert(ops[0] == TokenType::Minus && ops[1] == TokenType::Plus);
            assert(crate::parse_spec::matches_any(ts, 1, ops));
            assert(term_tail(ts, la, s1) == ok);
        }
        lemma_comparison_of_term(ts, st, bin, s2);
        lemma_equality_of_comparison(ts, st, bin, s2);
    } else if comparison_operator(op.token_type) {
        lemma_factor_of_unary(ts, st, la, s1);
        lemma_term_of_factor(ts, st, la, s1);
        lemma_factor_of_unary(ts, s1n, lb, s2);
        lemma_term_of_factor(ts, s1n, lb, s2);
        lemma_comparison_operator_joins(ts, la, s1);
        lemma_comparison_ends(ts, bin, s2);
        assert(comparison(ts, st) == ok) by {
            reveal(grammar);
        }
        lemma_equality_of_comparison(ts, st, bin, s2);
    } else {
        lemma_factor_of_unary(ts, st, la, s1);
        lemma_term_of_factor(ts, st, la, s1);
        lemma_comparison_of_term(ts, st, la, s1);
        lemma_factor_of_unary(ts, s1n, lb, s2);
        lemma_term_of_factor(ts, s1n, lb, s2);
        lemma_comparison_of_term(ts, s1n, lb, s2);
        assert(equality(ts, st) == ok) by {
            reveal(grammar);
            assert(equality_tail(ts, bin, s2) == ok);
            let ops = crate::parse_spec::equality_ops();
            assert(ops[0] == TokenType::BangEqual && ops[1] == TokenType::EqualEqual);
            assert(crate::parse_spec::matches_any(ts, 1, ops));
            assert(equality_tail(ts, la, s1) == ok);
        }
    }
}

/// Two numbers joined by a binary operator (`!=`, `==`, `>`, `>=`, `<`,
/// `<=`, `-`, `+`, `/`, `*`, `%`), then `;` and the end of file, parse to
/// one expression statement: the binary node of that operator over the two
/// number literals.
pub proof fn lemma_binary_of_numbers(
    a: TokenView,
    op: TokenView,
    b: TokenView,
    semi: TokenView,
    eof: TokenView,
)
    requires
        a.token_type == TokenType::Number,
        binary_operator(op.token_type),
        b.token_type == TokenType::Number,
        semi.token_type == TokenType::SemiColon,
        eof.token_type == TokenType::Eof,
    ensures
        parse_result(seq![a, op, b, semi, eof], PState { pos: 0, idx: 0, bad_number: false }).0
            == Ok::<Seq<StmtV>, Seq<char>>(
            seq![
                StmtV::Expression {
                    expr: ExprV::Binary {
                        left: Box::new(ExprV::Literal { literal: LiteralV::Number(a.lexeme) }),
                        operator: op,
                        right: Box::new(ExprV::Literal { literal: LiteralV::Number(b.lexeme) }),
                    },
                },
            ],
        ),
{
    let ts = seq![a, op, b, semi, eof];
    let st = PState { pos: 0, idx: 0, bad_number: false };
    let la = ExprV::Literal { literal: LiteralV::Number(a.lexeme) };
    let lb = ExprV::Literal { literal: LiteralV::Number(b.lexeme) };
    let s1 = literal_read(a, st);
    let s1n = PState { pos: s1.pos + 1, ..s1 };
    let s2 = literal_read(b, s1n);
    let bin = ExprV::Binary { left: Box::new(la), operator: op, right: Box::new(lb) };
    let ok = (Ok::<ExprV, Seq<char>>(bin), s2);
    lemma_operation_equality(a, op, b, semi, eof);
    lemma_and_of_equality(ts, st, bin, s2);
    lemma_or_of_and(ts, st, bin, s2);
    lemma_program_of_or(ts, st, bin, s2);
}

/// Two numbers joined by `and` or `or`, then `;` and the end of file, parse
/// to one expression statement: the logical node of that operator over the
/// two number literals.
pub proof fn lemma_logical_of_numbers(
    a: TokenView,
    op: TokenView,
    b: TokenView,
    semi: TokenView,
    eof: TokenView,
)
    requires
        a.token_type == TokenType::Number,
        logical_operator(op.token_type),
        b.token_type == TokenType::Number,
        semi.token_type == TokenType::SemiColon,
        eof.token_type == TokenType::Eof,
    ensures
        parse_result(seq![a, op, b, semi, eof], PState { pos: 0, idx: 0, bad_number: false }).0
            == Ok::<Seq<StmtV>, Seq<char>>(
            seq![
                StmtV::Expression {
                    expr: ExprV::Logical {
                        left: Box::new(ExprV::Literal { literal: LiteralV::Number(a.lexeme) }),
                        operator: op,
                        right: Box::new(ExprV::Literal { literal: LiteralV::Number(b.lexeme) }),
                    },
                },
            ],
        ),
{
    let ts = seq![a, op, b, semi, eof];
    let st = PState { pos: 0, idx: 0, bad_number: false };
    let la = ExprV::Literal { literal: LiteralV::Number(a.lexeme) };
    let lb = ExprV::Literal { literal: LiteralV::Number(b.lexeme) };
    let s1 = literal_read(a, st);
    let s1n = PState { pos: s1.pos + 1, ..s1 };
    let s2 = literal_read(b, s1n);
    let lg = ExprV::Logical { left: Box::new(la), operator: op, right: Box::new(lb) };
    let ok = (Ok::<ExprV, Seq<char>>(lg), s2);
    lemma_number_unary(ts, st);
    lemma_number_unary(ts, s1n);
    lemma_equality_of_unary(ts, st, la, s1);
    lemma_equality_of_unary(ts, s1n, lb, s2);
    lemma_and_of_equality(ts, s1n, lb, s2);
    if op.token_type == TokenType::And {
        assert(and_expr(ts, st) == ok) by {
            reveal(grammar);
            assert(crate::parse_spec::matches_any(ts, 1, seq![TokenType::And])) by {
                assert(seq![TokenType::And][0] == TokenType::And);
            }
        }
    } else {
        lemma_and_of_equality(ts, st, la, s1);
    }
    if op.token_type == TokenType::Or {
        assert(or_expr(ts, st) == ok) by {
            reveal(grammar);
            assert(crate::parse_spec::matches_any(ts, 1, seq![TokenType::Or])) by {
                assert(seq![TokenType::Or][0] == TokenType::Or);
            }
        }
    } else {
        lemma_or_of_and(ts, st, lg, s2);
    }
    lemma_program_of_or(ts, st, lg, s2);
}

/// A prefix operator (`!`, `-`) before a number, then `;` and the end of
/// file, parse to one expression statement: the unary node of that
/// operator over the number literal.
pub proof fn lemma_unary_of_number(op: TokenView, a: TokenView, semi: TokenView, eof: TokenView)
    requires
        unary_operator(op.token_type),
        a.token_type == TokenType::Number,
        semi.token_type == TokenType::SemiColon,
        eof.token_type == TokenType::Eof,
    ensures
        parse_result(seq![op, a, semi, eof], PState { pos: 0, idx: 0, bad_number: false }).0
            == Ok::<Seq<StmtV>, Seq<char>>(
            seq![
                StmtV::Expression {
                    expr: ExprV::Unary {
                        operator: op,
                        right: Box::new(ExprV::Literal { literal: LiteralV::Number(a.lexeme) }),
                    },
                },
            ],
        ),
{
    let ts = seq![op, a, semi, eof];
    let st = PState { pos: 0, idx: 0, bad_number: false };
    let la = ExprV::Literal { literal: LiteralV::Number(a.lexeme) };
    let sn = PState { pos: 1, ..st };
    let s1 = literal_read(a, sn);
    let u = ExprV::Unary { operator: op, right: Box::new(la) };
    lemma_number_unary(ts, sn);
    assert(unary(ts, st) == (Ok::<ExprV, Seq<char>>(u), s1)) by {
        reveal(grammar);
        assert(crate::parse_spec::matches_any(ts, 0, seq![TokenType::Bang, TokenType::Minus])) by {
            assert(seq![TokenType::Bang, TokenType::Minus][0] == TokenType::Bang);
            assert(seq![TokenType::Bang, TokenType::Minus][1] == TokenType::Minus);
        }
    }
    lemma_equality_of_unary(ts, st, u, s1);
    lemma_and_of_equality(ts, st, u, s1);
    lemma_or_of_and(ts, st, u, s1);
    lemma_program_of_or(ts, st, u, s1);
}

/// A name called with no arguments, then `;` and the end of file, parses
/// to one expression statement: the call of that variable, closed by the
/// `)`, with no arguments.
pub proof fn lemma_call_of_name_without_arguments(
    f: TokenView,
    lp: TokenView,
    rp: TokenView,
    semi: TokenView,
    eof: TokenView,
)
    requires
        f.token_type == TokenType::Identifier,
        lp.token_type == TokenType::LeftParen,
        rp.token_type == TokenType::RightParen,
        semi.token_type == TokenType::SemiColon,
        eof.token_type == TokenType::Eof,
    ensures
        parse_result(seq![f, lp, rp, semi, eof], PState { pos: 0, idx: 0, bad_number: false }).0
            == Ok::<Seq<StmtV>, Seq<char>>(
            seq![
                StmtV::Expression {
                    expr: ExprV::Call {
                        callee: Box::new(ExprV::Variable { index: 0, name: f }),
                        paren: rp,
                        args: Seq::empty(),
                    },
                },
            ],
        ),
{
    let ts = seq![f, lp, rp, semi, eof];
    let st = PState { pos: 0, idx: 0, bad_number: false };
    let v = ExprV::Variable { index: 0, name: f };
    let sv = PState { pos: 1, idx: 1, bad_number: false };
    let c = ExprV::Call { callee: Box::new(v), paren: rp, args: Seq::empty() };
    let sc = PState { pos: 3, idx: 1, bad_number: false };
    lemma_call_without_arguments(ts, v, PState { pos: 2, idx: 1, bad_number: false });
    assert(call(ts, st) == (Ok::<ExprV, Seq<char>>(c), sc)) by {
        reveal(grammar);
        assert(primary(ts, st) == (Ok::<ExprV, Seq<char>>(v), sv));
        assert(call_tail(ts, c, sc) == (Ok::<ExprV, Seq<char>>(c), sc));
        assert(crate::parse_spec::matches_any(ts, 1, seq![TokenType::LeftParen])) by {
            assert(seq![TokenType::LeftParen][0] == TokenType::LeftParen);
        }
        assert(finish_call(ts, v, crate::parse_spec::next(sv)) == (Ok::<ExprV, Seq<char>>(c), sc));
        assert(call_tail(ts, v, sv) == (Ok::<ExprV, Seq<char>>(c), sc));
    }
    assert(unary(ts, st) == call(ts, st)) by {
        reveal(grammar);
    }
    lemma_equality_of_unary(ts, st, c, sc);
    lemma_and_of_equality(ts, st, c, sc);
    lemma_or_of_and(ts, st, c, sc);
    lemma_program_of_or(ts, st, c, sc);
}

/// Whether error recovery stops at a token of type `t`: one that starts a
/// class, function, variable, `for`, `if`, `while` or `return`.
pub open spec fn recovery_point(t: TokenType) -> bool {
    t == TokenType::Class || t == TokenType::Fun || t == TokenType::Var || t == TokenType::For
        || t == TokenType::If || t == TokenType::While || t == TokenType::Return
}

/// Error recovery from `p` stops at the end of file, just after a `;`, or
/// at a token where a declaration or statement starts; it passes over
/// every other token. After an error it first steps over the token where
/// the error was found.
pub proof fn lemma_recovery_stops(ts: Seq<TokenView>, p: int)
    requires
        0 <= p < ts.len(),
    ensures
        at_end(ts, p) ==> sync_loop(ts, p) == p,
        tok(ts, p - 1).token_type == TokenType::SemiColon ==> sync_loop(ts, p) == p,
        recovery_point(tok(ts, p).token_type) ==> sync_loop(ts, p) == p,
        !at_end(ts, p) && tok(ts, p - 1).token_type != TokenType::SemiColon && !recovery_point(
            tok(ts, p).token_type,
        ) ==> sync_loop(ts, p) == sync_loop(ts, p + 1),
        !at_end(ts, p) ==> synchronise(ts, p) == sync_loop(ts, p + 1),
{
}

} // verus!
