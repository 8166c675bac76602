//! What parsing a token sequence yields, stated as a recursive-descent
//! grammar over token values.
//!
//! Each function takes the parse state (`pos`, the next token to read, and
//! `idx`, the next resolution index to hand out) and gives its result with
//! the state it leaves. An error leaves the state where it was detected.
//! The guards on positions never fail on states a parse reaches (the
//! parser proves so); they only make the recursion visibly well founded.

use vstd::prelude::*;
use crate::expr::{expr_text, token_literal, ExprV, LiteralV};
use crate::numbers::float_text;
use crate::scan_spec::{lemma_scan_closed_by_eof, scan, ScanOutcome};
use crate::stmt::StmtV;
use crate::text::{decimal, join};
use crate::token::{TokenType, TokenView};

verus! {

/// The state of a parse.
pub struct PState {
    pub pos: int,
    pub idx: int,
    /// Whether a number literal whose text is not that of a floating-point
    /// number has been read.
    pub bad_number: bool,
}

/// The token at `p` (an end-of-file token outside the sequence).
pub open spec fn tok(ts: Seq<TokenView>, p: int) -> TokenView {
    if 0 <= p < ts.len() {
        ts[p]
    } else {
        TokenView { token_type: TokenType::Eof, lexeme: Seq::empty(), line: 0 }
    }
}

/// Whether the parse is at the end of file.
pub open spec fn at_end(ts: Seq<TokenView>, p: int) -> bool {
    tok(ts, p).token_type == TokenType::Eof
}

/// Whether the next token, short of the end of file, has type `t`.
pub open spec fn check(ts: Seq<TokenView>, p: int, t: TokenType) -> bool {
    !at_end(ts, p) && tok(ts, p).token_type == t
}

/// Whether the next token, short of the end of file, has one of `types`.
pub open spec fn matches_any(ts: Seq<TokenView>, p: int, types: Seq<TokenType>) -> bool {
    !at_end(ts, p) && types.contains(tok(ts, p).token_type)
}

/// The state one token further on.
pub open spec fn next(st: PState) -> PState {
    PState { pos: st.pos + 1, ..st }
}

/// A result that never arises: it stands where a guard fails.
pub open spec fn stray<T>(st: PState) -> (Result<T, Seq<char>>, PState) {
    (Err(Seq::empty()), st)
}

/// Whether `b` is at or after `a` and within the tokens.
pub open spec fn fwd(ts: Seq<TokenView>, a: PState, b: PState) -> bool {
    a.pos <= b.pos <= ts.len()
}

/// Whether `b` is strictly after `a` and within the tokens.
pub open spec fn ahead(ts: Seq<TokenView>, a: PState, b: PState) -> bool {
    a.pos < b.pos <= ts.len()
}

/// Consuming a token of type `t`, or reporting `msg` at the next token's line.
pub open spec fn consume(ts: Seq<TokenView>, st: PState, t: TokenType, msg: Seq<char>) -> (
    Result<TokenView, Seq<char>>,
    PState,
) {
    if tok(ts, st.pos).token_type == t {
        let p = if at_end(ts, st.pos) { st.pos } else { st.pos + 1 };
        (Ok(tok(ts, p - 1)), PState { pos: p, ..st })
    } else {
        (Err(line_message(tok(ts, st.pos).line, msg)), st)
    }
}

/// Skipping a `;` if one is next.
pub open spec fn skip_semicolon(ts: Seq<TokenView>, st: PState) -> PState {
    if tok(ts, st.pos).token_type == TokenType::SemiColon { next(st) } else { st }
}

/// Token types that start a declaration or statement, where error
/// recovery stops.
pub open spec fn sync_stop(t: TokenType) -> bool {
    t == TokenType::Class || t == TokenType::Fun || t == TokenType::Var || t == TokenType::For
        || t == TokenType::If || t == TokenType::While || t == TokenType::Return
}

/// Error recovery from `p`: skips tokens up to the end of file, just past a
/// `;`, or up to a token that starts a declaration or statement.
pub open spec fn sync_loop(ts: Seq<TokenView>, p: int) -> int
    decreases ts.len() - p,
{
    if at_end(ts, p) || p >= ts.len() {
        p
    } else if tok(ts, p - 1).token_type == TokenType::SemiColon {
        p
    } else if sync_stop(tok(ts, p).token_type) {
        p
    } else {
        sync_loop(ts, p + 1)
    }
}

/// Error recovery after an error at `p`: one token on, then `sync_loop`.
pub open spec fn synchronise(ts: Seq<TokenView>, p: int) -> int {
    sync_loop(ts, if at_end(ts, p) { p } else { p + 1 })
}

/// A parse error reported at `line`.
pub open spec fn line_message(line: int, msg: Seq<char>) -> Seq<char> {
    "Line "@ + decimal(line as nat) + ": "@ + msg
}

/// What a grammar rule yields.
pub enum Node {
    Expr(ExprV),
    Exprs(Seq<ExprV>),
    Stmt(StmtV),
    Stmts(Seq<StmtV>),
    Tokens(Seq<TokenView>),
    OptStmt(Option<StmtV>),
    OptExpr(Option<ExprV>),
    OptBox(Option<Box<StmtV>>),
}

/// The rules of the grammar, with what each takes besides the state.
pub enum Nt {
    Expression,
    Assignment,
    Or,
    And,
    Equality,
    EqualityTail(ExprV),
    Comparison,
    ComparisonTail(ExprV),
    Term,
    TermTail(ExprV),
    Factor,
    FactorTail(ExprV),
    Unary,
    Call,
    CallTail(ExprV),
    FinishCall(ExprV),
    CallArgs(Seq<ExprV>),
    ArrayItems(Seq<ExprV>),
    Primary,
    ExprStatement,
    ReturnStatement,
    VarDeclaration,
    WhileStatement,
    ElseBranch,
    IfStatement,
    ForInitializer,
    OptionalExpression(TokenType),
    ForStatement,
    ForRest(Option<StmtV>),
    Statement,
    Block,
    BlockItems(Seq<StmtV>),
    Params(Seq<TokenView>),
    Function(Seq<char>),
    FunctionBody(Seq<char>, TokenView, Seq<TokenView>),
    Declaration,
}

/// The order in which rules may call each other without reading a token:
/// a rule calls only lower rules at the position it started at.
pub open spec fn nt_rank(nt: Nt) -> int {
    match nt {
        Nt::Expression => 30,
        Nt::Assignment => 29,
        Nt::Or => 28,
        Nt::And => 27,
        Nt::Equality => 26,
        Nt::EqualityTail(_) => 25,
        Nt::Comparison => 24,
        Nt::ComparisonTail(_) => 23,
        Nt::Term => 22,
        Nt::TermTail(_) => 21,
        Nt::Factor => 20,
        Nt::FactorTail(_) => 19,
        Nt::Unary => 18,
        Nt::Call => 17,
        Nt::CallTail(_) => 16,
        Nt::FinishCall(_) => 37,
        Nt::CallArgs(_) => 36,
        Nt::ArrayItems(_) => 35,
        Nt::Primary => 15,
        Nt::ExprStatement => 38,
        Nt::ReturnStatement => 42,
        Nt::VarDeclaration => 41,
        Nt::WhileStatement => 43,
        Nt::ElseBranch => 47,
        Nt::IfStatement => 44,
        Nt::ForInitializer => 44,
        Nt::OptionalExpression(_) => 31,
        Nt::ForStatement => 45,
        Nt::ForRest(_) => 43,
        Nt::Statement => 46,
        Nt::Block => 49,
        Nt::BlockItems(_) => 48,
        Nt::Params(_) => 39,
        Nt::Function(_) => 40,
        Nt::FunctionBody(_, _, _) => 39,
        Nt::Declaration => 47,
    }
}

/// The expr result of a grammar rule.
pub open spec fn as_expr(r: (Result<Node, Seq<char>>, PState)) -> (Result<ExprV, Seq<char>>, PState) {
    match r.0 {
        Ok(Node::Expr(x)) => (Ok(x), r.1),
        Ok(_) => (Err(Seq::empty()), r.1),
        Err(m) => (Err(m), r.1),
    }
}

/// A grammar rule's result from a expr result.
pub open spec fn from_expr(r: (Result<ExprV, Seq<char>>, PState)) -> (Result<Node, Seq<char>>, PState) {
    match r.0 {
        Ok(x) => (Ok(Node::Expr(x)), r.1),
        Err(m) => (Err(m), r.1),
    }
}

/// The exprs result of a grammar rule.
pub open spec fn as_exprs(r: (Result<Node, Seq<char>>, PState)) -> (Result<Seq<ExprV>, Seq<char>>, PState) {
    match r.0 {
        Ok(Node::Exprs(x)) => (Ok(x), r.1),
        Ok(_) => (Err(Seq::empty()), r.1),
        Err(m) => (Err(m), r.1),
    }
}

/// A grammar rule's result from a exprs result.
pub open spec fn from_exprs(r: (Result<Seq<ExprV>, Seq<char>>, PState)) -> (Result<Node, Seq<char>>, PState) {
    match r.0 {
        Ok(x) => (Ok(Node::Exprs(x)), r.1),
        Err(m) => (Err(m), r.1),
    }
}

/// The stmt result of a grammar rule.
pub open spec fn as_stmt(r: (Result<Node, Seq<char>>, PState)) -> (Result<StmtV, Seq<char>>, PState) {
    match r.0 {
        Ok(Node::Stmt(x)) => (Ok(x), r.1),
        Ok(_) => (Err(Seq::empty()), r.1),
        Err(m) => (Err(m), r.1),
    }
}

/// A grammar rule's result from a stmt result.
pub open spec fn from_stmt(r: (Result<StmtV, Seq<char>>, PState)) -> (Result<Node, Seq<char>>, PState) {
    match r.0 {
        Ok(x) => (Ok(Node::Stmt(x)), r.1),
        Err(m) => (Err(m), r.1),
    }
}

/// The stmts result of a grammar rule.
pub open spec fn as_stmts(r: (Result<Node, Seq<char>>, PState)) -> (Result<Seq<StmtV>, Seq<char>>, PState) {
    match r.0 {
        Ok(Node::Stmts(x)) => (Ok(x), r.1),
        Ok(_) => (Err(Seq::empty()), r.1),
        Err(m) => (Err(m), r.1),
    }
}

/// A grammar rule's result from a stmts result.
pub open spec fn from_stmts(r: (Result<Seq<StmtV>, Seq<char>>, PState)) -> (Result<Node, Seq<char>>, PState) {
    match r.0 {
        Ok(x) => (Ok(Node::Stmts(x)), r.1),
        Err(m) => (Err(m), r.1),
    }
}

/// The tokens result of a grammar rule.
pub open spec fn as_tokens(r: (Result<Node, Seq<char>>, PState)) -> (Result<Seq<TokenView>, Seq<char>>, PState) {
    match r.0 {
        Ok(Node::Tokens(x)) => (Ok(x), r.1),
        Ok(_) => (Err(Seq::empty()), r.1),
        Err(m) => (Err(m), r.1),
    }
}

/// A grammar rule's result from a tokens result.
pub open spec fn from_tokens(r: (Result<Seq<TokenView>, Seq<char>>, PState)) -> (Result<Node, Seq<char>>, PState) {
    match r.0 {
        Ok(x) => (Ok(Node::Tokens(x)), r.1),
        Err(m) => (Err(m), r.1),
    }
}

/// The opt_stmt result of a grammar rule.
pub open spec fn as_opt_stmt(r: (Result<Node, Seq<char>>, PState)) -> (Result<Option<StmtV>, Seq<char>>, PState) {
    match r.0 {
        Ok(Node::OptStmt(x)) => (Ok(x), r.1),
        Ok(_) => (Err(Seq::empty()), r.1),
        Err(m) => (Err(m), r.1),
    }
}

/// A grammar rule's result from a opt_stmt result.
pub open spec fn from_opt_stmt(r: (Result<Option<StmtV>, Seq<char>>, PState)) -> (Result<Node, Seq<char>>, PState) {
    match r.0 {
        Ok(x) => (Ok(Node::OptStmt(x)), r.1),
        Err(m) => (Err(m), r.1),
    }
}

/// The opt_expr result of a grammar rule.
pub open spec fn as_opt_expr(r: (Result<Node, Seq<char>>, PState)) -> (Result<Option<ExprV>, Seq<char>>, PState) {
    match r.0 {
        Ok(Node::OptExpr(x)) => (Ok(x), r.1),
        Ok(_) => (Err(Seq::empty()), r.1),
        Err(m) => (Err(m), r.1),
    }
}

/// A grammar rule's result from a opt_expr result.
pub open spec fn from_opt_expr(r: (Result<Option<ExprV>, Seq<char>>, PState)) -> (Result<Node, Seq<char>>, PState) {
    match r.0 {
        Ok(x) => (Ok(Node::OptExpr(x)), r.1),
        Err(m) => (Err(m), r.1),
    }
}

/// The opt_box result of a grammar rule.
pub open spec fn as_opt_box(r: (Result<Node, Seq<char>>, PState)) -> (Result<Option<Box<StmtV>>, Seq<char>>, PState) {
    match r.0 {
        Ok(Node::OptBox(x)) => (Ok(x), r.1),
        Ok(_) => (Err(Seq::empty()), r.1),
        Err(m) => (Err(m), r.1),
    }
}

/// A grammar rule's result from a opt_box result.
pub open spec fn from_opt_box(r: (Result<Option<Box<StmtV>>, Seq<char>>, PState)) -> (Result<Node, Seq<char>>, PState) {
    match r.0 {
        Ok(x) => (Ok(Node::OptBox(x)), r.1),
        Err(m) => (Err(m), r.1),
    }
}

/// The grammar: what rule `nt` yields from state `st`.
#[verifier::opaque]
pub open spec fn grammar(ts: Seq<TokenView>, nt: Nt, st: PState) -> (Result<Node, Seq<char>>, PState)
    decreases ts.len() - st.pos, nt_rank(nt),
{
    match nt {
        Nt::Expression => from_expr({
            as_expr(grammar(ts, Nt::Assignment, st))
        }),
        Nt::Assignment => from_expr({
            let (r, s1) = as_expr(grammar(ts, Nt::Or, st));
            match r {
                Err(m) => (Err(m), s1),
                Ok(e) => {
                    if !fwd(ts, st, s1) {
                        stray(s1)
                    } else if matches_any(ts, s1.pos, seq![TokenType::Equal]) {
                        let (rv, s2) = as_expr(grammar(ts, Nt::Assignment, next(s1)));
                        match rv {
                            Err(m) => (Err(m), s2),
                            Ok(value) => match e {
                                ExprV::Variable { index, name } => (
                                    Ok(ExprV::Assignment { name, value: Box::new(value), position: None, index }),
                                    s2,
                                ),
                                ExprV::Access { name, position, index } => (
                                    Ok(
                                        ExprV::Assignment {
                                            name,
                                            value: Box::new(value),
                                            position: Some(position),
                                            index,
                                        },
                                    ),
                                    s2,
                                ),
                                _ => (Err("Invalid assignment target "@ + expr_text(e)), s2),
                            },
                        }
                    } else {
                        (Ok(e), s1)
                    }
                },
            }
        }),
        Nt::Or => from_expr({
            let (r, s1) = as_expr(grammar(ts, Nt::And, st));
            match r {
                Err(m) => (Err(m), s1),
                Ok(e) => {
                    if !fwd(ts, st, s1) {
                        stray(s1)
                    } else if matches_any(ts, s1.pos, seq![TokenType::Or]) {
                        let (rr, s2) = as_expr(grammar(ts, Nt::And, next(s1)));
                        match rr {
                            Err(m) => (Err(m), s2),
                            Ok(right) => (Ok(logical(ts, e, s1.pos, right)), s2),
                        }
                    } else {
                        (Ok(e), s1)
                    }
                },
            }
        }),
        Nt::And => from_expr({
            let (r, s1) = as_expr(grammar(ts, Nt::Equality, st));
            match r {
                Err(m) => (Err(m), s1),
                Ok(e) => {
                    if !fwd(ts, st, s1) {
                        stray(s1)
                    } else if matches_any(ts, s1.pos, seq![TokenType::And]) {
                        let (rr, s2) = as_expr(grammar(ts, Nt::Equality, next(s1)));
                        match rr {
                            Err(m) => (Err(m), s2),
                            Ok(right) => (Ok(logical(ts, e, s1.pos, right)), s2),
                        }
                    } else {
                        (Ok(e), s1)
                    }
                },
            }
        }),
        Nt::Equality => from_expr({
            let (r, s1) = as_expr(grammar(ts, Nt::Comparison, st));
            match r {
                Err(m) => (Err(m), s1),
                Ok(e) => if fwd(ts, st, s1) { as_expr(grammar(ts, Nt::EqualityTail(e), s1)) } else { stray(s1) },
            }
        }),
        Nt::EqualityTail(e) => from_expr({
            if matches_any(ts, st.pos, equality_ops()) {
                let (r, s1) = as_expr(grammar(ts, Nt::Comparison, next(st)));
                match r {
                    Err(m) => (Err(m), s1),
                    Ok(right) => if ahead(ts, st, s1) {
                        as_expr(grammar(ts, Nt::EqualityTail(binary(ts, e, st.pos, right)), s1))
                    } else {
                        stray(s1)
                    },
                }
            } else {
                (Ok(e), st)
            }
        }),
        Nt::Comparison => from_expr({
            let (r, s1) = as_expr(grammar(ts, Nt::Term, st));
            match r {
                Err(m) => (Err(m), s1),
                Ok(e) => if fwd(ts, st, s1) { as_expr(grammar(ts, Nt::ComparisonTail(e), s1)) } else { stray(s1) },
            }
        }),
        Nt::ComparisonTail(e) => from_expr({
            if matches_any(ts, st.pos, comparison_ops()) {
                let (r, s1) = as_expr(grammar(ts, Nt::Term, next(st)));
                match r {
                    Err(m) => (Err(m), s1),
                    Ok(right) => if ahead(ts, st, s1) {
                        as_expr(grammar(ts, Nt::ComparisonTail(binary(ts, e, st.pos, right)), s1))
                    } else {
                        stray(s1)
                    },
                }
            } else {
                (Ok(e), st)
            }
        }),
        Nt::Term => from_expr({
            let (r, s1) = as_expr(grammar(ts, Nt::Factor, st));
            match r {
                Err(m) => (Err(m), s1),
                Ok(e) => if fwd(ts, st, s1) { as_expr(grammar(ts, Nt::TermTail(e), s1)) } else { stray(s1) },
            }
        }),
        Nt::TermTail(e) => from_expr({
            if matches_any(ts, st.pos, term_ops()) {
                let (r, s1) = as_expr(grammar(ts, Nt::Factor, next(st)));
                match r {
                    Err(m) => (Err(m), s1),
                    Ok(right) => if ahead(ts, st, s1) {
                        as_expr(grammar(ts, Nt::TermTail(binary(ts, e, st.pos, right)), s1))
                    } else {
                        stray(s1)
                    },
                }
            } else {
                (Ok(e), st)
            }
        }),
        Nt::Factor => from_expr({
            let (r, s1) = as_expr(grammar(ts, Nt::Unary, st));
            match r {
                Err(m) => (Err(m), s1),
                Ok(e) => if fwd(ts, st, s1) { as_expr(grammar(ts, Nt::FactorTail(e), s1)) } else { stray(s1) },
            }
        }),
        Nt::FactorTail(e) => from_expr({
            if matches_any(ts, st.pos, factor_ops()) {
                let (r, s1) = as_expr(grammar(ts, Nt::Factor, next(st)));
                match r {
                    Err(m) => (Err(m), s1),
                    Ok(right) => if ahead(ts, st, s1) {
                        as_expr(grammar(ts, Nt::FactorTail(binary(ts, e, st.pos, right)), s1))
                    } else {
                        stray(s1)
                    },
                }
            } else {
                (Ok(e), st)
            }
        }),
        Nt::Unary => from_expr({
            if matches_any(ts, st.pos, seq![TokenType::Bang, TokenType::Minus]) {
                let (r, s1) = as_expr(grammar(ts, Nt::Unary, next(st)));
                match r {
                    Err(m) => (Err(m), s1),
                    Ok(right) => (
                        Ok(ExprV::Unary { operator: tok(ts, st.pos), right: Box::new(right) }),
                        s1,
                    ),
                }
            } else {
                as_expr(grammar(ts, Nt::Call, st))
            }
        }),
        Nt::Call => from_expr({
            let (r, s1) = as_expr(grammar(ts, Nt::Primary, st));
            match r {
                Err(m) => (Err(m), s1),
                Ok(e) => if fwd(ts, st, s1) { as_expr(grammar(ts, Nt::CallTail(e), s1)) } else { stray(s1) },
            }
        }),
        Nt::CallTail(e) => from_expr({
            if matches_any(ts, st.pos, seq![TokenType::LeftParen]) {
                let (r, s1) = as_expr(grammar(ts, Nt::FinishCall(e), next(st)));
                match r {
                    Err(m) => (Err(m), s1),
                    Ok(c) => if ahead(ts, st, s1) { as_expr(grammar(ts, Nt::CallTail(c), s1)) } else { stray(s1) },
                }
            } else {
                (Ok(e), st)
            }
        }),
        Nt::FinishCall(callee) => from_expr({
            let (ra, s1) = if !check(ts, st.pos, TokenType::RightParen) {
                as_exprs(grammar(ts, Nt::CallArgs(Seq::empty()), st))
            } else {
                (Ok(Seq::empty()), st)
            };
            match ra {
                Err(m) => (Err(m), s1),
                Ok(args) => {
                    let (rp, s2) = consume(ts, s1, TokenType::RightParen, "Expected ')' after arguments"@);
                    match rp {
                        Err(m) => (Err(m), s2),
                        Ok(paren) => (Ok(ExprV::Call { callee: Box::new(callee), paren, args }), s2),
                    }
                },
            }
        }),
        Nt::CallArgs(acc) => from_exprs({
            if acc.len() >= 255 {
                (Err(line_message(tok(ts, st.pos).line, "Can't have more than 255 arguments"@)), st)
            } else {
                let (r, s1) = as_expr(grammar(ts, Nt::Expression, st));
                match r {
                    Err(m) => (Err(m), s1),
                    Ok(a) => {
                        if !fwd(ts, st, s1) {
                            stray(s1)
                        } else if matches_any(ts, s1.pos, seq![TokenType::Comma]) {
                            as_exprs(grammar(ts, Nt::CallArgs(acc.push(a)), next(s1)))
                        } else {
                            (Ok(acc.push(a)), s1)
                        }
                    },
                }
            }
        }),
        Nt::ArrayItems(acc) => from_exprs({
            let (r, s1) = as_expr(grammar(ts, Nt::Expression, st));
            match r {
                Err(m) => (Err(m), s1),
                Ok(a) => {
                    if !fwd(ts, st, s1) {
                        stray(s1)
                    } else if matches_any(ts, s1.pos, seq![TokenType::Comma]) {
                        as_exprs(grammar(ts, Nt::ArrayItems(acc.push(a)), next(s1)))
                    } else {
                        (Ok(acc.push(a)), s1)
                    }
                },
            }
        }),
        Nt::Primary => from_expr({
            let t = tok(ts, st.pos);
            if t.token_type == TokenType::LeftParen {
                let (r, s1) = as_expr(grammar(ts, Nt::Expression, next(st)));
                match r {
                    Err(m) => (Err(m), s1),
                    Ok(e) => {
                        let (rc, s2) = consume(ts, s1, TokenType::RightParen, "Expected `)`"@);
                        match rc {
                            Err(m) => (Err(m), s2),
                            Ok(_) => (Ok(ExprV::Grouping { expr: Box::new(e) }), s2),
                        }
                    },
                }
            } else if t.token_type == TokenType::LeftBox {
                let s1 = next(st);
                let (r, s2) = if !check(ts, s1.pos, TokenType::RightBox) {
                    as_exprs(grammar(ts, Nt::ArrayItems(Seq::empty()), s1))
                } else {
                    (Ok(Seq::empty()), s1)
                };
                match r {
                    Err(m) => (Err(m), s2),
                    Ok(elements) => {
                        let (rc, s3) = consume(
                            ts,
                            s2,
                            TokenType::RightBox,
                            "Expected ']' after array elements"@,
                        );
                        match rc {
                            Err(m) => (Err(m), s3),
                            Ok(_) => (Ok(ExprV::Array { elements }), s3),
                        }
                    },
                }
            } else if literal_token_type(t.token_type) {
                (Ok(ExprV::Literal { literal: token_literal(t) }), literal_read(t, st))
            } else if t.token_type == TokenType::Identifier {
                let s1 = next(st);
                if matches_any(ts, s1.pos, seq![TokenType::LeftBox]) {
                    let (r, s2) = as_expr(grammar(ts, Nt::Expression, next(s1)));
                    match r {
                        Err(m) => (Err(m), s2),
                        Ok(position) => {
                            let (rc, s3) = consume(
                                ts,
                                s2,
                                TokenType::RightBox,
                                "Expected ']' after array access"@,
                            );
                            match rc {
                                Err(m) => (Err(m), s3),
                                Ok(_) => (
                                    Ok(ExprV::Access { name: t, position: Box::new(position), index: s3.idx }),
                                    PState { idx: s3.idx + 1, ..s3 },
                                ),
                            }
                        },
                    }
                } else {
                    (Ok(ExprV::Variable { index: s1.idx, name: t }), PState { idx: s1.idx + 1, ..s1 })
                }
            } else {
                (Err(line_message(t.line, "Expected Expression"@)), st)
            }
        }),
        Nt::ExprStatement => from_stmt({
            let (r, s1) = as_expr(grammar(ts, Nt::Expression, st));
            match r {
                Err(m) => (Err(m), s1),
                Ok(e) => (Ok(StmtV::Expression { expr: e }), skip_semicolon(ts, s1)),
            }
        }),
        Nt::ReturnStatement => from_stmt({
            if check(ts, st.pos, TokenType::SemiColon) {
                (Ok(StmtV::Return { value: None }), skip_semicolon(ts, st))
            } else {
                let (r, s1) = as_expr(grammar(ts, Nt::Expression, st));
                match r {
                    Err(m) => (Err(m), s1),
                    Ok(e) => (Ok(StmtV::Return { value: Some(e) }), skip_semicolon(ts, s1)),
                }
            }
        }),
        Nt::VarDeclaration => from_stmt({
            let (rn, s1) = consume(ts, st, TokenType::Identifier, "Expected variable name"@);
            match rn {
                Err(m) => (Err(m), s1),
                Ok(name) => {
                    if matches_any(ts, s1.pos, seq![TokenType::Equal]) {
                        let (r, s2) = as_expr(grammar(ts, Nt::Expression, next(s1)));
                        match r {
                            Err(m) => (Err(m), s2),
                            Ok(e) => (
                                Ok(StmtV::Var { name, initializer: Some(e) }),
                                skip_semicolon(ts, s2),
                            ),
                        }
                    } else {
                        (Ok(StmtV::Var { name, initializer: None }), skip_semicolon(ts, s1))
                    }
                },
            }
        }),
        Nt::WhileStatement => from_stmt({
            let (r0, s1) = consume(ts, st, TokenType::LeftParen, "Expected '(' after 'while'"@);
            match r0 {
                Err(m) => (Err(m), s1),
                Ok(_) => {
                    let (rc, s2) = as_expr(grammar(ts, Nt::Expression, s1));
                    match rc {
                        Err(m) => (Err(m), s2),
                        Ok(condition) => {
                            let (r3, s3) = consume(
                                ts,
                                s2,
                                TokenType::RightParen,
                                "Expected ')' after condition"@,
                            );
                            match r3 {
                                Err(m) => (Err(m), s3),
                                Ok(_) => if !ahead(ts, st, s3) {
                                    stray(s3)
                                } else {
                                    let (rb, s4) = as_stmt(grammar(ts, Nt::Statement, s3));
                                    match rb {
                                        Err(m) => (Err(m), s4),
                                        Ok(body) => (
                                            Ok(StmtV::While { condition, body: Box::new(body) }),
                                            s4,
                                        ),
                                    }
                                },
                            }
                        },
                    }
                },
            }
        }),
        Nt::ElseBranch => from_opt_box({
            if matches_any(ts, st.pos, seq![TokenType::Else]) {
                let (r, s1) = as_stmt(grammar(ts, Nt::Statement, next(st)));
                match r {
                    Err(m) => (Err(m), s1),
                    Ok(b) => (Ok(Some(Box::new(b))), s1),
                }
            } else {
                (Ok(None), st)
            }
        }),
        Nt::IfStatement => from_stmt({
            let (r0, s1) = consume(ts, st, TokenType::LeftParen, "Expected '(' after 'if'"@);
            match r0 {
                Err(m) => (Err(m), s1),
                Ok(_) => {
                    let (rc, s2) = as_expr(grammar(ts, Nt::Expression, s1));
                    match rc {
                        Err(m) => (Err(m), s2),
                        Ok(condition) => {
                            let (r3, s3) = consume(
                                ts,
                                s2,
                                TokenType::RightParen,
                                "Expected ')' after condition"@,
                            );
                            match r3 {
                                Err(m) => (Err(m), s3),
                                Ok(_) => if !ahead(ts, st, s3) {
                                    stray(s3)
                                } else {
                                    let (rt, s4) = as_stmt(grammar(ts, Nt::Statement, s3));
                                    match rt {
                                        Err(m) => (Err(m), s4),
                                        Ok(then_branch) => if !ahead(ts, st, s4) {
                                            stray(s4)
                                        } else {
                                            let (re, s5) = as_opt_box(grammar(ts, Nt::ElseBranch, s4));
                                            match re {
                                                Err(m) => (Err(m), s5),
                                                Ok(else_branch) => (
                                                    Ok(
                                                        StmtV::If {
                                                            condition,
                                                            then_branch: Box::new(then_branch),
                                                            else_branch,
                                                        },
                                                    ),
                                                    s5,
                                                ),
                                            }
                                        },
                                    }
                                },
                            }
                        },
                    }
                },
            }
        }),
        Nt::ForInitializer => from_opt_stmt({
            if matches_any(ts, st.pos, seq![TokenType::SemiColon]) {
                (Ok(None), next(st))
            } else if matches_any(ts, st.pos, seq![TokenType::Var]) {
                let (r, s1) = as_stmt(grammar(ts, Nt::VarDeclaration, next(st)));
                match r {
                    Err(m) => (Err(m), s1),
                    Ok(d) => (Ok(Some(d)), s1),
                }
            } else {
                let (r, s1) = as_stmt(grammar(ts, Nt::ExprStatement, st));
                match r {
                    Err(m) => (Err(m), s1),
                    Ok(d) => (Ok(Some(d)), s1),
                }
            }
        }),
        Nt::OptionalExpression(stop) => from_opt_expr({
            if !check(ts, st.pos, stop) {
                let (r, s1) = as_expr(grammar(ts, Nt::Expression, st));
                match r {
                    Err(m) => (Err(m), s1),
                    Ok(e) => (Ok(Some(e)), s1),
                }
            } else {
                (Ok(None), st)
            }
        }),
        Nt::ForStatement => from_stmt({
            let (r0, s1) = consume(ts, st, TokenType::LeftParen, "Expected '(' after 'for'"@);
            match r0 {
                Err(m) => (Err(m), s1),
                Ok(_) => {
                    let (ri, s2) = as_opt_stmt(grammar(ts, Nt::ForInitializer, s1));
                    match ri {
                        Err(m) => (Err(m), s2),
                        Ok(initializer) => if !ahead(ts, st, s2) {
                            stray(s2)
                        } else {
                            as_stmt(grammar(ts, Nt::ForRest(initializer), s2))
                        },
                    }
                },
            }
        }),
        Nt::ForRest(initializer) => from_stmt({
            let (rc, s3) = as_opt_expr(grammar(ts, Nt::OptionalExpression(TokenType::SemiColon), st));
            match rc {
                Err(m) => (Err(m), s3),
                Ok(condition) => {
                    let (r4, s4) = consume(ts, s3, TokenType::SemiColon, "Expected ';' after condition"@);
                    match r4 {
                        Err(m) => (Err(m), s4),
                        Ok(_) => if !ahead(ts, st, s4) {
                            stray(s4)
                        } else {
                            let (rx, s5) = as_opt_expr(grammar(ts, Nt::OptionalExpression(TokenType::RightParen), s4));
                            match rx {
                                Err(m) => (Err(m), s5),
                                Ok(increment) => {
                                    let (r6, s6) = consume(
                                        ts,
                                        s5,
                                        TokenType::RightParen,
                                        "Expected ')' after clauses"@,
                                    );
                                    match r6 {
                                        Err(m) => (Err(m), s6),
                                        Ok(_) => if !ahead(ts, st, s6) {
                                            stray(s6)
                                        } else {
                                            let (rb, s7) = as_stmt(grammar(ts, Nt::Statement, s6));
                                            match rb {
                                                Err(m) => (Err(m), s7),
                                                Ok(body) => (
                                                    Ok(for_loop(initializer, condition, increment, body)),
                                                    s7,
                                                ),
                                            }
                                        },
                                    }
                                },
                            }
                        },
                    }
                },
            }
        }),
        Nt::Statement => from_stmt({
            if matches_any(ts, st.pos, seq![TokenType::For]) {
                as_stmt(grammar(ts, Nt::ForStatement, next(st)))
            } else if matches_any(ts, st.pos, seq![TokenType::If]) {
                as_stmt(grammar(ts, Nt::IfStatement, next(st)))
            } else if matches_any(ts, st.pos, seq![TokenType::Return]) {
                as_stmt(grammar(ts, Nt::ReturnStatement, next(st)))
            } else if matches_any(ts, st.pos, seq![TokenType::While]) {
                as_stmt(grammar(ts, Nt::WhileStatement, next(st)))
            } else if matches_any(ts, st.pos, seq![TokenType::LeftBrace]) {
                as_stmt(grammar(ts, Nt::Block, next(st)))
            } else {
                as_stmt(grammar(ts, Nt::ExprStatement, st))
            }
        }),
        Nt::Block => from_stmt({
            let (r, s1) = as_stmts(grammar(ts, Nt::BlockItems(Seq::empty()), st));
            match r {
                Err(m) => (Err(m), s1),
                Ok(statements) => (Ok(StmtV::Block { statements }), s1),
            }
        }),
        Nt::BlockItems(acc) => from_stmts({
            if !check(ts, st.pos, TokenType::RightBrace) && !at_end(ts, st.pos) {
                let (r, s1) = as_stmt(grammar(ts, Nt::Declaration, st));
                match r {
                    Err(m) => (Err(m), s1),
                    Ok(d) => if ahead(ts, st, s1) { as_stmts(grammar(ts, Nt::BlockItems(acc.push(d)), s1)) } else { stray(s1) },
                }
            } else {
                let (rc, s1) = consume(ts, st, TokenType::RightBrace, "Expected '}' after block"@);
                match rc {
                    Err(m) => (Err(m), s1),
                    Ok(_) => (Ok(acc), s1),
                }
            }
        }),
        Nt::Params(acc) => from_tokens({
            if acc.len() >= 255 {
                (Err(line_message(tok(ts, st.pos).line, "Cant have more than 255 arguments"@)), st)
            } else {
                let (r, s1) = consume(ts, st, TokenType::Identifier, "Expected parameter name"@);
                match r {
                    Err(m) => (Err(m), s1),
                    Ok(p) => if matches_any(ts, s1.pos, seq![TokenType::Comma]) {
                        as_tokens(grammar(ts, Nt::Params(acc.push(p)), next(s1)))
                    } else {
                        (Ok(acc.push(p)), s1)
                    },
                }
            }
        }),
        Nt::Function(kind) => from_stmt({
            let (rn, s1) = consume(ts, st, TokenType::Identifier, "Expected "@ + kind + " name"@);
            match rn {
                Err(m) => (Err(m), s1),
                Ok(name) => {
                    let (r2, s2) = consume(
                        ts,
                        s1,
                        TokenType::LeftParen,
                        "Expected '(' after "@ + kind + " name"@,
                    );
                    match r2 {
                        Err(m) => (Err(m), s2),
                        Ok(_) => {
                            let (rp, s3) = if !check(ts, s2.pos, TokenType::RightParen) {
                                as_tokens(grammar(ts, Nt::Params(Seq::empty()), s2))
                            } else {
                                (Ok(Seq::empty()), s2)
                            };
                            match rp {
                                Err(m) => (Err(m), s3),
                                Ok(ps) => if fwd(ts, st, s3) {
                                    as_stmt(grammar(ts, Nt::FunctionBody(kind, name, ps), s3))
                                } else {
                                    stray(s3)
                                },
                            }
                        },
                    }
                },
            }
        }),
        Nt::FunctionBody(kind, name, ps) => from_stmt({
            let (r4, s4) = consume(ts, st, TokenType::RightParen, "Expected ')' after parameters."@);
            match r4 {
                Err(m) => (Err(m), s4),
                Ok(_) => {
                    let (r5, s5) = consume(
                        ts,
                        s4,
                        TokenType::LeftBrace,
                        "Expected '{' before "@ + kind + " body."@,
                    );
                    match r5 {
                        Err(m) => (Err(m), s5),
                        Ok(_) => if !ahead(ts, st, s5) {
                            stray(s5)
                        } else {
                            let (rb, s6) = as_stmts(grammar(ts, Nt::BlockItems(Seq::empty()), s5));
                            match rb {
                                Err(m) => (Err(m), s6),
                                Ok(body) => (Ok(StmtV::Function { name, params: ps, body }), s6),
                            }
                        },
                    }
                },
            }
        }),
        Nt::Declaration => from_stmt({
            if matches_any(ts, st.pos, seq![TokenType::Var]) {
                as_stmt(grammar(ts, Nt::VarDeclaration, next(st)))
            } else if matches_any(ts, st.pos, seq![TokenType::Fun]) {
                as_stmt(grammar(ts, Nt::Function("function"@), next(st)))
            } else {
                as_stmt(grammar(ts, Nt::Statement, st))
            }
        }),
    }
}

/// `expression := assignment`
pub open spec fn expression(ts: Seq<TokenView>, st: PState) -> (Result<ExprV, Seq<char>>, PState) {
    as_expr(grammar(ts, Nt::Expression, st))
}

/// `assignment := or ( "=" assignment )?`; the target must be a variable
/// or an element access.
pub open spec fn assignment(ts: Seq<TokenView>, st: PState) -> (Result<ExprV, Seq<char>>, PState) {
    as_expr(grammar(ts, Nt::Assignment, st))
}

/// `or := and ( "or" and )?`
pub open spec fn or_expr(ts: Seq<TokenView>, st: PState) -> (Result<ExprV, Seq<char>>, PState) {
    as_expr(grammar(ts, Nt::Or, st))
}

/// `and := equality ( "and" equality )?`
pub open spec fn and_expr(ts: Seq<TokenView>, st: PState) -> (Result<ExprV, Seq<char>>, PState) {
    as_expr(grammar(ts, Nt::And, st))
}

/// `equality := comparison ( ( "!=" | "==" ) comparison )*`, left-associative.
pub open spec fn equality(ts: Seq<TokenView>, st: PState) -> (Result<ExprV, Seq<char>>, PState) {
    as_expr(grammar(ts, Nt::Equality, st))
}

/// The operator-operand pairs of `equality` after its first operand `e`.
pub open spec fn equality_tail(ts: Seq<TokenView>, e: ExprV, st: PState) -> (Result<ExprV, Seq<char>>, PState) {
    as_expr(grammar(ts, Nt::EqualityTail(e), st))
}

/// `comparison := term ( ( ">" | ">=" | "<" | "<=" ) term )*`, left-associative.
pub open spec fn comparison(ts: Seq<TokenView>, st: PState) -> (Result<ExprV, Seq<char>>, PState) {
    as_expr(grammar(ts, Nt::Comparison, st))
}

/// The operator-operand pairs of `comparison` after its first operand `e`.
pub open spec fn comparison_tail(ts: Seq<TokenView>, e: ExprV, st: PState) -> (Result<ExprV, Seq<char>>, PState) {
    as_expr(grammar(ts, Nt::ComparisonTail(e), st))
}

/// `term := factor ( ( "-" | "+" ) factor )*`, left-associative.
pub open spec fn term(ts: Seq<TokenView>, st: PState) -> (Result<ExprV, Seq<char>>, PState) {
    as_expr(grammar(ts, Nt::Term, st))
}

/// The operator-operand pairs of `term` after its first operand `e`.
pub open spec fn term_tail(ts: Seq<TokenView>, e: ExprV, st: PState) -> (Result<ExprV, Seq<char>>, PState) {
    as_expr(grammar(ts, Nt::TermTail(e), st))
}

/// `factor := unary ( ( "/" | "*" | "%" ) factor )*`: the right operand is
/// itself a factor, so these operators group to the right.
pub open spec fn factor(ts: Seq<TokenView>, st: PState) -> (Result<ExprV, Seq<char>>, PState) {
    as_expr(grammar(ts, Nt::Factor, st))
}

/// The operator-operand pairs of `factor` after its first operand `e`.
pub open spec fn factor_tail(ts: Seq<TokenView>, e: ExprV, st: PState) -> (Result<ExprV, Seq<char>>, PState) {
    as_expr(grammar(ts, Nt::FactorTail(e), st))
}

/// `unary := ( "!" | "-" ) unary | call`
pub open spec fn unary(ts: Seq<TokenView>, st: PState) -> (Result<ExprV, Seq<char>>, PState) {
    as_expr(grammar(ts, Nt::Unary, st))
}

/// `call := primary ( "(" arguments? ")" )*`
pub open spec fn call(ts: Seq<TokenView>, st: PState) -> (Result<ExprV, Seq<char>>, PState) {
    as_expr(grammar(ts, Nt::Call, st))
}

/// The argument lists of `call` after its callee `e`.
pub open spec fn call_tail(ts: Seq<TokenView>, e: ExprV, st: PState) -> (Result<ExprV, Seq<char>>, PState) {
    as_expr(grammar(ts, Nt::CallTail(e), st))
}

/// The arguments of a call after its `(`, and the closing `)`.
pub open spec fn finish_call(ts: Seq<TokenView>, callee: ExprV, st: PState) -> (Result<ExprV, Seq<char>>, PState) {
    as_expr(grammar(ts, Nt::FinishCall(callee), st))
}

/// Call arguments separated by `,`, after the arguments `acc`; more than
/// 255 arguments are refused.
pub open spec fn call_args(ts: Seq<TokenView>, st: PState, acc: Seq<ExprV>) -> (Result<Seq<ExprV>, Seq<char>>, PState) {
    as_exprs(grammar(ts, Nt::CallArgs(acc), st))
}

/// Array elements separated by `,`, after the elements `acc`.
pub open spec fn array_items(ts: Seq<TokenView>, st: PState, acc: Seq<ExprV>) -> (Result<Seq<ExprV>, Seq<char>>, PState) {
    as_exprs(grammar(ts, Nt::ArrayItems(acc), st))
}

/// `primary := "(" expression ")" | "[" elements? "]" | literal
///           | identifier ( "[" expression "]" )?`
/// A variable or an element access takes the next resolution index
/// (an element access after its position has been read).
pub open spec fn primary(ts: Seq<TokenView>, st: PState) -> (Result<ExprV, Seq<char>>, PState) {
    as_expr(grammar(ts, Nt::Primary, st))
}

/// `exprStmt := expression ";"?`
pub open spec fn expr_statement(ts: Seq<TokenView>, st: PState) -> (Result<StmtV, Seq<char>>, PState) {
    as_stmt(grammar(ts, Nt::ExprStatement, st))
}

/// `returnStmt := "return" expression? ";"?` (after the `return`); the
/// value is absent when a `;` follows at once.
pub open spec fn return_statement(ts: Seq<TokenView>, st: PState) -> (Result<StmtV, Seq<char>>, PState) {
    as_stmt(grammar(ts, Nt::ReturnStatement, st))
}

/// `varDecl := "var" identifier ( "=" expression )? ";"?` (after the `var`).
pub open spec fn var_declaration(ts: Seq<TokenView>, st: PState) -> (Result<StmtV, Seq<char>>, PState) {
    as_stmt(grammar(ts, Nt::VarDeclaration, st))
}

/// `whileStmt := "while" "(" expression ")" statement` (after the `while`).
pub open spec fn while_statement(ts: Seq<TokenView>, st: PState) -> (Result<StmtV, Seq<char>>, PState) {
    as_stmt(grammar(ts, Nt::WhileStatement, st))
}

/// The `else` branch of an `if`, when an `else` is next.
pub open spec fn else_branch(ts: Seq<TokenView>, st: PState) -> (Result<Option<Box<StmtV>>, Seq<char>>, PState) {
    as_opt_box(grammar(ts, Nt::ElseBranch, st))
}

/// `ifStmt := "if" "(" expression ")" statement ( "else" statement )?`
/// (after the `if`).
pub open spec fn if_statement(ts: Seq<TokenView>, st: PState) -> (Result<StmtV, Seq<char>>, PState) {
    as_stmt(grammar(ts, Nt::IfStatement, st))
}

/// The initializer of a `for` loop (after its `(`): nothing before a `;`,
/// a variable declaration, or an expression statement.
pub open spec fn for_initializer(ts: Seq<TokenView>, st: PState) -> (Result<Option<StmtV>, Seq<char>>, PState) {
    as_opt_stmt(grammar(ts, Nt::ForInitializer, st))
}

/// An expression unless a token of type `stop` is next.
pub open spec fn optional_expression(ts: Seq<TokenView>, st: PState, stop: TokenType) -> (Result<Option<ExprV>, Seq<char>>, PState) {
    as_opt_expr(grammar(ts, Nt::OptionalExpression(stop), st))
}

/// `forStmt := "for" "(" ( varDecl | exprStmt | ";" ) expression? ";"
///             expression? ")" statement` (after the `for`).
pub open spec fn for_statement(ts: Seq<TokenView>, st: PState) -> (Result<StmtV, Seq<char>>, PState) {
    as_stmt(grammar(ts, Nt::ForStatement, st))
}

/// The rest of a `for` loop that began at `start`, after its initializer.
pub open spec fn for_rest(ts: Seq<TokenView>, initializer: Option<StmtV>, st: PState) -> (Result<StmtV, Seq<char>>, PState) {
    as_stmt(grammar(ts, Nt::ForRest(initializer), st))
}

/// `statement := forStmt | ifStmt | returnStmt | whileStmt | block | exprStmt`
pub open spec fn statement(ts: Seq<TokenView>, st: PState) -> (Result<StmtV, Seq<char>>, PState) {
    as_stmt(grammar(ts, Nt::Statement, st))
}

/// `block := "{" declaration* "}"` (after the `{`).
pub open spec fn block(ts: Seq<TokenView>, st: PState) -> (Result<StmtV, Seq<char>>, PState) {
    as_stmt(grammar(ts, Nt::Block, st))
}

/// The declarations of a block after `acc`, up to and including its `}`.
pub open spec fn block_items(ts: Seq<TokenView>, st: PState, acc: Seq<StmtV>) -> (Result<Seq<StmtV>, Seq<char>>, PState) {
    as_stmts(grammar(ts, Nt::BlockItems(acc), st))
}

/// The parameter names of a function after `acc`, separated by `,`; more
/// than 255 are refused.
pub open spec fn params(ts: Seq<TokenView>, st: PState, acc: Seq<TokenView>) -> (Result<Seq<TokenView>, Seq<char>>, PState) {
    as_tokens(grammar(ts, Nt::Params(acc), st))
}

/// `function := identifier "(" parameters? ")" "{" declaration* "}"`
/// (after the `fun`); `kind` names what is declared in the messages.
pub open spec fn function(ts: Seq<TokenView>, st: PState, kind: Seq<char>) -> (Result<StmtV, Seq<char>>, PState) {
    as_stmt(grammar(ts, Nt::Function(kind), st))
}

/// The rest of a function declaration that began at `start`, after its
/// parameters: `)`, `{`, the body declarations and `}`.
pub open spec fn function_body(ts: Seq<TokenView>, kind: Seq<char>, name: TokenView, ps: Seq<TokenView>, st: PState) -> (Result<StmtV, Seq<char>>, PState) {
    as_stmt(grammar(ts, Nt::FunctionBody(kind, name, ps), st))
}

/// `declaration := "var" varDecl | "fun" function | statement`
pub open spec fn declaration(ts: Seq<TokenView>, st: PState) -> (Result<StmtV, Seq<char>>, PState) {
    as_stmt(grammar(ts, Nt::Declaration, st))
}

/// A logical operation `e op right` whose operator is the token at `p`.
pub open spec fn logical(ts: Seq<TokenView>, e: ExprV, p: int, right: ExprV) -> ExprV {
    ExprV::Logical { left: Box::new(e), operator: tok(ts, p), right: Box::new(right) }
}

/// A binary operation `e op right` whose operator is the token at `p`.
pub open spec fn binary(ts: Seq<TokenView>, e: ExprV, p: int, right: ExprV) -> ExprV {
    ExprV::Binary { left: Box::new(e), operator: tok(ts, p), right: Box::new(right) }
}

/// The operator types of `equality`.
pub open spec fn equality_ops() -> Seq<TokenType> {
    seq![TokenType::BangEqual, TokenType::EqualEqual]
}

/// The operator types of `comparison`.
pub open spec fn comparison_ops() -> Seq<TokenType> {
    seq![TokenType::Greater, TokenType::GreaterEqual, TokenType::Less, TokenType::LessEqual]
}

/// The operator types of `term`.
pub open spec fn term_ops() -> Seq<TokenType> {
    seq![TokenType::Minus, TokenType::Plus]
}

/// The operator types of `factor`.
pub open spec fn factor_ops() -> Seq<TokenType> {
    seq![TokenType::Slash, TokenType::Star, TokenType::Percent]
}

/// The state after reading the literal `t`: one token on, and noting a
/// number whose text is not that of a floating-point number.
pub open spec fn literal_read(t: TokenView, st: PState) -> PState {
    PState {
        pos: st.pos + 1,
        idx: st.idx,
        bad_number: st.bad_number || (t.token_type == TokenType::Number && !float_text(t.lexeme)),
    }
}

/// Whether a token of this type is a literal in an expression.
pub open spec fn literal_token_type(t: TokenType) -> bool {
    t == TokenType::False || t == TokenType::True || t == TokenType::Nil || t == TokenType::Number
        || t == TokenType::String
}

/// The statement a `for` loop stands for: `{ initializer; while (condition)
/// { body; increment } }`, with each part left out when absent and a
/// missing condition read as `true`.
pub open spec fn for_loop(
    initializer: Option<StmtV>,
    condition: Option<ExprV>,
    increment: Option<ExprV>,
    body: StmtV,
) -> StmtV {
    let body = match increment {
        Some(c) => StmtV::Block { statements: seq![body, StmtV::Expression { expr: c }] },
        None => body,
    };
    let condition = match condition {
        Some(c) => c,
        None => ExprV::Literal { literal: LiteralV::Boolean(true) },
    };
    let looped = StmtV::While { condition, body: Box::new(body) };
    match initializer {
        Some(i) => StmtV::Block { statements: seq![i, looped] },
        None => looped,
    }
}

/// The declarations up to the end of file, after the statements `stmts`
/// and the errors `errs`; after an error the parse recovers with
/// `synchronise` and goes on.
pub open spec fn program(
    ts: Seq<TokenView>,
    st: PState,
    stmts: Seq<StmtV>,
    errs: Seq<Seq<char>>,
) -> (Seq<StmtV>, Seq<Seq<char>>, PState)
    decreases ts.len() - st.pos, 50int,
{
    if at_end(ts, st.pos) {
        (stmts, errs, st)
    } else {
        let (r, s1) = declaration(ts, st);
        match r {
            Ok(d) => if ahead(ts, st, s1) {
                program(ts, s1, stmts.push(d), errs)
            } else {
                (stmts, errs, s1)
            },
            Err(m) => {
                let s2 = PState { pos: synchronise(ts, s1.pos), ..s1 };
                if ahead(ts, st, s2) {
                    program(ts, s2, stmts, errs.push(m))
                } else {
                    (stmts, errs.push(m), s2)
                }
            },
        }
    }
}

/// The result of parsing from `st`: the statements when no declaration
/// failed, else all the errors joined by newlines.
pub open spec fn parse_result(ts: Seq<TokenView>, st: PState) -> (
    Result<Seq<StmtV>, Seq<char>>,
    PState,
) {
    let (stmts, errs, s) = program(ts, st, Seq::empty(), Seq::empty());
    (if errs.len() == 0 { Ok(stmts) } else { Err(join(errs, "\n"@)) }, s)
}

/// Whether the tokens hold an end-of-file token at or after `p`.
pub open spec fn eof_from(ts: Seq<TokenView>, p: int) -> bool {
    exists|i: int| p <= i < ts.len() && #[trigger] ts[i].token_type == TokenType::Eof
}

/// The tokens of a successful scan are tokens the parser takes: an
/// end-of-file token lies ahead of their start.
pub proof fn lemma_scanned_tokens_parse(s: Seq<char>)
    ensures
        scan(s) matches ScanOutcome::Tokens(ts, _) ==> eof_from(ts, 0),
{
    lemma_scan_closed_by_eof(s);
    if let ScanOutcome::Tokens(ts, _) = scan(s) {
        assert(ts[ts.len() - 1].token_type == TokenType::Eof);
    }
}

} // verus!
