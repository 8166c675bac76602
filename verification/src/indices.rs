//! The resolution indices that a parse hands out. Each variable, element
//! access and assignment expression carries one; the parser takes them from
//! a counter, so no two of them coincide. The same induction over the
//! grammar shows that a parse of tokens whose numbers are all
//! floating-point numbers reads no bad number.

use vstd::prelude::*;
use crate::expr::ExprV;
use crate::numbers::float_text;
use crate::parse_spec::{
    ahead, as_expr, as_exprs, as_opt_box, as_opt_expr, as_opt_stmt, as_stmt, as_tokens,
    at_end, binary, check, comparison_ops, consume, equality_ops, factor_ops, for_loop, fwd, grammar,
    literal_token_type, matches_any, next, nt_rank, parse_result, program, declaration,
    synchronise, term_ops, tok, Node, Nt, PState,
};
use crate::stmt::StmtV;
use crate::token::{TokenType, TokenView};

verus! {

/// Whether the integers of `s` are pairwise distinct and lie in `[lo, hi)`.
pub open spec fn distinct_in(s: Seq<int>, lo: int, hi: int) -> bool {
    &&& s.no_duplicates()
    &&& forall|i: int| 0 <= i < s.len() ==> lo <= #[trigger] s[i] < hi
}

/// The resolution indices of an expression, in the order they were handed
/// out (an access gets its index after those of its position).
pub open spec fn expr_indices(e: ExprV) -> Seq<int>
    decreases e,
{
    match e {
        ExprV::Array { elements } => exprs_indices(elements),
        ExprV::Access { name, position, index } => expr_indices(*position).push(index),
        ExprV::Binary { left, operator, right } => expr_indices(*left) + expr_indices(*right),
        ExprV::Grouping { expr } => expr_indices(*expr),
        ExprV::Call { callee, paren, args } => expr_indices(*callee) + exprs_indices(args),
        ExprV::Literal { literal } => Seq::empty(),
        ExprV::Logical { left, operator, right } => expr_indices(*left) + expr_indices(*right),
        ExprV::Unary { operator, right } => expr_indices(*right),
        ExprV::Variable { index, name } => seq![index],
        ExprV::Assignment { name, value, position, index } => match position {
            Some(p) => expr_indices(*p).push(index) + expr_indices(*value),
            None => seq![index] + expr_indices(*value),
        },
    }
}

/// The resolution indices of a sequence of expressions.
pub open spec fn exprs_indices(es: Seq<ExprV>) -> Seq<int>
    decreases es,
{
    if es.len() == 0 {
        Seq::empty()
    } else {
        proof {
            assert(decreases_to!(es => es[es.len() - 1]));
        }
        exprs_indices(es.drop_last()) + expr_indices(es[es.len() - 1])
    }
}

/// The resolution indices of an optional expression.
pub open spec fn opt_expr_indices(e: Option<ExprV>) -> Seq<int> {
    match e {
        Some(e) => expr_indices(e),
        None => Seq::empty(),
    }
}

/// The resolution indices of a statement.
pub open spec fn stmt_indices(s: StmtV) -> Seq<int>
    decreases s,
{
    match s {
        StmtV::Expression { expr } => expr_indices(expr),
        StmtV::If { condition, then_branch, else_branch } => expr_indices(condition) + stmt_indices(
            *then_branch,
        ) + match else_branch {
            Some(b) => stmt_indices(*b),
            None => Seq::empty(),
        },
        StmtV::Return { value } => opt_expr_indices(value),
        StmtV::Var { name, initializer } => opt_expr_indices(initializer),
        StmtV::While { condition, body } => expr_indices(condition) + stmt_indices(*body),
        StmtV::Block { statements } => stmts_indices(statements),
        StmtV::Function { name, params, body } => stmts_indices(body),
    }
}

/// The resolution indices of a sequence of statements.
pub open spec fn stmts_indices(ss: Seq<StmtV>) -> Seq<int>
    decreases ss,
{
    if ss.len() == 0 {
        Seq::empty()
    } else {
        proof {
            assert(decreases_to!(ss => ss[ss.len() - 1]));
        }
        stmts_indices(ss.drop_last()) + stmt_indices(ss[ss.len() - 1])
    }
}

/// The resolution indices of an optional statement.
pub open spec fn opt_stmt_indices(s: Option<StmtV>) -> Seq<int> {
    match s {
        Some(s) => stmt_indices(s),
        None => Seq::empty(),
    }
}

/// The resolution indices of a grammar rule's result.
pub open spec fn node_indices(n: Node) -> Seq<int> {
    match n {
        Node::Expr(e) => expr_indices(e),
        Node::Exprs(es) => exprs_indices(es),
        Node::Stmt(s) => stmt_indices(s),
        Node::Stmts(ss) => stmts_indices(ss),
        Node::Tokens(_) => Seq::empty(),
        Node::OptStmt(o) => opt_stmt_indices(o),
        Node::OptExpr(o) => opt_expr_indices(o),
        Node::OptBox(o) => match o {
            Some(b) => stmt_indices(*b),
            None => Seq::empty(),
        },
    }
}

/// The resolution indices in what a grammar rule is handed from before
/// its start (the left operand of a tail, the items read so far).
pub open spec fn carried_indices(nt: Nt) -> Seq<int> {
    match nt {
        Nt::EqualityTail(e) => expr_indices(e),
        Nt::ComparisonTail(e) => expr_indices(e),
        Nt::TermTail(e) => expr_indices(e),
        Nt::FactorTail(e) => expr_indices(e),
        Nt::CallTail(e) => expr_indices(e),
        Nt::FinishCall(e) => expr_indices(e),
        Nt::CallArgs(acc) => exprs_indices(acc),
        Nt::ArrayItems(acc) => exprs_indices(acc),
        Nt::ForRest(i) => opt_stmt_indices(i),
        Nt::BlockItems(acc) => stmts_indices(acc),
        _ => Seq::empty(),
    }
}

/// Whether every number token of `ts` has the text of a floating-point
/// number.
pub open spec fn numbers_are_floats(ts: Seq<TokenView>) -> bool {
    forall|i: int|
        0 <= i < ts.len() && #[trigger] ts[i].token_type == TokenType::Number ==> float_text(
            ts[i].lexeme,
        )
}

/// What a grammar rule run over `ts` from `st`, with what it carries
/// indexed from `lo` on, keeps: the index counter does not go back, the
/// indices of its result are distinct and lie from `lo` up to the counter
/// it leaves, and, where every number token is a floating-point number, no
/// bad number is noted.
pub open spec fn indices_kept(
    ts: Seq<TokenView>,
    r: (Result<Node, Seq<char>>, PState),
    st: PState,
    lo: int,
) -> bool {
    &&& st.idx <= r.1.idx
    &&& (r.0 matches Ok(n) ==> distinct_in(node_indices(n), lo, r.1.idx))
    &&& (numbers_are_floats(ts) ==> r.1.bad_number == st.bad_number)
}

proof fn lemma_join(a: Seq<int>, b: Seq<int>, lo: int, m: int, hi: int)
    requires
        distinct_in(a, lo, m),
        distinct_in(b, m, hi),
        lo <= m <= hi,
    ensures
        distinct_in(a + b, lo, hi),
{
    let c = a + b;
    assert forall|i: int, j: int| 0 <= i < c.len() && 0 <= j < c.len() && i != j implies c[i]
        != c[j] by {
        if i < a.len() {
            assert(c[i] == a[i]);
        } else {
            assert(c[i] == b[i - a.len()]);
        }
        if j < a.len() {
            assert(c[j] == a[j]);
        } else {
            assert(c[j] == b[j - a.len()]);
        }
    }
    assert forall|i: int| 0 <= i < c.len() implies lo <= #[trigger] c[i] < hi by {
        if i < a.len() {
            assert(c[i] == a[i]);
        } else {
            assert(c[i] == b[i - a.len()]);
        }
    }
}

proof fn lemma_join_swapped(a: Seq<int>, b: Seq<int>, lo: int, m: int, hi: int)
    requires
        distinct_in(a, m, hi),
        distinct_in(b, lo, m),
        lo <= m <= hi,
    ensures
        distinct_in(a + b, lo, hi),
{
    let c = a + b;
    assert forall|i: int, j: int| 0 <= i < c.len() && 0 <= j < c.len() && i != j implies c[i]
        != c[j] by {
        if i < a.len() {
            assert(c[i] == a[i]);
        } else {
            assert(c[i] == b[i - a.len()]);
        }
        if j < a.len() {
            assert(c[j] == a[j]);
        } else {
            assert(c[j] == b[j - a.len()]);
        }
    }
    assert forall|i: int| 0 <= i < c.len() implies lo <= #[trigger] c[i] < hi by {
        if i < a.len() {
            assert(c[i] == a[i]);
        } else {
            assert(c[i] == b[i - a.len()]);
        }
    }
}

proof fn lemma_widen(a: Seq<int>, lo: int, hi: int, lo2: int, hi2: int)
    requires
        distinct_in(a, lo, hi),
        lo2 <= lo,
        hi <= hi2,
    ensures
        distinct_in(a, lo2, hi2),
{
}

proof fn lemma_single(x: int, lo: int, hi: int)
    requires
        lo <= x < hi,
    ensures
        distinct_in(seq![x], lo, hi),
{
}

proof fn lemma_exprs_push(acc: Seq<ExprV>, a: ExprV)
    ensures
        exprs_indices(acc.push(a)) == exprs_indices(acc) + expr_indices(a),
{
    assert(acc.push(a).drop_last() =~= acc);
}

proof fn lemma_stmts_push(acc: Seq<StmtV>, a: StmtV)
    ensures
        stmts_indices(acc.push(a)) == stmts_indices(acc) + stmt_indices(a),
{
    assert(acc.push(a).drop_last() =~= acc);
}

proof fn lemma_stmts_pair(a: StmtV, b: StmtV)
    ensures
        stmts_indices(seq![a, b]) == stmt_indices(a) + stmt_indices(b),
{
    lemma_stmts_push(seq![a], b);
    lemma_stmts_push(Seq::empty(), a);
    assert(seq![a, b] =~= seq![a].push(b));
    assert(seq![a] =~= Seq::<StmtV>::empty().push(a));
    assert(Seq::<int>::empty() + stmt_indices(a) =~= stmt_indices(a));
}

/// The indices of the loop a `for` stands for, its parts read in turn.
proof fn lemma_for_loop_indices(
    initializer: Option<StmtV>,
    condition: Option<ExprV>,
    increment: Option<ExprV>,
    body: StmtV,
    lo: int,
    a: int,
    b: int,
    c: int,
    hi: int,
)
    requires
        distinct_in(opt_stmt_indices(initializer), lo, a),
        distinct_in(opt_expr_indices(condition), a, b),
        distinct_in(opt_expr_indices(increment), b, c),
        distinct_in(stmt_indices(body), c, hi),
        lo <= a <= b <= c <= hi,
    ensures
        distinct_in(stmt_indices(for_loop(initializer, condition, increment, body)), lo, hi),
{
    let looped_body = match increment {
        Some(x) => StmtV::Block { statements: seq![body, StmtV::Expression { expr: x }] },
        None => body,
    };
    match increment {
        Some(x) => {
            lemma_stmts_pair(body, StmtV::Expression { expr: x });
            lemma_join_swapped(stmt_indices(body), expr_indices(x), b, c, hi);
        },
        None => {
            lemma_widen(stmt_indices(body), c, hi, b, hi);
        },
    }
    assert(distinct_in(stmt_indices(looped_body), b, hi));
    let cond = match condition {
        Some(x) => x,
        None => ExprV::Literal { literal: crate::expr::LiteralV::Boolean(true) },
    };
    assert(expr_indices(cond) == opt_expr_indices(condition));
    let looped = StmtV::While { condition: cond, body: Box::new(looped_body) };
    lemma_join(expr_indices(cond), stmt_indices(looped_body), a, b, hi);
    assert(distinct_in(stmt_indices(looped), a, hi));
    match initializer {
        Some(i) => {
            lemma_stmts_pair(i, looped);
            lemma_join(stmt_indices(i), stmt_indices(looped), lo, a, hi);
        },
        None => {
            lemma_widen(stmt_indices(looped), a, hi, lo, hi);
        },
    }
}

proof fn lemma_push(a: Seq<int>, x: int, lo: int)
    requires
        distinct_in(a, lo, x),
        lo <= x,
    ensures
        distinct_in(a.push(x), lo, x + 1),
{
    lemma_single(x, x, x + 1);
    lemma_join(a, seq![x], lo, x, x + 1);
    assert(a.push(x) =~= a + seq![x]);
}

/// Every grammar rule keeps the resolution indices distinct: what it
/// returns holds the indices it was handed and those it handed out, each
/// once, and the counter never goes back.
pub proof fn lemma_grammar_indices(ts: Seq<TokenView>, nt: Nt, st: PState, lo: int)
    requires
        lo <= st.idx,
        distinct_in(carried_indices(nt), lo, st.idx),
    ensures
        indices_kept(ts, grammar(ts, nt, st), st, lo),
    decreases ts.len() - st.pos, nt_rank(nt), 1int,
{
    match nt {
        Nt::Expression => lemma_indices_expression(ts, st, lo),
        Nt::Assignment => lemma_indices_assignment(ts, st, lo),
        Nt::Or => lemma_indices_or(ts, st, lo),
        Nt::And => lemma_indices_and(ts, st, lo),
        Nt::Equality => lemma_indices_equality(ts, st, lo),
        Nt::EqualityTail(e) => lemma_indices_equality_tail(ts, st, lo, e),
        Nt::Comparison => lemma_indices_comparison(ts, st, lo),
        Nt::ComparisonTail(e) => lemma_indices_comparison_tail(ts, st, lo, e),
        Nt::Term => lemma_indices_term(ts, st, lo),
        Nt::TermTail(e) => lemma_indices_term_tail(ts, st, lo, e),
        Nt::Factor => lemma_indices_factor(ts, st, lo),
        Nt::FactorTail(e) => lemma_indices_factor_tail(ts, st, lo, e),
        Nt::Unary => lemma_indices_unary(ts, st, lo),
        Nt::Call => lemma_indices_call(ts, st, lo),
        Nt::CallTail(e) => lemma_indices_call_tail(ts, st, lo, e),
        Nt::FinishCall(callee) => lemma_indices_finish_call(ts, st, lo, callee),
        Nt::CallArgs(acc) => lemma_indices_call_args(ts, st, lo, acc),
        Nt::ArrayItems(acc) => lemma_indices_array_items(ts, st, lo, acc),
        Nt::Primary => lemma_indices_primary(ts, st, lo),
        Nt::ExprStatement => lemma_indices_expr_statement(ts, st, lo),
        Nt::ReturnStatement => lemma_indices_return_statement(ts, st, lo),
        Nt::VarDeclaration => lemma_indices_var_declaration(ts, st, lo),
        Nt::WhileStatement => lemma_indices_while_statement(ts, st, lo),
        Nt::ElseBranch => lemma_indices_else_branch(ts, st, lo),
        Nt::IfStatement => lemma_indices_if_statement(ts, st, lo),
        Nt::ForInitializer => lemma_indices_for_initializer(ts, st, lo),
        Nt::OptionalExpression(stop) => lemma_indices_optional_expression(ts, st, lo, stop),
        Nt::ForStatement => lemma_indices_for_statement(ts, st, lo),
        Nt::ForRest(initializer) => lemma_indices_for_rest(ts, st, lo, initializer),
        Nt::Statement => lemma_indices_statement(ts, st, lo),
        Nt::Block => lemma_indices_block(ts, st, lo),
        Nt::BlockItems(acc) => lemma_indices_block_items(ts, st, lo, acc),
        Nt::Params(acc) => lemma_indices_params(ts, st, lo, acc),
        Nt::Function(kind) => lemma_indices_function(ts, st, lo, kind),
        Nt::FunctionBody(kind, name, ps) => lemma_indices_function_body(ts, st, lo, kind, name, ps),
        Nt::Declaration => lemma_indices_declaration(ts, st, lo),
    }
}

proof fn lemma_indices_expression(ts: Seq<TokenView>, st: PState, lo: int)
    requires
        lo <= st.idx,
        distinct_in(carried_indices(Nt::Expression), lo, st.idx),
    ensures
        indices_kept(ts, grammar(ts, Nt::Expression, st), st, lo),
    decreases ts.len() - st.pos, nt_rank(Nt::Expression), 0int,
{
    reveal(grammar);
    lemma_grammar_indices(ts, Nt::Assignment, st, lo);
}

proof fn lemma_indices_assignment(ts: Seq<TokenView>, st: PState, lo: int)
    requires
        lo <= st.idx,
        distinct_in(carried_indices(Nt::Assignment), lo, st.idx),
    ensures
        indices_kept(ts, grammar(ts, Nt::Assignment, st), st, lo),
    decreases ts.len() - st.pos, nt_rank(Nt::Assignment), 0int,
{
    reveal(grammar);
    lemma_grammar_indices(ts, Nt::Or, st, lo);
    let (r, s1) = as_expr(grammar(ts, Nt::Or, st));
    if r is Ok && fwd(ts, st, s1) && matches_any(ts, s1.pos, seq![TokenType::Equal]) {
        lemma_grammar_indices(ts, Nt::Assignment, next(s1), s1.idx);
        let (rv, s2) = as_expr(grammar(ts, Nt::Assignment, next(s1)));
        if rv is Ok {
            lemma_join(expr_indices(r->Ok_0), expr_indices(rv->Ok_0), lo, s1.idx, s2.idx);
        }
    }
}

proof fn lemma_indices_or(ts: Seq<TokenView>, st: PState, lo: int)
    requires
        lo <= st.idx,
        distinct_in(carried_indices(Nt::Or), lo, st.idx),
    ensures
        indices_kept(ts, grammar(ts, Nt::Or, st), st, lo),
    decreases ts.len() - st.pos, nt_rank(Nt::Or), 0int,
{
    reveal(grammar);
    lemma_grammar_indices(ts, Nt::And, st, lo);
    let (r, s1) = as_expr(grammar(ts, Nt::And, st));
    if r is Ok && fwd(ts, st, s1) && matches_any(ts, s1.pos, seq![TokenType::Or]) {
        lemma_grammar_indices(ts, Nt::And, next(s1), s1.idx);
        let (rr, s2) = as_expr(grammar(ts, Nt::And, next(s1)));
        if rr is Ok {
            lemma_join(expr_indices(r->Ok_0), expr_indices(rr->Ok_0), lo, s1.idx, s2.idx);
        }
    }
}

proof fn lemma_indices_and(ts: Seq<TokenView>, st: PState, lo: int)
    requires
        lo <= st.idx,
        distinct_in(carried_indices(Nt::And), lo, st.idx),
    ensures
        indices_kept(ts, grammar(ts, Nt::And, st), st, lo),
    decreases ts.len() - st.pos, nt_rank(Nt::And), 0int,
{
    reveal(grammar);
    lemma_grammar_indices(ts, Nt::Equality, st, lo);
    let (r, s1) = as_expr(grammar(ts, Nt::Equality, st));
    if r is Ok && fwd(ts, st, s1) && matches_any(ts, s1.pos, seq![TokenType::And]) {
        lemma_grammar_indices(ts, Nt::Equality, next(s1), s1.idx);
        let (rr, s2) = as_expr(grammar(ts, Nt::Equality, next(s1)));
        if rr is Ok {
            lemma_join(expr_indices(r->Ok_0), expr_indices(rr->Ok_0), lo, s1.idx, s2.idx);
        }
    }
}

proof fn lemma_indices_equality(ts: Seq<TokenView>, st: PState, lo: int)
    requires
        lo <= st.idx,
        distinct_in(carried_indices(Nt::Equality), lo, st.idx),
    ensures
        indices_kept(ts, grammar(ts, Nt::Equality, st), st, lo),
    decreases ts.len() - st.pos, nt_rank(Nt::Equality), 0int,
{
    reveal(grammar);
    lemma_grammar_indices(ts, Nt::Comparison, st, lo);
    let (r, s1) = as_expr(grammar(ts, Nt::Comparison, st));
    if r is Ok && fwd(ts, st, s1) {
        lemma_grammar_indices(ts, Nt::EqualityTail(r->Ok_0), s1, lo);
    }
}

proof fn lemma_indices_equality_tail(ts: Seq<TokenView>, st: PState, lo: int, e: ExprV)
    requires
        lo <= st.idx,
        distinct_in(carried_indices(Nt::EqualityTail(e)), lo, st.idx),
    ensures
        indices_kept(ts, grammar(ts, Nt::EqualityTail(e), st), st, lo),
    decreases ts.len() - st.pos, nt_rank(Nt::EqualityTail(e)), 0int,
{
    reveal(grammar);
    if matches_any(ts, st.pos, equality_ops()) {
        lemma_grammar_indices(ts, Nt::Comparison, next(st), st.idx);
        let (r, s1) = as_expr(grammar(ts, Nt::Comparison, next(st)));
        if r is Ok && ahead(ts, st, s1) {
            lemma_join(expr_indices(e), expr_indices(r->Ok_0), lo, st.idx, s1.idx);
            lemma_grammar_indices(ts, Nt::EqualityTail(binary(ts, e, st.pos, r->Ok_0)), s1, lo);
        }
    }
}

proof fn lemma_indices_comparison(ts: Seq<TokenView>, st: PState, lo: int)
    requires
        lo <= st.idx,
        distinct_in(carried_indices(Nt::Comparison), lo, st.idx),
    ensures
        indices_kept(ts, grammar(ts, Nt::Comparison, st), st, lo),
    decreases ts.len() - st.pos, nt_rank(Nt::Comparison), 0int,
{
    reveal(grammar);
    lemma_grammar_indices(ts, Nt::Term, st, lo);
    let (r, s1) = as_expr(grammar(ts, Nt::Term, st));
    if r is Ok && fwd(ts, st, s1) {
        lemma_grammar_indices(ts, Nt::ComparisonTail(r->Ok_0), s1, lo);
    }
}

proof fn lemma_indices_comparison_tail(ts: Seq<TokenView>, st: PState, lo: int, e: ExprV)
    requires
        lo <= st.idx,
        distinct_in(carried_indices(Nt::ComparisonTail(e)), lo, st.idx),
    ensures
        indices_kept(ts, grammar(ts, Nt::ComparisonTail(e), st), st, lo),
    decreases ts.len() - st.pos, nt_rank(Nt::ComparisonTail(e)), 0int,
{
    reveal(grammar);
    if matches_any(ts, st.pos, comparison_ops()) {
        lemma_grammar_indices(ts, Nt::Term, next(st), st.idx);
        let (r, s1) = as_expr(grammar(ts, Nt::Term, next(st)));
        if r is Ok && ahead(ts, st, s1) {
            lemma_join(expr_indices(e), expr_indices(r->Ok_0), lo, st.idx, s1.idx);
            lemma_grammar_indices(ts, Nt::ComparisonTail(binary(ts, e, st.pos, r->Ok_0)), s1, lo);
        }
    }
}

proof fn lemma_indices_term(ts: Seq<TokenView>, st: PState, lo: int)
    requires
        lo <= st.idx,
        distinct_in(carried_indices(Nt::Term), lo, st.idx),
    ensures
        indices_kept(ts, grammar(ts, Nt::Term, st), st, lo),
    decreases ts.len() - st.pos, nt_rank(Nt::Term), 0int,
{
    reveal(grammar);
    lemma_grammar_indices(ts, Nt::Factor, st, lo);
    let (r, s1) = as_expr(grammar(ts, Nt::Factor, st));
    if r is Ok && fwd(ts, st, s1) {
        lemma_grammar_indices(ts, Nt::TermTail(r->Ok_0), s1, lo);
    }
}

proof fn lemma_indices_term_tail(ts: Seq<TokenView>, st: PState, lo: int, e: ExprV)
    requires
        lo <= st.idx,
        distinct_in(carried_indices(Nt::TermTail(e)), lo, st.idx),
    ensures
        indices_kept(ts, grammar(ts, Nt::TermTail(e), st), st, lo),
    decreases ts.len() - st.pos, nt_rank(Nt::TermTail(e)), 0int,
{
    reveal(grammar);
    if matches_any(ts, st.pos, term_ops()) {
        lemma_grammar_indices(ts, Nt::Factor, next(st), st.idx);
        let (r, s1) = as_expr(grammar(ts, Nt::Factor, next(st)));
        if r is Ok && ahead(ts, st, s1) {
            lemma_join(expr_indices(e), expr_indices(r->Ok_0), lo, st.idx, s1.idx);
            lemma_grammar_indices(ts, Nt::TermTail(binary(ts, e, st.pos, r->Ok_0)), s1, lo);
        }
    }
}

proof fn lemma_indices_factor(ts: Seq<TokenView>, st: PState, lo: int)
    requires
        lo <= st.idx,
        distinct_in(carried_indices(Nt::Factor), lo, st.idx),
    ensures
        indices_kept(ts, grammar(ts, Nt::Factor, st), st, lo),
    decreases ts.len() - st.pos, nt_rank(Nt::Factor), 0int,
{
    reveal(grammar);
    lemma_grammar_indices(ts, Nt::Unary, st, lo);
    let (r, s1) = as_expr(grammar(ts, Nt::Unary, st));
    if r is Ok && fwd(ts, st, s1) {
        lemma_grammar_indices(ts, Nt::FactorTail(r->Ok_0), s1, lo);
    }
}

proof fn lemma_indices_factor_tail(ts: Seq<TokenView>, st: PState, lo: int, e: ExprV)
    requires
        lo <= st.idx,
        distinct_in(carried_indices(Nt::FactorTail(e)), lo, st.idx),
    ensures
        indices_kept(ts, grammar(ts, Nt::FactorTail(e), st), st, lo),
    decreases ts.len() - st.pos, nt_rank(Nt::FactorTail(e)), 0int,
{
    reveal(grammar);
    if matches_any(ts, st.pos, factor_ops()) {
        lemma_grammar_indices(ts, Nt::Factor, next(st), st.idx);
        let (r, s1) = as_expr(grammar(ts, Nt::Factor, next(st)));
        if r is Ok && ahead(ts, st, s1) {
            lemma_join(expr_indices(e), expr_indices(r->Ok_0), lo, st.idx, s1.idx);
            lemma_grammar_indices(ts, Nt::FactorTail(binary(ts, e, st.pos, r->Ok_0)), s1, lo);
        }
    }
}

proof fn lemma_indices_unary(ts: Seq<TokenView>, st: PState, lo: int)
    requires
        lo <= st.idx,
        distinct_in(carried_indices(Nt::Unary), lo, st.idx),
    ensures
        indices_kept(ts, grammar(ts, Nt::Unary, st), st, lo),
    decreases ts.len() - st.pos, nt_rank(Nt::Unary), 0int,
{
    reveal(grammar);
    if matches_any(ts, st.pos, seq![TokenType::Bang, TokenType::Minus]) {
        lemma_grammar_indices(ts, Nt::Unary, next(st), lo);
    } else {
        lemma_grammar_indices(ts, Nt::Call, st, lo);
    }
}

proof fn lemma_indices_call(ts: Seq<TokenView>, st: PState, lo: int)
    requires
        lo <= st.idx,
        distinct_in(carried_indices(Nt::Call), lo, st.idx),
    ensures
        indices_kept(ts, grammar(ts, Nt::Call, st), st, lo),
    decreases ts.len() - st.pos, nt_rank(Nt::Call), 0int,
{
    reveal(grammar);
    lemma_grammar_indices(ts, Nt::Primary, st, lo);
    let (r, s1) = as_expr(grammar(ts, Nt::Primary, st));
    if r is Ok && fwd(ts, st, s1) {
        lemma_grammar_indices(ts, Nt::CallTail(r->Ok_0), s1, lo);
    }
}

proof fn lemma_indices_call_tail(ts: Seq<TokenView>, st: PState, lo: int, e: ExprV)
    requires
        lo <= st.idx,
        distinct_in(carried_indices(Nt::CallTail(e)), lo, st.idx),
    ensures
        indices_kept(ts, grammar(ts, Nt::CallTail(e), st), st, lo),
    decreases ts.len() - st.pos, nt_rank(Nt::CallTail(e)), 0int,
{
    reveal(grammar);
    if matches_any(ts, st.pos, seq![TokenType::LeftParen]) {
        lemma_grammar_indices(ts, Nt::FinishCall(e), next(st), lo);
        let (r, s1) = as_expr(grammar(ts, Nt::FinishCall(e), next(st)));
        if r is Ok && ahead(ts, st, s1) {
            lemma_grammar_indices(ts, Nt::CallTail(r->Ok_0), s1, lo);
        }
    }
}

proof fn lemma_indices_finish_call(ts: Seq<TokenView>, st: PState, lo: int, callee: ExprV)
    requires
        lo <= st.idx,
        distinct_in(carried_indices(Nt::FinishCall(callee)), lo, st.idx),
    ensures
        indices_kept(ts, grammar(ts, Nt::FinishCall(callee), st), st, lo),
    decreases ts.len() - st.pos, nt_rank(Nt::FinishCall(callee)), 0int,
{
    reveal(grammar);
    if !check(ts, st.pos, TokenType::RightParen) {
        lemma_grammar_indices(ts, Nt::CallArgs(Seq::empty()), st, st.idx);
    }
    let (ra, s1) = if !check(ts, st.pos, TokenType::RightParen) {
        as_exprs(grammar(ts, Nt::CallArgs(Seq::empty()), st))
    } else {
        (Ok(Seq::empty()), st)
    };
    if ra is Ok {
        lemma_join(expr_indices(callee), exprs_indices(ra->Ok_0), lo, st.idx, s1.idx);
    }
}

proof fn lemma_indices_call_args(ts: Seq<TokenView>, st: PState, lo: int, acc: Seq<ExprV>)
    requires
        lo <= st.idx,
        distinct_in(carried_indices(Nt::CallArgs(acc)), lo, st.idx),
    ensures
        indices_kept(ts, grammar(ts, Nt::CallArgs(acc), st), st, lo),
    decreases ts.len() - st.pos, nt_rank(Nt::CallArgs(acc)), 0int,
{
    reveal(grammar);
    if acc.len() < 255 {
        lemma_grammar_indices(ts, Nt::Expression, st, st.idx);
        let (r, s1) = as_expr(grammar(ts, Nt::Expression, st));
        if r is Ok && fwd(ts, st, s1) {
            lemma_exprs_push(acc, r->Ok_0);
            lemma_join(exprs_indices(acc), expr_indices(r->Ok_0), lo, st.idx, s1.idx);
            if matches_any(ts, s1.pos, seq![TokenType::Comma]) {
                lemma_grammar_indices(ts, Nt::CallArgs(acc.push(r->Ok_0)), next(s1), lo);
            }
        }
    }
}

proof fn lemma_indices_array_items(ts: Seq<TokenView>, st: PState, lo: int, acc: Seq<ExprV>)
    requires
        lo <= st.idx,
        distinct_in(carried_indices(Nt::ArrayItems(acc)), lo, st.idx),
    ensures
        indices_kept(ts, grammar(ts, Nt::ArrayItems(acc), st), st, lo),
    decreases ts.len() - st.pos, nt_rank(Nt::ArrayItems(acc)), 0int,
{
    reveal(grammar);
    lemma_grammar_indices(ts, Nt::Expression, st, st.idx);
    let (r, s1) = as_expr(grammar(ts, Nt::Expression, st));
    if r is Ok && fwd(ts, st, s1) {
        lemma_exprs_push(acc, r->Ok_0);
        lemma_join(exprs_indices(acc), expr_indices(r->Ok_0), lo, st.idx, s1.idx);
        if matches_any(ts, s1.pos, seq![TokenType::Comma]) {
            lemma_grammar_indices(ts, Nt::ArrayItems(acc.push(r->Ok_0)), next(s1), lo);
        }
    }
}

proof fn lemma_indices_primary(ts: Seq<TokenView>, st: PState, lo: int)
    requires
        lo <= st.idx,
        distinct_in(carried_indices(Nt::Primary), lo, st.idx),
    ensures
        indices_kept(ts, grammar(ts, Nt::Primary, st), st, lo),
    decreases ts.len() - st.pos, nt_rank(Nt::Primary), 0int,
{
    reveal(grammar);
    let t = tok(ts, st.pos);
    if t.token_type == TokenType::LeftParen {
        lemma_grammar_indices(ts, Nt::Expression, next(st), lo);
        assert(indices_kept(ts, grammar(ts, Nt::Primary, st), st, lo));
    } else if t.token_type == TokenType::LeftBox {
        let s1 = next(st);
        if !check(ts, s1.pos, TokenType::RightBox) {
            lemma_grammar_indices(ts, Nt::ArrayItems(Seq::empty()), s1, lo);
        } else {
            assert(exprs_indices(Seq::empty()) =~= Seq::<int>::empty());
        }
        assert(indices_kept(ts, grammar(ts, Nt::Primary, st), st, lo));
    } else if literal_token_type(t.token_type) {
        assert(indices_kept(ts, grammar(ts, Nt::Primary, st), st, lo));
    } else if t.token_type == TokenType::Identifier {
        let s1 = next(st);
        if matches_any(ts, s1.pos, seq![TokenType::LeftBox]) {
            lemma_grammar_indices(ts, Nt::Expression, next(s1), lo);
            let (r, s2) = as_expr(grammar(ts, Nt::Expression, next(s1)));
            if r is Ok {
                lemma_push(expr_indices(r->Ok_0), s2.idx, lo);
            }
            assert(indices_kept(ts, grammar(ts, Nt::Primary, st), st, lo));
        } else {
            lemma_single(s1.idx, lo, s1.idx + 1);
            assert(indices_kept(ts, grammar(ts, Nt::Primary, st), st, lo));
        }
    }
}

proof fn lemma_indices_expr_statement(ts: Seq<TokenView>, st: PState, lo: int)
    requires
        lo <= st.idx,
        distinct_in(carried_indices(Nt::ExprStatement), lo, st.idx),
    ensures
        indices_kept(ts, grammar(ts, Nt::ExprStatement, st), st, lo),
    decreases ts.len() - st.pos, nt_rank(Nt::ExprStatement), 0int,
{
    reveal(grammar);
    lemma_grammar_indices(ts, Nt::Expression, st, lo);
}

proof fn lemma_indices_return_statement(ts: Seq<TokenView>, st: PState, lo: int)
    requires
        lo <= st.idx,
        distinct_in(carried_indices(Nt::ReturnStatement), lo, st.idx),
    ensures
        indices_kept(ts, grammar(ts, Nt::ReturnStatement, st), st, lo),
    decreases ts.len() - st.pos, nt_rank(Nt::ReturnStatement), 0int,
{
    reveal(grammar);
    if !check(ts, st.pos, TokenType::SemiColon) {
        lemma_grammar_indices(ts, Nt::Expression, st, lo);
    }
}

proof fn lemma_indices_var_declaration(ts: Seq<TokenView>, st: PState, lo: int)
    requires
        lo <= st.idx,
        distinct_in(carried_indices(Nt::VarDeclaration), lo, st.idx),
    ensures
        indices_kept(ts, grammar(ts, Nt::VarDeclaration, st), st, lo),
    decreases ts.len() - st.pos, nt_rank(Nt::VarDeclaration), 0int,
{
    reveal(grammar);
    let (rn, s1) = consume(ts, st, TokenType::Identifier, "Expected variable name"@);
    if rn is Ok && matches_any(ts, s1.pos, seq![TokenType::Equal]) {
        lemma_grammar_indices(ts, Nt::Expression, next(s1), lo);
    }
}

proof fn lemma_indices_while_statement(ts: Seq<TokenView>, st: PState, lo: int)
    requires
        lo <= st.idx,
        distinct_in(carried_indices(Nt::WhileStatement), lo, st.idx),
    ensures
        indices_kept(ts, grammar(ts, Nt::WhileStatement, st), st, lo),
    decreases ts.len() - st.pos, nt_rank(Nt::WhileStatement), 0int,
{
    reveal(grammar);
    let (r0, s1) = consume(ts, st, TokenType::LeftParen, "Expected '(' after 'while'"@);
    if r0 is Ok {
        lemma_grammar_indices(ts, Nt::Expression, s1, lo);
        let (rc, s2) = as_expr(grammar(ts, Nt::Expression, s1));
        if rc is Ok {
            let (r3, s3) = consume(ts, s2, TokenType::RightParen, "Expected ')' after condition"@);
            if r3 is Ok && ahead(ts, st, s3) {
                lemma_grammar_indices(ts, Nt::Statement, s3, s3.idx);
                let (rb, s4) = as_stmt(grammar(ts, Nt::Statement, s3));
                if rb is Ok {
                    lemma_join(expr_indices(rc->Ok_0), stmt_indices(rb->Ok_0), lo, s3.idx, s4.idx);
                }
            }
        }
    }
}

proof fn lemma_indices_else_branch(ts: Seq<TokenView>, st: PState, lo: int)
    requires
        lo <= st.idx,
        distinct_in(carried_indices(Nt::ElseBranch), lo, st.idx),
    ensures
        indices_kept(ts, grammar(ts, Nt::ElseBranch, st), st, lo),
    decreases ts.len() - st.pos, nt_rank(Nt::ElseBranch), 0int,
{
    reveal(grammar);
    if matches_any(ts, st.pos, seq![TokenType::Else]) {
        lemma_grammar_indices(ts, Nt::Statement, next(st), lo);
    }
}

proof fn lemma_indices_if_statement(ts: Seq<TokenView>, st: PState, lo: int)
    requires
        lo <= st.idx,
        distinct_in(carried_indices(Nt::IfStatement), lo, st.idx),
    ensures
        indices_kept(ts, grammar(ts, Nt::IfStatement, st), st, lo),
    decreases ts.len() - st.pos, nt_rank(Nt::IfStatement), 0int,
{
    reveal(grammar);
    let (r0, s1) = consume(ts, st, TokenType::LeftParen, "Expected '(' after 'if'"@);
    if r0 is Ok {
        lemma_grammar_indices(ts, Nt::Expression, s1, lo);
        let (rc, s2) = as_expr(grammar(ts, Nt::Expression, s1));
        if rc is Ok {
            let (r3, s3) = consume(ts, s2, TokenType::RightParen, "Expected ')' after condition"@);
            if r3 is Ok && ahead(ts, st, s3) {
                lemma_grammar_indices(ts, Nt::Statement, s3, s3.idx);
                let (rt, s4) = as_stmt(grammar(ts, Nt::Statement, s3));
                if rt is Ok && ahead(ts, st, s4) {
                    lemma_grammar_indices(ts, Nt::ElseBranch, s4, s4.idx);
                    let (re, s5) = as_opt_box(grammar(ts, Nt::ElseBranch, s4));
                    if re is Ok {
                        let c = expr_indices(rc->Ok_0);
                        let t = stmt_indices(rt->Ok_0);
                        let e = match re->Ok_0 {
                            Some(b) => stmt_indices(*b),
                            None => Seq::empty(),
                        };
                        lemma_join(c, t, lo, s3.idx, s4.idx);
                        lemma_join(c + t, e, lo, s4.idx, s5.idx);
                    }
                }
            }
        }
    }
}

proof fn lemma_indices_for_initializer(ts: Seq<TokenView>, st: PState, lo: int)
    requires
        lo <= st.idx,
        distinct_in(carried_indices(Nt::ForInitializer), lo, st.idx),
    ensures
        indices_kept(ts, grammar(ts, Nt::ForInitializer, st), st, lo),
    decreases ts.len() - st.pos, nt_rank(Nt::ForInitializer), 0int,
{
    reveal(grammar);
    if matches_any(ts, st.pos, seq![TokenType::SemiColon]) {
    } else if matches_any(ts, st.pos, seq![TokenType::Var]) {
        lemma_grammar_indices(ts, Nt::VarDeclaration, next(st), lo);
    } else {
        lemma_grammar_indices(ts, Nt::ExprStatement, st, lo);
    }
}

proof fn lemma_indices_optional_expression(ts: Seq<TokenView>, st: PState, lo: int, stop: TokenType)
    requires
        lo <= st.idx,
        distinct_in(carried_indices(Nt::OptionalExpression(stop)), lo, st.idx),
    ensures
        indices_kept(ts, grammar(ts, Nt::OptionalExpression(stop), st), st, lo),
    decreases ts.len() - st.pos, nt_rank(Nt::OptionalExpression(stop)), 0int,
{
    reveal(grammar);
    if !check(ts, st.pos, stop) {
        lemma_grammar_indices(ts, Nt::Expression, st, lo);
    }
}

proof fn lemma_indices_for_statement(ts: Seq<TokenView>, st: PState, lo: int)
    requires
        lo <= st.idx,
        distinct_in(carried_indices(Nt::ForStatement), lo, st.idx),
    ensures
        indices_kept(ts, grammar(ts, Nt::ForStatement, st), st, lo),
    decreases ts.len() - st.pos, nt_rank(Nt::ForStatement), 0int,
{
    reveal(grammar);
    let (r0, s1) = consume(ts, st, TokenType::LeftParen, "Expected '(' after 'for'"@);
    if r0 is Ok {
        lemma_grammar_indices(ts, Nt::ForInitializer, s1, lo);
        let (ri, s2) = as_opt_stmt(grammar(ts, Nt::ForInitializer, s1));
        if ri is Ok && ahead(ts, st, s2) {
            lemma_grammar_indices(ts, Nt::ForRest(ri->Ok_0), s2, lo);
        }
    }
}

proof fn lemma_indices_for_rest(ts: Seq<TokenView>, st: PState, lo: int, initializer: Option<StmtV>)
    requires
        lo <= st.idx,
        distinct_in(carried_indices(Nt::ForRest(initializer)), lo, st.idx),
    ensures
        indices_kept(ts, grammar(ts, Nt::ForRest(initializer), st), st, lo),
    decreases ts.len() - st.pos, nt_rank(Nt::ForRest(initializer)), 0int,
{
    reveal(grammar);
    lemma_grammar_indices(ts, Nt::OptionalExpression(TokenType::SemiColon), st, st.idx);
    let (rc, s3) = as_opt_expr(grammar(ts, Nt::OptionalExpression(TokenType::SemiColon), st));
    if rc is Ok {
        let (r4, s4) = consume(ts, s3, TokenType::SemiColon, "Expected ';' after condition"@);
        if r4 is Ok && ahead(ts, st, s4) {
            lemma_grammar_indices(ts, Nt::OptionalExpression(TokenType::RightParen), s4, s4.idx);
            let (rx, s5) = as_opt_expr(
                grammar(ts, Nt::OptionalExpression(TokenType::RightParen), s4),
            );
            if rx is Ok {
                let (r6, s6) = consume(ts, s5, TokenType::RightParen, "Expected ')' after clauses"@);
                if r6 is Ok && ahead(ts, st, s6) {
                    lemma_grammar_indices(ts, Nt::Statement, s6, s6.idx);
                    let (rb, s7) = as_stmt(grammar(ts, Nt::Statement, s6));
                    if rb is Ok {
                        lemma_for_loop_indices(
                            initializer,
                            rc->Ok_0,
                            rx->Ok_0,
                            rb->Ok_0,
                            lo,
                            st.idx,
                            s4.idx,
                            s6.idx,
                            s7.idx,
                        );
                    }
                }
            }
        }
    }
}

proof fn lemma_indices_statement(ts: Seq<TokenView>, st: PState, lo: int)
    requires
        lo <= st.idx,
        distinct_in(carried_indices(Nt::Statement), lo, st.idx),
    ensures
        indices_kept(ts, grammar(ts, Nt::Statement, st), st, lo),
    decreases ts.len() - st.pos, nt_rank(Nt::Statement), 0int,
{
    reveal(grammar);
    if matches_any(ts, st.pos, seq![TokenType::For]) {
        lemma_grammar_indices(ts, Nt::ForStatement, next(st), lo);
    } else if matches_any(ts, st.pos, seq![TokenType::If]) {
        lemma_grammar_indices(ts, Nt::IfStatement, next(st), lo);
    } else if matches_any(ts, st.pos, seq![TokenType::Return]) {
        lemma_grammar_indices(ts, Nt::ReturnStatement, next(st), lo);
    } else if matches_any(ts, st.pos, seq![TokenType::While]) {
        lemma_grammar_indices(ts, Nt::WhileStatement, next(st), lo);
    } else if matches_any(ts, st.pos, seq![TokenType::LeftBrace]) {
        lemma_grammar_indices(ts, Nt::Block, next(st), lo);
    } else {
        lemma_grammar_indices(ts, Nt::ExprStatement, st, lo);
    }
}

proof fn lemma_indices_block(ts: Seq<TokenView>, st: PState, lo: int)
    requires
        lo <= st.idx,
        distinct_in(carried_indices(Nt::Block), lo, st.idx),
    ensures
        indices_kept(ts, grammar(ts, Nt::Block, st), st, lo),
    decreases ts.len() - st.pos, nt_rank(Nt::Block), 0int,
{
    reveal(grammar);
    lemma_grammar_indices(ts, Nt::BlockItems(Seq::empty()), st, lo);
}

proof fn lemma_indices_block_items(ts: Seq<TokenView>, st: PState, lo: int, acc: Seq<StmtV>)
    requires
        lo <= st.idx,
        distinct_in(carried_indices(Nt::BlockItems(acc)), lo, st.idx),
    ensures
        indices_kept(ts, grammar(ts, Nt::BlockItems(acc), st), st, lo),
    decreases ts.len() - st.pos, nt_rank(Nt::BlockItems(acc)), 0int,
{
    reveal(grammar);
    if !check(ts, st.pos, TokenType::RightBrace) && !at_end(ts, st.pos) {
        lemma_grammar_indices(ts, Nt::Declaration, st, st.idx);
        let (r, s1) = as_stmt(grammar(ts, Nt::Declaration, st));
        if r is Ok && ahead(ts, st, s1) {
            lemma_stmts_push(acc, r->Ok_0);
            lemma_join(stmts_indices(acc), stmt_indices(r->Ok_0), lo, st.idx, s1.idx);
            lemma_grammar_indices(ts, Nt::BlockItems(acc.push(r->Ok_0)), s1, lo);
        }
    }
}

proof fn lemma_indices_params(ts: Seq<TokenView>, st: PState, lo: int, acc: Seq<TokenView>)
    requires
        lo <= st.idx,
        distinct_in(carried_indices(Nt::Params(acc)), lo, st.idx),
    ensures
        indices_kept(ts, grammar(ts, Nt::Params(acc), st), st, lo),
    decreases ts.len() - st.pos, nt_rank(Nt::Params(acc)), 0int,
{
    reveal(grammar);
    if acc.len() < 255 {
        let (r, s1) = consume(ts, st, TokenType::Identifier, "Expected parameter name"@);
        if r is Ok && matches_any(ts, s1.pos, seq![TokenType::Comma]) {
            lemma_grammar_indices(ts, Nt::Params(acc.push(r->Ok_0)), next(s1), lo);
        }
    }
}

proof fn lemma_indices_function(ts: Seq<TokenView>, st: PState, lo: int, kind: Seq<char>)
    requires
        lo <= st.idx,
        distinct_in(carried_indices(Nt::Function(kind)), lo, st.idx),
    ensures
        indices_kept(ts, grammar(ts, Nt::Function(kind), st), st, lo),
    decreases ts.len() - st.pos, nt_rank(Nt::Function(kind)), 0int,
{
    reveal(grammar);
    let (rn, s1) = consume(ts, st, TokenType::Identifier, "Expected "@ + kind + " name"@);
    if rn is Ok {
        let (r2, s2) = consume(ts, s1, TokenType::LeftParen, "Expected '(' after "@ + kind + " name"@);
        if r2 is Ok {
            if !check(ts, s2.pos, TokenType::RightParen) {
                lemma_grammar_indices(ts, Nt::Params(Seq::empty()), s2, lo);
            }
            let (rp, s3) = if !check(ts, s2.pos, TokenType::RightParen) {
                as_tokens(grammar(ts, Nt::Params(Seq::empty()), s2))
            } else {
                (Ok(Seq::empty()), s2)
            };
            if rp is Ok && fwd(ts, st, s3) {
                lemma_grammar_indices(ts, Nt::FunctionBody(kind, rn->Ok_0, rp->Ok_0), s3, lo);
            }
        }
    }
}

proof fn lemma_indices_function_body(ts: Seq<TokenView>, st: PState, lo: int, kind: Seq<char>, name: TokenView, ps: Seq<TokenView>)
    requires
        lo <= st.idx,
        distinct_in(carried_indices(Nt::FunctionBody(kind, name, ps)), lo, st.idx),
    ensures
        indices_kept(ts, grammar(ts, Nt::FunctionBody(kind, name, ps), st), st, lo),
    decreases ts.len() - st.pos, nt_rank(Nt::FunctionBody(kind, name, ps)), 0int,
{
    reveal(grammar);
    let (r4, s4) = consume(ts, st, TokenType::RightParen, "Expected ')' after parameters."@);
    if r4 is Ok {
        let (r5, s5) = consume(ts, s4, TokenType::LeftBrace, "Expected '{' before "@ + kind + " body."@);
        if r5 is Ok && ahead(ts, st, s5) {
            lemma_grammar_indices(ts, Nt::BlockItems(Seq::empty()), s5, lo);
        }
    }
}

proof fn lemma_indices_declaration(ts: Seq<TokenView>, st: PState, lo: int)
    requires
        lo <= st.idx,
        distinct_in(carried_indices(Nt::Declaration), lo, st.idx),
    ensures
        indices_kept(ts, grammar(ts, Nt::Declaration, st), st, lo),
    decreases ts.len() - st.pos, nt_rank(Nt::Declaration), 0int,
{
    reveal(grammar);
    if matches_any(ts, st.pos, seq![TokenType::Var]) {
        lemma_grammar_indices(ts, Nt::VarDeclaration, next(st), lo);
    } else if matches_any(ts, st.pos, seq![TokenType::Fun]) {
        lemma_grammar_indices(ts, Nt::Function("function"@), next(st), lo);
    } else {
        lemma_grammar_indices(ts, Nt::Statement, st, lo);
    }
}

proof fn lemma_program_indices(
    ts: Seq<TokenView>,
    st: PState,
    stmts: Seq<StmtV>,
    errs: Seq<Seq<char>>,
    lo: int,
)
    requires
        lo <= st.idx,
        distinct_in(stmts_indices(stmts), lo, st.idx),
    ensures
        st.idx <= program(ts, st, stmts, errs).2.idx,
        distinct_in(stmts_indices(program(ts, st, stmts, errs).0), lo, program(ts, st, stmts, errs).2.idx),
        numbers_are_floats(ts) ==> program(ts, st, stmts, errs).2.bad_number == st.bad_number,
    decreases ts.len() - st.pos,
{
    if !at_end(ts, st.pos) {
        lemma_grammar_indices(ts, Nt::Declaration, st, st.idx);
        let (r, s1) = declaration(ts, st);
        match r {
            Ok(d) => {
                if ahead(ts, st, s1) {
                    lemma_stmts_push(stmts, d);
                    lemma_join(stmts_indices(stmts), stmt_indices(d), lo, st.idx, s1.idx);
                    lemma_program_indices(ts, s1, stmts.push(d), errs, lo);
                }
            },
            Err(m) => {
                let s2 = PState { pos: synchronise(ts, s1.pos), ..s1 };
                if ahead(ts, st, s2) {
                    lemma_program_indices(ts, s2, stmts, errs.push(m), lo);
                }
            },
        }
    }
}

/// The resolution indices that a successful parse hands out are pairwise
/// distinct: no two variable, element-access or assignment expressions in
/// its statements share one, and each lies from the counter the parse
/// started with up to the one it ended with.
pub proof fn lemma_parse_indices_distinct(ts: Seq<TokenView>, st: PState)
    ensures
        parse_result(ts, st).0 matches Ok(stmts) ==> distinct_in(
            stmts_indices(stmts),
            st.idx,
            parse_result(ts, st).1.idx,
        ),
{
    lemma_program_indices(ts, st, Seq::empty(), Seq::empty(), st.idx);
}

/// A parse of tokens whose number tokens all have the text of a
/// floating-point number reads no bad number: it ends with the flag it
/// started with.
pub proof fn lemma_parse_reads_no_bad_number(ts: Seq<TokenView>, st: PState)
    requires
        numbers_are_floats(ts),
    ensures
        parse_result(ts, st).1.bad_number == st.bad_number,
{
    lemma_program_indices(ts, st, Seq::empty(), Seq::empty(), st.idx);
}

} // verus!
