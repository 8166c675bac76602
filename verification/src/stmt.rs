//! # Statements
//!
//! Statements are the pieces of code that are executed for their effect.
//! A `for` loop has no statement of its own: the parser spells it with
//! `Block` and `While`.

use vstd::prelude::*;
use crate::expr::{expr_text, Expr, ExprV};
use crate::text::{decimal, join, lemma_join_step, push_decimal};
use crate::token::{token_type_name, tokens_view, Token, TokenView};

verus! {

/// A statement of the syntax tree.
#[derive(Debug)]
pub enum Stmt {
    Expression { expr: Expr },
    If { condition: Expr, then_branch: Box<Stmt>, else_branch: Option<Box<Stmt>> },
    Return { value: Option<Expr> },
    Var { name: Token, initializer: Option<Expr> },
    While { condition: Expr, body: Box<Stmt> },
    Block { statements: Vec<Stmt> },
    Function { name: Token, params: Vec<Token>, body: Vec<Stmt> },
}

/// The mathematical value of a `Stmt`.
pub enum StmtV {
    Expression { expr: ExprV },
    If { condition: ExprV, then_branch: Box<StmtV>, else_branch: Option<Box<StmtV>> },
    Return { value: Option<ExprV> },
    Var { name: TokenView, initializer: Option<ExprV> },
    While { condition: ExprV, body: Box<StmtV> },
    Block { statements: Seq<StmtV> },
    Function { name: TokenView, params: Seq<TokenView>, body: Seq<StmtV> },
}

/// The value of an optional expression.
pub open spec fn opt_expr_view(e: Option<Expr>) -> Option<ExprV> {
    match e {
        Some(e) => Some(e.view()),
        None => None,
    }
}

/// The value of an optional statement.
pub open spec fn opt_stmt_view(s: Option<Stmt>) -> Option<StmtV> {
    match s {
        Some(s) => Some(s.view()),
        None => None,
    }
}

impl Stmt {
    /// The value of this statement.
    pub open spec fn view(&self) -> StmtV
        decreases self,
    {
        match self {
            Stmt::Expression { expr } => StmtV::Expression { expr: expr.view() },
            Stmt::If { condition, then_branch, else_branch } => StmtV::If {
                condition: condition.view(),
                then_branch: Box::new(then_branch.view()),
                else_branch: match else_branch {
                    Some(b) => Some(Box::new(b.view())),
                    None => None,
                },
            },
            Stmt::Return { value } => StmtV::Return { value: opt_expr_view(*value) },
            Stmt::Var { name, initializer } => StmtV::Var {
                name: name@,
                initializer: opt_expr_view(*initializer),
            },
            Stmt::While { condition, body } => StmtV::While {
                condition: condition.view(),
                body: Box::new(body.view()),
            },
            Stmt::Block { statements } => StmtV::Block { statements: stmt_views(statements@) },
            Stmt::Function { name, params, body } => StmtV::Function {
                name: name@,
                params: tokens_view(params@),
                body: stmt_views(body@),
            },
        }
    }
}

/// The values of a sequence of statements.
pub open spec fn stmt_views(ss: Seq<Stmt>) -> Seq<StmtV>
    decreases ss,
{
    Seq::new(
        ss.len(),
        |i: int|
            if 0 <= i < ss.len() {
                ss[i].view()
            } else {
                StmtV::Block { statements: Seq::empty() }
            },
    )
}

/// The text of a statement.
pub open spec fn stmt_text(s: StmtV) -> Seq<char>
    decreases s,
{
    match s {
        StmtV::Expression { expr } => expr_text(expr),
        StmtV::Var { name, initializer } => "Variable: "@ + name.lexeme + " ("@ + token_type_name(
            name.token_type,
        ) + ")"@,
        StmtV::While { condition, body } => "while ("@ + expr_text(condition) + ") "@ + stmt_text(
            *body,
        ),
        StmtV::Block { statements } => join(stmt_texts(statements), "\n"@),
        StmtV::If { condition, then_branch, else_branch } => "if "@ + expr_text(condition)
            + " then "@ + stmt_text(*then_branch) + "\n else "@ + match else_branch {
            Some(b) => stmt_text(*b),
            None => Seq::empty(),
        },
        StmtV::Function { name, params, body } => "<function> "@ + name.lexeme + "("@ + decimal(
            params.len(),
        ) + ")"@,
        StmtV::Return { value } => "returning "@ + match value {
            Some(e) => expr_text(e),
            None => Seq::empty(),
        },
    }
}

/// The texts of a sequence of statements.
pub open spec fn stmt_texts(ss: Seq<StmtV>) -> Seq<Seq<char>>
    decreases ss,
{
    Seq::new(ss.len(), |i: int| if 0 <= i < ss.len() { stmt_text(ss[i]) } else { Seq::empty() })
}

impl Stmt {
    /// The text of this statement, as `stmt_text` states it.
    pub fn to_string(&self) -> (text: String)
        ensures
            text@ == stmt_text(self.view()),
        decreases self,
    {
        match self {
            Stmt::Expression { expr } => expr.to_string(),
            Stmt::Var { name, initializer: _ } => {
                let mut out = String::from_str("Variable: ");
                out.append(name.lexeme.as_str());
                out.append(" (");
                out.append(name.token_type.to_string());
                out.append(")");
                out
            },
            Stmt::While { condition, body } => {
                let mut out = String::from_str("while (");
                let c = condition.to_string();
                out.append(c.as_str());
                out.append(") ");
                let b = body.to_string();
                out.append(b.as_str());
                out
            },
            Stmt::Block { statements } => {
                let ghost texts = stmt_texts(stmt_views(statements@));
                let mut out = String::new();
                let mut i: usize = 0;
                while i < statements.len()
                    invariant
                        i <= statements.len(),
                        out@ == join(texts.take(i as int), "\n"@),
                        texts == stmt_texts(stmt_views(statements@)),
                        *self == (Stmt::Block { statements: *statements }),
                    decreases statements.len() - i,
                {
                    proof {
                        lemma_join_step(texts, "\n"@, i as int);
                        assert(decreases_to!(*self => self->Block_statements));
                        assert(self->Block_statements == *statements);
                        assert(decreases_to!(*statements => statements@));
                        assert(decreases_to!(statements@ => statements@[i as int]));
                    }
                    if i > 0 {
                        out.append("\n");
                    }
                    let t = statements[i].to_string();
                    out.append(t.as_str());
                    i = i + 1;
                }
                assert(texts.take(statements.len() as int) =~= texts);
                out
            },
            Stmt::If { condition, then_branch, else_branch } => {
                let else_text = match else_branch {
                    Some(s) => s.to_string(),
                    None => String::new(),
                };
                let mut out = String::from_str("if ");
                let c = condition.to_string();
                out.append(c.as_str());
                out.append(" then ");
                let t = then_branch.to_string();
                out.append(t.as_str());
                out.append("\n else ");
                out.append(else_text.as_str());
                out
            },
            Stmt::Function { name, params, body: _ } => {
                let mut out = String::from_str("<function> ");
                out.append(name.lexeme.as_str());
                out.append("(");
                push_decimal(&mut out, params.len());
                out.append(")");
                out
            },
            Stmt::Return { value } => {
                let mut out = String::from_str("returning ");
                match value {
                    Some(e) => {
                        let t = e.to_string();
                        out.append(t.as_str());
                    },
                    None => {},
                }
                out
            },
        }
    }
}

impl Stmt {
    /// A copy of this statement.
    fn duplicate(&self) -> (r: Stmt)
        ensures
            r.view() == self.view(),
        decreases self,
    {
        match self {
            Stmt::Expression { expr } => Stmt::Expression { expr: expr.clone() },
            Stmt::If { condition, then_branch, else_branch } => {
                let else_branch = match else_branch {
                    Some(b) => Some(Box::new(b.duplicate())),
                    None => None,
                };
                Stmt::If {
                    condition: condition.clone(),
                    then_branch: Box::new(then_branch.duplicate()),
                    else_branch,
                }
            },
            Stmt::Return { value } => {
                let value = match value {
                    Some(e) => Some(e.clone()),
                    None => None,
                };
                Stmt::Return { value }
            },
            Stmt::Var { name, initializer } => {
                let initializer = match initializer {
                    Some(e) => Some(e.clone()),
                    None => None,
                };
                Stmt::Var { name: name.clone(), initializer }
            },
            Stmt::While { condition, body } => Stmt::While {
                condition: condition.clone(),
                body: Box::new(body.duplicate()),
            },
            Stmt::Block { statements } => {
                let mut out_statements: Vec<Stmt> = Vec::new();
                let mut i: usize = 0;
                while i < statements.len()
                    invariant
                        i <= statements.len(),
                        *self == (Stmt::Block { statements: *statements }),
                        out_statements@.len() == i,
                        forall|j: int| 0 <= j < i ==> (#[trigger] out_statements@[j]).view() == statements@[j].view(),
                    decreases statements.len() - i,
                {
                    proof {
                        assert(decreases_to!(*self => self->Block_statements));
                        assert(self->Block_statements == *statements);
                        assert(decreases_to!(*statements => statements@));
                        assert(decreases_to!(statements@ => statements@[i as int]));
                    }
                    out_statements.push(statements[i].duplicate());
                    i = i + 1;
                }
                assert(stmt_views(out_statements@) =~= stmt_views(statements@));
                Stmt::Block { statements: out_statements }
            },
            Stmt::Function { name, params, body } => {
                let mut out_params: Vec<Token> = Vec::new();
                let mut k: usize = 0;
                while k < params.len()
                    invariant
                        k <= params.len(),
                        out_params@.len() == k,
                        forall|j: int| 0 <= j < k ==> (#[trigger] out_params@[j])@ == params@[j]@,
                    decreases params.len() - k,
                {
                    out_params.push(params[k].clone());
                    k = k + 1;
                }
                assert(tokens_view(out_params@) =~= tokens_view(params@));
                let mut out_body: Vec<Stmt> = Vec::new();
                let mut i: usize = 0;
                while i < body.len()
                    invariant
                        i <= body.len(),
                        *self == (Stmt::Function { name: *name, params: *params, body: *body }),
                        out_body@.len() == i,
                        forall|j: int| 0 <= j < i ==> (#[trigger] out_body@[j]).view() == body@[j].view(),
                    decreases body.len() - i,
                {
                    proof {
                        assert(decreases_to!(*self => self->Function_body));
                        assert(self->Function_body == *body);
                        assert(decreases_to!(*body => body@));
                        assert(decreases_to!(body@ => body@[i as int]));
                    }
                    out_body.push(body[i].duplicate());
                    i = i + 1;
                }
                assert(stmt_views(out_body@) =~= stmt_views(body@));
                Stmt::Function { name: name.clone(), params: out_params, body: out_body }
            },
        }
    }
}

impl Clone for Stmt {
    fn clone(&self) -> (r: Self)
        ensures
            r.view() == self.view(),
    {
        self.duplicate()
    }
}

} // verus!
