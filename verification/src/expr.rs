//! # Expressions
//!
//! Expressions are the pieces of code that evaluate to a value. `Literal` is
//! the value of a literal expression as the parser reads it: a number keeps
//! the text it was written with (turning that text into a floating-point
//! value is left to the runtime), the other kinds hold their value.

use vstd::prelude::*;
use crate::numbers::float_text;
use crate::text::{join, lemma_join_step};
use crate::token::{Token, TokenType, TokenView};

verus! {

/// The value of a literal.
#[derive(Debug, PartialEq)]
pub enum Literal {
    /// A number, as the text it was written with.
    Number(String),
    Str(String),
    Boolean(bool),
    Nil,
    Array(Vec<Literal>),
}

/// The mathematical value of a `Literal`.
pub enum LiteralV {
    Number(Seq<char>),
    Str(Seq<char>),
    Boolean(bool),
    Nil,
    Array(Seq<LiteralV>),
}

impl Literal {
    /// The value of this literal.
    pub open spec fn view(&self) -> LiteralV
        decreases self,
    {
        match self {
            Literal::Number(n) => LiteralV::Number(n@),
            Literal::Str(s) => LiteralV::Str(s@),
            Literal::Boolean(b) => LiteralV::Boolean(*b),
            Literal::Nil => LiteralV::Nil,
            Literal::Array(a) => LiteralV::Array(literal_views(a@)),
        }
    }
}

/// The values of a sequence of literals.
pub open spec fn literal_views(ls: Seq<Literal>) -> Seq<LiteralV>
    decreases ls,
{
    Seq::new(ls.len(), |i: int| if 0 <= i < ls.len() { ls[i].view() } else { LiteralV::Nil })
}

/// The text of a literal: a number as written, a string as it is,
/// `true`/`false`, `nil`, or the elements in brackets separated by `, `.
pub open spec fn literal_text(l: LiteralV) -> Seq<char>
    decreases l,
{
    match l {
        LiteralV::Number(n) => n,
        LiteralV::Str(s) => s,
        LiteralV::Boolean(b) => if b { "true"@ } else { "false"@ },
        LiteralV::Nil => "nil"@,
        LiteralV::Array(a) => "["@ + join(literal_texts(a), ", "@) + "]"@,
    }
}

/// The texts of a sequence of literals.
pub open spec fn literal_texts(ls: Seq<LiteralV>) -> Seq<Seq<char>>
    decreases ls,
{
    Seq::new(ls.len(), |i: int| if 0 <= i < ls.len() { literal_text(ls[i]) } else { Seq::empty() })
}

/// The name of a literal's type.
pub open spec fn literal_type(l: LiteralV) -> Seq<char> {
    match l {
        LiteralV::Number(_) => "Number"@,
        LiteralV::Str(_) => "String"@,
        LiteralV::Boolean(_) => "Boolean"@,
        LiteralV::Nil => "nil"@,
        LiteralV::Array(_) => "array"@,
    }
}

/// Whether a token of this type carries a literal value.
pub open spec fn valued_type(t: TokenType) -> bool {
    t == TokenType::Number || t == TokenType::String || t == TokenType::Identifier
        || t == TokenType::True || t == TokenType::False || t == TokenType::Nil
}

/// The literal value a token carries.
pub open spec fn token_literal(t: TokenView) -> LiteralV {
    if t.token_type == TokenType::Number {
        LiteralV::Number(t.lexeme)
    } else if t.token_type == TokenType::True {
        LiteralV::Boolean(true)
    } else if t.token_type == TokenType::False {
        LiteralV::Boolean(false)
    } else if t.token_type == TokenType::Nil {
        LiteralV::Nil
    } else {
        LiteralV::Str(t.lexeme)
    }
}

/// Whether the digits of a number's text from `i` on, up to an exponent
/// mark or the end, are all zeros (with the decimal point between them).
pub open spec fn zero_digits_from(n: Seq<char>, i: int) -> bool
    decreases n.len() - i,
{
    if i < 0 || i >= n.len() || n[i] == 'e' || n[i] == 'E' {
        true
    } else if n[i] == '0' || n[i] == '.' {
        zero_digits_from(n, i + 1)
    } else {
        false
    }
}

/// Whether a number written as `n` is zero: after an optional sign, its
/// digits up to the exponent are all zeros (`0`, `-0.0`, `0e5`); `inf` and
/// `nan` are not zero.
pub open spec fn zero_number(n: Seq<char>) -> bool {
    zero_digits_from(n, if n.len() > 0 && (n[0] == '+' || n[0] == '-') { 1 } else { 0 })
}

/// Whether a literal counts as true: a nonzero number, a nonempty string
/// or array, or `true`.
pub open spec fn truthy(l: LiteralV) -> bool {
    match l {
        LiteralV::Number(n) => !zero_number(n),
        LiteralV::Str(s) => s.len() != 0,
        LiteralV::Boolean(b) => b,
        LiteralV::Nil => false,
        LiteralV::Array(a) => a.len() != 0,
    }
}

/// What `is_falsy` reports of a literal: a zero number, an empty string or
/// array, and `nil` are falsy; a boolean reports itself.
pub open spec fn falsy(l: LiteralV) -> bool {
    match l {
        LiteralV::Number(n) => zero_number(n),
        LiteralV::Str(s) => s.len() == 0,
        LiteralV::Boolean(b) => b,
        LiteralV::Nil => true,
        LiteralV::Array(a) => a.len() == 0,
    }
}

/// Apart from booleans, a literal is falsy exactly when it is not truthy.
pub proof fn lemma_falsy_is_not_truthy(l: LiteralV)
    requires
        !(l is Boolean),
    ensures
        falsy(l) == !truthy(l),
{
}

/// The digits from `i` on are not all zeros when a digit other than `0`
/// stands at `k`, with no exponent mark between.
proof fn lemma_nonzero_digit_from(n: Seq<char>, i: int, k: int)
    requires
        0 <= i <= k < n.len(),
        '1' <= n[k] <= '9',
        forall|j: int| i <= j < k ==> n[j] != 'e' && n[j] != 'E',
    ensures
        !zero_digits_from(n, i),
    decreases k - i,
{
    if i < k {
        lemma_nonzero_digit_from(n, i + 1, k);
    }
}

/// A number whose text holds a digit `1` to `9` before any exponent mark
/// is not zero: it is truthy and not falsy (`10`, `2.50`, `-0.01`).
pub proof fn lemma_nonzero_digit_is_truthy(n: Seq<char>, k: int)
    requires
        0 <= k < n.len(),
        '1' <= n[k] <= '9',
        forall|j: int| 0 <= j < k ==> n[j] != 'e' && n[j] != 'E',
    ensures
        truthy(LiteralV::Number(n)),
        !falsy(LiteralV::Number(n)),
{
    let start = if n.len() > 0 && (n[0] == '+' || n[0] == '-') { 1int } else { 0int };
    lemma_nonzero_digit_from(n, start, k);
}

/// The digits from `i` on are all zeros when every character from `i` to
/// the end is `0` or `.`.
proof fn lemma_zero_digits_from(n: Seq<char>, i: int)
    requires
        0 <= i,
        forall|j: int| i <= j < n.len() ==> n[j] == '0' || n[j] == '.',
    ensures
        zero_digits_from(n, i),
    decreases n.len() - i,
{
    if i < n.len() {
        lemma_zero_digits_from(n, i + 1);
    }
}

/// A number written with only zeros and points after an optional sign is
/// zero: it is falsy and not truthy (`0`, `-0.0`, `00.000`).
pub proof fn lemma_zero_digits_are_falsy(n: Seq<char>)
    requires
        forall|j: int| 0 < j < n.len() ==> n[j] == '0' || n[j] == '.',
        n.len() > 0 ==> n[0] == '0' || n[0] == '.' || n[0] == '+' || n[0] == '-',
    ensures
        falsy(LiteralV::Number(n)),
        !truthy(LiteralV::Number(n)),
{
    let start = if n.len() > 0 && (n[0] == '+' || n[0] == '-') { 1int } else { 0int };
    lemma_zero_digits_from(n, start);
}

/// Whether the number written as `n` is zero.
fn is_zero_number(n: &str) -> (r: bool)
    ensures
        r == zero_number(n@),
{
    let len = n.unicode_len();
    let mut i: usize = 0;
    if len > 0 {
        let first = n.get_char(0);
        if first == '+' || first == '-' {
            i = 1;
        }
    }
    let ghost start = i as int;
    assert(start == if n@.len() > 0 && (n@[0] == '+' || n@[0] == '-') { 1int } else { 0int });
    while i < len
        invariant
            len == n@.len(),
            i <= len,
            zero_number(n@) == zero_digits_from(n@, start),
            zero_digits_from(n@, start) == zero_digits_from(n@, i as int),
        decreases len - i,
    {
        let c = n.get_char(i);
        if c == 'e' || c == 'E' {
            return true;
        }
        if c != '0' && c != '.' {
            return false;
        }
        i = i + 1;
    }
    true
}

impl Literal {
    /// The text of this literal. A number shows the text it was written
    /// with (`1.0`, `2.50`), not the shortest form of its floating-point
    /// value (`1`, `2.5`).
    pub fn to_string(&self) -> (text: String)
        ensures
            text@ == literal_text(self.view()),
        decreases self,
    {
        match self {
            Literal::Number(n) => {
                let r = n.clone();
                assert(r@ == n@);
                assert(self.view() == LiteralV::Number(n@));
                r
            },
            Literal::Str(s) => s.clone(),
            Literal::Boolean(b) => {
                if *b {
                    String::from_str("true")
                } else {
                    String::from_str("false")
                }
            },
            Literal::Nil => String::from_str("nil"),
            Literal::Array(a) => {
                let ghost texts = literal_texts(literal_views(a@));
                assert(self.view() matches LiteralV::Array(els) && els.len() == a@.len());
                let mut out = String::from_str("[");
                let ghost prefix = out@;
                let mut i: usize = 0;
                while i < a.len()
                    invariant
                        i <= a.len(),
                        out@ == prefix + join(texts.take(i as int), ", "@),
                        texts.len() == a@.len(),
                        *self == Literal::Array(*a),
                        prefix == "["@,
                        forall|j: int| 0 <= j < a@.len() ==> texts[j] == literal_text(#[trigger] a@[j].view()),
                    decreases a.len() - i,
                {
                    proof {
                        assert(decreases_to!(*self => self->Array_0));
                        assert(self->Array_0 == *a);
                        assert(decreases_to!(*a => a@));
                        assert(decreases_to!(a@ => a@[i as int]));
                    }
                    proof {
                        lemma_join_step(texts, ", "@, i as int);
                    }
                    if i > 0 {
                        out.append(", ");
                    }
                    let t = a[i].to_string();
                    out.append(t.as_str());
                    i = i + 1;
                }
                assert(texts.take(a.len() as int) =~= texts);
                out.append("]");
                assert(out@ == literal_text(self.view()));
                out
            },
        }
    }

    /// The name of this literal's type.
    pub fn to_type(&self) -> (s: &'static str)
        ensures
            s@ == literal_type(self.view()),
    {
        match self {
            Literal::Number(_) => "Number",
            Literal::Str(_) => "String",
            Literal::Boolean(_) => "Boolean",
            Literal::Nil => "nil",
            Literal::Array(_) => "array",
        }
    }

    /// Whether this literal is falsy, as a boolean literal. A boolean
    /// reports its own value.
    pub fn is_falsy(&self) -> (r: Literal)
        ensures
            r.view() == LiteralV::Boolean(falsy(self.view())),
    {
        match self {
            Literal::Number(n) => Literal::Boolean(is_zero_number(n.as_str())),
            Literal::Str(s) => Literal::Boolean(s.as_str().is_empty()),
            Literal::Boolean(b) => Literal::Boolean(*b),
            Literal::Array(a) => Literal::Boolean(a.len() == 0),
            Literal::Nil => Literal::Boolean(true),
        }
    }

    /// Whether this literal counts as true.
    pub fn is_truthy(&self) -> (r: bool)
        ensures
            r == truthy(self.view()),
    {
        match self {
            Literal::Number(n) => !is_zero_number(n.as_str()),
            Literal::Str(s) => !s.as_str().is_empty(),
            Literal::Boolean(b) => *b,
            Literal::Array(a) => a.len() != 0,
            Literal::Nil => false,
        }
    }

    /// The literal value a token carries: numbers and strings keep their
    /// text, an identifier gives a string of its name. A number's text must
    /// be that of a floating-point number.
    pub fn from_token(token: Token) -> (l: Self)
        requires
            valued_type(token.token_type),
            token.token_type == TokenType::Number ==> float_text(token.lexeme@),
        ensures
            l.view() == token_literal(token@),
    {
        match token.token_type {
            TokenType::Number => Literal::Number(token.lexeme),
            TokenType::String => Literal::Str(token.lexeme),
            TokenType::Identifier => Literal::Str(token.lexeme),
            TokenType::True => Literal::Boolean(true),
            TokenType::False => Literal::Boolean(false),
            _ => Literal::Nil,
        }
    }
}

impl Literal {
    /// A copy of this literal.
    fn duplicate(&self) -> (r: Literal)
        ensures
            r.view() == self.view(),
        decreases self,
    {
        match self {
            Literal::Number(n) => Literal::Number(n.clone()),
            Literal::Str(t) => Literal::Str(t.clone()),
            Literal::Boolean(b) => Literal::Boolean(*b),
            Literal::Nil => Literal::Nil,
            Literal::Array(a) => {
                let mut out: Vec<Literal> = Vec::new();
                let mut i: usize = 0;
                while i < a.len()
                    invariant
                        i <= a.len(),
                        *self == Literal::Array(*a),
                        out@.len() == i,
                        forall|j: int| 0 <= j < i ==> (#[trigger] out@[j]).view() == a@[j].view(),
                    decreases a.len() - i,
                {
                    proof {
                        assert(decreases_to!(*self => self->Array_0));
                        assert(self->Array_0 == *a);
                        assert(decreases_to!(*a => a@));
                        assert(decreases_to!(a@ => a@[i as int]));
                    }
                    out.push(a[i].duplicate());
                    i = i + 1;
                }
                assert(literal_views(out@) =~= literal_views(a@));
                Literal::Array(out)
            },
        }
    }
}

impl Clone for Literal {
    fn clone(&self) -> (r: Self)
        ensures
            r.view() == self.view(),
    {
        self.duplicate()
    }
}

/// An expression of the syntax tree.
#[derive(Debug)]
pub enum Expr {
    Array { elements: Vec<Expr> },
    Access { name: Token, position: Box<Expr>, index: usize },
    Binary { left: Box<Expr>, operator: Token, right: Box<Expr> },
    Grouping { expr: Box<Expr> },
    Call { callee: Box<Expr>, paren: Token, args: Vec<Expr> },
    Literal { literal: Literal },
    Logical { left: Box<Expr>, operator: Token, right: Box<Expr> },
    Unary { operator: Token, right: Box<Expr> },
    Variable { index: usize, name: Token },
    Assignment { name: Token, value: Box<Expr>, position: Option<Box<Expr>>, index: usize },
}

/// The mathematical value of an `Expr`.
pub enum ExprV {
    Array { elements: Seq<ExprV> },
    Access { name: TokenView, position: Box<ExprV>, index: int },
    Binary { left: Box<ExprV>, operator: TokenView, right: Box<ExprV> },
    Grouping { expr: Box<ExprV> },
    Call { callee: Box<ExprV>, paren: TokenView, args: Seq<ExprV> },
    Literal { literal: LiteralV },
    Logical { left: Box<ExprV>, operator: TokenView, right: Box<ExprV> },
    Unary { operator: TokenView, right: Box<ExprV> },
    Variable { index: int, name: TokenView },
    Assignment { name: TokenView, value: Box<ExprV>, position: Option<Box<ExprV>>, index: int },
}

impl Expr {
    /// The value of this expression.
    pub open spec fn view(&self) -> ExprV
        decreases self,
    {
        match self {
            Expr::Array { elements } => ExprV::Array { elements: expr_views(elements@) },
            Expr::Access { name, position, index } => ExprV::Access {
                name: name@,
                position: Box::new(position.view()),
                index: *index as int,
            },
            Expr::Binary { left, operator, right } => ExprV::Binary {
                left: Box::new(left.view()),
                operator: operator@,
                right: Box::new(right.view()),
            },
            Expr::Grouping { expr } => ExprV::Grouping { expr: Box::new(expr.view()) },
            Expr::Call { callee, paren, args } => ExprV::Call {
                callee: Box::new(callee.view()),
                paren: paren@,
                args: expr_views(args@),
            },
            Expr::Literal { literal } => ExprV::Literal { literal: literal.view() },
            Expr::Logical { left, operator, right } => ExprV::Logical {
                left: Box::new(left.view()),
                operator: operator@,
                right: Box::new(right.view()),
            },
            Expr::Unary { operator, right } => ExprV::Unary {
                operator: operator@,
                right: Box::new(right.view()),
            },
            Expr::Variable { index, name } => ExprV::Variable { index: *index as int, name: name@ },
            Expr::Assignment { name, value, position, index } => ExprV::Assignment {
                name: name@,
                value: Box::new(value.view()),
                position: match position {
                    Some(p) => Some(Box::new(p.view())),
                    None => None,
                },
                index: *index as int,
            },
        }
    }
}

/// The values of a sequence of expressions.
pub open spec fn expr_views(es: Seq<Expr>) -> Seq<ExprV>
    decreases es,
{
    Seq::new(
        es.len(),
        |i: int| if 0 <= i < es.len() { es[i].view() } else { ExprV::Literal { literal: LiteralV::Nil } },
    )
}

/// The text of an expression. Binary operators come first
/// (`+ 1 2`), logical operands stand in backquotes, a call shows its
/// closing parenthesis' lexeme only.
pub open spec fn expr_text(e: ExprV) -> Seq<char>
    decreases e,
{
    match e {
        ExprV::Access { name, position, index } => name.lexeme + "["@ + expr_text(*position) + "]"@,
        ExprV::Array { elements } => "["@ + join(expr_texts(elements), ", "@) + "]"@,
        ExprV::Binary { left, operator, right } => operator.lexeme + " "@ + expr_text(*left) + " "@
            + expr_text(*right),
        ExprV::Grouping { expr } => "("@ + expr_text(*expr) + ")"@,
        ExprV::Literal { literal } => literal_text(literal),
        ExprV::Unary { operator, right } => operator.lexeme + expr_text(*right),
        ExprV::Variable { index, name } => name.lexeme,
        ExprV::Assignment { name, value, position, index } => name.lexeme + " = "@ + expr_text(
            *value,
        ),
        ExprV::Logical { left, operator, right } => "`"@ + expr_text(*left) + "` "@
            + operator.lexeme + " `"@ + expr_text(*right) + "`"@,
        ExprV::Call { callee, paren, args } => "function "@ + paren.lexeme + "()"@,
    }
}

/// The texts of a sequence of expressions.
pub open spec fn expr_texts(es: Seq<ExprV>) -> Seq<Seq<char>>
    decreases es,
{
    Seq::new(es.len(), |i: int| if 0 <= i < es.len() { expr_text(es[i]) } else { Seq::empty() })
}

impl Expr {
    /// The text of this expression, as `expr_text` states it. A number
    /// literal shows the text it was written with, not the shortest form of
    /// its floating-point value.
    pub fn to_string(&self) -> (text: String)
        ensures
            text@ == expr_text(self.view()),
        decreases self,
    {
        match self {
            Expr::Access { name, position, index: _ } => {
                let mut out = name.lexeme.clone();
                out.append("[");
                let inner = position.to_string();
                out.append(inner.as_str());
                out.append("]");
                out
            },
            Expr::Array { elements } => {
                let ghost texts = expr_texts(expr_views(elements@));
                let mut out = String::from_str("[");
                let ghost prefix = out@;
                let mut i: usize = 0;
                while i < elements.len()
                    invariant
                        i <= elements.len(),
                        out@ == prefix + join(texts.take(i as int), ", "@),
                        texts == expr_texts(expr_views(elements@)),
                        *self == (Expr::Array { elements: *elements }),
                        prefix == "["@,
                    decreases elements.len() - i,
                {
                    proof {
                        lemma_join_step(texts, ", "@, i as int);
                        assert(decreases_to!(*self => self->Array_elements));
                        assert(self->Array_elements == *elements);
                        assert(decreases_to!(*elements => elements@));
                        assert(decreases_to!(elements@ => elements@[i as int]));
                    }
                    if i > 0 {
                        out.append(", ");
                    }
                    let t = elements[i].to_string();
                    out.append(t.as_str());
                    i = i + 1;
                }
                assert(texts.take(elements.len() as int) =~= texts);
                out.append("]");
                out
            },
            Expr::Binary { left, operator, right } => {
                let mut out = operator.lexeme.clone();
                out.append(" ");
                let l = left.to_string();
                out.append(l.as_str());
                out.append(" ");
                let r = right.to_string();
                out.append(r.as_str());
                out
            },
            Expr::Grouping { expr } => {
                let mut out = String::from_str("(");
                let inner = expr.to_string();
                out.append(inner.as_str());
                out.append(")");
                out
            },
            Expr::Literal { literal } => literal.to_string(),
            Expr::Unary { operator, right } => {
                let mut out = operator.lexeme.clone();
                let r = right.to_string();
                out.append(r.as_str());
                out
            },
            Expr::Variable { index: _, name } => name.lexeme.clone(),
            Expr::Assignment { name, value, position: _, index: _ } => {
                let mut out = name.lexeme.clone();
                out.append(" = ");
                let v = value.to_string();
                out.append(v.as_str());
                out
            },
            Expr::Logical { left, operator, right } => {
                let mut out = String::from_str("`");
                let l = left.to_string();
                out.append(l.as_str());
                out.append("` ");
                out.append(operator.lexeme.as_str());
                out.append(" `");
                let r = right.to_string();
                out.append(r.as_str());
                out.append("`");
                out
            },
            Expr::Call { callee: _, paren, args: _ } => {
                let mut out = String::from_str("function ");
                out.append(paren.lexeme.as_str());
                out.append("()");
                out
            },
        }
    }

    /// An array expression.
    pub fn array(elements: Vec<Expr>) -> (e: Self)
        ensures
            e.view() == (ExprV::Array { elements: expr_views(elements@) }),
    {
        Expr::Array { elements }
    }

    /// An element access `name[position]`.
    pub fn access(name: Token, position: Expr, index: usize) -> (e: Self)
        ensures
            e.view() == (ExprV::Access {
                name: name@,
                position: Box::new(position.view()),
                index: index as int,
            }),
    {
        Expr::Access { name, position: Box::new(position), index }
    }

    /// A binary operation.
    pub fn new_binary(left: Expr, operator: Token, right: Expr) -> (e: Self)
        ensures
            e.view() == (ExprV::Binary {
                left: Box::new(left.view()),
                operator: operator@,
                right: Box::new(right.view()),
            }),
    {
        Expr::Binary { left: Box::new(left), operator, right: Box::new(right) }
    }

    /// A parenthesised expression.
    pub fn new_grouping(expr: Expr) -> (e: Self)
        ensures
            e.view() == (ExprV::Grouping { expr: Box::new(expr.view()) }),
    {
        Expr::Grouping { expr: Box::new(expr) }
    }

    /// A literal expression.
    pub fn new_literal(literal: Literal) -> (e: Self)
        ensures
            e.view() == (ExprV::Literal { literal: literal.view() }),
    {
        Expr::Literal { literal }
    }

    /// A logical operation (`and`, `or`).
    pub fn new_logical(left: Expr, operator: Token, right: Expr) -> (e: Self)
        ensures
            e.view() == (ExprV::Logical {
                left: Box::new(left.view()),
                operator: operator@,
                right: Box::new(right.view()),
            }),
    {
        Expr::Logical { left: Box::new(left), operator, right: Box::new(right) }
    }

    /// A unary operation.
    pub fn create_unary(operator: Token, right: Expr) -> (e: Self)
        ensures
            e.view() == (ExprV::Unary { operator: operator@, right: Box::new(right.view()) }),
    {
        Expr::Unary { operator, right: Box::new(right) }
    }

    /// A variable reference with its resolution index.
    pub fn create_variable(name: Token, index: usize) -> (e: Self)
        ensures
            e.view() == (ExprV::Variable { index: index as int, name: name@ }),
    {
        Expr::Variable { index, name }
    }

    /// An assignment, to a variable or (with a position) to an element.
    pub fn create_assigment(name: Token, value: Expr, position: Option<Box<Expr>>, index: usize) -> (e: Self)
        ensures
            e.view() == (ExprV::Assignment {
                name: name@,
                value: Box::new(value.view()),
                position: match position {
                    Some(p) => Some(Box::new(p.view())),
                    None => None,
                },
                index: index as int,
            }),
    {
        Expr::Assignment { name, value: Box::new(value), position, index }
    }

    /// A call.
    pub fn create_call(callee: Expr, paren: Token, args: Vec<Expr>) -> (e: Self)
        ensures
            e.view() == (ExprV::Call {
                callee: Box::new(callee.view()),
                paren: paren@,
                args: expr_views(args@),
            }),
    {
        Expr::Call { callee: Box::new(callee), paren, args }
    }
}

impl Expr {
    /// A copy of this expression.
    fn duplicate(&self) -> (r: Expr)
        ensures
            r.view() == self.view(),
        decreases self,
    {
        match self {
            Expr::Array { elements } => {
                let mut out: Vec<Expr> = Vec::new();
                let mut i: usize = 0;
                while i < elements.len()
                    invariant
                        i <= elements.len(),
                        *self == (Expr::Array { elements: *elements }),
                        out@.len() == i,
                        forall|j: int| 0 <= j < i ==> (#[trigger] out@[j]).view() == elements@[j].view(),
                    decreases elements.len() - i,
                {
                    proof {
                        assert(decreases_to!(*self => self->Array_elements));
                        assert(self->Array_elements == *elements);
                        assert(decreases_to!(*elements => elements@));
                        assert(decreases_to!(elements@ => elements@[i as int]));
                    }
                    out.push(elements[i].duplicate());
                    i = i + 1;
                }
                assert(expr_views(out@) =~= expr_views(elements@));
                Expr::Array { elements: out }
            },
            Expr::Access { name, position, index } => Expr::Access {
                name: name.clone(),
                position: Box::new(position.duplicate()),
                index: *index,
            },
            Expr::Binary { left, operator, right } => Expr::Binary {
                left: Box::new(left.duplicate()),
                operator: operator.clone(),
                right: Box::new(right.duplicate()),
            },
            Expr::Grouping { expr } => Expr::Grouping { expr: Box::new(expr.duplicate()) },
            Expr::Call { callee, paren, args } => {
                let mut out: Vec<Expr> = Vec::new();
                let mut i: usize = 0;
                while i < args.len()
                    invariant
                        i <= args.len(),
                        *self == (Expr::Call { callee: *callee, paren: *paren, args: *args }),
                        out@.len() == i,
                        forall|j: int| 0 <= j < i ==> (#[trigger] out@[j]).view() == args@[j].view(),
                    decreases args.len() - i,
                {
                    proof {
                        assert(decreases_to!(*self => self->Call_args));
                        assert(self->Call_args == *args);
                        assert(decreases_to!(*args => args@));
                        assert(decreases_to!(args@ => args@[i as int]));
                    }
                    out.push(args[i].duplicate());
                    i = i + 1;
                }
                assert(expr_views(out@) =~= expr_views(args@));
                Expr::Call { callee: Box::new(callee.duplicate()), paren: paren.clone(), args: out }
            },
            Expr::Literal { literal } => Expr::Literal { literal: literal.clone() },
            Expr::Logical { left, operator, right } => Expr::Logical {
                left: Box::new(left.duplicate()),
                operator: operator.clone(),
                right: Box::new(right.duplicate()),
            },
            Expr::Unary { operator, right } => Expr::Unary {
                operator: operator.clone(),
                right: Box::new(right.duplicate()),
            },
            Expr::Variable { index, name } => Expr::Variable { index: *index, name: name.clone() },
            Expr::Assignment { name, value, position, index } => {
                let position = match position {
                    Some(p) => Some(Box::new(p.duplicate())),
                    None => None,
                };
                Expr::Assignment {
                    name: name.clone(),
                    value: Box::new(value.duplicate()),
                    position,
                    index: *index,
                }
            },
        }
    }
}

impl Clone for Expr {
    fn clone(&self) -> (r: Self)
        ensures
            r.view() == self.view(),
    {
        self.duplicate()
    }
}

} // verus!
