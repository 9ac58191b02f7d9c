//! The syntax tree of an expression, and its canonical printed form.
use vstd::prelude::*;
use crate::scanner::{self, Token, TokenType};

verus! {

/// The value of a literal expression. A number keeps its decimal digits as
/// written in the source.
#[derive(Debug)]
pub enum LiteralValue {
    Number(String),
    StringValue(String),
    True,
    False,
    Nil,
}

impl Clone for LiteralValue {
    fn clone(&self) -> (r: Self)
        ensures
            r == *self,
    {
        match self {
            LiteralValue::Number(s) => LiteralValue::Number(s.clone()),
            LiteralValue::StringValue(s) => LiteralValue::StringValue(s.clone()),
            LiteralValue::True => LiteralValue::True,
            LiteralValue::False => LiteralValue::False,
            LiteralValue::Nil => LiteralValue::Nil,
        }
    }
}

/// A tree node; each node owns its children, and an operator node owns a
/// copy of the token that produced it.
#[derive(Debug)]
pub enum Expr {
    Binary { left: Box<Expr>, operator: Token, right: Box<Expr> },
    Grouping { expression: Box<Expr> },
    Literal { value: LiteralValue },
    Unary { operator: Token, right: Box<Expr> },
}

// ---------------------------------------------------------------------------
// Decimal text of a number.

/// The index of the first `.` at or after `j`, or the length if none.
pub open spec fn dot_index(t: Seq<char>, j: int) -> int
    decreases t.len() - j,
{
    if 0 <= j < t.len() && t[j] != '.' {
        dot_index(t, j + 1)
    } else {
        j
    }
}

/// Skips leading zeros from `a`, keeping at least one digit before `d`.
pub open spec fn leading_end(t: Seq<char>, a: int, d: int) -> int
    decreases d - a,
{
    if 0 <= a && a + 1 < d && t[a] == '0' {
        leading_end(t, a + 1, d)
    } else {
        a
    }
}

/// Drops trailing zeros of `t[lo..f]`.
pub open spec fn trailing_end(t: Seq<char>, lo: int, f: int) -> int
    decreases f - lo,
{
    if lo < f && f <= t.len() && t[f - 1] == '0' {
        trailing_end(t, lo, f - 1)
    } else {
        f
    }
}

/// The canonical decimal text of a number written as `t`: no leading zeros
/// before the units digit, no trailing zeros after the point, and no point
/// when nothing is left after it (`007.50` reads `7.5`, `3.0` reads `3`).
pub open spec fn number_text(t: Seq<char>) -> Seq<char> {
    let d = dot_index(t, 0);
    let whole = t.subrange(leading_end(t, 0, d), d);
    let f = trailing_end(t, d + 1, t.len() as int);
    if d + 1 < f {
        whole + seq!['.'] + t.subrange(d + 1, f)
    } else {
        whole
    }
}

/// The canonical text of a literal value.
pub open spec fn literal_text(v: LiteralValue) -> Seq<char> {
    match v {
        LiteralValue::Number(s) => number_text(s@),
        LiteralValue::StringValue(s) => s@,
        LiteralValue::True => seq!['t', 'r', 'u', 'e'],
        LiteralValue::False => seq!['f', 'a', 'l', 's', 'e'],
        LiteralValue::Nil => seq!['n', 'i', 'l'],
    }
}

/// The fully parenthesized printed form of an expression.
pub open spec fn expr_text(e: Expr) -> Seq<char>
    decreases e,
{
    match e {
        Expr::Binary { left, operator, right } => seq!['('] + operator.lexeme@ + seq![' ']
            + expr_text(*left) + seq![' '] + expr_text(*right) + seq![')'],
        Expr::Grouping { expression } => seq!['(', 'g', 'r', 'o', 'u', 'p', ' ']
            + expr_text(*expression) + seq![')'],
        Expr::Literal { value } => literal_text(value),
        Expr::Unary { operator, right } => seq!['('] + operator.lexeme@ + seq![' ']
            + expr_text(*right) + seq![')'],
    }
}

/// Whether a token can stand as a literal expression, with the value its
/// kind asks for.
pub open spec fn is_literal_token(t: Token) -> bool {
    match t.token_type {
        TokenType::Number => t.literal matches Some(scanner::LiteralValue::NumberValue(_)),
        TokenType::String => t.literal matches Some(scanner::LiteralValue::StringValue(_)),
        TokenType::True | TokenType::False | TokenType::Nil => true,
        _ => false,
    }
}

/// The literal value that a literal token stands for.
pub open spec fn literal_of(t: Token) -> LiteralValue {
    match t.token_type {
        TokenType::Number => match t.literal {
            Some(scanner::LiteralValue::NumberValue(s)) => LiteralValue::Number(s),
            _ => LiteralValue::Nil,
        },
        TokenType::String => match t.literal {
            Some(scanner::LiteralValue::StringValue(s)) => LiteralValue::StringValue(s),
            _ => LiteralValue::Nil,
        },
        TokenType::True => LiteralValue::True,
        TokenType::False => LiteralValue::False,
        _ => LiteralValue::Nil,
    }
}

/// The decimal digits of a number literal.
fn unwrap_as_number(literal: Option<scanner::LiteralValue>) -> (r: String)
    requires
        literal matches Some(scanner::LiteralValue::NumberValue(_)),
    ensures
        literal == Some(scanner::LiteralValue::NumberValue(r)),
{
    match literal {
        Some(scanner::LiteralValue::NumberValue(s)) => s,
        Some(scanner::LiteralValue::StringValue(s)) => s,
        None => String::new(),
    }
}

/// The contents of a string literal.
pub fn unwrap_as_string(literal: Option<scanner::LiteralValue>) -> (r: String)
    requires
        literal matches Some(scanner::LiteralValue::StringValue(_)),
    ensures
        literal == Some(scanner::LiteralValue::StringValue(r)),
{
    match literal {
        Some(scanner::LiteralValue::StringValue(s)) => s,
        Some(scanner::LiteralValue::NumberValue(s)) => s,
        None => String::new(),
    }
}

/// The canonical decimal text of the number written as `s`.
fn number_to_text(s: &String) -> (r: String)
    ensures
        r@ == number_text(s@),
{
    let t = scanner::chars_of(s.as_str());
    let n = t.len();
    let mut d: usize = 0;
    while d < n && t[d] != '.'
        invariant
            d <= n,
            n == t@.len(),
            dot_index(t@, d as int) == dot_index(t@, 0),
        decreases n - d,
    {
        d = d + 1;
    }
    let mut a: usize = 0;
    while a < d && d - a > 1 && t[a] == '0'
        invariant
            a <= d <= n,
            n == t@.len(),
            leading_end(t@, a as int, d as int) == leading_end(t@, 0, d as int),
        decreases d - a,
    {
        a = a + 1;
    }
    let mut f: usize = n;
    while f > d && f - d > 1 && t[f - 1] == '0'
        invariant
            d <= n,
            f <= n,
            n == t@.len(),
            trailing_end(t@, d + 1, f as int) == trailing_end(t@, d + 1, n as int),
        decreases f,
    {
        f = f - 1;
    }
    let mut r = String::from_str(s.as_str().substring_char(a, d));
    if f > d && f - d > 1 {
        proof {
            reveal_strlit(".");
        }
        r.append(".");
        r.append(s.as_str().substring_char(d + 1, f));
    }
    r
}

impl LiteralValue {
    /// The canonical text: a number as its decimal text, a string as its
    /// contents, and `true`, `false` or `nil`.
    pub fn to_string(&self) -> (r: String)
        ensures
            r@ == literal_text(*self),
    {
        proof {
            reveal_strlit("true");
            reveal_strlit("false");
            reveal_strlit("nil");
        }
        match self {
            LiteralValue::Number(x) => number_to_text(x),
            LiteralValue::StringValue(x) => x.clone(),
            LiteralValue::True => String::from_str("true"),
            LiteralValue::False => String::from_str("false"),
            LiteralValue::Nil => String::from_str("nil"),
        }
    }

    /// The value that a literal token stands for.
    pub fn from_token(token: Token) -> (r: Self)
        requires
            is_literal_token(token),
        ensures
            r == literal_of(token),
    {
        match token.token_type {
            TokenType::Number => Self::Number(unwrap_as_number(token.literal)),
            TokenType::String => Self::StringValue(unwrap_as_string(token.literal)),
            TokenType::False => Self::False,
            TokenType::True => Self::True,
            _ => Self::Nil,
        }
    }
}

impl Expr {
    /// The fully parenthesized printed form: `(op left right)`,
    /// `(op operand)`, `(group inner)`, or a literal's canonical text.
    pub fn to_string(&self) -> (r: String)
        ensures
            r@ == expr_text(*self),
        decreases self,
    {
        proof {
            reveal_strlit("(");
            reveal_strlit(")");
            reveal_strlit(" ");
            reveal_strlit("(group ");
        }
        match self {
            Expr::Unary { operator, right } => {
                let mut r = String::from_str("(");
                r.append(operator.lexeme.as_str());
                r.append(" ");
                let inner = right.to_string();
                r.append(inner.as_str());
                r.append(")");
                r
            },
            Expr::Literal { value } => value.to_string(),
            Expr::Grouping { expression } => {
                let mut r = String::from_str("(group ");
                let inner = expression.to_string();
                r.append(inner.as_str());
                r.append(")");
                r
            },
            Expr::Binary { left, operator, right } => {
                let mut r = String::from_str("(");
                r.append(operator.lexeme.as_str());
                r.append(" ");
                let lhs = left.to_string();
                r.append(lhs.as_str());
                r.append(" ");
                let rhs = right.to_string();
                r.append(rhs.as_str());
                r.append(")");
                r
            },
        }
    }
}

} // verus!
