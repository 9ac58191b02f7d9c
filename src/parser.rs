//! Recursive-descent parser with one function per precedence level.
use vstd::prelude::*;
use crate::expr::{Expr, LiteralValue, is_literal_token, literal_of};
use crate::scanner::{Token, TokenType};

verus! {

/// Why a token sequence is not an expression. The parse stops at the first.
#[derive(Debug)]
pub enum ParseError {
    ExpectedToken { expected: TokenType, found: Token, line: usize },
    ExpectedExpression { found: Token, line: usize },
}

/// A token sequence that a parser can walk: it ends with end-of-input.
pub open spec fn valid_tokens(toks: Seq<Token>) -> bool {
    toks.len() > 0 && toks.last().token_type == TokenType::EOF
}

/// Whether `k` is an operator of the left-associative level `level`:
/// equality, comparison, term and factor, lowest first.
pub open spec fn level_op(level: nat, k: TokenType) -> bool {
    if level == 0 {
        k == TokenType::BangEqual || k == TokenType::EqualEqual
    } else if level == 1 {
        k == TokenType::Greater || k == TokenType::GreaterEqual || k == TokenType::Less
            || k == TokenType::LessEqual
    } else if level == 2 {
        k == TokenType::Minus || k == TokenType::Plus
    } else {
        k == TokenType::Slash || k == TokenType::Star
    }
}

/// What a grammar rule yields at a position: the tree and the position
/// after it, or the first error.
pub type Parsed = Result<(Expr, int), ParseError>;

pub open spec fn binary_node(left: Expr, operator: Token, right: Expr) -> Expr {
    Expr::Binary { left: Box::new(left), operator, right: Box::new(right) }
}

/// Orders the levels for the definitions below: level 3 and above count as
/// factor.
pub open spec fn level_rank(level: nat) -> int {
    if level < 3 {
        level as int
    } else {
        3
    }
}

/// `expression -> equality`.
pub open spec fn parse_expression(toks: Seq<Token>, p: int) -> Parsed
    decreases toks.len() - p, 13int,
{
    parse_binary(toks, p, 0)
}

/// An operand of level `level`: the next level up, or a unary expression
/// above factor.
pub open spec fn parse_operand(toks: Seq<Token>, p: int, level: nat) -> Parsed
    decreases toks.len() - p, 11 - 2 * level_rank(level),
{
    if level < 3 {
        parse_binary(toks, p, level + 1)
    } else {
        parse_unary(toks, p)
    }
}

/// A left-associative level: `operand (op operand)*`, folded to the left.
/// (Every result lies past where it started; the comparison below only
/// lets the definition be seen to end.)
pub open spec fn parse_binary(toks: Seq<Token>, p: int, level: nat) -> Parsed
    decreases toks.len() - p, 12 - 2 * level_rank(level),
{
    match parse_operand(toks, p, level) {
        Ok((left, q)) => if p < q <= toks.len() {
            binary_rest(toks, left, q, level)
        } else {
            Ok((left, q))
        },
        Err(e) => Err(e),
    }
}

/// The `(op operand)*` part of a level, with `left` parsed so far.
pub open spec fn binary_rest(toks: Seq<Token>, left: Expr, q: int, level: nat) -> Parsed
    decreases toks.len() - q, 11 - 2 * level_rank(level),
{
    if 0 <= q < toks.len() && level_op(level, toks[q].token_type) {
        match parse_operand(toks, q + 1, level) {
            Ok((right, r)) => {
                let e = binary_node(left, toks[q], right);
                if q < r <= toks.len() {
                    binary_rest(toks, e, r, level)
                } else {
                    Ok((e, r))
                }
            },
            Err(err) => Err(err),
        }
    } else {
        Ok((left, q))
    }
}

/// `unary -> ("!" | "-") unary | primary`.
pub open spec fn parse_unary(toks: Seq<Token>, p: int) -> Parsed
    decreases toks.len() - p, 3int,
{
    if 0 <= p < toks.len() && (toks[p].token_type == TokenType::Bang || toks[p].token_type
        == TokenType::Minus) {
        match parse_unary(toks, p + 1) {
            Ok((right, q)) => Ok((Expr::Unary { operator: toks[p], right: Box::new(right) }, q)),
            Err(e) => Err(e),
        }
    } else {
        parse_primary(toks, p)
    }
}

/// `primary -> NUMBER | STRING | "true" | "false" | "nil" | "(" expression ")"`.
pub open spec fn parse_primary(toks: Seq<Token>, p: int) -> Parsed
    decreases toks.len() - p, 2int,
{
    if 0 <= p < toks.len() && is_literal_token(toks[p]) {
        Ok((Expr::Literal { value: literal_of(toks[p]) }, p + 1))
    } else if 0 <= p < toks.len() && toks[p].token_type == TokenType::LeftParen {
        match parse_expression(toks, p + 1) {
            Ok((inner, q)) => if 0 <= q < toks.len() && toks[q].token_type
                == TokenType::RightParen {
                Ok((Expr::Grouping { expression: Box::new(inner) }, q + 1))
            } else {
                Err(
                    ParseError::ExpectedToken {
                        expected: TokenType::RightParen,
                        found: toks[q],
                        line: toks[q].line_number,
                    },
                )
            },
            Err(e) => Err(e),
        }
    } else {
        Err(ParseError::ExpectedExpression { found: toks[p], line: toks[p].line_number })
    }
}

/// A parse result with its position seen as an integer.
pub open spec fn parsed_as(r: Result<(Expr, usize), ParseError>) -> Parsed {
    match r {
        Ok((e, q)) => Ok((e, q as int)),
        Err(e) => Err(e),
    }
}

/// The expression at the start of `toks`, or the first error.
pub open spec fn parse_spec(toks: Seq<Token>) -> Result<Expr, ParseError> {
    match parse_expression(toks, 0) {
        Ok((e, _)) => Ok(e),
        Err(e) => Err(e),
    }
}

/// A cursor over a token sequence that ends with end-of-input.
pub struct Parser {
    tokens: Vec<Token>,
    current: usize,
}

fn is_literal(t: &Token) -> (r: bool)
    ensures
        r == is_literal_token(*t),
{
    match t.token_type {
        TokenType::Number => matches!(t.literal, Some(crate::scanner::LiteralValue::NumberValue(_))),
        TokenType::String => matches!(t.literal, Some(crate::scanner::LiteralValue::StringValue(_))),
        TokenType::True | TokenType::False | TokenType::Nil => true,
        _ => false,
    }
}

impl Parser {
    /// The tokens walked.
    pub closed spec fn token_seq(&self) -> Seq<Token> {
        self.tokens@
    }

    /// The index of the next token to read.
    pub closed spec fn position(&self) -> int {
        self.current as int
    }

    pub open spec fn wf(&self) -> bool {
        valid_tokens(self.token_seq()) && 0 <= self.position() < self.token_seq().len()
    }

    /// A parser at the start of `tokens`.
    pub fn new(tokens: Vec<Token>) -> (r: Self)
        ensures
            r.token_seq() == tokens@,
            r.position() == 0,
    {
        Self { tokens, current: 0 }
    }

    /// Whether the token at `p` is of kind `kind`.
    fn check(&self, p: usize, kind: TokenType) -> (r: bool)
        requires
            p < self.tokens.len(),
        ensures
            r == (self.tokens@[p as int].token_type == kind),
    {
        self.tokens[p].token_type == kind
    }

    /// `expression -> equality`.
    fn expression(&self, p: usize) -> (r: Result<(Expr, usize), ParseError>)
        requires
            self.wf(),
            p < self.tokens.len(),
        ensures
            parsed_as(r) == parse_expression(self.tokens@, p as int),
            r matches Ok((_, q)) ==> p < q < self.tokens.len(),
        decreases self.tokens.len() - p, 13int,
    {
        self.equality(p)
    }

    /// `equality -> comparison (("!=" | "==") comparison)*`, folded to the left.
    fn equality(&self, p: usize) -> (r: Result<(Expr, usize), ParseError>)
        requires
            self.wf(),
            p < self.tokens.len(),
        ensures
            parsed_as(r) == parse_binary(self.tokens@, p as int, 0),
            r matches Ok((_, q)) ==> p < q < self.tokens.len(),
        decreases self.tokens.len() - p, 12 - 2 * level_rank(0),
    {
        let ghost toks = self.tokens@;
        let n = self.tokens.len();
        proof {
            assert(parse_operand(toks, p as int, 0) == parse_binary(toks, p as int, 1));
        }
        match self.comparison(p) {
            Err(e) => Err(e),
            Ok((first, q0)) => {
                let mut expr = first;
                let mut q = q0;
                while q < n && (
                        self.check(q, TokenType::BangEqual)
                        || self.check(q, TokenType::EqualEqual)
                )
                    invariant
                        self.wf(),
                        toks == self.tokens@,
                        n == toks.len(),
                        p < q < n,
                        binary_rest(toks, expr, q as int, 0) == parse_binary(toks, p as int, 0),
                    decreases n - q,
                {
                    let operator = self.tokens[q].clone();
                    proof {
                        assert(parse_operand(toks, q + 1, 0) == parse_binary(toks, q + 1, 1));
                    }
                    match self.comparison(q + 1) {
                        Err(e) => {
                            return Err(e);
                        },
                        Ok((right, next)) => {
                            expr = Expr::Binary {
                                left: Box::new(expr),
                                operator,
                                right: Box::new(right),
                            };
                            q = next;
                        },
                    }
                }
                Ok((expr, q))
            },
        }
    }

    /// `comparison -> term ((">" | ">=" | "<" | "<=") term)*`, folded to the left.
    fn comparison(&self, p: usize) -> (r: Result<(Expr, usize), ParseError>)
        requires
            self.wf(),
            p < self.tokens.len(),
        ensures
            parsed_as(r) == parse_binary(self.tokens@, p as int, 1),
            r matches Ok((_, q)) ==> p < q < self.tokens.len(),
        decreases self.tokens.len() - p, 12 - 2 * level_rank(1),
    {
        let ghost toks = self.tokens@;
        let n = self.tokens.len();
        proof {
            assert(parse_operand(toks, p as int, 1) == parse_binary(toks, p as int, 2));
        }
        match self.term(p) {
            Err(e) => Err(e),
            Ok((first, q0)) => {
                let mut expr = first;
                let mut q = q0;
                while q < n && (
                        self.check(q, TokenType::Greater)
                        || self.check(q, TokenType::GreaterEqual)
                        || self.check(q, TokenType::Less)
                        || self.check(q, TokenType::LessEqual)
                )
                    invariant
                        self.wf(),
                        toks == self.tokens@,
                        n == toks.len(),
                        p < q < n,
                        binary_rest(toks, expr, q as int, 1) == parse_binary(toks, p as int, 1),
                    decreases n - q,
                {
                    let operator = self.tokens[q].clone();
                    proof {
                        assert(parse_operand(toks, q + 1, 1) == parse_binary(toks, q + 1, 2));
                    }
                    match self.term(q + 1) {
                        Err(e) => {
                            return Err(e);
                        },
                        Ok((right, next)) => {
                            expr = Expr::Binary {
                                left: Box::new(expr),
                                operator,
                                right: Box::new(right),
                            };
                            q = next;
                        },
                    }
                }
                Ok((expr, q))
            },
        }
    }

    /// `term -> factor (("-" | "+") factor)*`, folded to the left.
    fn term(&self, p: usize) -> (r: Result<(Expr, usize), ParseError>)
        requires
            self.wf(),
            p < self.tokens.len(),
        ensures
            parsed_as(r) == parse_binary(self.tokens@, p as int, 2),
            r matches Ok((_, q)) ==> p < q < self.tokens.len(),
        decreases self.tokens.len() - p, 12 - 2 * level_rank(2),
    {
        let ghost toks = self.tokens@;
        let n = self.tokens.len();
        proof {
            assert(parse_operand(toks, p as int, 2) == parse_binary(toks, p as int, 3));
        }
        match self.factor(p) {
            Err(e) => Err(e),
            Ok((first, q0)) => {
                let mut expr = first;
                let mut q = q0;
                while q < n && (self.check(q, TokenType::Minus) || self.check(q, TokenType::Plus))
                    invariant
                        self.wf(),
                        toks == self.tokens@,
                        n == toks.len(),
                        p < q < n,
                        binary_rest(toks, expr, q as int, 2) == parse_binary(toks, p as int, 2),
                    decreases n - q,
                {
                    let operator = self.tokens[q].clone();
                    proof {
                        assert(parse_operand(toks, q + 1, 2) == parse_binary(toks, q + 1, 3));
                    }
                    match self.factor(q + 1) {
                        Err(e) => {
                            return Err(e);
                        },
                        Ok((right, next)) => {
                            expr = Expr::Binary {
                                left: Box::new(expr),
                                operator,
                                right: Box::new(right),
                            };
                            q = next;
                        },
                    }
                }
                Ok((expr, q))
            },
        }
    }

    /// `factor -> unary (("/" | "*") unary)*`, folded to the left.
    fn factor(&self, p: usize) -> (r: Result<(Expr, usize), ParseError>)
        requires
            self.wf(),
            p < self.tokens.len(),
        ensures
            parsed_as(r) == parse_binary(self.tokens@, p as int, 3),
            r matches Ok((_, q)) ==> p < q < self.tokens.len(),
        decreases self.tokens.len() - p, 12 - 2 * level_rank(3),
    {
        let ghost toks = self.tokens@;
        let n = self.tokens.len();
        proof {
            assert(parse_operand(toks, p as int, 3) == parse_unary(toks, p as int));
        }
        match self.unary(p) {
            Err(e) => Err(e),
            Ok((first, q0)) => {
                let mut expr = first;
                let mut q = q0;
                while q < n && (self.check(q, TokenType::Slash) || self.check(q, TokenType::Star))
                    invariant
                        self.wf(),
                        toks == self.tokens@,
                        n == toks.len(),
                        p < q < n,
                        binary_rest(toks, expr, q as int, 3) == parse_binary(toks, p as int, 3),
                    decreases n - q,
                {
                    let operator = self.tokens[q].clone();
                    proof {
                        assert(parse_operand(toks, q + 1, 3) == parse_unary(toks, q + 1));
                    }
                    match self.unary(q + 1) {
                        Err(e) => {
                            return Err(e);
                        },
                        Ok((right, next)) => {
                            expr = Expr::Binary {
                                left: Box::new(expr),
                                operator,
                                right: Box::new(right),
                            };
                            q = next;
                        },
                    }
                }
                Ok((expr, q))
            },
        }
    }

    /// `unary -> ("!" | "-") unary | primary`: only a prefix operator leads
    /// back here, so every call moves forward.
    fn unary(&self, p: usize) -> (r: Result<(Expr, usize), ParseError>)
        requires
            self.wf(),
            p < self.tokens.len(),
        ensures
            parsed_as(r) == parse_unary(self.tokens@, p as int),
            r matches Ok((_, q)) ==> p < q < self.tokens.len(),
        decreases self.tokens.len() - p, 3int,
    {
        if self.check(p, TokenType::Bang) || self.check(p, TokenType::Minus) {
            let operator = self.tokens[p].clone();
            match self.unary(p + 1) {
                Ok((right, q)) => Ok((Expr::Unary { operator, right: Box::new(right) }, q)),
                Err(e) => Err(e),
            }
        } else {
            self.primary(p)
        }
    }

    /// `primary -> NUMBER | STRING | "true" | "false" | "nil" | "(" expression ")"`.
    fn primary(&self, p: usize) -> (r: Result<(Expr, usize), ParseError>)
        requires
            self.wf(),
            p < self.tokens.len(),
        ensures
            parsed_as(r) == parse_primary(self.tokens@, p as int),
            r matches Ok((_, q)) ==> p < q < self.tokens.len(),
        decreases self.tokens.len() - p, 2int,
    {
        if is_literal(&self.tokens[p]) {
            let value = LiteralValue::from_token(self.tokens[p].clone());
            Ok((Expr::Literal { value }, p + 1))
        } else if self.check(p, TokenType::LeftParen) {
            match self.expression(p + 1) {
                Err(e) => Err(e),
                Ok((inner, q)) => {
                    if self.check(q, TokenType::RightParen) {
                        Ok((Expr::Grouping { expression: Box::new(inner) }, q + 1))
                    } else {
                        Err(
                            ParseError::ExpectedToken {
                                expected: TokenType::RightParen,
                                found: self.tokens[q].clone(),
                                line: self.tokens[q].line_number,
                            },
                        )
                    }
                },
            }
        } else {
            Err(
                ParseError::ExpectedExpression {
                    found: self.tokens[p].clone(),
                    line: self.tokens[p].line_number,
                },
            )
        }
    }

    /// Parses one expression from the current token on. On success the
    /// cursor moves past the expression; tokens left before end-of-input
    /// are the caller's concern. On failure the cursor stays and the first
    /// error is returned.
    pub fn parse(&mut self) -> (r: Result<Expr, ParseError>)
        requires
            old(self).wf(),
        ensures
            final(self).wf(),
            final(self).token_seq() == old(self).token_seq(),
            match parse_expression(old(self).token_seq(), old(self).position()) {
                Ok((e, q)) => r == Ok::<Expr, ParseError>(e) && final(self).position() == q,
                Err(err) => r == Err::<Expr, ParseError>(err) && final(self).position()
                    == old(self).position(),
            },
    {
        match self.expression(self.current) {
            Ok((e, q)) => {
                self.current = q;
                Ok(e)
            },
            Err(err) => Err(err),
        }
    }
}

/// Parses the expression at the start of `tokens`.
pub fn parse(tokens: Vec<Token>) -> (r: Result<Expr, ParseError>)
    requires
        valid_tokens(tokens@),
    ensures
        r == parse_spec(tokens@),
{
    let mut parser = Parser::new(tokens);
    parser.parse()
}

// ---------------------------------------------------------------------------
// Laws of the grammar.

/// The literal expression of a literal token.
pub open spec fn lit(t: Token) -> Expr {
    Expr::Literal { value: literal_of(t) }
}

proof fn lemma_literal_unary(toks: Seq<Token>, p: int)
    requires
        0 <= p < toks.len(),
        is_literal_token(toks[p]),
    ensures
        parse_unary(toks, p) == Ok::<(Expr, int), ParseError>((lit(toks[p]), p + 1)),
{
    assert(parse_primary(toks, p) == Ok::<(Expr, int), ParseError>((lit(toks[p]), p + 1)));
}

/// A unary expression followed by a token that no binary level takes is a
/// whole operand at every level.
proof fn lemma_operand_alone(toks: Seq<Token>, p: int, e: Expr, q: int, level: nat)
    requires
        p < q < toks.len(),
        level <= 3,
        parse_unary(toks, p) == Ok::<(Expr, int), ParseError>((e, q)),
        forall|l: nat| level <= l <= 3 ==> !#[trigger] level_op(l, toks[q].token_type),
    ensures
        parse_binary(toks, p, level) == Ok::<(Expr, int), ParseError>((e, q)),
    decreases 3 - level,
{
    if level < 3 {
        lemma_operand_alone(toks, p, e, q, level + 1);
    }
    assert(!level_op(level, toks[q].token_type));
}

/// A literal at `p` followed by a token that no binary level takes is a
/// whole operand at every level.
proof fn lemma_literal_alone(toks: Seq<Token>, p: int, level: nat)
    requires
        0 <= p,
        p + 1 < toks.len(),
        level <= 3,
        is_literal_token(toks[p]),
        forall|l: nat| level <= l <= 3 ==> !#[trigger] level_op(l, toks[p + 1].token_type),
    ensures
        parse_binary(toks, p, level) == Ok::<(Expr, int), ParseError>((lit(toks[p]), p + 1)),
{
    lemma_literal_unary(toks, p);
    lemma_operand_alone(toks, p, lit(toks[p]), p + 1, level);
}

/// The rest of every level below `level` adds nothing at end of input.
proof fn lemma_rest_at_end(toks: Seq<Token>, e: Expr, q: int, level: nat)
    requires
        0 <= q < toks.len(),
        toks[q].token_type == TokenType::EOF,
    ensures
        binary_rest(toks, e, q, level) == Ok::<(Expr, int), ParseError>((e, q)),
{
}

/// Operators of one level group to the left: literals `a`, `b`, `c` with
/// `+` or `-` between them read as `(a op b) op c`, never `a op (b op c)`.
pub proof fn lemma_left_associative(toks: Seq<Token>)
    requires
        toks.len() == 6,
        is_literal_token(toks[0]),
        is_literal_token(toks[2]),
        is_literal_token(toks[4]),
        level_op(2, toks[1].token_type),
        level_op(2, toks[3].token_type),
        toks[5].token_type == TokenType::EOF,
    ensures
        parse_spec(toks) == Ok::<Expr, ParseError>(
            binary_node(binary_node(lit(toks[0]), toks[1], lit(toks[2])), toks[3], lit(toks[4])),
        ),
{
    let inner = binary_node(lit(toks[0]), toks[1], lit(toks[2]));
    let outer = binary_node(inner, toks[3], lit(toks[4]));
    lemma_literal_alone(toks, 0, 3);
    lemma_literal_alone(toks, 2, 3);
    lemma_literal_alone(toks, 4, 3);
    assert(parse_operand(toks, 0, 2) == parse_binary(toks, 0, 3));
    assert(parse_operand(toks, 2, 2) == parse_binary(toks, 2, 3));
    assert(parse_operand(toks, 4, 2) == parse_binary(toks, 4, 3));
    assert(parse_operand(toks, 0, 1) == parse_binary(toks, 0, 2));
    assert(parse_operand(toks, 0, 0) == parse_binary(toks, 0, 1));
    assert(binary_rest(toks, outer, 5, 2) == Ok::<(Expr, int), ParseError>((outer, 5)));
    assert(binary_rest(toks, inner, 3, 2) == Ok::<(Expr, int), ParseError>((outer, 5)));
    assert(binary_rest(toks, lit(toks[0]), 1, 2) == Ok::<(Expr, int), ParseError>((outer, 5)));
    assert(parse_binary(toks, 0, 2) == Ok::<(Expr, int), ParseError>((outer, 5)));
    lemma_rest_at_end(toks, outer, 5, 1);
    lemma_rest_at_end(toks, outer, 5, 0);
    assert(parse_binary(toks, 0, 1) == Ok::<(Expr, int), ParseError>((outer, 5)));
    assert(parse_binary(toks, 0, 0) == Ok::<(Expr, int), ParseError>((outer, 5)));
}

/// A factor operator binds tighter than a term operator: `a + b * c` (any
/// of `+ -` then any of `* /`) reads as `a + (b * c)`.
pub proof fn lemma_factor_binds_tighter(toks: Seq<Token>)
    requires
        toks.len() == 6,
        is_literal_token(toks[0]),
        is_literal_token(toks[2]),
        is_literal_token(toks[4]),
        level_op(2, toks[1].token_type),
        level_op(3, toks[3].token_type),
        toks[5].token_type == TokenType::EOF,
    ensures
        parse_spec(toks) == Ok::<Expr, ParseError>(
            binary_node(lit(toks[0]), toks[1], binary_node(lit(toks[2]), toks[3], lit(toks[4]))),
        ),
{
    let right = binary_node(lit(toks[2]), toks[3], lit(toks[4]));
    let whole = binary_node(lit(toks[0]), toks[1], right);
    lemma_literal_alone(toks, 0, 3);
    lemma_literal_alone(toks, 4, 3);
    lemma_literal_unary(toks, 2);
    assert(parse_operand(toks, 0, 2) == parse_binary(toks, 0, 3));
    assert(parse_operand(toks, 2, 2) == parse_binary(toks, 2, 3));
    assert(parse_operand(toks, 2, 3) == parse_unary(toks, 2));
    assert(parse_operand(toks, 4, 3) == parse_unary(toks, 4));
    assert(parse_operand(toks, 0, 1) == parse_binary(toks, 0, 2));
    assert(parse_operand(toks, 0, 0) == parse_binary(toks, 0, 1));
    lemma_literal_unary(toks, 4);
    assert(binary_rest(toks, right, 5, 3) == Ok::<(Expr, int), ParseError>((right, 5)));
    assert(binary_rest(toks, lit(toks[2]), 3, 3) == Ok::<(Expr, int), ParseError>((right, 5)));
    assert(parse_binary(toks, 2, 3) == Ok::<(Expr, int), ParseError>((right, 5)));
    assert(binary_rest(toks, right, 5, 2) == Ok::<(Expr, int), ParseError>((right, 5)));
    lemma_rest_at_end(toks, whole, 5, 2);
    assert(binary_rest(toks, lit(toks[0]), 1, 2) == Ok::<(Expr, int), ParseError>((whole, 5)));
    assert(parse_binary(toks, 0, 2) == Ok::<(Expr, int), ParseError>((whole, 5)));
    lemma_rest_at_end(toks, whole, 5, 1);
    lemma_rest_at_end(toks, whole, 5, 0);
    assert(parse_binary(toks, 0, 1) == Ok::<(Expr, int), ParseError>((whole, 5)));
    assert(parse_binary(toks, 0, 0) == Ok::<(Expr, int), ParseError>((whole, 5)));
}

/// Prefix operators nest to the right and the parse ends: two of `!` or
/// `-` before a literal read as `(op1 (op2 a))`.
pub proof fn lemma_unary_nests(toks: Seq<Token>)
    requires
        toks.len() == 4,
        toks[0].token_type == TokenType::Bang || toks[0].token_type == TokenType::Minus,
        toks[1].token_type == TokenType::Bang || toks[1].token_type == TokenType::Minus,
        is_literal_token(toks[2]),
        toks[3].token_type == TokenType::EOF,
    ensures
        parse_spec(toks) == Ok::<Expr, ParseError>(
            Expr::Unary {
                operator: toks[0],
                right: Box::new(Expr::Unary { operator: toks[1], right: Box::new(lit(toks[2])) }),
            },
        ),
{
    let e = Expr::Unary {
        operator: toks[0],
        right: Box::new(Expr::Unary { operator: toks[1], right: Box::new(lit(toks[2])) }),
    };
    lemma_literal_unary(toks, 2);
    assert(parse_unary(toks, 1) == Ok::<(Expr, int), ParseError>(
        (Expr::Unary { operator: toks[1], right: Box::new(lit(toks[2])) }, 3),
    ));
    assert(parse_unary(toks, 0) == Ok::<(Expr, int), ParseError>((e, 3)));
    lemma_operand_alone(toks, 0, e, 3, 0);
}

/// One term operator between two literals, followed by a token that no
/// binary level takes, is a whole expression.
proof fn lemma_single_term(toks: Seq<Token>, p: int)
    requires
        0 <= p,
        p + 3 < toks.len(),
        is_literal_token(toks[p]),
        level_op(2, toks[p + 1].token_type),
        is_literal_token(toks[p + 2]),
        forall|l: nat| l <= 3 ==> !#[trigger] level_op(l, toks[p + 3].token_type),
    ensures
        parse_expression(toks, p) == Ok::<(Expr, int), ParseError>(
            (binary_node(lit(toks[p]), toks[p + 1], lit(toks[p + 2])), p + 3),
        ),
{
    let e = binary_node(lit(toks[p]), toks[p + 1], lit(toks[p + 2]));
    lemma_literal_alone(toks, p, 3);
    lemma_literal_alone(toks, p + 2, 3);
    assert(parse_operand(toks, p, 2) == parse_binary(toks, p, 3));
    assert(parse_operand(toks, p + 2, 2) == parse_binary(toks, p + 2, 3));
    assert(parse_operand(toks, p, 1) == parse_binary(toks, p, 2));
    assert(parse_operand(toks, p, 0) == parse_binary(toks, p, 1));
    assert(!level_op(0, toks[p + 3].token_type));
    assert(!level_op(1, toks[p + 3].token_type));
    assert(!level_op(2, toks[p + 3].token_type));
    assert(binary_rest(toks, e, p + 3, 2) == Ok::<(Expr, int), ParseError>((e, p + 3)));
    assert(binary_rest(toks, lit(toks[p]), p + 1, 2) == Ok::<(Expr, int), ParseError>(
        (e, p + 3),
    ));
    assert(parse_binary(toks, p, 2) == Ok::<(Expr, int), ParseError>((e, p + 3)));
    assert(parse_binary(toks, p, 1) == Ok::<(Expr, int), ParseError>((e, p + 3)));
    assert(parse_binary(toks, p, 0) == Ok::<(Expr, int), ParseError>((e, p + 3)));
}

/// A group that is never closed is an error naming the missing `)`: for
/// `( a op b` with `op` one of `+ -`, the parse fails at the end of input.
pub proof fn lemma_unclosed_group(toks: Seq<Token>)
    requires
        toks.len() == 5,
        toks[0].token_type == TokenType::LeftParen,
        is_literal_token(toks[1]),
        level_op(2, toks[2].token_type),
        is_literal_token(toks[3]),
        toks[4].token_type == TokenType::EOF,
    ensures
        parse_spec(toks) == Err::<Expr, ParseError>(
            ParseError::ExpectedToken {
                expected: TokenType::RightParen,
                found: toks[4],
                line: toks[4].line_number,
            },
        ),
{
    let err = ParseError::ExpectedToken {
        expected: TokenType::RightParen,
        found: toks[4],
        line: toks[4].line_number,
    };
    lemma_single_term(toks, 1);
    assert(parse_primary(toks, 0) == Err::<(Expr, int), ParseError>(err));
    assert(parse_unary(toks, 0) == Err::<(Expr, int), ParseError>(err));
    assert(parse_operand(toks, 0, 3) == parse_unary(toks, 0));
    assert(parse_binary(toks, 0, 3) == Err::<(Expr, int), ParseError>(err));
    assert(parse_operand(toks, 0, 2) == parse_binary(toks, 0, 3));
    assert(parse_binary(toks, 0, 2) == Err::<(Expr, int), ParseError>(err));
    assert(parse_operand(toks, 0, 1) == parse_binary(toks, 0, 2));
    assert(parse_binary(toks, 0, 1) == Err::<(Expr, int), ParseError>(err));
    assert(parse_operand(toks, 0, 0) == parse_binary(toks, 0, 1));
    assert(parse_binary(toks, 0, 0) == Err::<(Expr, int), ParseError>(err));
}

} // verus!
