//! Tokens: their kinds, literal values and printed form, and lexical errors.
use vstd::prelude::*;

verus! {

/// The closed set of token kinds.
#[derive(Debug, Clone, Copy, PartialEq, Eq, Structural)]
pub enum TokenType {
    LeftParen,
    RightParen,
    LeftBrace,
    RightBrace,
    Comma,
    Dot,
    Minus,
    Plus,
    Semicolon,
    Slash,
    Star,
    // One or two character tokens.
    Bang,
    BangEqual,
    Equal,
    EqualEqual,
    Greater,
    GreaterEqual,
    Less,
    LessEqual,
    // Literals.
    Identifier,
    String,
    Number,
    // Keywords.
    AND,
    CLASS,
    ELSE,
    False,
    FUN,
    FOR,
    IF,
    Nil,
    OR,
    PRINT,
    RETURN,
    SUPER,
    THIS,
    True,
    VAR,
    WHILE,
    // End of input.
    EOF,
}

/// The typed value a literal token carries: a number keeps its decimal
/// digits, a string its contents without the quotes.
#[derive(Debug)]
pub enum LiteralValue {
    NumberValue(String),
    StringValue(String),
}

impl Clone for LiteralValue {
    fn clone(&self) -> (r: Self)
        ensures
            r == *self,
    {
        match self {
            LiteralValue::NumberValue(s) => LiteralValue::NumberValue(s.clone()),
            LiteralValue::StringValue(s) => LiteralValue::StringValue(s.clone()),
        }
    }
}

/// A literal value seen as text.
pub enum LiteralView {
    NumberValue(Seq<char>),
    StringValue(Seq<char>),
}

impl View for LiteralValue {
    type V = LiteralView;

    open spec fn view(&self) -> LiteralView {
        match self {
            LiteralValue::NumberValue(s) => LiteralView::NumberValue(s@),
            LiteralValue::StringValue(s) => LiteralView::StringValue(s@),
        }
    }
}

/// One classified unit of the source: its kind, the exact source text, an
/// optional typed value and the (1-based) line the scanner was on when
/// the lexeme ended.
#[derive(Debug)]
pub struct Token {
    pub token_type: TokenType,
    pub lexeme: String,
    pub literal: Option<LiteralValue>,
    pub line_number: usize,
}

impl Clone for Token {
    fn clone(&self) -> (r: Self)
        ensures
            r == *self,
    {
        let literal = match &self.literal {
            Some(l) => Some(l.clone()),
            None => None,
        };
        Token {
            token_type: self.token_type,
            lexeme: self.lexeme.clone(),
            literal,
            line_number: self.line_number,
        }
    }
}

/// A token seen as mathematical values.
pub struct TokenView {
    pub kind: TokenType,
    pub lexeme: Seq<char>,
    pub literal: Option<LiteralView>,
    pub line: nat,
}

impl View for Token {
    type V = TokenView;

    open spec fn view(&self) -> TokenView {
        TokenView {
            kind: self.token_type,
            lexeme: self.lexeme@,
            literal: match self.literal {
                Some(l) => Some(l@),
                None => None,
            },
            line: self.line_number as nat,
        }
    }
}

/// The name of a token kind, as its variant is written.
pub open spec fn kind_name(k: TokenType) -> Seq<char> {
    match k {
        TokenType::LeftParen => seq!['L', 'e', 'f', 't', 'P', 'a', 'r', 'e', 'n'],
        TokenType::RightParen => seq!['R', 'i', 'g', 'h', 't', 'P', 'a', 'r', 'e', 'n'],
        TokenType::LeftBrace => seq!['L', 'e', 'f', 't', 'B', 'r', 'a', 'c', 'e'],
        TokenType::RightBrace => seq!['R', 'i', 'g', 'h', 't', 'B', 'r', 'a', 'c', 'e'],
        TokenType::Comma => seq!['C', 'o', 'm', 'm', 'a'],
        TokenType::Dot => seq!['D', 'o', 't'],
        TokenType::Minus => seq!['M', 'i', 'n', 'u', 's'],
        TokenType::Plus => seq!['P', 'l', 'u', 's'],
        TokenType::Semicolon => seq!['S', 'e', 'm', 'i', 'c', 'o', 'l', 'o', 'n'],
        TokenType::Slash => seq!['S', 'l', 'a', 's', 'h'],
        TokenType::Star => seq!['S', 't', 'a', 'r'],
        TokenType::Bang => seq!['B', 'a', 'n', 'g'],
        TokenType::BangEqual => seq!['B', 'a', 'n', 'g', 'E', 'q', 'u', 'a', 'l'],
        TokenType::Equal => seq!['E', 'q', 'u', 'a', 'l'],
        TokenType::EqualEqual => seq!['E', 'q', 'u', 'a', 'l', 'E', 'q', 'u', 'a', 'l'],
        TokenType::Greater => seq!['G', 'r', 'e', 'a', 't', 'e', 'r'],
        TokenType::GreaterEqual => seq!['G', 'r', 'e', 'a', 't', 'e', 'r', 'E', 'q', 'u', 'a', 'l'],
        TokenType::Less => seq!['L', 'e', 's', 's'],
        TokenType::LessEqual => seq!['L', 'e', 's', 's', 'E', 'q', 'u', 'a', 'l'],
        TokenType::Identifier => seq!['I', 'd', 'e', 'n', 't', 'i', 'f', 'i', 'e', 'r'],
        TokenType::String => seq!['S', 't', 'r', 'i', 'n', 'g'],
        TokenType::Number => seq!['N', 'u', 'm', 'b', 'e', 'r'],
        TokenType::AND => seq!['A', 'N', 'D'],
        TokenType::CLASS => seq!['C', 'L', 'A', 'S', 'S'],
        TokenType::ELSE => seq!['E', 'L', 'S', 'E'],
        TokenType::False => seq!['F', 'a', 'l', 's', 'e'],
        TokenType::FUN => seq!['F', 'U', 'N'],
        TokenType::FOR => seq!['F', 'O', 'R'],
        TokenType::IF => seq!['I', 'F'],
        TokenType::Nil => seq!['N', 'i', 'l'],
        TokenType::OR => seq!['O', 'R'],
        TokenType::PRINT => seq!['P', 'R', 'I', 'N', 'T'],
        TokenType::RETURN => seq!['R', 'E', 'T', 'U', 'R', 'N'],
        TokenType::SUPER => seq!['S', 'U', 'P', 'E', 'R'],
        TokenType::THIS => seq!['T', 'H', 'I', 'S'],
        TokenType::True => seq!['T', 'r', 'u', 'e'],
        TokenType::VAR => seq!['V', 'A', 'R'],
        TokenType::WHILE => seq!['W', 'H', 'I', 'L', 'E'],
        TokenType::EOF => seq!['E', 'O', 'F'],
    }
}

/// The text of a token: kind, lexeme and literal text, space separated.
pub open spec fn token_text(t: TokenView) -> Seq<char> {
    let head = kind_name(t.kind) + seq![' '] + t.lexeme;
    match t.literal {
        Some(LiteralView::NumberValue(x)) => head + seq![' '] + x,
        Some(LiteralView::StringValue(x)) => head + seq![' '] + x,
        None => head,
    }
}

impl TokenType {
    /// The name of the kind, as its variant is written.
    pub fn name(&self) -> (r: &'static str)
        ensures
            r@ == kind_name(*self),
    {
        proof {
            reveal_strlit("LeftParen");
            reveal_strlit("RightParen");
            reveal_strlit("LeftBrace");
            reveal_strlit("RightBrace");
            reveal_strlit("Comma");
            reveal_strlit("Dot");
            reveal_strlit("Minus");
            reveal_strlit("Plus");
            reveal_strlit("Semicolon");
            reveal_strlit("Slash");
            reveal_strlit("Star");
            reveal_strlit("Bang");
            reveal_strlit("BangEqual");
            reveal_strlit("Equal");
            reveal_strlit("EqualEqual");
            reveal_strlit("Greater");
            reveal_strlit("GreaterEqual");
            reveal_strlit("Less");
            reveal_strlit("LessEqual");
            reveal_strlit("Identifier");
            reveal_strlit("String");
            reveal_strlit("Number");
            reveal_strlit("AND");
            reveal_strlit("CLASS");
            reveal_strlit("ELSE");
            reveal_strlit("False");
            reveal_strlit("FUN");
            reveal_strlit("FOR");
            reveal_strlit("IF");
            reveal_strlit("Nil");
            reveal_strlit("OR");
            reveal_strlit("PRINT");
            reveal_strlit("RETURN");
            reveal_strlit("SUPER");
            reveal_strlit("THIS");
            reveal_strlit("True");
            reveal_strlit("VAR");
            reveal_strlit("WHILE");
            reveal_strlit("EOF");
        }
        match self {
            TokenType::LeftParen => "LeftParen",
            TokenType::RightParen => "RightParen",
            TokenType::LeftBrace => "LeftBrace",
            TokenType::RightBrace => "RightBrace",
            TokenType::Comma => "Comma",
            TokenType::Dot => "Dot",
            TokenType::Minus => "Minus",
            TokenType::Plus => "Plus",
            TokenType::Semicolon => "Semicolon",
            TokenType::Slash => "Slash",
            TokenType::Star => "Star",
            TokenType::Bang => "Bang",
            TokenType::BangEqual => "BangEqual",
            TokenType::Equal => "Equal",
            TokenType::EqualEqual => "EqualEqual",
            TokenType::Greater => "Greater",
            TokenType::GreaterEqual => "GreaterEqual",
            TokenType::Less => "Less",
            TokenType::LessEqual => "LessEqual",
            TokenType::Identifier => "Identifier",
            TokenType::String => "String",
            TokenType::Number => "Number",
            TokenType::AND => "AND",
            TokenType::CLASS => "CLASS",
            TokenType::ELSE => "ELSE",
            TokenType::False => "False",
            TokenType::FUN => "FUN",
            TokenType::FOR => "FOR",
            TokenType::IF => "IF",
            TokenType::Nil => "Nil",
            TokenType::OR => "OR",
            TokenType::PRINT => "PRINT",
            TokenType::RETURN => "RETURN",
            TokenType::SUPER => "SUPER",
            TokenType::THIS => "THIS",
            TokenType::True => "True",
            TokenType::VAR => "VAR",
            TokenType::WHILE => "WHILE",
            TokenType::EOF => "EOF",
        }
    }
}

impl Token {
    /// A token from its parts.
    pub fn new(
        token_type: TokenType,
        lexeme: String,
        literal: Option<LiteralValue>,
        line_number: usize,
    ) -> (r: Self)
        ensures
            r.token_type == token_type,
            r.lexeme == lexeme,
            r.literal == literal,
            r.line_number == line_number,
    {
        Self { token_type, lexeme, literal, line_number }
    }

    /// The kind's name, the lexeme and, for a literal, its text, each
    /// separated by one space.
    pub fn to_string(&self) -> (r: String)
        ensures
            r@ == token_text(self@),
    {
        proof {
            reveal_strlit(" ");
        }
        let mut r = String::from_str(self.token_type.name());
        r.append(" ");
        r.append(self.lexeme.as_str());
        match &self.literal {
            Some(LiteralValue::NumberValue(x)) => {
                r.append(" ");
                r.append(x.as_str());
            },
            Some(LiteralValue::StringValue(x)) => {
                r.append(" ");
                r.append(x.as_str());
            },
            None => {},
        }
        r
    }
}

/// A lexical problem; scanning records it and goes on.
#[derive(Debug, Clone, Copy, PartialEq, Eq, Structural)]
pub enum LexError {
    UnrecognizedCharacter { character: char, line: usize },
    UnterminatedString { line: usize },
}

} // verus!
