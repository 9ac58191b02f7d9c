//! Turns source text into tokens, collecting every lexical error on the way.
use vstd::prelude::*;
use crate::lexical::{
    comment_end, digits_end, end_token, ident_end, is_alpha_numeric_spec, is_alpha_spec,
    is_digit_spec, keyword_spec, lemma_digits_end, lemma_tokens_end_once, lemma_ident_end, lemma_step, lemma_string_scan,
    opt_seq, opt_token_view, scan_from, scan_spec, step, string_scan, token_views,
};
pub use crate::token::{LexError, LiteralValue, LiteralView, Token, TokenType, TokenView};

verus! {

/// An identifier starts with an ASCII letter or `_`.
pub fn is_alpha(c: char) -> (r: bool)
    ensures
        r == is_alpha_spec(c),
{
    (c >= 'a' && c <= 'z') || (c >= 'A' && c <= 'Z') || c == '_'
}

/// A decimal digit.
pub fn is_digit(c: char) -> (r: bool)
    ensures
        r == is_digit_spec(c),
{
    c >= '0' && c <= '9'
}

/// An identifier goes on with ASCII letters, digits and `_`.
pub fn is_alpha_numeric(c: char) -> (r: bool)
    ensures
        r == is_alpha_numeric_spec(c),
{
    is_alpha(c) || is_digit(c)
}

fn word_eq(chars: &Vec<char>, start: usize, end: usize, w: &[char]) -> (r: bool)
    requires
        start <= end <= chars.len(),
    ensures
        r == (chars@.subrange(start as int, end as int) == w@),
{
    if end - start != w.len() {
        return false;
    }
    let mut k: usize = 0;
    while k < w.len()
        invariant
            start <= end <= chars.len(),
            end - start == w.len(),
            k <= w.len(),
            forall|m: int| 0 <= m < k ==> chars@[start + m] == w@[m],
        decreases w.len() - k,
    {
        if chars[start + k] != w[k] {
            assert(chars@.subrange(start as int, end as int)[k as int] != w@[k as int]);
            return false;
        }
        k = k + 1;
    }
    assert(chars@.subrange(start as int, end as int) =~= w@);
    true
}

/// Looks a word up in the table of reserved words.
fn keyword(chars: &Vec<char>, start: usize, end: usize) -> (r: Option<TokenType>)
    requires
        start <= end <= chars.len(),
    ensures
        r == keyword_spec(chars@.subrange(start as int, end as int)),
{
    assert(['a', 'n', 'd']@ =~= seq!['a', 'n', 'd']);
    assert(['o', 'r']@ =~= seq!['o', 'r']);
    assert(['v', 'a', 'r']@ =~= seq!['v', 'a', 'r']);
    assert(['c', 'l', 'a', 's', 's']@ =~= seq!['c', 'l', 'a', 's', 's']);
    assert(['e', 'l', 's', 'e']@ =~= seq!['e', 'l', 's', 'e']);
    assert(['f', 'a', 'l', 's', 'e']@ =~= seq!['f', 'a', 'l', 's', 'e']);
    assert(['f', 'u', 'n']@ =~= seq!['f', 'u', 'n']);
    assert(['f', 'o', 'r']@ =~= seq!['f', 'o', 'r']);
    assert(['i', 'f']@ =~= seq!['i', 'f']);
    assert(['n', 'i', 'l']@ =~= seq!['n', 'i', 'l']);
    assert(['p', 'r', 'i', 'n', 't']@ =~= seq!['p', 'r', 'i', 'n', 't']);
    assert(['r', 'e', 't', 'u', 'r', 'n']@ =~= seq!['r', 'e', 't', 'u', 'r', 'n']);
    assert(['s', 'u', 'p', 'e', 'r']@ =~= seq!['s', 'u', 'p', 'e', 'r']);
    assert(['t', 'h', 'i', 's']@ =~= seq!['t', 'h', 'i', 's']);
    assert(['t', 'r', 'u', 'e']@ =~= seq!['t', 'r', 'u', 'e']);
    assert(['w', 'h', 'i', 'l', 'e']@ =~= seq!['w', 'h', 'i', 'l', 'e']);
    if word_eq(chars, start, end, &['a', 'n', 'd']) {
        Some(TokenType::AND)
    } else if word_eq(chars, start, end, &['o', 'r']) {
        Some(TokenType::OR)
    } else if word_eq(chars, start, end, &['v', 'a', 'r']) {
        Some(TokenType::VAR)
    } else if word_eq(chars, start, end, &['c', 'l', 'a', 's', 's']) {
        Some(TokenType::CLASS)
    } else if word_eq(chars, start, end, &['e', 'l', 's', 'e']) {
        Some(TokenType::ELSE)
    } else if word_eq(chars, start, end, &['f', 'a', 'l', 's', 'e']) {
        Some(TokenType::False)
    } else if word_eq(chars, start, end, &['f', 'u', 'n']) {
        Some(TokenType::FUN)
    } else if word_eq(chars, start, end, &['f', 'o', 'r']) {
        Some(TokenType::FOR)
    } else if word_eq(chars, start, end, &['i', 'f']) {
        Some(TokenType::IF)
    } else if word_eq(chars, start, end, &['n', 'i', 'l']) {
        Some(TokenType::Nil)
    } else if word_eq(chars, start, end, &['p', 'r', 'i', 'n', 't']) {
        Some(TokenType::PRINT)
    } else if word_eq(chars, start, end, &['r', 'e', 't', 'u', 'r', 'n']) {
        Some(TokenType::RETURN)
    } else if word_eq(chars, start, end, &['s', 'u', 'p', 'e', 'r']) {
        Some(TokenType::SUPER)
    } else if word_eq(chars, start, end, &['t', 'h', 'i', 's']) {
        Some(TokenType::THIS)
    } else if word_eq(chars, start, end, &['t', 'r', 'u', 'e']) {
        Some(TokenType::True)
    } else if word_eq(chars, start, end, &['w', 'h', 'i', 'l', 'e']) {
        Some(TokenType::WHILE)
    } else {
        None
    }
}

/// The characters of `s`, one by one.
pub(crate) fn chars_of(s: &str) -> (r: Vec<char>)
    ensures
        r@ == s@,
{
    broadcast use vstd::string::group_string_axioms;

    let mut chars: Vec<char> = Vec::new();
    for c in it: s.chars()
        invariant
            chars@ == it.seq().take(it.index() as int),
    {
        chars.push(c);
    }
    assert(chars@ == s@);
    chars
}

fn ident_end_exec(chars: &Vec<char>, j: usize) -> (r: usize)
    requires
        j <= chars.len(),
    ensures
        r == ident_end(chars@, j as int),
{
    let mut k = j;
    while k < chars.len() && is_alpha_numeric(chars[k])
        invariant
            j <= k <= chars.len(),
            ident_end(chars@, k as int) == ident_end(chars@, j as int),
        decreases chars.len() - k,
    {
        k = k + 1;
    }
    k
}

fn digits_end_exec(chars: &Vec<char>, j: usize) -> (r: usize)
    requires
        j <= chars.len(),
    ensures
        r == digits_end(chars@, j as int),
{
    let mut k = j;
    while k < chars.len() && is_digit(chars[k])
        invariant
            j <= k <= chars.len(),
            digits_end(chars@, k as int) == digits_end(chars@, j as int),
        decreases chars.len() - k,
    {
        k = k + 1;
    }
    k
}

fn comment_end_exec(chars: &Vec<char>, j: usize) -> (r: usize)
    requires
        j <= chars.len(),
    ensures
        r == comment_end(chars@, j as int),
{
    let mut k = j;
    while k < chars.len() && chars[k] != '\n'
        invariant
            j <= k <= chars.len(),
            comment_end(chars@, k as int) == comment_end(chars@, j as int),
        decreases chars.len() - k,
    {
        k = k + 1;
    }
    k
}

fn string_scan_exec(chars: &Vec<char>, j: usize, line: usize) -> (r: (usize, usize))
    requires
        j <= chars.len(),
        line + (chars.len() - j) <= usize::MAX,
    ensures
        r.0 as int == string_scan(chars@, j as int, line as nat).0,
        r.1 as nat == string_scan(chars@, j as int, line as nat).1,
{
    let mut k = j;
    let mut ln = line;
    while k < chars.len() && chars[k] != '"'
        invariant
            j <= k <= chars.len(),
            ln <= line + (k - j),
            line + (chars.len() - j) <= usize::MAX,
            string_scan(chars@, k as int, ln as nat) == string_scan(chars@, j as int, line as nat),
        decreases chars.len() - k,
    {
        if chars[k] == '\n' {
            ln = ln + 1;
        }
        k = k + 1;
    }
    (k, ln)
}

/// Holds the source text and, once scanned, its tokens and lexical errors.
pub struct Scanner {
    source: String,
    chars: Vec<char>,
    ascii: bool,
    tokens: Vec<Token>,
    errors: Vec<LexError>,
}

impl Scanner {
    /// The source text.
    pub closed spec fn text(&self) -> Seq<char> {
        self.source@
    }

    /// The tokens produced so far.
    pub closed spec fn token_list(&self) -> Seq<TokenView> {
        token_views(self.tokens@)
    }

    /// The errors recorded so far.
    pub closed spec fn error_list(&self) -> Seq<LexError> {
        self.errors@
    }

    pub closed spec fn wf(&self) -> bool {
        self.chars@ == self.source@ && self.ascii == self.source.is_ascii()
    }

    /// A scanner over `source`, with nothing scanned yet.
    pub fn new(source: &str) -> (r: Self)
        ensures
            r.wf(),
            r.text() == source@,
            r.token_list() == Seq::<TokenView>::empty(),
            r.error_list() == Seq::<LexError>::empty(),
    {
        let chars = chars_of(source);
        let source = String::from_str(source);
        let ascii = source.is_ascii();
        let r = Scanner { source, chars, ascii, tokens: Vec::new(), errors: Vec::new() };
        assert(token_views(r.tokens@) =~= Seq::<TokenView>::empty());
        r
    }

    fn lexeme(&self, start: usize, end: usize) -> (r: String)
        requires
            self.wf(),
            start <= end <= self.chars.len(),
        ensures
            r@ == self.chars@.subrange(start as int, end as int),
    {
        let text = self.source.as_str();
        if self.ascii {
            String::from_str(text.substring_ascii(start, end))
        } else {
            String::from_str(text.substring_char(start, end))
        }
    }

    fn plain(&self, start: usize, end: usize, kind: TokenType, line: usize) -> (r: Token)
        requires
            self.wf(),
            start <= end <= self.chars.len(),
        ensures
            r@ == (TokenView {
                kind,
                lexeme: self.chars@.subrange(start as int, end as int),
                literal: None,
                line: line as nat,
            }),
    {
        Token { token_type: kind, lexeme: self.lexeme(start, end), literal: None, line_number: line }
    }

    /// Whether `r` is what one scanning step at `i` on line `line` yields.
    pub closed spec fn step_result(
        &self,
        i: usize,
        line: usize,
        r: (usize, usize, Option<Token>, Option<LexError>),
    ) -> bool {
        let st = step(self.chars@, i as int, line as nat);
        &&& r.0 as int == st.end
        &&& r.1 as nat == st.line
        &&& opt_token_view(r.2) == st.token
        &&& r.3 == st.error
    }

    /// A string literal from the quote at `i`; an error if it never closes.
    fn string(&self, i: usize, line: usize) -> (r: (usize, usize, Option<Token>, Option<LexError>))
        requires
            self.wf(),
            i < self.chars.len(),
            self.chars@[i as int] == '"',
            line <= i + 1,
            self.chars.len() < usize::MAX,
        ensures
            self.step_result(i, line, r),
    {
        let n = self.chars.len();
        let (close, last_line) = string_scan_exec(&self.chars, i + 1, line);
        proof {
            lemma_string_scan(self.chars@, i + 1, line as nat);
        }
        if close >= n {
            (n, last_line, None, Some(LexError::UnterminatedString { line }))
        } else {
            let contents = self.lexeme(i + 1, close);
            let token = Token {
                token_type: TokenType::String,
                lexeme: self.lexeme(i, close + 1),
                literal: Some(LiteralValue::StringValue(contents)),
                line_number: last_line,
            };
            (close + 1, last_line, Some(token), None)
        }
    }

    /// A number literal from the digit at `i`.
    fn number(&self, i: usize, line: usize) -> (r: (usize, usize, Option<Token>, Option<LexError>))
        requires
            self.wf(),
            i < self.chars.len(),
            is_digit_spec(self.chars@[i as int]),
            self.chars.len() < usize::MAX,
        ensures
            self.step_result(i, line, r),
    {
        let n = self.chars.len();
        proof {
            lemma_digits_end(self.chars@, i + 1);
        }
        let d = digits_end_exec(&self.chars, i + 1);
        // The point belongs to the number only when a digit follows it.
        let end = if d + 1 < n && self.chars[d] == '.' && is_digit(self.chars[d + 1]) {
            proof {
                lemma_digits_end(self.chars@, d + 2);
            }
            digits_end_exec(&self.chars, d + 2)
        } else {
            d
        };
        let token = Token {
            token_type: TokenType::Number,
            lexeme: self.lexeme(i, end),
            literal: Some(LiteralValue::NumberValue(self.lexeme(i, end))),
            line_number: line,
        };
        (end, line, Some(token), None)
    }

    /// An identifier or keyword from the letter at `i`: the longest run of
    /// letters, digits and `_`, then looked up among the reserved words.
    fn identifier(&self, i: usize, line: usize) -> (r: (usize, usize, Option<Token>, Option<LexError>))
        requires
            self.wf(),
            i < self.chars.len(),
            is_alpha_spec(self.chars@[i as int]),
        ensures
            self.step_result(i, line, r),
    {
        proof {
            lemma_ident_end(self.chars@, i + 1);
        }
        let end = ident_end_exec(&self.chars, i + 1);
        let kind = match keyword(&self.chars, i, end) {
            Some(k) => k,
            None => TokenType::Identifier,
        };
        (end, line, Some(self.plain(i, end, kind, line)), None)
    }

    /// Scans the lexeme that starts at `i`.
    fn scan_token(&self, i: usize, line: usize) -> (r: (usize, usize, Option<Token>, Option<LexError>))
        requires
            self.wf(),
            i < self.chars.len(),
            line <= i + 1,
            self.chars.len() < usize::MAX,
        ensures
            self.step_result(i, line, r),
            i < r.0 <= self.chars.len(),
            line <= r.1 <= r.0 + 1,
    {
        proof {
            lemma_step(self.chars@, i as int, line as nat);
        }
        let n = self.chars.len();
        let c = self.chars[i];
        let next_is_eq = i + 1 < n && self.chars[i + 1] == '=';
        let single = if c == '(' {
            Some(TokenType::LeftParen)
        } else if c == ')' {
            Some(TokenType::RightParen)
        } else if c == '{' {
            Some(TokenType::LeftBrace)
        } else if c == '}' {
            Some(TokenType::RightBrace)
        } else if c == ',' {
            Some(TokenType::Comma)
        } else if c == '.' {
            Some(TokenType::Dot)
        } else if c == '-' {
            Some(TokenType::Minus)
        } else if c == '+' {
            Some(TokenType::Plus)
        } else if c == ';' {
            Some(TokenType::Semicolon)
        } else if c == '*' {
            Some(TokenType::Star)
        } else {
            None
        };
        let short = if c == '!' {
            Some((TokenType::Bang, TokenType::BangEqual))
        } else if c == '=' {
            Some((TokenType::Equal, TokenType::EqualEqual))
        } else if c == '<' {
            Some((TokenType::Less, TokenType::LessEqual))
        } else if c == '>' {
            Some((TokenType::Greater, TokenType::GreaterEqual))
        } else {
            None
        };
        if let Some(kind) = single {
            (i + 1, line, Some(self.plain(i, i + 1, kind, line)), None)
        } else if let Some((one, two)) = short {
            if next_is_eq {
                (i + 2, line, Some(self.plain(i, i + 2, two, line)), None)
            } else {
                (i + 1, line, Some(self.plain(i, i + 1, one, line)), None)
            }
        } else if c == '/' {
            if i + 1 < n && self.chars[i + 1] == '/' {
                (comment_end_exec(&self.chars, i + 2), line, None, None)
            } else {
                (i + 1, line, Some(self.plain(i, i + 1, TokenType::Slash, line)), None)
            }
        } else if c == ' ' || c == '\r' || c == '\t' {
            (i + 1, line, None, None)
        } else if c == '\n' {
            (i + 1, line + 1, None, None)
        } else if c == '"' {
            self.string(i, line)
        } else if is_digit(c) {
            self.number(i, line)
        } else if is_alpha(c) {
            self.identifier(i, line)
        } else {
            (i + 1, line, None, Some(LexError::UnrecognizedCharacter { character: c, line }))
        }
    }

    /// Scans the whole source once, left to right, and keeps the tokens and
    /// the errors. Scanning never stops at an error: the tokens are complete
    /// and closed by one end-of-input token either way. The result is the
    /// tokens when no error was found, and the errors otherwise.
    pub fn scan_tokens(&mut self) -> (r: Result<Vec<Token>, Vec<LexError>>)
        requires
            old(self).wf(),
            old(self).text().len() < usize::MAX,
        ensures
            final(self).wf(),
            final(self).text() == old(self).text(),
            final(self).token_list() == scan_spec(old(self).text()).0,
            final(self).error_list() == scan_spec(old(self).text()).1,
            match r {
                Ok(tokens) => scan_spec(old(self).text()).1.len() == 0
                    && token_views(tokens@) == scan_spec(old(self).text()).0,
                Err(errors) => scan_spec(old(self).text()).1.len() > 0
                    && errors@ == scan_spec(old(self).text()).1,
            },
    {
        let ghost s = self.chars@;
        let n = self.chars.len();
        let mut tokens: Vec<Token> = Vec::new();
        let mut errors: Vec<LexError> = Vec::new();
        let mut i: usize = 0;
        let mut line: usize = 1;
        assert(token_views(tokens@) + scan_from(s, 0, 1).0 =~= scan_from(s, 0, 1).0);
        assert(errors@ + scan_from(s, 0, 1).1 =~= scan_from(s, 0, 1).1);
        while i < n
            invariant
                self.wf(),
                s == self.chars@,
                n == s.len(),
                n < usize::MAX,
                i <= n,
                1 <= line <= i + 1,
                token_views(tokens@) + scan_from(s, i as int, line as nat).0 == scan_spec(s).0,
                errors@ + scan_from(s, i as int, line as nat).1 == scan_spec(s).1,
            decreases n - i,
        {
            let (end, next_line, token, error) = self.scan_token(i, line);
            proof {
                lemma_step(s, i as int, line as nat);
            }
            let ghost rest = scan_from(s, end as int, next_line as nat);
            let ghost tv = token_views(tokens@);
            let ghost ev = errors@;
            match token {
                Some(t) => {
                    tokens.push(t);
                    assert(token_views(tokens@) =~= tv + opt_seq(opt_token_view(Some(t))));
                },
                None => {
                    assert(token_views(tokens@) =~= tv + opt_seq(opt_token_view(None)));
                },
            }
            match error {
                Some(e) => {
                    errors.push(e);
                },
                None => {},
            }
            assert(errors@ =~= ev + opt_seq(error));
            assert(token_views(tokens@) + rest.0 =~= tv + (opt_seq(opt_token_view(token)) + rest.0));
            assert(errors@ + rest.1 =~= ev + (opt_seq(error) + rest.1));
            i = end;
            line = next_line;
        }
        let ghost tv = token_views(tokens@);
        tokens.push(Token { token_type: TokenType::EOF, lexeme: String::new(), literal: None, line_number: line });
        assert(token_views(tokens@) =~= tv + seq![end_token(line as nat)]);
        assert(errors@ + seq![] =~= errors@);
        self.tokens = tokens;
        self.errors = errors;
        if self.errors.len() == 0 {
            Ok(self.tokens.clone())
        } else {
            Err(self.errors.clone())
        }
    }

    /// The tokens of the last scan.
    pub fn tokens(&self) -> (r: &Vec<Token>)
        ensures
            token_views(r@) == self.token_list(),
    {
        &self.tokens
    }

    /// The errors of the last scan.
    pub fn errors(&self) -> (r: &Vec<LexError>)
        ensures
            r@ == self.error_list(),
    {
        &self.errors
    }
}

/// Scans `source` in full: the tokens, closed by one end-of-input token, and
/// every lexical error, both in source order. The scan failed when the
/// errors are not empty; the tokens are still complete.
pub fn tokenize(source: &str) -> (r: (Vec<Token>, Vec<LexError>))
    requires
        source@.len() < usize::MAX,
    ensures
        token_views(r.0@) == scan_spec(source@).0,
        r.1@ == scan_spec(source@).1,
        r.0@.len() > 0,
        r.0@.last().token_type == TokenType::EOF,
{
    let mut scanner = Scanner::new(source);
    let _ = scanner.scan_tokens();
    proof {
        lemma_tokens_end_once(source@);
        assert(token_views(scanner.tokens@).last() == scanner.tokens@.last()@);
    }
    (scanner.tokens, scanner.errors)
}

} // verus!
