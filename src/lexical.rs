//! The lexical rules as mathematics: what one scanning step reads at a
//! position, the whole token sequence of a text, and laws about both.
use vstd::prelude::*;
use crate::token::{LexError, LiteralView, Token, TokenType, TokenView};

verus! {

/// An ASCII letter or `_`: what an identifier starts with.
pub open spec fn is_alpha_spec(c: char) -> bool {
    ('a' <= c && c <= 'z') || ('A' <= c && c <= 'Z') || c == '_'
}

/// A decimal digit.
pub open spec fn is_digit_spec(c: char) -> bool {
    '0' <= c && c <= '9'
}

/// What an identifier goes on with: a letter, `_` or a digit.
pub open spec fn is_alpha_numeric_spec(c: char) -> bool {
    is_alpha_spec(c) || is_digit_spec(c)
}

/// The first index at or after `j` that does not continue an identifier.
pub open spec fn ident_end(s: Seq<char>, j: int) -> int
    decreases s.len() - j,
{
    if 0 <= j < s.len() && is_alpha_numeric_spec(s[j]) {
        ident_end(s, j + 1)
    } else {
        j
    }
}

/// The first index at or after `j` that is not a decimal digit.
pub open spec fn digits_end(s: Seq<char>, j: int) -> int
    decreases s.len() - j,
{
    if 0 <= j < s.len() && is_digit_spec(s[j]) {
        digits_end(s, j + 1)
    } else {
        j
    }
}

/// The end of a number literal whose first digit stands at `i`: the `.` is
/// taken only when a digit follows it.
pub open spec fn number_end(s: Seq<char>, i: int) -> int {
    let d = digits_end(s, i + 1);
    if d + 1 < s.len() && s[d] == '.' && is_digit_spec(s[d + 1]) {
        digits_end(s, d + 2)
    } else {
        d
    }
}

/// The end of a line comment: the next newline (left in place) or the end.
pub open spec fn comment_end(s: Seq<char>, j: int) -> int
    decreases s.len() - j,
{
    if 0 <= j < s.len() && s[j] != '\n' {
        comment_end(s, j + 1)
    } else {
        j
    }
}

/// Scans string contents from `j` on line `line`: the index of the closing
/// quote (the length of `s` if there is none) and the line reached there.
pub open spec fn string_scan(s: Seq<char>, j: int, line: nat) -> (int, nat)
    decreases s.len() - j,
{
    if 0 <= j < s.len() && s[j] != '"' {
        string_scan(s, j + 1, if s[j] == '\n' { line + 1 } else { line })
    } else {
        (j, line)
    }
}

/// The reserved words and their kinds.
pub open spec fn keyword_spec(w: Seq<char>) -> Option<TokenType> {
    if w == seq!['a', 'n', 'd'] {
        Some(TokenType::AND)
    } else if w == seq!['o', 'r'] {
        Some(TokenType::OR)
    } else if w == seq!['v', 'a', 'r'] {
        Some(TokenType::VAR)
    } else if w == seq!['c', 'l', 'a', 's', 's'] {
        Some(TokenType::CLASS)
    } else if w == seq!['e', 'l', 's', 'e'] {
        Some(TokenType::ELSE)
    } else if w == seq!['f', 'a', 'l', 's', 'e'] {
        Some(TokenType::False)
    } else if w == seq!['f', 'u', 'n'] {
        Some(TokenType::FUN)
    } else if w == seq!['f', 'o', 'r'] {
        Some(TokenType::FOR)
    } else if w == seq!['i', 'f'] {
        Some(TokenType::IF)
    } else if w == seq!['n', 'i', 'l'] {
        Some(TokenType::Nil)
    } else if w == seq!['p', 'r', 'i', 'n', 't'] {
        Some(TokenType::PRINT)
    } else if w == seq!['r', 'e', 't', 'u', 'r', 'n'] {
        Some(TokenType::RETURN)
    } else if w == seq!['s', 'u', 'p', 'e', 'r'] {
        Some(TokenType::SUPER)
    } else if w == seq!['t', 'h', 'i', 's'] {
        Some(TokenType::THIS)
    } else if w == seq!['t', 'r', 'u', 'e'] {
        Some(TokenType::True)
    } else if w == seq!['w', 'h', 'i', 'l', 'e'] {
        Some(TokenType::WHILE)
    } else {
        None
    }
}

/// The kind of a one-character token, if `c` is one on its own.
pub open spec fn single_kind(c: char) -> Option<TokenType> {
    if c == '(' {
        Some(TokenType::LeftParen)
    } else if c == ')' {
        Some(TokenType::RightParen)
    } else if c == '{' {
        Some(TokenType::LeftBrace)
    } else if c == '}' {
        Some(TokenType::RightBrace)
    } else if c == ',' {
        Some(TokenType::Comma)
    } else if c == '.' {
        Some(TokenType::Dot)
    } else if c == '-' {
        Some(TokenType::Minus)
    } else if c == '+' {
        Some(TokenType::Plus)
    } else if c == ';' {
        Some(TokenType::Semicolon)
    } else if c == '*' {
        Some(TokenType::Star)
    } else {
        None
    }
}

/// For `!`, `=`, `<` and `>`: the kind of the one-character form.
pub open spec fn operator_short(c: char) -> Option<TokenType> {
    if c == '!' {
        Some(TokenType::Bang)
    } else if c == '=' {
        Some(TokenType::Equal)
    } else if c == '<' {
        Some(TokenType::Less)
    } else if c == '>' {
        Some(TokenType::Greater)
    } else {
        None
    }
}

/// For `!`, `=`, `<` and `>`: the kind of the form followed by `=`.
pub open spec fn operator_long(c: char) -> TokenType {
    if c == '!' {
        TokenType::BangEqual
    } else if c == '=' {
        TokenType::EqualEqual
    } else if c == '<' {
        TokenType::LessEqual
    } else {
        TokenType::GreaterEqual
    }
}

/// What one scanning step at `i` yields: where the next step starts, the
/// line there, and the token or the error it produced, if any.
pub struct Step {
    pub end: int,
    pub line: nat,
    pub token: Option<TokenView>,
    pub error: Option<LexError>,
}

pub open spec fn plain_token(s: Seq<char>, i: int, end: int, kind: TokenType, line: nat) -> Step {
    Step {
        end,
        line,
        token: Some(
            TokenView { kind, lexeme: s.subrange(i, end), literal: None, line },
        ),
        error: None,
    }
}

pub open spec fn skip(end: int, line: nat) -> Step {
    Step { end, line, token: None, error: None }
}

/// One step of the scanner on the lexeme that starts at `i < s.len()`.
pub open spec fn step(s: Seq<char>, i: int, line: nat) -> Step {
    let c = s[i];
    let next_is_eq = i + 1 < s.len() && s[i + 1] == '=';
    if single_kind(c) is Some {
        plain_token(s, i, i + 1, single_kind(c)->0, line)
    } else if operator_short(c) is Some {
        if next_is_eq {
            plain_token(s, i, i + 2, operator_long(c), line)
        } else {
            plain_token(s, i, i + 1, operator_short(c)->0, line)
        }
    } else if c == '/' {
        if i + 1 < s.len() && s[i + 1] == '/' {
            skip(comment_end(s, i + 2), line)
        } else {
            plain_token(s, i, i + 1, TokenType::Slash, line)
        }
    } else if c == ' ' || c == '\r' || c == '\t' {
        skip(i + 1, line)
    } else if c == '\n' {
        skip(i + 1, line + 1)
    } else if c == '"' {
        let (close, last_line) = string_scan(s, i + 1, line);
        if close >= s.len() {
            Step {
                end: s.len() as int,
                line: last_line,
                token: None,
                error: Some(LexError::UnterminatedString { line: line as usize }),
            }
        } else {
            Step {
                end: close + 1,
                line: last_line,
                token: Some(
                    TokenView {
                        kind: TokenType::String,
                        lexeme: s.subrange(i, close + 1),
                        literal: Some(LiteralView::StringValue(s.subrange(i + 1, close))),
                        line: last_line,
                    },
                ),
                error: None,
            }
        }
    } else if is_digit_spec(c) {
        let end = number_end(s, i);
        Step {
            end,
            line,
            token: Some(
                TokenView {
                    kind: TokenType::Number,
                    lexeme: s.subrange(i, end),
                    literal: Some(LiteralView::NumberValue(s.subrange(i, end))),
                    line,
                },
            ),
            error: None,
        }
    } else if is_alpha_spec(c) {
        let end = ident_end(s, i + 1);
        let word = s.subrange(i, end);
        let kind = match keyword_spec(word) {
            Some(k) => k,
            None => TokenType::Identifier,
        };
        plain_token(s, i, end, kind, line)
    } else {
        Step {
            end: i + 1,
            line,
            token: None,
            error: Some(LexError::UnrecognizedCharacter { character: c, line: line as usize }),
        }
    }
}

pub open spec fn opt_seq<T>(o: Option<T>) -> Seq<T> {
    match o {
        Some(x) => seq![x],
        None => seq![],
    }
}

pub open spec fn end_token(line: nat) -> TokenView {
    TokenView { kind: TokenType::EOF, lexeme: seq![], literal: None, line }
}

/// Scans `s` from index `i` on line `line` to the end: every token, closed
/// by one end-of-input token, and every error, both in source order.
pub open spec fn scan_from(s: Seq<char>, i: int, line: nat) -> (Seq<TokenView>, Seq<LexError>)
    decreases s.len() - i,
{
    if i < 0 || i >= s.len() {
        (seq![end_token(line)], seq![])
    } else {
        let st = step(s, i, line);
        if st.end <= i || st.end > s.len() {
            (seq![end_token(line)], seq![])
        } else {
            let rest = scan_from(s, st.end, st.line);
            (opt_seq(st.token) + rest.0, opt_seq(st.error) + rest.1)
        }
    }
}

/// The tokens and the errors of a whole source text.
pub open spec fn scan_spec(s: Seq<char>) -> (Seq<TokenView>, Seq<LexError>) {
    scan_from(s, 0, 1)
}

pub open spec fn token_views(v: Seq<Token>) -> Seq<TokenView> {
    v.map_values(|t: Token| t@)
}


pub open spec fn opt_token_view(o: Option<Token>) -> Option<TokenView> {
    match o {
        Some(t) => Some(t@),
        None => None,
    }
}

// ---------------------------------------------------------------------------
// Facts about the rules.

pub(crate) proof fn lemma_ident_end(s: Seq<char>, j: int)
    requires
        0 <= j <= s.len(),
    ensures
        j <= ident_end(s, j) <= s.len(),
    decreases s.len() - j,
{
    if j < s.len() && is_alpha_numeric_spec(s[j]) {
        lemma_ident_end(s, j + 1);
    }
}

pub(crate) proof fn lemma_digits_end(s: Seq<char>, j: int)
    requires
        0 <= j <= s.len(),
    ensures
        j <= digits_end(s, j) <= s.len(),
    decreases s.len() - j,
{
    if j < s.len() && is_digit_spec(s[j]) {
        lemma_digits_end(s, j + 1);
    }
}

proof fn lemma_comment_end(s: Seq<char>, j: int)
    requires
        0 <= j <= s.len(),
    ensures
        j <= comment_end(s, j) <= s.len(),
    decreases s.len() - j,
{
    if j < s.len() && s[j] != '\n' {
        lemma_comment_end(s, j + 1);
    }
}

pub(crate) proof fn lemma_string_scan(s: Seq<char>, j: int, line: nat)
    requires
        0 <= j <= s.len(),
    ensures
        j <= string_scan(s, j, line).0 <= s.len(),
        line <= string_scan(s, j, line).1 <= line + (string_scan(s, j, line).0 - j),
    decreases s.len() - j,
{
    if j < s.len() && s[j] != '"' {
        lemma_string_scan(s, j + 1, if s[j] == '\n' { line + 1 } else { line });
    }
}

/// Every step moves forward, stays within the text and adds at most one
/// line per character it passes.
pub(crate) proof fn lemma_step(s: Seq<char>, i: int, line: nat)
    requires
        0 <= i < s.len(),
    ensures
        i < step(s, i, line).end <= s.len(),
        line <= step(s, i, line).line <= line + (step(s, i, line).end - i),
{
    let c = s[i];
    if c == '/' && i + 1 < s.len() && s[i + 1] == '/' {
        lemma_comment_end(s, i + 2);
    } else if c == '"' {
        lemma_string_scan(s, i + 1, line);
    } else if is_digit_spec(c) {
        lemma_digits_end(s, i + 1);
        let d = digits_end(s, i + 1);
        if d + 1 < s.len() && s[d] == '.' && is_digit_spec(s[d + 1]) {
            lemma_digits_end(s, d + 2);
        }
    } else if is_alpha_spec(c) {
        lemma_ident_end(s, i + 1);
    }
}

/// No step produces an end-of-input token.
proof fn lemma_step_token_kind(s: Seq<char>, i: int, line: nat)
    requires
        0 <= i < s.len(),
    ensures
        step(s, i, line).token matches Some(t) ==> t.kind != TokenType::EOF,
{
}

/// Scanning from any point yields exactly one end-of-input token, and it
/// comes last.
pub proof fn lemma_scan_from_ends_once(s: Seq<char>, i: int, line: nat)
    ensures
        scan_from(s, i, line).0.len() > 0,
        scan_from(s, i, line).0.last().kind == TokenType::EOF,
        forall|k: int|
            0 <= k < scan_from(s, i, line).0.len() - 1 ==> #[trigger] scan_from(
                s,
                i,
                line,
            ).0[k].kind != TokenType::EOF,
    decreases s.len() - i,
{
    if 0 <= i < s.len() {
        let st = step(s, i, line);
        if i < st.end <= s.len() {
            lemma_step_token_kind(s, i, line);
            lemma_scan_from_ends_once(s, st.end, st.line);
            let rest = scan_from(s, st.end, st.line).0;
            let all = opt_seq(st.token) + rest;
            assert(scan_from(s, i, line).0 == all);
            assert forall|k: int| 0 <= k < all.len() - 1 implies all[k].kind != TokenType::EOF by {
                if k >= opt_seq(st.token).len() {
                    assert(all[k] == rest[k - opt_seq(st.token).len()]);
                }
            }
        }
    }
}

/// The token sequence of any source text holds exactly one end-of-input
/// token, and it comes last: scanning always runs to the end of the input.
pub proof fn lemma_tokens_end_once(s: Seq<char>)
    ensures
        scan_spec(s).0.len() > 0,
        scan_spec(s).0.last().kind == TokenType::EOF,
        forall|k: int|
            0 <= k < scan_spec(s).0.len() - 1 ==> #[trigger] scan_spec(s).0[k].kind
                != TokenType::EOF,
{
    lemma_scan_from_ends_once(s, 0, 1);
}

/// A character that starts no lexeme.
pub open spec fn unrecognized(c: char) -> bool {
    &&& single_kind(c) is None
    &&& operator_short(c) is None
    &&& c != '/' && c != ' ' && c != '\r' && c != '\t' && c != '\n' && c != '"'
    &&& !is_digit_spec(c)
    &&& !is_alpha_spec(c)
}

/// An unrecognized character adds one error and nothing else, and
/// scanning goes on with the next character on the same line.
pub proof fn lemma_unrecognized_character(s: Seq<char>, i: int, line: nat)
    requires
        0 <= i < s.len(),
        unrecognized(s[i]),
    ensures
        scan_from(s, i, line) == (
            scan_from(s, i + 1, line).0,
            seq![LexError::UnrecognizedCharacter { character: s[i], line: line as usize }]
                + scan_from(s, i + 1, line).1,
        ),
{
    let rest = scan_from(s, i + 1, line);
    assert(seq![] + rest.0 =~= rest.0);
}

proof fn lemma_word_end(w: Seq<char>, j: int)
    requires
        0 <= j <= w.len(),
        forall|k: int| 0 <= k < w.len() ==> is_alpha_numeric_spec(#[trigger] w[k]),
    ensures
        ident_end(w, j) == w.len(),
    decreases w.len() - j,
{
    if j < w.len() {
        lemma_word_end(w, j + 1);
    }
}

/// A run of letters, digits and `_` that starts with a letter or `_` scans
/// as one token with the whole run as its lexeme (the longest match): a
/// keyword exactly when the whole run is one, an identifier otherwise.
pub proof fn lemma_word_is_one_token(w: Seq<char>)
    requires
        w.len() > 0,
        is_alpha_spec(w[0]),
        forall|k: int| 0 <= k < w.len() ==> is_alpha_numeric_spec(#[trigger] w[k]),
    ensures
        scan_spec(w).1 == Seq::<LexError>::empty(),
        scan_spec(w).0 == seq![
            TokenView {
                kind: match keyword_spec(w) {
                    Some(k) => k,
                    None => TokenType::Identifier,
                },
                lexeme: w,
                literal: None,
                line: 1,
            },
            end_token(1),
        ],
{
    lemma_word_end(w, 1);
    assert(w.subrange(0, w.len() as int) =~= w);
    let st = step(w, 0, 1);
    assert(st.end == w.len());
    assert(scan_from(w, w.len() as int, 1) == (seq![end_token(1)], Seq::<LexError>::empty()));
    assert(scan_spec(w).0 =~= opt_seq(st.token) + seq![end_token(1)]);
    assert(scan_spec(w).1 =~= Seq::<LexError>::empty());
}

proof fn lemma_string_runs_out(s: Seq<char>, j: int, line: nat)
    requires
        0 <= j <= s.len(),
        forall|k: int| j <= k < s.len() ==> #[trigger] s[k] != '"',
    ensures
        string_scan(s, j, line).0 == s.len(),
    decreases s.len() - j,
{
    if j < s.len() {
        lemma_string_runs_out(s, j + 1, if s[j] == '\n' { line + 1 } else { line });
    }
}

/// A string that is never closed is one error on the line where it starts
/// and no token: all that is left is the end-of-input token.
pub proof fn lemma_unterminated_string(s: Seq<char>)
    requires
        s.len() > 0,
        s[0] == '"',
        forall|k: int| 1 <= k < s.len() ==> #[trigger] s[k] != '"',
    ensures
        scan_spec(s).1 == seq![LexError::UnterminatedString { line: 1 }],
        scan_spec(s).0.len() == 1,
        scan_spec(s).0[0].kind == TokenType::EOF,
{
    lemma_string_runs_out(s, 1, 1);
    lemma_string_scan(s, 1, 1);
    let st = step(s, 0, 1);
    assert(st.end == s.len());
    assert(st.token is None);
    assert(st.error == Some(LexError::UnterminatedString { line: 1 }));
    let rest = scan_from(s, s.len() as int, st.line);
    assert(rest == (seq![end_token(st.line)], Seq::<LexError>::empty()));
    assert(scan_spec(s) == (opt_seq(st.token) + rest.0, opt_seq(st.error) + rest.1));
    assert(scan_spec(s).0 =~= seq![end_token(st.line)]);
    assert(scan_spec(s).1 =~= seq![LexError::UnterminatedString { line: 1 }]);
}

/// The number of newlines in `t`.
pub open spec fn newlines(t: Seq<char>) -> nat
    decreases t.len(),
{
    if t.len() == 0 {
        0
    } else {
        (if t[0] == '\n' { 1nat } else { 0nat }) + newlines(t.drop_first())
    }
}

proof fn lemma_string_lines(s: Seq<char>, j: int, close: int, line: nat)
    requires
        0 <= j <= close < s.len(),
        s[close] == '"',
        forall|k: int| j <= k < close ==> #[trigger] s[k] != '"',
    ensures
        string_scan(s, j, line) == (close, line + newlines(s.subrange(j, close))),
    decreases close - j,
{
    if j < close {
        let next = if s[j] == '\n' { line + 1 } else { line };
        lemma_string_lines(s, j + 1, close, next);
        assert(s.subrange(j, close).drop_first() =~= s.subrange(j + 1, close));
    } else {
        assert(s.subrange(j, close) =~= Seq::<char>::empty());
    }
}

/// A closed string literal is one token; scanning goes on after it as many
/// lines further on as the string holds newlines, and the string token
/// carries that line too.
pub proof fn lemma_string_moves_lines(s: Seq<char>, i: int, close: int, line: nat)
    requires
        0 <= i < close < s.len(),
        s[i] == '"',
        s[close] == '"',
        forall|k: int| i < k < close ==> #[trigger] s[k] != '"',
    ensures
        ({
            let after = line + newlines(s.subrange(i + 1, close));
            let rest = scan_from(s, close + 1, after);
            scan_from(s, i, line) == (
                seq![
                    TokenView {
                        kind: TokenType::String,
                        lexeme: s.subrange(i, close + 1),
                        literal: Some(LiteralView::StringValue(s.subrange(i + 1, close))),
                        line: after,
                    },
                ] + rest.0,
                rest.1,
            )
        }),
{
    lemma_string_lines(s, i + 1, close, line);
    let after = line + newlines(s.subrange(i + 1, close));
    let rest = scan_from(s, close + 1, after);
    assert(seq![] + rest.1 =~= rest.1);
}

} // verus!
