//! What scanning means: the lexer's behaviour as functions on the source text.
//!
//! The scanner walks the source one step at a time. Each step looks at the character
//! under the cursor and either skips it (white space, comments), recognises one token,
//! or stops with an error message. `scan_from` runs the steps to the end of the source.

use vstd::prelude::*;
use crate::text::{
    decimal, spec_is_alphabetic, spec_is_alphanumeric, spec_is_ascii_digit, spec_is_whitespace,
};
use crate::token::{newline_lexeme, token_view, TokenType, TokenView};

verus! {

/// Where the scanner stands: cursor position, current line and column, and the tokens
/// recognised so far.
pub struct ScanState {
    pub pos: nat,
    pub line: nat,
    pub col: nat,
    pub tokens: Seq<TokenView>,
}

/// The character at `i`, or NUL past the end of the source.
pub open spec fn char_at(src: Seq<char>, i: nat) -> char {
    if i < src.len() {
        src[i as int]
    } else {
        '\0'
    }
}

/// An error message: `[line:col] ` followed by `msg`.
pub open spec fn error_message(line: nat, col: nat, msg: Seq<char>) -> Seq<char> {
    seq!['['] + decimal(line) + seq![':'] + decimal(col) + seq![']', ' '] + msg
}

/// The reserved words and the token kind each one stands for.
pub open spec fn keyword_of(word: Seq<char>) -> Option<TokenType> {
    if word == "package"@ {
        Some(TokenType::Package)
    } else if word == "import"@ {
        Some(TokenType::Import)
    } else if word == "struct"@ {
        Some(TokenType::Struct)
    } else if word == "func"@ {
        Some(TokenType::Func)
    } else if word == "static"@ {
        Some(TokenType::Static)
    } else if word == "final"@ {
        Some(TokenType::Final)
    } else if word == "permits"@ {
        Some(TokenType::Permits)
    } else if word == "if"@ {
        Some(TokenType::If)
    } else if word == "else"@ {
        Some(TokenType::Else)
    } else if word == "return"@ {
        Some(TokenType::Return)
    } else if word == "true"@ {
        Some(TokenType::True)
    } else if word == "false"@ {
        Some(TokenType::False)
    } else if word == "nil"@ {
        Some(TokenType::Null)
    } else if word == "int"@ {
        Some(TokenType::IntType)
    } else if word == "float"@ {
        Some(TokenType::FloatType)
    } else if word == "string"@ {
        Some(TokenType::StringType)
    } else if word == "bool"@ {
        Some(TokenType::BoolType)
    } else if word == "void"@ {
        Some(TokenType::VoidType)
    } else {
        None
    }
}

/// The state with one more token, recognised at `line`:`col`.
pub open spec fn with_token(
    st: ScanState,
    ty: TokenType,
    lexeme: Seq<char>,
    line: nat,
    col: nat,
) -> Seq<TokenView> {
    st.tokens.push(token_view(ty, lexeme, line, col))
}

/// The end of a `//` comment: the first position at or after `i` that holds a line
/// feed or lies past the end. The line feed itself is left for the next step.
pub open spec fn line_comment_end(src: Seq<char>, i: nat) -> nat
    decreases src.len() - i,
{
    if i < src.len() && src[i as int] != '\n' {
        line_comment_end(src, i + 1)
    } else {
        i
    }
}

/// The inside of a `/* */` comment from `i` on: the position of the closing `*/` (or
/// the end of the source), with the line and column reached there. A line feed starts
/// a new line at column 1.
pub open spec fn block_comment_scan(src: Seq<char>, i: nat, line: nat, col: nat) -> (nat, nat, nat)
    decreases src.len() - i,
{
    if i < src.len() && !(src[i as int] == '*' && char_at(src, i + 1) == '/') {
        if src[i as int] == '\n' {
            block_comment_scan(src, i + 1, line + 1, 1)
        } else {
            block_comment_scan(src, i + 1, line, col + 1)
        }
    } else {
        (i, line, col)
    }
}

/// Skipping a block comment that opens at the cursor. An unclosed comment runs to the
/// end of the source without error.
pub open spec fn skip_block_comment(src: Seq<char>, st: ScanState) -> ScanState {
    let (p, l, c) = block_comment_scan(src, st.pos + 2, st.line, st.col + 2);
    if p < src.len() {
        ScanState { pos: p + 2, line: l, col: c + 2, tokens: st.tokens }
    } else {
        ScanState { pos: p, line: l, col: c, tokens: st.tokens }
    }
}

/// The character an escape sequence `\\c` stands for: `\\n` a line feed, `\\t` a tab,
/// `\\r` a carriage return, `\\0` NUL; any other character (such as a backslash or a
/// quote) stands for itself.
pub open spec fn escape_char(c: char) -> char {
    if c == 'n' {
        '\n'
    } else if c == 't' {
        '\t'
    } else if c == 'r' {
        '\r'
    } else if c == '0' {
        '\0'
    } else {
        c
    }
}

/// The body of a string literal from `i` on, up to the closing quote or past the end.
/// A backslash starts an escape sequence: it is dropped and the character after it is
/// replaced as `escape_char` says. A line feed in the source inside the literal counts a
/// new line but does not reset the column.
/// Returns the position reached, the line and column there, and the text collected.
pub open spec fn string_scan(src: Seq<char>, i: nat, line: nat, col: nat, text: Seq<char>) -> (
    nat,
    nat,
    nat,
    Seq<char>,
)
    decreases src.len() + 1 - i,
{
    if i < src.len() && src[i as int] != '"' {
        let escaped = src[i as int] == '\\';
        let j: nat = if escaped {
            i + 1
        } else {
            i
        };
        let col1: nat = if escaped {
            col + 1
        } else {
            col
        };
        let c = char_at(src, j);
        let line1: nat = if c == '\n' {
            line + 1
        } else {
            line
        };
        let ch = if escaped {
            escape_char(c)
        } else {
            c
        };
        string_scan(src, j + 1, line1, col1 + 1, text.push(ch))
    } else {
        (i, line, col, text)
    }
}

/// A string literal that opens at the cursor. The token carries the line where the
/// literal ends and the column of its opening quote.
pub open spec fn scan_string(src: Seq<char>, st: ScanState) -> (ScanState, Option<Seq<char>>) {
    let (i, l, c, text) = string_scan(src, st.pos + 1, st.line, st.col + 1, Seq::empty());
    if i >= src.len() {
        (
            ScanState { pos: i, line: l, col: c, tokens: st.tokens },
            Some(error_message(l, c, "unterminated string"@)),
        )
    } else {
        (
            ScanState {
                pos: i + 1,
                line: l,
                col: c + 1,
                tokens: with_token(st, TokenType::StringLiteral, text, l, st.col),
            },
            None,
        )
    }
}

/// The end of the digits-and-dot part of a number from `i` on: digits and at most one dot. Returns the end and
/// whether a dot was taken.
pub open spec fn number_scan(src: Seq<char>, i: nat, seen_dot: bool) -> (nat, bool)
    decreases src.len() - i,
{
    if i < src.len() && (spec_is_ascii_digit(src[i as int]) || src[i as int] == '.') {
        if src[i as int] == '.' {
            if seen_dot {
                (i, true)
            } else {
                number_scan(src, i + 1, true)
            }
        } else {
            number_scan(src, i + 1, seen_dot)
        }
    } else {
        (i, seen_dot)
    }
}

/// Whether `c` is a digit in base `radix` (2, 10 or 16; hexadecimal digits in either
/// case).
pub open spec fn is_digit_of(c: char, radix: nat) -> bool {
    if radix == 16 {
        spec_is_ascii_digit(c) || ('a' <= c && c <= 'f') || ('A' <= c && c <= 'F')
    } else if radix == 2 {
        c == '0' || c == '1'
    } else {
        spec_is_ascii_digit(c)
    }
}

/// The end of a run of base-`radix` digits from `i` on.
pub open spec fn digits_end(src: Seq<char>, i: nat, radix: nat) -> nat
    decreases src.len() - i,
{
    if i < src.len() && is_digit_of(src[i as int], radix) {
        digits_end(src, i + 1, radix)
    } else {
        i
    }
}

/// The end of an exponent that starts at `m` (`e` or `E`, an optional sign, and at
/// least one digit), or `m` itself when no exponent starts there.
pub open spec fn exponent_end(src: Seq<char>, m: nat) -> nat {
    if char_at(src, m) == 'e' || char_at(src, m) == 'E' {
        if spec_is_ascii_digit(char_at(src, m + 1)) {
            digits_end(src, m + 1, 10)
        } else if (char_at(src, m + 1) == '+' || char_at(src, m + 1) == '-') && spec_is_ascii_digit(
            char_at(src, m + 2),
        ) {
            digits_end(src, m + 2, 10)
        } else {
            m
        }
    } else {
        m
    }
}

/// The end of a size suffix (`f4` or `f8`) that starts at `e`, or `e` itself when none
/// starts there.
pub open spec fn suffix_end(src: Seq<char>, e: nat) -> nat {
    if char_at(src, e) == 'f' && (char_at(src, e + 1) == '4' || char_at(src, e + 1) == '8') {
        e + 2
    } else {
        e
    }
}

/// The end of the number that starts at `pos`, and whether it is a float.
/// `0x` followed by a hexadecimal digit starts a hexadecimal integer, `0b` followed by a
/// binary digit a binary integer. Otherwise the number is digits with at most one dot,
/// then an optional exponent, then an optional size suffix; it is a float when it has a
/// dot, an exponent or a suffix.
pub open spec fn number_end(src: Seq<char>, pos: nat) -> (nat, bool) {
    if char_at(src, pos) == '0' && char_at(src, pos + 1) == 'x' && is_digit_of(
        char_at(src, pos + 2),
        16,
    ) {
        (digits_end(src, pos + 2, 16), false)
    } else if char_at(src, pos) == '0' && char_at(src, pos + 1) == 'b' && is_digit_of(
        char_at(src, pos + 2),
        2,
    ) {
        (digits_end(src, pos + 2, 2), false)
    } else {
        let (m, dot) = number_scan(src, pos, false);
        let x = exponent_end(src, m);
        let f = suffix_end(src, x);
        (f, dot || x > m || f > x)
    }
}

/// A number that starts at the cursor: an integer literal, or a float literal.
pub open spec fn scan_number(src: Seq<char>, st: ScanState) -> ScanState {
    let (end, is_float) = number_end(src, st.pos);
    let ty = if is_float {
        TokenType::FloatLiteral
    } else {
        TokenType::IntLiteral
    };
    ScanState {
        pos: end,
        line: st.line,
        col: (st.col + end - st.pos) as nat,
        tokens: with_token(st, ty, src.subrange(st.pos as int, end as int), st.line, st.col),
    }
}

/// Characters that continue a word: alphanumeric characters and the underscore.
pub open spec fn is_word_char(c: char) -> bool {
    spec_is_alphanumeric(c) || c == '_'
}

/// The end of a word from `i` on.
pub open spec fn word_end(src: Seq<char>, i: nat) -> nat
    decreases src.len() - i,
{
    if i < src.len() && is_word_char(src[i as int]) {
        word_end(src, i + 1)
    } else {
        i
    }
}

/// A word that starts at the cursor (on a letter or underscore, which always belongs
/// to the word): a keyword token if it is a reserved word, an identifier otherwise.
pub open spec fn scan_word(src: Seq<char>, st: ScanState) -> ScanState {
    let end = word_end(src, st.pos + 1);
    let text = src.subrange(st.pos as int, end as int);
    let ty = match keyword_of(text) {
        Some(k) => k,
        None => TokenType::Ident,
    };
    ScanState {
        pos: end,
        line: st.line,
        col: (st.col + end - st.pos) as nat,
        tokens: with_token(st, ty, text, st.line, st.col),
    }
}

/// A one-character operator token.
pub open spec fn single(st: ScanState, ty: TokenType, c: char) -> (ScanState, Option<Seq<char>>) {
    (
        ScanState {
            pos: st.pos + 1,
            line: st.line,
            col: st.col + 1,
            tokens: with_token(st, ty, seq![c], st.line, st.col),
        },
        None,
    )
}

/// A two-character operator token.
pub open spec fn double(st: ScanState, ty: TokenType, text: Seq<char>) -> (
    ScanState,
    Option<Seq<char>>,
) {
    (
        ScanState {
            pos: st.pos + 2,
            line: st.line,
            col: st.col + 2,
            tokens: with_token(st, ty, text, st.line, st.col),
        },
        None,
    )
}

/// A three-character operator token.
pub open spec fn triple(st: ScanState, ty: TokenType, text: Seq<char>) -> (
    ScanState,
    Option<Seq<char>>,
) {
    (
        ScanState {
            pos: st.pos + 3,
            line: st.line,
            col: st.col + 3,
            tokens: with_token(st, ty, text, st.line, st.col),
        },
        None,
    )
}

/// Stopping with an error at the cursor.
pub open spec fn fail(st: ScanState, msg: Seq<char>) -> (ScanState, Option<Seq<char>>) {
    (st, Some(error_message(st.line, st.col, msg)))
}

/// An operator or delimiter at the cursor, or an error for a character that starts none.
pub open spec fn scan_operator(src: Seq<char>, st: ScanState) -> (ScanState, Option<Seq<char>>) {
    let c = src[st.pos as int];
    let next = char_at(src, st.pos + 1);
    if c == '+' {
        single(st, TokenType::Plus, c)
    } else if c == '-' {
        single(st, TokenType::Minus, c)
    } else if c == '*' {
        single(st, TokenType::Star, c)
    } else if c == '/' {
        single(st, TokenType::Slash, c)
    } else if c == '%' {
        single(st, TokenType::Percent, c)
    } else if c == '(' {
        single(st, TokenType::LParen, c)
    } else if c == ')' {
        single(st, TokenType::RParen, c)
    } else if c == '{' {
        single(st, TokenType::LBrace, c)
    } else if c == '}' {
        single(st, TokenType::RBrace, c)
    } else if c == ',' {
        single(st, TokenType::Comma, c)
    } else if c == ';' {
        single(st, TokenType::Semi, c)
    } else if c == '[' {
        single(st, TokenType::LBracket, c)
    } else if c == ']' {
        single(st, TokenType::RBracket, c)
    } else if c == '#' {
        single(st, TokenType::Hash, c)
    } else if c == '&' {
        single(st, TokenType::Amp, c)
    } else if c == '|' {
        single(st, TokenType::Pipe, c)
    } else if c == '.' {
        if spec_is_ascii_digit(next) {
            (scan_number(src, st), None)
        } else if next == '.' && char_at(src, st.pos + 2) == '.' {
            triple(st, TokenType::Ellipsis, "..."@)
        } else {
            single(st, TokenType::Dot, c)
        }
    } else if c == ':' {
        if next == '=' {
            double(st, TokenType::ColonDefine, ":="@)
        } else if next == ':' {
            double(st, TokenType::ColonColon, "::"@)
        } else {
            fail(st, "expected ':='"@)
        }
    } else if c == '=' {
        if next == '=' {
            double(st, TokenType::Eq, "=="@)
        } else {
            single(st, TokenType::Assign, c)
        }
    } else if c == '!' {
        if next == '=' {
            double(st, TokenType::Neq, "!="@)
        } else {
            fail(st, "expected '!='"@)
        }
    } else if c == '<' {
        if next == '=' {
            double(st, TokenType::Le, "<="@)
        } else {
            single(st, TokenType::Lt, c)
        }
    } else if c == '>' {
        if next == '=' {
            double(st, TokenType::Ge, ">="@)
        } else {
            single(st, TokenType::Gt, c)
        }
    } else {
        fail(st, "unexpected character '"@.push(c).push('\''))
    }
}

/// One step of the scanner at a cursor inside the source: the state after it, and the
/// error message if it stops the scan.
pub open spec fn scan_step(src: Seq<char>, st: ScanState) -> (ScanState, Option<Seq<char>>) {
    let c = src[st.pos as int];
    let next = char_at(src, st.pos + 1);
    if c == '\n' {
        (
            ScanState {
                pos: st.pos + 1,
                line: st.line + 1,
                col: 1,
                tokens: with_token(st, TokenType::Newline, newline_lexeme(), st.line, st.col),
            },
            None,
        )
    } else if c == '\t' {
        fail(st, "tab characters are not allowed"@)
    } else if spec_is_whitespace(c) {
        (ScanState { pos: st.pos + 1, line: st.line, col: st.col + 1, tokens: st.tokens }, None)
    } else if c == '/' && next == '/' {
        let e = line_comment_end(src, st.pos);
        (ScanState { pos: e, line: st.line, col: (st.col + e - st.pos) as nat, tokens: st.tokens }, None)
    } else if c == '/' && next == '*' {
        (skip_block_comment(src, st), None)
    } else if c == '"' {
        scan_string(src, st)
    } else if spec_is_ascii_digit(c) {
        (scan_number(src, st), None)
    } else if spec_is_alphabetic(c) || c == '_' {
        (scan_word(src, st), None)
    } else {
        scan_operator(src, st)
    }
}

/// Scanning the rest of the source from `st`: the final state and the result. At the
/// end of the source an end-of-input token is appended and all tokens are handed out
/// (the state keeps none); an error stops the scan where it occurred.
pub open spec fn scan_from(src: Seq<char>, st: ScanState) -> (
    ScanState,
    Result<Seq<TokenView>, Seq<char>>,
)
    decreases src.len() - st.pos,
    via scan_from_decreases
{
    if st.pos < src.len() {
        let (next, err) = scan_step(src, st);
        match err {
            Some(msg) => (next, Err(msg)),
            None => scan_from(src, next),
        }
    } else {
        (
            ScanState { pos: st.pos, line: st.line, col: st.col, tokens: Seq::empty() },
            Ok(with_token(st, TokenType::Eof, Seq::empty(), st.line, st.col)),
        )
    }
}

/// The state of a fresh lexer: start of the source, line 1, column 1, no tokens.
pub open spec fn initial_state() -> ScanState {
    ScanState { pos: 0, line: 1, col: 1, tokens: Seq::empty() }
}

/// Scanning a whole source text from the start.
pub open spec fn lex(src: Seq<char>) -> Result<Seq<TokenView>, Seq<char>> {
    scan_from(src, initial_state()).1
}

#[via_fn]
proof fn scan_from_decreases(src: Seq<char>, st: ScanState) {
    if st.pos < src.len() {
        lemma_step_progress(src, st);
    }
}

pub(crate) proof fn lemma_line_comment_end(src: Seq<char>, i: nat)
    requires
        i <= src.len(),
    ensures
        i <= line_comment_end(src, i) <= src.len(),
    decreases src.len() - i,
{
    if i < src.len() && src[i as int] != '\n' {
        lemma_line_comment_end(src, i + 1);
    }
}

pub(crate) proof fn lemma_block_comment_scan(src: Seq<char>, i: nat, line: nat, col: nat)
    requires
        i <= src.len(),
    ensures
        ({
            let (p, l, c) = block_comment_scan(src, i, line, col);
            &&& i <= p <= src.len()
            &&& p < src.len() ==> p + 1 < src.len()
        }),
    decreases src.len() - i,
{
    if i < src.len() && !(src[i as int] == '*' && char_at(src, i + 1) == '/') {
        if src[i as int] == '\n' {
            lemma_block_comment_scan(src, i + 1, line + 1, 1);
        } else {
            lemma_block_comment_scan(src, i + 1, line, col + 1);
        }
    }
}

pub(crate) proof fn lemma_string_scan(src: Seq<char>, i: nat, line: nat, col: nat, text: Seq<char>)
    ensures
        string_scan(src, i, line, col, text).0 >= i,
    decreases src.len() + 1 - i,
{
    if i < src.len() && src[i as int] != '"' {
        let escaped = src[i as int] == '\\';
        let j: nat = if escaped {
            i + 1
        } else {
            i
        };
        let col1: nat = if escaped {
            col + 1
        } else {
            col
        };
        let c = char_at(src, j);
        let line1: nat = if c == '\n' {
            line + 1
        } else {
            line
        };
        let ch = if escaped {
            escape_char(c)
        } else {
            c
        };
        lemma_string_scan(src, j + 1, line1, col1 + 1, text.push(ch));
    }
}

pub(crate) proof fn lemma_number_scan(src: Seq<char>, i: nat, seen_dot: bool)
    requires
        i <= src.len(),
    ensures
        i <= number_scan(src, i, seen_dot).0 <= src.len(),
    decreases src.len() - i,
{
    if i < src.len() && (spec_is_ascii_digit(src[i as int]) || src[i as int] == '.') {
        if src[i as int] == '.' {
            if !seen_dot {
                lemma_number_scan(src, i + 1, true);
            }
        } else {
            lemma_number_scan(src, i + 1, seen_dot);
        }
    }
}

pub(crate) proof fn lemma_word_end(src: Seq<char>, i: nat)
    requires
        i <= src.len(),
    ensures
        i <= word_end(src, i) <= src.len(),
    decreases src.len() - i,
{
    if i < src.len() && is_word_char(src[i as int]) {
        lemma_word_end(src, i + 1);
    }
}

/// A number that starts on a digit, or on a dot followed by a digit, takes at least
/// that first character.
proof fn lemma_number_progress(src: Seq<char>, st: ScanState)
    requires
        st.pos < src.len(),
        spec_is_ascii_digit(src[st.pos as int]) || src[st.pos as int] == '.',
    ensures
        st.pos < scan_number(src, st).pos <= src.len(),
{
    lemma_number_scan(src, st.pos + 1, true);
    lemma_number_scan(src, st.pos + 1, false);
    let pos = st.pos;
    if char_at(src, pos) == '0' && char_at(src, pos + 1) == 'x' && is_digit_of(char_at(src, pos + 2), 16) {
        lemma_digits_end(src, pos + 2, 16);
    } else if char_at(src, pos) == '0' && char_at(src, pos + 1) == 'b' && is_digit_of(
        char_at(src, pos + 2),
        2,
    ) {
        lemma_digits_end(src, pos + 2, 2);
    } else {
        let (m, dot) = number_scan(src, pos, false);
        lemma_number_scan(src, pos, false);
        lemma_exponent_end(src, m);
    }
}

pub(crate) proof fn lemma_digits_end(src: Seq<char>, i: nat, radix: nat)
    requires
        i <= src.len(),
    ensures
        i <= digits_end(src, i, radix) <= src.len(),
        forall|k: int| i <= k < digits_end(src, i, radix) ==> is_digit_of(#[trigger] src[k], radix),
    decreases src.len() - i,
{
    if i < src.len() && is_digit_of(src[i as int], radix) {
        lemma_digits_end(src, i + 1, radix);
    }
}

/// The exponent and the suffix stay within the source.
pub(crate) proof fn lemma_exponent_end(src: Seq<char>, m: nat)
    requires
        m <= src.len(),
    ensures
        m <= exponent_end(src, m) <= suffix_end(src, exponent_end(src, m)) <= src.len(),
{
    if char_at(src, m) == 'e' || char_at(src, m) == 'E' {
        if spec_is_ascii_digit(char_at(src, m + 1)) {
            lemma_digits_end(src, m + 1, 10);
        } else if (char_at(src, m + 1) == '+' || char_at(src, m + 1) == '-') && spec_is_ascii_digit(
            char_at(src, m + 2),
        ) {
            lemma_digits_end(src, m + 2, 10);
        }
    }
}

/// A step that does not stop the scan moves the cursor forward and keeps it within the
/// source.
pub proof fn lemma_step_progress(src: Seq<char>, st: ScanState)
    requires
        st.pos < src.len(),
    ensures
        scan_step(src, st).1 is None ==> st.pos < scan_step(src, st).0.pos <= src.len(),
{
    let c = src[st.pos as int];
    let next = char_at(src, st.pos + 1);
    if c == '\n' {
    } else if spec_is_whitespace(c) {
    } else if c == '/' && next == '/' {
        lemma_line_comment_end(src, st.pos + 1);
    } else if c == '/' && next == '*' {
        lemma_block_comment_scan(src, st.pos + 2, st.line, st.col + 2);
    } else if c == '"' {
        lemma_string_scan(src, st.pos + 1, st.line, st.col + 1, Seq::empty());
    } else if spec_is_ascii_digit(c) {
        lemma_number_progress(src, st);
    } else if spec_is_alphabetic(c) || c == '_' {
        lemma_word_end(src, st.pos + 1);
    } else if c == '.' && spec_is_ascii_digit(next) {
        lemma_number_progress(src, st);
    } else if c == '.' && next == '.' && char_at(src, st.pos + 2) == '.' {
    }
}

} // verus!
