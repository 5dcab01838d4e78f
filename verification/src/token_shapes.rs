//! What one scanning step makes of the text at the cursor, stated over the characters
//! of the source themselves: which characters a string, number or word token takes, and
//! where it stops.

use vstd::prelude::*;
use crate::scan_spec::{
    char_at, digits_end, is_digit_of, is_word_char, keyword_of, number_end, number_scan,
    scan_step, string_scan, word_end, ScanState,
};
use crate::text::{char_is_alphabetic, char_is_alphanumeric, spec_is_whitespace};
use crate::token::{TokenType, TokenView};

verus! {

/// The step from `st` succeeds, moves the cursor to `end`, and adds exactly one token,
/// of kind `ty` with text `text`, at the cursor's column.
pub open spec fn adds_one_token(
    s: Seq<char>,
    st: ScanState,
    end: nat,
    ty: TokenType,
    text: Seq<char>,
) -> bool {
    let (n, e) = scan_step(s, st);
    &&& e is None
    &&& n.pos == end
    &&& n.tokens.len() == st.tokens.len() + 1
    &&& n.tokens.drop_last() == st.tokens
    &&& n.tokens.last().ty == ty
    &&& n.tokens.last().lexeme == text
    &&& n.tokens.last().col == st.col
}

/// A decimal digit `0` to `9`.
pub open spec fn is_dec_digit(c: char) -> bool {
    '0' <= c && c <= '9'
}

/// A hexadecimal digit: `0` to `9`, `a` to `f` or `A` to `F`.
pub open spec fn is_hex_digit(c: char) -> bool {
    is_dec_digit(c) || ('a' <= c && c <= 'f') || ('A' <= c && c <= 'F')
}

/// A binary digit: `0` or `1`.
pub open spec fn is_bin_digit(c: char) -> bool {
    c == '0' || c == '1'
}

/// An ASCII letter.
pub open spec fn is_letter(c: char) -> bool {
    ('a' <= c && c <= 'z') || ('A' <= c && c <= 'Z')
}

/// A character that can stand inside a word: a letter, a digit or `_` (beyond ASCII,
/// an alphanumeric character).
pub open spec fn continues_word(c: char) -> bool {
    ||| c == '_'
    ||| is_letter(c)
    ||| is_dec_digit(c)
    ||| (c > '\x7f' && char_is_alphanumeric(c))
}

/// A character that can start a word: a letter or `_` (beyond ASCII, an alphabetic
/// character that is not white space).
pub open spec fn starts_word(c: char) -> bool {
    ||| c == '_'
    ||| is_letter(c)
    ||| (c > '\x7f' && char_is_alphabetic(c) && !spec_is_whitespace(c))
}

proof fn lemma_push_drop(ts: Seq<TokenView>)
    ensures
        forall|t: TokenView| #[trigger] ts.push(t).drop_last() == ts,
{
    assert forall|t: TokenView| #[trigger] ts.push(t).drop_last() == ts by {
        assert(ts.push(t).drop_last() =~= ts);
    }
}

proof fn lemma_plain_body(s: Seq<char>, i: nat, q: nat, line: nat, col: nat, text: Seq<char>)
    requires
        i <= q < s.len(),
        s[q as int] == '"',
        forall|j: int| i <= j < q ==> #[trigger] s[j] != '"' && s[j] != '\\',
    ensures
        string_scan(s, i, line, col, text).0 == q,
        string_scan(s, i, line, col, text).3 == text + s.subrange(i as int, q as int),
    decreases q - i,
{
    if i < q {
        let c = s[i as int];
        assert(char_at(s, i) == c);
        let line1: nat = if c == '\n' {
            line + 1
        } else {
            line
        };
        lemma_plain_body(s, i + 1, q, line1, col + 1, text.push(c));
        assert(text.push(c) + s.subrange(i + 1int, q as int) =~= text + s.subrange(
            i as int,
            q as int,
        ));
    } else {
        assert(text + s.subrange(i as int, q as int) =~= text);
    }
}

/// A string literal with no backslash in it is taken as it stands: the token's text is
/// exactly the characters between the quotes, and the cursor moves past the closing
/// quote.
pub proof fn lemma_plain_string(s: Seq<char>, st: ScanState, q: nat)
    requires
        st.pos < q < s.len(),
        s[st.pos as int] == '"',
        s[q as int] == '"',
        forall|j: int| st.pos < j < q ==> #[trigger] s[j] != '"' && s[j] != '\\',
    ensures
        adds_one_token(s, st, q + 1, TokenType::StringLiteral, s.subrange(st.pos + 1int, q as int)),
{
    lemma_push_drop(st.tokens);
    lemma_plain_body(s, st.pos + 1, q, st.line, st.col + 1, Seq::empty());
    assert(Seq::<char>::empty() + s.subrange(st.pos + 1int, q as int) =~= s.subrange(
        st.pos + 1int,
        q as int,
    ));
}

/// A string literal that holds one escape sequence gives one character: `\n` a line
/// feed, `\t` a tab, `\r` a carriage return, `\0` NUL, and a backslash before any
/// other character (a quote or a backslash among them) that character itself.
pub proof fn lemma_escape_string(s: Seq<char>, st: ScanState)
    requires
        st.pos + 3 < s.len(),
        s[st.pos as int] == '"',
        s[st.pos + 1int] == '\\',
        s[st.pos + 3int] == '"',
    ensures
        ({
            let c = s[st.pos + 2int];
            let x = if c == 'n' {
                '\n'
            } else if c == 't' {
                '\t'
            } else if c == 'r' {
                '\r'
            } else if c == '0' {
                '\0'
            } else {
                c
            };
            adds_one_token(s, st, st.pos + 4, TokenType::StringLiteral, seq![x])
        }),
{
    lemma_push_drop(st.tokens);
    let p = st.pos;
    assert(char_at(s, p + 2) == s[p + 2int]);
    let c = s[p + 2int];
    let line1: nat = if c == '\n' {
        st.line + 1
    } else {
        st.line
    };
    assert(string_scan(s, p + 1, st.line, st.col + 1, Seq::empty()) == string_scan(
        s,
        p + 3,
        line1,
        st.col + 3,
        Seq::<char>::empty().push(crate::scan_spec::escape_char(c)),
    ));
    assert(Seq::<char>::empty().push(crate::scan_spec::escape_char(c)) =~= seq![
        crate::scan_spec::escape_char(c),
    ]);
}

proof fn lemma_digit_run(s: Seq<char>, i: nat, q: nat, radix: nat)
    requires
        i <= q <= s.len(),
        forall|j: int| i <= j < q ==> is_digit_of(#[trigger] s[j], radix),
        q == s.len() || !is_digit_of(s[q as int], radix),
    ensures
        digits_end(s, i, radix) == q,
    decreases q - i,
{
    if i < q {
        lemma_digit_run(s, i + 1, q, radix);
    }
}

/// `0x` followed by hexadecimal digits is one integer token that takes every following
/// hexadecimal digit, in either case.
pub proof fn lemma_hex_number(s: Seq<char>, st: ScanState, q: nat)
    requires
        st.pos + 3 <= q <= s.len(),
        s[st.pos as int] == '0',
        s[st.pos + 1int] == 'x',
        forall|j: int| st.pos + 2 <= j < q ==> is_hex_digit(#[trigger] s[j]),
        q == s.len() || !is_hex_digit(s[q as int]),
    ensures
        adds_one_token(s, st, q, TokenType::IntLiteral, s.subrange(st.pos as int, q as int)),
{
    lemma_push_drop(st.tokens);
    assert forall|j: int| st.pos + 2 <= j < q implies is_digit_of(#[trigger] s[j], 16) by {
        assert(is_hex_digit(s[j]));
    }
    lemma_digit_run(s, st.pos + 2, q, 16);
    assert(char_at(s, st.pos + 2) == s[st.pos + 2int]);
    assert(is_hex_digit(s[st.pos + 2int]));
    assert(number_end(s, st.pos) == (q, false));
}

/// `0b` followed by binary digits is one integer token that takes every following
/// binary digit.
pub proof fn lemma_bin_number(s: Seq<char>, st: ScanState, q: nat)
    requires
        st.pos + 3 <= q <= s.len(),
        s[st.pos as int] == '0',
        s[st.pos + 1int] == 'b',
        forall|j: int| st.pos + 2 <= j < q ==> is_bin_digit(#[trigger] s[j]),
        q == s.len() || !is_bin_digit(s[q as int]),
    ensures
        adds_one_token(s, st, q, TokenType::IntLiteral, s.subrange(st.pos as int, q as int)),
{
    lemma_push_drop(st.tokens);
    assert forall|j: int| st.pos + 2 <= j < q implies is_digit_of(#[trigger] s[j], 2) by {
        assert(is_bin_digit(s[j]));
    }
    lemma_digit_run(s, st.pos + 2, q, 2);
    assert(char_at(s, st.pos + 2) == s[st.pos + 2int]);
    assert(number_end(s, st.pos) == (q, false));
}

proof fn lemma_dec_run(s: Seq<char>, i: nat, q: nat, dot: bool)
    requires
        i <= q <= s.len(),
        forall|j: int| i <= j < q ==> is_dec_digit(#[trigger] s[j]),
        q < s.len(),
        !is_dec_digit(s[q as int]),
        s[q as int] != '.',
    ensures
        number_scan(s, i, dot) == (q, dot),
    decreases q - i,
{
    if i < q {
        lemma_dec_run(s, i + 1, q, dot);
    }
}

proof fn lemma_dec_run_to_end(s: Seq<char>, i: nat, dot: bool)
    requires
        i <= s.len(),
        forall|j: int| i <= j < s.len() ==> is_dec_digit(#[trigger] s[j]),
    ensures
        number_scan(s, i, dot) == (s.len(), dot),
    decreases s.len() - i,
{
    if i < s.len() {
        lemma_dec_run_to_end(s, i + 1, dot);
    }
}

/// Whether the decimal digits of `s` from `i` to `q` run up to the end of the number:
/// `q` is the end of the source, or a character that no number continues with (neither
/// a letter, a digit, `_` nor `.`).
pub open spec fn digits_stop_at(s: Seq<char>, q: nat) -> bool {
    q == s.len() || !(is_letter(s[q as int]) || is_dec_digit(s[q as int]) || s[q as int] == '_'
        || s[q as int] == '.')
}

/// Decimal digits followed by neither a letter, a digit, `_` nor `.` are one integer
/// token that takes all of them.
pub proof fn lemma_dec_integer(s: Seq<char>, st: ScanState, q: nat)
    requires
        st.pos < q <= s.len(),
        forall|j: int| st.pos <= j < q ==> is_dec_digit(#[trigger] s[j]),
        digits_stop_at(s, q),
    ensures
        adds_one_token(s, st, q, TokenType::IntLiteral, s.subrange(st.pos as int, q as int)),
{
    lemma_push_drop(st.tokens);
    let p = st.pos;
    assert(is_dec_digit(s[p as int]));
    if q < s.len() {
        lemma_dec_run(s, p, q, false);
    } else {
        lemma_dec_run_to_end(s, p, false);
    }
    if p + 1 < q {
        assert(is_dec_digit(s[p + 1int]));
    }
    assert(char_at(s, p + 1) != 'x' && char_at(s, p + 1) != 'b');
    assert(number_end(s, p) == (q, false));
}

/// Decimal digits, a dot and decimal digits, followed by neither a letter, a digit, `_`
/// nor `.`, are one float token that takes all of them.
pub proof fn lemma_dec_float(s: Seq<char>, st: ScanState, d: nat, q: nat)
    requires
        st.pos < d < q <= s.len(),
        forall|j: int| st.pos <= j < d ==> is_dec_digit(#[trigger] s[j]),
        s[d as int] == '.',
        forall|j: int| d < j < q ==> is_dec_digit(#[trigger] s[j]),
        digits_stop_at(s, q),
    ensures
        adds_one_token(s, st, q, TokenType::FloatLiteral, s.subrange(st.pos as int, q as int)),
{
    lemma_push_drop(st.tokens);
    let p = st.pos;
    assert(is_dec_digit(s[p as int]));
    if q < s.len() {
        lemma_dec_run(s, d + 1, q, true);
    } else {
        lemma_dec_run_to_end(s, d + 1, true);
    }
    lemma_float_prefix(s, p, d);
    if p + 1 < d {
        assert(is_dec_digit(s[p + 1int]));
    }
    assert(char_at(s, p + 1) != 'x' && char_at(s, p + 1) != 'b');
    assert(number_end(s, p) == (q, true));
}

proof fn lemma_float_prefix(s: Seq<char>, i: nat, d: nat)
    requires
        i <= d < s.len(),
        forall|j: int| i <= j < d ==> is_dec_digit(#[trigger] s[j]),
        s[d as int] == '.',
    ensures
        number_scan(s, i, false) == number_scan(s, d + 1, true),
    decreases d - i,
{
    if i < d {
        lemma_float_prefix(s, i + 1, d);
    }
}

proof fn lemma_word_char(c: char)
    ensures
        is_word_char(c) == continues_word(c),
{
}

proof fn lemma_word_run(s: Seq<char>, i: nat)
    requires
        i <= s.len(),
    ensures
        i <= word_end(s, i) <= s.len(),
        forall|j: int| i <= j < word_end(s, i) ==> continues_word(#[trigger] s[j]),
        word_end(s, i) == s.len() || !continues_word(s[word_end(s, i) as int]),
    decreases s.len() - i,
{
    if i < s.len() {
        lemma_word_char(s[i as int]);
        if is_word_char(s[i as int]) {
            lemma_word_run(s, i + 1);
        }
    }
}

/// A word starts on a letter or `_` and takes every following letter, digit and `_`:
/// the step ends where a character that cannot stand inside a word (or the end of the
/// source) comes, and adds one token whose text is the word, a keyword's kind if it is
/// a reserved word and an identifier otherwise.
pub proof fn lemma_word(s: Seq<char>, st: ScanState)
    requires
        st.pos < s.len(),
        starts_word(s[st.pos as int]),
    ensures
        ({
            let end = scan_step(s, st).0.pos;
            let text = s.subrange(st.pos as int, end as int);
            &&& st.pos < end <= s.len()
            &&& forall|j: int| st.pos < j < end ==> continues_word(#[trigger] s[j])
            &&& end == s.len() || !continues_word(s[end as int])
            &&& adds_one_token(
                s,
                st,
                end,
                match keyword_of(text) {
                    Some(k) => k,
                    None => TokenType::Ident,
                },
                text,
            )
        }),
{
    lemma_push_drop(st.tokens);
    lemma_word_run(s, st.pos + 1);
}

} // verus!
