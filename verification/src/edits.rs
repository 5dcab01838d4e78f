//! How the outcome of a scan responds to edits of the source text: what follows a
//! cursor is scanned the same way wherever that text stands.

use vstd::prelude::*;
use crate::scan_spec::{
    block_comment_scan, char_at, digits_end, exponent_end, initial_state, keyword_of, lex,
    lemma_block_comment_scan, lemma_step_progress,
    line_comment_end, number_end, number_scan, scan_from, scan_step, string_scan, suffix_end,
    word_end, ScanState,
};
use crate::token::{TokenType, TokenView};

verus! {

/// `s2` from position `i2` on holds exactly the characters that `s` holds from `i` on.
pub open spec fn same_rest(s: Seq<char>, i: nat, s2: Seq<char>, i2: nat) -> bool {
    &&& i <= s.len()
    &&& i2 <= s2.len()
    &&& s.len() - i == s2.len() - i2
    &&& forall|k: int| 0 <= k < s.len() - i ==> #[trigger] s[i + k] == s2[i2 + k]
}

/// Two token sequences that agree in kinds, texts and lines (columns may differ).
pub open spec fn tokens_match(ts: Seq<TokenView>, ts2: Seq<TokenView>) -> bool {
    &&& ts.len() == ts2.len()
    &&& forall|i: int|
        0 <= i < ts.len() ==> {
            &&& (#[trigger] ts[i]).ty == ts2[i].ty
            &&& ts[i].lexeme == ts2[i].lexeme
            &&& ts[i].line == ts2[i].line
        }
}

/// Two scanner states, in two sources, that will be scanned alike: the rest of the
/// sources agree, the lines agree, and the tokens so far match.
pub open spec fn scans_alike(s: Seq<char>, st: ScanState, s2: Seq<char>, st2: ScanState) -> bool {
    &&& same_rest(s, st.pos, s2, st2.pos)
    &&& st.line == st2.line
    &&& tokens_match(st.tokens, st2.tokens)
}

proof fn lemma_char(s: Seq<char>, i: nat, s2: Seq<char>, i2: nat, k: nat)
    requires
        same_rest(s, i, s2, i2),
    ensures
        char_at(s, i + k) == char_at(s2, i2 + k),
        (i + k < s.len()) == (i2 + k < s2.len()),
{
    if i + k < s.len() {
        assert(s[i + k as int] == s2[i2 + k as int]);
    }
}

proof fn lemma_skip(s: Seq<char>, i: nat, s2: Seq<char>, i2: nat, k: nat)
    requires
        same_rest(s, i, s2, i2),
        i + k <= s.len(),
    ensures
        same_rest(s, i + k, s2, i2 + k),
{
    assert forall|m: int| 0 <= m < s.len() - (i + k) implies #[trigger] s[(i + k) + m] == s2[(i2
        + k) + m] by {
        assert(s[i + (k + m)] == s2[i2 + (k + m)]);
    }
}

proof fn lemma_subrange(s: Seq<char>, i: nat, s2: Seq<char>, i2: nat, n: nat)
    requires
        same_rest(s, i, s2, i2),
        i + n <= s.len(),
    ensures
        s.subrange(i as int, (i + n) as int) == s2.subrange(i2 as int, (i2 + n) as int),
{
    let a = s.subrange(i as int, (i + n) as int);
    let b = s2.subrange(i2 as int, (i2 + n) as int);
    assert forall|m: int| 0 <= m < n implies #[trigger] a[m] == b[m] by {
        assert(s[i + m] == s2[i2 + m]);
    }
    assert(s.subrange(i as int, (i + n) as int) =~= s2.subrange(i2 as int, (i2 + n) as int));
}

proof fn lemma_shift_line_comment(s: Seq<char>, i: nat, s2: Seq<char>, i2: nat)
    requires
        same_rest(s, i, s2, i2),
    ensures
        line_comment_end(s2, i2) - i2 == line_comment_end(s, i) - i,
    decreases s.len() - i,
{
    lemma_char(s, i, s2, i2, 0);
    if i < s.len() && s[i as int] != '\n' {
        lemma_skip(s, i, s2, i2, 1);
        lemma_shift_line_comment(s, i + 1, s2, i2 + 1);
    }
}

proof fn lemma_shift_block(
    s: Seq<char>,
    i: nat,
    s2: Seq<char>,
    i2: nat,
    line: nat,
    c1: nat,
    c2: nat,
)
    requires
        same_rest(s, i, s2, i2),
    ensures
        ({
            let r = block_comment_scan(s, i, line, c1);
            let r2 = block_comment_scan(s2, i2, line, c2);
            r2.0 - i2 == r.0 - i && r2.1 == r.1
        }),
    decreases s.len() - i,
{
    lemma_char(s, i, s2, i2, 0);
    lemma_char(s, i, s2, i2, 1);
    if i < s.len() && !(s[i as int] == '*' && char_at(s, i + 1) == '/') {
        lemma_skip(s, i, s2, i2, 1);
        if s[i as int] == '\n' {
            lemma_shift_block(s, i + 1, s2, i2 + 1, line + 1, 1, 1);
        } else {
            lemma_shift_block(s, i + 1, s2, i2 + 1, line, c1 + 1, c2 + 1);
        }
    }
}

proof fn lemma_shift_string(
    s: Seq<char>,
    i: nat,
    s2: Seq<char>,
    i2: nat,
    line: nat,
    c1: nat,
    c2: nat,
    text: Seq<char>,
)
    requires
        same_rest(s, i, s2, i2),
    ensures
        ({
            let r = string_scan(s, i, line, c1, text);
            let r2 = string_scan(s2, i2, line, c2, text);
            r2.0 - i2 == r.0 - i && r2.1 == r.1 && r2.3 == r.3
        }),
    decreases s.len() + 1 - i,
{
    lemma_char(s, i, s2, i2, 0);
    lemma_char(s, i, s2, i2, 1);
    if i < s.len() && s[i as int] != '"' {
        let escaped = s[i as int] == '\\';
        let k: nat = if escaped {
            2
        } else {
            1
        };
        let j: nat = (i + k - 1) as nat;
        let j2: nat = (i2 + k - 1) as nat;
        let c = char_at(s, j);
        assert(c == char_at(s2, j2));
        let ch = if escaped {
            crate::scan_spec::escape_char(c)
        } else {
            c
        };
        let line1: nat = if c == '\n' {
            line + 1
        } else {
            line
        };
        let col1: nat = if escaped {
            c1 + 1
        } else {
            c1
        };
        let col2: nat = if escaped {
            c2 + 1
        } else {
            c2
        };
        assert(string_scan(s, i, line, c1, text) == string_scan(s, j + 1, line1, col1 + 1, text.push(ch)));
        assert(string_scan(s2, i2, line, c2, text) == string_scan(s2, j2 + 1, line1, col2 + 1, text.push(ch)));
        if i + k <= s.len() {
            lemma_skip(s, i, s2, i2, k);
            lemma_shift_string(s, i + k, s2, i2 + k, line1, col1 + 1, col2 + 1, text.push(ch));
        }
    }
}

proof fn lemma_shift_number_scan(s: Seq<char>, i: nat, s2: Seq<char>, i2: nat, seen: bool)
    requires
        same_rest(s, i, s2, i2),
    ensures
        number_scan(s2, i2, seen).0 - i2 == number_scan(s, i, seen).0 - i,
        number_scan(s2, i2, seen).1 == number_scan(s, i, seen).1,
    decreases s.len() - i,
{
    lemma_char(s, i, s2, i2, 0);
    if i < s.len() {
        lemma_skip(s, i, s2, i2, 1);
        lemma_shift_number_scan(s, i + 1, s2, i2 + 1, true);
        lemma_shift_number_scan(s, i + 1, s2, i2 + 1, seen);
    }
}

proof fn lemma_shift_digits(s: Seq<char>, i: nat, s2: Seq<char>, i2: nat, radix: nat)
    requires
        same_rest(s, i, s2, i2),
    ensures
        digits_end(s2, i2, radix) - i2 == digits_end(s, i, radix) - i,
    decreases s.len() - i,
{
    lemma_char(s, i, s2, i2, 0);
    if i < s.len() {
        lemma_skip(s, i, s2, i2, 1);
        lemma_shift_digits(s, i + 1, s2, i2 + 1, radix);
    }
}

proof fn lemma_shift_word(s: Seq<char>, i: nat, s2: Seq<char>, i2: nat)
    requires
        same_rest(s, i, s2, i2),
    ensures
        word_end(s2, i2) - i2 == word_end(s, i) - i,
    decreases s.len() - i,
{
    lemma_char(s, i, s2, i2, 0);
    if i < s.len() {
        lemma_skip(s, i, s2, i2, 1);
        lemma_shift_word(s, i + 1, s2, i2 + 1);
    }
}

proof fn lemma_shift_exponent(s: Seq<char>, m: nat, s2: Seq<char>, m2: nat)
    requires
        same_rest(s, m, s2, m2),
    ensures
        exponent_end(s2, m2) - m2 == exponent_end(s, m) - m,
        suffix_end(s2, exponent_end(s2, m2)) - m2 == suffix_end(s, exponent_end(s, m)) - m,
{
    lemma_char(s, m, s2, m2, 0);
    lemma_char(s, m, s2, m2, 1);
    lemma_char(s, m, s2, m2, 2);
    crate::scan_spec::lemma_exponent_end(s, m);
    if char_at(s, m) == 'e' || char_at(s, m) == 'E' {
        if crate::text::spec_is_ascii_digit(char_at(s, m + 1)) {
            lemma_skip(s, m, s2, m2, 1);
            lemma_shift_digits(s, m + 1, s2, m2 + 1, 10);
        } else if m + 2 <= s.len() {
            lemma_skip(s, m, s2, m2, 2);
            lemma_shift_digits(s, m + 2, s2, m2 + 2, 10);
        }
    }
    let x = exponent_end(s, m);
    let x2 = exponent_end(s2, m2);
    lemma_skip(s, m, s2, m2, (x - m) as nat);
    lemma_char(s, x, s2, x2, 0);
    lemma_char(s, x, s2, x2, 1);
}

proof fn lemma_shift_number(s: Seq<char>, i: nat, s2: Seq<char>, i2: nat)
    requires
        same_rest(s, i, s2, i2),
    ensures
        number_end(s2, i2).0 - i2 == number_end(s, i).0 - i,
        number_end(s2, i2).1 == number_end(s, i).1,
{
    lemma_char(s, i, s2, i2, 0);
    lemma_char(s, i, s2, i2, 1);
    lemma_char(s, i, s2, i2, 2);
    if i + 2 <= s.len() {
        lemma_skip(s, i, s2, i2, 2);
        lemma_shift_digits(s, i + 2, s2, i2 + 2, 16);
        lemma_shift_digits(s, i + 2, s2, i2 + 2, 2);
    }
    lemma_shift_number_scan(s, i, s2, i2, false);
    crate::scan_spec::lemma_number_scan(s, i, false);
    let m = number_scan(s, i, false).0;
    lemma_skip(s, i, s2, i2, (m - i) as nat);
    lemma_shift_exponent(s, m, s2, (i2 + (m - i)) as nat);
}

proof fn lemma_match_push(ts: Seq<TokenView>, ts2: Seq<TokenView>, t: TokenView, t2: TokenView)
    requires
        tokens_match(ts, ts2),
        t.ty == t2.ty,
        t.lexeme == t2.lexeme,
        t.line == t2.line,
    ensures
        tokens_match(ts.push(t), ts2.push(t2)),
{
    let a = ts.push(t);
    let b = ts2.push(t2);
    assert forall|i: int| 0 <= i < a.len() implies {
        &&& (#[trigger] a[i]).ty == b[i].ty
        &&& a[i].lexeme == b[i].lexeme
        &&& a[i].line == b[i].line
    } by {
        if i < ts.len() {
            assert(a[i] == ts[i] && b[i] == ts2[i]);
        }
    }
}

/// One step in each of two sources that will be scanned alike: both fail or neither
/// does, and then the new states will again be scanned alike.
proof fn lemma_shift_step(s: Seq<char>, st: ScanState, s2: Seq<char>, st2: ScanState)
    requires
        scans_alike(s, st, s2, st2),
        st.pos < s.len(),
    ensures
        (scan_step(s, st).1 is Some) == (scan_step(s2, st2).1 is Some),
        scan_step(s, st).1 is None ==> scans_alike(
            s,
            scan_step(s, st).0,
            s2,
            scan_step(s2, st2).0,
        ),
{
    let p = st.pos;
    let p2 = st2.pos;
    lemma_char(s, p, s2, p2, 0);
    lemma_char(s, p, s2, p2, 1);
    lemma_char(s, p, s2, p2, 2);
    let c = s[p as int];
    let next = char_at(s, p + 1);
    lemma_step_progress(s, st);
    lemma_step_progress(s2, st2);
    let (n, e) = scan_step(s, st);
    let (n2, e2) = scan_step(s2, st2);
    if c == '\n' {
    } else if c == '\t' {
    } else if crate::text::spec_is_whitespace(c) {
    } else if c == '/' && next == '/' {
        lemma_shift_line_comment(s, p, s2, p2);
    } else if c == '/' && next == '*' {
        lemma_skip(s, p, s2, p2, 2);
        lemma_shift_block(s, p + 2, s2, p2 + 2, st.line, st.col + 2, st2.col + 2);
        crate::scan_spec::lemma_block_comment_scan(s, p + 2, st.line, st.col + 2);
    } else if c == '"' {
        lemma_skip(s, p, s2, p2, 1);
        lemma_shift_string(s, p + 1, s2, p2 + 1, st.line, st.col + 1, st2.col + 1, Seq::empty());
        crate::scan_spec::lemma_string_scan(s, p + 1, st.line, st.col + 1, Seq::empty());
    } else if crate::text::spec_is_ascii_digit(c) || (c == '.' && crate::text::spec_is_ascii_digit(
        next,
    )) {
        lemma_shift_number(s, p, s2, p2);
    } else if crate::text::spec_is_alphabetic(c) || c == '_' {
        lemma_skip(s, p, s2, p2, 1);
        lemma_shift_word(s, p + 1, s2, p2 + 1);
    }
    if e is None {
        assert(n2.pos - p2 == n.pos - p);
        lemma_skip(s, p, s2, p2, (n.pos - p) as nat);
        lemma_subrange(s, p, s2, p2, (n.pos - p) as nat);
        if n.tokens.len() > st.tokens.len() {
            lemma_match_push(st.tokens, st2.tokens, n.tokens.last(), n2.tokens.last());
        }
    }
}

/// Two states that will be scanned alike give the same outcome: both scans succeed or
/// both fail, and successful ones yield tokens that agree in kinds, texts and lines.
pub proof fn lemma_scans_alike(s: Seq<char>, st: ScanState, s2: Seq<char>, st2: ScanState)
    requires
        scans_alike(s, st, s2, st2),
    ensures
        (scan_from(s, st).1 is Ok) == (scan_from(s2, st2).1 is Ok),
        scan_from(s, st).1 is Ok ==> tokens_match(
            scan_from(s, st).1->Ok_0,
            scan_from(s2, st2).1->Ok_0,
        ),
    decreases s.len() - st.pos,
{
    if st.pos < s.len() {
        lemma_step_progress(s, st);
        lemma_shift_step(s, st, s2, st2);
        let (n, e) = scan_step(s, st);
        let (n2, e2) = scan_step(s2, st2);
        if e is None {
            lemma_scans_alike(s, n, s2, n2);
        }
    } else {
        lemma_match_push(
            st.tokens,
            st2.tokens,
            crate::token::token_view(TokenType::Eof, Seq::empty(), st.line, st.col),
            crate::token::token_view(TokenType::Eof, Seq::empty(), st2.line, st2.col),
        );
    }
}

/// `s` and `s2` hold the same characters before position `k`, and at `k` each holds a
/// space or ends.
pub open spec fn same_before_space(s: Seq<char>, s2: Seq<char>, k: nat) -> bool {
    &&& k <= s.len()
    &&& k <= s2.len()
    &&& forall|m: int| 0 <= m < k ==> #[trigger] s[m] == s2[m]
    &&& (k == s.len() || s[k as int] == ' ')
    &&& (k == s2.len() || s2[k as int] == ' ')
}

/// What `char_at` gives up to `k`: the same character in both sources before `k`, and at
/// `k` a space or NUL, which ends every token and fits no lookahead.
proof fn lemma_window_char(s: Seq<char>, s2: Seq<char>, k: nat, i: nat)
    requires
        same_before_space(s, s2, k),
        i <= k,
    ensures
        i < k ==> char_at(s, i) == char_at(s2, i) && i < s.len() && i < s2.len(),
        i == k ==> (char_at(s, i) == ' ' || char_at(s, i) == '\0') && (char_at(s2, i) == ' '
            || char_at(s2, i) == '\0'),
{
    if i < k {
        assert(s[i as int] == s2[i as int]);
    }
}

proof fn lemma_window_digits(s: Seq<char>, s2: Seq<char>, k: nat, i: nat, radix: nat)
    requires
        same_before_space(s, s2, k),
        i <= k,
    ensures
        digits_end(s2, i, radix) == digits_end(s, i, radix) <= k,
    decreases k - i,
{
    lemma_window_char(s, s2, k, i);
    if i < k {
        lemma_window_digits(s, s2, k, i + 1, radix);
    }
}

proof fn lemma_window_word(s: Seq<char>, s2: Seq<char>, k: nat, i: nat)
    requires
        same_before_space(s, s2, k),
        i <= k,
    ensures
        word_end(s2, i) == word_end(s, i) <= k,
    decreases k - i,
{
    lemma_window_char(s, s2, k, i);
    if i < k {
        lemma_window_word(s, s2, k, i + 1);
    }
}

proof fn lemma_window_number_scan(s: Seq<char>, s2: Seq<char>, k: nat, i: nat, seen: bool)
    requires
        same_before_space(s, s2, k),
        i <= k,
    ensures
        number_scan(s2, i, seen) == number_scan(s, i, seen),
        number_scan(s, i, seen).0 <= k,
    decreases k - i,
{
    lemma_window_char(s, s2, k, i);
    if i < k {
        lemma_window_number_scan(s, s2, k, i + 1, true);
        lemma_window_number_scan(s, s2, k, i + 1, seen);
    }
}

proof fn lemma_window_number(s: Seq<char>, s2: Seq<char>, k: nat, i: nat)
    requires
        same_before_space(s, s2, k),
        i < k,
    ensures
        number_end(s2, i) == number_end(s, i),
{
    lemma_window_char(s, s2, k, i);
    lemma_window_char(s, s2, k, i + 1);
    if i + 2 <= k {
        lemma_window_char(s, s2, k, i + 2);
        lemma_window_digits(s, s2, k, i + 2, 16);
        lemma_window_digits(s, s2, k, i + 2, 2);
    }
    lemma_window_number_scan(s, s2, k, i, false);
    let m = number_scan(s, i, false).0;
    lemma_window_char(s, s2, k, m);
    if m + 1 <= k {
        lemma_window_char(s, s2, k, m + 1);
        lemma_window_digits(s, s2, k, m + 1, 10);
    }
    if m + 2 <= k {
        lemma_window_char(s, s2, k, m + 2);
        lemma_window_digits(s, s2, k, m + 2, 10);
    }
    let x = exponent_end(s, m);
    assert(exponent_end(s2, m) == x);
    if x <= k {
        lemma_window_char(s, s2, k, x);
    }
    if x + 1 <= k {
        lemma_window_char(s, s2, k, x + 1);
    }
}

proof fn lemma_line_comment_stop(s: Seq<char>, i: nat)
    requires
        i <= s.len(),
    ensures
        line_comment_end(s, i) < s.len() ==> s[line_comment_end(s, i) as int] == '\n',
    decreases s.len() - i,
{
    if i < s.len() && s[i as int] != '\n' {
        lemma_line_comment_stop(s, i + 1);
    }
}

proof fn lemma_window_line_comment(s: Seq<char>, s2: Seq<char>, k: nat, i: nat)
    requires
        same_before_space(s, s2, k),
        i <= k,
        line_comment_end(s, i) < k,
    ensures
        line_comment_end(s2, i) == line_comment_end(s, i),
    decreases k - i,
{
    lemma_window_char(s, s2, k, i);
    crate::scan_spec::lemma_line_comment_end(s, i);
    if i < k && s[i as int] != '\n' {
        lemma_window_line_comment(s, s2, k, i + 1);
    }
}

proof fn lemma_window_block(s: Seq<char>, s2: Seq<char>, k: nat, i: nat, line: nat, col: nat)
    requires
        same_before_space(s, s2, k),
        i <= k,
        block_comment_scan(s, i, line, col).0 < k,
    ensures
        block_comment_scan(s2, i, line, col) == block_comment_scan(s, i, line, col),
    decreases k - i,
{
    lemma_window_char(s, s2, k, i);
    crate::scan_spec::lemma_block_comment_scan(s, i, line, col);
    if i < k {
        lemma_window_char(s, s2, k, i + 1);
        if !(s[i as int] == '*' && char_at(s, i + 1) == '/') {
            if s[i as int] == '\n' {
                lemma_window_block(s, s2, k, i + 1, line + 1, 1);
            } else {
                lemma_window_block(s, s2, k, i + 1, line, col + 1);
            }
        }
    }
}

proof fn lemma_window_string(
    s: Seq<char>,
    s2: Seq<char>,
    k: nat,
    i: nat,
    line: nat,
    col: nat,
    text: Seq<char>,
)
    requires
        same_before_space(s, s2, k),
        i <= k,
        string_scan(s, i, line, col, text).0 < k,
    ensures
        string_scan(s2, i, line, col, text) == string_scan(s, i, line, col, text),
    decreases k - i,
{
    lemma_window_char(s, s2, k, i);
    crate::scan_spec::lemma_string_scan(s, i, line, col, text);
    if i < k && s[i as int] != '"' {
        let escaped = s[i as int] == '\\';
        let j: nat = if escaped {
            i + 1
        } else {
            i
        };
        lemma_window_char(s, s2, k, i + 1);
        let c = char_at(s, j);
        let ch = if escaped {
            crate::scan_spec::escape_char(c)
        } else {
            c
        };
        let line1: nat = if c == '\n' {
            line + 1
        } else {
            line
        };
        let col1: nat = if escaped {
            col + 1
        } else {
            col
        };
        crate::scan_spec::lemma_string_scan(s, j + 1, line1, col1 + 1, text.push(ch));
        if j + 1 <= k {
            lemma_window_string(s, s2, k, j + 1, line1, col1 + 1, text.push(ch));
        }
    }
}

proof fn lemma_window_subrange(s: Seq<char>, s2: Seq<char>, k: nat, i: nat, e: nat)
    requires
        same_before_space(s, s2, k),
        i <= e <= k,
    ensures
        s.subrange(i as int, e as int) == s2.subrange(i as int, e as int),
{
    let a = s.subrange(i as int, e as int);
    let b = s2.subrange(i as int, e as int);
    assert forall|m: int| 0 <= m < a.len() implies #[trigger] a[m] == b[m] by {
        assert(s[i + m] == s2[i + m]);
    }
    assert(a =~= b);
}

/// The step from `st` skips a comment that runs to the end of the source: a line
/// comment, or a block comment left open.
pub open spec fn comment_to_end(s: Seq<char>, st: ScanState) -> bool {
    &&& char_at(s, st.pos) == '/'
    &&& {
        ||| char_at(s, st.pos + 1) == '/' && line_comment_end(s, st.pos) == s.len()
        ||| char_at(s, st.pos + 1) == '*' && block_comment_scan(
            s,
            st.pos + 2,
            st.line,
            st.col + 2,
        ).0 == s.len()
    }
}

/// A step that starts before the space at `k` and does not go past it reads nothing
/// beyond it, so it is the same step in both sources.
proof fn lemma_window_step(s: Seq<char>, s2: Seq<char>, k: nat, st: ScanState)
    requires
        same_before_space(s, s2, k),
        k <= s.len(),
        !comment_to_end(s, st),
        st.pos < k,
        scan_step(s, st).1 is None,
        scan_step(s, st).0.pos <= k,
    ensures
        scan_step(s2, st) == scan_step(s, st),
{
    let p = st.pos;
    lemma_window_char(s, s2, k, p);
    lemma_window_char(s, s2, k, p + 1);
    if p + 2 <= k {
        lemma_window_char(s, s2, k, p + 2);
    }
    lemma_step_progress(s, st);
    let c = s[p as int];
    let next = char_at(s, p + 1);
    let n = scan_step(s, st).0;
    if c == '\n' {
    } else if c == '\t' {
    } else if crate::text::spec_is_whitespace(c) {
    } else if c == '/' && next == '/' {
        lemma_line_comment_stop(s, p);
        lemma_window_line_comment(s, s2, k, p);
    } else if c == '/' && next == '*' {
        lemma_window_block(s, s2, k, p + 2, st.line, st.col + 2);
    } else if c == '"' {
        lemma_window_string(s, s2, k, p + 1, st.line, st.col + 1, Seq::empty());
    } else if crate::text::spec_is_ascii_digit(c) || (c == '.' && crate::text::spec_is_ascii_digit(
        next,
    )) {
        lemma_window_number(s, s2, k, p);
        lemma_window_subrange(s, s2, k, p, n.pos);
    } else if crate::text::spec_is_alphabetic(c) || c == '_' {
        lemma_window_word(s, s2, k, p + 1);
        lemma_window_subrange(s, s2, k, p, n.pos);
    }
}

/// The step from `st` opens a comment.
pub open spec fn opens_comment(s: Seq<char>, st: ScanState) -> bool {
    char_at(s, st.pos) == '/' && (char_at(s, st.pos + 1) == '/' || char_at(s, st.pos + 1)
        == '*')
}

/// Position `k` of `s` lies outside every string literal that the scan from `st` meets:
/// every step up to `k` succeeds, and the scan either stops at `k` or skips it inside a
/// comment.
pub open spec fn outside_strings(s: Seq<char>, st: ScanState, k: nat) -> bool
    decreases s.len() - st.pos,
{
    if st.pos == k {
        true
    } else if st.pos < k && st.pos < s.len() {
        let (n, e) = scan_step(s, st);
        &&& e is None
        &&& st.pos < n.pos <= s.len()
        &&& if n.pos <= k {
            outside_strings(s, n, k)
        } else {
            opens_comment(s, st)
        }
    } else {
        false
    }
}

/// `s2` is `s` with the space at `k` doubled.
pub open spec fn space_doubled(s: Seq<char>, s2: Seq<char>, k: nat) -> bool {
    &&& k < s.len()
    &&& s[k as int] == ' '
    &&& same_before_space(s, s2, k)
    &&& same_rest(s, k, s2, k + 1)
}

proof fn lemma_block_stop(s: Seq<char>, i: nat, line: nat, col: nat)
    requires
        i <= s.len(),
    ensures
        ({
            let p = block_comment_scan(s, i, line, col).0;
            p < s.len() ==> s[p as int] == '*' && char_at(s, p + 1) == '/'
        }),
    decreases s.len() - i,
{
    if i < s.len() && !(s[i as int] == '*' && char_at(s, i + 1) == '/') {
        if s[i as int] == '\n' {
            lemma_block_stop(s, i + 1, line + 1, 1);
        } else {
            lemma_block_stop(s, i + 1, line, col + 1);
        }
    }
}

proof fn lemma_line_through(s: Seq<char>, s2: Seq<char>, k: nat, i: nat)
    requires
        space_doubled(s, s2, k),
        i <= k,
        line_comment_end(s, i) > k,
    ensures
        line_comment_end(s2, i) == line_comment_end(s, i) + 1,
    decreases k - i,
{
    lemma_window_char(s, s2, k, i);
    if i < k {
        assert(s[i as int] != '\n');
        lemma_line_through(s, s2, k, i + 1);
    } else {
        lemma_char(s, k, s2, k + 1, 0);
        assert(s2[k + 1int] == ' ');
        lemma_skip(s, k, s2, k + 1, 1);
        lemma_shift_line_comment(s, k + 1, s2, k + 2);
        assert(line_comment_end(s, k) == line_comment_end(s, k + 1));
        assert(line_comment_end(s2, k + 1) == line_comment_end(s2, k + 2));
        assert(line_comment_end(s2, k) == line_comment_end(s2, k + 1));
    }
}

proof fn lemma_block_through(s: Seq<char>, s2: Seq<char>, k: nat, i: nat, line: nat, col: nat)
    requires
        space_doubled(s, s2, k),
        i <= k,
        block_comment_scan(s, i, line, col).0 > k,
    ensures
        block_comment_scan(s2, i, line, col).0 == block_comment_scan(s, i, line, col).0 + 1,
        block_comment_scan(s2, i, line, col).1 == block_comment_scan(s, i, line, col).1,
    decreases k - i,
{
    lemma_window_char(s, s2, k, i);
    if i < k {
        lemma_window_char(s, s2, k, i + 1);
        if s[i as int] == '\n' {
            lemma_block_through(s, s2, k, i + 1, line + 1, 1);
        } else {
            lemma_block_through(s, s2, k, i + 1, line, col + 1);
        }
    } else {
        lemma_shift_block(s, k, s2, k + 1, line, col + 1, col + 1);
        lemma_shift_block(s, k, s, k, line, col, col + 1);
    }
}

/// `s` with one more space inserted at `k`.
pub open spec fn with_space_at(s: Seq<char>, k: nat) -> Seq<char> {
    s.subrange(0, k as int) + seq![' '] + s.subrange(k as int, s.len() as int)
}

proof fn lemma_match_self(ts: Seq<TokenView>)
    ensures
        tokens_match(ts, ts),
{
}

proof fn lemma_doubled(s: Seq<char>, k: nat)
    requires
        k < s.len(),
        s[k as int] == ' ',
    ensures
        space_doubled(s, with_space_at(s, k), k),
        with_space_at(s, k).len() == s.len() + 1,
{
    let s2 = with_space_at(s, k);
    assert(s2.len() == s.len() + 1);
    assert forall|m: int| 0 <= m < k implies #[trigger] s[m] == s2[m] by {}
    assert(s2[k as int] == ' ');
    assert forall|m: int| 0 <= m < s.len() - k implies #[trigger] s[k + m] == s2[(k + 1) + m] by {}
}

/// A step that skips a comment holding the space at `k` skips one more character in the
/// widened source, and leaves both scans in states that go on alike.
proof fn lemma_comment_over(s: Seq<char>, s2: Seq<char>, k: nat, st: ScanState)
    requires
        space_doubled(s, s2, k),
        st.pos < k,
        opens_comment(s, st),
        scan_step(s, st).1 is None,
        scan_step(s, st).0.pos > k,
    ensures
        scan_step(s2, st).1 is None,
        scans_alike(s, scan_step(s, st).0, s2, scan_step(s2, st).0),
{
    let p = st.pos;
    let n = scan_step(s, st).0;
    lemma_step_progress(s, st);
    lemma_window_char(s, s2, k, p);
    lemma_window_char(s, s2, k, p + 1);
    let n2 = scan_step(s2, st).0;
    if char_at(s, p + 1) == '/' {
        lemma_line_through(s, s2, k, p);
    } else {
        lemma_block_comment_scan(s, p + 2, st.line, st.col + 2);
        lemma_block_stop(s, p + 2, st.line, st.col + 2);
        lemma_block_through(s, s2, k, p + 2, st.line, st.col + 2);
    }
    assert(n2.pos == n.pos + 1 && n2.line == n.line && n2.tokens == n.tokens);
    lemma_skip(s, k, s2, k + 1, (n.pos - k) as nat);
    lemma_match_self(st.tokens);
}

/// The space at `k` itself: the widened source steps over two spaces where `s` steps
/// over one, and both go on alike.
proof fn lemma_space_step(s: Seq<char>, s2: Seq<char>, k: nat, st: ScanState)
    requires
        space_doubled(s, s2, k),
        st.pos == k,
    ensures
        (scan_from(s, st).1 is Ok) == (scan_from(s2, st).1 is Ok),
        scan_from(s, st).1 is Ok ==> tokens_match(scan_from(s, st).1->Ok_0, scan_from(s2, st).1->Ok_0),
{
    let n = scan_step(s, st).0;
    let a = scan_step(s2, st).0;
    lemma_char(s, k, s2, k + 1, 0);
    assert(s2[k + 1int] == ' ');
    let b = scan_step(s2, a).0;
    assert(scan_from(s, st) == scan_from(s, n));
    assert(scan_from(s2, a) == scan_from(s2, b));
    assert(scan_from(s2, st) == scan_from(s2, a));
    lemma_skip(s, k, s2, k + 1, 1);
    lemma_match_self(st.tokens);
    lemma_scans_alike(s, n, s2, b);
}

proof fn lemma_widen_from(s: Seq<char>, s2: Seq<char>, k: nat, st: ScanState)
    requires
        space_doubled(s, s2, k),
        outside_strings(s, st, k),
    ensures
        (scan_from(s, st).1 is Ok) == (scan_from(s2, st).1 is Ok),
        scan_from(s, st).1 is Ok ==> tokens_match(scan_from(s, st).1->Ok_0, scan_from(s2, st).1->Ok_0),
    decreases k - st.pos,
{
    if st.pos == k {
        lemma_space_step(s, s2, k, st);
    } else {
        let n = scan_step(s, st).0;
        lemma_step_progress(s, st);
        crate::scan_spec::lemma_line_comment_end(s, st.pos);
        if n.pos <= k {
            assert(!comment_to_end(s, st));
            lemma_window_step(s, s2, k, st);
            assert(scan_from(s2, st) == scan_from(s2, n));
            lemma_widen_from(s, s2, k, n);
        } else {
            lemma_comment_over(s, s2, k, st);
            let n2 = scan_step(s2, st).0;
            assert(scan_from(s2, st) == scan_from(s2, n2));
            lemma_scans_alike(s, n, s2, n2);
        }
    }
}

/// Doubling a space that lies outside every string literal (one between tokens, or one
/// inside a comment) changes nothing but columns: both scans succeed or both fail, and
/// on success the tokens agree in kinds, texts and lines.
pub proof fn lemma_widen_space(s: Seq<char>, k: nat)
    requires
        k < s.len(),
        s[k as int] == ' ',
        outside_strings(s, initial_state(), k),
    ensures
        (lex(s) is Ok) == (lex(with_space_at(s, k)) is Ok),
        lex(s) is Ok ==> tokens_match(lex(s)->Ok_0, lex(with_space_at(s, k))->Ok_0),
{
    lemma_doubled(s, k);
    lemma_widen_from(s, with_space_at(s, k), k, initial_state());
}


/// `s` followed by a line comment whose text is `c`: a space, `//`, a space and `c`.
pub open spec fn with_line_comment(s: Seq<char>, c: Seq<char>) -> Seq<char> {
    s + seq![' ', '/', '/', ' '] + c
}

/// `c` holds no line feed and no `*/`, so it can close neither a line comment nor a
/// block comment.
pub open spec fn plain_comment_text(c: Seq<char>) -> bool {
    &&& forall|i: int| 0 <= i < c.len() ==> #[trigger] c[i] != '\n'
    &&& forall|i: int| 0 <= i < c.len() - 1 ==> !(#[trigger] c[i] == '*' && c[i + 1] == '/')
}

/// Two token sequences that are equal but for the column of the last token, which in
/// both is an end token on the same line.
pub open spec fn same_but_end_column(ts: Seq<TokenView>, ts2: Seq<TokenView>) -> bool {
    &&& ts.len() == ts2.len()
    &&& ts.len() >= 1
    &&& ts.drop_last() == ts2.drop_last()
    &&& ts.last().ty == TokenType::Eof
    &&& ts2.last().ty == TokenType::Eof
    &&& ts.last().lexeme == ts2.last().lexeme
    &&& ts.last().line == ts2.last().line
}

proof fn lemma_line_comment_extend(s: Seq<char>, s2: Seq<char>, i: nat)
    requires
        s.len() <= s2.len(),
        forall|m: int| 0 <= m < s.len() ==> #[trigger] s[m] == s2[m],
        i <= s.len(),
        line_comment_end(s, i) == s.len(),
    ensures
        line_comment_end(s2, i) == line_comment_end(s2, s.len()),
    decreases s.len() - i,
{
    if i < s.len() {
        assert(s[i as int] == s2[i as int]);
        if s[i as int] != '\n' {
            lemma_line_comment_extend(s, s2, i + 1);
        }
    }
}

proof fn lemma_line_comment_tail(t: Seq<char>, i: nat)
    requires
        i <= t.len(),
        forall|m: int| i <= m < t.len() ==> #[trigger] t[m] != '\n',
    ensures
        line_comment_end(t, i) == t.len(),
    decreases t.len() - i,
{
    if i < t.len() {
        lemma_line_comment_tail(t, i + 1);
    }
}

proof fn lemma_block_extend(s: Seq<char>, s2: Seq<char>, i: nat, line: nat, col: nat)
    requires
        s.len() < s2.len(),
        forall|m: int| 0 <= m < s.len() ==> #[trigger] s[m] == s2[m],
        s2[s.len() as int] != '/',
        i <= s.len(),
        block_comment_scan(s, i, line, col).0 == s.len(),
    ensures
        ({
            let (p, l, c) = block_comment_scan(s, i, line, col);
            block_comment_scan(s2, i, line, col) == block_comment_scan(s2, s.len(), l, c)
        }),
    decreases s.len() - i,
{
    if i < s.len() {
        assert(s[i as int] == s2[i as int]);
        if i + 1 < s.len() {
            assert(s[i + 1int] == s2[i + 1int]);
        }
        assert(char_at(s2, i + 1) == '/' ==> char_at(s, i + 1) == '/');
        if s[i as int] == '\n' {
            lemma_block_extend(s, s2, i + 1, line + 1, 1);
        } else {
            lemma_block_extend(s, s2, i + 1, line, col + 1);
        }
    }
}

proof fn lemma_block_tail(t: Seq<char>, i: nat, line: nat, col: nat)
    requires
        i <= t.len(),
        forall|m: int| i <= m < t.len() ==> #[trigger] t[m] != '\n',
        forall|m: int| i <= m < t.len() ==> !(#[trigger] t[m] == '*' && char_at(t, (m + 1) as nat) == '/'),
    ensures
        block_comment_scan(t, i, line, col) == (t.len(), line, (col + (t.len() - i)) as nat),
    decreases t.len() - i,
{
    if i < t.len() {
        assert(t[i as int] != '\n');
        assert(!(t[i as int] == '*' && char_at(t, i + 1) == '/'));
        lemma_block_tail(t, i + 1, line, col + 1);
    }
}

/// What the appended comment looks like from position `s.len()` on.
proof fn lemma_comment_tail(s: Seq<char>, c: Seq<char>)
    requires
        plain_comment_text(c),
    ensures
        ({
            let s2 = with_line_comment(s, c);
            &&& s2.len() == s.len() + 4 + c.len()
            &&& forall|m: int| 0 <= m < s.len() ==> #[trigger] s[m] == s2[m]
            &&& s2[s.len() as int] == ' '
            &&& s2[s.len() + 1int] == '/'
            &&& s2[s.len() + 2int] == '/'
            &&& forall|m: int| s.len() <= m < s2.len() ==> #[trigger] s2[m] != '\n'
            &&& forall|m: int|
                s.len() <= m < s2.len() ==> !(#[trigger] s2[m] == '*' && char_at(
                    s2,
                    (m + 1) as nat,
                ) == '/')
        }),
{
    let s2 = with_line_comment(s, c);
    let n = s.len() as int;
    assert forall|m: int| n + 4 <= m < s2.len() implies #[trigger] s2[m] == c[m - n - 4] by {}
    assert forall|m: int| n <= m < s2.len() implies #[trigger] s2[m] != '\n' by {
        if m >= n + 4 {
            assert(s2[m] == c[m - n - 4]);
        }
    }
    assert forall|m: int|
        n <= m < s2.len() implies !(#[trigger] s2[m] == '*' && char_at(s2, (m + 1) as nat) == '/') by {
        if m >= n + 4 && m + 1 < s2.len() {
            assert(s2[m] == c[m - n - 4]);
            assert(s2[m + 1] == c[m + 1 - n - 4]);
        }
        if m >= n + 4 {
            assert(s2[m] == c[m - n - 4]);
        }
    }
}

proof fn lemma_append_comment_from(s: Seq<char>, c: Seq<char>, st: ScanState)
    requires
        plain_comment_text(c),
        st.pos <= s.len(),
        scan_from(s, st).1 is Ok,
    ensures
        scan_from(with_line_comment(s, c), st).1 is Ok,
        same_but_end_column(
            scan_from(s, st).1->Ok_0,
            scan_from(with_line_comment(s, c), st).1->Ok_0,
        ),
    decreases s.len() - st.pos,
{
    let s2 = with_line_comment(s, c);
    lemma_comment_tail(s, c);
    let len = s.len();
    if st.pos == len {
        let a = scan_step(s2, st).0;
        assert(a == ScanState { pos: len + 1, line: st.line, col: st.col + 1, tokens: st.tokens });
        assert(scan_step(s2, st).1 is None);
        lemma_line_comment_tail(s2, len + 1);
        let b = scan_step(s2, a).0;
        assert(b.pos == s2.len() && b.line == st.line && b.tokens == st.tokens);
        assert(scan_step(s2, a).1 is None);
        assert(scan_from(s2, st) == scan_from(s2, a));
        assert(scan_from(s2, a) == scan_from(s2, b));
        assert(scan_from(s2, st).1->Ok_0.drop_last() =~= st.tokens);
        assert(scan_from(s, st).1->Ok_0.drop_last() =~= st.tokens);
    } else {
        let (n, e) = scan_step(s, st);
        lemma_step_progress(s, st);
        assert(e is None);
        assert(scan_from(s, st) == scan_from(s, n));
        let p = st.pos;
        if comment_to_end(s, st) {
            assert(p + 1 < len);
            assert(s2[p as int] == s[p as int]);
            assert(s2[p + 1int] == s[p + 1int]);
            let n2 = scan_step(s2, st).0;
            assert(scan_step(s2, st).1 is None);
            if char_at(s, p + 1) == '/' {
                lemma_line_comment_extend(s, s2, p);
                lemma_line_comment_tail(s2, len);
                assert(n2.pos == s2.len() && n2.line == st.line && n2.tokens == st.tokens);
            } else {
                lemma_block_comment_scan(s, p + 2, st.line, st.col + 2);
                lemma_block_extend(s, s2, p + 2, st.line, st.col + 2);
                let (q, l, cc) = block_comment_scan(s, p + 2, st.line, st.col + 2);
                lemma_block_tail(s2, len, l, cc);
                assert(n2.pos == s2.len() && n2.line == l && n2.tokens == st.tokens);
                assert(n.pos == len && n.line == l);
            }
            assert(scan_from(s2, st) == scan_from(s2, n2));
            assert(scan_from(s2, st).1->Ok_0.drop_last() =~= st.tokens);
            assert(scan_from(s, st).1->Ok_0.drop_last() =~= st.tokens);
        } else {
            assert(same_before_space(s, s2, len));
            lemma_window_step(s, s2, len, st);
            assert(scan_from(s2, st) == scan_from(s2, n));
            lemma_append_comment_from(s, c, n);
        }
    }
}

/// Appending a line comment (a space, `//`, a space and text with no line feed and no
/// `*/`) to a source that scans adds no token: the tokens are the same but for the
/// column of the end token, which stays on the same line.
pub proof fn lemma_append_comment(s: Seq<char>, c: Seq<char>)
    requires
        plain_comment_text(c),
        lex(s) is Ok,
    ensures
        lex(with_line_comment(s, c)) is Ok,
        same_but_end_column(lex(s)->Ok_0, lex(with_line_comment(s, c))->Ok_0),
{
    lemma_append_comment_from(s, c, initial_state());
}

} // verus!
