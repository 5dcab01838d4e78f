//! Properties of scanning that hold for every source text.

use vstd::prelude::*;
use crate::scan_spec::{
    block_comment_scan, char_at, digits_end, error_message, escape_char, exponent_end,
    is_digit_of, lemma_digits_end, lemma_exponent_end, number_end, suffix_end, initial_state, is_word_char, keyword_of,
    lemma_line_comment_end, lemma_step_progress, lex, number_scan, scan_from, scan_number,
    scan_step, scan_word, string_scan, word_end, ScanState,
};
use crate::text::{spec_is_alphabetic, spec_is_ascii_digit, spec_is_whitespace};
use crate::token::{newline_lexeme, token_view, TokenType, TokenView};

verus! {

/// The reasons a scan can stop with: an unterminated string literal, a tab character, a
/// `:` followed by neither `=` nor `:`, a `!` not followed by `=`, or a character that
/// starts no token.
pub open spec fn is_error_reason(reason: Seq<char>) -> bool {
    ||| reason == "unterminated string"@
    ||| reason == "tab characters are not allowed"@
    ||| reason == "expected ':='"@
    ||| reason == "expected '!='"@
    ||| exists|c: char| reason == "unexpected character '"@.push(c).push('\'')
}

/// An error message as the scanner writes it: `[line:col] ` and one of the reasons.
pub open spec fn is_scan_error(msg: Seq<char>) -> bool {
    exists|line: nat, col: nat, reason: Seq<char>|
        msg == error_message(line, col, reason) && is_error_reason(reason)
}

/// A scan that succeeds has read the whole source: its cursor stands at the end, and
/// it holds no tokens any more (they were all handed out).
pub proof fn lemma_success_consumes_source(src: Seq<char>, st: ScanState)
    requires
        st.pos <= src.len(),
    ensures
        scan_from(src, st).1 is Ok ==> scan_from(src, st).0.pos == src.len()
            && scan_from(src, st).0.tokens == Seq::<TokenView>::empty(),
    decreases src.len() - st.pos,
{
    if st.pos < src.len() {
        lemma_step_progress(src, st);
        let (next, err) = scan_step(src, st);
        if err is None {
            lemma_success_consumes_source(src, next);
        }
    }
}

/// Scanning again after a successful scan yields just the end-of-input token, at the
/// line and column where the first scan ended, and leaves the lexer as it was.
pub proof fn lemma_rescan_after_success(src: Seq<char>, st: ScanState)
    requires
        st.pos <= src.len(),
        scan_from(src, st).1 is Ok,
    ensures
        ({
            let done = scan_from(src, st).0;
            scan_from(src, done) == (
                done,
                Ok::<Seq<TokenView>, Seq<char>>(
                    seq![token_view(TokenType::Eof, Seq::empty(), done.line, done.col)],
                ),
            )
        }),
{
    lemma_success_consumes_source(src, st);
    let done = scan_from(src, st).0;
    assert(Seq::<TokenView>::empty().push(token_view(TokenType::Eof, Seq::empty(), done.line, done.col))
        =~= seq![token_view(TokenType::Eof, Seq::empty(), done.line, done.col)]);
}

/// A scan that fails reports `[line:col] ` followed by one of the known reasons.
pub proof fn lemma_error_message_form(src: Seq<char>, st: ScanState)
    ensures
        scan_from(src, st).1 matches Err(msg) ==> is_scan_error(msg),
    decreases src.len() - st.pos,
{
    if st.pos < src.len() {
        lemma_step_progress(src, st);
        let (next, err) = scan_step(src, st);
        match err {
            Some(msg) => {
                lemma_step_error_form(src, st);
            },
            None => {
                lemma_error_message_form(src, next);
            },
        }
    }
}

proof fn lemma_step_error_form(src: Seq<char>, st: ScanState)
    requires
        st.pos < src.len(),
    ensures
        scan_step(src, st).1 matches Some(msg) ==> is_scan_error(msg),
{
    let c = src[st.pos as int];
    if let Some(msg) = scan_step(src, st).1 {
        if c == '"' {
            let (i, l, col, text) = string_scan(src, st.pos + 1, st.line, st.col + 1, Seq::empty());
            assert(is_error_reason("unterminated string"@));
            assert(msg == error_message(l, col, "unterminated string"@));
        } else {
            let reason = if c == '\t' {
                "tab characters are not allowed"@
            } else if c == ':' {
                "expected ':='"@
            } else if c == '!' {
                "expected '!='"@
            } else {
                "unexpected character '"@.push(c).push('\'')
            };
            assert(is_error_reason(reason));
            assert(msg == error_message(st.line, st.col, reason));
        }
    }
}

/// The end-of-input and newline tokens built by `Token::eof` and `Token::newline` fit
/// their kinds.
pub proof fn lemma_special_tokens_fit(line: nat, col: nat)
    ensures
        token_fits(token_view(TokenType::Eof, Seq::empty(), line, col)),
        token_fits(token_view(TokenType::Newline, newline_lexeme(), line, col)),
{
}

/// The names of the built-in types, as `Type::int_type`, `Type::float`, `Type::string`,
/// `Type::bool_type` and `Type::void` spell them.
pub open spec fn is_builtin_type_name(w: Seq<char>) -> bool {
    w == "int"@ || w == "float"@ || w == "string"@ || w == "bool"@ || w == "void"@
}

/// The reserved words that stand for type kinds are exactly the names of the built-in
/// types, and each of those names is a reserved word.
pub proof fn lemma_type_keywords(w: Seq<char>)
    ensures
        keyword_of(w) matches Some(k) ==> (k.spec_is_type() <==> is_builtin_type_name(w)),
        is_builtin_type_name(w) ==> (keyword_of(w) matches Some(k) && k.spec_is_type()),
{
    reveal_strlit("package");
    assert("package"@ =~= seq!['p', 'a', 'c', 'k', 'a', 'g', 'e']);
    reveal_strlit("import");
    assert("import"@ =~= seq!['i', 'm', 'p', 'o', 'r', 't']);
    reveal_strlit("struct");
    assert("struct"@ =~= seq!['s', 't', 'r', 'u', 'c', 't']);
    reveal_strlit("func");
    assert("func"@ =~= seq!['f', 'u', 'n', 'c']);
    reveal_strlit("static");
    assert("static"@ =~= seq!['s', 't', 'a', 't', 'i', 'c']);
    reveal_strlit("final");
    assert("final"@ =~= seq!['f', 'i', 'n', 'a', 'l']);
    reveal_strlit("permits");
    assert("permits"@ =~= seq!['p', 'e', 'r', 'm', 'i', 't', 's']);
    reveal_strlit("if");
    assert("if"@ =~= seq!['i', 'f']);
    reveal_strlit("else");
    assert("else"@ =~= seq!['e', 'l', 's', 'e']);
    reveal_strlit("return");
    assert("return"@ =~= seq!['r', 'e', 't', 'u', 'r', 'n']);
    reveal_strlit("true");
    assert("true"@ =~= seq!['t', 'r', 'u', 'e']);
    reveal_strlit("false");
    assert("false"@ =~= seq!['f', 'a', 'l', 's', 'e']);
    reveal_strlit("nil");
    assert("nil"@ =~= seq!['n', 'i', 'l']);
    reveal_strlit("int");
    assert("int"@ =~= seq!['i', 'n', 't']);
    reveal_strlit("float");
    assert("float"@ =~= seq!['f', 'l', 'o', 'a', 't']);
    reveal_strlit("string");
    assert("string"@ =~= seq!['s', 't', 'r', 'i', 'n', 'g']);
    reveal_strlit("bool");
    assert("bool"@ =~= seq!['b', 'o', 'o', 'l']);
    reveal_strlit("void");
    assert("void"@ =~= seq!['v', 'o', 'i', 'd']);
}

/// Whether `c` may occur in a number: a digit or a dot.
pub open spec fn is_number_char(c: char) -> bool {
    spec_is_ascii_digit(c) || c == '.'
}

/// Every character of `s` is a base-`radix` digit.
pub open spec fn all_digits_of(s: Seq<char>, radix: nat) -> bool {
    forall|i: int| 0 <= i < s.len() ==> is_digit_of(#[trigger] s[i], radix)
}

/// The text of an integer literal: one or more decimal digits, or `0x` followed by one
/// or more hexadecimal digits, or `0b` followed by one or more binary digits.
pub open spec fn is_int_text(s: Seq<char>) -> bool {
    ||| s.len() > 0 && all_digits_of(s, 10)
    ||| s.len() > 2 && s[0] == '0' && s[1] == 'x' && all_digits_of(s.skip(2), 16)
    ||| s.len() > 2 && s[0] == '0' && s[1] == 'b' && all_digits_of(s.skip(2), 2)
}

/// The leading part of a float literal: digits and dots, with at most one dot.
pub open spec fn is_mantissa_text(s: Seq<char>) -> bool {
    &&& s.len() > 0
    &&& forall|i: int| 0 <= i < s.len() ==> is_number_char(#[trigger] s[i])
    &&& forall|i: int, j: int| 0 <= i < j < s.len() ==> !(#[trigger] s[i] == '.' && #[trigger] s[j] == '.')
}

/// An exponent: `e` or `E`, an optional sign, and one or more digits.
pub open spec fn is_exponent_text(s: Seq<char>) -> bool {
    &&& s.len() >= 2
    &&& (s[0] == 'e' || s[0] == 'E')
    &&& (all_digits_of(s.skip(1), 10) || (s.len() >= 3 && (s[1] == '+' || s[1] == '-')
        && all_digits_of(s.skip(2), 10)))
}

/// A size suffix: `f4` or `f8`.
pub open spec fn is_size_suffix(s: Seq<char>) -> bool {
    s == seq!['f', '4'] || s == seq!['f', '8']
}

/// `s` splits at `a` and `b` into a mantissa, an optional exponent and an optional size
/// suffix, with a dot, an exponent or a suffix present.
pub open spec fn is_float_split(s: Seq<char>, a: int, b: int) -> bool {
    &&& 0 < a <= b <= s.len()
    &&& is_mantissa_text(s.subrange(0, a))
    &&& (a == b || is_exponent_text(s.subrange(a, b)))
    &&& (b == s.len() || is_size_suffix(s.subrange(b, s.len() as int)))
    &&& (s.subrange(0, a).contains('.') || a < b || b < s.len())
}

/// The text of a float literal: a mantissa of digits with at most one dot, an optional
/// exponent and an optional size suffix, with at least one of a dot, an exponent or a
/// suffix.
pub open spec fn is_float_text(s: Seq<char>) -> bool {
    exists|a: int, b: int| is_float_split(s, a, b)
}

/// The text of an identifier: a letter or underscore, then letters, digits and
/// underscores.
pub open spec fn is_identifier_text(s: Seq<char>) -> bool {
    &&& s.len() > 0
    &&& (spec_is_alphabetic(s[0]) || s[0] == '_')
    &&& forall|i: int| 1 <= i < s.len() ==> is_word_char(#[trigger] s[i])
}

/// The kinds of the reserved words.
pub open spec fn is_keyword_kind(ty: TokenType) -> bool {
    ||| ty == TokenType::Package
    ||| ty == TokenType::Import
    ||| ty == TokenType::Struct
    ||| ty == TokenType::Func
    ||| ty == TokenType::Static
    ||| ty == TokenType::Final
    ||| ty == TokenType::Permits
    ||| ty == TokenType::If
    ||| ty == TokenType::Else
    ||| ty == TokenType::Return
    ||| ty == TokenType::True
    ||| ty == TokenType::False
    ||| ty == TokenType::Null
    ||| ty == TokenType::IntType
    ||| ty == TokenType::FloatType
    ||| ty == TokenType::StringType
    ||| ty == TokenType::BoolType
    ||| ty == TokenType::VoidType
}

/// Whether a token's text fits its kind: a reserved word carries its own spelling, an
/// identifier is no reserved word, numbers are made of digits (with exactly one dot for
/// a float), each operator carries its own symbol, a newline carries `\n`, the
/// end-of-input token carries nothing; a string literal may carry any text.
pub open spec fn token_fits(t: TokenView) -> bool {
    if is_keyword_kind(t.ty) {
        keyword_of(t.lexeme) == Some(t.ty)
    } else {
        match t.ty {
            TokenType::Ident => is_identifier_text(t.lexeme) && keyword_of(t.lexeme) is None,
            TokenType::IntLiteral => is_int_text(t.lexeme),
            TokenType::FloatLiteral => is_float_text(t.lexeme),
            TokenType::StringLiteral => true,
            TokenType::Plus => t.lexeme == seq!['+'],
            TokenType::Minus => t.lexeme == seq!['-'],
            TokenType::Star => t.lexeme == seq!['*'],
            TokenType::Slash => t.lexeme == seq!['/'],
            TokenType::Percent => t.lexeme == seq!['%'],
            TokenType::Eq => t.lexeme == "=="@,
            TokenType::Neq => t.lexeme == "!="@,
            TokenType::Lt => t.lexeme == seq!['<'],
            TokenType::Gt => t.lexeme == seq!['>'],
            TokenType::Le => t.lexeme == "<="@,
            TokenType::Ge => t.lexeme == ">="@,
            TokenType::Assign => t.lexeme == seq!['='],
            TokenType::ColonDefine => t.lexeme == ":="@,
            TokenType::Dot => t.lexeme == seq!['.'],
            TokenType::Comma => t.lexeme == seq![','],
            TokenType::Semi => t.lexeme == seq![';'],
            TokenType::LParen => t.lexeme == seq!['('],
            TokenType::RParen => t.lexeme == seq![')'],
            TokenType::LBrace => t.lexeme == seq!['{'],
            TokenType::RBrace => t.lexeme == seq!['}'],
            TokenType::LBracket => t.lexeme == seq!['['],
            TokenType::RBracket => t.lexeme == seq![']'],
            TokenType::ColonColon => t.lexeme == "::"@,
            TokenType::Hash => t.lexeme == seq!['#'],
            TokenType::Amp => t.lexeme == seq!['&'],
            TokenType::Pipe => t.lexeme == seq!['|'],
            TokenType::Ellipsis => t.lexeme == "..."@,
            TokenType::Newline => t.lexeme == newline_lexeme(),
            TokenType::Eof => t.lexeme.len() == 0,
            _ => false,
        }
    }
}

/// Position `(l1, c1)` comes before `(l2, c2)`: on an earlier line, or on the same line
/// in an earlier column.
pub open spec fn precedes(l1: nat, c1: nat, l2: nat, c2: nat) -> bool {
    l1 < l2 || (l1 == l2 && c1 < c2)
}

/// Tokens recognised before the cursor at `line`:`col`: each fits its kind, none is an
/// end-of-input token, each stands at line and column 1 or later and before the cursor,
/// and each stands before the ones recognised after it.
pub open spec fn well_placed(ts: Seq<TokenView>, line: nat, col: nat) -> bool {
    &&& forall|i: int|
        0 <= i < ts.len() ==> {
            &&& token_fits(#[trigger] ts[i])
            &&& ts[i].ty != TokenType::Eof
            &&& ts[i].line >= 1
            &&& ts[i].col >= 1
            &&& precedes(ts[i].line, ts[i].col, line, col)
        }
    &&& forall|i: int, j: int|
        0 <= i < j < ts.len() ==> precedes(ts[i].line, ts[i].col, ts[j].line, ts[j].col)
}

/// A scanner state from which the properties above carry on.
pub open spec fn sound_state(st: ScanState) -> bool {
    &&& st.line >= 1
    &&& st.col >= 1
    &&& well_placed(st.tokens, st.line, st.col)
}

/// The tokens of a successful scan: every token's text fits its kind, every token
/// stands at line and column 1 or later, each token stands strictly before the next in
/// the source, and the last token, and only the last, marks the end of input.
pub open spec fn well_formed_output(ts: Seq<TokenView>) -> bool {
    &&& ts.len() >= 1
    &&& ts.last().ty == TokenType::Eof
    &&& forall|i: int|
        0 <= i < ts.len() ==> {
            &&& token_fits(#[trigger] ts[i])
            &&& (i < ts.len() - 1 ==> ts[i].ty != TokenType::Eof)
            &&& ts[i].line >= 1
            &&& ts[i].col >= 1
        }
    &&& forall|i: int, j: int|
        0 <= i < j < ts.len() ==> precedes(ts[i].line, ts[i].col, ts[j].line, ts[j].col)
}

proof fn lemma_number_text(src: Seq<char>, i: nat, seen_dot: bool)
    requires
        i <= src.len(),
    ensures
        ({
            let (e, f) = number_scan(src, i, seen_dot);
            &&& i <= e <= src.len()
            &&& forall|k: int| i <= k < e ==> is_number_char(#[trigger] src[k])
            &&& seen_dot ==> f
            &&& (seen_dot || !f) ==> forall|k: int| i <= k < e ==> #[trigger] src[k] != '.'
            &&& (!seen_dot && f) ==> exists|d: int|
                i <= d < e && src[d] == '.' && forall|k: int|
                    i <= k < e && k != d ==> #[trigger] src[k] != '.'
        }),
    decreases src.len() - i,
{
    if i < src.len() && (spec_is_ascii_digit(src[i as int]) || src[i as int] == '.') {
        if src[i as int] == '.' {
            if !seen_dot {
                lemma_number_text(src, i + 1, true);
                let (e, f) = number_scan(src, i + 1, true);
                assert(forall|k: int| i <= k < e && k != i ==> #[trigger] src[k] != '.');
            }
        } else {
            lemma_number_text(src, i + 1, seen_dot);
            let (e, f) = number_scan(src, i + 1, seen_dot);
            if !seen_dot && f {
                let d = choose|d: int|
                    i + 1 <= d < e && src[d] == '.' && forall|k: int|
                        i + 1 <= k < e && k != d ==> #[trigger] src[k] != '.';
                assert(forall|k: int| i <= k < e && k != d ==> #[trigger] src[k] != '.');
            }
        }
    }
}

proof fn lemma_digit_run(src: Seq<char>, i: nat, radix: nat)
    requires
        i < src.len(),
        is_digit_of(src[i as int], radix),
    ensures
        i < digits_end(src, i, radix) <= src.len(),
        all_digits_of(src.subrange(i as int, digits_end(src, i, radix) as int), radix),
{
    lemma_digits_end(src, i, radix);
    lemma_digits_end(src, i + 1, radix);
    let e = digits_end(src, i, radix);
    let t = src.subrange(i as int, e as int);
    assert forall|k: int| 0 <= k < t.len() implies is_digit_of(#[trigger] t[k], radix) by {
        assert(t[k] == src[i + k]);
    }
}

proof fn lemma_exponent_text(src: Seq<char>, m: nat)
    requires
        m <= src.len(),
    ensures
        exponent_end(src, m) > m ==> is_exponent_text(
            src.subrange(m as int, exponent_end(src, m) as int),
        ),
{
    let x = exponent_end(src, m);
    if x > m {
        let t = src.subrange(m as int, x as int);
        if spec_is_ascii_digit(char_at(src, m + 1)) {
            lemma_digit_run(src, m + 1, 10);
            assert(t.skip(1) =~= src.subrange((m + 1) as int, x as int));
        } else {
            lemma_digit_run(src, m + 2, 10);
            assert(t.skip(2) =~= src.subrange((m + 2) as int, x as int));
        }
    }
}

proof fn lemma_number_token(src: Seq<char>, st: ScanState)
    requires
        st.pos < src.len(),
        spec_is_ascii_digit(src[st.pos as int]) || (src[st.pos as int] == '.'),
    ensures
        ({
            let next = scan_number(src, st);
            let t = next.tokens.last();
            &&& next.tokens == st.tokens.push(t)
            &&& token_fits(t)
            &&& t.ty == TokenType::IntLiteral || t.ty == TokenType::FloatLiteral
            &&& t.line == st.line && t.col == st.col
            &&& next.line == st.line && next.col > st.col
        }),
{
    let pos = st.pos;
    let (end, is_float) = number_end(src, pos);
    let text = src.subrange(pos as int, end as int);
    if char_at(src, pos) == '0' && char_at(src, pos + 1) == 'x' && is_digit_of(char_at(src, pos + 2), 16) {
        lemma_digit_run(src, pos + 2, 16);
        assert(text.skip(2) =~= src.subrange((pos + 2) as int, end as int));
        assert(is_int_text(text));
    } else if char_at(src, pos) == '0' && char_at(src, pos + 1) == 'b' && is_digit_of(
        char_at(src, pos + 2),
        2,
    ) {
        lemma_digit_run(src, pos + 2, 2);
        assert(text.skip(2) =~= src.subrange((pos + 2) as int, end as int));
        assert(is_int_text(text));
    } else {
        lemma_number_text(src, pos, false);
        lemma_number_text(src, pos + 1, true);
        lemma_number_text(src, pos + 1, false);
        let (m, dot) = number_scan(src, pos, false);
        assert(m > pos);
        lemma_exponent_end(src, m);
        lemma_exponent_text(src, m);
        let x = exponent_end(src, m);
        let f = suffix_end(src, x);
        let mant = src.subrange(pos as int, m as int);
        assert forall|k: int| 0 <= k < mant.len() implies is_number_char(#[trigger] mant[k]) by {
            assert(mant[k] == src[pos + k]);
        }
        if dot {
            let d = choose|d: int|
                pos <= d < m && src[d] == '.' && forall|k: int|
                    pos <= k < m && k != d ==> #[trigger] src[k] != '.';
            assert forall|i: int, j: int| 0 <= i < j < mant.len() implies !(#[trigger] mant[i]
                == '.' && #[trigger] mant[j] == '.') by {
                assert(mant[i] == src[pos + i]);
                assert(mant[j] == src[pos + j]);
            }
            assert(mant[d - pos] == '.');
            assert(mant.contains('.'));
        } else {
            assert forall|k: int| 0 <= k < mant.len() implies mant[k] != '.' by {
                assert(mant[k] == src[pos + k]);
            }
        }
        if is_float {
            let a = m - pos;
            let b = x - pos;
            assert(text.subrange(0, a) =~= mant);
            assert(text.subrange(a, b) =~= src.subrange(m as int, x as int));
            if f > x {
                assert(text.subrange(b, text.len() as int) =~= src.subrange(x as int, f as int));
                assert(src.subrange(x as int, f as int) =~= seq![src[x as int], src[(x + 1) as int]]);
            }
            assert(is_float_split(text, a, b));
        } else {
            assert(text =~= mant);
            assert(all_digits_of(text, 10));
        }
    }
}

proof fn lemma_word_chars(src: Seq<char>, i: nat)
    requires
        i <= src.len(),
    ensures
        i <= word_end(src, i) <= src.len(),
        forall|k: int| i <= k < word_end(src, i) ==> is_word_char(#[trigger] src[k]),
    decreases src.len() - i,
{
    if i < src.len() && is_word_char(src[i as int]) {
        lemma_word_chars(src, i + 1);
    }
}

proof fn lemma_word_token(src: Seq<char>, st: ScanState)
    requires
        st.pos < src.len(),
        spec_is_alphabetic(src[st.pos as int]) || src[st.pos as int] == '_',
    ensures
        ({
            let next = scan_word(src, st);
            let t = next.tokens.last();
            &&& next.tokens == st.tokens.push(t)
            &&& token_fits(t)
            &&& t.ty != TokenType::Eof
            &&& t.line == st.line && t.col == st.col
            &&& next.line == st.line && next.col > st.col
        }),
{
    lemma_word_chars(src, st.pos + 1);
    let e = word_end(src, st.pos + 1);
    let text = src.subrange(st.pos as int, e as int);
    assert forall|k: int| 1 <= k < text.len() implies is_word_char(#[trigger] text[k]) by {
        assert(text[k] == src[st.pos + k]);
    }
    assert(text[0] == src[st.pos as int]);
}

proof fn lemma_block_comment_lines(src: Seq<char>, i: nat, line: nat, col: nat)
    ensures
        ({
            let (p, l, c) = block_comment_scan(src, i, line, col);
            (l > line && c >= 1) || (l == line && c >= col)
        }),
    decreases src.len() - i,
{
    if i < src.len() && !(src[i as int] == '*' && char_at(src, i + 1) == '/') {
        if src[i as int] == '\n' {
            lemma_block_comment_lines(src, i + 1, line + 1, 1);
        } else {
            lemma_block_comment_lines(src, i + 1, line, col + 1);
        }
    }
}

proof fn lemma_string_lines(src: Seq<char>, i: nat, line: nat, col: nat, text: Seq<char>)
    ensures
        ({
            let (p, l, c, t) = string_scan(src, i, line, col, text);
            l >= line && c >= col
        }),
    decreases src.len() + 1 - i,
{
    if i < src.len() && src[i as int] != '"' {
        let escaped = src[i as int] == '\\';
        let j: nat = if escaped {
            i + 1
        } else {
            i
        };
        let col1: nat = if escaped {
            col + 1
        } else {
            col
        };
        let c = char_at(src, j);
        let line1: nat = if c == '\n' {
            line + 1
        } else {
            line
        };
        let ch = if escaped {
            escape_char(c)
        } else {
            c
        };
        lemma_string_lines(src, j + 1, line1, col1 + 1, text.push(ch));
    }
}

/// Adding a token that stands at or after the cursor, and moving the cursor past it.
proof fn lemma_push_well_placed(
    ts: Seq<TokenView>,
    line: nat,
    col: nat,
    t: TokenView,
    line2: nat,
    col2: nat,
)
    requires
        well_placed(ts, line, col),
        token_fits(t),
        t.ty != TokenType::Eof,
        t.line >= 1,
        t.col >= 1,
        t.line > line || (t.line == line && t.col >= col),
        precedes(t.line, t.col, line2, col2),
    ensures
        well_placed(ts.push(t), line2, col2),
{
    let ts2 = ts.push(t);
    assert forall|i: int, j: int| 0 <= i < j < ts2.len() implies precedes(
        ts2[i].line,
        ts2[i].col,
        ts2[j].line,
        ts2[j].col,
    ) by {
        if j < ts.len() {
            assert(ts2[i] == ts[i] && ts2[j] == ts[j]);
        } else {
            assert(ts2[i] == ts[i]);
        }
    }
    assert forall|i: int| 0 <= i < ts2.len() implies {
        &&& token_fits(#[trigger] ts2[i])
        &&& ts2[i].ty != TokenType::Eof
        &&& ts2[i].line >= 1
        &&& ts2[i].col >= 1
        &&& precedes(ts2[i].line, ts2[i].col, line2, col2)
    } by {
        if i < ts.len() {
            assert(ts2[i] == ts[i]);
        }
    }
}

/// Moving the cursor forward keeps the tokens before it.
proof fn lemma_move_cursor(ts: Seq<TokenView>, line: nat, col: nat, line2: nat, col2: nat)
    requires
        well_placed(ts, line, col),
        line2 > line || (line2 == line && col2 >= col),
    ensures
        well_placed(ts, line2, col2),
{
}

/// Every step that does not stop the scan keeps the state sound.
proof fn lemma_step_sound(src: Seq<char>, st: ScanState)
    requires
        st.pos < src.len(),
        sound_state(st),
    ensures
        scan_step(src, st).1 is None ==> sound_state(scan_step(src, st).0),
        scan_step(src, st).1 is None ==> ({
            let ts = scan_step(src, st).0.tokens;
            ts == st.tokens || ts == st.tokens.push(ts.last())
        }),
{
    let c = src[st.pos as int];
    let next_c = char_at(src, st.pos + 1);
    let (next, err) = scan_step(src, st);
    if err is None {
        if c == '\n' {
            lemma_push_well_placed(st.tokens, st.line, st.col, next.tokens.last(), next.line, next.col);
            assert(next.tokens == st.tokens.push(next.tokens.last()));
        } else if spec_is_whitespace(c) {
        } else if c == '/' && next_c == '/' {
            lemma_line_comment_end(src, st.pos);
        } else if c == '/' && next_c == '*' {
            lemma_block_comment_lines(src, st.pos + 2, st.line, st.col + 2);
            lemma_move_cursor(st.tokens, st.line, st.col, next.line, next.col);
        } else if c == '"' {
            lemma_string_lines(src, st.pos + 1, st.line, st.col + 1, Seq::empty());
            let t = next.tokens.last();
            assert(next.tokens == st.tokens.push(t));
            lemma_push_well_placed(st.tokens, st.line, st.col, t, next.line, next.col);
        } else if spec_is_ascii_digit(c) || (c == '.' && spec_is_ascii_digit(next_c)) {
            lemma_number_token(src, st);
            lemma_push_well_placed(st.tokens, st.line, st.col, next.tokens.last(), next.line, next.col);
        } else if spec_is_alphabetic(c) || c == '_' {
            lemma_word_token(src, st);
            lemma_push_well_placed(st.tokens, st.line, st.col, next.tokens.last(), next.line, next.col);
        } else {
            let t = next.tokens.last();
            assert(next.tokens == st.tokens.push(t));
            assert(token_fits(t));
            lemma_push_well_placed(st.tokens, st.line, st.col, t, next.line, next.col);
        }
    }
}

/// Scanning from a sound state: a successful scan keeps the tokens already held, in
/// front, and its output is well formed (see `well_formed_output`).
pub proof fn lemma_scan_well_formed(src: Seq<char>, st: ScanState)
    requires
        sound_state(st),
    ensures
        scan_from(src, st).1 matches Ok(ts) ==> well_formed_output(ts) && ts.len()
            > st.tokens.len() && ts.subrange(0, st.tokens.len() as int) == st.tokens,
    decreases src.len() - st.pos,
{
    if st.pos < src.len() {
        lemma_step_progress(src, st);
        lemma_step_sound(src, st);
        let (next, err) = scan_step(src, st);
        if err is None {
            lemma_scan_well_formed(src, next);
            if let Ok(ts) = scan_from(src, st).1 {
                assert(ts.subrange(0, next.tokens.len() as int) == next.tokens);
                assert forall|i: int| 0 <= i < st.tokens.len() implies ts[i] == st.tokens[i] by {
                    assert(ts[i] == ts.subrange(0, next.tokens.len() as int)[i]);
                    assert(next.tokens[i] == st.tokens[i]);
                }
                assert(ts.subrange(0, st.tokens.len() as int) =~= st.tokens);
            }
        }
    } else {
        let ts = st.tokens.push(token_view(TokenType::Eof, Seq::empty(), st.line, st.col));
        assert(ts.subrange(0, st.tokens.len() as int) =~= st.tokens);
        assert forall|i: int| 0 <= i < ts.len() implies {
            &&& token_fits(#[trigger] ts[i])
            &&& (i < ts.len() - 1 ==> ts[i].ty != TokenType::Eof)
            &&& ts[i].line >= 1
            &&& ts[i].col >= 1
        } by {
            if i < st.tokens.len() {
                assert(ts[i] == st.tokens[i]);
            }
        }
        assert forall|i: int, j: int| 0 <= i < j < ts.len() implies precedes(
            ts[i].line,
            ts[i].col,
            ts[j].line,
            ts[j].col,
        ) by {
            assert(ts[i] == st.tokens[i]);
        }
    }
}

/// Scanning a whole source text: on success every token's text fits its kind, every
/// token stands at line and column 1 or later, each token stands strictly before the
/// next in the source, and exactly the last token marks the end of input.
pub proof fn lemma_lex_well_formed(src: Seq<char>)
    ensures
        lex(src) matches Ok(ts) ==> well_formed_output(ts),
{
    lemma_scan_well_formed(src, initial_state());
}

} // verus!
