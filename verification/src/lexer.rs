//! The lexer: turns source text into tokens.

use vstd::prelude::*;
use crate::scan_spec::{
    char_at, digits_end, error_message, escape_char, exponent_end, is_digit_of, keyword_of,
    line_comment_end, number_scan, scan_from,
    scan_number, scan_operator, scan_step, scan_string, scan_word, skip_block_comment,
    block_comment_scan, string_scan, word_end, initial_state, lemma_step_progress, ScanState,
};
use crate::text::{
    is_alphabetic, is_alphanumeric, is_ascii_digit, is_whitespace, push_char,
    push_decimal, spec_is_alphabetic,
};
use crate::token::{newline_lexeme, token_view, tokens_view, Token, TokenType, TokenView};
use crate::laws::{is_builtin_type_name, lemma_type_keywords};

verus! {

/// The views of the tokens after one more was pushed.
proof fn lemma_tokens_view_push(toks: Seq<Token>, t: Token)
    ensures
        tokens_view(toks.push(t)) == tokens_view(toks).push(t@),
{
    assert(tokens_view(toks.push(t)) =~= tokens_view(toks).push(t@));
}

/// What a scan hands back, as mathematical values.
pub open spec fn scan_result_view(r: Result<Vec<Token>, String>) -> Result<
    Seq<TokenView>,
    Seq<char>,
> {
    match r {
        Ok(toks) => Ok(tokens_view(toks@)),
        Err(msg) => Err(msg@),
    }
}

/// A scanner over one source text.
pub struct Lexer {
    src: Vec<char>,
    tokens: Vec<Token>,
    pos: usize,
    line: usize,
    col: usize,
}

impl Lexer {
    /// The source text being scanned.
    pub closed spec fn source(&self) -> Seq<char> {
        self.src@
    }

    /// The scanner's state: cursor, line, column and the tokens held.
    pub closed spec fn state(&self) -> ScanState {
        ScanState {
            pos: self.pos as nat,
            line: self.line as nat,
            col: self.col as nat,
            tokens: tokens_view(self.tokens@),
        }
    }

    /// The lexer's invariant: the source fits in memory, and the cursor, line and
    /// column stay close enough to the source length that no count overflows.
    pub closed spec fn wf(&self) -> bool {
        &&& self.src@.len() <= isize::MAX
        &&& self.pos <= self.src@.len() + 1
        &&& self.line <= self.pos + 1
        &&& self.col <= self.pos + 1
    }

    /// A lexer at the start of `src`: line 1, column 1, no tokens yet.
    pub fn new(src: &str) -> (l: Lexer)
        requires
            src@.len() <= isize::MAX,
        ensures
            l.wf(),
            l.source() == src@,
            l.state() == initial_state(),
    {
        let mut chars: Vec<char> = Vec::new();
        for c in it: src.chars()
            invariant
                chars@ == it.seq().take(it.index()),
        {
            chars.push(c);
        }
        let l = Lexer { src: chars, tokens: Vec::new(), pos: 0, line: 1, col: 1 };
        assert(l.state().tokens =~= initial_state().tokens);
        l
    }

    /// Scans the whole remaining source. At the end of the source an end-of-input token is
    /// appended and all tokens recognised are handed out; on the first character that
    /// starts no token (or an unterminated string literal) the scan stops with an error
    /// message of the form `[line:col] message`, and the tokens recognised so far stay
    /// in the lexer.
    pub fn scan(&mut self) -> (r: Result<Vec<Token>, String>)
        requires
            old(self).wf(),
        ensures
            final(self).wf(),
            final(self).source() == old(self).source(),
            (final(self).state(), scan_result_view(r)) == scan_from(
                old(self).source(),
                old(self).state(),
            ),
    {
        while self.pos < self.src.len()
            invariant
                self.wf(),
                self.src@ == old(self).src@,
                scan_from(self.src@, self.state()) == scan_from(old(self).src@, old(self).state()),
            decreases self.src@.len() - self.pos,
        {
            let ghost st = self.state();
            proof {
                lemma_step_progress(self.src@, st);
            }
            let c = self.peek();
            if c == '\n' {
                self.add_token(TokenType::Newline, "\\n");
                self.advance();
                self.line += 1;
                self.col = 1;
                proof {
                    reveal_strlit("\\n");
                    assert("\\n"@ =~= newline_lexeme());
                }
            } else if c == '\t' {
                return Err(self.error("tab characters are not allowed"));
            } else if is_whitespace(c) {
                self.advance();
            } else if c == '/' && self.peek_ahead(1) == '/' {
                self.skip_line();
            } else if c == '/' && self.peek_ahead(1) == '*' {
                match self.skip_block() {
                    Ok(()) => {},
                    Err(e) => {
                        return Err(e);
                    },
                }
            } else if c == '"' {
                match self.string() {
                    Ok(()) => {},
                    Err(e) => {
                        return Err(e);
                    },
                }
            } else if is_ascii_digit(c) {
                self.number();
            } else if is_alphabetic(c) || c == '_' {
                self.ident_or_keyword();
            } else {
                match self.scan_operator(c) {
                    Ok(()) => {},
                    Err(e) => {
                        return Err(e);
                    },
                }
            }
            assert(self.state() == scan_step(self.src@, st).0);
        }
        let ghost end = self.state();
        let eof = Token::eof(self.line, self.col);
        let ghost held = self.tokens@;
        self.tokens.push(eof);
        proof {
            lemma_tokens_view_push(held, eof);
        }
        let mut out: Vec<Token> = Vec::new();
        std::mem::swap(&mut out, &mut self.tokens);
        proof {
            assert(tokens_view(self.tokens@) =~= Seq::empty());
            assert(scan_from(self.src@, end).1 == scan_result_view(Ok::<Vec<Token>, String>(out)));
        }
        Ok(out)
    }

    /// The character under the cursor, or NUL past the end.
    fn peek(&self) -> (c: char)
        ensures
            c == char_at(self.src@, self.pos as nat),
    {
        if self.pos < self.src.len() {
            self.src[self.pos]
        } else {
            '\0'
        }
    }

    /// The character `ahead` places after the cursor, or NUL past the end.
    fn peek_ahead(&self, ahead: usize) -> (c: char)
        requires
            self.pos + ahead <= usize::MAX,
        ensures
            c == char_at(self.src@, (self.pos + ahead) as nat),
    {
        let i = self.pos + ahead;
        if i < self.src.len() {
            self.src[i]
        } else {
            '\0'
        }
    }

    /// Moves the cursor one character to the right.
    fn advance(&mut self)
        requires
            old(self).pos < usize::MAX,
            old(self).col < usize::MAX,
        ensures
            final(self).src == old(self).src,
            final(self).tokens == old(self).tokens,
            final(self).pos == old(self).pos + 1,
            final(self).line == old(self).line,
            final(self).col == old(self).col + 1,
    {
        self.pos += 1;
        self.col += 1;
    }

    /// Moves the cursor `n` characters to the right.
    fn advance_n(&mut self, n: usize)
        requires
            old(self).pos + n <= usize::MAX,
            old(self).col + n <= usize::MAX,
        ensures
            final(self).src == old(self).src,
            final(self).tokens == old(self).tokens,
            final(self).pos == old(self).pos + n,
            final(self).line == old(self).line,
            final(self).col == old(self).col + n,
    {
        self.pos += n;
        self.col += n;
    }

    /// Records a token with the given text at the current line and column.
    fn add_token(&mut self, ty: TokenType, lexeme: &str)
        ensures
            final(self).src == old(self).src,
            final(self).pos == old(self).pos,
            final(self).line == old(self).line,
            final(self).col == old(self).col,
            tokens_view(final(self).tokens@) == tokens_view(old(self).tokens@).push(
                token_view(ty, lexeme@, old(self).line as nat, old(self).col as nat),
            ),
    {
        let t = Token { ty, lexeme: lexeme.to_owned(), line: self.line, col: self.col };
        self.tokens.push(t);
        proof {
            lemma_tokens_view_push(old(self).tokens@, t);
        }
    }

    /// Records a token whose text is the character under the cursor.
    fn add_token_char(&mut self, ty: TokenType)
        requires
            old(self).pos < old(self).src@.len(),
        ensures
            final(self).src == old(self).src,
            final(self).pos == old(self).pos,
            final(self).line == old(self).line,
            final(self).col == old(self).col,
            tokens_view(final(self).tokens@) == tokens_view(old(self).tokens@).push(
                token_view(
                    ty,
                    seq![old(self).src@[old(self).pos as int]],
                    old(self).line as nat,
                    old(self).col as nat,
                ),
            ),
    {
        let c = self.peek();
        let mut s = String::new();
        push_char(&mut s, c);
        self.add_token(ty, s.as_str());
        assert(s@ =~= seq![c]);
    }

    /// Skips a `//` comment up to (not including) the line feed that ends it.
    fn skip_line(&mut self)
        requires
            old(self).wf(),
            old(self).pos <= old(self).src@.len(),
        ensures
            final(self).wf(),
            final(self).src == old(self).src,
            final(self).state() == ({
                let st = old(self).state();
                let e = line_comment_end(old(self).src@, st.pos);
                ScanState { pos: e, line: st.line, col: (st.col + e - st.pos) as nat, tokens: st.tokens }
            }),
    {
        while self.pos < self.src.len() && self.peek() != '\n'
            invariant
                self.wf(),
                self.src == old(self).src,
                self.tokens == old(self).tokens,
                self.line == old(self).line,
                old(self).pos <= self.pos <= self.src@.len(),
                self.col == old(self).col + (self.pos - old(self).pos),
                line_comment_end(self.src@, self.pos as nat) == line_comment_end(
                    self.src@,
                    old(self).pos as nat,
                ),
            decreases self.src@.len() - self.pos,
        {
            self.advance();
        }
    }

    /// Skips a `/* */` comment that opens at the cursor. An unclosed comment runs to the end
    /// of the source; this never fails.
    fn skip_block(&mut self) -> (r: Result<(), String>)
        requires
            old(self).wf(),
            old(self).pos + 1 < old(self).src@.len(),
        ensures
            final(self).wf(),
            final(self).src == old(self).src,
            r is Ok,
            final(self).state() == skip_block_comment(old(self).src@, old(self).state()),
    {
        self.advance_n(2);
        while self.pos < self.src.len() && !(self.peek() == '*' && self.peek_ahead(1) == '/')
            invariant
                self.wf(),
                self.src == old(self).src,
                self.tokens == old(self).tokens,
                old(self).pos + 2 <= self.pos <= self.src@.len(),
                block_comment_scan(self.src@, self.pos as nat, self.line as nat, self.col as nat)
                    == block_comment_scan(
                    self.src@,
                    (old(self).pos + 2) as nat,
                    old(self).line as nat,
                    (old(self).col + 2) as nat,
                ),
            decreases self.src@.len() - self.pos,
        {
            if self.peek() == '\n' {
                self.line += 1;
                self.col = 0;
            }
            self.advance();
        }
        if self.pos < self.src.len() {
            self.advance_n(2);
        }
        Ok(())
    }
}

/// The error a step reports, if any.
pub open spec fn step_error(r: Result<(), String>) -> Option<Seq<char>> {
    match r {
        Ok(()) => None,
        Err(msg) => Some(msg@),
    }
}

impl Lexer {
    /// A string literal that opens at the cursor; the text between the quotes becomes the
    /// token's text, with each escape sequence (a backslash and the character after it)
    /// replaced by the character that `escape_char` gives for it.
    fn string(&mut self) -> (r: Result<(), String>)
        requires
            old(self).wf(),
            old(self).pos < old(self).src@.len(),
            old(self).src@[old(self).pos as int] == '"',
        ensures
            final(self).wf(),
            final(self).src == old(self).src,
            (final(self).state(), step_error(r)) == scan_string(old(self).src@, old(self).state()),
    {
        let start_col = self.col;
        self.advance();
        let mut s = String::new();
        while self.pos < self.src.len() && self.peek() != '"'
            invariant
                self.wf(),
                self.src == old(self).src,
                self.tokens == old(self).tokens,
                old(self).pos + 1 <= self.pos <= self.src@.len() + 1,
                string_scan(self.src@, self.pos as nat, self.line as nat, self.col as nat, s@)
                    == string_scan(
                    self.src@,
                    (old(self).pos + 1) as nat,
                    old(self).line as nat,
                    (old(self).col + 1) as nat,
                    Seq::empty(),
                ),
            decreases self.src@.len() + 1 - self.pos,
        {
            let escaped = self.peek() == '\\';
            if escaped {
                self.advance();
            }
            if self.peek() == '\n' {
                self.line += 1;
            }
            let mut ch = self.peek();
            if escaped {
                ch = Self::unescape(ch);
            }
            push_char(&mut s, ch);
            self.advance();
        }
        if self.pos >= self.src.len() {
            return Err(self.error("unterminated string"));
        }
        self.advance();
        let t = Token { ty: TokenType::StringLiteral, lexeme: s, line: self.line, col: start_col };
        self.tokens.push(t);
        proof {
            lemma_tokens_view_push(old(self).tokens@, t);
        }
        Ok(())
    }

    /// A number that starts at the cursor: a hexadecimal (`0x`) or binary (`0b`) integer,
    /// or digits with at most one dot followed by an optional exponent and an optional
    /// size suffix (`f4`, `f8`). It is a float literal when it has a dot, an exponent or a
    /// suffix, an integer literal otherwise.
    fn number(&mut self)
        requires
            old(self).wf(),
            old(self).pos <= old(self).src@.len(),
        ensures
            final(self).wf(),
            final(self).src == old(self).src,
            final(self).state() == scan_number(old(self).src@, old(self).state()),
    {
        let start_col = self.col;
        let mut s = String::new();
        let mut is_float = false;
        let ghost start = self.pos as int;
        if self.peek() == '0' && self.peek_ahead(1) == 'x' && Self::is_digit_in(self.peek_ahead(2), 16) {
            self.take_char(&mut s);
            assert(s@ =~= self.src@.subrange(start, self.pos as int));
            self.take_char(&mut s);
            assert(s@ =~= self.src@.subrange(start, self.pos as int));
            self.take_digits(&mut s, 16);
            assert(s@ =~= self.src@.subrange(start, self.pos as int));
        } else if self.peek() == '0' && self.peek_ahead(1) == 'b' && Self::is_digit_in(
            self.peek_ahead(2),
            2,
        ) {
            self.take_char(&mut s);
            assert(s@ =~= self.src@.subrange(start, self.pos as int));
            self.take_char(&mut s);
            assert(s@ =~= self.src@.subrange(start, self.pos as int));
            self.take_digits(&mut s, 2);
            assert(s@ =~= self.src@.subrange(start, self.pos as int));
        } else {
            while self.pos < self.src.len() && (is_ascii_digit(self.peek()) || self.peek() == '.')
                invariant
                    self.wf(),
                    self.src == old(self).src,
                    self.tokens == old(self).tokens,
                    self.line == old(self).line,
                    start_col == old(self).col,
                    old(self).pos <= self.pos <= self.src@.len(),
                    self.col == old(self).col + (self.pos - old(self).pos),
                    s@ == self.src@.subrange(old(self).pos as int, self.pos as int),
                    number_scan(self.src@, old(self).pos as nat, false) == number_scan(
                        self.src@,
                        self.pos as nat,
                        is_float,
                    ),
                ensures
                    number_scan(self.src@, old(self).pos as nat, false) == (
                        self.pos as nat,
                        is_float,
                    ),
                decreases self.src@.len() - self.pos,
            {
                if self.peek() == '.' {
                    if is_float {
                        break;
                    }
                    is_float = true;
                }
                push_char(&mut s, self.peek());
                assert(s@ =~= self.src@.subrange(old(self).pos as int, self.pos + 1));
                self.advance();
            }
            let ghost m = self.pos as nat;
            let c = self.peek();
            if c == 'e' || c == 'E' {
                let c1 = self.peek_ahead(1);
                if is_ascii_digit(c1) {
                    self.take_char(&mut s);
            assert(s@ =~= self.src@.subrange(start, self.pos as int));
                    self.take_digits(&mut s, 10);
                    assert(s@ =~= self.src@.subrange(start, self.pos as int));
                    is_float = true;
                } else if (c1 == '+' || c1 == '-') && is_ascii_digit(self.peek_ahead(2)) {
                    self.take_char(&mut s);
            assert(s@ =~= self.src@.subrange(start, self.pos as int));
                    self.take_char(&mut s);
            assert(s@ =~= self.src@.subrange(start, self.pos as int));
                    self.take_digits(&mut s, 10);
                    assert(s@ =~= self.src@.subrange(start, self.pos as int));
                    is_float = true;
                }
            }
            let ghost x = self.pos as nat;
            assert(x == exponent_end(self.src@, m));
            if self.peek() == 'f' && (self.peek_ahead(1) == '4' || self.peek_ahead(1) == '8') {
                self.take_char(&mut s);
            assert(s@ =~= self.src@.subrange(start, self.pos as int));
                self.take_char(&mut s);
            assert(s@ =~= self.src@.subrange(start, self.pos as int));
                is_float = true;
            }
        }
        assert(s@ =~= self.src@.subrange(old(self).pos as int, self.pos as int));
        let ty = if is_float {
            TokenType::FloatLiteral
        } else {
            TokenType::IntLiteral
        };
        let t = Token { ty, lexeme: s, line: self.line, col: start_col };
        self.tokens.push(t);
        proof {
            lemma_tokens_view_push(old(self).tokens@, t);
        }
    }

    /// Whether `c` is a digit in base `radix` (2, 10 or 16).
    fn is_digit_in(c: char, radix: u32) -> (r: bool)
        ensures
            r == is_digit_of(c, radix as nat),
    {
        if radix == 16 {
            is_ascii_digit(c) || ('a' <= c && c <= 'f') || ('A' <= c && c <= 'F')
        } else if radix == 2 {
            c == '0' || c == '1'
        } else {
            is_ascii_digit(c)
        }
    }

    /// Appends the character under the cursor to `s` and moves past it.
    fn take_char(&mut self, s: &mut String)
        requires
            old(self).wf(),
            old(self).pos < old(self).src@.len(),
        ensures
            final(self).wf(),
            final(self).src == old(self).src,
            final(self).tokens == old(self).tokens,
            final(self).line == old(self).line,
            final(self).pos == old(self).pos + 1,
            final(self).col == old(self).col + 1,
            final(s)@ == old(s)@.push(old(self).src@[old(self).pos as int]),
    {
        push_char(s, self.peek());
        self.advance();
    }

    /// Appends the base-`radix` digits from the cursor on to `s` and moves past them.
    fn take_digits(&mut self, s: &mut String, radix: u32)
        requires
            old(self).wf(),
            old(self).pos <= old(self).src@.len(),
        ensures
            final(self).wf(),
            final(self).src == old(self).src,
            final(self).tokens == old(self).tokens,
            final(self).line == old(self).line,
            old(self).pos <= final(self).pos <= old(self).src@.len(),
            final(self).pos == digits_end(old(self).src@, old(self).pos as nat, radix as nat),
            final(self).col == old(self).col + (final(self).pos - old(self).pos),
            final(s)@ == old(s)@ + old(self).src@.subrange(
                old(self).pos as int,
                final(self).pos as int,
            ),
    {
        while self.pos < self.src.len() && Self::is_digit_in(self.peek(), radix)
            invariant
                self.wf(),
                self.src == old(self).src,
                self.tokens == old(self).tokens,
                self.line == old(self).line,
                old(self).pos <= self.pos <= self.src@.len(),
                self.col == old(self).col + (self.pos - old(self).pos),
                s@ == old(s)@ + self.src@.subrange(old(self).pos as int, self.pos as int),
                digits_end(self.src@, self.pos as nat, radix as nat) == digits_end(
                    self.src@,
                    old(self).pos as nat,
                    radix as nat,
                ),
            decreases self.src@.len() - self.pos,
        {
            push_char(s, self.peek());
            assert(s@ =~= old(s)@ + self.src@.subrange(old(self).pos as int, self.pos + 1));
            self.advance();
        }
    }

    /// A word that starts at the cursor on a letter or underscore: a keyword token when
    /// it is a reserved word, an identifier otherwise.
    fn ident_or_keyword(&mut self)
        requires
            old(self).wf(),
            old(self).pos < old(self).src@.len(),
            spec_is_alphabetic(old(self).src@[old(self).pos as int]) || old(self).src@[old(
                self,
            ).pos as int] == '_',
        ensures
            final(self).wf(),
            final(self).src == old(self).src,
            final(self).state() == scan_word(old(self).src@, old(self).state()),
    {
        let start_col = self.col;
        let mut s = String::new();
        while self.pos < self.src.len() && (is_alphanumeric(self.peek()) || self.peek() == '_')
            invariant
                self.wf(),
                self.src == old(self).src,
                self.tokens == old(self).tokens,
                self.line == old(self).line,
                start_col == old(self).col,
                old(self).pos <= self.pos <= self.src@.len(),
                self.col == old(self).col + (self.pos - old(self).pos),
                s@ == self.src@.subrange(old(self).pos as int, self.pos as int),
                self.pos > old(self).pos ==> word_end(self.src@, self.pos as nat) == word_end(
                    self.src@,
                    (old(self).pos + 1) as nat,
                ),
            decreases self.src@.len() - self.pos,
        {
            push_char(&mut s, self.peek());
            assert(s@ =~= self.src@.subrange(old(self).pos as int, self.pos + 1));
            self.advance();
        }
        let ty = match Self::keyword_map(&s) {
            Some(k) => k,
            None => TokenType::Ident,
        };
        let t = Token { ty, lexeme: s, line: self.line, col: start_col };
        self.tokens.push(t);
        proof {
            lemma_tokens_view_push(old(self).tokens@, t);
        }
    }

    /// An operator or delimiter at the cursor (`c` is the character there); a dot
    /// followed by a digit starts a number. Fails on `:` without `=`, on `!` without `=`,
    /// and on any character that starts no token.
    fn scan_operator(&mut self, c: char) -> (r: Result<(), String>)
        requires
            old(self).wf(),
            old(self).pos < old(self).src@.len(),
            c == old(self).src@[old(self).pos as int],
        ensures
            final(self).wf(),
            final(self).src == old(self).src,
            (final(self).state(), step_error(r)) == scan_operator(old(self).src@, old(self).state()),
    {
        match c {
            '+' => {
                self.add_token_char(TokenType::Plus);
                self.advance();
            },
            '-' => {
                self.add_token_char(TokenType::Minus);
                self.advance();
            },
            '*' => {
                self.add_token_char(TokenType::Star);
                self.advance();
            },
            '/' => {
                self.add_token_char(TokenType::Slash);
                self.advance();
            },
            '%' => {
                self.add_token_char(TokenType::Percent);
                self.advance();
            },
            '(' => {
                self.add_token_char(TokenType::LParen);
                self.advance();
            },
            ')' => {
                self.add_token_char(TokenType::RParen);
                self.advance();
            },
            '{' => {
                self.add_token_char(TokenType::LBrace);
                self.advance();
            },
            '}' => {
                self.add_token_char(TokenType::RBrace);
                self.advance();
            },
            ',' => {
                self.add_token_char(TokenType::Comma);
                self.advance();
            },
            ';' => {
                self.add_token_char(TokenType::Semi);
                self.advance();
            },
            '[' => {
                self.add_token_char(TokenType::LBracket);
                self.advance();
            },
            ']' => {
                self.add_token_char(TokenType::RBracket);
                self.advance();
            },
            '#' => {
                self.add_token_char(TokenType::Hash);
                self.advance();
            },
            '&' => {
                self.add_token_char(TokenType::Amp);
                self.advance();
            },
            '|' => {
                self.add_token_char(TokenType::Pipe);
                self.advance();
            },
            '.' => {
                if is_ascii_digit(self.peek_ahead(1)) {
                    self.number();
                } else if self.peek_ahead(1) == '.' && self.peek_ahead(2) == '.' {
                    self.add_token(TokenType::Ellipsis, "...");
                    self.advance_n(3);
                } else {
                    self.add_token_char(TokenType::Dot);
                    self.advance();
                }
            },
            ':' => {
                if self.peek_ahead(1) == '=' {
                    self.add_token(TokenType::ColonDefine, ":=");
                    self.advance_n(2);
                } else if self.peek_ahead(1) == ':' {
                    self.add_token(TokenType::ColonColon, "::");
                    self.advance_n(2);
                } else {
                    return Err(self.error("expected ':='"));
                }
            },
            '=' => {
                if self.peek_ahead(1) == '=' {
                    self.add_token(TokenType::Eq, "==");
                    self.advance_n(2);
                } else {
                    self.add_token_char(TokenType::Assign);
                    self.advance();
                }
            },
            '!' => {
                if self.peek_ahead(1) == '=' {
                    self.add_token(TokenType::Neq, "!=");
                    self.advance_n(2);
                } else {
                    return Err(self.error("expected '!='"));
                }
            },
            '<' => {
                if self.peek_ahead(1) == '=' {
                    self.add_token(TokenType::Le, "<=");
                    self.advance_n(2);
                } else {
                    self.add_token_char(TokenType::Lt);
                    self.advance();
                }
            },
            '>' => {
                if self.peek_ahead(1) == '=' {
                    self.add_token(TokenType::Ge, ">=");
                    self.advance_n(2);
                } else {
                    self.add_token_char(TokenType::Gt);
                    self.advance();
                }
            },
            _ => {
                let mut msg = "unexpected character '".to_owned();
                push_char(&mut msg, c);
                push_char(&mut msg, '\'');
                return Err(self.error(msg.as_str()));
            },
        }
        Ok(())
    }

    /// The character that the escape sequence of a backslash and `c` stands for.
    fn unescape(c: char) -> (r: char)
        ensures
            r == escape_char(c),
    {
        if c == 'n' {
            '\n'
        } else if c == 't' {
            '\t'
        } else if c == 'r' {
            '\r'
        } else if c == '0' {
            '\0'
        } else {
            c
        }
    }

    /// Whether `word` holds exactly the text `kw`.
    fn word_is(word: &String, kw: &str) -> (r: bool)
        ensures
            r == (word@ == kw@),
    {
        let k = kw.to_owned();
        *word == k
    }

    /// The token kind of a reserved word, or `None` for any other word. The words whose
    /// kind is a type kind are exactly the names of the built-in types.
    pub fn keyword_map(word: &String) -> (r: Option<TokenType>)
        ensures
            r == keyword_of(word@),
            r matches Some(k) ==> (k.spec_is_type() <==> is_builtin_type_name(word@)),
            is_builtin_type_name(word@) ==> (r matches Some(k) && k.spec_is_type()),
    {
        proof {
            lemma_type_keywords(word@);
        }
        if Self::word_is(word, "package") {
            Some(TokenType::Package)
        } else if Self::word_is(word, "import") {
            Some(TokenType::Import)
        } else if Self::word_is(word, "struct") {
            Some(TokenType::Struct)
        } else if Self::word_is(word, "func") {
            Some(TokenType::Func)
        } else if Self::word_is(word, "static") {
            Some(TokenType::Static)
        } else if Self::word_is(word, "final") {
            Some(TokenType::Final)
        } else if Self::word_is(word, "permits") {
            Some(TokenType::Permits)
        } else if Self::word_is(word, "if") {
            Some(TokenType::If)
        } else if Self::word_is(word, "else") {
            Some(TokenType::Else)
        } else if Self::word_is(word, "return") {
            Some(TokenType::Return)
        } else if Self::word_is(word, "true") {
            Some(TokenType::True)
        } else if Self::word_is(word, "false") {
            Some(TokenType::False)
        } else if Self::word_is(word, "nil") {
            Some(TokenType::Null)
        } else if Self::word_is(word, "int") {
            Some(TokenType::IntType)
        } else if Self::word_is(word, "float") {
            Some(TokenType::FloatType)
        } else if Self::word_is(word, "string") {
            Some(TokenType::StringType)
        } else if Self::word_is(word, "bool") {
            Some(TokenType::BoolType)
        } else if Self::word_is(word, "void") {
            Some(TokenType::VoidType)
        } else {
            None
        }
    }

    /// An error message at the current line and column: `[line:col] msg`.
    fn error(&self, msg: &str) -> (e: String)
        ensures
            e@ == error_message(self.line as nat, self.col as nat, msg@),
    {
        let mut s = String::new();
        push_char(&mut s, '[');
        push_decimal(&mut s, self.line as u64);
        push_char(&mut s, ':');
        push_decimal(&mut s, self.col as u64);
        push_char(&mut s, ']');
        push_char(&mut s, ' ');
        s.append(msg);
        assert(s@ =~= error_message(self.line as nat, self.col as nat, msg@));
        s
    }
}

} // verus!
