//! Token kinds and tokens produced by the lexer.

use vstd::prelude::*;
use crate::text::{decimal, push_char, push_decimal};

verus! {

/// Every kind of lexical unit.
#[derive(Debug, Clone, Copy, PartialEq, Eq, Structural, Hash)]
pub enum TokenType {
    // keywords
    Package,
    Import,
    Struct,
    Func,
    Static,
    Final,
    Permits,
    If,
    Else,
    Return,
    True,
    False,
    Null,
    // type names
    IntType,
    FloatType,
    StringType,
    BoolType,
    VoidType,
    // literals
    IntLiteral,
    FloatLiteral,
    StringLiteral,
    Ident,
    // operators and delimiters
    Plus,
    Minus,
    Star,
    Slash,
    Percent,
    Eq,
    Neq,
    Lt,
    Gt,
    Le,
    Ge,
    Assign,
    /// `:=`
    ColonDefine,
    Dot,
    Comma,
    Semi,
    LParen,
    RParen,
    LBrace,
    RBrace,
    LBracket,
    RBracket,
    /// `::`
    ColonColon,
    Hash,
    Amp,
    Pipe,
    /// `...`
    Ellipsis,
    // special
    Newline,
    Eof,
}

impl TokenType {
    /// The kinds that denote a literal value: numbers, strings, `true`, `false`, `null`.
    pub open spec fn spec_is_literal(self) -> bool {
        ||| self == TokenType::IntLiteral
        ||| self == TokenType::FloatLiteral
        ||| self == TokenType::StringLiteral
        ||| self == TokenType::True
        ||| self == TokenType::False
        ||| self == TokenType::Null
    }

    /// The kinds that name a built-in type.
    pub open spec fn spec_is_type(self) -> bool {
        ||| self == TokenType::IntType
        ||| self == TokenType::FloatType
        ||| self == TokenType::StringType
        ||| self == TokenType::BoolType
        ||| self == TokenType::VoidType
    }

    /// The comparison operators.
    pub open spec fn spec_is_comparison(self) -> bool {
        ||| self == TokenType::Eq
        ||| self == TokenType::Neq
        ||| self == TokenType::Lt
        ||| self == TokenType::Gt
        ||| self == TokenType::Le
        ||| self == TokenType::Ge
    }

    /// The kind's name, as `Debug` prints it.
    pub open spec fn spec_name(self) -> Seq<char> {
        match self {
            TokenType::Package => "Package"@,
            TokenType::Import => "Import"@,
            TokenType::Struct => "Struct"@,
            TokenType::Func => "Func"@,
            TokenType::Static => "Static"@,
            TokenType::Final => "Final"@,
            TokenType::Permits => "Permits"@,
            TokenType::If => "If"@,
            TokenType::Else => "Else"@,
            TokenType::Return => "Return"@,
            TokenType::True => "True"@,
            TokenType::False => "False"@,
            TokenType::Null => "Null"@,
            TokenType::IntType => "IntType"@,
            TokenType::FloatType => "FloatType"@,
            TokenType::StringType => "StringType"@,
            TokenType::BoolType => "BoolType"@,
            TokenType::VoidType => "VoidType"@,
            TokenType::IntLiteral => "IntLiteral"@,
            TokenType::FloatLiteral => "FloatLiteral"@,
            TokenType::StringLiteral => "StringLiteral"@,
            TokenType::Ident => "Ident"@,
            TokenType::Plus => "Plus"@,
            TokenType::Minus => "Minus"@,
            TokenType::Star => "Star"@,
            TokenType::Slash => "Slash"@,
            TokenType::Percent => "Percent"@,
            TokenType::Eq => "Eq"@,
            TokenType::Neq => "Neq"@,
            TokenType::Lt => "Lt"@,
            TokenType::Gt => "Gt"@,
            TokenType::Le => "Le"@,
            TokenType::Ge => "Ge"@,
            TokenType::Assign => "Assign"@,
            TokenType::ColonDefine => "ColonDefine"@,
            TokenType::Dot => "Dot"@,
            TokenType::Comma => "Comma"@,
            TokenType::Semi => "Semi"@,
            TokenType::LParen => "LParen"@,
            TokenType::RParen => "RParen"@,
            TokenType::LBrace => "LBrace"@,
            TokenType::RBrace => "RBrace"@,
            TokenType::LBracket => "LBracket"@,
            TokenType::RBracket => "RBracket"@,
            TokenType::ColonColon => "ColonColon"@,
            TokenType::Hash => "Hash"@,
            TokenType::Amp => "Amp"@,
            TokenType::Pipe => "Pipe"@,
            TokenType::Ellipsis => "Ellipsis"@,
            TokenType::Newline => "Newline"@,
            TokenType::Eof => "Eof"@,
        }
    }

    /// The kind's name, as `Debug` prints it.
    pub fn name(&self) -> (r: &'static str)
        ensures
            r@ == self.spec_name(),
    {
        match self {
            TokenType::Package => "Package",
            TokenType::Import => "Import",
            TokenType::Struct => "Struct",
            TokenType::Func => "Func",
            TokenType::Static => "Static",
            TokenType::Final => "Final",
            TokenType::Permits => "Permits",
            TokenType::If => "If",
            TokenType::Else => "Else",
            TokenType::Return => "Return",
            TokenType::True => "True",
            TokenType::False => "False",
            TokenType::Null => "Null",
            TokenType::IntType => "IntType",
            TokenType::FloatType => "FloatType",
            TokenType::StringType => "StringType",
            TokenType::BoolType => "BoolType",
            TokenType::VoidType => "VoidType",
            TokenType::IntLiteral => "IntLiteral",
            TokenType::FloatLiteral => "FloatLiteral",
            TokenType::StringLiteral => "StringLiteral",
            TokenType::Ident => "Ident",
            TokenType::Plus => "Plus",
            TokenType::Minus => "Minus",
            TokenType::Star => "Star",
            TokenType::Slash => "Slash",
            TokenType::Percent => "Percent",
            TokenType::Eq => "Eq",
            TokenType::Neq => "Neq",
            TokenType::Lt => "Lt",
            TokenType::Gt => "Gt",
            TokenType::Le => "Le",
            TokenType::Ge => "Ge",
            TokenType::Assign => "Assign",
            TokenType::ColonDefine => "ColonDefine",
            TokenType::Dot => "Dot",
            TokenType::Comma => "Comma",
            TokenType::Semi => "Semi",
            TokenType::LParen => "LParen",
            TokenType::RParen => "RParen",
            TokenType::LBrace => "LBrace",
            TokenType::RBrace => "RBrace",
            TokenType::LBracket => "LBracket",
            TokenType::RBracket => "RBracket",
            TokenType::ColonColon => "ColonColon",
            TokenType::Hash => "Hash",
            TokenType::Amp => "Amp",
            TokenType::Pipe => "Pipe",
            TokenType::Ellipsis => "Ellipsis",
            TokenType::Newline => "Newline",
            TokenType::Eof => "Eof",
        }
    }

    pub fn is_literal(&self) -> (r: bool)
        ensures
            r == self.spec_is_literal(),
    {
        match self {
            TokenType::IntLiteral | TokenType::FloatLiteral | TokenType::StringLiteral
            | TokenType::True | TokenType::False | TokenType::Null => true,
            _ => false,
        }
    }

    pub fn is_type(&self) -> (r: bool)
        ensures
            r == self.spec_is_type(),
    {
        match self {
            TokenType::IntType | TokenType::FloatType | TokenType::StringType
            | TokenType::BoolType | TokenType::VoidType => true,
            _ => false,
        }
    }

    pub fn is_comparison(&self) -> (r: bool)
        ensures
            r == self.spec_is_comparison(),
    {
        match self {
            TokenType::Eq | TokenType::Neq | TokenType::Lt | TokenType::Gt | TokenType::Le
            | TokenType::Ge => true,
            _ => false,
        }
    }
}

/// No token kind is both a literal and a type name, and no comparison operator is
/// either.
pub proof fn lemma_token_classes_disjoint(ty: TokenType)
    ensures
        !(ty.spec_is_literal() && ty.spec_is_type()),
        ty.spec_is_comparison() ==> !ty.spec_is_literal() && !ty.spec_is_type(),
{
}

/// What a token is, as mathematical values: its kind, its text, and where it starts.
pub struct TokenView {
    pub ty: TokenType,
    pub lexeme: Seq<char>,
    pub line: nat,
    pub col: nat,
}

/// A token's view, built from its parts.
pub open spec fn token_view(ty: TokenType, lexeme: Seq<char>, line: nat, col: nat) -> TokenView {
    TokenView { ty, lexeme, line, col }
}

/// The text carried by a newline token: a backslash followed by `n`.
pub open spec fn newline_lexeme() -> Seq<char> {
    seq!['\\', 'n']
}

/// A lexical unit: kind, text, and the line and column where it was recognised.
#[derive(Debug, Clone, PartialEq, Eq)]
pub struct Token {
    pub ty: TokenType,
    pub lexeme: String,
    pub line: usize,
    pub col: usize,
}

impl View for Token {
    type V = TokenView;

    open spec fn view(&self) -> TokenView {
        token_view(self.ty, self.lexeme@, self.line as nat, self.col as nat)
    }
}

/// The views of a sequence of tokens.
pub open spec fn tokens_view(toks: Seq<Token>) -> Seq<TokenView> {
    toks.map_values(|t: Token| t@)
}

impl Token {
    /// The end-of-input token: empty text at the given position.
    pub fn eof(line: usize, col: usize) -> (t: Token)
        ensures
            t@ == token_view(TokenType::Eof, Seq::empty(), line as nat, col as nat),
    {
        Token { ty: TokenType::Eof, lexeme: String::new(), line, col }
    }

    /// A newline token at the given position; its text is `\n` (backslash, `n`).
    pub fn newline(line: usize, col: usize) -> (t: Token)
        ensures
            t@ == token_view(TokenType::Newline, newline_lexeme(), line as nat, col as nat),
    {
        let lexeme = "\\n".to_owned();
        proof {
            reveal_strlit("\\n");
            assert(lexeme@ =~= newline_lexeme());
        }
        Token { ty: TokenType::Newline, lexeme, line, col }
    }

    /// The token as text: `[line:col] Kind 'lexeme'`.
    pub fn to_string(&self) -> (s: String)
        ensures
            s@ == seq!['['] + decimal(self.line as nat) + seq![':'] + decimal(self.col as nat)
                + seq![']', ' '] + self.ty.spec_name() + seq![' ', '\''] + self.lexeme@ + seq!['\''],
    {
        let mut s = String::new();
        push_char(&mut s, '[');
        push_decimal(&mut s, self.line as u64);
        push_char(&mut s, ':');
        push_decimal(&mut s, self.col as u64);
        push_char(&mut s, ']');
        push_char(&mut s, ' ');
        s.append(self.ty.name());
        push_char(&mut s, ' ');
        push_char(&mut s, '\'');
        s.append(self.lexeme.as_str());
        push_char(&mut s, '\'');
        assert(s@ =~= seq!['['] + decimal(self.line as nat) + seq![':'] + decimal(self.col as nat)
            + seq![']', ' '] + self.ty.spec_name() + seq![' ', '\''] + self.lexeme@ + seq!['\'']);
        s
    }
}

} // verus!
