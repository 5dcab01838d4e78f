use army_lang::lexer::Lexer;
use army_lang::token::{Token, TokenType};
use army_lang::ast::Type;

fn lex(src: &str) -> Result<Vec<Token>, String> {
    Lexer::new(src).scan()
}

fn kinds(toks: &[Token]) -> Vec<TokenType> {
    toks.iter().map(|t| t.ty).collect()
}

fn tok(ty: TokenType, lexeme: &str, line: usize, col: usize) -> Token {
    Token { ty, lexeme: lexeme.to_string(), line, col }
}

#[test]
fn empty_source_gives_only_eof() {
    assert_eq!(lex("").unwrap(), vec![tok(TokenType::Eof, "", 1, 1)]);
}

#[test]
fn integer_addition() {
    assert_eq!(
        lex("1+2").unwrap(),
        vec![
            tok(TokenType::IntLiteral, "1", 1, 1),
            tok(TokenType::Plus, "+", 1, 2),
            tok(TokenType::IntLiteral, "2", 1, 3),
            tok(TokenType::Eof, "", 1, 4),
        ]
    );
}

#[test]
fn every_keyword_is_recognised() {
    let words = [
        ("package", TokenType::Package),
        ("import", TokenType::Import),
        ("struct", TokenType::Struct),
        ("func", TokenType::Func),
        ("static", TokenType::Static),
        ("final", TokenType::Final),
        ("permits", TokenType::Permits),
        ("if", TokenType::If),
        ("else", TokenType::Else),
        ("return", TokenType::Return),
        ("true", TokenType::True),
        ("false", TokenType::False),
        ("nil", TokenType::Null),
        ("int", TokenType::IntType),
        ("float", TokenType::FloatType),
        ("string", TokenType::StringType),
        ("bool", TokenType::BoolType),
        ("void", TokenType::VoidType),
    ];
    for (w, ty) in words {
        assert_eq!(lex(w).unwrap(), vec![tok(ty, w, 1, 1), tok(TokenType::Eof, "", 1, 1 + w.len())]);
    }
}

#[test]
fn identifiers_with_digits_and_underscores() {
    assert_eq!(
        lex("_tmp1 iff int2").unwrap(),
        vec![
            tok(TokenType::Ident, "_tmp1", 1, 1),
            tok(TokenType::Ident, "iff", 1, 7),
            tok(TokenType::Ident, "int2", 1, 11),
            tok(TokenType::Eof, "", 1, 15),
        ]
    );
}

#[test]
fn non_ascii_letters_form_identifiers() {
    assert_eq!(
        lex("héllo 京x").unwrap(),
        vec![
            tok(TokenType::Ident, "héllo", 1, 1),
            tok(TokenType::Ident, "京x", 1, 7),
            tok(TokenType::Eof, "", 1, 9),
        ]
    );
}

#[test]
fn non_ascii_symbol_is_rejected() {
    assert_eq!(lex("a €").unwrap_err(), "[1:3] unexpected character '€'");
}

#[test]
fn digit_after_letter_stays_in_word() {
    assert_eq!(kinds(&lex("x9 9x").unwrap()), vec![
        TokenType::Ident,
        TokenType::IntLiteral,
        TokenType::Ident,
        TokenType::Eof,
    ]);
}

#[test]
fn numbers_take_at_most_one_dot() {
    assert_eq!(
        lex("3.14 1.2.3 .5 7").unwrap(),
        vec![
            tok(TokenType::FloatLiteral, "3.14", 1, 1),
            tok(TokenType::FloatLiteral, "1.2", 1, 6),
            tok(TokenType::FloatLiteral, ".3", 1, 9),
            tok(TokenType::FloatLiteral, ".5", 1, 12),
            tok(TokenType::IntLiteral, "7", 1, 15),
            tok(TokenType::Eof, "", 1, 16),
        ]
    );
}

#[test]
fn trailing_dot_belongs_to_number() {
    assert_eq!(
        lex("1.").unwrap(),
        vec![tok(TokenType::FloatLiteral, "1.", 1, 1), tok(TokenType::Eof, "", 1, 3)]
    );
}

#[test]
fn dot_without_digit_is_a_dot() {
    assert_eq!(
        lex("a.b").unwrap(),
        vec![
            tok(TokenType::Ident, "a", 1, 1),
            tok(TokenType::Dot, ".", 1, 2),
            tok(TokenType::Ident, "b", 1, 3),
            tok(TokenType::Eof, "", 1, 4),
        ]
    );
}

#[test]
fn all_operators_and_delimiters() {
    let toks = lex("+ - * / % == != < > <= >= = := . , ; ( ) { }").unwrap();
    let expected = [
        (TokenType::Plus, "+"),
        (TokenType::Minus, "-"),
        (TokenType::Star, "*"),
        (TokenType::Slash, "/"),
        (TokenType::Percent, "%"),
        (TokenType::Eq, "=="),
        (TokenType::Neq, "!="),
        (TokenType::Lt, "<"),
        (TokenType::Gt, ">"),
        (TokenType::Le, "<="),
        (TokenType::Ge, ">="),
        (TokenType::Assign, "="),
        (TokenType::ColonDefine, ":="),
        (TokenType::Dot, "."),
        (TokenType::Comma, ","),
        (TokenType::Semi, ";"),
        (TokenType::LParen, "("),
        (TokenType::RParen, ")"),
        (TokenType::LBrace, "{"),
        (TokenType::RBrace, "}"),
    ];
    assert_eq!(toks.len(), expected.len() + 1);
    for (t, (ty, text)) in toks.iter().zip(expected.iter()) {
        assert_eq!(t.ty, *ty);
        assert_eq!(t.lexeme, *text);
        assert_eq!(t.line, 1);
    }
    assert_eq!(toks.last().unwrap().ty, TokenType::Eof);
}

#[test]
fn operators_without_spaces() {
    assert_eq!(
        kinds(&lex("a:=b==c!=d<=e>=f").unwrap()),
        vec![
            TokenType::Ident,
            TokenType::ColonDefine,
            TokenType::Ident,
            TokenType::Eq,
            TokenType::Ident,
            TokenType::Neq,
            TokenType::Ident,
            TokenType::Le,
            TokenType::Ident,
            TokenType::Ge,
            TokenType::Ident,
            TokenType::Eof,
        ]
    );
}

#[test]
fn colon_without_equals_is_an_error() {
    assert_eq!(lex("x :").unwrap_err(), "[1:3] expected ':='");
    assert_eq!(lex(":-").unwrap_err(), "[1:1] expected ':='");
}

#[test]
fn bang_without_equals_is_an_error() {
    assert_eq!(lex("!x").unwrap_err(), "[1:1] expected '!='");
}

#[test]
fn unexpected_character_is_an_error() {
    assert_eq!(lex("a\n  @b").unwrap_err(), "[2:3] unexpected character '@'");
    assert_eq!(lex("x $").unwrap_err(), "[1:3] unexpected character '$'");
    assert_eq!(lex("?").unwrap_err(), "[1:1] unexpected character '?'");
}

#[test]
fn unterminated_string_is_an_error() {
    assert_eq!(lex("\"abc").unwrap_err(), "[1:5] unterminated string");
}

#[test]
fn string_ending_in_backslash_is_unterminated() {
    assert_eq!(lex("\"ab\\").unwrap_err(), "[1:6] unterminated string");
}

#[test]
fn string_literal_translates_escapes() {
    assert_eq!(
        lex("s := \"a\\\"b\\n\"").unwrap(),
        vec![
            tok(TokenType::Ident, "s", 1, 1),
            tok(TokenType::ColonDefine, ":=", 1, 3),
            tok(TokenType::StringLiteral, "a\"b\n", 1, 6),
            tok(TokenType::Eof, "", 1, 14),
        ]
    );
}

#[test]
fn string_spanning_lines_reports_last_line() {
    assert_eq!(
        lex("\"a\nb\" x").unwrap(),
        vec![
            tok(TokenType::StringLiteral, "a\nb", 2, 1),
            tok(TokenType::Ident, "x", 2, 7),
            tok(TokenType::Eof, "", 2, 8),
        ]
    );
}

#[test]
fn newlines_are_tokens() {
    assert_eq!(
        lex("a\nb\n").unwrap(),
        vec![
            tok(TokenType::Ident, "a", 1, 1),
            tok(TokenType::Newline, "\\n", 1, 2),
            tok(TokenType::Ident, "b", 2, 1),
            tok(TokenType::Newline, "\\n", 2, 2),
            tok(TokenType::Eof, "", 3, 1),
        ]
    );
}

#[test]
fn whitespace_is_skipped() {
    assert_eq!(
        lex(" \r\u{a0}\u{2003}x").unwrap(),
        vec![tok(TokenType::Ident, "x", 1, 5), tok(TokenType::Eof, "", 1, 6)]
    );
}

#[test]
fn line_comment_runs_to_newline() {
    assert_eq!(
        lex("x // note := !\ny").unwrap(),
        vec![
            tok(TokenType::Ident, "x", 1, 1),
            tok(TokenType::Newline, "\\n", 1, 15),
            tok(TokenType::Ident, "y", 2, 1),
            tok(TokenType::Eof, "", 2, 2),
        ]
    );
}

#[test]
fn block_comment_counts_lines() {
    assert_eq!(
        lex("/* a\nb */x").unwrap(),
        vec![tok(TokenType::Ident, "x", 2, 5), tok(TokenType::Eof, "", 2, 6)]
    );
}

#[test]
fn unterminated_block_comment_is_accepted() {
    assert_eq!(lex("/* abc").unwrap(), vec![tok(TokenType::Eof, "", 1, 7)]);
}

#[test]
fn slash_alone_is_division() {
    assert_eq!(kinds(&lex("a / b").unwrap()), vec![
        TokenType::Ident,
        TokenType::Slash,
        TokenType::Ident,
        TokenType::Eof,
    ]);
}

#[test]
fn small_program() {
    let src = "package main\n\nfunc add(int a, int b) int {\n    return a + b\n}\n";
    let toks = lex(src).unwrap();
    assert_eq!(
        kinds(&toks),
        vec![
            TokenType::Package,
            TokenType::Ident,
            TokenType::Newline,
            TokenType::Newline,
            TokenType::Func,
            TokenType::Ident,
            TokenType::LParen,
            TokenType::IntType,
            TokenType::Ident,
            TokenType::Comma,
            TokenType::IntType,
            TokenType::Ident,
            TokenType::RParen,
            TokenType::IntType,
            TokenType::LBrace,
            TokenType::Newline,
            TokenType::Return,
            TokenType::Ident,
            TokenType::Plus,
            TokenType::Ident,
            TokenType::Newline,
            TokenType::RBrace,
            TokenType::Newline,
            TokenType::Eof,
        ]
    );
    assert_eq!(toks[16], tok(TokenType::Return, "return", 4, 5));
    assert_eq!(toks[23], tok(TokenType::Eof, "", 6, 1));
}

#[test]
fn output_is_well_formed() {
    let src = "struct Point permits A, B {\n  float x := 1.5 /* c\n */ y != 2\n}\n\"s\" <= >= _z9";
    let toks = lex(src).unwrap();
    let last = toks.len() - 1;
    assert_eq!(toks[last].ty, TokenType::Eof);
    assert_eq!(toks[last].lexeme, "");
    for (i, t) in toks.iter().enumerate() {
        assert!(t.line >= 1 && t.col >= 1);
        if i < last {
            assert_ne!(t.ty, TokenType::Eof);
        }
        if i > 0 {
            let prev = &toks[i - 1];
            assert!(prev.line < t.line || (prev.line == t.line && prev.col < t.col));
        }
        match t.ty {
            TokenType::IntLiteral => assert!(t.lexeme.chars().all(|c| c.is_ascii_digit())),
            TokenType::FloatLiteral => assert_eq!(t.lexeme.matches('.').count(), 1),
            TokenType::Ident => assert!(!["struct", "permits", "float"].contains(&t.lexeme.as_str())),
            TokenType::Newline => assert_eq!(t.lexeme, "\\n"),
            _ => {}
        }
    }
}

#[test]
fn second_scan_after_success_gives_only_eof() {
    let mut l = Lexer::new("x\ny");
    let first = l.scan().unwrap();
    assert_eq!(first.last().unwrap(), &tok(TokenType::Eof, "", 2, 2));
    assert_eq!(l.scan().unwrap(), vec![tok(TokenType::Eof, "", 2, 2)]);
}

#[test]
fn second_scan_after_error_fails_again() {
    let mut l = Lexer::new("a @");
    assert_eq!(l.scan().unwrap_err(), "[1:3] unexpected character '@'");
    assert_eq!(l.scan().unwrap_err(), "[1:3] unexpected character '@'");
}

#[test]
fn tokens_before_error_are_kept_for_next_scan() {
    let mut l = Lexer::new("x \"ab");
    assert_eq!(l.scan().unwrap_err(), "[1:6] unterminated string");
    assert_eq!(
        l.scan().unwrap(),
        vec![tok(TokenType::Ident, "x", 1, 1), tok(TokenType::Eof, "", 1, 6)]
    );
}

#[test]
fn positions_after_many_lines_use_decimal() {
    let src = format!("{}x", "\n".repeat(12));
    let toks = lex(&src).unwrap();
    assert_eq!(toks[12], tok(TokenType::Ident, "x", 13, 1));
    let err = lex(&format!("{}{}:", "\n".repeat(104), " ".repeat(9))).unwrap_err();
    assert_eq!(err, "[105:10] expected ':='");
}

#[test]
fn tab_is_an_error() {
    assert_eq!(lex("\tx").unwrap_err(), "[1:1] tab characters are not allowed");
    assert_eq!(lex("a\n    b\t").unwrap_err(), "[2:6] tab characters are not allowed");
}

#[test]
fn tab_inside_string_or_comment_is_kept_or_skipped() {
    assert_eq!(
        lex("\"a\tb\" // c\td").unwrap(),
        vec![tok(TokenType::StringLiteral, "a\tb", 1, 1), tok(TokenType::Eof, "", 1, 13)]
    );
}

#[test]
fn bracket_and_other_operators() {
    assert_eq!(
        lex("a[1] :: # & | ... ..").unwrap(),
        vec![
            tok(TokenType::Ident, "a", 1, 1),
            tok(TokenType::LBracket, "[", 1, 2),
            tok(TokenType::IntLiteral, "1", 1, 3),
            tok(TokenType::RBracket, "]", 1, 4),
            tok(TokenType::ColonColon, "::", 1, 6),
            tok(TokenType::Hash, "#", 1, 9),
            tok(TokenType::Amp, "&", 1, 11),
            tok(TokenType::Pipe, "|", 1, 13),
            tok(TokenType::Ellipsis, "...", 1, 15),
            tok(TokenType::Dot, ".", 1, 19),
            tok(TokenType::Dot, ".", 1, 20),
            tok(TokenType::Eof, "", 1, 21),
        ]
    );
}

#[test]
fn hexadecimal_and_binary_integers() {
    assert_eq!(
        lex("0xFF 0x1a 0b1010").unwrap(),
        vec![
            tok(TokenType::IntLiteral, "0xFF", 1, 1),
            tok(TokenType::IntLiteral, "0x1a", 1, 6),
            tok(TokenType::IntLiteral, "0b1010", 1, 11),
            tok(TokenType::Eof, "", 1, 17),
        ]
    );
}

#[test]
fn prefix_without_digit_is_not_a_prefix() {
    assert_eq!(
        lex("0x 0b2").unwrap(),
        vec![
            tok(TokenType::IntLiteral, "0", 1, 1),
            tok(TokenType::Ident, "x", 1, 2),
            tok(TokenType::IntLiteral, "0", 1, 4),
            tok(TokenType::Ident, "b2", 1, 5),
            tok(TokenType::Eof, "", 1, 7),
        ]
    );
}

#[test]
fn exponents_and_size_suffixes() {
    assert_eq!(
        lex("1.0e10 0.5f4 0.5f8 1e-3 2E+5 7f4 1.5e2f8").unwrap(),
        vec![
            tok(TokenType::FloatLiteral, "1.0e10", 1, 1),
            tok(TokenType::FloatLiteral, "0.5f4", 1, 8),
            tok(TokenType::FloatLiteral, "0.5f8", 1, 14),
            tok(TokenType::FloatLiteral, "1e-3", 1, 20),
            tok(TokenType::FloatLiteral, "2E+5", 1, 25),
            tok(TokenType::FloatLiteral, "7f4", 1, 30),
            tok(TokenType::FloatLiteral, "1.5e2f8", 1, 34),
            tok(TokenType::Eof, "", 1, 41),
        ]
    );
}

#[test]
fn incomplete_exponent_or_suffix_is_left_out() {
    assert_eq!(
        lex("1e 2e+ 3f 4f2").unwrap(),
        vec![
            tok(TokenType::IntLiteral, "1", 1, 1),
            tok(TokenType::Ident, "e", 1, 2),
            tok(TokenType::IntLiteral, "2", 1, 4),
            tok(TokenType::Ident, "e", 1, 5),
            tok(TokenType::Plus, "+", 1, 6),
            tok(TokenType::IntLiteral, "3", 1, 8),
            tok(TokenType::Ident, "f", 1, 9),
            tok(TokenType::IntLiteral, "4", 1, 11),
            tok(TokenType::Ident, "f2", 1, 12),
            tok(TokenType::Eof, "", 1, 14),
        ]
    );
}

#[test]
fn every_escape_sequence() {
    assert_eq!(
        lex(r#""\n\t\r\0\\\"\q""#).unwrap()[0],
        tok(TokenType::StringLiteral, "\n\t\r\0\\\"q", 1, 1)
    );
}

#[test]
fn nil_is_the_null_literal_and_null_is_a_name() {
    assert_eq!(
        lex("nil null").unwrap(),
        vec![
            tok(TokenType::Null, "nil", 1, 1),
            tok(TokenType::Ident, "null", 1, 5),
            tok(TokenType::Eof, "", 1, 9),
        ]
    );
}

#[test]
fn colon_without_equals_reports_expected_assign() {
    assert_eq!(lex(":x").unwrap_err(), "[1:1] expected ':='");
}

#[test]
fn type_keywords_are_the_builtin_type_names() {
    let names = [
        Type::int_type().name,
        Type::float().name,
        Type::string().name,
        Type::bool_type().name,
        Type::void().name,
    ];
    for n in names.iter() {
        let k = Lexer::keyword_map(n).unwrap();
        assert!(k.is_type());
    }
    for w in ["package", "struct", "func", "if", "true", "nil", "permits"] {
        let k = Lexer::keyword_map(&w.to_string()).unwrap();
        assert!(!k.is_type());
    }
    assert_eq!(Lexer::keyword_map(&"null".to_string()), None);
}
