use army_lang::lexer::Lexer;
use army_lang::token::{Token, TokenType};

fn lex(src: &str) -> Result<Vec<Token>, String> {
    Lexer::new(src).scan()
}

fn without_columns(toks: &[Token]) -> Vec<(TokenType, String, usize)> {
    toks.iter().map(|t| (t.ty, t.lexeme.clone(), t.line)).collect()
}

#[test]
fn doubling_a_space_between_tokens_keeps_kinds_texts_and_lines() {
    let a = lex("x := 1 + y\nreturn x").unwrap();
    let b = lex("x :=  1 + y\nreturn x").unwrap();
    assert_eq!(without_columns(&a), without_columns(&b));
    assert_eq!(a[2].col, 6);
    assert_eq!(b[2].col, 7);
}

#[test]
fn doubling_a_space_inside_a_comment_keeps_kinds_texts_and_lines() {
    let a = lex("a /* b c */ d // e f\ng").unwrap();
    let b = lex("a /* b  c */ d // e  f\ng").unwrap();
    assert_eq!(without_columns(&a), without_columns(&b));
}

#[test]
fn doubling_a_space_before_an_error_keeps_the_error_kind() {
    assert!(lex("a @").is_err());
    assert!(lex("a  @").is_err());
}

#[test]
fn appending_a_line_comment_adds_no_token() {
    let src = "func f() {\n    return 1\n}";
    let a = lex(src).unwrap();
    let b = lex(&format!("{} // done", src)).unwrap();
    assert_eq!(a.len(), b.len());
    let n = a.len();
    assert_eq!(a[..n - 1], b[..n - 1]);
    assert_eq!(b[n - 1].ty, TokenType::Eof);
    assert_eq!(b[n - 1].line, a[n - 1].line);
    assert_eq!(b[n - 1].col, a[n - 1].col + 8);
}

#[test]
fn appending_a_line_comment_after_an_open_block_comment_adds_no_token() {
    let a = lex("x /* open").unwrap();
    let b = lex("x /* open // more").unwrap();
    assert_eq!(a.len(), 2);
    assert_eq!(a[..1], b[..1]);
    assert_eq!(b[1].ty, TokenType::Eof);
    assert_eq!(b[1].line, a[1].line);
}
