use army_lang::token::{Token, TokenType};

const ALL: [TokenType; 51] = [
    TokenType::Package,
    TokenType::Import,
    TokenType::Struct,
    TokenType::Func,
    TokenType::Static,
    TokenType::Final,
    TokenType::Permits,
    TokenType::If,
    TokenType::Else,
    TokenType::Return,
    TokenType::True,
    TokenType::False,
    TokenType::Null,
    TokenType::IntType,
    TokenType::FloatType,
    TokenType::StringType,
    TokenType::BoolType,
    TokenType::VoidType,
    TokenType::IntLiteral,
    TokenType::FloatLiteral,
    TokenType::StringLiteral,
    TokenType::Ident,
    TokenType::Plus,
    TokenType::Minus,
    TokenType::Star,
    TokenType::Slash,
    TokenType::Percent,
    TokenType::Eq,
    TokenType::Neq,
    TokenType::Lt,
    TokenType::Gt,
    TokenType::Le,
    TokenType::Ge,
    TokenType::Assign,
    TokenType::ColonDefine,
    TokenType::Dot,
    TokenType::Comma,
    TokenType::Semi,
    TokenType::LParen,
    TokenType::RParen,
    TokenType::LBrace,
    TokenType::RBrace,
    TokenType::LBracket,
    TokenType::RBracket,
    TokenType::ColonColon,
    TokenType::Hash,
    TokenType::Amp,
    TokenType::Pipe,
    TokenType::Ellipsis,
    TokenType::Newline,
    TokenType::Eof,
];

#[test]
fn literal_kinds() {
    let lits: Vec<TokenType> = ALL.iter().copied().filter(|t| t.is_literal()).collect();
    assert_eq!(
        lits,
        vec![
            TokenType::True,
            TokenType::False,
            TokenType::Null,
            TokenType::IntLiteral,
            TokenType::FloatLiteral,
            TokenType::StringLiteral,
        ]
    );
}

#[test]
fn type_kinds() {
    let tys: Vec<TokenType> = ALL.iter().copied().filter(|t| t.is_type()).collect();
    assert_eq!(
        tys,
        vec![
            TokenType::IntType,
            TokenType::FloatType,
            TokenType::StringType,
            TokenType::BoolType,
            TokenType::VoidType,
        ]
    );
}

#[test]
fn comparison_kinds() {
    let cmp: Vec<TokenType> = ALL.iter().copied().filter(|t| t.is_comparison()).collect();
    assert_eq!(
        cmp,
        vec![TokenType::Eq, TokenType::Neq, TokenType::Lt, TokenType::Gt, TokenType::Le, TokenType::Ge]
    );
}

#[test]
fn classes_are_disjoint() {
    for t in ALL {
        assert!(!(t.is_literal() && t.is_type()));
        if t.is_comparison() {
            assert!(!t.is_literal() && !t.is_type());
        }
    }
}

#[test]
fn names_match_debug() {
    for t in ALL {
        assert_eq!(t.name(), format!("{:?}", t));
    }
}

#[test]
fn eof_token() {
    let t = Token::eof(3, 7);
    assert_eq!(t, Token { ty: TokenType::Eof, lexeme: String::new(), line: 3, col: 7 });
}

#[test]
fn newline_token() {
    let t = Token::newline(2, 5);
    assert_eq!(t, Token { ty: TokenType::Newline, lexeme: "\\n".to_string(), line: 2, col: 5 });
    assert_eq!(t.lexeme.len(), 2);
}

#[test]
fn token_as_text() {
    let t = Token { ty: TokenType::Ident, lexeme: "main".to_string(), line: 12, col: 40 };
    assert_eq!(t.to_string(), "[12:40] Ident 'main'");
    assert_eq!(Token::eof(1, 1).to_string(), "[1:1] Eof ''");
    assert_eq!(Token::newline(1, 9).to_string(), "[1:9] Newline '\\n'");
}
