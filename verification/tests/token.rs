use boop::token::{Token, TokenType};

fn identifier(name: &str) -> TokenType {
    TokenType::Identifier(String::from(name))
}

#[test]
fn resolve_keywords_and_symbols() {
    assert_eq!(TokenType::from_str("func"), TokenType::Function);
    assert_eq!(TokenType::from_str("RETURN"), TokenType::Return);
    assert_eq!(TokenType::from_str("for"), TokenType::For);
    assert_eq!(TokenType::from_str("neq"), TokenType::Neq);
    assert_eq!(TokenType::from_str("("), TokenType::OpenParenthesis);
    assert_eq!(TokenType::from_str(")"), TokenType::CloseParenthesis);
    assert_eq!(TokenType::from_str("+"), TokenType::Add);
    assert_eq!(TokenType::from_str("-"), TokenType::Subtract);
    assert_eq!(TokenType::from_str("*"), TokenType::Multiply);
    assert_eq!(TokenType::from_str("/"), TokenType::Divide);
    assert_eq!(TokenType::from_str("^"), TokenType::Power);
    assert_eq!(TokenType::from_str(","), TokenType::Comma);
}

#[test]
fn resolve_numbers() {
    assert_eq!(TokenType::from_str("21"), TokenType::Integer(21));
    assert_eq!(TokenType::from_str("-21"), TokenType::Integer(-21));
    assert_eq!(TokenType::from_str("+21"), TokenType::Integer(21));
    assert_eq!(TokenType::from_str("-9223372036854775808"), TokenType::Integer(i64::MIN));
    assert_eq!(
        TokenType::from_str("-9223372036854775809"),
        TokenType::Float(String::from("-9223372036854775809"))
    );
    assert_eq!(TokenType::from_str("40.65"), TokenType::Float(String::from("40.65")));
    assert_eq!(TokenType::from_str("-.5e-3"), TokenType::Float(String::from("-.5e-3")));
}

#[test]
fn resolve_falls_back_to_identifier() {
    assert_eq!(TokenType::from_str("fib"), identifier("fib"));
    assert_eq!(TokenType::from_str(""), identifier(""));
    assert_eq!(TokenType::from_str("."), identifier("."));
    assert_eq!(TokenType::from_str("1e"), identifier("1e"));
    assert_eq!(TokenType::from_str("--1"), identifier("--1"));
    assert_eq!(TokenType::from_str("1_000"), identifier("1_000"));
    assert_eq!(TokenType::from_str(" 1"), identifier(" 1"));
    assert_eq!(TokenType::from_str("iff"), identifier("iff"));
    assert_eq!(TokenType::from_str("newline"), identifier("newline"));
    assert_eq!(TokenType::from_str("%"), identifier("%"));
}

#[test]
fn structural_match_ignores_the_payload() {
    assert!(identifier("a").same_variant(&identifier("")));
    assert!(TokenType::Integer(1).same_variant(&TokenType::Integer(2)));
    assert!(!identifier("a").same_variant(&TokenType::StringLiteral(String::from("a"))));
    assert!(!TokenType::Lt.same_variant(&TokenType::Lte));
    assert!(TokenType::Eof.same_variant(&TokenType::Eof));
}

#[test]
fn ordinals_are_all_different() {
    let all = [
        TokenType::Note,
        TokenType::Lte,
        TokenType::Gte,
        TokenType::Gt,
        TokenType::Lt,
        TokenType::Neq,
        TokenType::Eq,
        TokenType::For,
        TokenType::Until,
        TokenType::Break,
        TokenType::Continue,
        TokenType::If,
        TokenType::Then,
        TokenType::Else,
        TokenType::ElseIf,
        TokenType::Do,
        TokenType::End,
        TokenType::Is,
        TokenType::False,
        TokenType::True,
        TokenType::Function,
        TokenType::Uses,
        TokenType::Or,
        TokenType::And,
        TokenType::Not,
        TokenType::Return,
        TokenType::Multiply,
        TokenType::Add,
        TokenType::Subtract,
        TokenType::Divide,
        TokenType::Power,
        TokenType::OpenParenthesis,
        TokenType::CloseParenthesis,
        identifier("x"),
        TokenType::StringLiteral(String::from("x")),
        TokenType::Comma,
        TokenType::Newline,
        TokenType::Integer(0),
        TokenType::Float(String::from("0.5")),
        TokenType::Eof,
    ];
    for (i, kind) in all.iter().enumerate() {
        assert_eq!(kind.ordinal() as usize, i);
        assert_eq!(kind.clone(), *kind);
    }
}

#[test]
fn kinds_in_words() {
    assert_eq!(TokenType::Note.to_text(), "Note");
    assert_eq!(TokenType::ElseIf.to_text(), "ElseIf");
    assert_eq!(TokenType::OpenParenthesis.to_text(), "OpenParenthesis");
    assert_eq!(TokenType::Eof.to_text(), "Eof");
    assert_eq!(TokenType::StringLiteral(String::from("hello world")).to_text(), "String: hello world");
    assert_eq!(identifier("fib").to_text(), "Identifier(fib)");
    assert_eq!(TokenType::Integer(21).to_text(), "Integer(21)");
    assert_eq!(TokenType::Integer(0).to_text(), "Integer(0)");
    assert_eq!(TokenType::Integer(-305).to_text(), "Integer(-305)");
    assert_eq!(TokenType::Integer(i64::MIN).to_text(), "Integer(-9223372036854775808)");
    assert_eq!(TokenType::Integer(i64::MAX).to_text(), "Integer(9223372036854775807)");
    assert_eq!(TokenType::Float(String::from("40.65")).to_text(), "Float(40.65)");
}

#[test]
fn tokens_in_words() {
    assert_eq!(Token::new(TokenType::If, 2).to_text(), "If | on line 2");
    assert_eq!(Token::new(identifier("x"), 120).to_text(), "Identifier(x) | on line 120");
    assert_eq!(Token::new(TokenType::Eof, -3).to_text(), "Eof | on line -3");
}

#[test]
fn token_copy_is_equal() {
    let token = Token::new(TokenType::StringLiteral(String::from("s")), 9);
    assert_eq!(token.clone(), token);
    assert_eq!(token.token, TokenType::StringLiteral(String::from("s")));
    assert_eq!(token.line_number, 9);
}
