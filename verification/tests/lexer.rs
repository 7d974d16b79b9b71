use key_forge::expr::{Lexer, Token};

#[test]
fn test_lexer() {
    let input = "[$x, $(get_random_num 1 10), 123, \"hello\"]";
    let mut lexer = Lexer::new(input);
    let tokens: Vec<_> = std::iter::from_fn(|| lexer.next_token()).collect();

    assert!(matches!(tokens[0], Token::ArrayStart));
    assert!(matches!(&tokens[1], Token::Variable(s) if s == "x"));
    assert!(matches!(tokens[2], Token::Comma));
    assert!(matches!(&tokens[3], Token::Command(s) if s == "get_random_num 1 10"));
    assert!(matches!(tokens[4], Token::Comma));
    assert!(matches!(&tokens[5], Token::Text(s) if s == "123"));
    assert!(matches!(tokens[6], Token::Comma));
    assert!(matches!(&tokens[7], Token::Text(s) if s == "\"hello\""));
    assert!(matches!(tokens[8], Token::ArrayEnd));
}

#[test]
fn lexer_nested_command_parens() {
    let mut lexer = Lexer::new("$(outer $(inner 1) 2)");
    let tokens: Vec<_> = std::iter::from_fn(|| lexer.next_token()).collect();
    assert_eq!(tokens.len(), 1);
    assert!(matches!(&tokens[0], Token::Command(s) if s == "outer $(inner 1) 2"));
}

#[test]
fn lexer_dollar_without_name_skips() {
    let mut lexer = Lexer::new("$ x");
    let tokens: Vec<_> = std::iter::from_fn(|| lexer.next_token()).collect();
    assert_eq!(tokens.len(), 1);
    assert!(matches!(&tokens[0], Token::Text(s) if s == "x"));
}

#[test]
fn lexer_text_is_trimmed() {
    let mut lexer = Lexer::new("  hello world  , 5");
    let tokens: Vec<_> = std::iter::from_fn(|| lexer.next_token()).collect();
    assert!(matches!(&tokens[0], Token::Text(s) if s == "hello world"));
    assert!(matches!(tokens[1], Token::Comma));
    assert!(matches!(&tokens[2], Token::Text(s) if s == "5"));
}
