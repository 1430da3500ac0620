use ryol::parser::parse;
use ryol::tokeniser::{tokenise, TokenType};

fn match_tokens(source: &str, token_types: Vec<TokenType>) {
    let tokens = tokenise(source).unwrap();
    assert_eq!(tokens.len(), token_types.len(), "wrong number of tokens for {}", source);
    for (token, expected) in tokens.iter().zip(token_types.iter()) {
        assert_eq!(token.get_token_type(), expected, "token mismatch for {}", source);
    }
}

#[test]
fn literals_tests() {
    match_tokens("1", vec![TokenType::Integer(1)]);
    match_tokens("-1", vec![TokenType::Integer(-1)]);
    match_tokens("1.04", vec![TokenType::Float("1.04".to_string())]);
    match_tokens("\"Hello\"", vec![TokenType::String("Hello".to_string())]);
}

#[test]
fn string_escape_tests() {
    match_tokens("\"asdf\"", vec![TokenType::String("asdf".to_string())]);
    match_tokens("\"\\n\"", vec![TokenType::String("\n".to_string())]);
    match_tokens("\"\\r\"", vec![TokenType::String("\r".to_string())]);
    match_tokens("\"\\t\"", vec![TokenType::String("\t".to_string())]);
    match_tokens("\"\\\\\"", vec![TokenType::String("\\".to_string())]);
    match_tokens("\"\\\"\"", vec![TokenType::String("\"".to_string())]);
    match_tokens("\"\\'\"", vec![TokenType::String("'".to_string())]);

    assert!(tokenise("\"\\x\"").is_err());
}

#[test]
fn basic_expr_tests() {
    match_tokens(
        "(+ 1 2)",
        vec![
            TokenType::LBracket,
            TokenType::Identifier("+".to_string()),
            TokenType::Integer(1),
            TokenType::Integer(2),
            TokenType::RBracket,
        ],
    );

    match_tokens(
        "(println \"Hello, World!\")",
        vec![
            TokenType::LBracket,
            TokenType::Identifier("println".to_string()),
            TokenType::String("Hello, World!".to_string()),
            TokenType::RBracket,
        ],
    );
}

#[test]
fn negative_one_is_one_integer() {
    let tokens = tokenise("-1").unwrap();
    assert_eq!(tokens.len(), 1);
    assert_eq!(tokens[0].get_token_type(), &TokenType::Integer(-1));
}

#[test]
fn escaped_newline_stays_in_one_string() {
    let tokens = tokenise("\"a\\nb\"").unwrap();
    assert_eq!(tokens.len(), 1);
    assert_eq!(tokens[0].get_token_type(), &TokenType::String("a\nb".to_string()));
    let error = tokenise("\"\\x\"").unwrap_err();
    assert_eq!(error.get_line_no(), 1);
    assert_eq!(error.get_col_no(), 3);
}

#[test]
fn classification_order_and_edges() {
    match_tokens("+5", vec![TokenType::Integer(5)]);
    match_tokens("9223372036854775807", vec![TokenType::Integer(i64::MAX)]);
    match_tokens("-9223372036854775808", vec![TokenType::Integer(i64::MIN)]);
    match_tokens(
        "9223372036854775808",
        vec![TokenType::Float("9223372036854775808".to_string())],
    );
    match_tokens("1e3", vec![TokenType::Float("1e3".to_string())]);
    match_tokens(".5", vec![TokenType::Float(".5".to_string())]);
    match_tokens("inf", vec![TokenType::Float("inf".to_string())]);
    match_tokens("NaN", vec![TokenType::Float("NaN".to_string())]);
    match_tokens("-", vec![TokenType::Identifier("-".to_string())]);
    match_tokens("1.2.3", vec![TokenType::Identifier("1.2.3".to_string())]);
    match_tokens("e5", vec![TokenType::Identifier("e5".to_string())]);
    match_tokens("", vec![]);
}

#[test]
fn comments_and_positions() {
    let tokens = tokenise("; note\n(ab 12)").unwrap();
    assert_eq!(tokens.len(), 4);
    assert_eq!(tokens[0].get_token_type(), &TokenType::LBracket);
    assert_eq!((tokens[0].get_line_no(), tokens[0].get_col_no()), (2, 0));
    assert_eq!(tokens[1].get_token_type(), &TokenType::Identifier("ab".to_string()));
    assert_eq!((tokens[1].get_line_no(), tokens[1].get_col_no()), (2, 2));
    assert_eq!(tokens[2].get_token_type(), &TokenType::Integer(12));
    assert_eq!((tokens[2].get_line_no(), tokens[2].get_col_no()), (2, 5));
    assert_eq!((tokens[3].get_line_no(), tokens[3].get_col_no()), (2, 6));
}

#[test]
fn trailing_close_bracket_leaves_tree_unchanged() {
    for source in ["(x y)", "a (b", "((x))", "x", ""] {
        let plain = parse(tokenise(source).unwrap()).unwrap();
        let extra = parse(tokenise(&format!("{})", source)).unwrap()).unwrap();
        assert_eq!(format!("{:?}", plain), format!("{:?}", extra), "for {}", source);
    }
}

#[test]
fn tree_shapes() {
    let node = parse(tokenise("(+ 1 (* 2 3))").unwrap()).unwrap();
    // a headless group around the call form
    assert!(node.get_token().is_none());
    assert_eq!(node.get_children().len(), 1);
    let call = &node.get_children()[0];
    assert_eq!(
        call.get_token().as_ref().unwrap().get_token_type(),
        &TokenType::Identifier("+".to_string())
    );
    assert_eq!(call.get_children().len(), 2);
    assert_eq!(call.get_children()[1].get_children().len(), 2);
    // two top-level forms are children of one node headed by the first
    let forms = parse(tokenise("(a) (b)").unwrap()).unwrap();
    assert!(forms.get_token().is_none());
    assert_eq!(forms.get_children().len(), 2);
}
