use minilex::lexer::Lexer;
use minilex::token::{Token, TokenType};

fn compare_tokens(left: Vec<Token>, right: Vec<Token>) {
    let token_iter = left.iter().zip(right.iter()).enumerate();
    for (index, (left_token, right_token)) in token_iter {
        if left_token != right_token {
            assert_eq!(left[..index + 1], right[..index + 1]);
        }
    }

    assert_eq!(left.len(), right.len());
}

#[test]
fn basic_tokens() {
    let input = "=+(){},;";
    let lexer = Lexer::new(input);
    let tokens = lexer.lex();
    compare_tokens(
        vec![
            Token(TokenType::Assign, vec!['=']),
            Token(TokenType::Plus, vec!['+']),
            Token(TokenType::LParen, vec!['(']),
            Token(TokenType::RParen, vec![')']),
            Token(TokenType::LBrace, vec!['{']),
            Token(TokenType::RBrace, vec!['}']),
            Token(TokenType::Comma, vec![',']),
            Token(TokenType::Semicolon, vec![';']),
        ],
        tokens,
    );
}

#[test]
fn bindings_and_functions() {
    let input = "
        let five = 5;
            let ten = 10;
        let add = fn(x, y) {
            x + y;
        };
        let result = add(five, ten)
    ";
    let lexer = Lexer::new(input);
    let tokens = lexer.lex();
    compare_tokens(
        vec![
            Token(TokenType::Let, "let".chars().collect()),
            Token(TokenType::Ident, "five".chars().collect()),
            Token(TokenType::Assign, vec!['=']),
            Token(TokenType::Int, "5".chars().collect()),
            Token(TokenType::Semicolon, vec![';']),
            Token(TokenType::Let, "let".chars().collect()),
            Token(TokenType::Ident, "ten".chars().collect()),
            Token(TokenType::Assign, vec!['=']),
            Token(TokenType::Int, "10".chars().collect()),
            Token(TokenType::Semicolon, vec![';']),
            Token(TokenType::Let, "let".chars().collect()),
            Token(TokenType::Ident, "add".chars().collect()),
            Token(TokenType::Assign, vec!['=']),
            Token(TokenType::Function, "fn".chars().collect()),
            Token(TokenType::LParen, vec!['(']),
            Token(TokenType::Ident, "x".chars().collect()),
            Token(TokenType::Comma, vec![',']),
            Token(TokenType::Ident, "y".chars().collect()),
            Token(TokenType::RParen, vec![')']),
            Token(TokenType::LBrace, vec!['{']),
            Token(TokenType::Ident, "x".chars().collect()),
            Token(TokenType::Plus, vec!['+']),
            Token(TokenType::Ident, "y".chars().collect()),
            Token(TokenType::Semicolon, vec![';']),
            Token(TokenType::RBrace, vec!['}']),
            Token(TokenType::Semicolon, vec![';']),
            Token(TokenType::Let, "let".chars().collect()),
            Token(TokenType::Ident, "result".chars().collect()),
            Token(TokenType::Assign, vec!['=']),
            Token(TokenType::Ident, "add".chars().collect()),
            Token(TokenType::LParen, vec!['(']),
            Token(TokenType::Ident, "five".chars().collect()),
            Token(TokenType::Comma, vec![',']),
            Token(TokenType::Ident, "ten".chars().collect()),
            Token(TokenType::RParen, vec![')']),
        ],
        tokens,
    );
}

#[test]
fn empty_input_yields_no_tokens() {
    let tokens = Lexer::new("").lex();
    assert_eq!(tokens.len(), 0);
}

#[test]
fn identifier_is_maximal_run() {
    let tokens = Lexer::new("foo_bar").lex();
    compare_tokens(
        vec![Token(TokenType::Ident, "foo_bar".chars().collect())],
        tokens,
    );
}

#[test]
fn digit_ends_identifier() {
    let tokens = Lexer::new("abc123").lex();
    compare_tokens(
        vec![
            Token(TokenType::Ident, "abc".chars().collect()),
            Token(TokenType::Int, "123".chars().collect()),
        ],
        tokens,
    );
}

#[test]
fn keywords_scan_as_keywords() {
    let tokens = Lexer::new("fn let").lex();
    compare_tokens(
        vec![
            Token(TokenType::Function, "fn".chars().collect()),
            Token(TokenType::Let, "let".chars().collect()),
        ],
        tokens,
    );
}

#[test]
fn keyword_lookup_is_exact() {
    let tokens = Lexer::new("fnx lets").lex();
    compare_tokens(
        vec![
            Token(TokenType::Ident, "fnx".chars().collect()),
            Token(TokenType::Ident, "lets".chars().collect()),
        ],
        tokens,
    );
}

#[test]
fn integer_is_one_token() {
    let tokens = Lexer::new("12345").lex();
    compare_tokens(
        vec![Token(TokenType::Int, "12345".chars().collect())],
        tokens,
    );
}

#[test]
fn whitespace_contributes_no_tokens() {
    let tokens = Lexer::new(" \t\r\n ").lex();
    assert_eq!(tokens.len(), 0);
}

#[test]
fn whitespace_between_tokens_is_absorbed() {
    let tokens = Lexer::new("a \t\r\n b").lex();
    compare_tokens(
        vec![
            Token(TokenType::Ident, vec!['a']),
            Token(TokenType::Ident, vec!['b']),
        ],
        tokens,
    );
}

#[test]
fn next_token_past_exhaustion_keeps_returning_eof() {
    let mut lexer = Lexer::new("x");
    let first = lexer.next_token();
    assert_eq!(first.0, TokenType::Ident);
    for _ in 0..3 {
        let t = lexer.next_token();
        assert_eq!(t.0, TokenType::EOF);
    }
}

#[test]
fn illegal_byte_becomes_illegal_token() {
    let tokens = Lexer::new("@").lex();
    compare_tokens(vec![Token(TokenType::Illegal, vec!['@'])], tokens);
}

#[test]
fn scanning_resumes_after_illegal_byte() {
    let tokens = Lexer::new("@ab").lex();
    compare_tokens(
        vec![
            Token(TokenType::Illegal, vec!['@']),
            Token(TokenType::Ident, "ab".chars().collect()),
        ],
        tokens,
    );
}

#[test]
fn dot_is_its_own_illegal_token() {
    let tokens = Lexer::new("1.5").lex();
    compare_tokens(
        vec![
            Token(TokenType::Int, vec!['1']),
            Token(TokenType::Illegal, vec!['.']),
            Token(TokenType::Int, vec!['5']),
        ],
        tokens,
    );
}

#[test]
fn let_binding_end_to_end() {
    let tokens = Lexer::new("let five = 5;").lex();
    compare_tokens(
        vec![
            Token(TokenType::Let, "let".chars().collect()),
            Token(TokenType::Ident, "five".chars().collect()),
            Token(TokenType::Assign, vec!['=']),
            Token(TokenType::Int, vec!['5']),
            Token(TokenType::Semicolon, vec![';']),
        ],
        tokens,
    );
}

#[test]
fn function_literal_end_to_end() {
    let tokens = Lexer::new("let add = fn(x, y) { x + y; };").lex();
    compare_tokens(
        vec![
            Token(TokenType::Let, "let".chars().collect()),
            Token(TokenType::Ident, "add".chars().collect()),
            Token(TokenType::Assign, vec!['=']),
            Token(TokenType::Function, "fn".chars().collect()),
            Token(TokenType::LParen, vec!['(']),
            Token(TokenType::Ident, vec!['x']),
            Token(TokenType::Comma, vec![',']),
            Token(TokenType::Ident, vec!['y']),
            Token(TokenType::RParen, vec![')']),
            Token(TokenType::LBrace, vec!['{']),
            Token(TokenType::Ident, vec!['x']),
            Token(TokenType::Plus, vec!['+']),
            Token(TokenType::Ident, vec!['y']),
            Token(TokenType::Semicolon, vec![';']),
            Token(TokenType::RBrace, vec!['}']),
            Token(TokenType::Semicolon, vec![';']),
        ],
        tokens,
    );
}

#[test]
fn eof_token_never_in_output() {
    let inputs = ["", " ", "let x = 1;", "@#$", "fn"];
    for input in inputs {
        for token in Lexer::new(input).lex() {
            assert_ne!(token.0, TokenType::EOF);
        }
    }
}

#[test]
fn keyword_helper_recognizes_exactly_fn_and_let() {
    let fn_run: Vec<char> = "fn".chars().collect();
    let let_run: Vec<char> = "let".chars().collect();
    let other: Vec<char> = "fnlet".chars().collect();
    assert_eq!(
        minilex::lexer::is_keyword(&fn_run),
        Some(Token(TokenType::Function, "fn".chars().collect()))
    );
    assert_eq!(
        minilex::lexer::is_keyword(&let_run),
        Some(Token(TokenType::Let, "let".chars().collect()))
    );
    assert_eq!(minilex::lexer::is_keyword(&other), None);
}

#[test]
fn character_classes() {
    assert!(minilex::lexer::is_letter('a'));
    assert!(minilex::lexer::is_letter('Z'));
    assert!(minilex::lexer::is_letter('_'));
    assert!(!minilex::lexer::is_letter('0'));
    assert!(!minilex::lexer::is_letter(' '));
    assert!(minilex::lexer::is_number('0'));
    assert!(minilex::lexer::is_number('9'));
    assert!(!minilex::lexer::is_number('a'));
}
