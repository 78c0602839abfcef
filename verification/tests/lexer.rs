use ji::lexer::Lexer;
use ji::token::Token;

fn lex(src: &str) -> Vec<Token> {
    Lexer::new(src).get_tokens()
}

fn ident(s: &str) -> Token {
    Token::Ident(s.to_string())
}

#[test]
fn keywords_in_upper_and_lower_case() {
    assert_eq!(
        lex("CONNECT connect ADD add LINK link GET get DETACH detach Add"),
        vec![
            Token::Connect,
            Token::Connect,
            Token::Add,
            Token::Add,
            Token::Link,
            Token::Link,
            Token::Get,
            Token::Get,
            Token::Detach,
            Token::Detach,
            ident("Add"),
        ]
    );
}

#[test]
fn punctuation_and_arrows() {
    assert_eq!(
        lex("( ) [ ] { } , * ? | > < = . : :: -[ ]-> -> - !"),
        vec![
            Token::OpenParen,
            Token::CloseParen,
            Token::OpenBracket,
            Token::CloseBracket,
            Token::OpenBrace,
            Token::CloseBrace,
            Token::Comma,
            Token::Star,
            Token::Question,
            Token::Pipe,
            Token::GreaterThan,
            Token::LessThan,
            Token::Equal,
            Token::Dot,
            Token::Colon,
            Token::DoubleColon,
            Token::StartEdge,
            Token::Arrow,
            Token::Arrow,
            ident("-"),
            Token::Not,
        ]
    );
}

#[test]
fn strings_numbers_and_identifiers() {
    assert_eq!(
        lex("ville_1: \"Paris Nord\" 0.85 12.3.4"),
        vec![
            ident("ville_1"),
            Token::Colon,
            Token::Str("Paris Nord".to_string()),
            Token::Float("0.85".to_string()),
            Token::Float("12.3.4".to_string()),
        ]
    );
}

#[test]
fn comments_and_unknown_characters_are_skipped() {
    assert_eq!(
        lex("# a comment ADD\nGET @ $ (a) # trailing"),
        vec![Token::Get, Token::OpenParen, ident("a"), Token::CloseParen]
    );
}

#[test]
fn unterminated_string_runs_to_the_end() {
    assert_eq!(lex("\"abc"), vec![Token::Str("abc".to_string())]);
    let mut l = Lexer::new("\"abc");
    assert!(l.next_token().is_some());
    assert!(l.next_token().is_none());
}

#[test]
fn next_token_steps_one_token_at_a_time() {
    let mut l = Lexer::new("  ADD (x)");
    assert_eq!(l.next_token(), Some(Token::Add));
    assert_eq!(l.next_token(), Some(Token::OpenParen));
    assert_eq!(l.next_token(), Some(ident("x")));
    assert_eq!(l.next_token(), Some(Token::CloseParen));
    assert_eq!(l.next_token(), None);
    assert_eq!(l.get_tokens(), vec![]);
}

#[test]
fn opposed_property_is_lexed() {
    assert_eq!(
        lex("{!ville: \"Paris\"}"),
        vec![
            Token::OpenBrace,
            Token::Not,
            ident("ville"),
            Token::Colon,
            Token::Str("Paris".to_string()),
            Token::CloseBrace,
        ]
    );
}

#[test]
fn lexer_stays_at_the_end() {
    let src = "GET (a) # comment\n  ~ \"open";
    let mut lexer = Lexer::new(src);
    let tokens = lexer.get_tokens();
    assert!(tokens.len() <= src.chars().count());
    assert_eq!(lexer.next_token(), None);
    assert_eq!(lexer.next_token(), None);
    let mut blank = Lexer::new("  # only a comment\n ~ ^ ");
    assert_eq!(blank.next_token(), None);
    assert_eq!(blank.get_tokens(), Vec::<Token>::new());
}
