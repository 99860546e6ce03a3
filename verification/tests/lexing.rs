use kaleido::lexer::{LexError, Token, TokenReader};

fn reader(src: &str) -> TokenReader {
    TokenReader::new(src.chars().collect())
}

fn tokens_of(src: &str) -> Vec<Token> {
    reader(src).tokenize().expect("lexes")
}

fn ident(s: &str) -> Token {
    Token::Identifier(s.to_string())
}

fn number(s: &str) -> Token {
    Token::Number(s.to_string())
}

#[test]
fn keywords_and_identifiers() {
    assert_eq!(
        tokens_of("def extern foo f2"),
        vec![Token::Def, Token::Extern, ident("foo"), ident("f2"), Token::Eof]
    );
}

#[test]
fn punctuation_and_operators() {
    assert_eq!(
        tokens_of("( ) , ; + - * <"),
        vec![
            Token::LParen,
            Token::RParen,
            Token::Comma,
            Token::Semicolon,
            Token::Plus,
            Token::Minus,
            Token::Star,
            Token::LessThan,
            Token::Eof
        ]
    );
}

#[test]
fn numbers_keep_their_text() {
    assert_eq!(
        tokens_of("1 1.5 .5 5. 007"),
        vec![number("1"), number("1.5"), number(".5"), number("5."), number("007"), Token::Eof]
    );
}

#[test]
fn comments_and_whitespace_are_skipped() {
    assert_eq!(
        tokens_of("# a comment with ( junk\n  def # more\nfoo"),
        vec![Token::Def, ident("foo"), Token::Eof]
    );
}

#[test]
fn comment_to_end_of_input() {
    assert_eq!(tokens_of("# nothing here"), vec![Token::Eof]);
}

#[test]
fn empty_input_is_one_eof() {
    assert_eq!(tokens_of(""), vec![Token::Eof]);
}

#[test]
fn malformed_number_two_dots() {
    assert_eq!(reader("1.2.3").tokenize(), Err(LexError::MalformedNumber));
}

#[test]
fn malformed_number_lone_dot() {
    assert_eq!(reader(".").tokenize(), Err(LexError::MalformedNumber));
}

#[test]
fn unexpected_character() {
    assert_eq!(reader("$").tokenize(), Err(LexError::UnexpectedChar('$')));
}

#[test]
fn get_token_returns_eof_repeatedly() {
    let mut r = reader("x");
    assert_eq!(r.get_token(), Ok(ident("x")));
    assert_eq!(r.get_token(), Ok(Token::Eof));
    assert_eq!(r.get_token(), Ok(Token::Eof));
}

#[test]
fn next_hands_out_eof_once() {
    let mut r = reader("1 +");
    assert_eq!(r.next(), Ok(Some(number("1"))));
    assert_eq!(r.next(), Ok(Some(Token::Plus)));
    assert_eq!(r.next(), Ok(Some(Token::Eof)));
    assert_eq!(r.next(), Ok(None));
    assert_eq!(r.next(), Ok(None));
}

#[test]
fn identifier_text_is_collected() {
    let mut r = reader("abc123 rest");
    let s = r.get_identifier();
    assert_eq!(s, "abc123".to_string());
}

#[test]
fn get_number_rejects_bad_run() {
    let mut r = reader("1..2");
    assert_eq!(r.get_number(), Err(LexError::MalformedNumber));
}

#[test]
fn get_number_accepts_good_run() {
    let mut r = reader("12.5)");
    assert_eq!(r.get_number(), Ok("12.5".to_string()));
}

#[test]
fn skip_whitespace_stops_at_token() {
    let mut r = reader("   \t# c\n  x");
    r.skip_whitespace_and_comments();
    assert_eq!(r.get_token(), Ok(ident("x")));
}
