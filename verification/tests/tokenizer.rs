use mal_reader::token::Token;
use mal_reader::token::TokenizerError;
use mal_reader::tokenizer::Tokenizer;
use mal_reader::tokenizer::is_word_char;

fn tokens(input: &str) -> (Vec<Token>, Option<TokenizerError>) {
    let mut tokenizer = Tokenizer::new(input);
    let mut out = Vec::new();
    loop {
        match tokenizer.next() {
            None => return (out, None),
            Some(Ok(token)) => out.push(token),
            Some(Err(err)) => return (out, Some(err)),
        }
    }
}

fn word(text: &str) -> Token {
    Token::Word(text.to_string())
}

#[test]
fn consume_whitespaces() {
    let mut tokenizer = Tokenizer::new("  \t\nfoo\n \n\rbar");
    tokenizer.consume_whitespace();
    assert_eq!(tokenizer.next().unwrap().unwrap(), Token::Word("foo".to_string()));
    tokenizer.consume_whitespace();
    assert_eq!(tokenizer.next().unwrap().unwrap(), Token::Word("bar".to_string()))
}

#[test]
fn consume_line() {
    let mut tokenizer = Tokenizer::new("foo\nbar");
    assert_eq!(tokenizer.consume_line(), "foo");
    assert_eq!(tokenizer.consume_line(), "bar");
}

#[test]
fn empty_and_whitespace_only_inputs() {
    assert_eq!(tokens(""), (vec![], None));
    assert_eq!(tokens("   "), (vec![], None));
    assert_eq!(tokens(" \t\r\n \n"), (vec![], None));
}

#[test]
fn simple_form() {
    let (toks, err) = tokens("(+ 1 2)");
    assert_eq!(err, None);
    assert_eq!(
        toks,
        vec![Token::OpenParen, word("+"), word("1"), word("2"), Token::CloseParen]
    );
}

#[test]
fn quoted_list() {
    let (toks, err) = tokens("'(1 2 3)");
    assert_eq!(err, None);
    assert_eq!(
        toks,
        vec![Token::Quote, Token::OpenParen, word("1"), word("2"), word("3"), Token::CloseParen]
    );
}

#[test]
fn unquote_splice_form() {
    let (toks, err) = tokens("~@(1 2)");
    assert_eq!(err, None);
    assert_eq!(
        toks,
        vec![Token::UnquoteSplice, Token::OpenParen, word("1"), word("2"), Token::CloseParen]
    );
}

#[test]
fn string_literal_with_space() {
    let (toks, err) = tokens("\"hello world\"");
    assert_eq!(err, None);
    assert_eq!(toks, vec![Token::StringLiteral("hello world".to_string())]);
}

#[test]
fn unterminated_string() {
    let mut tokenizer = Tokenizer::new("\"unterminated");
    match tokenizer.next() {
        Some(Err(TokenizerError::MissingStringQuote)) => {}
        other => panic!("expected MissingStringQuote, got {:?}", other),
    }
    // the failed scan consumed the rest of the input: nothing follows
    assert!(tokenizer.next().is_none());
}

#[test]
fn word_stops_at_reserved_char() {
    let (toks, err) = tokens("foo(bar");
    assert_eq!(err, None);
    assert_eq!(toks, vec![word("foo"), Token::OpenParen, word("bar")]);
}

#[test]
fn escaped_quote_stays_in_literal() {
    let (toks, err) = tokens("\"a\\\"b\"");
    assert_eq!(err, None);
    assert_eq!(toks, vec![Token::StringLiteral("a\\\"b".to_string())]);
}

#[test]
fn escape_markers_kept_undecoded() {
    let (toks, err) = tokens("\"a\\nb\"");
    assert_eq!(err, None);
    assert_eq!(toks, vec![Token::StringLiteral("a\\nb".to_string())]);
}

#[test]
fn empty_string_literal() {
    let (toks, err) = tokens("\"\"");
    assert_eq!(err, None);
    assert_eq!(toks, vec![Token::StringLiteral(String::new())]);
}

#[test]
fn unquote_alone_leaves_next_char() {
    let (toks, err) = tokens("~x");
    assert_eq!(err, None);
    assert_eq!(toks, vec![Token::Unquote, word("x")]);

    let (toks, err) = tokens("~");
    assert_eq!(err, None);
    assert_eq!(toks, vec![Token::Unquote]);

    let (toks, err) = tokens("~@");
    assert_eq!(err, None);
    assert_eq!(toks, vec![Token::UnquoteSplice]);
}

#[test]
fn brackets_and_reader_macros() {
    let (toks, err) = tokens("[{}]");
    assert_eq!(err, None);
    assert_eq!(
        toks,
        vec![Token::OpenSquare, Token::OpenCurly, Token::CloseCurly, Token::CloseSquare]
    );

    let (toks, err) = tokens("'@^`");
    assert_eq!(err, None);
    assert_eq!(toks, vec![Token::Quote, Token::Deref, Token::Metadata, Token::SyntaxQuote]);
}

#[test]
fn comment_runs_to_end_of_line() {
    let (toks, err) = tokens("; hello\nfoo");
    assert_eq!(err, None);
    assert_eq!(toks, vec![Token::Comment(" hello".to_string()), word("foo")]);
}

#[test]
fn comment_at_end_of_input() {
    let (toks, err) = tokens(";abc");
    assert_eq!(err, None);
    assert_eq!(toks, vec![Token::Comment("abc".to_string())]);
}

#[test]
fn peek_does_not_consume() {
    let mut tokenizer = Tokenizer::new("foo bar");
    assert_eq!(tokenizer.peek().unwrap().unwrap(), word("foo"));
    assert_eq!(tokenizer.next().unwrap().unwrap(), word("foo"));
    assert_eq!(tokenizer.next().unwrap().unwrap(), word("bar"));
    assert!(tokenizer.peek().is_none());
    assert!(tokenizer.next().is_none());
}

#[test]
fn rest_returns_everything_unconsumed() {
    let mut tokenizer = Tokenizer::new("foo bar");
    assert_eq!(tokenizer.next().unwrap().unwrap(), word("foo"));
    assert_eq!(tokenizer.rest(), " bar");
    assert!(tokenizer.next().is_none());
}

#[test]
fn consume_while_keeps_maximal_run() {
    let mut tokenizer = Tokenizer::new("abc123");
    assert_eq!(tokenizer.consume_while(|c: &char| c.is_alphabetic()), "abc");
    assert_eq!(tokenizer.rest(), "123");
}

#[test]
fn consume_until_drops_the_stopping_char() {
    let mut tokenizer = Tokenizer::new("a,b");
    assert_eq!(tokenizer.consume_until(|c: &char| *c != ','), "a");
    assert_eq!(tokenizer.rest(), "b");
}

#[test]
fn word_char_classification() {
    assert!(is_word_char(&'a'));
    assert!(is_word_char(&'+'));
    assert!(is_word_char(&'1'));
    assert!(!is_word_char(&'('));
    assert!(!is_word_char(&';'));
    assert!(!is_word_char(&'"'));
    assert!(!is_word_char(&' '));
    assert!(!is_word_char(&'\n'));
}

#[test]
fn mixed_form_with_comment_and_string() {
    let (toks, err) = tokens("(def x \"va\\\"l\") ; trailing\n[y]");
    assert_eq!(err, None);
    assert_eq!(
        toks,
        vec![
            Token::OpenParen,
            word("def"),
            word("x"),
            Token::StringLiteral("va\\\"l".to_string()),
            Token::CloseParen,
            Token::Comment(" trailing".to_string()),
            Token::OpenSquare,
            word("y"),
            Token::CloseSquare,
        ]
    );
}
