use vstd::prelude::*;

verus! {

/// One lexical token of the Lisp-family surface syntax.
///
/// `Word` carries a maximal run of non-reserved, non-whitespace characters;
/// no numeric or symbolic classification happens at this layer.
/// `StringLiteral` carries the raw text between the delimiting quotes, with
/// escape markers left undecoded. `Comment` carries the text following `;`
/// up to (not including) the next newline.
#[derive(Clone, Debug)]
pub enum Token {
    OpenParen,
    CloseParen,
    OpenSquare,
    CloseSquare,
    OpenCurly,
    CloseCurly,
    UnquoteSplice,
    Unquote,
    Quote,
    Deref,
    Metadata,
    SyntaxQuote,
    Comment(String),
    Word(String),
    StringLiteral(String),
}

/// The mathematical shape of a token: the same cases as [`Token`], with
/// payloads abstracted to character sequences.
pub enum SpecToken {
    OpenParen,
    CloseParen,
    OpenSquare,
    CloseSquare,
    OpenCurly,
    CloseCurly,
    UnquoteSplice,
    Unquote,
    Quote,
    Deref,
    Metadata,
    SyntaxQuote,
    Comment(Seq<char>),
    Word(Seq<char>),
    StringLiteral(Seq<char>),
}

impl View for Token {
    type V = SpecToken;

    open spec fn view(&self) -> SpecToken {
        match self {
            Token::OpenParen => SpecToken::OpenParen,
            Token::CloseParen => SpecToken::CloseParen,
            Token::OpenSquare => SpecToken::OpenSquare,
            Token::CloseSquare => SpecToken::CloseSquare,
            Token::OpenCurly => SpecToken::OpenCurly,
            Token::CloseCurly => SpecToken::CloseCurly,
            Token::UnquoteSplice => SpecToken::UnquoteSplice,
            Token::Unquote => SpecToken::Unquote,
            Token::Quote => SpecToken::Quote,
            Token::Deref => SpecToken::Deref,
            Token::Metadata => SpecToken::Metadata,
            Token::SyntaxQuote => SpecToken::SyntaxQuote,
            Token::Comment(text) => SpecToken::Comment(text@),
            Token::Word(text) => SpecToken::Word(text@),
            Token::StringLiteral(text) => SpecToken::StringLiteral(text@),
        }
    }
}

impl PartialEq for Token {
    fn eq(&self, other: &Token) -> (r: bool) {
        match (self, other) {
            (Token::OpenParen, Token::OpenParen) => true,
            (Token::CloseParen, Token::CloseParen) => true,
            (Token::OpenSquare, Token::OpenSquare) => true,
            (Token::CloseSquare, Token::CloseSquare) => true,
            (Token::OpenCurly, Token::OpenCurly) => true,
            (Token::CloseCurly, Token::CloseCurly) => true,
            (Token::UnquoteSplice, Token::UnquoteSplice) => true,
            (Token::Unquote, Token::Unquote) => true,
            (Token::Quote, Token::Quote) => true,
            (Token::Deref, Token::Deref) => true,
            (Token::Metadata, Token::Metadata) => true,
            (Token::SyntaxQuote, Token::SyntaxQuote) => true,
            (Token::Comment(a), Token::Comment(b)) => *a == *b,
            (Token::Word(a), Token::Word(b)) => *a == *b,
            (Token::StringLiteral(a), Token::StringLiteral(b)) => *a == *b,
            _ => false,
        }
    }
}

impl vstd::std_specs::cmp::PartialEqSpecImpl for Token {
    open spec fn obeys_eq_spec() -> bool {
        true
    }

    open spec fn eq_spec(&self, other: &Token) -> bool {
        self@ == other@
    }
}

/// A lexical error.
///
/// `MissingStringQuote`: a string literal was opened but the input ended
/// before an unescaped closing quote was found.
/// `UnrecognizedChar`: a reserved character matched no punctuation or
/// quoting rule (unreachable while the reserved set stays fixed, kept as a
/// guard for future reserved characters).
#[derive(Clone, Copy, Debug, PartialEq, Eq, Structural)]
pub enum TokenizerError {
    MissingStringQuote,
    UnrecognizedChar(char),
}

} // verus!
