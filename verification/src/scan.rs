use vstd::prelude::*;

use crate::token::SpecToken;
use crate::token::TokenizerError;

verus! {

/// The characters with the Unicode `White_Space` property: the host's
/// notion of whitespace, which the scanner skips between tokens.
pub open spec fn is_space(c: char) -> bool {
    let n = c as u32;
    ||| n == 0x20
    ||| 0x09 <= n && n <= 0x0d
    ||| n == 0x85
    ||| n == 0xa0
    ||| n == 0x1680
    ||| 0x2000 <= n && n <= 0x200a
    ||| n == 0x2028
    ||| n == 0x2029
    ||| n == 0x202f
    ||| n == 0x205f
    ||| n == 0x3000
}

/// Relies on char::is_whitespace: it returns true exactly for the characters
/// with the Unicode `White_Space` property, the set that `is_space` lists.
pub assume_specification[ char::is_whitespace ](c: char) -> (r: bool)
    ensures
        r == is_space(c),
;

/// The thirteen reserved characters: each starts or participates in
/// punctuation, quoting, string, or comment syntax, so none can belong to a
/// `Word` token.
pub open spec fn is_reserved(c: char) -> bool {
    ||| c == '(' ||| c == ')' ||| c == '[' ||| c == ']' ||| c == '{' ||| c == '}'
    ||| c == '\'' ||| c == '@' ||| c == '^' ||| c == '`' ||| c == '"' ||| c == '~'
    ||| c == ';'
}

/// A character that may appear in a `Word` token: neither reserved nor
/// whitespace.
pub open spec fn word_char(c: char) -> bool {
    !is_reserved(c) && !is_space(c)
}

/// Length of the maximal whitespace prefix of `s`.
pub open spec fn ws_count(s: Seq<char>) -> int
    decreases s.len(),
{
    if s.len() > 0 && is_space(s[0]) {
        1 + ws_count(s.skip(1))
    } else {
        0
    }
}

/// `s` with its maximal whitespace prefix removed.
pub open spec fn skip_spaces(s: Seq<char>) -> Seq<char> {
    s.skip(ws_count(s))
}

/// Length of the maximal word-character prefix of `s`.
pub open spec fn word_count(s: Seq<char>) -> int
    decreases s.len(),
{
    if s.len() > 0 && word_char(s[0]) {
        1 + word_count(s.skip(1))
    } else {
        0
    }
}

/// Length of the maximal newline-free prefix of `s`.
pub open spec fn line_count(s: Seq<char>) -> int
    decreases s.len(),
{
    if s.len() > 0 && s[0] != '\n' {
        1 + line_count(s.skip(1))
    } else {
        0
    }
}

pub broadcast proof fn lemma_ws_count(s: Seq<char>)
    ensures
        0 <= #[trigger] ws_count(s) <= s.len(),
        forall|i: int| 0 <= i < ws_count(s) ==> is_space(s[i]),
        ws_count(s) < s.len() ==> !is_space(s[ws_count(s)]),
    decreases s.len(),
{
    if s.len() > 0 && is_space(s[0]) {
        lemma_ws_count(s.skip(1));
        assert forall|i: int| 0 <= i < ws_count(s) implies is_space(s[i]) by {
            if i > 0 {
                assert(s.skip(1)[i - 1] == s[i]);
            }
        }
        if ws_count(s) < s.len() {
            assert(s.skip(1)[ws_count(s) - 1] == s[ws_count(s)]);
        }
    }
}

pub proof fn lemma_ws_count_is(s: Seq<char>, n: int)
    requires
        0 <= n <= s.len(),
        forall|i: int| 0 <= i < n ==> is_space(s[i]),
        n < s.len() ==> !is_space(s[n]),
    ensures
        ws_count(s) == n,
{
    lemma_ws_count(s);
}

pub broadcast proof fn lemma_word_count(s: Seq<char>)
    ensures
        0 <= #[trigger] word_count(s) <= s.len(),
        forall|i: int| 0 <= i < word_count(s) ==> word_char(s[i]),
        word_count(s) < s.len() ==> !word_char(s[word_count(s)]),
    decreases s.len(),
{
    if s.len() > 0 && word_char(s[0]) {
        lemma_word_count(s.skip(1));
        assert forall|i: int| 0 <= i < word_count(s) implies word_char(s[i]) by {
            if i > 0 {
                assert(s.skip(1)[i - 1] == s[i]);
            }
        }
        if word_count(s) < s.len() {
            assert(s.skip(1)[word_count(s) - 1] == s[word_count(s)]);
        }
    }
}

pub proof fn lemma_word_count_is(s: Seq<char>, n: int)
    requires
        0 <= n <= s.len(),
        forall|i: int| 0 <= i < n ==> word_char(s[i]),
        n < s.len() ==> !word_char(s[n]),
    ensures
        word_count(s) == n,
{
    lemma_word_count(s);
}

pub broadcast proof fn lemma_line_count(s: Seq<char>)
    ensures
        0 <= #[trigger] line_count(s) <= s.len(),
        forall|i: int| 0 <= i < line_count(s) ==> s[i] != '\n',
        line_count(s) < s.len() ==> s[line_count(s)] == '\n',
    decreases s.len(),
{
    if s.len() > 0 && s[0] != '\n' {
        lemma_line_count(s.skip(1));
        assert forall|i: int| 0 <= i < line_count(s) implies s[i] != '\n' by {
            if i > 0 {
                assert(s.skip(1)[i - 1] == s[i]);
            }
        }
        if line_count(s) < s.len() {
            assert(s.skip(1)[line_count(s) - 1] == s[line_count(s)]);
        }
    }
}

pub proof fn lemma_line_count_is(s: Seq<char>, n: int)
    requires
        0 <= n <= s.len(),
        forall|i: int| 0 <= i < n ==> s[i] != '\n',
        n < s.len() ==> s[n] == '\n',
    ensures
        line_count(s) == n,
{
    lemma_line_count(s);
}

/// Scanning the body of a string literal whose opening quote has already
/// been consumed, with `escaping` telling whether the character before `s`
/// was an unconsumed escape marker. Yields the literal's raw content and the
/// number of characters consumed (content plus the closing quote), or `None`
/// when the input ends before an unescaped closing quote.
pub open spec fn string_scan(s: Seq<char>, escaping: bool) -> Option<(Seq<char>, int)>
    decreases s.len(),
{
    if s.len() == 0 {
        None
    } else if s[0] == '"' && !escaping {
        Some((Seq::empty(), 1))
    } else {
        match string_scan(s.skip(1), s[0] == '\\') {
            None => None,
            Some(p) => Some((seq![s[0]] + p.0, p.1 + 1)),
        }
    }
}

pub broadcast proof fn lemma_string_scan(s: Seq<char>, escaping: bool)
    ensures
        match #[trigger] string_scan(s, escaping) {
            Some(p) => {
                &&& 1 <= p.1 <= s.len()
                &&& p.0 == s.take(p.1 - 1)
                &&& s[p.1 - 1] == '"'
            },
            None => true,
        },
    decreases s.len(),
{
    if s.len() == 0 {
    } else if s[0] == '"' && !escaping {
        assert(Seq::<char>::empty() =~= s.take(0));
    } else {
        lemma_string_scan(s.skip(1), s[0] == '\\');
        match string_scan(s.skip(1), s[0] == '\\') {
            None => {},
            Some(p) => {
                assert(seq![s[0]] + s.skip(1).take(p.1 - 1) =~= s.take(p.1));
                assert(s.skip(1)[p.1 - 1] == s[p.1]);
            },
        }
    }
}

/// The outcome of one production step: end of input, a token with the number
/// of characters it consumed, or a lexical error with the number of
/// characters it consumed.
pub enum SpecNext {
    End,
    Tok(SpecToken, int),
    Fail(TokenizerError, int),
}

/// How many characters the step consumed.
pub open spec fn consumed(o: SpecNext) -> int {
    match o {
        SpecNext::End => 0,
        SpecNext::Tok(_, n) => n,
        SpecNext::Fail(_, n) => n,
    }
}

/// One production step on input `s` whose whitespace prefix has already been
/// skipped: the classification rule of the scanner.
pub open spec fn lex(s: Seq<char>) -> SpecNext {
    if s.len() == 0 {
        SpecNext::End
    } else if word_char(s[0]) {
        SpecNext::Tok(SpecToken::Word(s.take(word_count(s))), word_count(s))
    } else if s[0] == '(' {
        SpecNext::Tok(SpecToken::OpenParen, 1)
    } else if s[0] == ')' {
        SpecNext::Tok(SpecToken::CloseParen, 1)
    } else if s[0] == '[' {
        SpecNext::Tok(SpecToken::OpenSquare, 1)
    } else if s[0] == ']' {
        SpecNext::Tok(SpecToken::CloseSquare, 1)
    } else if s[0] == '{' {
        SpecNext::Tok(SpecToken::OpenCurly, 1)
    } else if s[0] == '}' {
        SpecNext::Tok(SpecToken::CloseCurly, 1)
    } else if s[0] == '\'' {
        SpecNext::Tok(SpecToken::Quote, 1)
    } else if s[0] == '@' {
        SpecNext::Tok(SpecToken::Deref, 1)
    } else if s[0] == '^' {
        SpecNext::Tok(SpecToken::Metadata, 1)
    } else if s[0] == '`' {
        SpecNext::Tok(SpecToken::SyntaxQuote, 1)
    } else if s[0] == '"' {
        match string_scan(s.skip(1), false) {
            Some(p) => SpecNext::Tok(SpecToken::StringLiteral(p.0), 1 + p.1),
            None => SpecNext::Fail(TokenizerError::MissingStringQuote, s.len() as int),
        }
    } else if s[0] == '~' {
        if s.len() >= 2 && s[1] == '@' {
            SpecNext::Tok(SpecToken::UnquoteSplice, 2)
        } else {
            SpecNext::Tok(SpecToken::Unquote, 1)
        }
    } else if s[0] == ';' {
        SpecNext::Tok(
            SpecToken::Comment(s.skip(1).take(line_count(s.skip(1)))),
            1 + line_count(s.skip(1)),
        )
    } else {
        SpecNext::Fail(TokenizerError::UnrecognizedChar(s[0]), 1)
    }
}

/// A step on non-empty input consumes at least one character and at most the
/// whole input, and is never `End`.
pub broadcast proof fn lemma_lex_consumed(s: Seq<char>)
    requires
        s.len() > 0,
    ensures
        1 <= consumed(#[trigger] lex(s)) <= s.len(),
        !(lex(s) is End),
{
    lemma_word_count(s);
    lemma_line_count(s.skip(1));
    lemma_string_scan(s.skip(1), false);
}


/// The whole stream of production steps on `s`: skip whitespace, take one
/// step, and continue after what it consumed; empty once only whitespace is
/// left.
pub open spec fn tokens_of(s: Seq<char>) -> Seq<SpecNext>
    decreases s.len(),
    via tokens_of_decreases
{
    let rem = skip_spaces(s);
    if rem.len() == 0 {
        Seq::empty()
    } else {
        seq![lex(rem)] + tokens_of(rem.skip(consumed(lex(rem))))
    }
}

#[via_fn]
proof fn tokens_of_decreases(s: Seq<char>) {
    lemma_ws_count(s);
    if skip_spaces(s).len() != 0 {
        lemma_lex_consumed(skip_spaces(s));
    }
}

/// The exact source spelling of a token, delimiters included.
pub open spec fn raw_text(t: SpecToken) -> Seq<char> {
    match t {
        SpecToken::OpenParen => seq!['('],
        SpecToken::CloseParen => seq![')'],
        SpecToken::OpenSquare => seq!['['],
        SpecToken::CloseSquare => seq![']'],
        SpecToken::OpenCurly => seq!['{'],
        SpecToken::CloseCurly => seq!['}'],
        SpecToken::UnquoteSplice => seq!['~', '@'],
        SpecToken::Unquote => seq!['~'],
        SpecToken::Quote => seq!['\''],
        SpecToken::Deref => seq!['@'],
        SpecToken::Metadata => seq!['^'],
        SpecToken::SyntaxQuote => seq!['`'],
        SpecToken::Comment(text) => seq![';'] + text,
        SpecToken::Word(text) => text,
        SpecToken::StringLiteral(text) => seq!['"'] + text + seq!['"'],
    }
}

/// The characters one production step was scanned from. A discarded
/// unterminated string literal has no spelling of its own.
pub open spec fn step_text(o: SpecNext) -> Seq<char> {
    match o {
        SpecNext::End => Seq::empty(),
        SpecNext::Tok(t, _) => raw_text(t),
        SpecNext::Fail(e, _) => match e {
            TokenizerError::UnrecognizedChar(c) => seq![c],
            TokenizerError::MissingStringQuote => Seq::empty(),
        },
    }
}

/// The input as reassembled from the stream: each maximal whitespace run
/// verbatim, followed by the spelling of the step scanned after it.
pub open spec fn stream_text(s: Seq<char>) -> Seq<char>
    decreases s.len(),
    via stream_text_decreases
{
    let rem = skip_spaces(s);
    if rem.len() == 0 {
        s
    } else {
        s.take(ws_count(s)) + step_text(lex(rem)) + stream_text(rem.skip(consumed(lex(rem))))
    }
}

#[via_fn]
proof fn stream_text_decreases(s: Seq<char>) {
    lemma_ws_count(s);
    if skip_spaces(s).len() != 0 {
        lemma_lex_consumed(skip_spaces(s));
    }
}

} // verus!
