use vstd::prelude::*;

use crate::scan::SpecNext;
use crate::scan::consumed;
use crate::scan::is_space;
use crate::scan::lemma_lex_consumed;
use crate::scan::lemma_line_count;
use crate::scan::lemma_string_scan;
use crate::scan::lemma_word_count;
use crate::scan::lemma_ws_count;
use crate::scan::lemma_ws_count_is;
use crate::scan::lex;
use crate::scan::line_count;
use crate::scan::skip_spaces;
use crate::scan::step_text;
use crate::scan::stream_text;
use crate::scan::string_scan;
use crate::scan::tokens_of;
use crate::scan::word_char;
use crate::scan::word_count;
use crate::scan::ws_count;
use crate::token::SpecToken;
use crate::token::TokenizerError;

verus! {

/// An input consisting solely of whitespace (the empty input included)
/// produces the empty token sequence.
pub proof fn lemma_whitespace_only(s: Seq<char>)
    requires
        forall|i: int| 0 <= i < s.len() ==> is_space(s[i]),
    ensures
        tokens_of(s) == Seq::<SpecNext>::empty(),
{
    lemma_ws_count_is(s, s.len() as int);
}

/// The characters one step consumed are exactly the spelling of what it
/// produced: the token's payload together with its delimiting quotes or
/// leading semicolon, or the offending character of an unrecognized-character
/// error. (A discarded unterminated string literal is the one step this
/// cannot hold of, and is left out.)
pub proof fn lemma_step_text(s: Seq<char>)
    requires
        s.len() > 0,
        !(lex(s) matches SpecNext::Fail(TokenizerError::MissingStringQuote, _)),
    ensures
        step_text(lex(s)) == s.take(consumed(lex(s))),
{
    lemma_word_count(s);
    if word_char(s[0]) {
    } else if s[0] == '"' {
        lemma_string_scan(s.skip(1), false);
        match string_scan(s.skip(1), false) {
            Some(p) => {
                assert(seq!['"'] + s.skip(1).take(p.1 - 1) + seq!['"'] =~= s.take(1 + p.1));
            },
            None => {},
        }
    } else if s[0] == '~' {
        if s.len() >= 2 && s[1] == '@' {
            assert(seq!['~', '@'] =~= s.take(2));
        } else {
            assert(seq!['~'] =~= s.take(1));
        }
    } else if s[0] == ';' {
        lemma_line_count(s.skip(1));
        assert(seq![';'] + s.skip(1).take(line_count(s.skip(1)))
            =~= s.take(1 + line_count(s.skip(1))));
    } else {
        assert(step_text(lex(s)) =~= s.take(1));
    }
}

/// Lossless scanning: as long as no step is a discarded unterminated string
/// literal, concatenating each maximal whitespace run with the spelling of
/// the step scanned right after it reassembles the original input exactly.
pub proof fn lemma_lossless(s: Seq<char>)
    requires
        forall|i: int|
            0 <= i < tokens_of(s).len() ==> !((#[trigger] tokens_of(s)[i]) matches SpecNext::Fail(
                TokenizerError::MissingStringQuote,
                _,
            )),
    ensures
        stream_text(s) == s,
    decreases s.len(),
{
    lemma_ws_count(s);
    let rem = skip_spaces(s);
    if rem.len() == 0 {
    } else {
        lemma_lex_consumed(rem);
        let o = lex(rem);
        let rest = rem.skip(consumed(o));
        assert(tokens_of(s) == seq![o] + tokens_of(rest));
        assert(tokens_of(s)[0] == o);
        lemma_step_text(rem);
        assert forall|i: int|
            0 <= i < tokens_of(rest).len() implies !((#[trigger] tokens_of(rest)[i])
            matches SpecNext::Fail(TokenizerError::MissingStringQuote, _)) by {
            assert(tokens_of(s)[i + 1] == tokens_of(rest)[i]);
        }
        lemma_lossless(rest);
        assert(s.take(ws_count(s)) + rem.take(consumed(o)) + rest =~= s);
    }
}

/// `~@` always yields a single UnquoteSplice token spanning both characters,
/// never two tokens.
pub proof fn lemma_unquote_splice(s: Seq<char>)
    requires
        s.len() >= 2,
        s[0] == '~',
        s[1] == '@',
    ensures
        lex(s) == SpecNext::Tok(SpecToken::UnquoteSplice, 2),
{
}

/// `~` not followed by `@` yields Unquote and consumes one character,
/// leaving whatever follows untouched for the next step.
pub proof fn lemma_unquote_alone(s: Seq<char>)
    requires
        s.len() >= 1,
        s[0] == '~',
        s.len() >= 2 ==> s[1] != '@',
    ensures
        lex(s) == SpecNext::Tok(SpecToken::Unquote, 1),
{
}

/// An escaped quote does not terminate a string literal early: when the
/// body of a literal starts with the escape marker and a quote, any
/// successful scan keeps both characters inside the literal's content and
/// finds its closing quote strictly later.
pub proof fn lemma_escaped_quote(s: Seq<char>)
    requires
        s.len() >= 2,
        s[0] == '\\',
        s[1] == '"',
    ensures
        match string_scan(s, false) {
            Some(p) => p.0.len() >= 2 && p.0[0] == '\\' && p.0[1] == '"' && p.1 >= 3,
            None => true,
        },
{
    assert(s.skip(1)[0] == s[1]);
    assert(s.skip(1).skip(1) =~= s.skip(2));
    lemma_string_scan(s.skip(2), false);
    let t2 = string_scan(s.skip(2), false);
    assert(string_scan(s.skip(1), true) == match t2 {
        None => None,
        Some(q) => Some((seq![s[1]] + q.0, q.1 + 1)),
    });
    assert(string_scan(s, false) == match string_scan(s.skip(1), true) {
        None => None,
        Some(p) => Some((seq![s[0]] + p.0, p.1 + 1)),
    });
    match t2 {
        None => {},
        Some(q) => {
            assert((seq![s[0]] + (seq![s[1]] + q.0))[0] == s[0]);
            assert((seq![s[0]] + (seq![s[1]] + q.0))[1] == s[1]);
        },
    }
}

/// An unterminated string literal yields exactly one MissingStringQuote
/// error, consuming the whole remaining input, so no further steps follow.
pub proof fn lemma_unterminated_string(s: Seq<char>)
    requires
        s.len() > 0,
        s[0] == '"',
        string_scan(s.skip(1), false) is None,
    ensures
        lex(s) == SpecNext::Fail(TokenizerError::MissingStringQuote, s.len() as int),
        tokens_of(s) == seq![
            SpecNext::Fail(TokenizerError::MissingStringQuote, s.len() as int),
        ],
{
    assert(skip_spaces(s) =~= s);
    let o = lex(s);
    let rest = s.skip(consumed(o));
    assert(tokens_of(s) == seq![o] + tokens_of(rest));
    assert(skip_spaces(rest) =~= rest);
    assert(tokens_of(rest) == Seq::<SpecNext>::empty());
    assert(tokens_of(s) =~= seq![o]);
}

/// Word scanning consumes the maximal run of word characters and stops at,
/// without consuming, the first reserved or whitespace character.
pub proof fn lemma_word_boundary(s: Seq<char>)
    requires
        s.len() > 0,
        word_char(s[0]),
    ensures
        lex(s) == SpecNext::Tok(SpecToken::Word(s.take(word_count(s))), word_count(s)),
        forall|i: int| 0 <= i < word_count(s) ==> word_char(s[i]),
        word_count(s) < s.len() ==> !word_char(s[word_count(s)]),
{
    lemma_word_count(s);
}

} // verus!
