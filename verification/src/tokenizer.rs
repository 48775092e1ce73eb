use vstd::prelude::*;
use vstd::string::StrSliceExecFns;

use crate::scan::SpecNext;
use crate::scan::consumed;
use crate::scan::is_reserved;
use crate::scan::is_space;
use crate::scan::lemma_line_count_is;
use crate::scan::lemma_string_scan;
use crate::scan::lemma_word_count_is;
use crate::scan::lemma_ws_count_is;
use crate::scan::lex;
use crate::scan::line_count;
use crate::scan::skip_spaces;
use crate::scan::string_scan;
use crate::scan::word_char;
use crate::scan::word_count;
use crate::token::SpecToken;
use crate::token::Token;
use crate::token::TokenizerError;

verus! {

/// True when a character may belong to a `Word` token: it is neither one of
/// the thirteen reserved characters nor whitespace.
pub fn is_word_char(c: &char) -> (r: bool)
    ensures
        r == word_char(*c),
{
    !(is_reserved_char(c) || c.is_whitespace())
}

fn is_reserved_char(c: &char) -> (r: bool)
    ensures
        r == is_reserved(*c),
{
    match *c {
        '(' | ')' | '[' | ']' | '{' | '}' | '\'' | '@' | '^' | '`' | '"' | '~' | ';' => true,
        _ => false,
    }
}

/// Relies on String::from_iter: collecting characters yields the string of
/// exactly those characters, in order.
#[verifier::external_body]
fn chars_to_string(chars: Vec<char>) -> (r: String)
    ensures
        r@ == chars@,
{
    chars.into_iter().collect()
}

/// What one run of `consume_while` does when it stops after `n` characters:
/// the consumed text is the length-`n` prefix, every consumed character
/// satisfied the predicate, and the character the run stopped at (if any)
/// did not.
pub open spec fn while_step<F: Fn(&char) -> bool>(
    pre: Seq<char>,
    post: Seq<char>,
    text: Seq<char>,
    predicate: F,
    n: int,
) -> bool {
    &&& 0 <= n <= pre.len()
    &&& text == pre.take(n)
    &&& post == pre.skip(n)
    &&& forall|i: int| 0 <= i < n ==> call_ensures(predicate, (&pre[i],), true)
    &&& n < pre.len() ==> call_ensures(predicate, (&pre[n],), false)
}

/// What one run of `consume_until` does when it stops after `n` kept
/// characters: as `while_step`, except that the character the run stopped at
/// is consumed (and discarded) as well.
pub open spec fn until_step<F: Fn(&char) -> bool>(
    pre: Seq<char>,
    post: Seq<char>,
    text: Seq<char>,
    predicate: F,
    n: int,
) -> bool {
    &&& 0 <= n <= pre.len()
    &&& text == pre.take(n)
    &&& forall|i: int| 0 <= i < n ==> call_ensures(predicate, (&pre[i],), true)
    &&& if n < pre.len() {
        call_ensures(predicate, (&pre[n],), false) && post == pre.skip(n + 1)
    } else {
        post == pre.skip(n)
    }
}

/// Does an exec production step agree with the spec-level step `o`?
pub open spec fn matches_step(o: SpecNext, r: Result<Token, TokenizerError>) -> bool {
    match o {
        SpecNext::End => false,
        SpecNext::Tok(t, _) => r matches Ok(tok) && tok@ == t,
        SpecNext::Fail(e, _) => r matches Err(err) && err == e,
    }
}

/// Does an exec pull agree with the spec-level step `o`?
pub open spec fn matches_next(o: SpecNext, r: Option<Result<Token, TokenizerError>>) -> bool {
    match o {
        SpecNext::End => r is None,
        SpecNext::Tok(t, _) => r matches Some(Ok(tok)) && tok@ == t,
        SpecNext::Fail(e, _) => r matches Some(Err(err)) && err == e,
    }
}

/// The tokenizer: a forward-only cursor over a character sequence, owned
/// exclusively for its whole lifetime. Its view is the sequence of
/// characters not yet consumed.
pub struct Tokenizer {
    chars: Vec<char>,
    pos: usize,
}

impl View for Tokenizer {
    type V = Seq<char>;

    closed spec fn view(&self) -> Seq<char> {
        self.chars@.skip(self.pos as int)
    }
}

impl Tokenizer {
    /// The full character source the tokenizer was built over; it never
    /// changes while the cursor advances.
    pub closed spec fn src(&self) -> Seq<char> {
        self.chars@
    }

    /// Well-formed: the cursor lies within the source.
    pub closed spec fn wf(&self) -> bool {
        self.pos <= self.chars.len()
    }

    /// Builds a tokenizer over the characters of `input`.
    pub fn new(input: &str) -> (t: Tokenizer)
        ensures
            t.wf(),
            t@ == input@,
            t.src() == input@,
    {
        let n: usize = input.unicode_len();
        let mut chars: Vec<char> = Vec::new();
        let mut i: usize = 0;
        proof {
            assert(chars@ =~= input@.take(0));
        }
        while i < n
            invariant
                i <= n,
                n == input@.len(),
                chars@ == input@.take(i as int),
            decreases n - i,
        {
            let c = input.get_char(i);
            chars.push(c);
            i = i + 1;
            proof {
                assert(chars@ =~= input@.take(i as int));
            }
        }
        proof {
            assert(input@.take(n as int) =~= input@);
        }
        Tokenizer { chars, pos: 0 }
    }

    /// The next character, if any, without consuming it.
    fn peek_char(&self) -> (r: Option<char>)
        requires
            self.wf(),
        ensures
            match r {
                Some(c) => self@.len() > 0 && c == self@[0],
                None => self@.len() == 0,
            },
    {
        if self.pos < self.chars.len() {
            Some(self.chars[self.pos])
        } else {
            None
        }
    }

    /// Consumes and returns the next character.
    fn next_char(&mut self) -> (c: char)
        requires
            old(self).wf(),
            old(self)@.len() > 0,
        ensures
            final(self).wf(),
            final(self).src() == old(self).src(),
            c == old(self)@[0],
            final(self)@ == old(self)@.skip(1),
    {
        let c = self.chars[self.pos];
        self.pos = self.pos + 1;
        proof {
            assert(self@ =~= old(self)@.skip(1));
        }
        c
    }

    /// Consumes the maximal run of characters satisfying `predicate` and
    /// returns them as a string; it stops at, and does not consume, the
    /// first character that fails the predicate.
    pub fn consume_while<F: Fn(&char) -> bool>(&mut self, predicate: F) -> (r: String)
        requires
            old(self).wf(),
            forall|c: char| #[trigger] call_requires(predicate, (&c,)),
        ensures
            final(self).wf(),
            final(self).src() == old(self).src(),
            exists|n: int| while_step(old(self)@, final(self)@, r@, predicate, n),
    {
        let mut consumed_chars: Vec<char> = Vec::new();
        loop
            invariant
                self.wf(),
                old(self).wf(),
                self.src() == old(self).src(),
                forall|c: char| #[trigger] call_requires(predicate, (&c,)),
                consumed_chars@.len() <= old(self)@.len(),
                consumed_chars@ == old(self)@.take(consumed_chars@.len() as int),
                self@ == old(self)@.skip(consumed_chars@.len() as int),
                forall|i: int|
                    0 <= i < consumed_chars@.len() ==> call_ensures(
                        predicate,
                        (&old(self)@[i],),
                        true,
                    ),
            ensures
                self@.len() > 0 ==> call_ensures(predicate, (&self@[0],), false),
            decreases self@.len(),
        {
            let c = match self.peek_char() {
                Some(c) => c,
                None => { break },
            };
            if predicate(&c) {
                let ghost k = consumed_chars@.len() as int;
                consumed_chars.push(c);
                let _ = self.next_char();
                proof {
                    assert(consumed_chars@ =~= old(self)@.take(k + 1));
                    assert(self@ =~= old(self)@.skip(k + 1));
                }
            } else {
                break
            }
        }
        let ghost n = consumed_chars@.len() as int;
        let r = chars_to_string(consumed_chars);
        proof {
            assert(while_step(old(self)@, self@, r@, predicate, n));
        }
        r
    }

    /// Consumes characters as long as `predicate` holds of them and returns
    /// the consumed run; the first character that fails the predicate (if
    /// the input did not end first) is consumed too, but not kept.
    pub fn consume_until<F: Fn(&char) -> bool>(&mut self, predicate: F) -> (r: String)
        requires
            old(self).wf(),
            forall|c: char| #[trigger] call_requires(predicate, (&c,)),
        ensures
            final(self).wf(),
            final(self).src() == old(self).src(),
            exists|n: int| until_step(old(self)@, final(self)@, r@, predicate, n),
    {
        let mut consumed_chars: Vec<char> = Vec::new();
        loop
            invariant_except_break
                self@ == old(self)@.skip(consumed_chars@.len() as int),
            invariant
                self.wf(),
                old(self).wf(),
                self.src() == old(self).src(),
                forall|c: char| #[trigger] call_requires(predicate, (&c,)),
                consumed_chars@.len() <= old(self)@.len(),
                consumed_chars@ == old(self)@.take(consumed_chars@.len() as int),
                forall|i: int|
                    0 <= i < consumed_chars@.len() ==> call_ensures(
                        predicate,
                        (&old(self)@[i],),
                        true,
                    ),
            ensures
                ({
                    let n = consumed_chars@.len() as int;
                    if n < old(self)@.len() {
                        call_ensures(predicate, (&old(self)@[n],), false) && self@ == old(
                            self,
                        )@.skip(n + 1)
                    } else {
                        self@ == old(self)@.skip(n)
                    }
                }),
            decreases self@.len(),
        {
            let c = match self.peek_char() {
                Some(c) => c,
                None => { break },
            };
            let ghost k = consumed_chars@.len() as int;
            let _ = self.next_char();
            if predicate(&c) {
                consumed_chars.push(c);
                proof {
                    assert(consumed_chars@ =~= old(self)@.take(k + 1));
                    assert(self@ =~= old(self)@.skip(k + 1));
                }
            } else {
                proof {
                    assert(self@ =~= old(self)@.skip(k + 1));
                }
                break
            }
        }
        let ghost n = consumed_chars@.len() as int;
        let r = chars_to_string(consumed_chars);
        proof {
            assert(until_step(old(self)@, self@, r@, predicate, n));
        }
        r
    }

    /// Consumes the maximal run of leading whitespace.
    pub fn consume_whitespace(&mut self)
        requires
            old(self).wf(),
        ensures
            final(self).wf(),
            final(self).src() == old(self).src(),
            final(self)@ == skip_spaces(old(self)@),
    {
        let pred = |c: &char| -> (b: bool)
            ensures
                b == is_space(*c),
            { c.is_whitespace() };
        let skipped = self.consume_while(pred);
        proof {
            let n = choose|n: int| while_step(old(self)@, self@, skipped@, pred, n);
            assert forall|i: int| 0 <= i < n implies is_space(old(self)@[i]) by {
                assert(call_ensures(pred, (&old(self)@[i],), true));
            }
            lemma_ws_count_is(old(self)@, n);
        }
    }

    /// Consumes and returns the text up to (and excluding) the next newline;
    /// the newline itself, if the input did not end first, is consumed too,
    /// but not kept.
    pub fn consume_line(&mut self) -> (r: String)
        requires
            old(self).wf(),
        ensures
            final(self).wf(),
            final(self).src() == old(self).src(),
            r@ == old(self)@.take(line_count(old(self)@)),
            line_count(old(self)@) < old(self)@.len() ==> final(self)@ == old(self)@.skip(
                line_count(old(self)@) + 1,
            ),
            line_count(old(self)@) == old(self)@.len() ==> final(self)@ == old(self)@.skip(
                line_count(old(self)@),
            ),
    {
        let pred = |c: &char| -> (b: bool)
            ensures
                b == (*c != '\n'),
            { *c != '\n' };
        let r = self.consume_until(pred);
        proof {
            let n = choose|n: int| until_step(old(self)@, self@, r@, pred, n);
            assert forall|i: int| 0 <= i < n implies old(self)@[i] != '\n' by {
                assert(call_ensures(pred, (&old(self)@[i],), true));
            }
            lemma_line_count_is(old(self)@, n);
        }
        r
    }

    /// Scans a `Word` token. Precondition: the character under the cursor is
    /// a word character.
    fn tokenize_word(&mut self) -> (t: Token)
        requires
            old(self).wf(),
            old(self)@.len() > 0,
            word_char(old(self)@[0]),
        ensures
            final(self).wf(),
            final(self).src() == old(self).src(),
            t@ == SpecToken::Word(old(self)@.take(word_count(old(self)@))),
            final(self)@ == old(self)@.skip(word_count(old(self)@)),
    {
        let pred = |c: &char| -> (b: bool)
            ensures
                b == word_char(*c),
            { is_word_char(c) };
        let word = self.consume_while(pred);
        proof {
            let n = choose|n: int| while_step(old(self)@, self@, word@, pred, n);
            assert forall|i: int| 0 <= i < n implies word_char(old(self)@[i]) by {
                assert(call_ensures(pred, (&old(self)@[i],), true));
            }
            lemma_word_count_is(old(self)@, n);
        }
        Token::Word(word)
    }

    /// Decides between `Unquote` and `UnquoteSplice`. Precondition: the
    /// tilde has just been consumed. A following `@` is consumed and the
    /// two-character `UnquoteSplice` is produced; any other following
    /// character is left untouched for the next production step.
    fn tokenize_after_tilde(&mut self) -> (t: Token)
        requires
            old(self).wf(),
        ensures
            final(self).wf(),
            final(self).src() == old(self).src(),
            old(self)@.len() > 0 && old(self)@[0] == '@' ==> t@ == SpecToken::UnquoteSplice
                && final(self)@ == old(self)@.skip(1),
            !(old(self)@.len() > 0 && old(self)@[0] == '@') ==> t@ == SpecToken::Unquote
                && final(self)@ == old(self)@,
    {
        match self.peek_char() {
            Some('@') => {
                let _ = self.next_char();
                Token::UnquoteSplice
            },
            _ => Token::Unquote,
        }
    }

    /// Scans the body of a string literal. Precondition: the opening quote
    /// has just been consumed. Tracks an escaping flag so that an escaped
    /// quote does not terminate the literal; if the input ends before an
    /// unescaped closing quote, everything consumed is discarded and
    /// `MissingStringQuote` is reported.
    fn tokenize_string(&mut self) -> (r: Result<Token, TokenizerError>)
        requires
            old(self).wf(),
        ensures
            final(self).wf(),
            final(self).src() == old(self).src(),
            match string_scan(old(self)@, false) {
                Some(p) => r matches Ok(t) && t@ == SpecToken::StringLiteral(p.0)
                    && final(self)@ == old(self)@.skip(p.1),
                None => r matches Err(e) && e == TokenizerError::MissingStringQuote
                    && final(self)@.len() == 0,
            },
    {
        let mut string_chars: Vec<char> = Vec::new();
        let mut escaping = false;
        loop
            invariant
                self.wf(),
                old(self).wf(),
                self.src() == old(self).src(),
                string_chars@.len() <= old(self)@.len(),
                string_chars@ == old(self)@.take(string_chars@.len() as int),
                self@ == old(self)@.skip(string_chars@.len() as int),
                match string_scan(self@, escaping) {
                    None => string_scan(old(self)@, false) is None,
                    Some(q) => string_scan(old(self)@, false) == Some(
                        (string_chars@ + q.0, string_chars@.len() + q.1),
                    ),
                },
            decreases self@.len(),
        {
            let c = match self.peek_char() {
                Some(c) => c,
                None => {
                    return Err(TokenizerError::MissingStringQuote);
                },
            };
            let ghost k = string_chars@.len() as int;
            let _ = self.next_char();
            if c == '"' && !escaping {
                proof {
                    assert(string_chars@ + Seq::<char>::empty() =~= string_chars@);
                }
                return Ok(Token::StringLiteral(chars_to_string(string_chars)));
            }
            string_chars.push(c);
            escaping = c == '\\';
            proof {
                assert(string_chars@ =~= old(self)@.take(k + 1));
                assert(self@ =~= old(self)@.skip(k + 1));
                match string_scan(self@, escaping) {
                    None => {},
                    Some(q) => {
                        assert(string_chars@ + q.0 =~= old(self)@.take(k) + (seq![c] + q.0));
                    },
                }
            }
        }
    }

    /// Scans one non-`Word` token. Precondition: the character under the
    /// cursor is reserved (or whitespace, which cannot happen after a
    /// whitespace skip and is then reported as unrecognized).
    fn tokenize_special(&mut self) -> (r: Result<Token, TokenizerError>)
        requires
            old(self).wf(),
            old(self)@.len() > 0,
            !word_char(old(self)@[0]),
        ensures
            final(self).wf(),
            final(self).src() == old(self).src(),
            matches_step(lex(old(self)@), r),
            final(self)@ == old(self)@.skip(consumed(lex(old(self)@))),
    {
        let c = self.next_char();
        match c {
            '(' => Ok(Token::OpenParen),
            ')' => Ok(Token::CloseParen),
            '[' => Ok(Token::OpenSquare),
            ']' => Ok(Token::CloseSquare),
            '{' => Ok(Token::OpenCurly),
            '}' => Ok(Token::CloseCurly),
            '\'' => Ok(Token::Quote),
            '@' => Ok(Token::Deref),
            '^' => Ok(Token::Metadata),
            '`' => Ok(Token::SyntaxQuote),
            '"' => {
                let r = self.tokenize_string();
                proof {
                    lemma_string_scan(old(self)@.skip(1), false);
                    match string_scan(old(self)@.skip(1), false) {
                        None => {
                            assert(self@ =~= old(self)@.skip(old(self)@.len() as int));
                        },
                        Some(p) => {
                            assert(old(self)@.skip(1).skip(p.1) =~= old(self)@.skip(1 + p.1));
                        },
                    }
                }
                r
            },
            '~' => {
                let t = self.tokenize_after_tilde();
                proof {
                    if old(self)@.len() >= 2 && old(self)@[1] == '@' {
                        assert(old(self)@.skip(1)[0] == old(self)@[1]);
                        assert(old(self)@.skip(1).skip(1) =~= old(self)@.skip(2));
                    } else if old(self)@.len() >= 2 {
                        assert(old(self)@.skip(1)[0] == old(self)@[1]);
                    }
                }
                Ok(t)
            },
            ';' => {
                let pred = |ch: &char| -> (b: bool)
                    ensures
                        b == (*ch != '\n'),
                    { *ch != '\n' };
                let ghost cur = self@;
                let text = self.consume_while(pred);
                proof {
                    let n = choose|n: int| while_step(cur, self@, text@, pred, n);
                    assert forall|i: int| 0 <= i < n implies cur[i] != '\n' by {
                        assert(call_ensures(pred, (&cur[i],), true));
                    }
                    lemma_line_count_is(cur, n);
                    assert(cur =~= old(self)@.skip(1));
                }
                Ok(Token::Comment(text))
            },
            _ => Err(TokenizerError::UnrecognizedChar(c)),
        }
    }

    /// Produces the next token: skips whitespace, then classifies and scans
    /// one lexeme. Returns `None` when the input is exhausted, the scanned
    /// token, or a lexical error.
    pub fn next(&mut self) -> (r: Option<Result<Token, TokenizerError>>)
        requires
            old(self).wf(),
        ensures
            final(self).wf(),
            final(self).src() == old(self).src(),
            matches_next(lex(skip_spaces(old(self)@)), r),
            final(self)@ == skip_spaces(old(self)@).skip(consumed(lex(skip_spaces(old(self)@)))),
    {
        self.consume_whitespace();
        let ghost rem = self@;
        match self.peek_char() {
            None => {
                proof {
                    assert(rem.skip(0) =~= rem);
                }
                None
            },
            Some(c) => {
                if is_word_char(&c) {
                    Some(Ok(self.tokenize_word()))
                } else {
                    Some(self.tokenize_special())
                }
            },
        }
    }

    /// Returns what the next call to `next` would produce, without
    /// consuming anything.
    pub fn peek(&mut self) -> (r: Option<Result<Token, TokenizerError>>)
        requires
            old(self).wf(),
        ensures
            final(self).wf(),
            final(self).src() == old(self).src(),
            final(self)@ == old(self)@,
            matches_next(lex(skip_spaces(old(self)@)), r),
    {
        let saved: usize = self.pos;
        let r = self.next();
        self.pos = saved;
        r
    }

    /// Consumes and returns all remaining characters.
    pub fn rest(&mut self) -> (r: String)
        requires
            old(self).wf(),
        ensures
            final(self).wf(),
            final(self).src() == old(self).src(),
            r@ == old(self)@,
            final(self)@.len() == 0,
    {
        let pred = |c: &char| -> (b: bool)
            ensures
                b,
            { true };
        let r = self.consume_while(pred);
        proof {
            let n = choose|n: int| while_step(old(self)@, self@, r@, pred, n);
            if n < old(self)@.len() {
                assert(call_ensures(pred, (&old(self)@[n],), false));
            }
            assert(r@ =~= old(self)@);
        }
        r
    }
}

} // verus!
