use vstd::prelude::*;

verus! {

use vstd::string::StrSliceExecFns;
use crate::tok::{Tok, TokView, kind_of};

/// The Greek lowercase lambda glyph, the alternative spelling of `\`.
pub const LAMBDA_CHAR: char = '\u{03BB}';

/// What `char::is_whitespace` returns: the Unicode White_Space property, a
/// function of the character alone.
pub uninterp spec fn whitespace_char(c: char) -> bool;

/// What `char::is_alphabetic` returns: the Unicode Alphabetic property, a
/// function of the character alone.
pub uninterp spec fn alphabetic_char(c: char) -> bool;

/// What `char::is_alphanumeric` returns: Alphabetic or Number, a function of
/// the character alone.
pub uninterp spec fn alphanumeric_char(c: char) -> bool;

/// Relies on char::is_whitespace: whether `c` has the Unicode White_Space
/// property.
#[verifier::external_body]
fn is_whitespace_char(c: char) -> (r: bool)
    ensures
        r == whitespace_char(c),
{
    c.is_whitespace()
}

/// Relies on char::is_alphabetic: whether `c` has the Unicode Alphabetic
/// property.
#[verifier::external_body]
fn is_alphabetic_char(c: char) -> (r: bool)
    ensures
        r == alphabetic_char(c),
{
    c.is_alphabetic()
}

/// Relies on char::is_alphanumeric: whether `c` is alphabetic or a number.
#[verifier::external_body]
fn is_alphanumeric_char(c: char) -> (r: bool)
    ensures
        r == alphanumeric_char(c),
{
    c.is_alphanumeric()
}

/// A character that may open an identifier.
pub open spec fn id_start_char(c: char) -> bool {
    alphabetic_char(c) && c != LAMBDA_CHAR
}

/// A character that may continue an identifier.
pub open spec fn id_cont_char(c: char) -> bool {
    alphanumeric_char(c) && c != LAMBDA_CHAR
}

/// Either spelling of the abstraction marker.
pub open spec fn lambda_mark(c: char) -> bool {
    c == '\\' || c == LAMBDA_CHAR
}

/// The length of the longest prefix made of identifier-continuation
/// characters.
pub open spec fn id_cont_len(cs: Seq<char>) -> nat
    decreases cs.len(),
{
    if cs.len() == 0 || !id_cont_char(cs[0]) {
        0
    } else {
        (1 + id_cont_len(cs.skip(1))) as nat
    }
}

/// The length of the identifier at the head of `cs`; zero when none starts
/// here.
pub open spec fn id_len(cs: Seq<char>) -> nat {
    if cs.len() > 0 && id_start_char(cs[0]) {
        (1 + id_cont_len(cs.skip(1))) as nat
    } else {
        0
    }
}

proof fn lemma_id_cont_len_le(cs: Seq<char>)
    ensures
        id_cont_len(cs) <= cs.len(),
    decreases cs.len(),
{
    if cs.len() > 0 && id_cont_char(cs[0]) {
        lemma_id_cont_len_le(cs.skip(1));
    }
}

proof fn lemma_id_len_le(cs: Seq<char>)
    ensures
        id_len(cs) <= cs.len(),
{
    if cs.len() > 0 && id_start_char(cs[0]) {
        lemma_id_cont_len_le(cs.skip(1));
    }
}

/// Characterwise reading of `id_cont_len`: it is exactly `k` when the first
/// `k` characters continue an identifier and the character after them, if
/// any, does not.
proof fn lemma_id_cont_len_is(cs: Seq<char>, k: nat)
    requires
        k <= cs.len(),
        forall|i: int| 0 <= i < k ==> id_cont_char(cs[i]),
        k < cs.len() ==> !id_cont_char(cs[k as int]),
    ensures
        id_cont_len(cs) == k,
    decreases cs.len(),
{
    if k == 0 {
    } else {
        assert(id_cont_char(cs[0]));
        assert forall|i: int| 0 <= i < k - 1 implies id_cont_char(cs.skip(1)[i]) by {
            assert(cs.skip(1)[i] == cs[i + 1]);
        }
        if k < cs.len() {
            assert(cs.skip(1)[k - 1] == cs[k as int]);
        }
        lemma_id_cont_len_is(cs.skip(1), (k - 1) as nat);
    }
}

/// The token sequence of a character sequence. Whitespace separates tokens
/// and is never emitted; either abstraction marker, `.`, `(` and `)` are
/// single-character tokens; an identifier is the longest run the identifier
/// rules allow; a character that fits no rule is consumed alone and yields
/// an identifier token with empty text.
pub open spec fn lex(cs: Seq<char>) -> Seq<TokView>
    decreases cs.len(),
    via lex_decreases
{
    if cs.len() == 0 {
        Seq::empty()
    } else if whitespace_char(cs[0]) {
        lex(cs.skip(1))
    } else if lambda_mark(cs[0]) {
        seq![TokView::Lam] + lex(cs.skip(1))
    } else if cs[0] == '.' {
        seq![TokView::Dot] + lex(cs.skip(1))
    } else if cs[0] == '(' {
        seq![TokView::LPar] + lex(cs.skip(1))
    } else if cs[0] == ')' {
        seq![TokView::RPar] + lex(cs.skip(1))
    } else {
        let n = if id_len(cs) == 0 { 1int } else { id_len(cs) as int };
        seq![TokView::Id(cs.take(id_len(cs) as int))] + lex(cs.skip(n))
    }
}

#[via_fn]
proof fn lex_decreases(cs: Seq<char>) {
    lemma_id_len_le(cs);
}

/// A lexer over an input text: a cursor over the input's characters that
/// always rests either at the end or on a non-whitespace character.
pub struct Lexer<'a> {
    pub input: &'a str,
    pub pos: usize,
    pub len: usize,
}

impl<'a> Lexer<'a> {
    /// The characters of the whole input.
    pub open spec fn text(self) -> Seq<char> {
        self.input@
    }

    /// How many characters have been consumed.
    pub open spec fn at(self) -> int {
        self.pos as int
    }

    /// The characters not yet consumed.
    pub open spec fn remaining(self) -> Seq<char> {
        self.input@.skip(self.pos as int)
    }

    /// The tokens not yet produced.
    pub open spec fn toks(self) -> Seq<TokView> {
        lex(self.remaining())
    }

    pub open spec fn wf(self) -> bool {
        &&& self.len as nat == self.input@.len()
        &&& self.pos <= self.len
        &&& (self.pos == self.len || !whitespace_char(self.input@[self.pos as int]))
    }

    /// A lexer at the start of `input`, with leading whitespace consumed.
    pub fn new(input: &'a str) -> (l: Lexer<'a>)
        ensures
            l.wf(),
            l.text() == input@,
            l.toks() == lex(input@),
    {
        let len = input.unicode_len();
        let mut l = Lexer { input, pos: 0, len };
        proof {
            assert(l.remaining() =~= input@);
        }
        l.skip_whitespace();
        l
    }

    fn peek_char(&self) -> (r: Option<char>)
        requires
            self.len as nat == self.input@.len(),
            self.pos <= self.len,
        ensures
            match r {
                None => self.remaining().len() == 0,
                Some(c) => self.remaining().len() > 0 && c == self.remaining()[0],
            },
    {
        if self.pos == self.len {
            None
        } else {
            Some(self.input.get_char(self.pos))
        }
    }

    fn skip_whitespace(&mut self)
        requires
            old(self).len as nat == old(self).input@.len(),
            old(self).pos <= old(self).len,
        ensures
            final(self).wf(),
            final(self).input == old(self).input,
            final(self).len == old(self).len,
            final(self).pos >= old(self).pos,
            lex(final(self).remaining()) == lex(old(self).remaining()),
    {
        loop
            invariant
                self.input == old(self).input,
                self.len == old(self).len,
                self.len as nat == self.input@.len(),
                old(self).pos <= self.pos <= self.len,
                lex(self.remaining()) == lex(old(self).remaining()),
            ensures
                self.input == old(self).input,
                self.len == old(self).len,
                old(self).pos <= self.pos <= self.len,
                lex(self.remaining()) == lex(old(self).remaining()),
                self.pos == self.len || !whitespace_char(self.input@[self.pos as int]),
            decreases self.len - self.pos,
        {
            if self.pos == self.len {
                break;
            }
            let c = self.input.get_char(self.pos);
            if !is_whitespace_char(c) {
                break;
            }
            proof {
                assert(self.remaining()[0] == c);
                assert(self.remaining().skip(1) =~= self.input@.skip(self.pos as int + 1));
            }
            self.pos = self.pos + 1;
        }
    }

    /// Whether the character at position `idx` of an identifier may extend
    /// it: the first character must be alphabetic, later ones alphanumeric,
    /// and the lambda glyph is never part of an identifier.
    fn is_id_char(c: char, idx: usize) -> (r: bool)
        ensures
            r == if idx == 0 {
                id_start_char(c)
            } else {
                id_cont_char(c)
            },
    {
        if idx == 0 {
            is_alphabetic_char(c) && c != LAMBDA_CHAR
        } else {
            is_alphanumeric_char(c) && c != LAMBDA_CHAR
        }
    }

    /// Scan the identifier at the cursor, maximally; an empty text when no
    /// identifier starts here.
    fn id(&mut self) -> (s: String)
        requires
            old(self).len as nat == old(self).input@.len(),
            old(self).pos <= old(self).len,
        ensures
            final(self).input == old(self).input,
            final(self).len == old(self).len,
            s@ == old(self).remaining().take(id_len(old(self).remaining()) as int),
            final(self).pos == old(self).pos + id_len(old(self).remaining()),
    {
        let start = self.pos;
        loop
            invariant
                self.input == old(self).input,
                self.len == old(self).len,
                self.len as nat == self.input@.len(),
                start == old(self).pos,
                start <= self.pos <= self.len,
                self.pos > start ==> id_start_char(self.input@[start as int]),
                forall|i: int| start < i < self.pos ==> id_cont_char(self.input@[i]),
            ensures
                self.input == old(self).input,
                self.len == old(self).len,
                start <= self.pos <= self.len,
                self.pos > start ==> id_start_char(self.input@[start as int]),
                forall|i: int| start < i < self.pos ==> id_cont_char(self.input@[i]),
                self.pos < self.len ==> if self.pos == start {
                    !id_start_char(self.input@[self.pos as int])
                } else {
                    !id_cont_char(self.input@[self.pos as int])
                },
            decreases self.len - self.pos,
        {
            if self.pos == self.len {
                break;
            }
            let c = self.input.get_char(self.pos);
            if !Self::is_id_char(c, self.pos - start) {
                break;
            }
            self.pos = self.pos + 1;
        }
        proof {
            let rem = old(self).remaining();
            let k = self.pos - start;
            if self.pos == start {
                assert(rem.len() > 0 ==> rem[0] == self.input@[start as int]);
                assert(id_len(rem) == 0);
            } else {
                assert(rem[0] == self.input@[start as int]);
                assert forall|i: int| 0 <= i < k - 1 implies id_cont_char(rem.skip(1)[i]) by {
                    assert(rem.skip(1)[i] == self.input@[start + 1 + i]);
                }
                assert(rem.skip(1).len() == self.input@.len() - start - 1);
                if (k as int) < rem.skip(1).len() + 1 {
                    assert(rem.skip(1)[k - 1] == self.input@[start + k]);
                }
                lemma_id_cont_len_is(rem.skip(1), (k - 1) as nat);
                assert(id_len(rem) == k);
            }
        }
        let text = self.input.substring_char(start, self.pos).to_owned();
        proof {
            assert(self.input@.subrange(start as int, self.pos as int)
                =~= old(self).remaining().take(id_len(old(self).remaining()) as int));
        }
        text
    }

    /// Consume one character and hand back the token already decided for it.
    fn eat(&mut self, tok: Tok<String>) -> (r: Tok<String>)
        requires
            old(self).len as nat == old(self).input@.len(),
            old(self).pos < old(self).len,
        ensures
            r == tok,
            final(self).input == old(self).input,
            final(self).len == old(self).len,
            final(self).pos == old(self).pos + 1,
    {
        self.pos = self.pos + 1;
        tok
    }

    /// The kind of the next token, without consuming it and without
    /// materializing an identifier's text; `None` at the end of the input.
    pub fn peek(&self) -> (r: Option<Tok<()>>)
        requires
            self.wf(),
        ensures
            match r {
                None => self.remaining().len() == 0 && self.toks().len() == 0,
                Some(k) => self.toks().len() > 0 && k == kind_of(self.toks()[0]),
            },
    {
        match self.peek_char() {
            None => None,
            Some(c) => {
                proof {
                    assert(self.remaining()[0] == c);
                    assert(!whitespace_char(c));
                }
                if c == '\\' || c == LAMBDA_CHAR {
                    Some(Tok::Lam)
                } else if c == '.' {
                    Some(Tok::Dot)
                } else if c == '(' {
                    Some(Tok::LPar)
                } else if c == ')' {
                    Some(Tok::RPar)
                } else {
                    Some(Tok::Id(()))
                }
            }
        }
    }

    /// Consume and return the next token, with its payload; `None` at the
    /// end of the input.
    pub fn advance(&mut self) -> (r: Option<Tok<String>>)
        requires
            old(self).wf(),
        ensures
            final(self).wf(),
            final(self).text() == old(self).text(),
            final(self).at() >= old(self).at(),
            match r {
                None => old(self).remaining().len() == 0 && final(self).at() == old(self).at(),
                Some(t) => old(self).toks() == seq![t@] + final(self).toks()
                    && final(self).at() > old(self).at(),
            },
    {
        let c = match self.peek_char() {
            None => {
                return None;
            }
            Some(c) => c,
        };
        let ghost rem0 = self.remaining();
        proof {
            assert(rem0[0] == c);
            assert(!whitespace_char(c));
        }
        let result: Tok<String>;
        if c == '\\' || c == LAMBDA_CHAR {
            result = self.eat(Tok::Lam);
        } else if c == '.' {
            result = self.eat(Tok::Dot);
        } else if c == '(' {
            result = self.eat(Tok::LPar);
        } else if c == ')' {
            result = self.eat(Tok::RPar);
        } else {
            let start = self.pos;
            let text = self.id();
            if self.pos == start {
                // a character no rule accepts is consumed alone, yielding an
                // identifier token with empty text
                self.pos = self.pos + 1;
                proof {
                    assert(text@ =~= rem0.take(id_len(rem0) as int));
                }
            }
            result = Tok::Id(text);
        }
        proof {
            let n: int = if id_len(rem0) == 0 { 1int } else { id_len(rem0) as int };
            if !(lambda_mark(c) || c == '.' || c == '(' || c == ')') {
                lemma_id_len_le(rem0);
                assert(self.remaining() =~= rem0.skip(n));
            } else {
                assert(self.remaining() =~= rem0.skip(1));
            }
            assert(lex(rem0) == seq![result@] + lex(self.remaining()));
        }
        self.skip_whitespace();
        Some(result)
    }
}

} // verus!
