use vstd::prelude::*;

verus! {

use std::rc::Rc;
use crate::cst::{Cst, CstView};
use crate::rc_dup;
use crate::lexer::{Lexer, lex};
use crate::tok::{Tok, TokView, kind_of};

/// A parse error: a production needed a token and none remained, or the
/// token present fits no production at that point (a trailing token after a
/// complete parse included).
#[derive(Debug, PartialEq, Eq)]
pub enum ParseErr {
    UnexpectedEof,
    UnexpectedTok(Tok<String>),
}

/// The mathematical form of a parse error.
pub enum ParseErrView {
    UnexpectedEof,
    UnexpectedTok(TokView),
}

impl View for ParseErr {
    type V = ParseErrView;

    open spec fn view(&self) -> ParseErrView {
        match self {
            ParseErr::UnexpectedEof => ParseErrView::UnexpectedEof,
            ParseErr::UnexpectedTok(t) => ParseErrView::UnexpectedTok(t@),
        }
    }
}

/// Left-associative rebalancing: combine `left` with the leftmost atom of
/// `right` first, so that `a b c` means `(a b) c`, never `a (b c)`.
pub open spec fn balance(left: CstView, right: CstView) -> CstView
    decreases right,
{
    match right {
        CstView::App(m, last) => CstView::App(Box::new(balance(left, *m)), last),
        _ => CstView::App(Box::new(left), Box::new(right)),
    }
}

/// The binder list of an abstraction: one or more identifiers, consumed
/// greedily up to the first token that is not an identifier.
pub open spec fn p_ids(ts: Seq<TokView>) -> Result<(Seq<Seq<char>>, Seq<TokView>), ParseErrView>
    decreases ts.len(),
{
    if ts.len() == 0 {
        Err(ParseErrView::UnexpectedEof)
    } else {
        match ts[0] {
            TokView::Id(name) => {
                let rest = ts.skip(1);
                if rest.len() > 0 && rest[0] is Id {
                    match p_ids(rest) {
                        Ok(pair) => Ok((seq![name] + pair.0, pair.1)),
                        Err(e) => Err(e),
                    }
                } else {
                    Ok((seq![name], rest))
                }
            }
            t => Err(ParseErrView::UnexpectedTok(t)),
        }
    }
}

/// One operand of an application: an abstraction, a variable, or a
/// parenthesized expression.
pub open spec fn p_left(ts: Seq<TokView>) -> Result<(CstView, Seq<TokView>), ParseErrView>
    decreases ts.len(), 1int,
{
    if ts.len() == 0 {
        Err(ParseErrView::UnexpectedEof)
    } else {
        match ts[0] {
            TokView::Lam => p_abs(ts),
            TokView::Dot => Err(ParseErrView::UnexpectedTok(TokView::Dot)),
            TokView::LPar => p_par(ts),
            TokView::RPar => Err(ParseErrView::UnexpectedTok(TokView::RPar)),
            TokView::Id(n) => Ok((CstView::Var(n), ts.skip(1))),
        }
    }
}

/// An abstraction: a lambda marker, one or more binder names, a dot, and a
/// body that extends as far as an application may.
pub open spec fn p_abs(ts: Seq<TokView>) -> Result<(CstView, Seq<TokView>), ParseErrView>
    decreases ts.len(), 0int,
{
    if ts.len() == 0 {
        Err(ParseErrView::UnexpectedEof)
    } else if !(ts[0] is Lam) {
        Err(ParseErrView::UnexpectedTok(ts[0]))
    } else {
        match p_ids(ts.skip(1)) {
            Err(e) => Err(e),
            Ok(ids_pair) => {
                let names = ids_pair.0;
                let rest = ids_pair.1;
                if rest.len() == 0 {
                    Err(ParseErrView::UnexpectedEof)
                } else if !(rest[0] is Dot) {
                    Err(ParseErrView::UnexpectedTok(rest[0]))
                } else if rest.len() < ts.len() {
                    match p_app(rest.skip(1)) {
                        Err(e) => Err(e),
                        Ok(pair) => Ok((CstView::Abs(names, Box::new(pair.0)), pair.1)),
                    }
                } else {
                    // never reached: the binder list consumed tokens
                    Err(ParseErrView::UnexpectedEof)
                }
            }
        }
    }
}

/// A parenthesized expression: an application between `(` and `)`, kept as
/// an explicit grouping node.
pub open spec fn p_par(ts: Seq<TokView>) -> Result<(CstView, Seq<TokView>), ParseErrView>
    decreases ts.len(), 0int,
{
    if ts.len() == 0 {
        Err(ParseErrView::UnexpectedEof)
    } else if !(ts[0] is LPar) {
        Err(ParseErrView::UnexpectedTok(ts[0]))
    } else {
        match p_app(ts.skip(1)) {
            Err(e) => Err(e),
            Ok(pair) => {
                let inner = pair.0;
                let rest = pair.1;
                if rest.len() == 0 {
                    Err(ParseErrView::UnexpectedEof)
                } else if rest[0] is RPar {
                    Ok((CstView::Par(Box::new(inner)), rest.skip(1)))
                } else {
                    Err(ParseErrView::UnexpectedTok(rest[0]))
                }
            }
        }
    }
}

/// An application: one operand, or an operand followed by the rest of the
/// application, rebalanced to the left. A closing parenthesis or the end of
/// the input ends the application.
pub open spec fn p_app(ts: Seq<TokView>) -> Result<(CstView, Seq<TokView>), ParseErrView>
    decreases ts.len(), 2int,
{
    match p_left(ts) {
        Err(e) => Err(e),
        Ok(pair) => {
            let left = pair.0;
            let rest = pair.1;
            if rest.len() == 0 || rest[0] is RPar {
                Ok((left, rest))
            } else if rest.len() < ts.len() {
                match p_app(rest) {
                    Err(e) => Err(e),
                    Ok(pair2) => Ok((balance(left, pair2.0), pair2.1)),
                }
            } else {
                // never reached: an operand consumes tokens
                Err(ParseErrView::UnexpectedEof)
            }
        }
    }
}

/// A whole input: one application and then the end of the tokens; anything
/// left over is an unexpected token.
pub open spec fn parse_toks(ts: Seq<TokView>) -> Result<CstView, ParseErrView> {
    match p_app(ts) {
        Err(e) => Err(e),
        Ok(pair) => {
            if pair.1.len() == 0 {
                Ok(pair.0)
            } else {
                Err(ParseErrView::UnexpectedTok(pair.1[0]))
            }
        }
    }
}

proof fn lemma_p_ids_consumes(ts: Seq<TokView>)
    ensures
        p_ids(ts) matches Ok(pair) ==> pair.1.len() < ts.len(),
    decreases ts.len(),
{
    if ts.len() > 0 && ts[0] is Id {
        let rest = ts.skip(1);
        if rest.len() > 0 && rest[0] is Id {
            lemma_p_ids_consumes(rest);
        }
    }
}

proof fn lemma_p_left_consumes(ts: Seq<TokView>)
    ensures
        p_left(ts) matches Ok(pair) ==> pair.1.len() < ts.len(),
    decreases ts.len(), 1int,
{
    if ts.len() > 0 {
        if ts[0] is Lam {
            lemma_p_abs_consumes(ts);
        }
        if ts[0] is LPar {
            lemma_p_par_consumes(ts);
        }
    }
}

proof fn lemma_p_abs_consumes(ts: Seq<TokView>)
    ensures
        p_abs(ts) matches Ok(pair) ==> pair.1.len() < ts.len(),
    decreases ts.len(), 0int,
{
    if ts.len() > 0 && ts[0] is Lam {
        lemma_p_ids_consumes(ts.skip(1));
        match p_ids(ts.skip(1)) {
            Ok(ids_pair) => {
                let rest = ids_pair.1;
                if rest.len() > 0 && rest[0] is Dot && rest.len() < ts.len() {
                    lemma_p_app_consumes(rest.skip(1));
                }
            }
            Err(_) => {}
        }
    }
}

proof fn lemma_p_par_consumes(ts: Seq<TokView>)
    ensures
        p_par(ts) matches Ok(pair) ==> pair.1.len() < ts.len(),
    decreases ts.len(), 0int,
{
    if ts.len() > 0 && ts[0] is LPar {
        lemma_p_app_consumes(ts.skip(1));
    }
}

proof fn lemma_p_app_consumes(ts: Seq<TokView>)
    ensures
        p_app(ts) matches Ok(pair) ==> pair.1.len() < ts.len(),
    decreases ts.len(), 2int,
{
    lemma_p_left_consumes(ts);
    match p_left(ts) {
        Ok(pair) => {
            let rest = pair.1;
            if rest.len() > 0 && !(rest[0] is RPar) && rest.len() < ts.len() {
                lemma_p_app_consumes(rest);
            }
        }
        Err(_) => {}
    }
}

/// A recursive-descent parser with one token of lookahead.
pub struct Parser<'a> {
    pub lexer: Lexer<'a>,
}

impl<'a> Parser<'a> {
    pub open spec fn wf(self) -> bool {
        self.lexer.wf()
    }

    /// The tokens not yet consumed.
    pub open spec fn toks(self) -> Seq<TokView> {
        self.lexer.toks()
    }

    /// The number of characters not yet consumed: the termination measure
    /// of the mutually recursive productions, since every token costs at
    /// least one character.
    pub open spec fn chars_left(self) -> int {
        self.lexer.text().len() - self.lexer.at()
    }

    pub fn new(lexer: Lexer<'a>) -> (p: Parser<'a>)
        ensures
            p.lexer == lexer,
    {
        Parser { lexer }
    }

    fn peek(&self) -> (r: Option<Tok<()>>)
        requires
            self.wf(),
        ensures
            match r {
                None => self.toks().len() == 0,
                Some(k) => self.toks().len() > 0 && k == kind_of(self.toks()[0]),
            },
    {
        self.lexer.peek()
    }

    fn peek_eof(&self) -> (r: Result<Tok<()>, ParseErr>)
        requires
            self.wf(),
        ensures
            match r {
                Ok(k) => self.toks().len() > 0 && k == kind_of(self.toks()[0]),
                Err(e) => self.toks().len() == 0 && e@ == ParseErrView::UnexpectedEof,
            },
    {
        match self.lexer.peek() {
            Some(k) => Ok(k),
            None => Err(ParseErr::UnexpectedEof),
        }
    }

    fn next(&mut self) -> (r: Option<Tok<String>>)
        requires
            old(self).wf(),
        ensures
            final(self).wf(),
            final(self).lexer.text() == old(self).lexer.text(),
            final(self).lexer.at() >= old(self).lexer.at(),
            match r {
                None => old(self).toks().len() == 0
                    && final(self).lexer.at() == old(self).lexer.at(),
                Some(t) => old(self).toks().len() > 0 && old(self).toks()[0] == t@
                    && final(self).toks() == old(self).toks().skip(1)
                    && final(self).lexer.at() > old(self).lexer.at(),
            },
    {
        let r = self.lexer.advance();
        proof {
            if r is Some {
                let t = r->0;
                assert((seq![t@] + self.toks())[0] == t@);
                assert((seq![t@] + self.toks()).skip(1) =~= self.toks());
            }
        }
        r
    }

    fn next_eof(&mut self) -> (r: Result<Tok<String>, ParseErr>)
        requires
            old(self).wf(),
        ensures
            final(self).wf(),
            final(self).lexer.text() == old(self).lexer.text(),
            final(self).lexer.at() >= old(self).lexer.at(),
            match r {
                Ok(t) => old(self).toks().len() > 0 && old(self).toks()[0] == t@
                    && final(self).toks() == old(self).toks().skip(1)
                    && final(self).lexer.at() > old(self).lexer.at(),
                Err(e) => old(self).toks().len() == 0 && e@ == ParseErrView::UnexpectedEof,
            },
    {
        match self.next() {
            Some(t) => Ok(t),
            None => Err(ParseErr::UnexpectedEof),
        }
    }

    /// Rebalance `right` under `left` so that application associates to the
    /// left.
    fn balance_app(left: Rc<Cst>, right: Rc<Cst>) -> (r: Rc<Cst>)
        ensures
            r@ == balance(left@, right@),
        decreases *right,
    {
        match &*right {
            Cst::App(middle, last) => {
                let m = rc_dup(middle);
                let l = rc_dup(last);
                Cst::app(Self::balance_app(left, m), l)
            }
            Cst::Var(_) => Cst::app(left, right),
            Cst::Abs(_, _) => Cst::app(left, right),
            Cst::Par(_) => Cst::app(left, right),
        }
    }

    /// Consume one token, which must have the expected kind (a punctuation
    /// kind; an identifier is consumed by `eat_id`).
    fn eat(&mut self, expected: Tok<()>) -> (r: Result<(), ParseErr>)
        requires
            old(self).wf(),
            !(expected is Id),
        ensures
            final(self).wf(),
            final(self).lexer.text() == old(self).lexer.text(),
            final(self).lexer.at() >= old(self).lexer.at(),
            match r {
                Ok(()) => old(self).toks().len() > 0
                    && kind_of(old(self).toks()[0]) == expected
                    && final(self).toks() == old(self).toks().skip(1)
                    && final(self).lexer.at() > old(self).lexer.at(),
                Err(e) => (old(self).toks().len() == 0 && e@ == ParseErrView::UnexpectedEof)
                    || (old(self).toks().len() > 0
                        && kind_of(old(self).toks()[0]) != expected
                        && e@ == ParseErrView::UnexpectedTok(old(self).toks()[0])),
            },
    {
        let t = match self.next_eof() {
            Ok(t) => t,
            Err(e) => {
                return Err(e);
            }
        };
        let same = match (&expected, &t) {
            (Tok::Lam, Tok::Lam) => {
                proof {
                    assert(kind_of(t@) == expected);
                }
                true
            }
            (Tok::Dot, Tok::Dot) => {
                proof {
                    assert(kind_of(t@) == expected);
                }
                true
            }
            (Tok::LPar, Tok::LPar) => {
                proof {
                    assert(kind_of(t@) == expected);
                }
                true
            }
            (Tok::RPar, Tok::RPar) => {
                proof {
                    assert(kind_of(t@) == expected);
                }
                true
            }
            _ => {
                proof {
                    assert(kind_of(t@) != expected);
                }
                false
            }
        };
        if same {
            Ok(())
        } else {
            Err(ParseErr::UnexpectedTok(t))
        }
    }

    /// Consume one token, which must be an identifier; its text is returned.
    fn eat_id(&mut self) -> (r: Result<String, ParseErr>)
        requires
            old(self).wf(),
        ensures
            final(self).wf(),
            final(self).lexer.text() == old(self).lexer.text(),
            final(self).lexer.at() >= old(self).lexer.at(),
            match r {
                Ok(id) => old(self).toks().len() > 0
                    && old(self).toks()[0] == TokView::Id(id@)
                    && final(self).toks() == old(self).toks().skip(1)
                    && final(self).lexer.at() > old(self).lexer.at(),
                Err(e) => (old(self).toks().len() == 0 && e@ == ParseErrView::UnexpectedEof)
                    || (old(self).toks().len() > 0
                        && !(old(self).toks()[0] is Id)
                        && e@ == ParseErrView::UnexpectedTok(old(self).toks()[0])),
            },
    {
        let t = match self.next_eof() {
            Ok(t) => t,
            Err(e) => {
                return Err(e);
            }
        };
        match t {
            Tok::Id(s) => Ok(s),
            other => Err(ParseErr::UnexpectedTok(other)),
        }
    }

    /// The binder list of an abstraction: one or more identifiers.
    fn eat_ids(&mut self) -> (r: Result<Vec<String>, ParseErr>)
        requires
            old(self).wf(),
        ensures
            final(self).wf(),
            final(self).lexer.text() == old(self).lexer.text(),
            final(self).lexer.at() >= old(self).lexer.at(),
            match r {
                Ok(ids) => p_ids(old(self).toks()) matches Ok(pair) && pair.0 == ids.deep_view()
                    && pair.1 == final(self).toks()
                    && final(self).lexer.at() > old(self).lexer.at(),
                Err(e) => p_ids(old(self).toks()) matches Err(ev) && ev == e@,
            },
    {
        let ghost ts0 = self.toks();
        let first = match self.eat_id() {
            Ok(s) => s,
            Err(e) => {
                return Err(e);
            }
        };
        let mut ids: Vec<String> = Vec::new();
        ids.push(first);
        proof {
            assert(ids.deep_view() =~= seq![ts0[0]->Id_0]);
        }
        loop
            invariant
                self.wf(),
                self.lexer.text() == old(self).lexer.text(),
                self.lexer.at() > old(self).lexer.at(),
                ids@.len() >= 1,
                (self.toks().len() > 0 && self.toks()[0] is Id) ==> match p_ids(self.toks()) {
                    Ok(pair) => p_ids(ts0) == Ok::<(Seq<Seq<char>>, Seq<TokView>), ParseErrView>(
                        (ids.deep_view() + pair.0, pair.1),
                    ),
                    Err(e) => p_ids(ts0) == Err::<(Seq<Seq<char>>, Seq<TokView>), ParseErrView>(e),
                },
                (self.toks().len() == 0 || !(self.toks()[0] is Id)) ==> p_ids(ts0) == Ok::<
                    (Seq<Seq<char>>, Seq<TokView>),
                    ParseErrView,
                >((ids.deep_view(), self.toks())),
            ensures
                self.wf(),
                self.lexer.text() == old(self).lexer.text(),
                self.lexer.at() > old(self).lexer.at(),
                p_ids(ts0) == Ok::<(Seq<Seq<char>>, Seq<TokView>), ParseErrView>(
                    (ids.deep_view(), self.toks()),
                ),
            decreases self.chars_left(),
        {
            match self.peek() {
                Some(Tok::Id(_)) => {}
                _ => {
                    break;
                }
            }
            let ghost prev = self.toks();
            let ghost prev_ids = ids.deep_view();
            let s = match self.eat_id() {
                Ok(s) => s,
                Err(_e) => {
                    proof {
                        assert(false);
                    }
                    return Err(ParseErr::UnexpectedEof);
                }
            };
            ids.push(s);
            proof {
                assert(ids.deep_view() =~= prev_ids.push(s@));
                assert(prev[0] == TokView::Id(s@));
                let rest = prev.skip(1);
                assert(rest == self.toks());
                if rest.len() > 0 && rest[0] is Id {
                    match p_ids(rest) {
                        Ok(pair) => {
                            assert(p_ids(prev) == Ok::<(Seq<Seq<char>>, Seq<TokView>), ParseErrView>(
                                (seq![s@] + pair.0, pair.1),
                            ));
                            assert(prev_ids + (seq![s@] + pair.0) =~= ids.deep_view() + pair.0);
                        }
                        Err(_) => {}
                    }
                } else {
                    assert(p_ids(prev) == Ok::<(Seq<Seq<char>>, Seq<TokView>), ParseErrView>(
                        (seq![s@], rest),
                    ));
                    assert(prev_ids + seq![s@] =~= ids.deep_view());
                }
            }
        }
        Ok(ids)
    }

    /// A parenthesized expression.
    fn par(&mut self) -> (r: Result<Rc<Cst>, ParseErr>)
        requires
            old(self).wf(),
        ensures
            final(self).wf(),
            final(self).lexer.text() == old(self).lexer.text(),
            final(self).lexer.at() >= old(self).lexer.at(),
            match r {
                Ok(c) => p_par(old(self).toks()) matches Ok(pair) && pair.0 == c@
                    && pair.1 == final(self).toks()
                    && final(self).lexer.at() > old(self).lexer.at(),
                Err(e) => p_par(old(self).toks()) matches Err(ev) && ev == e@,
            },
        decreases self.chars_left(), 0int,
    {
        match self.eat(Tok::LPar) {
            Ok(()) => {}
            Err(e) => {
                return Err(e);
            }
        }
        let inside = match self.app() {
            Ok(c) => c,
            Err(e) => {
                return Err(e);
            }
        };
        match self.eat(Tok::RPar) {
            Ok(()) => {}
            Err(e) => {
                return Err(e);
            }
        }
        Ok(Cst::par(inside))
    }

    /// A variable.
    fn var(&mut self) -> (r: Result<Rc<Cst>, ParseErr>)
        requires
            old(self).wf(),
        ensures
            final(self).wf(),
            final(self).lexer.text() == old(self).lexer.text(),
            final(self).lexer.at() >= old(self).lexer.at(),
            match r {
                Ok(c) => old(self).toks().len() > 0
                    && (old(self).toks()[0] matches TokView::Id(n) && c@ == CstView::Var(n))
                    && final(self).toks() == old(self).toks().skip(1)
                    && final(self).lexer.at() > old(self).lexer.at(),
                Err(e) => (old(self).toks().len() == 0 && e@ == ParseErrView::UnexpectedEof)
                    || (old(self).toks().len() > 0
                        && !(old(self).toks()[0] is Id)
                        && e@ == ParseErrView::UnexpectedTok(old(self).toks()[0])),
            },
    {
        let id = match self.eat_id() {
            Ok(s) => s,
            Err(e) => {
                return Err(e);
            }
        };
        Ok(Cst::var(id))
    }

    /// An abstraction.
    fn abs(&mut self) -> (r: Result<Rc<Cst>, ParseErr>)
        requires
            old(self).wf(),
        ensures
            final(self).wf(),
            final(self).lexer.text() == old(self).lexer.text(),
            final(self).lexer.at() >= old(self).lexer.at(),
            match r {
                Ok(c) => p_abs(old(self).toks()) matches Ok(pair) && pair.0 == c@
                    && pair.1 == final(self).toks()
                    && final(self).lexer.at() > old(self).lexer.at(),
                Err(e) => p_abs(old(self).toks()) matches Err(ev) && ev == e@,
            },
        decreases self.chars_left(), 0int,
    {
        let ghost ts = self.toks();
        match self.eat(Tok::Lam) {
            Ok(()) => {}
            Err(e) => {
                return Err(e);
            }
        }
        let ids = match self.eat_ids() {
            Ok(v) => v,
            Err(e) => {
                return Err(e);
            }
        };
        proof {
            lemma_p_ids_consumes(ts.skip(1));
        }
        match self.eat(Tok::Dot) {
            Ok(()) => {}
            Err(e) => {
                return Err(e);
            }
        }
        let body = match self.app() {
            Ok(c) => c,
            Err(e) => {
                return Err(e);
            }
        };
        Ok(Cst::abs(ids, body))
    }

    /// An application.
    fn app(&mut self) -> (r: Result<Rc<Cst>, ParseErr>)
        requires
            old(self).wf(),
        ensures
            final(self).wf(),
            final(self).lexer.text() == old(self).lexer.text(),
            final(self).lexer.at() >= old(self).lexer.at(),
            match r {
                Ok(c) => p_app(old(self).toks()) matches Ok(pair) && pair.0 == c@
                    && pair.1 == final(self).toks()
                    && final(self).lexer.at() > old(self).lexer.at(),
                Err(e) => p_app(old(self).toks()) matches Err(ev) && ev == e@,
            },
        decreases self.chars_left(), 2int,
    {
        let ghost ts = self.toks();
        let left = match self.left() {
            Ok(c) => c,
            Err(e) => {
                return Err(e);
            }
        };
        let more = match self.peek() {
            Some(Tok::RPar) => false,
            Some(_) => true,
            None => false,
        };
        if !more {
            return Ok(left);
        }
        proof {
            lemma_p_left_consumes(ts);
        }
        let right = match self.app() {
            Ok(c) => c,
            Err(e) => {
                return Err(e);
            }
        };
        Ok(Self::balance_app(left, right))
    }

    /// One operand of an application.
    fn left(&mut self) -> (r: Result<Rc<Cst>, ParseErr>)
        requires
            old(self).wf(),
        ensures
            final(self).wf(),
            final(self).lexer.text() == old(self).lexer.text(),
            final(self).lexer.at() >= old(self).lexer.at(),
            match r {
                Ok(c) => p_left(old(self).toks()) matches Ok(pair) && pair.0 == c@
                    && pair.1 == final(self).toks()
                    && final(self).lexer.at() > old(self).lexer.at(),
                Err(e) => p_left(old(self).toks()) matches Err(ev) && ev == e@,
            },
        decreases self.chars_left(), 1int,
    {
        let k = match self.peek_eof() {
            Ok(k) => k,
            Err(e) => {
                return Err(e);
            }
        };
        match k {
            Tok::Lam => self.abs(),
            Tok::Dot => Err(ParseErr::UnexpectedTok(Tok::Dot)),
            Tok::LPar => self.par(),
            Tok::RPar => Err(ParseErr::UnexpectedTok(Tok::RPar)),
            Tok::Id(_) => self.var(),
        }
    }

    /// The end of the input: any remaining token is an error.
    fn eof(&mut self) -> (r: Result<(), ParseErr>)
        requires
            old(self).wf(),
        ensures
            final(self).wf(),
            match r {
                Ok(()) => old(self).toks().len() == 0,
                Err(e) => old(self).toks().len() > 0
                    && e@ == ParseErrView::UnexpectedTok(old(self).toks()[0]),
            },
    {
        match self.next() {
            Some(tok) => Err(ParseErr::UnexpectedTok(tok)),
            None => Ok(()),
        }
    }

    /// Parse the whole token stream as one expression. The first error
    /// aborts the parse and is returned unchanged.
    pub fn parse(&mut self) -> (r: Result<Rc<Cst>, ParseErr>)
        requires
            old(self).wf(),
        ensures
            match r {
                Ok(c) => parse_toks(old(self).toks()) matches Ok(cv) && cv == c@,
                Err(e) => parse_toks(old(self).toks()) matches Err(ev) && ev == e@,
            },
    {
        let expr = match self.app() {
            Ok(c) => c,
            Err(e) => {
                return Err(e);
            }
        };
        match self.eof() {
            Ok(()) => Ok(expr),
            Err(e) => Err(e),
        }
    }
}

/// Parse an input text: tokenize it and parse the tokens as one expression.
pub fn parse_text(input: &str) -> (r: Result<Rc<Cst>, ParseErr>)
    ensures
        match r {
            Ok(c) => parse_toks(lex(input@)) matches Ok(cv) && cv == c@,
            Err(e) => parse_toks(lex(input@)) matches Err(ev) && ev == e@,
        },
{
    let lexer = Lexer::new(input);
    let mut parser = Parser::new(lexer);
    parser.parse()
}

} // verus!
