use vstd::prelude::*;

verus! {

use std::rc::Rc;
use crate::cst::{Cst, CstView};

/// A term in Church form: every abstraction binds exactly one name, and no
/// grouping node remains — tree shape alone encodes structure.
#[derive(Debug, PartialEq, Eq)]
pub enum Church {
    Var(String),
    Abs(String, Rc<Church>),
    App(Rc<Church>, Rc<Church>),
}

/// The mathematical form of a Church term.
pub enum ChurchView {
    Var(Seq<char>),
    Abs(Seq<char>, Box<ChurchView>),
    App(Box<ChurchView>, Box<ChurchView>),
}

pub open spec fn church_view(c: Church) -> ChurchView
    decreases c,
{
    match c {
        Church::Var(n) => ChurchView::Var(n@),
        Church::Abs(n, b) => ChurchView::Abs(n@, Box::new(church_view(*b))),
        Church::App(l, r) => ChurchView::App(Box::new(church_view(*l)), Box::new(church_view(*r))),
    }
}

impl View for Church {
    type V = ChurchView;

    open spec fn view(&self) -> ChurchView {
        church_view(*self)
    }
}

/// The right fold of a binder list into nested single-name abstractions: the
/// first name becomes the outermost binder, the last name the innermost one.
pub open spec fn abs_many_view(names: Seq<Seq<char>>, body: ChurchView) -> ChurchView
    decreases names.len(),
{
    if names.len() == 0 {
        body
    } else {
        ChurchView::Abs(names[0], Box::new(abs_many_view(names.skip(1), body)))
    }
}

/// What desugaring yields: multi-name abstractions are right-folded into
/// single-name abstractions, and grouping nodes are erased.
pub open spec fn desugar_view(c: CstView) -> ChurchView
    decreases c,
{
    match c {
        CstView::Var(n) => ChurchView::Var(n),
        CstView::Abs(ns, b) => abs_many_view(ns, desugar_view(*b)),
        CstView::App(l, r) => ChurchView::App(
            Box::new(desugar_view(*l)),
            Box::new(desugar_view(*r)),
        ),
        CstView::Par(i) => desugar_view(*i),
    }
}

impl Church {
    pub fn var(name: &str) -> (r: Rc<Church>)
        ensures
            r@ == ChurchView::Var(name@),
    {
        Rc::new(Church::Var(name.to_owned()))
    }

    pub fn abs(name: &str, body: Rc<Church>) -> (r: Rc<Church>)
        ensures
            r@ == ChurchView::Abs(name@, Box::new(body@)),
    {
        Rc::new(Church::Abs(name.to_owned(), body))
    }

    pub fn abs_many(names: &Vec<String>, body: Rc<Church>) -> (r: Rc<Church>)
        ensures
            r@ == abs_many_view(names.deep_view(), body@),
    {
        let ghost bodyv = body@;
        let ghost dv = names.deep_view();
        let mut acc = body;
        let mut i: usize = names.len();
        while i > 0
            invariant
                i <= names@.len(),
                dv == names.deep_view(),
                dv.len() == names@.len(),
                acc@ == abs_many_view(dv.skip(i as int), bodyv),
            decreases i,
        {
            i = i - 1;
            acc = Church::abs(names[i].as_str(), acc);
            proof {
                assert(dv.skip(i as int).skip(1) =~= dv.skip(i + 1));
                assert(dv.skip(i as int)[0] == dv[i as int]);
            }
        }
        proof {
            assert(dv.skip(0) =~= dv);
        }
        acc
    }

    pub fn app(l: Rc<Church>, r: Rc<Church>) -> (res: Rc<Church>)
        ensures
            res@ == ChurchView::App(Box::new(l@), Box::new(r@)),
    {
        Rc::new(Church::App(l, r))
    }

    /// Desugar a concrete syntax tree into Church form: a total, pure
    /// structural fold.
    pub fn desugar(cst: &Rc<Cst>) -> (r: Rc<Church>)
        ensures
            r@ == desugar_view(cst@),
        decreases **cst,
    {
        match &**cst {
            Cst::Var(id) => Church::var(id.as_str()),
            Cst::Abs(names, body) => Church::abs_many(names, Church::desugar(body)),
            Cst::App(left, right) => Church::app(Church::desugar(left), Church::desugar(right)),
            Cst::Par(inside) => Church::desugar(inside),
        }
    }
}

/// Desugaring is deterministic: structurally identical concrete trees always
/// desugar to structurally identical Church terms, however often the fold is
/// repeated.
pub proof fn lemma_desugar_deterministic(a: &Rc<Cst>, b: &Rc<Cst>)
    requires
        a@ == b@,
    ensures
        desugar_view(a@) == desugar_view(b@),
{
}

} // verus!
