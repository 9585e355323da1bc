use vstd::prelude::*;

verus! {

use std::rc::Rc;

/// A concrete syntax tree. An abstraction carries one or more binder names
/// (surface sugar for currying), and a parenthesized expression keeps an
/// explicit grouping node until desugaring erases it.
#[derive(Debug, PartialEq, Eq)]
pub enum Cst {
    Var(String),
    Abs(Vec<String>, Rc<Cst>),
    App(Rc<Cst>, Rc<Cst>),
    Par(Rc<Cst>),
}

/// The mathematical form of a concrete syntax tree: names are character
/// sequences.
pub enum CstView {
    Var(Seq<char>),
    Abs(Seq<Seq<char>>, Box<CstView>),
    App(Box<CstView>, Box<CstView>),
    Par(Box<CstView>),
}

pub open spec fn cst_view(c: Cst) -> CstView
    decreases c,
{
    match c {
        Cst::Var(n) => CstView::Var(n@),
        Cst::Abs(ns, b) => CstView::Abs(ns.deep_view(), Box::new(cst_view(*b))),
        Cst::App(l, r) => CstView::App(Box::new(cst_view(*l)), Box::new(cst_view(*r))),
        Cst::Par(i) => CstView::Par(Box::new(cst_view(*i))),
    }
}

impl View for Cst {
    type V = CstView;

    open spec fn view(&self) -> CstView {
        cst_view(*self)
    }
}

impl Cst {
    pub fn var(name: String) -> (r: Rc<Cst>)
        ensures
            r@ == CstView::Var(name@),
    {
        Rc::new(Cst::Var(name))
    }

    pub fn abs(names: Vec<String>, body: Rc<Cst>) -> (r: Rc<Cst>)
        ensures
            r@ == CstView::Abs(names.deep_view(), Box::new(body@)),
    {
        Rc::new(Cst::Abs(names, body))
    }

    pub fn app(l: Rc<Cst>, r: Rc<Cst>) -> (res: Rc<Cst>)
        ensures
            res@ == CstView::App(Box::new(l@), Box::new(r@)),
    {
        Rc::new(Cst::App(l, r))
    }

    pub fn par(inside: Rc<Cst>) -> (r: Rc<Cst>)
        ensures
            r@ == CstView::Par(Box::new(inside@)),
    {
        Rc::new(Cst::Par(inside))
    }
}

} // verus!
