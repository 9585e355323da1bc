//! A lambda-calculus evaluation pipeline: tokenize, parse into a concrete
//! syntax tree, desugar multi-name abstractions into single-name ("Church")
//! form, resolve names into de Bruijn indices, and reduce by call-by-name
//! beta reduction towards weak head normal form.

use vstd::prelude::*;

pub mod church;
pub mod cst;
pub mod de_bruijn;
pub mod lexer;
pub mod parser;
pub mod tok;

verus! {

use std::rc::Rc;

/// Relies on Rc::clone: the clone refers to the same value as the original.
#[verifier::external_body]
pub(crate) fn rc_dup<T>(v: &Rc<T>) -> (r: Rc<T>)
    ensures
        r == *v,
{
    v.clone()
}

} // verus!
