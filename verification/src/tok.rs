use vstd::prelude::*;

verus! {

/// A surface token. The payload type is `String` for a full token carrying
/// its identifier text, or `()` when only the kind of a token matters.
#[derive(Debug, PartialEq, Eq)]
pub enum Tok<IdType> {
    Lam,
    Dot,
    LPar,
    RPar,
    Id(IdType),
}

/// The mathematical form of a full token: the identifier text is a
/// character sequence.
pub enum TokView {
    Lam,
    Dot,
    LPar,
    RPar,
    Id(Seq<char>),
}

impl View for Tok<String> {
    type V = TokView;

    open spec fn view(&self) -> TokView {
        match self {
            Tok::Lam => TokView::Lam,
            Tok::Dot => TokView::Dot,
            Tok::LPar => TokView::LPar,
            Tok::RPar => TokView::RPar,
            Tok::Id(s) => TokView::Id(s@),
        }
    }
}

/// The kind of a token: the token with its payload forgotten.
pub open spec fn kind_of(t: TokView) -> Tok<()> {
    match t {
        TokView::Lam => Tok::Lam,
        TokView::Dot => Tok::Dot,
        TokView::LPar => Tok::LPar,
        TokView::RPar => Tok::RPar,
        TokView::Id(_) => Tok::Id(()),
    }
}

} // verus!
