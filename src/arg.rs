use vstd::prelude::*;

verus! {

/// One command-line token, as the platform handed it over.
#[derive(Clone, Debug, PartialEq, Eq)]
pub enum Arg {
    /// A token that is valid Unicode text.
    Text(String),
    /// A token whose raw bytes are not valid Unicode text.
    Binary(Vec<u8>),
}

/// The mathematical value of a token.
pub enum ArgView {
    Text(Seq<char>),
    Binary(Seq<u8>),
}

impl View for Arg {
    type V = ArgView;

    open spec fn view(&self) -> ArgView {
        match self {
            Arg::Text(s) => ArgView::Text(s@),
            Arg::Binary(b) => ArgView::Binary(b@),
        }
    }
}

/// The values of a list of tokens, in order.
pub open spec fn views(v: Seq<Arg>) -> Seq<ArgView> {
    v.map_values(|a: Arg| a@)
}

/// The text of a token, if it has one.
pub open spec fn text_of(a: ArgView) -> Option<Seq<char>> {
    match a {
        ArgView::Text(t) => Some(t),
        ArgView::Binary(_) => None,
    }
}

} // verus!
