use vstd::prelude::*;

verus! {

/// The payload that a token carries.
///
/// A number is carried as the text of its numeral (digits, optionally a dot
/// and more digits); every such text reads as a 64-bit float.
#[derive(Debug)]
pub enum LiteralType {
    Custom(String),
    Number(String),
    Text(&'static str),
    Eof,
}

/// The mathematical value of a payload.
pub enum LiteralView {
    Custom(Seq<char>),
    Number(Seq<char>),
    Text(Seq<char>),
    Eof,
}

impl View for LiteralType {
    type V = LiteralView;

    open spec fn view(&self) -> LiteralView {
        match self {
            LiteralType::Custom(s) => LiteralView::Custom(s@),
            LiteralType::Number(s) => LiteralView::Number(s@),
            LiteralType::Text(s) => LiteralView::Text(s@),
            LiteralType::Eof => LiteralView::Eof,
        }
    }
}

} // verus!
