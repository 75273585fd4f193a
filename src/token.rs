use crate::literals::{LiteralType, LiteralView};
use crate::token_type::TokenType;
use vstd::prelude::*;

verus! {

/// One classified unit of the scanner's output.
#[derive(Debug)]
pub struct Token {
    pub _type: TokenType,
    pub lexeme: Option<String>,
    pub literal: LiteralType,
    pub line: usize,
}

/// The mathematical value of a token.
pub struct TokenView {
    pub kind: TokenType,
    pub lexeme: Option<Seq<char>>,
    pub literal: LiteralView,
    pub line: nat,
}

impl View for Token {
    type V = TokenView;

    open spec fn view(&self) -> TokenView {
        TokenView {
            kind: self._type,
            lexeme: match self.lexeme {
                Some(s) => Some(s@),
                None => None,
            },
            literal: self.literal@,
            line: self.line as nat,
        }
    }
}

} // verus!

verus! {

/// The views of a sequence of tokens.
pub open spec fn token_views(ts: Seq<Token>) -> Seq<TokenView> {
    ts.map_values(|t: Token| t@)
}

} // verus!
