use vstd::prelude::*;

verus! {

/// One lexical token. Identifier tokens carry the matched source text; the
/// surrounding `Positioned` wrapper carries the source location.
#[derive(Debug, Clone, PartialEq)]
pub enum Token<'a> {
    /// The keyword `forall`.
    Forall,
    /// The boolean literal `true`.
    True,
    /// The boolean literal `false`.
    False,
    /// An identifier that is not a keyword; carries the matched text.
    Ident(&'a str),
    /// A single leading space character.
    Indent,
    /// The implication arrow `=>`.
    Implication,
    /// An opening parenthesis.
    OpeningParen,
    /// A closing parenthesis.
    ClosingParen,
}

/// The value of a token at the specification level: identifier text becomes
/// the sequence of its characters.
pub enum TokenV {
    Forall,
    True,
    False,
    Ident(Seq<char>),
    Indent,
    Implication,
    OpeningParen,
    ClosingParen,
}

impl<'a> View for Token<'a> {
    type V = TokenV;

    open spec fn view(&self) -> TokenV {
        match self {
            Token::Forall => TokenV::Forall,
            Token::True => TokenV::True,
            Token::False => TokenV::False,
            Token::Ident(s) => TokenV::Ident(s@),
            Token::Indent => TokenV::Indent,
            Token::Implication => TokenV::Implication,
            Token::OpeningParen => TokenV::OpeningParen,
            Token::ClosingParen => TokenV::ClosingParen,
        }
    }
}

} // verus!
