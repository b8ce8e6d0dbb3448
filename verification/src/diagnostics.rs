use vstd::prelude::*;

verus! {

/// Different types of annotations, usually only distinguishable by color in a
/// rendered diagnostic. Listed from most to least severe; purely descriptive
/// metadata for a rendering layer, never control flow.
#[derive(Clone, Copy, Debug, PartialEq, Eq, Structural)]
pub enum AnnotationType {
    /// Messages generated by unrecoverable errors.
    Error,
    /// Messages that indicate flaws, but are not critical.
    Warning,
    /// Information about parts of the input related to errors or warnings.
    Info,
    /// Additional information about why an error occurred.
    Note,
    /// Tips on how to fix any of the above.
    Help,
}

/// Where in the input an error was found: a single offset or a half-open span.
#[derive(Clone, Copy, Debug, PartialEq, Eq, Structural)]
pub enum InputLocation {
    Pos(usize),
    Span(usize, usize),
}

/// The kinds of lexical failure.
#[derive(Debug, Clone, PartialEq)]
pub enum ErrorVariant {
    /// A character that no token may begin with or continue, together with
    /// the set of characters that would have been acceptable, if one is known.
    UnexpectedCharacter { found: char, expected: Option<Vec<char>> },
    /// The buffer ended in the middle of a token.
    UnexpectedEndOfInput,
}

/// The value of an `ErrorVariant` at the specification level.
pub enum ErrorVariantV {
    UnexpectedCharacter { found: char, expected: Option<Seq<char>> },
    UnexpectedEndOfInput,
}

impl View for ErrorVariant {
    type V = ErrorVariantV;

    open spec fn view(&self) -> ErrorVariantV {
        match self {
            ErrorVariant::UnexpectedCharacter { found, expected } => {
                ErrorVariantV::UnexpectedCharacter {
                    found: *found,
                    expected: match expected {
                        Some(cs) => Some(cs@),
                        None => None,
                    },
                }
            },
            ErrorVariant::UnexpectedEndOfInput => ErrorVariantV::UnexpectedEndOfInput,
        }
    }
}

/// A lexical error: what went wrong, and where. A terminal value returned to
/// the caller; lexing halts at the first one.
#[derive(Debug, Clone, PartialEq)]
pub struct Error {
    pub variant: ErrorVariant,
    pub location: InputLocation,
}

/// The value of an `Error` at the specification level.
pub struct ErrorV {
    pub variant: ErrorVariantV,
    pub location: InputLocation,
}

impl View for Error {
    type V = ErrorV;

    open spec fn view(&self) -> ErrorV {
        ErrorV { variant: self.variant@, location: self.location }
    }
}

impl Error {
    pub fn new(variant: ErrorVariant, location: InputLocation) -> (r: Self)
        ensures
            r@ == (ErrorV { variant: variant@, location }),
    {
        Error { variant, location }
    }
}

} // verus!
