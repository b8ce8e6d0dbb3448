use vstd::prelude::*;

verus! {

/// A location in the source buffer: either a single offset or a half-open
/// span `[start, end)`. Offsets are character indices into the buffer of the
/// lexing pass that produced the value.
#[derive(Clone, Copy, Debug, PartialEq, Eq, Structural)]
pub enum Position {
    Pos(usize),
    Span(usize, usize),
}

impl Position {
    /// A span's start never lies after its end.
    pub open spec fn well_formed(self) -> bool {
        match self {
            Position::Pos(_) => true,
            Position::Span(start, end) => start <= end,
        }
    }
}

/// A value paired with the source location it was read from.
#[derive(Debug)]
pub struct Positioned<T> {
    pub inner: T,
    pub position: Position,
}

impl<T> Positioned<T> {
    pub fn new(inner: T, position: Position) -> (r: Self)
        ensures
            r.inner == inner,
            r.position == position,
    {
        Positioned { inner, position }
    }

    /// Read access to the wrapped value.
    pub fn as_inner(&self) -> (r: &T)
        ensures
            *r == self.inner,
    {
        &self.inner
    }

    /// Give up the wrapper and keep the value.
    pub fn into_inner(self) -> (r: T)
        ensures
            r == self.inner,
    {
        self.inner
    }

    /// The location the value was read from.
    pub fn position(&self) -> (r: Position)
        ensures
            r == self.position,
    {
        self.position
    }
}

} // verus!
