//! Positions in source text: absolute and file-relative byte offsets, and
//! character offsets.

use vstd::prelude::*;

verus! {

/// Conversions between a position and plain integers. Conversions to a
/// narrower integer keep the low bits, as `as` does.
pub trait Pos: Sized {
    fn from_usize(n: usize) -> Self;

    fn to_usize(&self) -> usize;

    fn from_u32(n: u32) -> Self;

    fn to_u32(&self) -> u32;
}

/// A byte offset into the whole source map.
#[derive(Clone, Copy, PartialEq, Eq, Hash, Debug, Structural)]
pub struct BytePos(pub u32);

/// A byte offset relative to the start of a source file.
#[derive(Clone, Copy, PartialEq, Eq, Hash, Debug, Structural)]
pub struct RelativeBytePos(pub u32);

/// A character offset.
#[derive(Clone, Copy, PartialEq, Eq, Debug, Structural)]
pub struct CharPos(pub usize);

impl Pos for BytePos {
    fn from_usize(n: usize) -> (r: BytePos)
        ensures
            r.0 == n as u32,
    {
        BytePos(n as u32)
    }

    fn to_usize(&self) -> (r: usize)
        ensures
            r == self.0,
    {
        self.0 as usize
    }

    fn from_u32(n: u32) -> (r: BytePos)
        ensures
            r.0 == n,
    {
        BytePos(n)
    }

    fn to_u32(&self) -> (r: u32)
        ensures
            r == self.0,
    {
        self.0
    }
}

impl Pos for RelativeBytePos {
    fn from_usize(n: usize) -> (r: RelativeBytePos)
        ensures
            r.0 == n as u32,
    {
        RelativeBytePos(n as u32)
    }

    fn to_usize(&self) -> (r: usize)
        ensures
            r == self.0,
    {
        self.0 as usize
    }

    fn from_u32(n: u32) -> (r: RelativeBytePos)
        ensures
            r.0 == n,
    {
        RelativeBytePos(n)
    }

    fn to_u32(&self) -> (r: u32)
        ensures
            r == self.0,
    {
        self.0
    }
}

impl Pos for CharPos {
    fn from_usize(n: usize) -> (r: CharPos)
        ensures
            r.0 == n,
    {
        CharPos(n)
    }

    fn to_usize(&self) -> (r: usize)
        ensures
            r == self.0,
    {
        self.0
    }

    fn from_u32(n: u32) -> (r: CharPos)
        ensures
            r.0 == n,
    {
        CharPos(n as usize)
    }

    fn to_u32(&self) -> (r: u32)
        ensures
            r == self.0 as u32,
    {
        self.0 as u32
    }
}

impl BytePos {
    /// The sum of two positions; they must not overflow.
    pub fn plus(self, rhs: BytePos) -> (r: BytePos)
        requires
            self.0 + rhs.0 <= u32::MAX,
        ensures
            r.0 == self.0 + rhs.0,
    {
        BytePos(self.0 + rhs.0)
    }

    /// The difference of two positions; `rhs` must not exceed `self`.
    pub fn minus(self, rhs: BytePos) -> (r: BytePos)
        requires
            rhs.0 <= self.0,
        ensures
            r.0 == self.0 - rhs.0,
    {
        BytePos(self.0 - rhs.0)
    }
}

} // verus!
