//! The outlines of TrueType: contours of points, and instructions.

use crate::bytes::ByteSink;
use vstd::prelude::*;

verus! {

/// A closed curve of an outline.
#[derive(Debug, Clone)]
pub struct Contour {
    /// The points of the curve, in order.
    pub points: Vec<Point>,
}

/// A point of a contour.
#[derive(Debug, Clone, Copy)]
pub struct Point {
    /// Whether the curve passes through the point.
    pub is_on_curve: bool,
    /// The horizontal coordinate.
    pub x: i16,
    /// The vertical coordinate.
    pub y: i16,
}

impl Point {
    /// The point at (`x`, `y`), on the curve.
    pub fn on_curve(x: i16, y: i16) -> (point: Self)
        ensures
            point.is_on_curve,
            point.x == x,
            point.y == y,
    {
        Self { is_on_curve: true, x, y }
    }

    /// The point at (`x`, `y`). It is flagged as on the curve, as every
    /// point is.
    pub fn off_curve(x: i16, y: i16) -> (point: Self)
        ensures
            point.is_on_curve,
            point.x == x,
            point.y == y,
    {
        Self { is_on_curve: true, x, y }
    }
}

/// An instruction of the TrueType interpreter.
#[derive(Debug, Clone)]
pub enum Instrution {
    /// Push the bytes on the stack.
    PushBytes(Vec<u8>),
}

impl Instrution {
    /// The bytes that are pushed.
    pub open spec fn pushed(&self) -> Seq<u8> {
        match self {
            Instrution::PushBytes(bytes) => bytes@,
        }
    }

    /// The instruction's bytes: the opcode 0xB0 plus the number of bytes,
    /// then the bytes.
    pub open spec fn encoding(&self) -> Seq<u8> {
        seq![(0xB0 + self.pushed().len() % 256) as u8] + self.pushed()
    }

    /// Appends the instruction's bytes to `sink`. The opcode has room for
    /// a count of at most 0x4F, taken modulo 256.
    pub fn write_instruction(&self, sink: &mut ByteSink)
        requires
            self.pushed().len() % 256 <= 0x4F,
        ensures
            final(sink)@ == old(sink)@ + self.encoding(),
    {
        match self {
            Instrution::PushBytes(bytes) => {
                let count: u8 = #[verifier::truncate] (bytes.len() as u8);
                assert(count == bytes@.len() % 256) by {
                    let n = bytes.len();
                    assert(#[verifier::truncate] (n as u8) == n % 256) by (bit_vector);
                }
                sink.put_u8(0xB0 + count);
                sink.put_bytes(bytes.as_slice());
                assert(sink@ =~= old(sink)@ + self.encoding());
            },
        }
    }
}

} // verus!
