//! The 16.16 fixed-point number of OpenType.

use crate::bytes::{i16_bits, u16_be, ByteSink};
use crate::open_type::document::Object;
use crate::open_type::error::WriteError;
use vstd::prelude::*;

verus! {

/// A number of 32 bits: a signed whole part and an unsigned fraction.
#[derive(Debug, Clone, Copy)]
pub struct Fixed {
    /// The whole part.
    pub major: i16,
    /// The fraction, in 65536ths.
    pub minor: u16,
}

impl Fixed {
    /// The four bytes of the number: the whole part, then the fraction,
    /// each most significant byte first.
    pub open spec fn encoding(&self) -> Seq<u8> {
        u16_be(i16_bits(self.major)) + u16_be(self.minor)
    }

    /// Appends the number's four bytes to `sink`.
    pub fn write_fixed(&self, sink: &mut ByteSink)
        ensures
            final(sink)@ == old(sink)@ + self.encoding(),
    {
        sink.put_i16(self.major);
        sink.put_u16(self.minor);
        assert(sink@ =~= old(sink)@ + self.encoding());
    }
}

impl Object for Fixed {
    open spec fn size_spec(&self) -> nat {
        4
    }

    open spec fn emitted(&self) -> Seq<u8> {
        self.encoding()
    }

    open spec fn writes(&self) -> bool {
        true
    }

    fn get_size(&self) -> (size: usize) {
        4
    }

    fn write(&self, sink: &mut ByteSink) -> (result: Result<(), WriteError>) {
        self.write_fixed(sink);
        Ok(())
    }
}

} // verus!
