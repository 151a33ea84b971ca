//! Padding: room left in the stream for later metadata.

use crate::bits::be_bytes;
use crate::metadata::write_be;
use crate::ByteSink;
use vstd::prelude::*;

verus! {

/// `N` zero bytes.
pub struct Padding<const N: usize>;

impl<const N: usize> Padding<N> {
    /// The length in three bytes, and `N` zero bytes.
    pub open spec fn encoding(&self) -> Seq<u8> {
        be_bytes(N as nat, 3) + Seq::new(N as nat, |i: int| 0u8)
    }

    /// Writes the length and the zero bytes.
    pub fn write<BS: ByteSink>(&self, sink: &mut BS)
        requires
            N < 0x100_0000,
            self.encoding().len() <= old(sink).room(),
        ensures
            final(sink).bytes() == old(sink).bytes() + self.encoding(),
            final(sink).room() == old(sink).room() - self.encoding().len(),
    {
        write_be(sink, N as u128, 3);
        let ghost front = sink.bytes();
        let mut i: usize = 0;
        while i < N
            invariant
                i <= N,
                N + 3 <= old(sink).room(),
                sink.bytes() == front + Seq::new(i as nat, |k: int| 0u8),
                sink.room() == old(sink).room() - 3 - i,
            decreases N - i,
        {
            sink.write(0);
            i += 1;
            proof {
                let shorter = Seq::new((i - 1) as nat, |k: int| 0u8);
                assert(Seq::new(i as nat, |k: int| 0u8) =~= shorter.push(0u8));
            }
        }
        proof {
            assert(sink.bytes() =~= old(sink).bytes() + self.encoding());
        }
    }
}

} // verus!
