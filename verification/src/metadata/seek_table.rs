//! Seek points: where in the stream a sample can be found.

use crate::bits::be_bytes;
use crate::metadata::write_be;
use crate::ByteSink;
use vstd::prelude::*;

verus! {

/// One seek point.
pub struct SeekPoint {
    sample_num_of_first_in_target: u64,
    offset_to_target_frame: u64,
    sample_count_in_target_frame: u16,
}

impl SeekPoint {
    /// The number of the first sample of the target frame.
    pub closed spec fn first_sample(&self) -> u64 {
        self.sample_num_of_first_in_target
    }

    /// The offset of the target frame, in bytes from the first frame.
    pub closed spec fn offset(&self) -> u64 {
        self.offset_to_target_frame
    }

    /// The number of samples of the target frame.
    pub closed spec fn sample_count(&self) -> u16 {
        self.sample_count_in_target_frame
    }

    /// The eighteen bytes of the seek point: the sample number and the
    /// offset in eight bytes each, and the number of samples in two.
    pub open spec fn encoding(&self) -> Seq<u8> {
        be_bytes(self.first_sample() as nat, 8) + be_bytes(self.offset() as nat, 8) + be_bytes(
            self.sample_count() as nat,
            2,
        )
    }

    /// A seek point.
    pub fn new(
        sample_num_of_first_in_target: u64,
        offset_to_target_frame: u64,
        sample_count_in_target_frame: u16,
    ) -> (point: Self)
        ensures
            point.first_sample() == sample_num_of_first_in_target,
            point.offset() == offset_to_target_frame,
            point.sample_count() == sample_count_in_target_frame,
    {
        Self {
            sample_num_of_first_in_target,
            offset_to_target_frame,
            sample_count_in_target_frame,
        }
    }

    /// Writes the seek point.
    pub fn write<BS: ByteSink>(&self, sink: &mut BS)
        requires
            18 <= old(sink).room(),
        ensures
            final(sink).bytes() == old(sink).bytes() + self.encoding(),
            final(sink).room() == old(sink).room() - 18,
    {
        write_be(sink, self.sample_num_of_first_in_target as u128, 8);
        write_be(sink, self.offset_to_target_frame as u128, 8);
        write_be(sink, self.sample_count_in_target_frame as u128, 2);
        proof {
            assert(sink.bytes() =~= old(sink).bytes() + self.encoding());
        }
    }
}

} // verus!
