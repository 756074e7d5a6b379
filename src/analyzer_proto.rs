//! The header that precedes an analyzer trace dump.
use vstd::prelude::*;
use crate::wire::{be32, be64, write_u8, write_u32, write_u64};

verus! {

#[derive(Debug)]
pub struct Header {
    pub sent_bytes: u32,
    pub total_byte_count: u64,
    pub overflow_occurred: bool,
    pub log_channel: u8,
    pub dds_onehot_sel: bool,
}

pub open spec fn bool_byte(b: bool) -> u8 {
    if b {
        1
    } else {
        0
    }
}

impl Header {
    /// The wire form of the header.
    pub open spec fn bytes(&self) -> Seq<u8> {
        be32(self.sent_bytes) + be64(self.total_byte_count) + seq![
            bool_byte(self.overflow_occurred),
            self.log_channel,
            bool_byte(self.dds_onehot_sel),
        ]
    }

    pub fn write_to(&self, writer: &mut Vec<u8>)
        ensures
            final(writer)@ == old(writer)@ + self.bytes(),
    {
        write_u32(writer, self.sent_bytes);
        write_u64(writer, self.total_byte_count);
        write_u8(writer, if self.overflow_occurred { 1 } else { 0 });
        write_u8(writer, self.log_channel);
        write_u8(writer, if self.dds_onehot_sel { 1 } else { 0 });
        assert(writer@ =~= old(writer)@ + self.bytes());
    }
}

} // verus!
