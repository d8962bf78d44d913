//! DATA and FORWARD-TSN chunks as the association handles them.
use vstd::prelude::*;
use crate::codec::write_bytes;

verus! {

/// One fragment of a user message.
#[derive(Clone, Debug)]
pub struct ChunkPayloadData {
    pub unordered: bool,
    pub beginning_fragment: bool,
    pub ending_fragment: bool,
    pub immediate_sack: bool,
    pub tsn: u32,
    pub stream_identifier: u16,
    pub stream_sequence_number: u16,
    pub payload_type: u32,
    pub user_data: Vec<u8>,
    /// Times this fragment has been sent.
    pub nsent: u32,
    /// Set by the partial-reliability policy once the fragment is given up.
    pub abandoned: bool,
    pub acked: bool,
    /// SACKs that reported a later TSN while this one was missing.
    pub miss_indicator: u32,
}

impl Default for ChunkPayloadData {
    fn default() -> (r: Self)
        ensures
            !r.unordered && !r.beginning_fragment && !r.ending_fragment && !r.immediate_sack,
            r.tsn == 0 && r.stream_identifier == 0 && r.stream_sequence_number == 0,
            r.payload_type == 0 && r.user_data@.len() == 0 && r.nsent == 0,
            !r.abandoned && !r.acked && r.miss_indicator == 0,
    {
        ChunkPayloadData {
            unordered: false,
            beginning_fragment: false,
            ending_fragment: false,
            immediate_sack: false,
            tsn: 0,
            stream_identifier: 0,
            stream_sequence_number: 0,
            payload_type: 0,
            user_data: Vec::new(),
            nsent: 0,
            abandoned: false,
            acked: false,
            miss_indicator: 0,
        }
    }
}

impl ChunkPayloadData {
    /// A copy with the same fields and bytes.
    pub fn duplicate(&self) -> (r: Self)
        ensures
            r.unordered == self.unordered && r.beginning_fragment == self.beginning_fragment
                && r.ending_fragment == self.ending_fragment && r.immediate_sack
                == self.immediate_sack,
            r.tsn == self.tsn && r.stream_identifier == self.stream_identifier
                && r.stream_sequence_number == self.stream_sequence_number,
            r.payload_type == self.payload_type && r.user_data@ == self.user_data@ && r.nsent
                == self.nsent,
            r.abandoned == self.abandoned && r.acked == self.acked && r.miss_indicator
                == self.miss_indicator,
    {
        let mut user_data: Vec<u8> = Vec::new();
        write_bytes(&mut user_data, &self.user_data);
        ChunkPayloadData {
            unordered: self.unordered,
            beginning_fragment: self.beginning_fragment,
            ending_fragment: self.ending_fragment,
            immediate_sack: self.immediate_sack,
            tsn: self.tsn,
            stream_identifier: self.stream_identifier,
            stream_sequence_number: self.stream_sequence_number,
            payload_type: self.payload_type,
            user_data,
            nsent: self.nsent,
            abandoned: self.abandoned,
            acked: self.acked,
            miss_indicator: self.miss_indicator,
        }
    }
}

/// A stream and the last SSN skipped on it.
#[derive(Clone, Copy, Debug, PartialEq, Eq, Structural)]
pub struct ChunkForwardTsnStream {
    pub identifier: u16,
    pub sequence: u16,
}

/// Moves the receiver's cumulative TSN past abandoned data.
#[derive(Clone, Debug)]
pub struct ChunkForwardTsn {
    pub new_cumulative_tsn: u32,
    pub streams: Vec<ChunkForwardTsnStream>,
}

} // verus!
