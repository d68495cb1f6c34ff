//! A feedback that records the length of each packet input, and the
//! corpus-minimizer factor that favours short packets.
use vstd::prelude::*;

verus! {

/// The length of the packet a corpus entry holds.
#[derive(Clone, Copy, Debug, PartialEq, Eq, Structural)]
pub struct PacketLenMetadata {
    pub length: u64,
}

/// Favours corpus entries by packet length.
pub struct PacketLenFavFactor {}

impl PacketLenFavFactor {
    /// The factor of an entry: its packet length, 1 when it has none recorded.
    pub fn compute(metadata: Option<&PacketLenMetadata>) -> (r: u64)
        ensures
            r == match metadata {
                Some(m) => m.length,
                None => 1,
            },
    {
        match metadata {
            Some(m) => m.length,
            None => 1,
        }
    }
}

/// Records the length of the last input it saw; never marks an input interesting.
#[derive(Clone, Debug)]
pub struct PacketLenFeedback {
    len: u64,
}

impl PacketLenFeedback {
    pub closed spec fn last_len(&self) -> u64 {
        self.len
    }

    /// A feedback that has seen no input.
    pub fn new() -> (r: Self)
        ensures
            r.last_len() == 0,
    {
        PacketLenFeedback { len: 0 }
    }

    /// Records the length of the input's packet. No input is interesting by its length.
    pub fn is_interesting(&mut self, input_length: u64) -> (r: bool)
        ensures
            !r,
            final(self).last_len() == input_length,
    {
        self.len = input_length;
        false
    }

    /// The metadata to attach to an input kept in the corpus.
    pub fn append_metadata(&self) -> (r: PacketLenMetadata)
        ensures
            r.length == self.last_len(),
    {
        PacketLenMetadata { length: self.len }
    }

    /// Nothing to forget when an input is not kept.
    pub fn discard_metadata(&mut self)
        ensures
            final(self).last_len() == old(self).last_len(),
    {
    }

    /// The feedback's name.
    pub fn name(&self) -> (r: &'static str)
        ensures
            r@ == "PacketLenFeedback"@,
    {
        "PacketLenFeedback"
    }
}

impl Default for PacketLenFeedback {
    fn default() -> (r: Self)
        ensures
            r.last_len() == 0,
    {
        Self::new()
    }
}

} // verus!
