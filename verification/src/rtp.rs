//! The RTP values that telephone events travel with.

use std::sync::Arc;

use vstd::prelude::*;

use crate::time::Instant;

verus! {

/// An RTP payload type.
#[derive(Debug, Clone, Copy, PartialEq, Eq, Structural)]
pub struct Pt {
    pub number: u8,
}

impl From<u8> for Pt {
    fn from(number: u8) -> (r: Pt) {
        Pt { number }
    }
}

impl vstd::std_specs::convert::FromSpecImpl<u8> for Pt {
    open spec fn obeys_from_spec() -> bool {
        true
    }

    open spec fn from_spec(number: u8) -> Pt {
        Pt { number }
    }
}

/// A payload type made from a number has that number.
pub proof fn law_payload_type_of_number(number: u8)
    ensures
        <Pt as vstd::std_specs::convert::FromSpec<u8>>::obeys_from_spec(),
        <Pt as vstd::std_specs::convert::FromSpec<u8>>::from_spec(number).number == number,
{
}

/// Identifies a media description (m-line).
#[derive(Debug, Clone, Copy, PartialEq, Eq)]
pub struct Mid {
    pub id: [u8; 16],
}

/// Identifies an RTP stream within a media description.
#[derive(Debug, Clone, Copy, PartialEq, Eq)]
pub struct Rid {
    pub id: [u8; 8],
}

/// A clock rate.
#[derive(Debug, Clone, Copy, PartialEq, Eq, Structural)]
pub struct Frequency {
    /// Ticks per second.
    pub hz: u32,
}

impl Frequency {
    /// Ticks per second.
    pub fn get(&self) -> (r: u32)
        ensures
            r == self.hz,
    {
        self.hz
    }
}

/// A media time: a number of ticks of a clock.
#[derive(Debug, Clone, Copy, PartialEq, Eq, Structural)]
pub struct MediaTime {
    /// The number of ticks.
    pub numer: u64,
    /// The rate of the clock.
    pub frequency: Frequency,
}

impl MediaTime {
    /// The time of `numer` ticks at `frequency`.
    pub fn new(numer: u64, frequency: Frequency) -> (r: MediaTime)
        ensures
            r.numer == numer,
            r.frequency == frequency,
    {
        MediaTime { numer, frequency }
    }

    /// The number of ticks.
    pub fn numer(&self) -> (r: u64)
        ensures
            r == self.numer,
    {
        self.numer
    }

    /// The rate of the clock.
    pub fn frequency(&self) -> (r: Frequency)
        ensures
            r == self.frequency,
    {
        self.frequency
    }
}

/// RTP header extension elements, each an identifier with its data.
#[derive(Debug, Clone, PartialEq, Eq)]
pub struct ExtensionValues {
    pub elements: Vec<(u8, Vec<u8>)>,
}

impl Default for ExtensionValues {
    /// No element at all.
    fn default() -> (r: ExtensionValues)
        ensures
            r.elements@ == Seq::<(u8, Vec<u8>)>::empty(),
    {
        ExtensionValues { elements: Vec::new() }
    }
}

/// A payload that is ready to be put into an RTP packet.
#[derive(Debug, Clone, PartialEq, Eq)]
pub struct ToPayload {
    /// The payload type to send under.
    pub pt: Pt,
    /// The RTP stream to send on, if one is singled out.
    pub rid: Option<Rid>,
    /// When the packet is to be sent.
    pub wallclock: Instant,
    /// The RTP timestamp.
    pub rtp_time: MediaTime,
    /// Whether the packet carries the marker bit.
    pub start_of_talk_spurt: bool,
    /// The payload bytes.
    pub data: Arc<[u8]>,
    /// Header extension values.
    pub ext_vals: ExtensionValues,
}

} // verus!
