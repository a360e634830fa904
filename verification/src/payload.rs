//! The 4-byte payload of a `telephone-event` packet.

use vstd::prelude::*;

verus! {

/// A single telephone-event (RFC 4733) RTP payload.
///
/// ```text
///  0                   1                   2                   3
///  0 1 2 3 4 5 6 7 8 9 0 1 2 3 4 5 6 7 8 9 0 1 2 3 4 5 6 7 8 9 0 1
/// +-+-+-+-+-+-+-+-+-+-+-+-+-+-+-+-+-+-+-+-+-+-+-+-+-+-+-+-+-+-+-+-+
/// |     event     |E|R| volume    |          duration             |
/// +-+-+-+-+-+-+-+-+-+-+-+-+-+-+-+-+-+-+-+-+-+-+-+-+-+-+-+-+-+-+-+-+
/// ```
#[derive(Debug, Clone, Copy, PartialEq, Eq, Structural)]
pub struct TelephoneEventPayload {
    /// The event code (RFC 4733 section 2.5.1.1).
    pub event: u8,
    /// The end bit: set on the final packet(s) of an event (RFC 4733 section
    /// 2.5.1.3).
    pub end: bool,
    /// The volume of the event, in -dBm0 (0-63, RFC 4733 section 2.5.1.4).
    ///
    /// Only meaningful for DTMF events. Higher values are quieter.
    pub volume: u8,
    /// The duration of the event so far, in RTP timestamp units (samples at the
    /// payload clock rate).
    pub duration: u16,
}

/// The largest volume that the six volume bits can carry.
pub const MAX_VOLUME: u8 = 0x3f;

impl TelephoneEventPayload {
    /// The bytes of this payload on the wire: the event code, the end bit above
    /// the six volume bits with the reserved bit clear, and the duration in
    /// network byte order.
    pub open spec fn wire(self) -> Seq<u8> {
        seq![
            self.event,
            ((if self.end { 128int } else { 0 }) + self.volume % 64) as u8,
            (self.duration / 256) as u8,
            (self.duration % 256) as u8,
        ]
    }

    /// What the bytes of a payload mean. Four are needed; the reserved bit and
    /// whatever follows the first four bytes are ignored.
    pub open spec fn decoded(bytes: Seq<u8>) -> Option<TelephoneEventPayload> {
        if bytes.len() < 4 {
            None
        } else {
            Some(
                TelephoneEventPayload {
                    event: bytes[0],
                    end: bytes[1] >= 128,
                    volume: bytes[1] % 64,
                    duration: (bytes[2] * 256 + bytes[3]) as u16,
                },
            )
        }
    }

    /// Parses a telephone-event payload from the 4 payload bytes of an RTP packet.
    pub fn parse(buf: &[u8]) -> (r: Option<TelephoneEventPayload>)
        ensures
            r == TelephoneEventPayload::decoded(buf@),
            r is Some <==> buf@.len() >= 4,
            r matches Some(p) ==> {
                &&& p.event == buf@[0]
                &&& p.end <==> buf@[1] >= 128
                &&& p.volume == buf@[1] % 64
                &&& p.duration == buf@[2] * 256 + buf@[3]
            },
    {
        if buf.len() < 4 {
            return None;
        }
        let flags: u8 = buf[1];
        assert((flags & 0x80 != 0) == (flags >= 128)) by (bit_vector);
        assert(flags & 0x3f == flags % 64) by (bit_vector);
        Some(
            TelephoneEventPayload {
                event: buf[0],
                end: flags & 0x80 != 0,
                volume: flags & MAX_VOLUME,
                duration: buf[2] as u16 * 256 + buf[3] as u16,
            },
        )
    }

    /// Serializes this payload to its 4 wire bytes.
    pub fn to_bytes(&self) -> (r: [u8; 4])
        ensures
            r@ == self.wire(),
            r@[0] == self.event,
            r@[1] == (if self.end {
                128int
            } else {
                0
            }) + self.volume % 64,
            r@[2] == self.duration as int / 256,
            r@[3] == self.duration as int % 256,
    {
        let end: u8 = if self.end { 0x80 } else { 0x00 };
        let volume: u8 = self.volume;
        assert(end == 0 || end == 0x80 ==> end | (volume & 0x3f) == end + volume % 64)
            by (bit_vector);
        let bytes: [u8; 4] = [
            self.event,
            end | (volume & MAX_VOLUME),
            (self.duration / 256) as u8,
            (self.duration % 256) as u8,
        ];
        assert(bytes@ =~= self.wire());
        bytes
    }
}

/// What stands where on the wire: the event code in the first byte, the end bit
/// in the top bit of the second and the volume in its low six bits with the
/// reserved bit clear, and the duration, high byte first, in the last two.
pub proof fn law_wire_layout(p: TelephoneEventPayload)
    ensures
        p.wire().len() == 4,
        p.wire()[0] == p.event,
        p.wire()[1] >= 128 <==> p.end,
        p.wire()[1] % 64 == p.volume % 64,
        p.wire()[1] % 128 < 64,
        p.wire()[2] * 256 + p.wire()[3] == p.duration,
{
}

/// What is read from where: each field of a payload comes from its own bits of
/// the first four bytes, and from nothing else.
pub proof fn law_decoded_layout(bytes: Seq<u8>)
    ensures
        TelephoneEventPayload::decoded(bytes) is Some <==> bytes.len() >= 4,
        TelephoneEventPayload::decoded(bytes) matches Some(p) ==> {
            &&& p.event == bytes[0]
            &&& p.end <==> bytes[1] >= 128
            &&& p.volume == bytes[1] % 64
            &&& p.duration == bytes[2] * 256 + bytes[3]
        },
{
}

/// Parsing what was serialized gives the payload back, its volume reduced to
/// six bits, whatever bytes follow. A volume of at most 63 is kept as it is.
pub proof fn law_serialize_parse(p: TelephoneEventPayload, rest: Seq<u8>)
    ensures
        TelephoneEventPayload::decoded(p.wire() + rest) == Some(
            TelephoneEventPayload { volume: (p.volume % 64) as u8, ..p },
        ),
        p.volume <= MAX_VOLUME ==> TelephoneEventPayload::decoded(p.wire() + rest) == Some(p),
{
    assert((p.wire() + rest).take(4) =~= p.wire());
}

/// Serializing what was parsed gives the first four bytes back, with the
/// reserved bit of the second one cleared.
pub proof fn law_parse_serialize(bytes: Seq<u8>)
    requires
        bytes.len() >= 4,
    ensures
        TelephoneEventPayload::decoded(bytes) matches Some(p) && p.wire() == bytes.take(4).update(
            1,
            bytes[1] & 0xbf,
        ),
{
    let flags = bytes[1];
    assert(flags & 0xbf == (if flags >= 128 {
        128int
    } else {
        0
    }) + flags % 64) by (bit_vector);
    let p = TelephoneEventPayload::decoded(bytes)->0;
    assert(p.wire() =~= bytes.take(4).update(1, flags & 0xbf));
}

/// Parsing fails exactly on fewer than four bytes, and what it reads is a
/// volume that fits its six bits.
pub proof fn law_parse_total(bytes: Seq<u8>)
    ensures
        TelephoneEventPayload::decoded(bytes) is None <==> bytes.len() < 4,
        TelephoneEventPayload::decoded(bytes) matches Some(p) ==> p.volume <= MAX_VOLUME,
{
}

} // verus!
