//! Generation of the packet series of outgoing tones.

use std::collections::VecDeque;
use std::sync::Arc;

use vstd::arithmetic::div_mod::{
    lemma_div_by_multiple, lemma_div_pos_is_pos, lemma_fundamental_div_mod,
};
use vstd::arithmetic::mul::{
    lemma_mul_inequality, lemma_mul_is_commutative, lemma_mul_is_distributive_add_other_way,
    lemma_mul_nonnegative,
};
use vstd::math::{max, min};
use vstd::prelude::*;

use crate::payload::{TelephoneEventPayload, MAX_VOLUME};
use crate::rtp::{ExtensionValues, Frequency, MediaTime, Pt, ToPayload};
use crate::time::{Duration, Instant};

verus! {

/// Number of times the final packet of an event (with the end bit set) is sent.
///
/// RFC 4733 section 2.5.1.4 recommends resending the final packet for robustness.
pub const END_PACKET_REPEATS: u8 = 3;

/// Per-packet interval of a DTMF tone (its ptime), in milliseconds.
pub const PACKET_INTERVAL_MILLIS: u64 = 20;

/// Default volume of a DTMF tone, in -dBm0 (RFC 4733 section 2.5.2.1).
pub const DEFAULT_VOLUME: u8 = 10;

/// Default volume for callers that send a tone without choosing one.
pub fn default_volume() -> (r: u8)
    ensures
        r == DEFAULT_VOLUME,
        r == 10,
{
    DEFAULT_VOLUME
}

/// The nanoseconds between two packets of a tone.
pub open spec fn packet_interval() -> nat {
    (PACKET_INTERVAL_MILLIS * 1_000_000) as nat
}

/// The samples that `micros` microseconds span at `hz` samples per second,
/// rounded down, but never none.
pub open spec fn samples(micros: int, hz: int) -> int {
    max(1, micros * hz / 1_000_000)
}

/// The microseconds of a span, as the 64-bit count that sampling works on.
pub open spec fn micros64(duration: Duration) -> int {
    (duration@ / 1_000) as int % 0x1_0000_0000_0000_0000
}

/// One packet of a tone.
pub struct Packet {
    pub pt: Pt,
    /// When the packet is due, in nanoseconds.
    pub due: int,
    /// The RTP timestamp.
    pub rtp_time: MediaTime,
    /// Whether the packet carries the marker bit.
    pub marker: bool,
    pub payload: TelephoneEventPayload,
}

/// A tone, as far as its packets depend on it.
pub struct Tone {
    pub pt: Pt,
    pub event: u8,
    pub volume: u8,
    /// The duration of the whole tone in samples.
    pub total: nat,
    /// The samples by which the reported duration grows from packet to packet.
    pub step: nat,
    /// The RTP timestamp that all the packets share.
    pub rtp_time: MediaTime,
    /// When the first packet is due, in nanoseconds.
    pub start: nat,
    /// The nanoseconds between two packets.
    pub interval: nat,
}

impl Tone {
    /// The tone that a sender plays for the given request. The total is a
    /// 32-bit count of samples.
    pub open spec fn requested(
        pt: Pt,
        rtp_time: MediaTime,
        wallclock: Instant,
        event: u8,
        volume: u8,
        duration: Duration,
        clock_rate: Frequency,
    ) -> Tone {
        Tone {
            pt,
            event,
            volume: min(volume as int, MAX_VOLUME as int) as u8,
            total: (samples(micros64(duration), clock_rate.hz as int) % 0x1_0000_0000) as nat,
            step: samples((PACKET_INTERVAL_MILLIS * 1_000) as int, clock_rate.hz as int) as nat,
            rtp_time,
            start: wallclock@,
            interval: packet_interval(),
        }
    }

    /// The number of packets sent before the tone reaches its full duration:
    /// one for each whole step that falls short of the total.
    pub open spec fn playing(self) -> int {
        if self.total == 0 || self.step == 0 {
            0
        } else {
            (self.total - 1) / self.step as int
        }
    }

    /// The duration in samples that the tone has reached with packet `i`.
    pub open spec fn reached(self, i: int) -> int {
        min((i + 1) * self.step, self.total as int)
    }

    /// Packet `i` of the tone.
    pub open spec fn packet(self, i: int) -> Packet {
        Packet {
            pt: self.pt,
            due: self.start + i * self.interval,
            rtp_time: self.rtp_time,
            marker: i == 0,
            payload: TelephoneEventPayload {
                event: self.event,
                end: self.reached(i) == self.total,
                volume: self.volume,
                duration: min(self.reached(i), u16::MAX as int) as u16,
            },
        }
    }

    /// All the packets of the tone: those sent while it plays, and the end
    /// packet with its repetitions.
    pub open spec fn series(self) -> Seq<Packet> {
        Seq::new((self.playing() + END_PACKET_REPEATS) as nat, |i: int| self.packet(i))
    }
}

/// The reported duration of the tone advances from packet to packet, and its
/// volume fits its six bits.
pub open spec fn playable(tone: Tone) -> bool {
    tone.step >= 1 && tone.volume <= MAX_VOLUME
}

/// The packets of tones that are played one after the other.
pub open spec fn packets_of(tones: Seq<Tone>) -> Seq<Packet>
    decreases tones.len(),
{
    if tones.len() == 0 {
        Seq::empty()
    } else {
        packets_of(tones.drop_last()) + tones.last().series()
    }
}

/// The pending packets are what is left of a tone from its packet `k` on,
/// followed by tones of which nothing has been sent. The third end packet of a
/// tone is the last packet of its series.
pub open spec fn plays(pending: Seq<Packet>, tone: Tone, k: int, queued: Seq<Tone>) -> bool {
    &&& playable(tone)
    &&& tone.interval == packet_interval()
    &&& 0 <= k < tone.series().len()
    &&& pending == tone.series().skip(k) + packets_of(queued)
}

/// The packets that are left once the first of those that [`plays`] describes
/// has been sent.
pub open spec fn rest_of(tone: Tone, k: int, queued: Seq<Tone>) -> Seq<Packet> {
    tone.series().skip(k + 1) + packets_of(queued)
}

impl ToPayload {
    /// This payload is the given packet, on no particular stream and without
    /// header extensions.
    pub open spec fn carries(self, packet: Packet) -> bool {
        &&& self.pt == packet.pt
        &&& self.rid is None
        &&& self.wallclock@ == packet.due
        &&& self.rtp_time == packet.rtp_time
        &&& self.start_of_talk_spurt == packet.marker
        &&& (*self.data)@ == packet.payload.wire()
        &&& self.ext_vals.elements@.len() == 0
    }
}

/// A tone queued for sending by [`DtmfSender`].
#[derive(Debug)]
struct QueuedTone {
    pt: Pt,
    event: u8,
    volume: u8,
    /// The full duration of the tone in samples at the clock rate.
    total_samples: u32,
    /// The number of samples each packet advances the duration.
    step_samples: u32,
    /// RTP timestamp shared by every packet of this tone.
    rtp_time: MediaTime,
    /// Intended send time of the first packet.
    start: Instant,
    /// The per-packet interval.
    interval: Duration,
}

impl QueuedTone {
    #[verifier::type_invariant]
    spec fn wf(self) -> bool {
        &&& playable(self.tone())
        &&& self.interval@ == packet_interval()
    }

    spec fn tone(self) -> Tone {
        Tone {
            pt: self.pt,
            event: self.event,
            volume: self.volume,
            total: self.total_samples as nat,
            step: self.step_samples as nat,
            rtp_time: self.rtp_time,
            start: self.start@,
            interval: self.interval@,
        }
    }
}

/// The tone currently being transmitted by [`DtmfSender`].
#[derive(Debug)]
struct ActiveTone {
    tone: QueuedTone,
    /// Total number of packets emitted so far (for the marker on the first).
    packets: u32,
    /// Current event duration in samples (grows while playing, capped at total).
    duration: u32,
    /// Whether the tone has reached its full duration.
    ended: bool,
    /// Number of end packets (end bit set) emitted so far.
    end_sent: u8,
    /// When the next packet is due.
    next_at: Instant,
}

impl ActiveTone {
    /// The position of the next packet in the series of the tone.
    spec fn position(self) -> int {
        if self.ended {
            self.tone.tone().playing() + self.end_sent
        } else {
            self.duration as int / self.tone.step_samples as int
        }
    }

    #[verifier::type_invariant]
    spec fn wf(self) -> bool {
        &&& self.tone.wf()
        &&& self.next_at@ == self.tone.start@ + self.position() * self.tone.interval@
        &&& self.packets == 0 <==> self.position() == 0
        &&& if self.ended {
            &&& self.duration == self.tone.total_samples
            &&& 1 <= self.end_sent < END_PACKET_REPEATS
        } else {
            &&& self.duration == self.position() * self.tone.step_samples
            &&& self.duration == 0 || self.duration < self.tone.total_samples
            &&& self.end_sent == 0
        }
    }

    /// The packets of the tone that are still to be sent.
    spec fn remaining(self) -> Seq<Packet> {
        self.tone.tone().series().skip(self.position())
    }

    /// There is a packet left, and it is due at `next_at`.
    proof fn lemma_next(self)
        requires
            self.wf(),
        ensures
            0 <= self.position() < self.tone.tone().series().len(),
            self.remaining()[0] == self.tone.tone().packet(self.position()),
            self.remaining()[0].due == self.next_at@,
    {
        let tone = self.tone.tone();
        lemma_div_pos_is_pos(self.duration as int, self.tone.step_samples as int);
        lemma_playing(tone, 0);
        if self.position() > 0 {
            lemma_playing(tone, self.position() - 1);
        }
    }

    /// The tone with nothing of it sent yet.
    fn begin(tone: QueuedTone) -> (r: ActiveTone)
        ensures
            r.wf(),
            r.remaining() == tone.tone().series(),
    {
        proof {
            use_type_invariant(&tone);
            lemma_playing(tone.tone(), 0);
        }
        let next_at: Instant = tone.start;
        let active = ActiveTone {
            tone,
            packets: 0,
            duration: 0,
            ended: false,
            end_sent: 0,
            next_at,
        };
        assert(active.remaining() =~= tone.tone().series());
        active
    }

    /// The next packet of the tone, and what is left of the tone after it.
    fn advance(self) -> (r: (ToPayload, Option<ActiveTone>))
        requires
            self.next_at@ + packet_interval() <= u128::MAX,
        ensures
            r.0.carries(self.remaining()[0]),
            match r.1 {
                Some(rest) => rest.wf() && rest.remaining() == self.remaining().drop_first(),
                None => self.remaining().len() == 1,
            },
    {
        proof {
            use_type_invariant(&self);
        }
        let ghost tone: Tone = self.tone.tone();
        let ghost at: int = self.position();
        proof {
            lemma_div_pos_is_pos(self.duration as int, self.tone.step_samples as int);
            lemma_playing(tone, 0);
            lemma_playing(tone, at);
            lemma_playing(tone, at + 1);
            if at > 0 {
                lemma_playing(tone, at - 1);
            }
        }
        let first: bool = self.packets == 0;

        // The packet at which the duration first reaches the total is the first
        // end packet; it is then repeated for robustness (RFC 4733 section
        // 2.5.1.4).
        let mut duration: u32 = self.duration;
        let mut ended: bool = self.ended;
        let mut end_sent: u8 = self.end_sent;
        let last: bool;
        if !ended {
            duration = duration.saturating_add(self.tone.step_samples).min(
                self.tone.total_samples,
            );
            if duration >= self.tone.total_samples {
                ended = true;
                end_sent = 1;
                last = END_PACKET_REPEATS <= 1;
            } else {
                last = false;
            }
        } else {
            end_sent = end_sent.saturating_add(1);
            last = end_sent >= END_PACKET_REPEATS;
        }
        assert(duration == tone.reached(at));
        assert(ended == (tone.reached(at) == tone.total));

        let payload = TelephoneEventPayload {
            event: self.tone.event,
            end: ended,
            volume: self.tone.volume,
            duration: duration.min(0xffff) as u16,
        };
        let bytes: [u8; 4] = payload.to_bytes();
        let to_payload = ToPayload {
            pt: self.tone.pt,
            rid: None,
            wallclock: self.next_at,
            rtp_time: self.tone.rtp_time,
            start_of_talk_spurt: first,
            data: shared(bytes.as_slice()),
            ext_vals: ExtensionValues::default(),
        };
        assert(to_payload.carries(tone.packet(at)));

        // Advance schedule.
        let packets: u32 = self.packets.saturating_add(1);
        let next_at: Instant = self.next_at.plus(self.tone.interval);
        if last {
            return (to_payload, None);
        }
        assert(ended ==> at + 1 == tone.playing() + end_sent);
        assert(!ended ==> duration == (at + 1) * self.tone.step_samples);
        let rest = ActiveTone { tone: self.tone, packets, duration, ended, end_sent, next_at };
        assert(rest.remaining() =~= self.remaining().drop_first());
        (to_payload, Some(rest))
    }
}

/// What `playing` counts: the steps that fall short of the total.
proof fn lemma_playing(tone: Tone, i: int)
    requires
        tone.step >= 1,
        i >= 0,
    ensures
        0 <= tone.playing(),
        tone.reached(i) == tone.total <==> i >= tone.playing(),
        i * tone.step / (tone.step as int) == i,
        (i + 1) * tone.step == i * tone.step + tone.step,
        (i + 1) * tone.interval == i * tone.interval + tone.interval,
{
    let step = tone.step as int;
    let playing = tone.playing();
    lemma_div_by_multiple(i, step);
    lemma_mul_is_distributive_add_other_way(step, i, 1);
    lemma_mul_is_distributive_add_other_way(tone.interval as int, i, 1);
    if tone.total == 0 {
        lemma_mul_nonnegative(i + 1, step);
    } else {
        lemma_fundamental_div_mod(tone.total - 1, step);
        lemma_div_pos_is_pos(tone.total - 1, step);
        assert((playing + 1) * step == playing * step + step) by (nonlinear_arith);
        assert(playing * step <= tone.total - 1 < (playing + 1) * step) by {
            lemma_mul_is_commutative(playing, step);
        }
        if i >= playing {
            lemma_mul_inequality(playing + 1, i + 1, step);
        } else {
            lemma_mul_inequality(i + 1, playing, step);
        }
    }
}

/// There is no tone without packets.
proof fn lemma_series_is_not_empty(tone: Tone)
    ensures
        tone.playing() >= 0,
        tone.series().len() > 0,
{
    if tone.total > 0 && tone.step > 0 {
        lemma_div_pos_is_pos(tone.total - 1, tone.step as int);
    }
}

/// The packets of the first tone come first.
proof fn lemma_packets_of_front(tones: Seq<Tone>)
    requires
        tones.len() > 0,
    ensures
        packets_of(tones) == tones[0].series() + packets_of(tones.drop_first()),
    decreases tones.len(),
{
    if tones.len() == 1 {
        assert(tones.drop_last() =~= tones.drop_first());
        assert(packets_of(tones.drop_first()) =~= Seq::empty());
        assert(packets_of(tones) =~= tones[0].series());
    } else {
        lemma_packets_of_front(tones.drop_last());
        assert(tones.drop_last().drop_first() =~= tones.drop_first().drop_last());
        assert(packets_of(tones) =~= tones[0].series() + packets_of(tones.drop_first()));
    }
}

/// The samples that a span covers at a clock rate, as a 32-bit count.
fn sample_count(span: Duration, clock_rate: Frequency) -> (r: u32)
    requires
        micros64(span) * clock_rate.hz <= u64::MAX,
    ensures
        r == samples(micros64(span), clock_rate.hz as int) % 0x1_0000_0000,
{
    let hz: u64 = clock_rate.get() as u64;
    let span_micros: u128 = span.as_micros();
    let micros: u64 = #[verifier::truncate] (span_micros as u64);
    assert(span_micros as u64 == span_micros % 0x1_0000_0000_0000_0000) by (bit_vector);
    let count: u64 = (micros * hz / 1_000_000).max(1);
    assert(count as u32 == count % 0x1_0000_0000) by (bit_vector);
    #[verifier::truncate] (count as u32)
}

/// Copies bytes into a reference-counted slice with `Arc::from`. The slice
/// holds the same bytes in the same order.
#[verifier::external_body]
fn shared(bytes: &[u8]) -> (r: Arc<[u8]>)
    ensures
        (*r)@ == bytes@,
{
    Arc::from(bytes)
}

/// Generates the RTP packet series for outgoing DTMF tones (RFC 4733).
///
/// Tones are played back-to-back in the order they are queued. Each tone is
/// emitted as a series of packets that share an RTP timestamp and carry a
/// growing duration, with the marker bit on the first packet and the final
/// packet repeated with the end bit set.
///
/// A sender is viewed as the packets that it has still to send, in order.
#[derive(Debug)]
pub struct DtmfSender {
    queue: VecDeque<QueuedTone>,
    active: Option<ActiveTone>,
}

impl View for DtmfSender {
    type V = Seq<Packet>;

    closed spec fn view(&self) -> Seq<Packet> {
        let queued = packets_of(self.queue@.map_values(|t: QueuedTone| t.tone()));
        match self.active {
            Some(active) => active.remaining() + queued,
            None => queued,
        }
    }
}

/// Whether the first of the pending packets is due at `now`.
pub open spec fn is_due(pending: Seq<Packet>, now: Instant) -> bool {
    pending.len() > 0 && pending[0].due <= now@
}

impl Default for DtmfSender {
    /// A sender with nothing to send.
    fn default() -> (r: DtmfSender)
        ensures
            r@ == Seq::<Packet>::empty(),
            r@.len() == 0,
    {
        DtmfSender { queue: VecDeque::new(), active: None }
    }
}

impl DtmfSender {
    /// Queues a DTMF tone for sending.
    ///
    /// The number of microseconds times the clock rate must fit in 64 bits.
    pub fn push(
        &mut self,
        pt: Pt,
        rtp_time: MediaTime,
        wallclock: Instant,
        event: u8,
        volume: u8,
        duration: Duration,
        clock_rate: Frequency,
    )
        requires
            micros64(duration) * clock_rate.hz <= u64::MAX,
        ensures
            final(self)@ == old(self)@ + Tone::requested(
                pt,
                rtp_time,
                wallclock,
                event,
                volume,
                duration,
                clock_rate,
            ).series(),
            // What was pending stays in place.
            final(self)@.len() >= old(self)@.len() + 3,
            forall|j: int|
                0 <= j < old(self)@.len() ==> #[trigger] final(self)@[j] == old(self)@[j],
            // Every packet behind it carries what was asked for, 20 milliseconds
            // and one step after the packet before it.
            forall|j: int|
                old(self)@.len() <= j < final(self)@.len() ==> {
                    let i = j - old(self)@.len();
                    let micros = (duration.nanos as int / 1_000) % 0x1_0000_0000_0000_0000;
                    let asked = micros * clock_rate.hz / 1_000_000;
                    let total = (if asked < 1 {
                        1
                    } else {
                        asked
                    }) % 0x1_0000_0000;
                    let per_packet = 20_000 * clock_rate.hz / 1_000_000;
                    let step = if per_packet < 1 {
                        1
                    } else {
                        per_packet
                    };
                    let packet = #[trigger] final(self)@[j];
                    &&& packet.pt == pt
                    &&& packet.rtp_time.numer == rtp_time.numer
                    &&& packet.rtp_time.frequency.hz == rtp_time.frequency.hz
                    &&& packet.due == wallclock.nanos + i * 20_000_000
                    &&& packet.marker <==> i == 0
                    &&& packet.payload.event == event
                    &&& packet.payload.volume == (if volume < 63 {
                        volume
                    } else {
                        63
                    })
                    &&& packet.payload.end <==> (i + 1) * step >= total
                    &&& packet.payload.duration == (if total > 65535 && (i + 1) * step > 65535 {
                        65535
                    } else if (i + 1) * step < total {
                        (i + 1) * step
                    } else {
                        total
                    })
                    &&& packet.payload.end <==> j >= final(self)@.len() - 3
                },
    {
        let ghost before: Seq<Packet> = self@;
        let total_samples: u32 = sample_count(duration, clock_rate);

        let interval: Duration = Duration::from_millis(PACKET_INTERVAL_MILLIS);
        assert(20_000 * clock_rate.hz / 1_000_000 <= 20_000 * 0xffff_ffff / 1_000_000);
        let step_samples: u32 = sample_count(interval, clock_rate);

        let ghost tones: Seq<Tone> = self.queue@.map_values(|t: QueuedTone| t.tone());
        let tone = QueuedTone {
            pt,
            event,
            volume: volume.min(MAX_VOLUME),
            total_samples,
            step_samples,
            rtp_time,
            start: wallclock,
            interval,
        };
        self.queue.push_back(tone);
        proof {
            let after = self.queue@.map_values(|t: QueuedTone| t.tone());
            assert(after =~= tones.push(tone.tone()));
            assert(after.drop_last() =~= tones);
            let asked = Tone::requested(
                pt,
                rtp_time,
                wallclock,
                event,
                volume,
                duration,
                clock_rate,
            );
            assert(tone.tone() == asked);
            assert(self@ =~= before + asked.series());
            law_series_length(asked);
            assert forall|i: int| 0 <= i < asked.series().len() implies (
            #[trigger] asked.series()[i]).payload.end == (i >= asked.series().len() - 3) by {
                law_series_shape(asked, i);
            }
        }
    }

    /// The next time [`DtmfSender::poll`] should be called, if any packet is
    /// pending.
    pub fn poll_timeout(&self) -> (r: Option<Instant>)
        ensures
            match r {
                Some(at) => {
                    &&& self@.len() > 0
                    &&& at@ == self@[0].due
                    &&& at.nanos == self@[0].due
                    &&& exists|tone: Tone, k: int, queued: Seq<Tone>|
                        plays(self@, tone, k, queued)
                },
                None => self@.len() == 0,
            },
    {
        if let Some(active) = &self.active {
            proof {
                use_type_invariant(active);
                active.lemma_next();
                let tones = self.queue@.map_values(|t: QueuedTone| t.tone());
                assert(plays(self@, active.tone.tone(), active.position(), tones));
            }
            return Some(active.next_at);
        }
        // A queued but not-yet-active tone becomes active at its start time.
        if self.queue.len() > 0 {
            let tone: &QueuedTone = &self.queue[0];
            proof {
                use_type_invariant(tone);
                let tones = self.queue@.map_values(|t: QueuedTone| t.tone());
                lemma_packets_of_front(tones);
                lemma_playing(tone.tone(), 0);
                assert(tone.tone().series().skip(0) =~= tone.tone().series());
                assert(plays(self@, tone.tone(), 0, tones.drop_first()));
            }
            return Some(tone.start);
        }
        None
    }

    /// Produces the next due telephone-event payload, if one is ready at `now`.
    ///
    /// Returns `None` when nothing is due yet or there are no pending tones. The
    /// instant one packet interval after a packet that is due must be
    /// representable.
    pub fn poll(&mut self, now: Instant) -> (r: Option<ToPayload>)
        requires
            is_due(old(self)@, now) ==> old(self)@[0].due + packet_interval() <= u128::MAX,
        ensures
            match r {
                Some(payload) => {
                    &&& is_due(old(self)@, now)
                    &&& old(self)@.len() > 0
                    &&& old(self)@[0].due <= now.nanos
                    &&& payload.carries(old(self)@[0])
                    &&& payload.pt == old(self)@[0].pt
                    &&& payload.rid is None
                    &&& payload.wallclock.nanos == old(self)@[0].due
                    &&& payload.rtp_time == old(self)@[0].rtp_time
                    &&& payload.start_of_talk_spurt == old(self)@[0].marker
                    &&& payload.ext_vals.elements@.len() == 0
                    &&& (*payload.data)@.len() == 4
                    &&& (*payload.data)@[0] == old(self)@[0].payload.event
                    &&& (*payload.data)@[1] == (if old(self)@[0].payload.end {
                        128int
                    } else {
                        0
                    }) + old(self)@[0].payload.volume % 64
                    &&& (*payload.data)@[2] == old(self)@[0].payload.duration as int / 256
                    &&& (*payload.data)@[3] == old(self)@[0].payload.duration as int % 256
                    &&& final(self)@ == old(self)@.drop_first()
                    &&& exists|tone: Tone, k: int, queued: Seq<Tone>|
                        #[trigger] plays(old(self)@, tone, k, queued) && final(self)@ == rest_of(
                            tone,
                            k,
                            queued,
                        )
                    &&& final(self)@.len() > 0 && !final(self)@[0].marker ==> final(self)@[0].due
                        == old(self)@[0].due + packet_interval()
                    &&& final(self)@.len() == 0 || final(self)@[0].marker ==> old(
                        self,
                    )@[0].payload.end
                },
                None => {
                    &&& !is_due(old(self)@, now)
                    &&& old(self)@.len() > 0 ==> now.nanos < old(self)@[0].due
                    &&& final(self)@ == old(self)@
                },
            },
    {
        let ghost before: Seq<Packet> = self@;
        let ghost tones: Seq<Tone> = self.queue@.map_values(|t: QueuedTone| t.tone());
        // Activate the next queued tone if nothing is playing.
        let active: ActiveTone = match self.active.take() {
            Some(active) => active,
            None => match self.queue.pop_front() {
                Some(tone) => {
                    proof {
                        lemma_packets_of_front(tones);
                        assert(tones.drop_first() =~= self.queue@.map_values(
                            |t: QueuedTone| t.tone(),
                        ));
                    }
                    ActiveTone::begin(tone)
                },
                None => return None,
            },
        };
        let ghost queued: Seq<Tone> = self.queue@.map_values(|t: QueuedTone| t.tone());
        let ghost tone: Tone = active.tone.tone();
        let ghost k: int = active.position();
        assert(before == active.remaining() + packets_of(queued));
        proof {
            use_type_invariant(&active);
            active.lemma_next();
            assert(plays(before, tone, k, queued));
        }
        if now.nanos < active.next_at.nanos {
            self.active = Some(active);
            return None;
        }
        let (payload, rest) = active.advance();
        self.active = rest;
        assert(self@ =~= before.drop_first());
        proof {
            assert(before.drop_first() =~= rest_of(tone, k, queued));
            law_cadence(before, tone, k, queued);
        }
        Some(payload)
    }
}

/// A requested tone has a volume that fits its six bits, advances by at least
/// one sample per packet, and sends a packet every 20 milliseconds. Unless the
/// count outgrows 32 bits, its total is the duration in samples rounded down,
/// and at least one.
pub proof fn law_requested_tone(
    pt: Pt,
    rtp_time: MediaTime,
    wallclock: Instant,
    event: u8,
    volume: u8,
    duration: Duration,
    clock_rate: Frequency,
)
    ensures
        ({
            let tone = Tone::requested(
                pt,
                rtp_time,
                wallclock,
                event,
                volume,
                duration,
                clock_rate,
            );
            let micros = duration@ / 1_000;
            &&& tone.volume <= MAX_VOLUME
            &&& volume <= MAX_VOLUME ==> tone.volume == volume
            &&& 1 <= tone.step <= u32::MAX
            &&& tone.interval == 20_000_000
            &&& micros <= u64::MAX && micros * clock_rate.hz / 1_000_000 <= u32::MAX ==> {
                &&& tone.total == max(1, micros * clock_rate.hz / 1_000_000)
                &&& tone.total >= 1
            }
        }),
{
}

/// How the requested values are taken over: the microseconds of the duration
/// count modulo 64 bits, its samples modulo 32 bits and from one upwards, and
/// the rest is as it was asked for.
pub proof fn law_requested_values(
    pt: Pt,
    rtp_time: MediaTime,
    wallclock: Instant,
    event: u8,
    volume: u8,
    duration: Duration,
    clock_rate: Frequency,
)
    ensures
        micros64(duration) == (duration.nanos as int / 1_000) % 0x1_0000_0000_0000_0000,
        packet_interval() == 20_000_000,
        ({
            let tone = Tone::requested(
                pt,
                rtp_time,
                wallclock,
                event,
                volume,
                duration,
                clock_rate,
            );
            let micros = (duration.nanos as int / 1_000) % 0x1_0000_0000_0000_0000;
            let asked = micros * clock_rate.hz / 1_000_000;
            let per_packet = 20_000 * clock_rate.hz / 1_000_000;
            &&& tone.pt == pt
            &&& tone.rtp_time.numer == rtp_time.numer
            &&& tone.rtp_time.frequency.hz == rtp_time.frequency.hz
            &&& tone.event == event
            &&& tone.volume == (if volume < 63 {
                volume
            } else {
                63
            })
            &&& tone.start == wallclock.nanos
            &&& tone.interval == 20_000_000
            &&& tone.total == (if asked < 1 {
                1
            } else {
                asked
            }) % 0x1_0000_0000
            &&& tone.step == (if per_packet < 1 {
                1
            } else {
                per_packet
            })
        }),
{
}

/// Every packet of a tone, be it played or an end packet, reports one step more
/// than the one before it, up to the total and up to 16 bits, and it is an end
/// packet exactly if its steps cover the total. It is due one interval after
/// the one before it and carries what the tone carries.
pub proof fn law_series_exact(tone: Tone, i: int)
    requires
        tone.step >= 1,
        0 <= i < tone.series().len(),
    ensures
        tone.series()[i].pt == tone.pt,
        tone.series()[i].rtp_time == tone.rtp_time,
        tone.series()[i].due == tone.start + i * tone.interval,
        tone.series()[i].marker <==> i == 0,
        tone.series()[i].payload.event == tone.event,
        tone.series()[i].payload.volume == tone.volume,
        tone.series()[i].payload.end <==> (i + 1) * tone.step >= tone.total,
        tone.series()[i].payload.duration <= 65535,
        tone.series()[i].payload.duration <= tone.total,
        tone.series()[i].payload.duration <= (i + 1) * tone.step,
        tone.series()[i].payload.duration == 65535 || tone.series()[i].payload.duration
            == tone.total || tone.series()[i].payload.duration == (i + 1) * tone.step,
{
    lemma_playing(tone, i);
    lemma_mul_nonnegative(i + 1, tone.step as int);
}

/// No packet of a tone reports more than one step beyond the packet before it,
/// and none but an end packet, or one at the 16-bit limit, reports less.
pub proof fn law_series_grows_by_steps(tone: Tone, i: int)
    requires
        tone.step >= 1,
        0 <= i < tone.series().len() - 1,
    ensures
        tone.series()[i].payload.duration <= tone.series()[i + 1].payload.duration,
        tone.series()[i + 1].payload.duration <= tone.series()[i].payload.duration + tone.step,
        !tone.series()[i + 1].payload.end && tone.series()[i + 1].payload.duration < 65535
            ==> tone.series()[i + 1].payload.duration == tone.series()[i].payload.duration
            + tone.step,
        tone.series()[i + 1].due == tone.series()[i].due + tone.interval,
        tone.series()[i].payload.end ==> tone.series()[i + 1].payload.end,
{
    lemma_playing(tone, i);
    lemma_playing(tone, i + 1);
    lemma_mul_nonnegative(i + 1, tone.step as int);
}

/// What a sender is asked to play is what its packets carry: each field of each
/// packet comes from the request.
pub proof fn law_requested_packets(
    pt: Pt,
    rtp_time: MediaTime,
    wallclock: Instant,
    event: u8,
    volume: u8,
    duration: Duration,
    clock_rate: Frequency,
    i: int,
)
    requires
        0 <= i < Tone::requested(
            pt,
            rtp_time,
            wallclock,
            event,
            volume,
            duration,
            clock_rate,
        ).series().len(),
    ensures
        ({
            let packet = Tone::requested(
                pt,
                rtp_time,
                wallclock,
                event,
                volume,
                duration,
                clock_rate,
            ).series()[i];
            let micros = (duration.nanos as int / 1_000) % 0x1_0000_0000_0000_0000;
            let asked = micros * clock_rate.hz / 1_000_000;
            let total = (if asked < 1 {
                1
            } else {
                asked
            }) % 0x1_0000_0000;
            let per_packet = 20_000 * clock_rate.hz / 1_000_000;
            let step = if per_packet < 1 {
                1
            } else {
                per_packet
            };
            &&& packet.pt == pt
            &&& packet.rtp_time.numer == rtp_time.numer
            &&& packet.rtp_time.frequency.hz == rtp_time.frequency.hz
            &&& packet.due == wallclock.nanos + i * 20_000_000
            &&& packet.marker <==> i == 0
            &&& packet.payload.event == event
            &&& packet.payload.volume == (if volume < 63 {
                volume
            } else {
                63
            })
            &&& packet.payload.end <==> (i + 1) * step >= total
            &&& packet.payload.duration == (if total > 65535 && (i + 1) * step > 65535 {
                65535
            } else if (i + 1) * step < total {
                (i + 1) * step
            } else {
                total
            })
        }),
{
    let tone = Tone::requested(pt, rtp_time, wallclock, event, volume, duration, clock_rate);
    law_requested_values(pt, rtp_time, wallclock, event, volume, duration, clock_rate);
    law_series_exact(tone, i);
    law_series_durations(tone, i);
}

/// A tone has one packet for each step that falls short of its total, and three
/// end packets: the steps before the first end packet do not cover the total,
/// and with it they do.
pub proof fn law_series_length(tone: Tone)
    requires
        tone.step >= 1,
    ensures
        tone.playing() >= 0,
        tone.series().len() == tone.playing() + 3,
        tone.series().len() >= 3,
        (tone.series().len() - 2) * tone.step >= tone.total,
        tone.series().len() > 3 ==> (tone.series().len() - 3) * tone.step < tone.total,
{
    lemma_playing(tone, 0);
    lemma_playing(tone, tone.playing());
    if tone.playing() > 0 {
        lemma_playing(tone, tone.playing() - 1);
    }
}

/// The packets of a tone share its payload type, RTP timestamp, event code and
/// volume. The first one alone carries the marker, and the last three alone the
/// end bit.
pub proof fn law_series_shape(tone: Tone, i: int)
    requires
        tone.step >= 1,
        0 <= i < tone.series().len(),
    ensures
        tone.series()[i].pt == tone.pt,
        tone.series()[i].rtp_time == tone.rtp_time,
        tone.series()[i].payload.event == tone.event,
        tone.series()[i].payload.volume == tone.volume,
        tone.series()[i].marker <==> i == 0,
        tone.series()[i].payload.end <==> i >= tone.series().len() - 3,
{
    lemma_playing(tone, 0);
    lemma_playing(tone, i);
}

/// The reported duration grows by one step with each packet while the tone
/// plays, short of the total, and the end packets report the total; either is
/// cut off at the largest 16-bit number.
pub proof fn law_series_durations(tone: Tone, i: int)
    requires
        tone.step >= 1,
        0 <= i < tone.series().len(),
    ensures
        i < tone.playing() ==> {
            &&& (i + 1) * tone.step < tone.total
            &&& tone.series()[i].payload.duration == min((i + 1) * tone.step, 0xffff)
        },
        i >= tone.playing() ==> tone.series()[i].payload.duration == min(
            tone.total as int,
            0xffff,
        ),
{
    lemma_playing(tone, 0);
    lemma_playing(tone, i);
    lemma_mul_nonnegative(i + 1, tone.step as int);
}

/// The reported duration never shrinks from one packet of a tone to a later
/// one.
pub proof fn law_series_durations_grow(tone: Tone, i: int, j: int)
    requires
        tone.step >= 1,
        0 <= i <= j < tone.series().len(),
    ensures
        tone.series()[i].payload.duration <= tone.series()[j].payload.duration,
{
    law_series_durations(tone, i);
    law_series_durations(tone, j);
    lemma_mul_inequality(i + 1, j + 1, tone.step as int);
}

/// The first packet of a tone is due at its start, and each further one an
/// interval after the one before it.
pub proof fn law_series_schedule(tone: Tone, i: int)
    requires
        tone.step >= 1,
        0 <= i < tone.series().len(),
    ensures
        tone.series()[0].due == tone.start,
        i + 1 < tone.series().len() ==> tone.series()[i + 1].due == tone.series()[i].due
            + tone.interval,
{
    lemma_playing(tone, 0);
    lemma_playing(tone, i);
}

/// A tone that is no longer than one step consists of its three end packets.
pub proof fn law_short_tone(tone: Tone, i: int)
    requires
        tone.step >= 1,
        tone.total <= tone.step,
    ensures
        tone.series().len() == 3,
        0 <= i < 3 ==> tone.series()[i].payload.end,
        0 <= i < 3 ==> tone.series()[i].payload.duration == min(tone.total as int, 0xffff),
{
    lemma_playing(tone, 0);
    assert(tone.playing() == 0);
    if 0 <= i < 3 {
        law_series_shape(tone, i);
        law_series_durations(tone, i);
    }
}

/// Tones play back-to-back in the order in which they were queued: no packet of
/// a tone comes before one of an earlier tone.
pub proof fn law_tones_play_in_order(earlier: Seq<Tone>, later: Seq<Tone>)
    ensures
        packets_of(earlier + later) == packets_of(earlier) + packets_of(later),
    decreases later.len(),
{
    if later.len() == 0 {
        assert(earlier + later =~= earlier);
        assert(packets_of(earlier) + packets_of(later) =~= packets_of(earlier));
    } else {
        law_tones_play_in_order(earlier, later.drop_last());
        assert((earlier + later).drop_last() =~= earlier + later.drop_last());
        assert(packets_of(earlier + later) =~= packets_of(earlier) + packets_of(later));
    }
}

/// A packet is due exactly from its own nanosecond on, and only the first
/// pending packet counts.
pub proof fn law_due_from_its_nanosecond_on(pending: Seq<Packet>, now: Instant)
    ensures
        is_due(pending, now) <==> pending.len() > 0 && now.nanos >= pending[0].due,
{
}

/// A payload that carries a packet has its payload type, its due time, its RTP
/// timestamp and its marker, is four bytes long, and decodes to what the packet
/// says, the volume in six bits. It names no stream and has no header
/// extensions.
pub proof fn law_payload_carries_its_packet(payload: ToPayload, packet: Packet)
    requires
        payload.carries(packet),
    ensures
        payload.pt.number == packet.pt.number,
        payload.rid is None,
        payload.wallclock.nanos == packet.due,
        payload.rtp_time.numer == packet.rtp_time.numer,
        payload.rtp_time.frequency.hz == packet.rtp_time.frequency.hz,
        payload.start_of_talk_spurt == packet.marker,
        payload.ext_vals.elements@.len() == 0,
        (*payload.data)@.len() == 4,
        (*payload.data)@[0] == packet.payload.event,
        (*payload.data)@[1] >= 128 <==> packet.payload.end,
        (*payload.data)@[1] % 64 == packet.payload.volume % 64,
        (*payload.data)@[2] * 256 + (*payload.data)@[3] == packet.payload.duration,
{
}

/// Polling at the announced time yields a packet, and polling before it does
/// not.
pub proof fn law_poll_at_timeout(pending: Seq<Packet>, at: Instant, now: Instant)
    requires
        pending.len() > 0,
        at@ == pending[0].due,
    ensures
        is_due(pending, now) <==> now@ >= at@,
{
}

/// After each packet the next one is due 20 milliseconds later, whenever it was
/// polled for, unless the packet was the third end packet of its tone: then the
/// next tone is due at its own start, or nothing is pending if no tone is
/// queued. The marker tells the two apart.
pub proof fn law_cadence(pending: Seq<Packet>, tone: Tone, k: int, queued: Seq<Tone>)
    requires
        plays(pending, tone, k, queued),
    ensures
        pending.len() > 0,
        pending.drop_first() == rest_of(tone, k, queued),
        k + 1 < tone.series().len() ==> {
            &&& rest_of(tone, k, queued).len() > 0
            &&& rest_of(tone, k, queued)[0].due == pending[0].due + 20_000_000
            &&& !rest_of(tone, k, queued)[0].marker
        },
        k + 1 == tone.series().len() ==> {
            &&& pending[0].payload.end
            &&& rest_of(tone, k, queued) == packets_of(queued)
            &&& queued.len() == 0 ==> rest_of(tone, k, queued).len() == 0
            &&& queued.len() > 0 ==> {
                &&& rest_of(tone, k, queued).len() > 0
                &&& rest_of(tone, k, queued)[0].due == queued[0].start
                &&& rest_of(tone, k, queued)[0].marker
            }
        },
{
    let rest = rest_of(tone, k, queued);
    law_series_length(tone);
    law_series_shape(tone, k);
    law_series_schedule(tone, k);
    assert(pending.drop_first() =~= rest);
    if k + 1 == tone.series().len() {
        assert(rest =~= packets_of(queued));
        if queued.len() > 0 {
            let next = queued[0];
            lemma_packets_of_front(queued);
            lemma_series_is_not_empty(next);
            assert(rest[0] == next.series()[0]);
        }
    } else {
        assert(rest[0] == tone.series()[k + 1]);
    }
}

/// The packets still pending after polls at the given times.
pub open spec fn left_after(pending: Seq<Packet>, polls: Seq<Instant>) -> Seq<Packet>
    decreases polls.len(),
{
    if polls.len() == 0 {
        pending
    } else {
        let before = left_after(pending, polls.drop_last());
        if is_due(before, polls.last()) {
            before.drop_first()
        } else {
            before
        }
    }
}

/// The packets that polls at the given times yield, in order.
pub open spec fn sent_by(pending: Seq<Packet>, polls: Seq<Instant>) -> Seq<Packet>
    decreases polls.len(),
{
    if polls.len() == 0 {
        Seq::empty()
    } else {
        let before = left_after(pending, polls.drop_last());
        let sent = sent_by(pending, polls.drop_last());
        if is_due(before, polls.last()) {
            sent.push(before[0])
        } else {
            sent
        }
    }
}

/// Polling loses, repeats and reorders nothing: what was sent, followed by what
/// is left, is what was pending.
pub proof fn law_polling_keeps_the_packets(pending: Seq<Packet>, polls: Seq<Instant>)
    ensures
        sent_by(pending, polls) + left_after(pending, polls) == pending,
    decreases polls.len(),
{
    if polls.len() == 0 {
        assert(Seq::empty() + pending =~= pending);
    } else {
        let earlier = polls.drop_last();
        law_polling_keeps_the_packets(pending, earlier);
        assert(sent_by(pending, polls) + left_after(pending, polls) =~= sent_by(pending, earlier)
            + left_after(pending, earlier));
    }
}

/// Polls at times when every pending packet is due send one packet each, in
/// order; as many of them as there are packets send them all.
pub proof fn law_due_packets_are_sent(pending: Seq<Packet>, polls: Seq<Instant>)
    requires
        polls.len() <= pending.len(),
        forall|i: int, j: int|
            #![trigger pending[i], polls[j]]
            0 <= i < pending.len() && 0 <= j < polls.len() ==> pending[i].due <= polls[j]@,
    ensures
        sent_by(pending, polls) == pending.take(polls.len() as int),
        polls.len() == pending.len() ==> sent_by(pending, polls) == pending,
    decreases polls.len(),
{
    if polls.len() == 0 {
        assert(pending.take(0) =~= Seq::empty());
    } else {
        let earlier = polls.drop_last();
        let n = earlier.len() as int;
        assert forall|i: int, j: int|
            #![trigger pending[i], earlier[j]]
            0 <= i < pending.len() && 0 <= j < earlier.len() implies pending[i].due
            <= earlier[j]@ by {
            assert(earlier[j] == polls[j]);
        }
        law_due_packets_are_sent(pending, earlier);
        law_polling_keeps_the_packets(pending, earlier);
        let left = left_after(pending, earlier);
        assert(left =~= pending.skip(n)) by {
            assert(pending =~= pending.take(n) + left);
        }
        assert(left[0] == pending[n]);
        assert(pending[n].due <= polls[n]@);
        assert(sent_by(pending, polls) =~= pending.take(n + 1));
    }
    assert(pending.take(pending.len() as int) =~= pending);
}

} // verus!
