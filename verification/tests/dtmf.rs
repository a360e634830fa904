//! Codes, characters, payloads, the sender and the receiver, each on its own.

use dtmf::event::{Dtmf, DtmfEvent};
use dtmf::payload::TelephoneEventPayload;
use dtmf::receiver::DtmfReceiver;
use dtmf::rtp::{ExtensionValues, Frequency, MediaTime, Mid, Pt, ToPayload};
use dtmf::sender::{default_volume, DtmfSender, END_PACKET_REPEATS};
use dtmf::time::{Duration, Instant};

const EIGHT_KHZ: Frequency = Frequency { hz: 8_000 };
const START: Instant = Instant { nanos: 1_000_000_000 };

const ALL: [Dtmf; 17] = [
    Dtmf::D0,
    Dtmf::D1,
    Dtmf::D2,
    Dtmf::D3,
    Dtmf::D4,
    Dtmf::D5,
    Dtmf::D6,
    Dtmf::D7,
    Dtmf::D8,
    Dtmf::D9,
    Dtmf::Star,
    Dtmf::Pound,
    Dtmf::A,
    Dtmf::B,
    Dtmf::C,
    Dtmf::D,
    Dtmf::Flash,
];

fn mid(name: &str) -> Mid {
    let mut id = [0u8; 16];
    id[..name.len()].copy_from_slice(name.as_bytes());
    Mid { id }
}

fn millis(n: u64) -> Instant {
    START.plus(Duration::from_millis(n))
}

fn payload(event: u8, end: bool, volume: u8, duration: u16) -> TelephoneEventPayload {
    TelephoneEventPayload {
        event,
        end,
        volume,
        duration,
    }
}

/// Everything the sender has to send, polled whenever it asks for it.
fn drain(s: &mut DtmfSender) -> Vec<ToPayload> {
    let mut out = vec![];
    while let Some(at) = s.poll_timeout() {
        let p = s.poll(at).unwrap();
        assert_eq!(p.wallclock, at);
        out.push(p);
    }
    out
}

fn parsed(payloads: &[ToPayload]) -> Vec<TelephoneEventPayload> {
    payloads
        .iter()
        .map(|p| TelephoneEventPayload::parse(&p.data).unwrap())
        .collect()
}

fn tone(duration: Duration, clock_rate: Frequency) -> Vec<TelephoneEventPayload> {
    let mut s = DtmfSender::default();
    s.push(
        101.into(),
        MediaTime::new(0, clock_rate),
        START,
        5,
        10,
        duration,
        clock_rate,
    );
    parsed(&drain(&mut s))
}

#[test]
fn payload_roundtrip() {
    let p = TelephoneEventPayload {
        event: 5,
        end: true,
        volume: 10,
        duration: 1600,
    };
    let bytes = p.to_bytes();
    assert_eq!(bytes, [0x05, 0x8a, 0x06, 0x40]);
    assert_eq!(TelephoneEventPayload::parse(&bytes), Some(p));
}

#[test]
fn dtmf_char_roundtrip() {
    for c in "0123456789*#ABCD".chars() {
        let d = Dtmf::from_char(c).unwrap();
        assert_eq!(d.to_char(), Some(c));
        assert_eq!(Dtmf::from_event_code(d.event_code()), Some(d));
    }
}

#[test]
fn sender_emits_series_with_marker_and_end_repeats() {
    let mut s = DtmfSender::default();
    let start = START;
    // 100 ms tone at 8 kHz, 20 ms packets => 5 playing packets + repeats.
    s.push(
        101.into(),
        MediaTime::new(0, EIGHT_KHZ),
        start,
        5,
        10,
        Duration::from_millis(100),
        EIGHT_KHZ,
    );

    let mut now = start;
    let mut payloads = vec![];
    for _ in 0..20 {
        while let Some(tp) = s.poll(now) {
            payloads.push(tp);
        }
        now = now.plus(Duration::from_millis(20));
    }

    // First packet has the marker (start of talkspurt).
    assert!(payloads[0].start_of_talk_spurt);
    assert!(!payloads[1].start_of_talk_spurt);

    // All packets share the same RTP timestamp.
    for p in &payloads {
        assert_eq!(p.rtp_time.numer(), 0);
    }

    // The final three packets carry the end bit and full duration.
    let parsed: Vec<_> = payloads
        .iter()
        .map(|p| TelephoneEventPayload::parse(&p.data).unwrap())
        .collect();
    let end_count = parsed.iter().filter(|p| p.end).count();
    assert_eq!(end_count, END_PACKET_REPEATS as usize);
    assert_eq!(parsed.last().unwrap().duration, 800); // 100 ms @ 8 kHz
}

#[test]
fn receiver_aggregates_to_single_event() {
    let mut r = DtmfReceiver::default();
    let mid = mid("audio");
    let freq = EIGHT_KHZ;

    // Playing packets (growing duration, no end bit).
    for d in [160u16, 320, 480, 640, 800] {
        r.feed(
            mid,
            MediaTime::new(1000, freq),
            TelephoneEventPayload {
                event: 5,
                end: false,
                volume: 10,
                duration: d,
            },
        );
        assert!(r.poll().is_none());
    }

    // Three end packets: only the first should produce an event.
    for _ in 0..3 {
        r.feed(
            mid,
            MediaTime::new(1000, freq),
            TelephoneEventPayload {
                event: 5,
                end: true,
                volume: 10,
                duration: 800,
            },
        );
    }

    let ev = r.poll().unwrap();
    assert_eq!(ev.event, 5);
    assert_eq!(ev.dtmf, Some(Dtmf::D5));
    assert_eq!(ev.duration.numer(), 800);
    assert!(r.poll().is_none());
}

#[test]
fn event_codes_count_up_from_zero() {
    for (i, d) in ALL.iter().enumerate() {
        assert_eq!(d.event_code() as usize, i);
        assert_eq!(Dtmf::from_event_code(i as u8), Some(*d));
    }
    assert_eq!(Dtmf::from_event_code(17), None);
    assert_eq!(Dtmf::from_event_code(255), None);
}

#[test]
fn only_flash_has_no_key() {
    for d in ALL {
        assert_eq!(d.to_char().is_none(), d == Dtmf::Flash);
    }
}

#[test]
fn letters_are_accepted_in_either_case() {
    assert_eq!(Dtmf::from_char('a'), Some(Dtmf::A));
    assert_eq!(Dtmf::from_char('b'), Some(Dtmf::B));
    assert_eq!(Dtmf::from_char('c'), Some(Dtmf::C));
    assert_eq!(Dtmf::from_char('d'), Some(Dtmf::D));
}

#[test]
fn other_characters_are_rejected() {
    for c in ['e', 'E', 'z', ' ', '+', '/', ':', '@', '`', '\0', '\u{ff11}', '\u{10ffff}'] {
        assert_eq!(Dtmf::from_char(c), None);
    }
}

#[test]
fn parse_needs_four_bytes() {
    assert_eq!(TelephoneEventPayload::parse(&[]), None);
    assert_eq!(TelephoneEventPayload::parse(&[5, 0x8a, 6]), None);
    assert_eq!(
        TelephoneEventPayload::parse(&[5, 0x8a, 6, 0x40]),
        Some(payload(5, true, 10, 1600))
    );
}

#[test]
fn parse_ignores_reserved_bit_and_trailing_bytes() {
    let p = TelephoneEventPayload::parse(&[16, 0x7f, 0xff, 0xff, 1, 2, 3]).unwrap();
    assert_eq!(p, payload(16, false, 63, 65535));
    // Written back, the reserved bit is clear.
    assert_eq!(p.to_bytes(), [16, 0x3f, 0xff, 0xff]);
}

#[test]
fn serialize_keeps_six_bits_of_volume() {
    let p = payload(1, false, 0xc5, 0x0102);
    assert_eq!(p.to_bytes(), [1, 0x05, 1, 2]);
    assert_eq!(
        TelephoneEventPayload::parse(&p.to_bytes()),
        Some(payload(1, false, 5, 0x0102))
    );
}

#[test]
fn every_payload_that_fits_survives_the_wire() {
    for event in [0u8, 16, 255] {
        for end in [false, true] {
            for volume in 0..64u8 {
                for duration in [0u16, 1, 255, 256, 65535] {
                    let p = payload(event, end, volume, duration);
                    assert_eq!(TelephoneEventPayload::parse(&p.to_bytes()), Some(p));
                }
            }
        }
    }
}

#[test]
fn durations_count_in_nanoseconds() {
    assert_eq!(Duration::from_millis(20).nanos, 20_000_000);
    assert_eq!(Duration { nanos: 1_999 }.as_micros(), 1);
    assert_eq!(START.plus(Duration { nanos: 7 }).nanos, 1_000_000_007);
}

#[test]
fn default_volume_is_ten() {
    assert_eq!(default_volume(), 10);
}

#[test]
fn an_empty_sender_has_nothing_to_say() {
    let mut s = DtmfSender::default();
    assert_eq!(s.poll_timeout(), None);
    assert!(s.poll(START).is_none());
}

#[test]
fn a_packet_carries_all_that_was_asked_for() {
    let mut s = DtmfSender::default();
    let time = MediaTime::new(4711, EIGHT_KHZ);
    s.push(Pt::from(97), time, START, 11, 7, Duration::from_millis(40), EIGHT_KHZ);
    let first = s.poll(START).unwrap();
    assert_eq!(first.pt, Pt { number: 97 });
    assert_eq!(first.rid, None);
    assert_eq!(first.wallclock, START);
    assert_eq!(first.rtp_time, time);
    assert!(first.start_of_talk_spurt);
    assert_eq!(first.data.to_vec(), vec![11, 7, 0, 160]);
    assert_eq!(first.ext_vals, ExtensionValues::default());
    assert!(first.ext_vals.elements.is_empty());
}

#[test]
fn packets_wait_until_they_are_due() {
    let mut s = DtmfSender::default();
    s.push(
        101.into(),
        MediaTime::new(0, EIGHT_KHZ),
        START,
        5,
        10,
        Duration::from_millis(40),
        EIGHT_KHZ,
    );
    assert_eq!(s.poll_timeout(), Some(START));
    assert!(s.poll(Instant { nanos: START.nanos - 1 }).is_none());
    assert_eq!(s.poll_timeout(), Some(START));
    assert!(s.poll(START).is_some());
    assert_eq!(s.poll_timeout(), Some(millis(20)));
    assert!(s.poll(START).is_none());
    assert!(s.poll(millis(19)).is_none());
    // A late poll does not shift the schedule.
    assert!(s.poll(millis(35)).is_some());
    assert_eq!(s.poll_timeout(), Some(millis(40)));
    assert!(s.poll(millis(1000)).is_some());
    assert!(s.poll(millis(1000)).is_some());
    assert_eq!(s.poll_timeout(), None);
    assert!(s.poll(millis(1000)).is_none());
}

#[test]
fn playing_packets_grow_by_one_step() {
    let packets = tone(Duration::from_millis(50), EIGHT_KHZ);
    assert_eq!(
        packets,
        vec![
            payload(5, false, 10, 160),
            payload(5, false, 10, 320),
            payload(5, true, 10, 400),
            payload(5, true, 10, 400),
            payload(5, true, 10, 400),
        ]
    );
}

#[test]
fn a_tone_lasts_at_least_one_sample() {
    assert_eq!(tone(Duration { nanos: 0 }, EIGHT_KHZ), vec![payload(5, true, 10, 1); 3]);
    // The step is at least one sample too.
    let slow = tone(Duration::from_millis(3_000), Frequency { hz: 1 });
    assert_eq!(
        slow,
        vec![
            payload(5, false, 10, 1),
            payload(5, false, 10, 2),
            payload(5, true, 10, 3),
            payload(5, true, 10, 3),
            payload(5, true, 10, 3),
        ]
    );
}

#[test]
fn reported_duration_stops_at_sixteen_bits() {
    // 10 s at 8 kHz is 80000 samples.
    let packets = tone(Duration::from_millis(10_000), EIGHT_KHZ);
    assert_eq!(packets.len(), 499 + 3);
    assert_eq!(packets[408].duration, 65440);
    assert_eq!(packets[409].duration, 65535);
    assert!(!packets[498].end);
    assert_eq!(packets[499..], [payload(5, true, 10, 65535); 3]);
}

#[test]
fn sample_counts_are_kept_in_32_bits() {
    let mhz = Frequency { hz: 1_000_000 };
    let wrapped = Duration { nanos: (1u128 << 32) * 1_000 };
    assert_eq!(tone(wrapped, mhz), vec![payload(5, true, 10, 0); 3]);
}

#[test]
fn microseconds_are_counted_in_64_bits() {
    let wrapped = Duration { nanos: ((1u128 << 64) + 10_000) * 1_000 };
    assert_eq!(tone(wrapped, EIGHT_KHZ), vec![payload(5, true, 10, 80); 3]);
}

#[test]
fn volume_is_limited_when_a_tone_is_queued() {
    let mut s = DtmfSender::default();
    s.push(
        101.into(),
        MediaTime::new(0, EIGHT_KHZ),
        START,
        5,
        200,
        Duration::from_millis(20),
        EIGHT_KHZ,
    );
    assert_eq!(parsed(&drain(&mut s)), vec![payload(5, true, 63, 160); 3]);
}

#[test]
fn queued_tones_play_one_after_the_other() {
    let mut s = DtmfSender::default();
    for (event, start) in [(1u8, millis(0)), (2, millis(10)), (3, millis(500))] {
        s.push(
            101.into(),
            MediaTime::new(event as u64 * 8000, EIGHT_KHZ),
            start,
            event,
            10,
            Duration::from_millis(20),
            EIGHT_KHZ,
        );
    }
    // The second tone is late by the time the first one is done.
    let mut events = vec![];
    let mut marks = vec![];
    let mut due = vec![];
    while let Some(p) = s.poll(millis(100)) {
        events.push(p.data[0]);
        marks.push(p.start_of_talk_spurt);
        due.push(p.wallclock);
    }
    assert_eq!(events, vec![1, 1, 1, 2, 2, 2]);
    assert_eq!(marks, vec![true, false, false, true, false, false]);
    assert_eq!(
        due,
        vec![millis(0), millis(20), millis(40), millis(10), millis(30), millis(50)]
    );
    assert_eq!(s.poll_timeout(), Some(millis(500)));
    assert_eq!(parsed(&drain(&mut s)), vec![payload(3, true, 10, 160); 3]);
}

#[test]
fn next_packet_follows_after_twenty_milliseconds_or_at_the_next_start() {
    let mut s = DtmfSender::default();
    for start in [millis(0), millis(333)] {
        s.push(
            101.into(),
            MediaTime::new(0, EIGHT_KHZ),
            start,
            5,
            10,
            Duration::from_millis(40),
            EIGHT_KHZ,
        );
    }
    let mut ends = 0;
    while let Some(at) = s.poll_timeout() {
        // The schedule does not depend on when the packet is fetched.
        let late = at.plus(Duration::from_millis(7));
        let p = s.poll(late).unwrap();
        assert_eq!(p.wallclock, at);
        if TelephoneEventPayload::parse(&p.data).unwrap().end {
            ends += 1;
        }
        let expected = match ends {
            3 if at.nanos < millis(333).nanos => Some(millis(333)),
            6 => None,
            _ => Some(at.plus(Duration::from_millis(20))),
        };
        assert_eq!(s.poll_timeout(), expected);
    }
    assert_eq!(ends, 6);
}

fn fed(packets: &[(u64, TelephoneEventPayload)]) -> Vec<DtmfEvent> {
    let mut r = DtmfReceiver::default();
    for (ts, p) in packets {
        r.feed(mid("audio"), MediaTime::new(*ts, EIGHT_KHZ), *p);
    }
    let mut out = vec![];
    while let Some(ev) = r.poll() {
        out.push(ev);
    }
    out
}

fn report(event: u8, dtmf: Option<Dtmf>, volume: u8, duration: u64) -> DtmfEvent {
    DtmfEvent {
        mid: mid("audio"),
        event,
        dtmf,
        volume,
        duration: MediaTime::new(duration, EIGHT_KHZ),
    }
}

#[test]
fn an_idle_receiver_reports_nothing() {
    assert_eq!(fed(&[]), vec![]);
}

#[test]
fn reordered_packets_report_the_longest_duration() {
    let events = fed(&[
        (0, payload(4, false, 10, 480)),
        (0, payload(4, false, 10, 160)),
        (0, payload(4, true, 10, 320)),
    ]);
    assert_eq!(events, vec![report(4, Some(Dtmf::D4), 10, 480)]);
}

#[test]
fn packets_after_the_report_change_nothing() {
    let events = fed(&[
        (0, payload(4, true, 10, 320)),
        (0, payload(4, false, 20, 480)),
        (0, payload(4, true, 30, 640)),
    ]);
    assert_eq!(events, vec![report(4, Some(Dtmf::D4), 10, 320)]);
}

#[test]
fn latest_volume_is_reported() {
    let events = fed(&[(0, payload(4, false, 10, 160)), (0, payload(4, true, 12, 320))]);
    assert_eq!(events, vec![report(4, Some(Dtmf::D4), 12, 320)]);
}

#[test]
fn unknown_codes_are_reported_raw() {
    let events = fed(&[(0, payload(32, true, 10, 160))]);
    assert_eq!(events, vec![report(32, None, 10, 160)]);
}

#[test]
fn another_code_at_the_same_timestamp_is_another_event() {
    let events = fed(&[(0, payload(4, false, 10, 160)), (0, payload(5, true, 10, 320))]);
    assert_eq!(
        events,
        vec![report(4, Some(Dtmf::D4), 10, 160), report(5, Some(Dtmf::D5), 10, 320)]
    );
}

#[test]
fn flushed_event_keeps_its_own_media_and_clock() {
    let mut r = DtmfReceiver::default();
    r.feed(mid("a"), MediaTime::new(0, EIGHT_KHZ), payload(4, false, 10, 160));
    let other = Frequency { hz: 48_000 };
    r.feed(mid("b"), MediaTime::new(1, other), payload(4, false, 10, 99));
    let ev = r.poll().unwrap();
    assert_eq!(ev.mid, mid("a"));
    assert_eq!(ev.duration, MediaTime::new(160, EIGHT_KHZ));
    assert_eq!(ev.duration.frequency(), EIGHT_KHZ);
    assert!(r.poll().is_none());
}

#[test]
fn unfinished_event_is_reported_on_the_media_it_was_received_on() {
    let mut r = DtmfReceiver::default();
    r.feed(mid("a"), MediaTime::new(0, EIGHT_KHZ), payload(1, false, 10, 160));
    r.feed(mid("b"), MediaTime::new(8000, EIGHT_KHZ), payload(2, false, 10, 160));
    let ev = r.poll().unwrap();
    assert_eq!(ev.event, 1);
    assert_eq!(ev.mid, mid("a"));
    assert!(r.poll().is_none());
}

#[test]
fn flushed_event_takes_media_and_clock_of_its_latest_packet() {
    let mut r = DtmfReceiver::default();
    let other = Frequency { hz: 48_000 };
    r.feed(mid("a"), MediaTime::new(0, EIGHT_KHZ), payload(1, false, 10, 160));
    r.feed(mid("b"), MediaTime::new(0, other), payload(1, false, 10, 320));
    r.feed(mid("c"), MediaTime::new(1, EIGHT_KHZ), payload(1, false, 10, 160));
    let ev = r.poll().unwrap();
    assert_eq!(ev.mid, mid("b"));
    assert_eq!(ev.duration, MediaTime::new(320, other));
}

#[test]
fn completed_event_takes_media_and_clock_of_its_end_packet() {
    let mut r = DtmfReceiver::default();
    r.feed(mid("a"), MediaTime::new(0, EIGHT_KHZ), payload(1, true, 10, 160));
    r.feed(mid("b"), MediaTime::new(1, EIGHT_KHZ), payload(1, false, 10, 160));
    let ev = r.poll().unwrap();
    assert_eq!(ev.mid, mid("a"));
    assert_eq!(ev.duration, MediaTime::new(160, EIGHT_KHZ));
    // It was reported at its end, so the next event flushes nothing.
    assert!(r.poll().is_none());
}

#[test]
fn an_event_is_flushed_only_once() {
    let mut r = DtmfReceiver::default();
    for ts in 0..4u64 {
        r.feed(mid("a"), MediaTime::new(ts, EIGHT_KHZ), payload(1, false, 10, 160));
    }
    for _ in 0..3 {
        assert!(r.poll().is_some());
    }
    assert!(r.poll().is_none());
}

#[test]
fn each_start_is_reported_once() {
    // Five starts: the last one is still being received.
    let events = fed(&[
        (0, payload(1, false, 10, 160)),
        (1, payload(1, true, 10, 160)),
        (1, payload(1, true, 10, 160)),
        (2, payload(1, false, 10, 320)),
        (3, payload(1, true, 10, 480)),
        (4, payload(1, false, 10, 640)),
    ]);
    let durations: Vec<u64> = events.iter().map(|e| e.duration.numer()).collect();
    assert_eq!(durations, vec![160, 160, 320, 480]);
}

#[test]
fn feeding_keeps_waiting_events_in_order() {
    let mut r = DtmfReceiver::default();
    for event in 0..17u8 {
        r.feed(
            mid("audio"),
            MediaTime::new(event as u64, EIGHT_KHZ),
            payload(event, true, 10, 160),
        );
    }
    for d in ALL {
        assert_eq!(r.poll().unwrap().dtmf, Some(d));
    }
    assert!(r.poll().is_none());
}
