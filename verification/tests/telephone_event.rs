//! A sender and a receiver that exchange payload bytes.

use dtmf::event::{Dtmf, DtmfEvent};
use dtmf::payload::TelephoneEventPayload;
use dtmf::receiver::DtmfReceiver;
use dtmf::rtp::{Frequency, MediaTime, Mid, Pt, ToPayload};
use dtmf::sender::{default_volume, DtmfSender};
use dtmf::time::{Duration, Instant};

const EIGHT_KHZ: Frequency = Frequency { hz: 8_000 };
const START: Instant = Instant { nanos: 0 };

fn aud() -> Mid {
    let mut id = [0u8; 16];
    id[..3].copy_from_slice("aud".as_bytes());
    Mid { id }
}

fn millis(n: u64) -> Instant {
    START.plus(Duration::from_millis(n))
}

/// Queues a digit at the default volume.
fn write_dtmf(s: &mut DtmfSender, wallclock: Instant, ts: u64, digit: Dtmf, duration: Duration) {
    s.push(
        Pt::from(101),
        MediaTime::new(ts, EIGHT_KHZ),
        wallclock,
        digit.event_code(),
        default_volume(),
        duration,
        EIGHT_KHZ,
    );
}

/// What the sender sends up to `end`, polled every 5 ms.
fn run_until(s: &mut DtmfSender, end: u64) -> Vec<ToPayload> {
    let mut out = vec![];
    let mut now = 0;
    while now <= end {
        while let Some(p) = s.poll(millis(now)) {
            out.push(p);
        }
        now += 5;
    }
    out
}

/// The packets as `(marker, timestamp, payload)`.
fn te_rtp_packets(packets: &[ToPayload]) -> Vec<(bool, u64, TelephoneEventPayload)> {
    packets
        .iter()
        .map(|p| {
            assert_eq!(p.pt, Pt { number: 101 });
            let te = TelephoneEventPayload::parse(&p.data).unwrap();
            (p.start_of_talk_spurt, p.rtp_time.numer(), te)
        })
        .collect()
}

/// The RFC 4733 packet series for a tone: growing-duration playing packets
/// (E=0) followed by `end_repeats` copies of the final packet with the end bit.
/// The marker flag is set on the very first packet only. Packets use 20 ms steps.
fn dtmf_series(
    event: u8,
    volume: u8,
    clock_rate: Frequency,
    duration: Duration,
    end_repeats: usize,
) -> Vec<(bool, TelephoneEventPayload)> {
    let hz = clock_rate.get() as u64;
    let step = ((20_000u64 * hz) / 1_000_000).max(1) as u32;
    let total = ((duration.as_micros() as u64 * hz) / 1_000_000).max(1) as u32;

    let mut out = Vec::new();
    let mut first = true;
    let mut dur = step.min(total);
    while dur < total {
        out.push((
            first,
            TelephoneEventPayload {
                event,
                end: false,
                volume,
                duration: dur.min(u16::MAX as u32) as u16,
            },
        ));
        first = false;
        dur = (dur + step).min(total);
    }

    let final_dur = total.min(u16::MAX as u32) as u16;
    for _ in 0..end_repeats {
        out.push((
            first,
            TelephoneEventPayload {
                event,
                end: true,
                volume,
                duration: final_dur,
            },
        ));
        first = false;
    }

    out
}

/// Feeds a series to the receiver as bytes under one RTP timestamp.
fn send_rtp_series(
    r: &mut DtmfReceiver,
    timestamp: u64,
    series: &[(bool, TelephoneEventPayload)],
) {
    for (_, payload) in series {
        let bytes = payload.to_bytes().to_vec();
        let te = TelephoneEventPayload::parse(&bytes).unwrap();
        r.feed(aud(), MediaTime::new(timestamp, EIGHT_KHZ), te);
    }
}

fn send_packets(r: &mut DtmfReceiver, packets: &[ToPayload]) {
    for p in packets {
        let te = TelephoneEventPayload::parse(&p.data).unwrap();
        r.feed(aud(), p.rtp_time, te);
    }
}

fn dtmf_events(r: &mut DtmfReceiver) -> Vec<DtmfEvent> {
    let mut out = vec![];
    while let Some(ev) = r.poll() {
        out.push(ev);
    }
    out
}

/// A DTMF tone is received and aggregated into a single event.
#[test]
fn dtmf_send_and_receive() {
    let mut s = DtmfSender::default();
    let mut r = DtmfReceiver::default();
    write_dtmf(&mut s, START, 0, Dtmf::D5, Duration::from_millis(100));
    send_packets(&mut r, &run_until(&mut s, 1000));

    let dtmf = dtmf_events(&mut r);
    assert_eq!(dtmf.len(), 1);
    let d = &dtmf[0];
    assert_eq!(d.dtmf, Some(Dtmf::D5));
    assert_eq!(d.event, 5);
    assert_eq!(d.mid, aud());
    // 100 ms at 8 kHz is 800 samples.
    assert_eq!(d.duration.numer(), 800);
    assert_eq!(d.duration.frequency(), EIGHT_KHZ);
}

/// Several DTMF digits sent back-to-back are all received in order.
#[test]
fn dtmf_sequence() {
    let mut s = DtmfSender::default();
    let mut r = DtmfReceiver::default();
    // Queue "1", "2", "3": each 80 ms tone, spaced by a starting RTP timestamp.
    let digits = [Dtmf::D1, Dtmf::D2, Dtmf::D3];
    for (i, d) in digits.iter().enumerate() {
        write_dtmf(
            &mut s,
            millis(i as u64 * 200),
            i as u64 * 8000,
            *d,
            Duration::from_millis(80),
        );
    }
    send_packets(&mut r, &run_until(&mut s, 2000));

    let received: Vec<Dtmf> = dtmf_events(&mut r).iter().filter_map(|e| e.dtmf).collect();
    assert_eq!(received, vec![Dtmf::D1, Dtmf::D2, Dtmf::D3]);
}

/// The sender produces the exact RFC 4733 packet series on the wire.
#[test]
fn frame_send_rtp_receive_wire_series() {
    let mut s = DtmfSender::default();
    let ts0: u64 = 8000;
    write_dtmf(&mut s, START, ts0, Dtmf::D5, Duration::from_millis(100));

    let packets = te_rtp_packets(&run_until(&mut s, 600));
    let expected = dtmf_series(5, 10, EIGHT_KHZ, Duration::from_millis(100), 3);

    assert_eq!(packets.len(), expected.len(), "packet count");

    // Marker on the first packet only.
    assert!(packets[0].0, "first packet carries the marker");
    assert!(
        packets[1..].iter().all(|(m, _, _)| !*m),
        "only the first packet carries the marker"
    );

    // Every packet shares the event's RTP timestamp.
    assert!(
        packets.iter().all(|(_, ts, _)| *ts == ts0),
        "all packets share the event start timestamp"
    );

    // Payload matches the reference series (event/end/volume/duration).
    for (i, ((_, _, got), (_, want))) in packets.iter().zip(expected.iter()).enumerate() {
        assert_eq!(got, want, "payload mismatch at packet {i}");
    }

    // Exactly three end-bit packets, all at the full 800-sample duration.
    let ends: Vec<_> = packets.iter().filter(|(_, _, te)| te.end).collect();
    assert_eq!(ends.len(), 3, "three end packets");
    assert!(ends.iter().all(|(_, _, te)| te.duration == 800));
}

/// A tone shorter than one packet interval still emits the three end packets,
/// with the marker on the first.
#[test]
fn frame_send_rtp_receive_short_tone() {
    let mut s = DtmfSender::default();
    // 10 ms is 80 samples, less than one 20 ms (160-sample) step.
    write_dtmf(&mut s, START, 1000, Dtmf::D1, Duration::from_millis(10));

    let packets = te_rtp_packets(&run_until(&mut s, 300));
    assert_eq!(packets.len(), 3, "three end packets, no playing packets");
    assert!(packets.iter().all(|(_, _, te)| te.end), "all end packets");
    assert!(packets.iter().all(|(_, _, te)| te.duration == 80));
    assert!(packets[0].0, "marker on first");
    assert!(packets[1..].iter().all(|(m, _, _)| !*m));
}

/// A crafted RFC 4733 series is aggregated into a single event.
#[test]
fn rtp_send_frame_receive_single() {
    let mut r = DtmfReceiver::default();
    let series = dtmf_series(5, 10, EIGHT_KHZ, Duration::from_millis(100), 3);
    send_rtp_series(&mut r, 8000, &series);

    let events = dtmf_events(&mut r);
    assert_eq!(events.len(), 1, "one DTMF event, got {events:?}");
    assert_eq!(events[0].dtmf, Some(Dtmf::D5));
    assert_eq!(events[0].event, 5);
    assert_eq!(events[0].volume, 10);
    assert_eq!(events[0].duration.numer(), 800);
}

/// Every DTMF event code (including flash) round-trips through aggregation.
#[test]
fn rtp_send_frame_receive_all_digits() {
    let mut r = DtmfReceiver::default();
    let digits = [
        Dtmf::D0,
        Dtmf::D1,
        Dtmf::D2,
        Dtmf::D3,
        Dtmf::D4,
        Dtmf::D5,
        Dtmf::D6,
        Dtmf::D7,
        Dtmf::D8,
        Dtmf::D9,
        Dtmf::Star,
        Dtmf::Pound,
        Dtmf::A,
        Dtmf::B,
        Dtmf::C,
        Dtmf::D,
        Dtmf::Flash,
    ];

    let mut ts = 8000u64;
    for d in digits {
        let series = dtmf_series(d.event_code(), 10, EIGHT_KHZ, Duration::from_millis(60), 3);
        send_rtp_series(&mut r, ts, &series);
        ts += 8000;
    }

    let got: Vec<Option<Dtmf>> = dtmf_events(&mut r).iter().map(|e| e.dtmf).collect();
    let want: Vec<Option<Dtmf>> = digits.iter().map(|d| Some(*d)).collect();
    assert_eq!(got, want, "all event codes aggregated in order");
}

/// The three redundant end packets produce exactly one event.
#[test]
fn rtp_send_frame_receive_dedups_end_packets() {
    let mut r = DtmfReceiver::default();
    let series = dtmf_series(7, 10, EIGHT_KHZ, Duration::from_millis(80), 3);
    // Three of the six packets carry the end bit.
    assert_eq!(series.iter().filter(|(_, p)| p.end).count(), 3);
    send_rtp_series(&mut r, 8000, &series);

    let events = dtmf_events(&mut r);
    assert_eq!(events.len(), 1, "one event despite three end packets");
    assert_eq!(events[0].dtmf, Some(Dtmf::D7));
}

/// The event still arrives when only one of the three end packets is delivered.
#[test]
fn rtp_send_frame_receive_survives_lost_end_packets() {
    let mut r = DtmfReceiver::default();
    // Deliver the playing packets and only a single end packet (the other two lost).
    let series = dtmf_series(9, 10, EIGHT_KHZ, Duration::from_millis(100), 1);
    send_rtp_series(&mut r, 8000, &series);

    let events = dtmf_events(&mut r);
    assert_eq!(events.len(), 1, "one event from a single end packet");
    assert_eq!(events[0].dtmf, Some(Dtmf::D9));
    assert_eq!(events[0].duration.numer(), 800);
}

/// If every end packet of a tone is lost, the event is flushed when the next
/// tone (a new timestamp) starts.
#[test]
fn rtp_send_frame_receive_flush_on_next_event() {
    let mut r = DtmfReceiver::default();
    // Tone A: playing packets only, all end packets lost.
    let a = dtmf_series(1, 10, EIGHT_KHZ, Duration::from_millis(100), 0);
    assert!(a.iter().all(|(_, p)| !p.end), "tone A has no end packets");
    send_rtp_series(&mut r, 8000, &a);
    assert!(r.poll().is_none());

    // Tone B: normal, different timestamp -> flushes A then completes B.
    let b = dtmf_series(2, 10, EIGHT_KHZ, Duration::from_millis(100), 3);
    send_rtp_series(&mut r, 16000, &b);

    let events = dtmf_events(&mut r);
    let got: Vec<Option<Dtmf>> = events.iter().map(|e| e.dtmf).collect();
    assert_eq!(
        got,
        vec![Some(Dtmf::D1), Some(Dtmf::D2)],
        "A is flushed on B's arrival, then B completes"
    );
    // The longest duration seen of A, and the full one of B.
    assert_eq!(events[0].duration.numer(), 640);
    assert_eq!(events[1].duration.numer(), 800);
}

/// A long tone reaches (and reports) its full duration.
#[test]
fn rtp_send_frame_receive_long_tone() {
    let mut r = DtmfReceiver::default();
    // 500 ms at 8 kHz is 4000 samples.
    let series = dtmf_series(0, 10, EIGHT_KHZ, Duration::from_millis(500), 3);
    send_rtp_series(&mut r, 8000, &series);

    let events = dtmf_events(&mut r);
    assert_eq!(events.len(), 1);
    assert_eq!(events[0].dtmf, Some(Dtmf::D0));
    assert_eq!(events[0].duration.numer(), 4000);
}

/// Payloads pass through the wire format untouched.
#[test]
fn rtp_send_rtp_receive_passthrough() {
    // '#' for 60 ms.
    let series = dtmf_series(11, 7, EIGHT_KHZ, Duration::from_millis(60), 3);
    for (_, want) in &series {
        let got = TelephoneEventPayload::parse(&want.to_bytes()).unwrap();
        assert_eq!(got, *want, "payload round-trips verbatim");
    }
}

/// Two peers, each sending to the other.
#[test]
fn mixed_bidirectional_frame_and_rtp() {
    // L sends '7'; R looks at the raw packets.
    let mut l_sender = DtmfSender::default();
    write_dtmf(&mut l_sender, START, 8000, Dtmf::D7, Duration::from_millis(80));
    let r_pkts = te_rtp_packets(&run_until(&mut l_sender, 400));
    assert!(!r_pkts.is_empty(), "R received raw telephone-event RTP");
    assert!(
        r_pkts.iter().all(|(_, _, te)| te.event == 7),
        "R saw event 7 on the wire"
    );

    // R sends '3'; L aggregates.
    let mut l_receiver = DtmfReceiver::default();
    let series = dtmf_series(3, 10, EIGHT_KHZ, Duration::from_millis(80), 3);
    send_rtp_series(&mut l_receiver, 16000, &series);
    let l_events = dtmf_events(&mut l_receiver);
    assert_eq!(l_events.len(), 1, "L got one DtmfEvent, got {l_events:?}");
    assert_eq!(l_events[0].dtmf, Some(Dtmf::D3));
    assert_eq!(l_events[0].duration.numer(), 640); // 80 ms @ 8 kHz
}

/// The sender agrees with the reference series at other clock rates and lengths.
#[test]
fn sender_agrees_with_the_reference_series() {
    for hz in [1u32, 49, 50, 99, 8_000, 16_000, 44_100, 48_000] {
        for ms in [0u64, 1, 19, 20, 21, 40, 99, 100, 1_000, 2_345] {
            let clock_rate = Frequency { hz };
            let duration = Duration::from_millis(ms);
            let mut s = DtmfSender::default();
            s.push(
                Pt::from(101),
                MediaTime::new(77, clock_rate),
                START,
                12,
                33,
                duration,
                clock_rate,
            );
            let got: Vec<_> = te_rtp_packets(&run_until(&mut s, 5_000))
                .iter()
                .map(|(marker, _, te)| (*marker, *te))
                .collect();
            assert_eq!(got, dtmf_series(12, 33, clock_rate, duration, 3));
        }
    }
}

/// Loss, repetition and reordering change nothing, as long as an end packet
/// gets through.
#[test]
fn tones_survive_loss_repetition_and_reordering() {
    let a = dtmf_series(1, 10, EIGHT_KHZ, Duration::from_millis(100), 3);
    let b = dtmf_series(1, 10, EIGHT_KHZ, Duration::from_millis(200), 3);
    let mut r = DtmfReceiver::default();
    send_rtp_series(&mut r, 0, &[a[5], a[2], a[2], a[0], a[4]]);
    send_rtp_series(&mut r, 1600, &[b[11]]);
    let durations: Vec<u64> =
        dtmf_events(&mut r).iter().map(|e| e.duration.numer()).collect();
    assert_eq!(durations, vec![800, 1600]);
}
