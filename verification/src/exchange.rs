//! A sender and a receiver taken together.

use vstd::math::min;
use vstd::prelude::*;

use crate::event::{Dtmf, DtmfEvent};
use crate::payload::{law_serialize_parse, TelephoneEventPayload};
use crate::receiver::{
    fed_by, law_fetching_makes_no_difference, law_one_report_per_tone, law_progress_of_tone,
    lemma_fed_all_concat, lemma_first_end, Action, Arrival, Reception, Session,
};
use crate::rtp::{MediaTime, Mid};
use crate::sender::{
    law_series_durations, law_series_durations_grow, law_series_length, law_series_shape,
    packets_of, playable, Packet, Tone,
};

verus! {

/// What a receiver is fed for a packet that arrives on `mid`: its RTP timestamp
/// and what its bytes decode to.
pub open spec fn arrival(mid: Mid, packet: Packet) -> Arrival {
    Arrival {
        mid,
        time: packet.rtp_time,
        payload: TelephoneEventPayload::decoded(packet.payload.wire())->0,
    }
}

/// What a receiver is fed for a number of packets that arrive on `mid`.
pub open spec fn arrivals(mid: Mid, packets: Seq<Packet>) -> Seq<Arrival> {
    packets.map_values(|p: Packet| arrival(mid, p))
}

/// The report that a tone leads to on the other side.
pub open spec fn report_of(mid: Mid, tone: Tone) -> DtmfEvent {
    DtmfEvent {
        mid,
        event: tone.event,
        dtmf: Dtmf::of_code(tone.event),
        volume: tone.volume,
        duration: MediaTime {
            numer: min(tone.total as int, u16::MAX as int) as u64,
            frequency: tone.rtp_time.frequency,
        },
    }
}

/// The report of a tone has its event code and the digit of that code, its
/// volume, and its duration in ticks of its own clock, up to 16 bits.
pub proof fn law_report_of_a_tone(mid: Mid, tone: Tone)
    ensures
        report_of(mid, tone).mid == mid,
        report_of(mid, tone).event == tone.event,
        report_of(mid, tone).volume == tone.volume,
        report_of(mid, tone).duration.numer == (if tone.total < 65535 {
            tone.total as int
        } else {
            65535
        }),
        report_of(mid, tone).duration.frequency == tone.rtp_time.frequency,
        report_of(mid, tone).dtmf is Some <==> tone.event <= 16,
        report_of(mid, tone).dtmf matches Some(d) ==> d.code() == tone.event,
{
}

/// The packets are all from the series of the tone, in whatever selection and
/// order, and at least one of its end packets is among them.
pub open spec fn delivers(packets: Seq<Packet>, tone: Tone) -> bool {
    &&& forall|i: int|
        0 <= i < packets.len() ==> tone.series().contains(#[trigger] packets[i])
    &&& exists|i: int| 0 <= i < packets.len() && (#[trigger] packets[i]).payload.end
}

/// Two tones that a receiver can tell apart.
pub open spec fn distinct(a: Tone, b: Tone) -> bool {
    a.rtp_time.numer != b.rtp_time.numer || a.event != b.event
}

/// The bytes of every packet of a tone decode to what the packet says.
pub proof fn law_packet_survives_the_wire(tone: Tone, i: int)
    requires
        playable(tone),
        0 <= i < tone.series().len(),
    ensures
        TelephoneEventPayload::decoded(tone.series()[i].payload.wire()) == Some(
            tone.series()[i].payload,
        ),
{
    let p = tone.series()[i].payload;
    law_serialize_parse(p, Seq::empty());
    assert(p.wire() + Seq::<u8>::empty() =~= p.wire());
}

/// The series of a tone delivers it.
proof fn lemma_series_delivers(tone: Tone)
    requires
        tone.step >= 1,
    ensures
        delivers(tone.series(), tone),
{
    law_series_length(tone);
    let last = tone.series().len() - 1;
    law_series_shape(tone, last);
    assert(tone.series()[last].payload.end);
    assert forall|i: int| 0 <= i < tone.series().len() implies tone.series().contains(
        #[trigger] tone.series()[i],
    ) by {}
}

/// A tone reaches a receiver as one report, with its event code, its volume and
/// its full duration as far as 16 bits can tell it, even if packets are lost,
/// repeated or reordered on the way, as long as one end packet arrives.
pub proof fn law_tone_is_received(state: Reception, mid: Mid, tone: Tone, packets: Seq<Packet>)
    requires
        playable(tone),
        delivers(packets, tone),
        !state.continues(tone.rtp_time.numer, tone.event),
    ensures
        state.fed_all(arrivals(mid, packets)).ready == state.ready + state.owed() + seq![
            report_of(mid, tone),
        ],
        state.fed_all(arrivals(mid, packets)).continues(tone.rtp_time.numer, tone.event),
        !state.fed_all(arrivals(mid, packets)).unreported(),
{
    let fed = arrivals(mid, packets);
    let full = min(tone.total as int, u16::MAX as int) as u16;
    law_series_length(tone);
    assert forall|i: int| #![trigger fed[i]] 0 <= i < fed.len() implies {
        &&& fed[i].mid == mid
        &&& fed[i].time == tone.rtp_time
        &&& fed[i].payload == packets[i].payload
        &&& fed[i].payload.event == tone.event
        &&& fed[i].payload.volume == tone.volume
        &&& fed[i].payload.duration <= full
        &&& fed[i].payload.end ==> fed[i].payload.duration == full
    } by {
        assert(tone.series().contains(packets[i]));
        let k = choose|k: int| 0 <= k < tone.series().len() && tone.series()[k] == packets[i];
        let last = tone.series().len() - 1;
        law_packet_survives_the_wire(tone, k);
        law_series_shape(tone, k);
        law_series_durations(tone, k);
        law_series_durations(tone, last);
        law_series_durations_grow(tone, k, last);
    }
    let e = choose|i: int| 0 <= i < packets.len() && (#[trigger] packets[i]).payload.end;
    assert(fed[e].payload.end);
    let k = lemma_first_end(fed);
    let upto = fed.take(k + 1);
    assert forall|i: int| 0 <= i < upto.len() implies (#[trigger] upto[i]).payload.duration
        <= full by {
        assert(upto[i] == fed[i]);
    }
    assert(upto[k].payload.duration == full);
    law_one_report_per_tone(state, fed, tone.rtp_time.numer, tone.event, k, full);
    law_progress_of_tone(state, fed, tone.rtp_time.numer, tone.event);
}

/// What arrives of several tones, one tone after the other.
pub open spec fn joined(deliveries: Seq<Seq<Packet>>) -> Seq<Packet>
    decreases deliveries.len(),
{
    if deliveries.len() == 0 {
        Seq::empty()
    } else {
        joined(deliveries.drop_last()) + deliveries.last()
    }
}

/// Tones that follow each other reach a receiver as one report each, in order,
/// even if packets are lost, repeated or reordered within a tone, as long as
/// one end packet of each arrives and no tone repeats both the RTP timestamp
/// and the event code of the one before it.
pub proof fn law_tones_are_received_in_order(
    state: Reception,
    mid: Mid,
    tones: Seq<Tone>,
    deliveries: Seq<Seq<Packet>>,
)
    requires
        tones.len() > 0,
        deliveries.len() == tones.len(),
        forall|i: int|
            0 <= i < tones.len() ==> playable(#[trigger] tones[i]) && delivers(
                deliveries[i],
                tones[i],
            ),
        forall|i: int| 0 < i < tones.len() ==> distinct(tones[i - 1], #[trigger] tones[i]),
        !state.continues(tones[0].rtp_time.numer, tones[0].event),
    ensures
        state.fed_all(arrivals(mid, joined(deliveries))).ready == state.ready + state.owed()
            + tones.map_values(|t: Tone| report_of(mid, t)),
        state.fed_all(arrivals(mid, joined(deliveries))).continues(
            tones.last().rtp_time.numer,
            tones.last().event,
        ),
        !state.fed_all(arrivals(mid, joined(deliveries))).unreported(),
    decreases tones.len(),
{
    let tone = tones.last();
    let delivery = deliveries.last();
    let earlier = tones.drop_last();
    let before = joined(deliveries.drop_last());
    let reports = tones.map_values(|t: Tone| report_of(mid, t));
    assert(playable(tones[tones.len() - 1]));
    assert(arrivals(mid, joined(deliveries)) =~= arrivals(mid, before) + arrivals(mid, delivery));
    lemma_fed_all_concat(state, arrivals(mid, before), arrivals(mid, delivery));
    if tones.len() == 1 {
        assert(arrivals(mid, before) =~= Seq::<Arrival>::empty());
        law_tone_is_received(state, mid, tone, delivery);
        assert(reports =~= seq![report_of(mid, tone)]);
    } else {
        assert forall|i: int| 0 <= i < earlier.len() implies playable(#[trigger] earlier[i])
            && delivers(deliveries.drop_last()[i], earlier[i]) by {
            assert(playable(tones[i]));
        }
        assert forall|i: int| 0 < i < earlier.len() implies distinct(
            earlier[i - 1],
            #[trigger] earlier[i],
        ) by {
            assert(distinct(tones[i - 1], tones[i]));
        }
        law_tones_are_received_in_order(state, mid, earlier, deliveries.drop_last());
        assert(distinct(tones[tones.len() - 2], tones[tones.len() - 1]));
        let known = state.fed_all(arrivals(mid, before));
        law_tone_is_received(known, mid, tone, delivery);
        assert(known.ready + known.owed() + seq![
            report_of(mid, tone),
        ] =~= state.ready + state.owed() + reports);
    }
}

/// All that a sender sends for its tones, fed to a receiver that has received
/// nothing before, comes out as one report per tone, in the order in which the
/// tones were queued.
pub proof fn law_sent_tones_are_received(mid: Mid, tones: Seq<Tone>)
    requires
        forall|i: int| 0 <= i < tones.len() ==> playable(#[trigger] tones[i]),
        forall|i: int| 0 < i < tones.len() ==> distinct(tones[i - 1], #[trigger] tones[i]),
    ensures
        Reception::idle().fed_all(arrivals(mid, packets_of(tones))).ready == tones.map_values(
            |t: Tone| report_of(mid, t),
        ),
{
    let state = Reception::idle();
    let reports = tones.map_values(|t: Tone| report_of(mid, t));
    if tones.len() == 0 {
        assert(arrivals(mid, packets_of(tones)) =~= Seq::<Arrival>::empty());
        assert(reports =~= Seq::empty());
    } else {
        let deliveries = tones.map_values(|t: Tone| t.series());
        lemma_joined_series(tones);
        assert forall|i: int| 0 <= i < tones.len() implies playable(#[trigger] tones[i])
            && delivers(deliveries[i], tones[i]) by {
            lemma_series_delivers(tones[i]);
        }
        law_tones_are_received_in_order(state, mid, tones, deliveries);
        assert(state.ready + state.owed() + reports =~= reports);
    }
}

/// The same holds with reports fetched anywhere between the packets: those
/// fetched, followed by those that wait, are what was ready or owed before and
/// one report per tone, in order.
pub proof fn law_fetched_tones_are_in_order(
    state: Reception,
    mid: Mid,
    tones: Seq<Tone>,
    deliveries: Seq<Seq<Packet>>,
    actions: Seq<Action>,
)
    requires
        tones.len() > 0,
        deliveries.len() == tones.len(),
        forall|i: int|
            0 <= i < tones.len() ==> playable(#[trigger] tones[i]) && delivers(
                deliveries[i],
                tones[i],
            ),
        forall|i: int| 0 < i < tones.len() ==> distinct(tones[i - 1], #[trigger] tones[i]),
        !state.continues(tones[0].rtp_time.numer, tones[0].event),
        fed_by(actions) == arrivals(mid, joined(deliveries)),
    ensures
        ({
            let end = (Session { known: state, fetched: Seq::empty() }).after_all(actions);
            end.fetched + end.known.ready == state.ready + state.owed() + tones.map_values(
                |t: Tone| report_of(mid, t),
            )
        }),
{
    law_fetching_makes_no_difference(state, actions);
    law_tones_are_received_in_order(state, mid, tones, deliveries);
}

/// The whole series of the tones, joined, are the packets that a sender sends.
proof fn lemma_joined_series(tones: Seq<Tone>)
    ensures
        joined(tones.map_values(|t: Tone| t.series())) == packets_of(tones),
    decreases tones.len(),
{
    if tones.len() > 0 {
        lemma_joined_series(tones.drop_last());
        assert(tones.map_values(|t: Tone| t.series()).drop_last() =~= tones.drop_last().map_values(
            |t: Tone| t.series(),
        ));
    }
}

} // verus!
