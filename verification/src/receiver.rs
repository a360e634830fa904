//! Aggregation of arriving packets into completed events.

use std::collections::VecDeque;

use vstd::prelude::*;

use crate::event::{Dtmf, DtmfEvent};
use crate::payload::{TelephoneEventPayload, MAX_VOLUME};
use crate::rtp::{Frequency, MediaTime, Mid};

verus! {

/// State for the telephone event currently being received.
#[derive(Debug, Clone, Copy)]
pub struct InProgress {
    /// The media (m-line) that the latest packet of this event was received on.
    pub mid: Mid,
    /// The RTP timestamp identifying this event.
    pub timestamp: u64,
    /// The payload clock rate of the latest packet of this event.
    pub frequency: Frequency,
    pub event: u8,
    pub volume: u8,
    /// Largest duration seen across the event's packets.
    pub duration: u16,
    /// Whether a completed `DtmfEvent` has already been emitted for this event.
    pub emitted: bool,
}

impl InProgress {
    /// What is reported of this event.
    pub open spec fn report(self, mid: Mid, freq: Frequency) -> DtmfEvent {
        DtmfEvent {
            mid,
            event: self.event,
            dtmf: Dtmf::of_code(self.event),
            volume: self.volume,
            duration: MediaTime { numer: self.duration as u64, frequency: freq },
        }
    }

    fn to_event(&self, mid: Mid, freq: Frequency) -> (r: DtmfEvent)
        ensures
            r == self.report(mid, freq),
    {
        DtmfEvent {
            mid,
            event: self.event,
            dtmf: Dtmf::from_event_code(self.event),
            volume: self.volume,
            duration: MediaTime::new(self.duration as u64, freq),
        }
    }
}

/// What a receiver knows: the event that it is receiving, if any, and the
/// completed events that wait to be fetched, oldest first.
#[verifier::ext_equal]
pub struct Reception {
    pub current: Option<InProgress>,
    pub ready: Seq<DtmfEvent>,
}

impl Reception {
    /// Nothing received yet.
    pub open spec fn idle() -> Reception {
        Reception { current: None, ready: Seq::empty() }
    }

    /// Whether a packet with this RTP timestamp and event code belongs to the
    /// event that is being received.
    pub open spec fn continues(self, timestamp: u64, event: u8) -> bool {
        self.current matches Some(c) && c.timestamp == timestamp && c.event == event
    }

    /// Whether the event that is being received has yet to be reported.
    pub open spec fn unreported(self) -> bool {
        self.current matches Some(c) && !c.emitted
    }

    /// The report of the event that is being received, for the given media and
    /// clock rate, unless it has been reported.
    pub open spec fn flushed(self, mid: Mid, freq: Frequency) -> Seq<DtmfEvent> {
        if self.unreported() {
            seq![self.current->0.report(mid, freq)]
        } else {
            Seq::empty()
        }
    }

    /// The report owed of the event that is being received, once another one
    /// takes its place: on the media and at the clock rate of its own packets.
    pub open spec fn owed(self) -> Seq<DtmfEvent> {
        self.flushed(self.current->0.mid, self.current->0.frequency)
    }

    /// What a receiver knows once it has ended the event that was being
    /// received.
    pub open spec fn after_flush(self, mid: Mid, freq: Frequency) -> Reception {
        Reception { current: None, ready: self.ready + self.flushed(mid, freq) }
    }

    /// The event that is being received once a packet has been taken in: the
    /// longest duration of its packets so far, and the media, clock rate and
    /// volume of the latest one. It is reported as soon as one of them carried
    /// the end bit.
    pub open spec fn progress(
        self,
        mid: Mid,
        time: MediaTime,
        payload: TelephoneEventPayload,
    ) -> InProgress {
        let same = self.continues(time.numer, payload.event);
        InProgress {
            mid,
            timestamp: time.numer,
            frequency: time.frequency,
            event: payload.event,
            volume: payload.volume,
            duration: if same && self.current->0.duration > payload.duration {
                self.current->0.duration
            } else {
                payload.duration
            },
            emitted: payload.end || (same && self.current->0.emitted),
        }
    }

    /// What a receiver knows after one more packet. A packet of another event
    /// flushes the previous one; the first end packet of an event reports it.
    pub open spec fn fed(
        self,
        mid: Mid,
        time: MediaTime,
        payload: TelephoneEventPayload,
    ) -> Reception {
        let same = self.continues(time.numer, payload.event);
        let progress = self.progress(mid, time, payload);
        let flushed = if same {
            Seq::empty()
        } else {
            self.owed()
        };
        let completed = if payload.end && !(same && self.current->0.emitted) {
            seq![progress.report(mid, time.frequency)]
        } else {
            Seq::empty()
        };
        Reception { current: Some(progress), ready: self.ready + flushed + completed }
    }
}

/// Reassembles incoming telephone-event (RFC 4733) packets into completed
/// [`DtmfEvent`]s.
#[derive(Debug)]
pub struct DtmfReceiver {
    current: Option<InProgress>,
    ready: VecDeque<DtmfEvent>,
}

impl View for DtmfReceiver {
    type V = Reception;

    closed spec fn view(&self) -> Reception {
        Reception { current: self.current, ready: self.ready@ }
    }
}

impl Default for DtmfReceiver {
    /// A receiver that has received nothing.
    fn default() -> (r: DtmfReceiver)
        ensures
            r@ == Reception::idle(),
            r@.current is None,
            r@.ready.len() == 0,
    {
        DtmfReceiver { current: None, ready: VecDeque::new() }
    }
}

impl DtmfReceiver {
    /// Feeds one depacketized telephone-event payload into the aggregator.
    ///
    /// `time` is the RTP timestamp of the packet (which identifies the event).
    pub fn feed(&mut self, mid: Mid, time: MediaTime, payload: TelephoneEventPayload)
        ensures
            final(self)@ == old(self)@.fed(mid, time, payload),
            ({
                let was = old(self)@;
                let now = final(self)@;
                let n = was.ready.len() as int;
                // The packet belongs to the event being received only if both
                // its timestamp and its event code are those of that event.
                let same = was.current is Some && was.current->0.timestamp == time.numer
                    && was.current->0.event == payload.event;
                // An event that another one replaces is reported if it was not yet.
                let flushes = was.current is Some && !same && !was.current->0.emitted;
                // The first end packet of an event reports it.
                let completes = payload.end && !(same && was.current->0.emitted);
                &&& now.current is Some
                &&& now.current->0.mid == mid
                &&& now.current->0.timestamp == time.numer
                &&& now.current->0.frequency == time.frequency
                &&& now.current->0.event == payload.event
                &&& now.current->0.volume == payload.volume
                &&& now.current->0.duration >= payload.duration
                &&& same ==> now.current->0.duration >= was.current->0.duration
                &&& now.current->0.duration == payload.duration || (same
                    && now.current->0.duration == was.current->0.duration)
                &&& now.current->0.emitted <==> payload.end || (same && was.current->0.emitted)
                &&& now.ready.len() == n + (if flushes {
                    1int
                } else {
                    0
                }) + (if completes {
                    1int
                } else {
                    0
                })
                &&& forall|i: int| 0 <= i < n ==> #[trigger] now.ready[i] == was.ready[i]
                &&& flushes ==> {
                    &&& now.ready[n].mid == was.current->0.mid
                    &&& now.ready[n].event == was.current->0.event
                    &&& now.ready[n].dtmf == Dtmf::of_code(was.current->0.event)
                    &&& now.ready[n].volume == was.current->0.volume
                    &&& now.ready[n].duration.numer == was.current->0.duration
                    &&& now.ready[n].duration.frequency == was.current->0.frequency
                }
                &&& completes ==> {
                    &&& now.ready.last().mid == mid
                    &&& now.ready.last().event == payload.event
                    &&& now.ready.last().dtmf == Dtmf::of_code(payload.event)
                    &&& now.ready.last().volume == payload.volume
                    &&& now.ready.last().duration.numer == now.current->0.duration
                    &&& now.ready.last().duration.frequency == time.frequency
                }
            }),
    {
        let ts: u64 = time.numer();

        let is_same: bool = match &self.current {
            Some(c) => c.timestamp == ts && c.event == payload.event,
            None => false,
        };

        if !is_same {
            // A new event started. If the previous one never emitted (its end
            // packets were lost), emit it now as a best effort.
            if let Some(c) = self.current {
                self.flush_current(c.mid, c.frequency);
            }
            self.current = Some(
                InProgress {
                    mid,
                    timestamp: ts,
                    frequency: time.frequency(),
                    event: payload.event,
                    volume: payload.volume,
                    duration: payload.duration,
                    emitted: false,
                },
            );
        }
        if let Some(current) = self.current.as_mut() {
            current.mid = mid;
            current.frequency = time.frequency();
            current.duration = current.duration.max(payload.duration);
            current.volume = payload.volume;

            if payload.end && !current.emitted {
                current.emitted = true;
                let ev: DtmfEvent = current.to_event(mid, time.frequency());
                self.ready.push_back(ev);
            }
        }
        assert(self@ =~= old(self)@.fed(mid, time, payload));
    }

    /// Pops the next completed [`DtmfEvent`], if any.
    pub fn poll(&mut self) -> (r: Option<DtmfEvent>)
        ensures
            final(self)@.current == old(self)@.current,
            match r {
                Some(ev) => {
                    &&& old(self)@.ready.len() > 0
                    &&& ev == old(self)@.ready[0]
                    &&& final(self)@.ready == old(self)@.ready.drop_first()
                },
                None => {
                    &&& old(self)@.ready.len() == 0
                    &&& final(self)@.ready == old(self)@.ready
                },
            },
    {
        self.ready.pop_front()
    }

    /// Ends the event that is being received, reporting it if that is still owed.
    fn flush_current(&mut self, mid: Mid, freq: Frequency)
        ensures
            final(self)@ == old(self)@.after_flush(mid, freq),
    {
        if let Some(current) = &self.current {
            if !current.emitted {
                let ev: DtmfEvent = current.to_event(mid, freq);
                self.ready.push_back(ev);
            }
        }
        self.current = None;
        assert(self@ =~= old(self)@.after_flush(mid, freq));
    }
}

/// A packet as it reaches a receiver.
pub struct Arrival {
    pub mid: Mid,
    pub time: MediaTime,
    pub payload: TelephoneEventPayload,
}

impl Reception {
    /// What a receiver knows after a number of packets.
    pub open spec fn fed_all(self, arrivals: Seq<Arrival>) -> Reception
        decreases arrivals.len(),
    {
        if arrivals.len() == 0 {
            self
        } else {
            let a = arrivals.last();
            self.fed_all(arrivals.drop_last()).fed(a.mid, a.time, a.payload)
        }
    }

    /// How many of the packets start an event other than the one received
    /// just before them.
    pub open spec fn starts(self, arrivals: Seq<Arrival>) -> nat
        decreases arrivals.len(),
    {
        if arrivals.len() == 0 {
            0
        } else {
            let a = arrivals.last();
            let before = arrivals.drop_last();
            self.starts(before) + if self.fed_all(before).continues(
                a.time.numer,
                a.payload.event,
            ) {
                0nat
            } else {
                1nat
            }
        }
    }

    /// How many events are known: those that wait to be fetched, and the one
    /// that is being received unless it has been reported.
    pub open spec fn known(self) -> nat {
        self.ready.len() + if self.unreported() {
            1nat
        } else {
            0nat
        }
    }
}

/// What every report keeps to.
pub open spec fn sound_report(report: DtmfEvent) -> bool {
    &&& report.dtmf == Dtmf::of_code(report.event)
    &&& report.volume <= MAX_VOLUME
    &&& report.duration.numer <= u16::MAX
}

impl Reception {
    /// All the waiting reports keep to what reports promise, and so will that of
    /// the event being received.
    pub open spec fn sound(self) -> bool {
        &&& forall|i: int| 0 <= i < self.ready.len() ==> sound_report(#[trigger] self.ready[i])
        &&& self.current matches Some(c) ==> c.volume <= MAX_VOLUME
    }
}

/// All the packets belong to the event with this RTP timestamp and code.
pub open spec fn same_tone(arrivals: Seq<Arrival>, timestamp: u64, event: u8) -> bool {
    forall|i: int|
        #![trigger arrivals[i]]
        0 <= i < arrivals.len() ==> arrivals[i].time.numer == timestamp
            && arrivals[i].payload.event == event
}

/// Whether one of the packets carries the end bit.
pub open spec fn has_end(arrivals: Seq<Arrival>) -> bool {
    exists|i: int| 0 <= i < arrivals.len() && (#[trigger] arrivals[i]).payload.end
}

/// The longest duration that one of the packets carries.
pub open spec fn is_longest(arrivals: Seq<Arrival>, duration: u16) -> bool {
    &&& forall|i: int|
        0 <= i < arrivals.len() ==> (#[trigger] arrivals[i]).payload.duration <= duration
    &&& exists|i: int|
        0 <= i < arrivals.len() && (#[trigger] arrivals[i]).payload.duration == duration
}

/// A packet belongs to the event that is being received exactly if both the RTP
/// timestamp and the event code are those of that event, whatever has been
/// reported, waits or has been fetched.
pub proof fn law_belonging_is_timestamp_and_code(state: Reception, timestamp: u64, event: u8)
    ensures
        state.continues(timestamp, event) <==> (state.current is Some
            && state.current->0.timestamp == timestamp && state.current->0.event == event),
        state.unreported() <==> (state.current is Some && !state.current->0.emitted),
{
}

/// Whatever a receiver knows, a packet with another RTP timestamp or another
/// event code than the event being received starts a new one. What is owed of
/// the previous event is reported first, and if the packet carries the end bit,
/// a report of that very packet comes last.
pub proof fn law_other_packet_starts_an_event(
    state: Reception,
    mid: Mid,
    time: MediaTime,
    payload: TelephoneEventPayload,
)
    requires
        state.current matches Some(c) ==> c.timestamp != time.numer || c.event != payload.event,
    ensures
        ({
            let after = state.fed(mid, time, payload);
            let n = state.ready.len() as int;
            let flushes = state.current is Some && !state.current->0.emitted;
            &&& after.current is Some
            &&& after.current->0.mid == mid
            &&& after.current->0.timestamp == time.numer
            &&& after.current->0.frequency == time.frequency
            &&& after.current->0.event == payload.event
            &&& after.current->0.volume == payload.volume
            &&& after.current->0.duration == payload.duration
            &&& after.current->0.emitted == payload.end
            &&& after.ready.len() == n + (if flushes {
                1int
            } else {
                0
            }) + (if payload.end {
                1int
            } else {
                0
            })
            &&& forall|i: int| 0 <= i < n ==> #[trigger] after.ready[i] == state.ready[i]
            &&& flushes ==> {
                &&& after.ready[n].mid == state.current->0.mid
                &&& after.ready[n].event == state.current->0.event
                &&& after.ready[n].volume == state.current->0.volume
                &&& after.ready[n].duration.numer == state.current->0.duration
                &&& after.ready[n].duration.frequency == state.current->0.frequency
            }
            &&& payload.end ==> {
                &&& after.ready.last().mid == mid
                &&& after.ready.last().event == payload.event
                &&& after.ready.last().volume == payload.volume
                &&& after.ready.last().duration.numer == payload.duration
                &&& after.ready.last().duration.frequency == time.frequency
            }
        }),
{
}

/// Whatever a receiver knows, a packet with the RTP timestamp and the event code
/// of the event being received starts no other: the longer of the two durations
/// is kept, and a report is added only if the packet carries the end bit and the
/// event had none yet.
pub proof fn law_same_packet_continues_the_event(
    state: Reception,
    mid: Mid,
    time: MediaTime,
    payload: TelephoneEventPayload,
)
    requires
        state.current is Some,
        state.current->0.timestamp == time.numer,
        state.current->0.event == payload.event,
    ensures
        ({
            let after = state.fed(mid, time, payload);
            let before = state.current->0;
            let n = state.ready.len() as int;
            let completes = payload.end && !before.emitted;
            &&& after.current is Some
            &&& after.current->0.mid == mid
            &&& after.current->0.timestamp == time.numer
            &&& after.current->0.frequency == time.frequency
            &&& after.current->0.event == payload.event
            &&& after.current->0.volume == payload.volume
            &&& after.current->0.duration >= before.duration
            &&& after.current->0.duration >= payload.duration
            &&& after.current->0.duration == before.duration || after.current->0.duration
                == payload.duration
            &&& after.current->0.emitted == (before.emitted || payload.end)
            &&& after.ready.len() == n + (if completes {
                1int
            } else {
                0
            })
            &&& forall|i: int| 0 <= i < n ==> #[trigger] after.ready[i] == state.ready[i]
            &&& completes ==> {
                &&& after.ready.last().mid == mid
                &&& after.ready.last().event == payload.event
                &&& after.ready.last().volume == payload.volume
                &&& after.ready.last().duration.numer == after.current->0.duration
                &&& after.ready.last().duration.frequency == time.frequency
            }
        }),
{
}

/// Two tones with the end bit that differ in RTP timestamp or event code give
/// two reports, also where everything that was ready is fetched in between.
pub proof fn law_two_tones_are_two_reports(state: Reception, first: Arrival, second: Arrival)
    requires
        first.payload.end,
        second.payload.end,
        first.time.numer != second.time.numer || first.payload.event != second.payload.event,
    ensures
        ({
            let once = state.fed(first.mid, first.time, first.payload);
            let fetched = Reception { current: once.current, ready: Seq::empty() };
            let kept = once.fed(second.mid, second.time, second.payload);
            let anew = fetched.fed(second.mid, second.time, second.payload);
            &&& kept.ready.len() == once.ready.len() + 1
            &&& anew.ready.len() == 1
            &&& kept.ready.last() == anew.ready[0]
            &&& anew.ready[0].mid == second.mid
            &&& anew.ready[0].event == second.payload.event
            &&& anew.ready[0].volume == second.payload.volume
            &&& anew.ready[0].duration.numer == second.payload.duration
            &&& anew.ready[0].duration.frequency == second.time.frequency
        }),
{
}

/// A report names the digit of its event code, and copies the event code, the
/// volume and the duration.
pub proof fn law_report_says_what_was_received(c: InProgress, mid: Mid, freq: Frequency)
    ensures
        c.report(mid, freq).mid == mid,
        c.report(mid, freq).event == c.event,
        c.report(mid, freq).volume == c.volume,
        c.report(mid, freq).duration.numer == c.duration,
        c.report(mid, freq).duration.frequency == freq,
        c.report(mid, freq).dtmf is Some <==> c.event <= 16,
        c.report(mid, freq).dtmf matches Some(d) ==> d.code() == c.event,
{
}

/// What can be done with a receiver.
pub enum Action {
    /// A packet is fed to it.
    Feed(Arrival),
    /// The oldest report is fetched, if there is one.
    Fetch,
}

/// A receiver together with the reports that were fetched from it, in order.
pub struct Session {
    pub known: Reception,
    pub fetched: Seq<DtmfEvent>,
}

impl Session {
    /// The session after one more action.
    pub open spec fn after(self, action: Action) -> Session {
        match action {
            Action::Feed(a) => Session {
                known: self.known.fed(a.mid, a.time, a.payload),
                fetched: self.fetched,
            },
            Action::Fetch => if self.known.ready.len() == 0 {
                self
            } else {
                Session {
                    known: Reception {
                        current: self.known.current,
                        ready: self.known.ready.drop_first(),
                    },
                    fetched: self.fetched.push(self.known.ready[0]),
                }
            },
        }
    }

    /// The session after a number of actions.
    pub open spec fn after_all(self, actions: Seq<Action>) -> Session
        decreases actions.len(),
    {
        if actions.len() == 0 {
            self
        } else {
            self.after_all(actions.drop_last()).after(actions.last())
        }
    }
}

/// The packets among a number of actions.
pub open spec fn fed_by(actions: Seq<Action>) -> Seq<Arrival>
    decreases actions.len(),
{
    if actions.len() == 0 {
        Seq::empty()
    } else {
        match actions.last() {
            Action::Feed(a) => fed_by(actions.drop_last()).push(a),
            Action::Fetch => fed_by(actions.drop_last()),
        }
    }
}

/// It makes no difference when reports are fetched: with fetches anywhere
/// between the packets, the reports that were fetched, followed by those that
/// wait, are the reports that the packets alone lead to, and the receiver goes
/// on as if nothing had been fetched.
pub proof fn law_fetching_makes_no_difference(state: Reception, actions: Seq<Action>)
    ensures
        ({
            let start = Session { known: state, fetched: Seq::empty() };
            let end = start.after_all(actions);
            let fed = state.fed_all(fed_by(actions));
            &&& end.fetched + end.known.ready == fed.ready
            &&& end.known.current == fed.current
        }),
    decreases actions.len(),
{
    let start = Session { known: state, fetched: Seq::empty() };
    if actions.len() == 0 {
        assert(Seq::<DtmfEvent>::empty() + state.ready =~= state.ready);
    } else {
        let earlier = actions.drop_last();
        law_fetching_makes_no_difference(state, earlier);
        let before = start.after_all(earlier);
        let end = start.after_all(actions);
        match actions.last() {
            Action::Feed(a) => {
                assert(fed_by(actions).drop_last() =~= fed_by(earlier));
                assert(end.fetched + end.known.ready =~= state.fed_all(fed_by(actions)).ready);
            },
            Action::Fetch => {
                assert(end.fetched + end.known.ready =~= before.fetched + before.known.ready);
            },
        }
    }
}

/// Every event that starts is reported exactly once, at the latest when the
/// next one starts: the events known grow by one with each packet that starts
/// an event, and by none with the others.
pub proof fn law_one_report_per_start(state: Reception, arrivals: Seq<Arrival>)
    ensures
        state.fed_all(arrivals).known() == state.known() + state.starts(arrivals),
    decreases arrivals.len(),
{
    if arrivals.len() > 0 {
        law_one_report_per_start(state, arrivals.drop_last());
    }
}

/// Feeding packets takes no waiting event away and does not reorder them.
pub proof fn law_reports_are_kept(state: Reception, arrivals: Seq<Arrival>)
    ensures
        state.ready.is_prefix_of(state.fed_all(arrivals).ready),
    decreases arrivals.len(),
{
    if arrivals.len() > 0 {
        law_reports_are_kept(state, arrivals.drop_last());
    }
}

/// Once an event has been reported, its further packets report nothing, be
/// they repeated end packets or late ones.
pub proof fn law_reported_once(
    state: Reception,
    mid: Mid,
    time: MediaTime,
    payload: TelephoneEventPayload,
)
    requires
        state.continues(time.numer, payload.event),
        !state.unreported(),
    ensures
        state.fed(mid, time, payload).ready == state.ready,
        !state.fed(mid, time, payload).unreported(),
{
    assert(state.fed(mid, time, payload).ready =~= state.ready);
}

/// Reports keep to what they promise: the digit is the one that the event code
/// stands for, the duration is one that a payload can carry, and the volume
/// stays within six bits as long as that of the packets does.
pub proof fn law_reports_are_sound(state: Reception, arrivals: Seq<Arrival>)
    requires
        state.sound(),
        forall|i: int|
            0 <= i < arrivals.len() ==> (#[trigger] arrivals[i]).payload.volume <= MAX_VOLUME,
    ensures
        state.fed_all(arrivals).sound(),
    decreases arrivals.len(),
{
    if arrivals.len() > 0 {
        let a = arrivals.last();
        let before = arrivals.drop_last();
        assert(arrivals[arrivals.len() - 1] == a);
        assert forall|i: int| 0 <= i < before.len() implies (
        #[trigger] before[i]).payload.volume <= MAX_VOLUME by {
            assert(before[i] == arrivals[i]);
        }
        law_reports_are_sound(state, before);
        let known = state.fed_all(before);
        let after = known.fed(a.mid, a.time, a.payload);
        assert forall|i: int| 0 <= i < after.ready.len() implies sound_report(
            #[trigger] after.ready[i],
        ) by {
            if i < known.ready.len() {
                assert(after.ready[i] == known.ready[i]);
            }
        }
    }
}

/// Once the event in progress has been flushed, nothing more is owed of it:
/// another flush, for whatever media and clock rate, changes nothing.
pub proof fn law_second_flush_changes_nothing(
    state: Reception,
    mid: Mid,
    freq: Frequency,
    other_mid: Mid,
    other_freq: Frequency,
)
    ensures
        state.current is None ==> state.flushed(mid, freq) == Seq::<DtmfEvent>::empty(),
        state.after_flush(mid, freq).after_flush(other_mid, other_freq) == state.after_flush(
            mid,
            freq,
        ),
{
    let once = state.after_flush(mid, freq);
    assert(once.after_flush(other_mid, other_freq) =~= once);
}

/// Packets that reach a receiver one after the other may be split anywhere.
pub proof fn lemma_fed_all_concat(state: Reception, first: Seq<Arrival>, second: Seq<Arrival>)
    ensures
        state.fed_all(first + second) == state.fed_all(first).fed_all(second),
    decreases second.len(),
{
    if second.len() == 0 {
        assert(first + second =~= first);
    } else {
        lemma_fed_all_concat(state, first, second.drop_last());
        assert((first + second).drop_last() =~= first + second.drop_last());
    }
}

/// While the packets of one tone arrive, the receiver knows the longest
/// duration among them and the media, clock rate and volume of the latest one,
/// and has reported the tone once one of them carried the end bit.
pub proof fn law_progress_of_tone(
    state: Reception,
    arrivals: Seq<Arrival>,
    timestamp: u64,
    event: u8,
)
    requires
        arrivals.len() > 0,
        same_tone(arrivals, timestamp, event),
        !state.continues(timestamp, event),
    ensures
        state.fed_all(arrivals).continues(timestamp, event),
        is_longest(arrivals, state.fed_all(arrivals).current->0.duration),
        state.fed_all(arrivals).current->0.volume == arrivals.last().payload.volume,
        state.fed_all(arrivals).current->0.mid == arrivals.last().mid,
        state.fed_all(arrivals).current->0.frequency == arrivals.last().time.frequency,
        state.fed_all(arrivals).unreported() <==> !has_end(arrivals),
    decreases arrivals.len(),
{
    let before = arrivals.drop_last();
    let a = arrivals.last();
    assert(arrivals[arrivals.len() - 1] == a);
    assert forall|i: int| 0 <= i < before.len() implies before[i] == arrivals[i] by {}
    if before.len() > 0 {
        law_progress_of_tone(state, before, timestamp, event);
        let known = state.fed_all(before).current->0.duration;
        let longest = choose|i: int|
            0 <= i < before.len() && (#[trigger] before[i]).payload.duration == known;
        assert(arrivals[longest].payload.duration == known);
        if has_end(before) {
            let e = choose|i: int| 0 <= i < before.len() && (#[trigger] before[i]).payload.end;
            assert(arrivals[e].payload.end);
        } else if has_end(arrivals) {
            let e = choose|i: int| 0 <= i < arrivals.len() && (#[trigger] arrivals[i]).payload.end;
            assert(e < before.len() ==> before[e].payload.end);
        }
    }
}

/// A tone is not reported before one of its end packets has arrived: its first
/// packet flushes what is owed of the previous event, and nothing else is
/// reported.
pub proof fn law_no_report_before_the_end(
    state: Reception,
    arrivals: Seq<Arrival>,
    timestamp: u64,
    event: u8,
)
    requires
        arrivals.len() > 0,
        same_tone(arrivals, timestamp, event),
        !has_end(arrivals),
        !state.continues(timestamp, event),
    ensures
        state.fed_all(arrivals).ready == state.ready + state.owed(),
    decreases arrivals.len(),
{
    let before = arrivals.drop_last();
    assert(!arrivals[arrivals.len() - 1].payload.end);
    assert forall|i: int| 0 <= i < before.len() implies before[i] == arrivals[i] by {}
    if before.len() > 0 {
        law_no_report_before_the_end(state, before, timestamp, event);
        law_progress_of_tone(state, before, timestamp, event);
    }
    assert(state.fed_all(arrivals).ready =~= state.ready + state.owed());
}

/// The packets of one tone, in whatever order and number they arrive, yield a
/// single report as soon as one of them, here packet `k`, carries the end bit.
/// The report has the volume of that packet and the longest duration up to it,
/// and it follows what was owed of the previous event.
pub proof fn law_one_report_per_tone(
    state: Reception,
    arrivals: Seq<Arrival>,
    timestamp: u64,
    event: u8,
    k: int,
    longest: u16,
)
    requires
        same_tone(arrivals, timestamp, event),
        0 <= k < arrivals.len(),
        arrivals[k].payload.end,
        !has_end(arrivals.take(k)),
        is_longest(arrivals.take(k + 1), longest),
        !state.continues(timestamp, event),
    ensures
        state.fed_all(arrivals).ready == state.ready + state.owed() + seq![
            DtmfEvent {
                mid: arrivals[k].mid,
                event,
                dtmf: Dtmf::of_code(event),
                volume: arrivals[k].payload.volume,
                duration: MediaTime {
                    numer: longest as u64,
                    frequency: arrivals[k].time.frequency,
                },
            },
        ],
    decreases arrivals.len(),
{
    let before = arrivals.drop_last();
    let a = arrivals.last();
    assert(arrivals[arrivals.len() - 1] == a);
    assert forall|i: int| 0 <= i < before.len() implies before[i] == arrivals[i] by {}
    if k < before.len() {
        assert(before.take(k) =~= arrivals.take(k));
        assert(before.take(k + 1) =~= arrivals.take(k + 1));
        law_one_report_per_tone(state, before, timestamp, event, k, longest);
        law_progress_of_tone(state, before, timestamp, event);
        assert(before[k].payload.end);
        law_reported_once(state.fed_all(before), a.mid, a.time, a.payload);
    } else {
        assert(arrivals.take(k) =~= before);
        assert(arrivals.take(k + 1) =~= arrivals);
        if k > 0 {
            law_no_report_before_the_end(state, before, timestamp, event);
            law_progress_of_tone(state, before, timestamp, event);
        }
        law_progress_of_tone(state, arrivals, timestamp, event);
        lemma_longest_is_unique(
            arrivals,
            longest,
            state.fed_all(arrivals).current->0.duration,
        );
        assert(state.fed_all(arrivals).ready =~= state.ready + state.owed() + seq![
            state.fed_all(arrivals).current->0.report(a.mid, a.time.frequency),
        ]);
    }
}

/// There is but one longest duration.
proof fn lemma_longest_is_unique(arrivals: Seq<Arrival>, x: u16, y: u16)
    requires
        is_longest(arrivals, x),
        is_longest(arrivals, y),
    ensures
        x == y,
{
    let i = choose|i: int| 0 <= i < arrivals.len() && (#[trigger] arrivals[i]).payload.duration == x;
    let j = choose|j: int| 0 <= j < arrivals.len() && (#[trigger] arrivals[j]).payload.duration == y;
    assert(arrivals[i].payload.duration <= y);
    assert(arrivals[j].payload.duration <= x);
}

/// If every end packet of a tone is lost, the tone is reported when a packet of
/// another one arrives, ahead of whatever that packet reports. The report has the
/// longest duration that was seen of the tone, and the media, clock rate and
/// volume of its own latest packet, not of the packet that flushes it.
pub proof fn law_unfinished_tone_is_flushed(
    state: Reception,
    arrivals: Seq<Arrival>,
    timestamp: u64,
    event: u8,
    longest: u16,
    next: Arrival,
)
    requires
        arrivals.len() > 0,
        same_tone(arrivals, timestamp, event),
        is_longest(arrivals, longest),
        !has_end(arrivals),
        !state.continues(timestamp, event),
        next.time.numer != timestamp || next.payload.event != event,
    ensures
        (state.ready + state.owed() + seq![
            DtmfEvent {
                mid: arrivals.last().mid,
                event,
                dtmf: Dtmf::of_code(event),
                volume: arrivals.last().payload.volume,
                duration: MediaTime {
                    numer: longest as u64,
                    frequency: arrivals.last().time.frequency,
                },
            },
        ]).is_prefix_of(state.fed_all(arrivals.push(next)).ready),
        state.fed_all(arrivals.push(next)).continues(next.time.numer, next.payload.event),
{
    law_no_report_before_the_end(state, arrivals, timestamp, event);
    law_progress_of_tone(state, arrivals, timestamp, event);
    let known = state.fed_all(arrivals);
    lemma_longest_is_unique(arrivals, longest, known.current->0.duration);
    assert(arrivals.push(next).drop_last() =~= arrivals);
    let after = known.fed(next.mid, next.time, next.payload);
    let owed = state.ready + state.owed() + seq![
        known.current->0.report(arrivals.last().mid, arrivals.last().time.frequency),
    ];
    assert(known.ready + known.owed() =~= owed);
    assert(owed =~= after.ready.take(owed.len() as int));
}

/// Where there is an end packet, there is a first one.
pub proof fn lemma_first_end(arrivals: Seq<Arrival>) -> (k: int)
    requires
        has_end(arrivals),
    ensures
        0 <= k < arrivals.len(),
        arrivals[k].payload.end,
        !has_end(arrivals.take(k)),
    decreases arrivals.len(),
{
    let e = choose|i: int| 0 <= i < arrivals.len() && (#[trigger] arrivals[i]).payload.end;
    let before = arrivals.take(e);
    if has_end(before) {
        let k = lemma_first_end(before);
        assert(before[k] == arrivals[k]);
        assert(before.take(k) =~= arrivals.take(k));
        k
    } else {
        e
    }
}

} // verus!
