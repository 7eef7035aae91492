//! How a state changes under batches of events, and what its answers are
//! afterwards.
//!
//! [`Snapshot::apply`] records the events of a batch one by one. The lemmas
//! here say what that comes to for each key: what a batch mentions is dated by
//! the batch's one time, what it does not mention is left alone, and nothing is
//! ever forgotten.

use vstd::prelude::*;
use crate::decode::decoding_of;
use crate::event::Event;
use crate::kinds::{Instrument, Measure};
use crate::state::{elapsed_since, Elapsed, Snapshot, Timestamp};
use crate::wire::MessageView;

verus! {

impl Snapshot {
    /// The time, asked at `now`, since the key that `event` names was last
    /// heard from. Playhead positions are stored without a time.
    pub open spec fn since(self, event: Event, now: Timestamp) -> Option<Elapsed> {
        match event {
            Event::NoteOn(inst) => self.since_note_on(inst, now),
            Event::PlayheadBang(meas) => self.since_measure(meas, now),
            Event::PlayheadPosition(_, _) => None,
        }
    }

    /// Whether nothing in this state is dated after `time`.
    pub open spec fn dated_by(self, time: Timestamp) -> bool {
        &&& forall|inst: Instrument| #[trigger]
            self.note_ons.contains_key(inst) ==> self.note_ons[inst] <= time
        &&& forall|meas: Measure| #[trigger]
            self.playhead_bangs.contains_key(meas) ==> self.playhead_bangs[meas] <= time
    }

    /// Applying one batch behind another is applying both as one, where both
    /// were observed at the same time.
    pub proof fn lemma_apply_in_two_parts(
        self,
        first: Seq<Event>,
        second: Seq<Event>,
        at: Timestamp,
    )
        ensures
            self.apply(first + second, at) == self.apply(first, at).apply(second, at),
        decreases second.len(),
    {
        if second.len() == 0 {
            assert(first + second =~= first);
        } else {
            assert((first + second).drop_last() =~= first + second.drop_last());
            self.lemma_apply_in_two_parts(first, second.drop_last(), at);
        }
    }

    /// What a batch does to the note ons: an instrument that the batch
    /// mentions was last heard at the batch's time, and the entry of every
    /// other instrument is as it was.
    pub proof fn lemma_apply_note_ons(self, events: Seq<Event>, at: Timestamp, inst: Instrument)
        ensures
            self.apply(events, at).note_ons.get(inst) == if events.contains(Event::NoteOn(inst)) {
                Some(at)
            } else {
                self.note_ons.get(inst)
            },
        decreases events.len(),
    {
        if events.len() > 0 {
            let before = events.drop_last();
            self.lemma_apply_note_ons(before, at, inst);
            if events.contains(Event::NoteOn(inst)) {
                let k = choose|k: int| 0 <= k < events.len() && events[k] == Event::NoteOn(inst);
                if k < events.len() - 1 {
                    assert(before[k] == Event::NoteOn(inst));
                }
            } else {
                assert forall|k: int| 0 <= k < before.len() implies before[k] != Event::NoteOn(
                    inst,
                ) by {
                    assert(events[k] == before[k]);
                }
                assert(events.last() == events[events.len() - 1]);
            }
        }
    }

    /// What a batch does to the playhead bangs: a measure that the batch
    /// mentions was last heard at the batch's time, and the entry of every
    /// other measure is as it was.
    pub proof fn lemma_apply_playhead_bangs(self, events: Seq<Event>, at: Timestamp, meas: Measure)
        ensures
            self.apply(events, at).playhead_bangs.get(meas) == if events.contains(
                Event::PlayheadBang(meas),
            ) {
                Some(at)
            } else {
                self.playhead_bangs.get(meas)
            },
        decreases events.len(),
    {
        if events.len() > 0 {
            let before = events.drop_last();
            self.lemma_apply_playhead_bangs(before, at, meas);
            if events.contains(Event::PlayheadBang(meas)) {
                let k = choose|k: int|
                    0 <= k < events.len() && events[k] == Event::PlayheadBang(meas);
                if k < events.len() - 1 {
                    assert(before[k] == Event::PlayheadBang(meas));
                }
            } else {
                assert forall|k: int| 0 <= k < before.len() implies before[k]
                    != Event::PlayheadBang(meas) by {
                    assert(events[k] == before[k]);
                }
                assert(events.last() == events[events.len() - 1]);
            }
        }
    }

    /// What a batch does to the playhead positions: the position of a measure
    /// is the one that the last event for that measure carried, whatever stood
    /// before or came behind it in the batch for other keys.
    pub proof fn lemma_apply_playhead_positions(
        self,
        events: Seq<Event>,
        at: Timestamp,
        meas: Measure,
        last: int,
    )
        requires
            0 <= last < events.len(),
            events[last] matches Event::PlayheadPosition(m, _) && m == meas,
            forall|k: int|
                last < k < events.len() ==> !(#[trigger] events[k] matches Event::PlayheadPosition(
                    m,
                    _,
                ) && m == meas),
        ensures
            self.apply(events, at).position(meas) == Some(events[last]->PlayheadPosition_1),
        decreases events.len(),
    {
        if last < events.len() - 1 {
            let before = events.drop_last();
            assert(before[last] == events[last]);
            assert forall|k: int| last < k < before.len() implies !(
            #[trigger] before[k] matches Event::PlayheadPosition(m, _) && m == meas) by {
                assert(before[k] == events[k]);
            }
            self.lemma_apply_playhead_positions(before, at, meas, last);
            assert(events.last() == events[events.len() - 1]);
        }
    }

    /// No batch mentions a position without a playhead-position event: the
    /// position of a measure that the batch gives no position for is as it was.
    pub proof fn lemma_apply_keeps_position(self, events: Seq<Event>, at: Timestamp, meas: Measure)
        requires
            forall|k: int|
                0 <= k < events.len() ==> !(#[trigger] events[k] matches Event::PlayheadPosition(
                    m,
                    _,
                ) && m == meas),
        ensures
            self.apply(events, at).position(meas) == self.position(meas),
        decreases events.len(),
    {
        if events.len() > 0 {
            let before = events.drop_last();
            assert forall|k: int| 0 <= k < before.len() implies !(
            #[trigger] before[k] matches Event::PlayheadPosition(m, _) && m == meas) by {
                assert(before[k] == events[k]);
            }
            self.lemma_apply_keeps_position(before, at, meas);
            assert(events.last() == events[events.len() - 1]);
        }
    }

    /// Entries are set or overwritten, never removed: every key that had an
    /// entry before a batch has one after it.
    pub proof fn lemma_apply_keeps_entries(self, events: Seq<Event>, at: Timestamp)
        ensures
            self.note_ons.dom().subset_of(self.apply(events, at).note_ons.dom()),
            self.playhead_bangs.dom().subset_of(self.apply(events, at).playhead_bangs.dom()),
            self.playhead_positions.dom().subset_of(
                self.apply(events, at).playhead_positions.dom(),
            ),
        decreases events.len(),
    {
        if events.len() > 0 {
            self.lemma_apply_keeps_entries(events.drop_last(), at);
        }
    }

    /// Where batches are applied in the order in which they were observed, no
    /// time in the state ever goes back: if nothing was dated after the batch's
    /// time, then nothing is afterwards, and each key that had a time has one
    /// that is no earlier.
    pub proof fn lemma_apply_in_order(self, events: Seq<Event>, at: Timestamp)
        requires
            self.dated_by(at),
        ensures
            self.apply(events, at).dated_by(at),
            forall|inst: Instrument| #[trigger]
                self.note_ons.contains_key(inst) ==> self.apply(events, at).note_ons.contains_key(
                    inst,
                ) && self.note_ons[inst] <= self.apply(events, at).note_ons[inst],
            forall|meas: Measure| #[trigger]
                self.playhead_bangs.contains_key(meas) ==> self.apply(
                    events,
                    at,
                ).playhead_bangs.contains_key(meas) && self.playhead_bangs[meas] <= self.apply(
                    events,
                    at,
                ).playhead_bangs[meas],
    {
        let after = self.apply(events, at);
        assert forall|inst: Instrument| #[trigger]
            after.note_ons.contains_key(inst) implies after.note_ons[inst] <= at by {
            self.lemma_apply_note_ons(events, at, inst);
        }
        assert forall|meas: Measure| #[trigger]
            after.playhead_bangs.contains_key(meas) implies after.playhead_bangs[meas] <= at by {
            self.lemma_apply_playhead_bangs(events, at, meas);
        }
        assert forall|inst: Instrument| #[trigger]
            self.note_ons.contains_key(inst) implies after.note_ons.contains_key(inst)
            && self.note_ons[inst] <= after.note_ons[inst] by {
            self.lemma_apply_note_ons(events, at, inst);
        }
        assert forall|meas: Measure| #[trigger]
            self.playhead_bangs.contains_key(meas) implies after.playhead_bangs.contains_key(meas)
            && self.playhead_bangs[meas] <= after.playhead_bangs[meas] by {
            self.lemma_apply_playhead_bangs(events, at, meas);
        }
    }

    /// Before anything is applied, no instrument and no measure has been heard
    /// from, and no position is known.
    pub proof fn lemma_empty_knows_nothing(inst: Instrument, meas: Measure, now: Timestamp)
        ensures
            Snapshot::empty().since_note_on(inst, now) is None,
            Snapshot::empty().since_measure(meas, now) is None,
            Snapshot::empty().position(meas) is None,
    {
    }

    /// An instrument that has not been heard from stays so under every batch
    /// that does not mention it.
    pub proof fn lemma_unheard_instrument(
        self,
        events: Seq<Event>,
        at: Timestamp,
        inst: Instrument,
        now: Timestamp,
    )
        requires
            !self.note_ons.contains_key(inst),
            !events.contains(Event::NoteOn(inst)),
        ensures
            self.apply(events, at).since_note_on(inst, now) is None,
    {
        self.lemma_apply_note_ons(events, at, inst);
    }

    /// Once a batch observed at `at` has mentioned an instrument, a query at
    /// any time from `at` on gives the time that has gone by since `at`.
    pub proof fn lemma_heard_instrument(
        self,
        events: Seq<Event>,
        at: Timestamp,
        inst: Instrument,
        now: Timestamp,
    )
        requires
            events.contains(Event::NoteOn(inst)),
            at <= now,
        ensures
            self.apply(events, at).since_note_on(inst, now) == Some((now - at) as Elapsed),
    {
        self.lemma_apply_note_ons(events, at, inst);
    }

    /// Once a batch observed at `at` has mentioned a measure, a query at any
    /// time from `at` on gives the time that has gone by since `at`.
    pub proof fn lemma_heard_measure(
        self,
        events: Seq<Event>,
        at: Timestamp,
        meas: Measure,
        now: Timestamp,
    )
        requires
            events.contains(Event::PlayheadBang(meas)),
            at <= now,
        ensures
            self.apply(events, at).since_measure(meas, now) == Some((now - at) as Elapsed),
    {
        self.lemma_apply_playhead_bangs(events, at, meas);
    }

    /// Of two queries about the same key in the same state, the later one
    /// gives the longer time, by as much as it is later.
    pub proof fn lemma_later_query_longer(self, event: Event, earlier: Timestamp, later: Timestamp)
        requires
            self.since(event, earlier) is Some,
            earlier < later,
        ensures
            self.since(event, later) is Some,
            self.since(event, earlier)->0 < self.since(event, later)->0,
            self.since(event, later)->0 - self.since(event, earlier)->0 == later - earlier,
    {
    }

    /// All events of a batch share one time: whatever two keys a batch has
    /// mentioned, queries about them at the same moment give the same answer.
    pub proof fn lemma_batch_shares_time(
        self,
        events: Seq<Event>,
        at: Timestamp,
        one: Event,
        other: Event,
        now: Timestamp,
    )
        requires
            events.contains(one),
            events.contains(other),
            !(one is PlayheadPosition),
            !(other is PlayheadPosition),
        ensures
            self.apply(events, at).since(one, now) == self.apply(events, at).since(other, now),
            self.apply(events, at).since(one, now) == elapsed_since(at, now),
    {
        self.lemma_since_mentioned(events, at, one, now);
        self.lemma_since_mentioned(events, at, other, now);
    }

    /// The time since a key that a batch observed at `at` has mentioned.
    proof fn lemma_since_mentioned(
        self,
        events: Seq<Event>,
        at: Timestamp,
        event: Event,
        now: Timestamp,
    )
        requires
            events.contains(event),
            !(event is PlayheadPosition),
        ensures
            self.apply(events, at).since(event, now) == elapsed_since(at, now),
    {
        match event {
            Event::NoteOn(inst) => {
                self.lemma_apply_note_ons(events, at, inst);
            },
            Event::PlayheadBang(meas) => {
                self.lemma_apply_playhead_bangs(events, at, meas);
            },
            Event::PlayheadPosition(_, _) => {},
        }
    }

    /// The messages of a packet are applied as one batch: the state after
    /// `msgs` is the state after all their events, in order, with one time.
    pub proof fn lemma_messages_are_one_batch(self, msgs: Seq<MessageView>, at: Timestamp)
        ensures
            self.apply_messages(msgs, at) == self.apply(events_of(msgs), at),
        decreases msgs.len(),
    {
        if msgs.len() > 0 {
            self.lemma_messages_are_one_batch(msgs.drop_last(), at);
            self.lemma_apply_in_two_parts(
                events_of(msgs.drop_last()),
                decoding_of(msgs.last()).events,
                at,
            );
        }
    }
}

/// The events of all of `msgs`, in order.
pub open spec fn events_of(msgs: Seq<MessageView>) -> Seq<Event>
    decreases msgs.len(),
{
    if msgs.len() == 0 {
        Seq::empty()
    } else {
        events_of(msgs.drop_last()) + decoding_of(msgs.last()).events
    }
}

/// A batch of events and the time at which it was observed.
pub ghost struct Batch {
    pub events: Seq<Event>,
    pub at: Timestamp,
}

/// The state after `batches` were applied, first to last, to the empty state.
pub open spec fn replay(batches: Seq<Batch>) -> Snapshot
    decreases batches.len(),
{
    if batches.len() == 0 {
        Snapshot::empty()
    } else {
        replay(batches.drop_last()).apply(batches.last().events, batches.last().at)
    }
}

/// Whether `batches` stand in the order in which they were observed.
pub open spec fn in_order(batches: Seq<Batch>) -> bool {
    forall|i: int, j: int| 0 <= i <= j < batches.len() ==> batches[i].at <= batches[j].at
}

/// As long as no batch has mentioned an instrument, there is no time since
/// its last note on, whenever one asks.
pub proof fn lemma_never_heard_instrument(batches: Seq<Batch>, inst: Instrument, now: Timestamp)
    requires
        forall|k: int|
            0 <= k < batches.len() ==> !(#[trigger] batches[k]).events.contains(
                Event::NoteOn(inst),
            ),
    ensures
        replay(batches).since_note_on(inst, now) is None,
    decreases batches.len(),
{
    if batches.len() > 0 {
        let before = batches.drop_last();
        assert forall|k: int| 0 <= k < before.len() implies !(#[trigger] before[k]).events.contains(
            Event::NoteOn(inst),
        ) by {
            assert(before[k] == batches[k]);
        }
        lemma_never_heard_instrument(before, inst, now);
        assert(batches.last() == batches[batches.len() - 1]);
        replay(before).lemma_apply_note_ons(batches.last().events, batches.last().at, inst);
    }
}

/// As long as no batch has mentioned a measure, there is no time since its
/// last playhead bang, whenever one asks.
pub proof fn lemma_never_heard_measure(batches: Seq<Batch>, meas: Measure, now: Timestamp)
    requires
        forall|k: int|
            0 <= k < batches.len() ==> !(#[trigger] batches[k]).events.contains(
                Event::PlayheadBang(meas),
            ),
    ensures
        replay(batches).since_measure(meas, now) is None,
    decreases batches.len(),
{
    if batches.len() > 0 {
        let before = batches.drop_last();
        assert forall|k: int| 0 <= k < before.len() implies !(#[trigger] before[k]).events.contains(
            Event::PlayheadBang(meas),
        ) by {
            assert(before[k] == batches[k]);
        }
        lemma_never_heard_measure(before, meas, now);
        assert(batches.last() == batches[batches.len() - 1]);
        replay(before).lemma_apply_playhead_bangs(batches.last().events, batches.last().at, meas);
    }
}

/// An instrument was last heard at the time of the last batch that mentioned
/// it.
pub proof fn lemma_last_heard_instrument(batches: Seq<Batch>, inst: Instrument, last: int)
    requires
        0 <= last < batches.len(),
        batches[last].events.contains(Event::NoteOn(inst)),
        forall|k: int|
            last < k < batches.len() ==> !(#[trigger] batches[k]).events.contains(
                Event::NoteOn(inst),
            ),
    ensures
        replay(batches).note_ons.get(inst) == Some(batches[last].at),
    decreases batches.len(),
{
    let before = batches.drop_last();
    assert(batches.last() == batches[batches.len() - 1]);
    replay(before).lemma_apply_note_ons(batches.last().events, batches.last().at, inst);
    if last < batches.len() - 1 {
        assert(before[last] == batches[last]);
        assert forall|k: int| last < k < before.len() implies !(
        #[trigger] before[k]).events.contains(Event::NoteOn(inst)) by {
            assert(before[k] == batches[k]);
        }
        lemma_last_heard_instrument(before, inst, last);
    }
}

/// A measure was last heard at the time of the last batch that mentioned it.
pub proof fn lemma_last_heard_measure(batches: Seq<Batch>, meas: Measure, last: int)
    requires
        0 <= last < batches.len(),
        batches[last].events.contains(Event::PlayheadBang(meas)),
        forall|k: int|
            last < k < batches.len() ==> !(#[trigger] batches[k]).events.contains(
                Event::PlayheadBang(meas),
            ),
    ensures
        replay(batches).playhead_bangs.get(meas) == Some(batches[last].at),
    decreases batches.len(),
{
    let before = batches.drop_last();
    assert(batches.last() == batches[batches.len() - 1]);
    replay(before).lemma_apply_playhead_bangs(batches.last().events, batches.last().at, meas);
    if last < batches.len() - 1 {
        assert(before[last] == batches[last]);
        assert forall|k: int| last < k < before.len() implies !(
        #[trigger] before[k]).events.contains(Event::PlayheadBang(meas)) by {
            assert(before[k] == batches[k]);
        }
        lemma_last_heard_measure(before, meas, last);
    }
}

/// Where batches are applied in the order in which they were observed,
/// nothing in the state is dated after the last batch: from then on every
/// query about a key that has been heard from has an answer.
pub proof fn lemma_replay_in_order(batches: Seq<Batch>, now: Timestamp)
    requires
        in_order(batches),
        batches.len() > 0,
        batches.last().at <= now,
    ensures
        replay(batches).dated_by(batches.last().at),
        forall|inst: Instrument| #[trigger]
            replay(batches).note_ons.contains_key(inst) ==> replay(batches).since_note_on(inst, now)
                is Some,
        forall|meas: Measure| #[trigger]
            replay(batches).playhead_bangs.contains_key(meas) ==> replay(batches).since_measure(
                meas,
                now,
            ) is Some,
    decreases batches.len(),
{
    let before = batches.drop_last();
    let last = batches.last();
    assert(last == batches[batches.len() - 1]);
    if before.len() > 0 {
        assert(before.last() == batches[batches.len() - 2]);
        assert forall|i: int, j: int| 0 <= i <= j < before.len() implies before[i].at
            <= before[j].at by {
            assert(before[i] == batches[i]);
            assert(before[j] == batches[j]);
        }
        lemma_replay_in_order(before, last.at);
    }
    assert(replay(before).dated_by(last.at));
    replay(before).lemma_apply_in_order(last.events, last.at);
}

} // verus!
