//! The most recently observed state of Jen.
//!
//! A [`State`] remembers, for each instrument and each measure, when it was
//! last heard from, and for each measure the last playhead position given. It
//! reads no clock: whoever applies a batch of events says when the batch was
//! observed, and whoever asks how long ago something happened says what time
//! it is now.

use vstd::prelude::*;
use crate::decode::{decoding_of, osc_msg_to_events, DecodeFault};
use crate::event::Event;
use crate::kinds::{Instrument, Measure};
use crate::packet::{into_messages, packet_messages};
use crate::wire::{Message, MessageView};
use nannou_osc::Packet;

verus! {

/// A point in time, as a count of ticks of the caller's clock. The library
/// only compares and subtracts such counts: the length of a tick is the
/// caller's choice.
pub type Timestamp = u64;

/// A length of time, in ticks of the same clock.
pub type Elapsed = u64;

/// The most recently received state of Jen.
#[derive(Clone, Debug, PartialEq, Eq)]
pub struct State {
    /// The last time a note on was received for each instrument, by code.
    note_ons: [Option<Timestamp>; 8],
    /// The last time a playhead bang was received for each measure, by code.
    playhead_bangs: [Option<Timestamp>; 7],
    /// The most recently received playhead position of each measure, by code.
    playhead_positions: [Option<u32>; 7],
}

/// What a [`State`] holds: three maps, each with an entry for every key that
/// an applied event has mentioned.
pub ghost struct Snapshot {
    /// The last time a note on was received for each instrument.
    pub note_ons: Map<Instrument, Timestamp>,
    /// The last time a playhead bang was received for each measure.
    pub playhead_bangs: Map<Measure, Timestamp>,
    /// The most recently received playhead position of each measure.
    pub playhead_positions: Map<Measure, u32>,
}

/// The time from `stamp` to `now`, unless `stamp` lies after `now`.
pub open spec fn elapsed_since(stamp: Timestamp, now: Timestamp) -> Option<Elapsed> {
    if stamp <= now {
        Some((now - stamp) as Elapsed)
    } else {
        None
    }
}

impl Snapshot {
    /// The state in which nothing has been observed.
    pub open spec fn empty() -> Snapshot {
        Snapshot {
            note_ons: Map::empty(),
            playhead_bangs: Map::empty(),
            playhead_positions: Map::empty(),
        }
    }

    /// The state after `event` was observed at `at`: the entry of the key that
    /// the event names is set, and every other entry is as before.
    pub open spec fn record(self, event: Event, at: Timestamp) -> Snapshot {
        match event {
            Event::NoteOn(inst) => Snapshot { note_ons: self.note_ons.insert(inst, at), ..self },
            Event::PlayheadBang(meas) => Snapshot {
                playhead_bangs: self.playhead_bangs.insert(meas, at),
                ..self
            },
            Event::PlayheadPosition(meas, bits) => Snapshot {
                playhead_positions: self.playhead_positions.insert(meas, bits),
                ..self
            },
        }
    }

    /// The state after the batch `events`, observed at `at`, was applied: each
    /// event is recorded in turn, all with the same time.
    pub open spec fn apply(self, events: Seq<Event>, at: Timestamp) -> Snapshot
        decreases events.len(),
    {
        if events.len() == 0 {
            self
        } else {
            self.apply(events.drop_last(), at).record(events.last(), at)
        }
    }

    /// The state after each of `msgs` was decoded and its events applied, all
    /// observed at `at`. A message that ends in a fault still gives the events
    /// that were read before the fault.
    pub open spec fn apply_messages(self, msgs: Seq<MessageView>, at: Timestamp) -> Snapshot
        decreases msgs.len(),
    {
        if msgs.len() == 0 {
            self
        } else {
            self.apply_messages(msgs.drop_last(), at).apply(decoding_of(msgs.last()).events, at)
        }
    }

    /// The time since the last note on of `inst`, asked at `now`.
    pub open spec fn since_note_on(self, inst: Instrument, now: Timestamp) -> Option<Elapsed> {
        if self.note_ons.contains_key(inst) {
            elapsed_since(self.note_ons[inst], now)
        } else {
            None
        }
    }

    /// The time since the last playhead bang of `meas`, asked at `now`.
    pub open spec fn since_measure(self, meas: Measure, now: Timestamp) -> Option<Elapsed> {
        if self.playhead_bangs.contains_key(meas) {
            elapsed_since(self.playhead_bangs[meas], now)
        } else {
            None
        }
    }

    /// The last playhead position given for `meas`.
    pub open spec fn position(self, meas: Measure) -> Option<u32> {
        self.playhead_positions.get(meas)
    }
}

/// The fault of each of `msgs`, in order.
pub open spec fn faults_of(msgs: Seq<MessageView>) -> Seq<Option<DecodeFault>> {
    Seq::new(msgs.len(), |i: int| decoding_of(msgs[i]).fault)
}

/// The map that a table with one slot for each instrument stands for.
spec fn by_instrument<V>(table: Seq<Option<V>>) -> Map<Instrument, V> {
    Map::new(
        |inst: Instrument| table[inst.code()] is Some,
        |inst: Instrument| table[inst.code()]->0,
    )
}

/// The map that a table with one slot for each measure stands for.
spec fn by_measure<V>(table: Seq<Option<V>>) -> Map<Measure, V> {
    Map::new(|meas: Measure| table[meas.code()] is Some, |meas: Measure| table[meas.code()]->0)
}

/// Filling the slot of `inst` is inserting at `inst`.
proof fn lemma_fill_instrument<V>(table: Seq<Option<V>>, inst: Instrument, value: V)
    requires
        table.len() == 8,
    ensures
        by_instrument(table.update(inst.code(), Some(value))) == by_instrument(table).insert(
            inst,
            value,
        ),
{
    Instrument::lemma_code_bijection();
    assert(by_instrument(table.update(inst.code(), Some(value))) =~= by_instrument(table).insert(
        inst,
        value,
    ));
}

/// Filling the slot of `meas` is inserting at `meas`.
proof fn lemma_fill_measure<V>(table: Seq<Option<V>>, meas: Measure, value: V)
    requires
        table.len() == 7,
    ensures
        by_measure(table.update(meas.code(), Some(value))) == by_measure(table).insert(meas, value),
{
    Measure::lemma_code_bijection();
    assert(by_measure(table.update(meas.code(), Some(value))) =~= by_measure(table).insert(
        meas,
        value,
    ));
}

impl View for State {
    type V = Snapshot;

    closed spec fn view(&self) -> Snapshot {
        Snapshot {
            note_ons: by_instrument(self.note_ons@),
            playhead_bangs: by_measure(self.playhead_bangs@),
            playhead_positions: by_measure(self.playhead_positions@),
        }
    }
}

impl State {
    /// Construct an empty state.
    pub fn new() -> (state: Self)
        ensures
            state@ == Snapshot::empty(),
    {
        let state = State {
            note_ons: [None; 8],
            playhead_bangs: [None; 7],
            playhead_positions: [None; 7],
        };
        proof {
            assert(state@.note_ons =~= Map::empty());
            assert(state@.playhead_bangs =~= Map::empty());
            assert(state@.playhead_positions =~= Map::empty());
        }
        state
    }

    /// Records one event, observed at `observed_at`.
    fn record(&mut self, event: Event, observed_at: Timestamp)
        ensures
            final(self)@ == old(self)@.record(event, observed_at),
    {
        match event {
            Event::NoteOn(inst) => {
                proof {
                    lemma_fill_instrument(self.note_ons@, inst, observed_at);
                }
                let slot = inst.index();
                self.note_ons[slot] = Some(observed_at);
            },
            Event::PlayheadBang(meas) => {
                proof {
                    lemma_fill_measure(self.playhead_bangs@, meas, observed_at);
                }
                let slot = meas.index();
                self.playhead_bangs[slot] = Some(observed_at);
            },
            Event::PlayheadPosition(meas, bits) => {
                proof {
                    lemma_fill_measure(self.playhead_positions@, meas, bits);
                }
                let slot = meas.index();
                self.playhead_positions[slot] = Some(bits);
            },
        }
    }

    /// Update the state via the given events, all observed at `observed_at`.
    pub fn update_by_events(&mut self, events: &[Event], observed_at: Timestamp)
        ensures
            final(self)@ == old(self)@.apply(events@, observed_at),
    {
        let mut done: usize = 0;
        while done < events.len()
            invariant
                done <= events.len(),
                self@ == old(self)@.apply(events@.take(done as int), observed_at),
            decreases events.len() - done,
        {
            proof {
                assert(events@.take(done + 1).drop_last() =~= events@.take(done as int));
            }
            self.record(events[done], observed_at);
            done += 1;
        }
        proof {
            assert(events@.take(done as int) =~= events@);
        }
    }

    /// Decodes each of `msgs` and updates the state by its events, all observed
    /// at `observed_at`. Returns the fault of each message, in order: a fault
    /// in one message neither drops the events read before it nor keeps the
    /// other messages from being applied.
    pub fn update_by_messages(&mut self, msgs: &[Message], observed_at: Timestamp) -> (faults: Vec<
        Option<DecodeFault>,
    >)
        ensures
            final(self)@ == old(self)@.apply_messages(msgs.deep_view(), observed_at),
            faults@ == faults_of(msgs.deep_view()),
    {
        let mut faults: Vec<Option<DecodeFault>> = Vec::new();
        let mut done: usize = 0;
        while done < msgs.len()
            invariant
                done <= msgs.len(),
                self@ == old(self)@.apply_messages(msgs.deep_view().take(done as int), observed_at),
                faults@ == faults_of(msgs.deep_view().take(done as int)),
            decreases msgs.len() - done,
        {
            proof {
                let upto = msgs.deep_view().take(done + 1);
                assert(upto.drop_last() =~= msgs.deep_view().take(done as int));
                assert(upto.last() == msgs[done as int]@);
                assert(faults_of(upto) =~= faults_of(upto.drop_last()).push(
                    decoding_of(upto.last()).fault,
                ));
            }
            let decoded = osc_msg_to_events(&msgs[done]);
            self.update_by_events(decoded.events.as_slice(), observed_at);
            faults.push(decoded.fault);
            done += 1;
        }
        proof {
            assert(msgs.deep_view().take(done as int) =~= msgs.deep_view());
        }
        faults
    }

    /// Convert all the messages within the given packet into events and use
    /// them to update the state, all observed at `observed_at`. Returns the
    /// fault of each message, in the order in which the packet holds them.
    pub fn update_by_osc_packet(&mut self, packet: Packet, observed_at: Timestamp) -> (faults: Vec<
        Option<DecodeFault>,
    >)
        ensures
            final(self)@ == old(self)@.apply_messages(packet_messages(packet), observed_at),
            faults@ == faults_of(packet_messages(packet)),
    {
        let msgs = into_messages(packet);
        self.update_by_messages(msgs.as_slice(), observed_at)
    }

    /// When the last note on of `inst` was observed, if any has been.
    pub fn last_note_on(&self, inst: Instrument) -> (res: Option<Timestamp>)
        ensures
            res == self@.note_ons.get(inst),
    {
        self.note_ons[inst.index()]
    }

    /// When the last playhead bang of `meas` was observed, if any has been.
    pub fn last_playhead_bang(&self, meas: Measure) -> (res: Option<Timestamp>)
        ensures
            res == self@.playhead_bangs.get(meas),
    {
        self.playhead_bangs[meas.index()]
    }

    /// The time since the last note on of `inst`, asked at `now`, in ticks of
    /// the clock: seconds where the clock counts seconds. Returns `None` if no
    /// note on has been received for that instrument, or if the last one is
    /// dated after `now`.
    pub fn secs_since_note_on(&self, inst: Instrument, now: Timestamp) -> (res: Option<Elapsed>)
        ensures
            res == self@.since_note_on(inst, now),
    {
        match self.note_ons[inst.index()] {
            Some(then) => {
                if then > now {
                    None
                } else {
                    Some(now - then)
                }
            },
            None => None,
        }
    }

    /// The time since the last playhead bang of `meas`, asked at `now`, in
    /// ticks of the clock: seconds where the clock counts seconds. Returns
    /// `None` if no bang has been received for that measure, or if the last
    /// one is dated after `now`.
    pub fn secs_since_measure(&self, meas: Measure, now: Timestamp) -> (res: Option<Elapsed>)
        ensures
            res == self@.since_measure(meas, now),
    {
        match self.playhead_bangs[meas.index()] {
            Some(then) => {
                if then > now {
                    None
                } else {
                    Some(now - then)
                }
            },
            None => None,
        }
    }

    /// The playhead position over the given measure, as the bit pattern of the
    /// float that was received, or `None` if none has been received.
    pub fn playhead_position(&self, meas: Measure) -> (res: Option<u32>)
        ensures
            res == self@.position(meas),
    {
        self.playhead_positions[meas.index()]
    }
}

impl Default for State {
    /// The empty state.
    fn default() -> (state: Self)
        ensures
            state@ == Snapshot::empty(),
    {
        State::new()
    }
}

} // verus!
