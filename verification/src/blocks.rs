//! What the decoder makes of a stream and of whole blocks.
//!
//! [`run`] says what each argument does. The lemmas here say what follows for a
//! stream as a whole: that decoding goes from left to right, stops at the first
//! argument that it cannot read and keeps what it has read, and what a
//! well-formed or a faulty block decodes to.

use vstd::prelude::*;
use crate::decode::{
    is_tag, lemma_block_ends_at_tag, positions_mode, run, step, DecodeFault, Decoding, Mode, Step,
};
use crate::event::Event;
use crate::kinds::{Instrument, Measure};
use crate::wire::{is_mode_tag, Arg, NOTE_ON, PLAYHEAD_BANG, PLAYHEAD_POSITION};

verus! {

/// Where the decoder stands once it has read all of `args` from `mode`, or
/// where it stood when a fault ended decoding.
pub open spec fn mode_after(mode: Mode, args: Seq<Arg>) -> Mode
    decreases args.len(),
{
    if args.len() == 0 {
        mode
    } else {
        match step(mode, args[0]) {
            Step::Enter(next) => mode_after(next, args.drop_first()),
            Step::Emit(_, next) => mode_after(next, args.drop_first()),
            Step::Fault(_) => mode,
        }
    }
}

/// The integers `codes` as arguments.
pub open spec fn ints(codes: Seq<i32>) -> Seq<Arg> {
    Seq::new(codes.len(), |k: int| Arg::Int(codes[k]))
}

/// The floats with the bit patterns `values` as arguments.
pub open spec fn floats(values: Seq<u32>) -> Seq<Arg> {
    Seq::new(values.len(), |k: int| Arg::Float(values[k]))
}

/// One note on for each of `codes`, in order.
pub open spec fn note_ons(codes: Seq<i32>) -> Seq<Event> {
    Seq::new(codes.len(), |k: int| Event::NoteOn(Instrument::of_code(codes[k] as int)))
}

/// One playhead bang for each of `codes`, in order.
pub open spec fn playhead_bangs(codes: Seq<i32>) -> Seq<Event> {
    Seq::new(codes.len(), |k: int| Event::PlayheadBang(Measure::of_code(codes[k] as int)))
}

/// One playhead position for each of `values`, in order: the first for the
/// measure with code `first`, each following one for the next finer measure.
pub open spec fn playhead_positions(first: int, values: Seq<u32>) -> Seq<Event> {
    Seq::new(
        values.len(),
        |k: int| Event::PlayheadPosition(Measure::of_code(first + k), values[k]),
    )
}

/// Decoding reads from left to right and keeps what it has read: a stream in
/// two parts decodes to what the first part decodes to, followed, unless the
/// first part ended in a fault, by what the second part decodes to from where
/// the first part left the decoder.
pub proof fn lemma_run_in_two_parts(mode: Mode, first: Seq<Arg>, second: Seq<Arg>)
    ensures
        run(mode, first).fault is Some ==> run(mode, first + second) == run(mode, first),
        run(mode, first).fault is None ==> run(mode, first + second) == run(
            mode_after(mode, first),
            second,
        ).after(run(mode, first).events),
    decreases first.len(),
{
    if first.len() == 0 {
        assert(first + second =~= second);
        assert(Seq::<Event>::empty() + run(mode, second).events =~= run(mode, second).events);
    } else {
        let whole = first + second;
        assert(whole[0] == first[0]);
        assert(whole.drop_first() =~= first.drop_first() + second);
        match step(mode, first[0]) {
            Step::Enter(next) => {
                lemma_run_in_two_parts(next, first.drop_first(), second);
            },
            Step::Emit(event, next) => {
                lemma_run_in_two_parts(next, first.drop_first(), second);
                let head = run(next, first.drop_first());
                if head.fault is None {
                    let tail = run(mode_after(mode, first), second);
                    assert(seq![event] + (head.events + tail.events) =~= (seq![event]
                        + head.events) + tail.events);
                }
            },
            Step::Fault(_) => {},
        }
    }
}

/// Whether the argument at `pos` is the one that ends decoding from `mode`:
/// the arguments before it are read without a fault, and where they leave the
/// decoder it cannot be read.
pub open spec fn stops_at(mode: Mode, args: Seq<Arg>, pos: int) -> bool {
    &&& 0 <= pos < args.len()
    &&& run(mode, args.take(pos)).fault is None
    &&& step(mode_after(mode, args.take(pos)), args[pos]) is Fault
}

/// Decoding stops at the first argument that cannot be read: the fault is the
/// one that this argument gives, the events are those of the arguments before
/// it, and nothing behind it matters.
pub proof fn lemma_stops_at_first_fault(mode: Mode, args: Seq<Arg>, pos: int)
    requires
        stops_at(mode, args, pos),
    ensures
        run(mode, args) == (Decoding {
            events: run(mode, args.take(pos)).events,
            fault: Some(step(mode_after(mode, args.take(pos)), args[pos])->Fault_0),
        }),
{
    let before = args.take(pos);
    assert(before + args.skip(pos) =~= args);
    lemma_run_in_two_parts(mode, before, args.skip(pos));
    assert(args.skip(pos)[0] == args[pos]);
    assert(run(mode, before).events + Seq::<Event>::empty() =~= run(mode, before).events);
}

/// Decoding ends in a fault only where some argument cannot be read.
pub proof fn lemma_fault_has_position(mode: Mode, args: Seq<Arg>) -> (pos: int)
    requires
        run(mode, args).fault is Some,
    ensures
        stops_at(mode, args, pos),
    decreases args.len(),
{
    match step(mode, args[0]) {
        Step::Fault(_) => {
            assert(args.take(0) =~= Seq::empty());
            0
        },
        Step::Enter(next) => {
            let inner = lemma_fault_has_position(next, args.drop_first());
            lemma_take_one_more(mode, args, inner);
            inner + 1
        },
        Step::Emit(_, next) => {
            let inner = lemma_fault_has_position(next, args.drop_first());
            lemma_take_one_more(mode, args, inner);
            inner + 1
        },
    }
}

/// Reading the first argument and then `count` more is reading `count + 1`.
proof fn lemma_take_one_more(mode: Mode, args: Seq<Arg>, count: int)
    requires
        0 <= count < args.len(),
        !(step(mode, args[0]) is Fault),
    ensures
        ({
            let next = match step(mode, args[0]) {
                Step::Enter(next) => next,
                Step::Emit(_, next) => next,
                Step::Fault(_) => mode,
            };
            &&& run(mode, args.take(count + 1)).fault == run(
                next,
                args.drop_first().take(count),
            ).fault
            &&& mode_after(mode, args.take(count + 1)) == mode_after(
                next,
                args.drop_first().take(count),
            )
        }),
{
    let taken = args.take(count + 1);
    assert(taken[0] == args[0]);
    assert(taken.drop_first() =~= args.drop_first().take(count));
}

/// Each argument gives at most one event.
pub proof fn lemma_run_events_bounded(mode: Mode, args: Seq<Arg>)
    ensures
        run(mode, args).events.len() <= args.len(),
    decreases args.len(),
{
    if args.len() > 0 {
        match step(mode, args[0]) {
            Step::Enter(next) => {
                lemma_run_events_bounded(next, args.drop_first());
            },
            Step::Emit(_, next) => {
                lemma_run_events_bounded(next, args.drop_first());
            },
            Step::Fault(_) => {},
        }
    }
}

/// The payload of a note-on block: each code of an instrument gives a note on
/// of that instrument, and the block goes on behind it.
pub proof fn lemma_note_on_payload(codes: Seq<i32>, rest: Seq<Arg>)
    requires
        forall|k: int| 0 <= k < codes.len() ==> Instrument::is_code(#[trigger] codes[k] as int),
    ensures
        run(Mode::NoteOns, ints(codes) + rest) == run(Mode::NoteOns, rest).after(note_ons(codes)),
    decreases codes.len(),
{
    let ahead = run(Mode::NoteOns, rest);
    if codes.len() == 0 {
        assert(ints(codes) + rest =~= rest);
        assert(note_ons(codes) + ahead.events =~= ahead.events);
    } else {
        let args = ints(codes) + rest;
        assert(args[0] == Arg::Int(codes[0]));
        assert(args.drop_first() =~= ints(codes.drop_first()) + rest);
        assert forall|k: int| 0 <= k < codes.drop_first().len() implies Instrument::is_code(
            #[trigger] codes.drop_first()[k] as int,
        ) by {
            assert(codes.drop_first()[k] == codes[k + 1]);
        }
        lemma_note_on_payload(codes.drop_first(), rest);
        let first = Event::NoteOn(Instrument::of_code(codes[0] as int));
        assert(seq![first] + (note_ons(codes.drop_first()) + ahead.events) =~= note_ons(codes)
            + ahead.events);
    }
}

/// A note-on block with the codes of instruments as its payload decodes to one
/// note on for each code, in the order of the codes.
pub proof fn lemma_note_on_block(codes: Seq<i32>, rest: Seq<Arg>)
    requires
        forall|k: int| 0 <= k < codes.len() ==> Instrument::is_code(#[trigger] codes[k] as int),
        rest.len() > 0 ==> is_tag(rest[0]),
    ensures
        run(Mode::Boundary, seq![Arg::Int(NOTE_ON)] + ints(codes) + rest) == run(
            Mode::Boundary,
            rest,
        ).after(note_ons(codes)),
{
    let args = seq![Arg::Int(NOTE_ON)] + ints(codes) + rest;
    assert(args[0] == Arg::Int(NOTE_ON));
    assert(args.drop_first() =~= ints(codes) + rest);
    lemma_note_on_payload(codes, rest);
    lemma_block_ends_at_tag(Mode::NoteOns, rest);
}

/// An integer in a note-on block that is neither a mode tag nor the code of
/// an instrument ends decoding: the fault names the integer, the codes before
/// it have given their events, and nothing behind it is read.
pub proof fn lemma_unknown_instrument_code(codes: Seq<i32>, unknown: i32, rest: Seq<Arg>)
    requires
        forall|k: int| 0 <= k < codes.len() ==> Instrument::is_code(#[trigger] codes[k] as int),
        !is_mode_tag(unknown as int),
        !Instrument::is_code(unknown as int),
    ensures
        run(Mode::Boundary, seq![Arg::Int(NOTE_ON)] + ints(codes) + seq![Arg::Int(unknown)] + rest)
            == (Decoding {
            events: note_ons(codes),
            fault: Some(DecodeFault::UnknownInstrumentCode(unknown)),
        }),
{
    let behind = seq![Arg::Int(unknown)] + rest;
    let args = seq![Arg::Int(NOTE_ON)] + ints(codes) + seq![Arg::Int(unknown)] + rest;
    assert(args[0] == Arg::Int(NOTE_ON));
    assert(args.drop_first() =~= ints(codes) + behind);
    lemma_note_on_payload(codes, behind);
    assert(behind[0] == Arg::Int(unknown));
    assert(note_ons(codes) + Seq::<Event>::empty() =~= note_ons(codes));
}

/// The payload of a playhead-bang block: each code of a measure gives a bang
/// of that measure, and the block goes on behind it.
pub proof fn lemma_playhead_bang_payload(codes: Seq<i32>, rest: Seq<Arg>)
    requires
        forall|k: int| 0 <= k < codes.len() ==> Measure::is_code(#[trigger] codes[k] as int),
    ensures
        run(Mode::PlayheadBangs, ints(codes) + rest) == run(Mode::PlayheadBangs, rest).after(
            playhead_bangs(codes),
        ),
    decreases codes.len(),
{
    let ahead = run(Mode::PlayheadBangs, rest);
    if codes.len() == 0 {
        assert(ints(codes) + rest =~= rest);
        assert(playhead_bangs(codes) + ahead.events =~= ahead.events);
    } else {
        let args = ints(codes) + rest;
        assert(args[0] == Arg::Int(codes[0]));
        assert(args.drop_first() =~= ints(codes.drop_first()) + rest);
        assert forall|k: int| 0 <= k < codes.drop_first().len() implies Measure::is_code(
            #[trigger] codes.drop_first()[k] as int,
        ) by {
            assert(codes.drop_first()[k] == codes[k + 1]);
        }
        lemma_playhead_bang_payload(codes.drop_first(), rest);
        let first = Event::PlayheadBang(Measure::of_code(codes[0] as int));
        assert(seq![first] + (playhead_bangs(codes.drop_first()) + ahead.events)
            =~= playhead_bangs(codes) + ahead.events);
    }
}

/// A playhead-bang block with the codes of measures as its payload decodes to
/// one bang for each code, in the order of the codes.
pub proof fn lemma_playhead_bang_block(codes: Seq<i32>, rest: Seq<Arg>)
    requires
        forall|k: int| 0 <= k < codes.len() ==> Measure::is_code(#[trigger] codes[k] as int),
        rest.len() > 0 ==> is_tag(rest[0]),
    ensures
        run(Mode::Boundary, seq![Arg::Int(PLAYHEAD_BANG)] + ints(codes) + rest) == run(
            Mode::Boundary,
            rest,
        ).after(playhead_bangs(codes)),
{
    let args = seq![Arg::Int(PLAYHEAD_BANG)] + ints(codes) + rest;
    assert(args[0] == Arg::Int(PLAYHEAD_BANG));
    assert(args.drop_first() =~= ints(codes) + rest);
    lemma_playhead_bang_payload(codes, rest);
    lemma_block_ends_at_tag(Mode::PlayheadBangs, rest);
}

/// An integer in a playhead-bang block that is neither a mode tag nor the code
/// of a measure ends decoding: the fault names the integer, the codes before
/// it have given their events, and nothing behind it is read.
pub proof fn lemma_unknown_measure_code(codes: Seq<i32>, unknown: i32, rest: Seq<Arg>)
    requires
        forall|k: int| 0 <= k < codes.len() ==> Measure::is_code(#[trigger] codes[k] as int),
        !is_mode_tag(unknown as int),
        !Measure::is_code(unknown as int),
    ensures
        run(
            Mode::Boundary,
            seq![Arg::Int(PLAYHEAD_BANG)] + ints(codes) + seq![Arg::Int(unknown)] + rest,
        ) == (Decoding {
            events: playhead_bangs(codes),
            fault: Some(DecodeFault::UnknownMeasureCode(unknown)),
        }),
{
    let behind = seq![Arg::Int(unknown)] + rest;
    let args = seq![Arg::Int(PLAYHEAD_BANG)] + ints(codes) + seq![Arg::Int(unknown)] + rest;
    assert(args[0] == Arg::Int(PLAYHEAD_BANG));
    assert(args.drop_first() =~= ints(codes) + behind);
    lemma_playhead_bang_payload(codes, behind);
    assert(behind[0] == Arg::Int(unknown));
    assert(playhead_bangs(codes) + Seq::<Event>::empty() =~= playhead_bangs(codes));
}

/// The payload of a playhead-position block in which `given` positions have
/// been read: each further float is the position of the next finer measure.
pub proof fn lemma_playhead_position_payload(given: int, values: Seq<u32>, rest: Seq<Arg>)
    requires
        0 <= given,
        given + values.len() <= 7,
    ensures
        run(positions_mode(given), floats(values) + rest) == run(
            positions_mode(given + values.len()),
            rest,
        ).after(playhead_positions(given, values)),
    decreases values.len(),
{
    let ahead = run(positions_mode(given + values.len()), rest);
    if values.len() == 0 {
        assert(floats(values) + rest =~= rest);
        assert(playhead_positions(given, values) + ahead.events =~= ahead.events);
    } else {
        Measure::lemma_code_bijection();
        let args = floats(values) + rest;
        assert(args[0] == Arg::Float(values[0]));
        assert(args.drop_first() =~= floats(values.drop_first()) + rest);
        lemma_playhead_position_payload(given + 1, values.drop_first(), rest);
        let first = Event::PlayheadPosition(Measure::of_code(given), values[0]);
        assert(seq![first] + (playhead_positions(given + 1, values.drop_first()) + ahead.events)
            =~= playhead_positions(given, values) + ahead.events);
    }
}

/// A playhead-position block decodes to one position for each float, the
/// first for the coarsest measure and each following one for the next finer
/// measure. With a float for every measure the block is complete. With fewer
/// it is cut short, which is no fault where a mode tag or the end of the
/// stream follows.
pub proof fn lemma_playhead_position_block(values: Seq<u32>, rest: Seq<Arg>)
    requires
        values.len() <= 7,
        values.len() < 7 && rest.len() > 0 ==> is_tag(rest[0]),
    ensures
        run(Mode::Boundary, seq![Arg::Int(PLAYHEAD_POSITION)] + floats(values) + rest) == run(
            Mode::Boundary,
            rest,
        ).after(playhead_positions(0, values)),
{
    Measure::lemma_code_bijection();
    let args = seq![Arg::Int(PLAYHEAD_POSITION)] + floats(values) + rest;
    assert(args[0] == Arg::Int(PLAYHEAD_POSITION));
    assert(args.drop_first() =~= floats(values) + rest);
    assert(Measure::Phrase.code() == 0);
    lemma_playhead_position_payload(0, values, rest);
    if values.len() < 7 {
        lemma_block_ends_at_tag(positions_mode(values.len() as int), rest);
    }
}

/// Between blocks, an argument that is no mode tag ends decoding before
/// anything is read.
pub proof fn lemma_boundary_wants_tag(args: Seq<Arg>)
    requires
        args.len() > 0,
        !is_tag(args[0]),
    ensures
        run(Mode::Boundary, args) == Decoding::stopped(DecodeFault::UnexpectedArgType),
{
}

} // verus!
