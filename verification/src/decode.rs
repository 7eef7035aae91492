//! The decoder: from the arguments of a message to the events they carry.
//!
//! The arguments form a stream of blocks. A block opens with a mode tag and
//! runs until the next mode tag or the end of the stream. What the decoder
//! makes of an argument depends only on the argument and on where in a block it
//! stands, so its meaning is given as a machine that reads one argument at a
//! time ([`step`], [`run`]). The executable decoder scans block by block with a
//! cursor and is proved to produce what the machine produces.

use vstd::prelude::*;
use crate::event::Event;
use crate::kinds::{Instrument, Measure};
use crate::wire::{
    int_is_mode, is_address, is_mode_tag, Arg, Message, MessageView, ADDRESS, NOTE_ON,
    PLAYHEAD_BANG, PLAYHEAD_POSITION,
};

verus! {

/// Why decoding of a message stopped early.
#[derive(Copy, Clone, Debug, PartialEq, Eq, Structural)]
pub enum DecodeFault {
    /// A note-on block held an integer that is no instrument's code.
    UnknownInstrumentCode(i32),
    /// A playhead-bang block held an integer that is no measure's code.
    UnknownMeasureCode(i32),
    /// An argument was not of the kind that its place in the stream calls for.
    UnexpectedArgType,
}

/// The outcome of decoding one message: the events read, in the order of the
/// arguments that gave them, and the fault that ended decoding, if any.
#[derive(Clone, Debug, PartialEq, Eq)]
pub struct Decoded {
    pub events: Vec<Event>,
    pub fault: Option<DecodeFault>,
}

/// What a [`Decoded`] holds.
pub ghost struct Decoding {
    pub events: Seq<Event>,
    pub fault: Option<DecodeFault>,
}

impl View for Decoded {
    type V = Decoding;

    open spec fn view(&self) -> Decoding {
        Decoding { events: self.events@, fault: self.fault }
    }
}

impl Decoding {
    /// No events and no fault.
    pub open spec fn nothing() -> Decoding {
        Decoding { events: Seq::empty(), fault: None }
    }

    /// No events, and decoding ended by `fault`.
    pub open spec fn stopped(fault: DecodeFault) -> Decoding {
        Decoding { events: Seq::empty(), fault: Some(fault) }
    }

    /// This outcome, reached after `earlier` had already been read.
    pub open spec fn after(self, earlier: Seq<Event>) -> Decoding {
        Decoding { events: earlier + self.events, fault: self.fault }
    }
}

/// Where the decoder stands before it reads an argument.
pub ghost enum Mode {
    /// Between blocks: only a mode tag may follow.
    Boundary,
    /// Inside a note-on block.
    NoteOns,
    /// Inside a playhead-bang block.
    PlayheadBangs,
    /// Inside a playhead-position block, where the next float is the position
    /// within this measure.
    PlayheadPositions(Measure),
}

/// What reading one argument does.
pub ghost enum Step {
    /// The argument is a mode tag: a block begins.
    Enter(Mode),
    /// The argument is payload: it gives an event.
    Emit(Event, Mode),
    /// The argument ends decoding.
    Fault(DecodeFault),
}

/// Whether `arg` is a mode tag.
pub open spec fn is_tag(arg: Arg) -> bool {
    arg matches Arg::Int(i) && is_mode_tag(i as int)
}

/// The mode in which the payload of the block opened by `tag` begins.
pub open spec fn block_of(tag: int) -> Mode
    recommends
        is_mode_tag(tag),
{
    if tag == NOTE_ON {
        Mode::NoteOns
    } else if tag == PLAYHEAD_BANG {
        Mode::PlayheadBangs
    } else {
        Mode::PlayheadPositions(Measure::Phrase)
    }
}

/// Where the decoder stands once the position within `meas` has been read: at
/// the next finer measure, or between blocks when all have been given.
pub open spec fn after_position(meas: Measure) -> Mode {
    positions_mode(meas.code() + 1)
}

/// The mode of a playhead-position block in which `given` positions have been
/// read: the next float is for the measure with code `given`, and after the
/// finest measure the block is over.
pub open spec fn positions_mode(given: int) -> Mode {
    if Measure::is_code(given) {
        Mode::PlayheadPositions(Measure::of_code(given))
    } else {
        Mode::Boundary
    }
}

/// What the decoder makes of `arg` when it stands at `mode`.
///
/// A mode tag opens a block wherever it stands. Anything else is payload, and
/// must be what the current block holds: the code of an instrument, the code
/// of a measure, or a float. Between blocks nothing but a mode tag is accepted.
pub open spec fn step(mode: Mode, arg: Arg) -> Step {
    match arg {
        Arg::Int(i) => {
            if is_mode_tag(i as int) {
                Step::Enter(block_of(i as int))
            } else {
                match mode {
                    Mode::NoteOns => {
                        if Instrument::is_code(i as int) {
                            Step::Emit(Event::NoteOn(Instrument::of_code(i as int)), Mode::NoteOns)
                        } else {
                            Step::Fault(DecodeFault::UnknownInstrumentCode(i))
                        }
                    },
                    Mode::PlayheadBangs => {
                        if Measure::is_code(i as int) {
                            Step::Emit(
                                Event::PlayheadBang(Measure::of_code(i as int)),
                                Mode::PlayheadBangs,
                            )
                        } else {
                            Step::Fault(DecodeFault::UnknownMeasureCode(i))
                        }
                    },
                    _ => Step::Fault(DecodeFault::UnexpectedArgType),
                }
            }
        },
        Arg::Float(bits) => {
            match mode {
                Mode::PlayheadPositions(meas) => Step::Emit(
                    Event::PlayheadPosition(meas, bits),
                    after_position(meas),
                ),
                _ => Step::Fault(DecodeFault::UnexpectedArgType),
            }
        },
        Arg::Other => Step::Fault(DecodeFault::UnexpectedArgType),
    }
}

/// The outcome of reading `args` from first to last, starting at `mode`:
/// the events of the arguments read before the first fault, and that fault.
pub open spec fn run(mode: Mode, args: Seq<Arg>) -> Decoding
    decreases args.len(),
{
    if args.len() == 0 {
        Decoding::nothing()
    } else {
        match step(mode, args[0]) {
            Step::Enter(next) => run(next, args.drop_first()),
            Step::Emit(event, next) => run(next, args.drop_first()).after(seq![event]),
            Step::Fault(fault) => Decoding::stopped(fault),
        }
    }
}

/// What a message with address `addr` and arguments `args` decodes to. Messages
/// to any other address than [`ADDRESS`] carry nothing, and it is no fault.
pub open spec fn decoding(addr: Seq<char>, args: Seq<Arg>) -> Decoding {
    if addr == ADDRESS@ {
        run(Mode::Boundary, args)
    } else {
        Decoding::nothing()
    }
}

/// What the message `msg` decodes to. A message without arguments carries
/// nothing.
pub open spec fn decoding_of(msg: MessageView) -> Decoding {
    match msg.args {
        Some(args) => decoding(msg.addr, args),
        None => Decoding::nothing(),
    }
}

/// A mode tag is read in the same way wherever it stands, and at the end of
/// the stream nothing is left to read: a block that stops there leaves the
/// decoder as if it stood between blocks.
pub proof fn lemma_block_ends_at_tag(mode: Mode, rest: Seq<Arg>)
    requires
        rest.len() > 0 ==> is_tag(rest[0]),
    ensures
        run(mode, rest) == run(Mode::Boundary, rest),
{
}

/// What all of `args` decodes to, where the decoder has read `events` so far
/// and stands at `mode` before the argument at `pos`.
spec fn reading(mode: Mode, args: Seq<Arg>, pos: int, events: Seq<Event>) -> Decoding {
    run(mode, args.skip(pos)).after(events)
}

/// Where decoding begins: nothing read yet, between blocks, before the first
/// argument.
proof fn lemma_reading_begins(args: Seq<Arg>)
    ensures
        reading(Mode::Boundary, args, 0, Seq::empty()) == run(Mode::Boundary, args),
{
    assert(args.skip(0) =~= args);
    assert(Seq::<Event>::empty() + run(Mode::Boundary, args).events =~= run(
        Mode::Boundary,
        args,
    ).events);
}

/// What the argument at `pos` does to the reading: a tag or an event moves the
/// decoder on by one argument, and a fault ends the reading with the events
/// read so far.
proof fn lemma_reading_step(mode: Mode, args: Seq<Arg>, pos: int, events: Seq<Event>)
    requires
        0 <= pos < args.len(),
    ensures
        reading(mode, args, pos, events) == match step(mode, args[pos]) {
            Step::Enter(next) => reading(next, args, pos + 1, events),
            Step::Emit(event, next) => reading(next, args, pos + 1, events.push(event)),
            Step::Fault(fault) => Decoding { events, fault: Some(fault) },
        },
{
    assert(args.skip(pos).drop_first() == args.skip(pos + 1));
    match step(mode, args[pos]) {
        Step::Enter(_) => {},
        Step::Emit(event, next) => {
            let ahead = run(next, args.skip(pos + 1));
            assert(events + (seq![event] + ahead.events) =~= events.push(event) + ahead.events);
        },
        Step::Fault(_) => {
            assert(events + Seq::<Event>::empty() =~= events);
        },
    }
}

/// Where a block stops at `pos`, at a mode tag or at the end of `args`, the
/// reading goes on as between blocks; at the end it is complete.
proof fn lemma_reading_block_ends(mode: Mode, args: Seq<Arg>, pos: int, events: Seq<Event>)
    requires
        0 <= pos <= args.len(),
        pos < args.len() ==> is_tag(args[pos]),
    ensures
        reading(mode, args, pos, events) == reading(Mode::Boundary, args, pos, events),
        pos == args.len() ==> reading(mode, args, pos, events) == (Decoding { events, fault: None }),
{
    lemma_block_ends_at_tag(mode, args.skip(pos));
    assert(events + Seq::<Event>::empty() =~= events);
}

/// Reads the payload of a note-on block from `start` on. Returns the position
/// at which the block ends (a mode tag or the end of `args`), or the fault.
fn read_note_ons(args: &[Arg], start: usize, events: &mut Vec<Event>) -> (res: Result<
    usize,
    DecodeFault,
>)
    requires
        start <= args.len(),
    ensures
        reading(Mode::NoteOns, args@, start as int, old(events)@) == match res {
            Ok(end) => reading(Mode::Boundary, args@, end as int, final(events)@),
            Err(fault) => Decoding { events: final(events)@, fault: Some(fault) },
        },
        res matches Ok(end) ==> start <= end <= args.len(),
{
    let mut pos: usize = start;
    while pos < args.len()
        invariant
            start <= pos <= args.len(),
            reading(Mode::NoteOns, args@, start as int, old(events)@) == reading(
                Mode::NoteOns,
                args@,
                pos as int,
                events@,
            ),
        ensures
            pos < args.len() ==> is_tag(args@[pos as int]),
        decreases args.len() - pos,
    {
        proof {
            lemma_reading_step(Mode::NoteOns, args@, pos as int, events@);
        }
        match args[pos] {
            Arg::Int(i) => {
                if int_is_mode(i) {
                    break ;
                }
                match Instrument::from_i32(i) {
                    Some(inst) => events.push(Event::NoteOn(inst)),
                    None => {
                        return Err(DecodeFault::UnknownInstrumentCode(i));
                    },
                }
            },
            _ => {
                return Err(DecodeFault::UnexpectedArgType);
            },
        }
        pos += 1;
    }
    proof {
        lemma_reading_block_ends(Mode::NoteOns, args@, pos as int, events@);
    }
    Ok(pos)
}

/// Reads the payload of a playhead-bang block from `start` on. Returns the
/// position at which the block ends (a mode tag or the end of `args`), or the
/// fault.
fn read_playhead_bangs(args: &[Arg], start: usize, events: &mut Vec<Event>) -> (res: Result<
    usize,
    DecodeFault,
>)
    requires
        start <= args.len(),
    ensures
        reading(Mode::PlayheadBangs, args@, start as int, old(events)@) == match res {
            Ok(end) => reading(Mode::Boundary, args@, end as int, final(events)@),
            Err(fault) => Decoding { events: final(events)@, fault: Some(fault) },
        },
        res matches Ok(end) ==> start <= end <= args.len(),
{
    let mut pos: usize = start;
    while pos < args.len()
        invariant
            start <= pos <= args.len(),
            reading(Mode::PlayheadBangs, args@, start as int, old(events)@) == reading(
                Mode::PlayheadBangs,
                args@,
                pos as int,
                events@,
            ),
        ensures
            pos < args.len() ==> is_tag(args@[pos as int]),
        decreases args.len() - pos,
    {
        proof {
            lemma_reading_step(Mode::PlayheadBangs, args@, pos as int, events@);
        }
        match args[pos] {
            Arg::Int(i) => {
                if int_is_mode(i) {
                    break ;
                }
                match Measure::from_i32(i) {
                    Some(meas) => events.push(Event::PlayheadBang(meas)),
                    None => {
                        return Err(DecodeFault::UnknownMeasureCode(i));
                    },
                }
            },
            _ => {
                return Err(DecodeFault::UnexpectedArgType);
            },
        }
        pos += 1;
    }
    proof {
        lemma_reading_block_ends(Mode::PlayheadBangs, args@, pos as int, events@);
    }
    Ok(pos)
}

/// Reads the payload of a playhead-position block from `start` on: one float
/// for each measure, coarsest first. Returns the position at which the block
/// ends (behind the float of the finest measure, at a mode tag or at the end
/// of `args`), or the fault.
fn read_playhead_positions(args: &[Arg], start: usize, events: &mut Vec<Event>) -> (res: Result<
    usize,
    DecodeFault,
>)
    requires
        start <= args.len(),
    ensures
        reading(positions_mode(0), args@, start as int, old(events)@) == match res {
            Ok(end) => reading(Mode::Boundary, args@, end as int, final(events)@),
            Err(fault) => Decoding { events: final(events)@, fault: Some(fault) },
        },
        res matches Ok(end) ==> start <= end <= args.len(),
{
    let mut pos: usize = start;
    let mut given: i32 = 0;
    while given < 7 && pos < args.len()
        invariant
            start <= pos <= args.len(),
            0 <= given <= 7,
            reading(positions_mode(0), args@, start as int, old(events)@) == reading(
                positions_mode(given as int),
                args@,
                pos as int,
                events@,
            ),
        ensures
            given < 7 && pos < args.len() ==> is_tag(args@[pos as int]),
        decreases args.len() - pos,
    {
        proof {
            Measure::lemma_code_bijection();
            lemma_reading_step(positions_mode(given as int), args@, pos as int, events@);
        }
        match args[pos] {
            Arg::Float(bits) => {
                let meas = match Measure::from_i32(given) {
                    Some(meas) => meas,
                    None => unreached(),
                };
                events.push(Event::PlayheadPosition(meas, bits));
            },
            Arg::Int(i) => {
                if int_is_mode(i) {
                    break ;
                }
                return Err(DecodeFault::UnexpectedArgType);
            },
            Arg::Other => {
                return Err(DecodeFault::UnexpectedArgType);
            },
        }
        given += 1;
        pos += 1;
    }
    proof {
        if given < 7 {
            lemma_reading_block_ends(positions_mode(given as int), args@, pos as int, events@);
        }
    }
    Ok(pos)
}

/// Decodes the arguments `args` of a message sent to `addr`.
///
/// The result holds the events of all arguments read before the first fault,
/// in the order of the arguments, and that fault. A message to another address
/// than [`ADDRESS`], or without arguments, decodes to no events and no fault.
pub fn decode(addr: &str, args: &[Arg]) -> (decoded: Decoded)
    ensures
        decoded@ == decoding(addr@, args@),
        addr@ != ADDRESS@ ==> decoded.events@.len() == 0 && decoded.fault is None,
{
    let mut events: Vec<Event> = Vec::new();
    if !is_address(addr) {
        return Decoded { events, fault: None };
    }
    proof {
        lemma_reading_begins(args@);
        Measure::lemma_code_bijection();
    }
    let mut pos: usize = 0;
    while pos < args.len()
        invariant
            pos <= args.len(),
            decoding(addr@, args@) == reading(Mode::Boundary, args@, pos as int, events@),
            positions_mode(0) == Mode::PlayheadPositions(Measure::Phrase),
        decreases args.len() - pos,
    {
        proof {
            lemma_reading_step(Mode::Boundary, args@, pos as int, events@);
        }
        let block = match args[pos] {
            Arg::Int(NOTE_ON) => read_note_ons(args, pos + 1, &mut events),
            Arg::Int(PLAYHEAD_BANG) => read_playhead_bangs(args, pos + 1, &mut events),
            Arg::Int(PLAYHEAD_POSITION) => read_playhead_positions(args, pos + 1, &mut events),
            _ => Err(DecodeFault::UnexpectedArgType),
        };
        match block {
            Ok(end) => {
                pos = end;
            },
            Err(fault) => {
                return Decoded { events, fault: Some(fault) };
            },
        }
    }
    proof {
        lemma_reading_block_ends(Mode::Boundary, args@, pos as int, events@);
    }
    Decoded { events, fault: None }
}

/// Convert the given message to a list of events: see [`decode`]. A message
/// without arguments gives no events and no fault.
pub fn osc_msg_to_events(msg: &Message) -> (decoded: Decoded)
    ensures
        decoded@ == decoding_of(msg@),
        msg.addr@ != ADDRESS@ ==> decoded.events@.len() == 0 && decoded.fault is None,
{
    match &msg.args {
        Some(args) => decode(msg.addr.as_str(), args.as_slice()),
        None => Decoded { events: Vec::new(), fault: None },
    }
}

} // verus!
