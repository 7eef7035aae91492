use jen::{
    decode, osc_msg_to_events, Arg, DecodeFault, Decoded, Event, Instrument, Measure, Message,
};

const NOTE_ON: Arg = Arg::Int(100);
const PLAYHEAD_BANG: Arg = Arg::Int(101);
const PLAYHEAD_POSITION: Arg = Arg::Int(102);

fn float(value: f32) -> Arg {
    Arg::Float(value.to_bits())
}

fn position(meas: Measure, value: f32) -> Event {
    Event::PlayheadPosition(meas, value.to_bits())
}

fn ok(events: Vec<Event>) -> Decoded {
    Decoded { events, fault: None }
}

fn stopped(events: Vec<Event>, fault: DecodeFault) -> Decoded {
    Decoded { events, fault: Some(fault) }
}

#[test]
fn other_addresses_carry_nothing() {
    let args = [NOTE_ON, Arg::Int(3), Arg::Int(5)];
    for addr in ["", "/", "/other", "jen", "/jen/", "/JEN", "/jen2", "/j"] {
        assert_eq!(decode(addr, &args), ok(vec![]));
    }
}

#[test]
fn other_addresses_are_no_fault_even_with_bad_arguments() {
    let args = [Arg::Other, float(1.0), Arg::Int(99)];
    assert_eq!(decode("/other", &args), ok(vec![]));
    assert_eq!(decode("/jen", &args), stopped(vec![], DecodeFault::UnexpectedArgType));
}

#[test]
fn no_arguments_give_no_events() {
    assert_eq!(decode("/jen", &[]), ok(vec![]));
}

#[test]
fn note_on_block_keeps_input_order() {
    let args = [NOTE_ON, Arg::Int(3), Arg::Int(5)];
    assert_eq!(
        decode("/jen", &args),
        ok(vec![Event::NoteOn(Instrument::GhostNote), Event::NoteOn(Instrument::Melodic)])
    );
}

#[test]
fn note_on_block_may_repeat_an_instrument() {
    let args = [NOTE_ON, Arg::Int(7), Arg::Int(0), Arg::Int(7)];
    assert_eq!(
        decode("/jen", &args),
        ok(vec![
            Event::NoteOn(Instrument::Atmos),
            Event::NoteOn(Instrument::Snare),
            Event::NoteOn(Instrument::Atmos),
        ])
    );
}

#[test]
fn playhead_bang_block_keeps_input_order() {
    let args = [PLAYHEAD_BANG, Arg::Int(6), Arg::Int(0), Arg::Int(2)];
    assert_eq!(
        decode("/jen", &args),
        ok(vec![
            Event::PlayheadBang(Measure::SemiQuaver),
            Event::PlayheadBang(Measure::Phrase),
            Event::PlayheadBang(Measure::Bar),
        ])
    );
}

#[test]
fn seven_floats_give_a_position_for_each_measure() {
    let args = [
        PLAYHEAD_POSITION,
        float(0.1),
        float(0.2),
        float(0.3),
        float(0.4),
        float(0.5),
        float(0.6),
        float(0.7),
    ];
    assert_eq!(
        decode("/jen", &args),
        ok(vec![
            position(Measure::Phrase, 0.1),
            position(Measure::Segment, 0.2),
            position(Measure::Bar, 0.3),
            position(Measure::Minim, 0.4),
            position(Measure::Beat, 0.5),
            position(Measure::Quaver, 0.6),
            position(Measure::SemiQuaver, 0.7),
        ])
    );
}

#[test]
fn positions_keep_the_bits_of_their_floats() {
    let args = [PLAYHEAD_POSITION, float(-0.0), float(f32::NAN), float(f32::INFINITY)];
    let decoded = decode("/jen", &args);
    assert_eq!(decoded.fault, None);
    assert_eq!(
        decoded.events,
        vec![
            Event::PlayheadPosition(Measure::Phrase, 0x8000_0000),
            Event::PlayheadPosition(Measure::Segment, f32::NAN.to_bits()),
            Event::PlayheadPosition(Measure::Bar, 0x7f80_0000),
        ]
    );
}

#[test]
fn position_block_cut_short_by_a_mode_tag_is_no_fault() {
    let args = [PLAYHEAD_POSITION, float(0.25), float(0.5), NOTE_ON, Arg::Int(2)];
    assert_eq!(
        decode("/jen", &args),
        ok(vec![
            position(Measure::Phrase, 0.25),
            position(Measure::Segment, 0.5),
            Event::NoteOn(Instrument::Ride),
        ])
    );
}

#[test]
fn position_block_cut_short_by_the_end_is_no_fault() {
    let args = [PLAYHEAD_POSITION, float(0.25), float(0.5), float(0.75)];
    assert_eq!(
        decode("/jen", &args),
        ok(vec![
            position(Measure::Phrase, 0.25),
            position(Measure::Segment, 0.5),
            position(Measure::Bar, 0.75),
        ])
    );
}

#[test]
fn position_block_cut_short_by_another_integer_keeps_its_positions() {
    let args = [PLAYHEAD_POSITION, float(0.25), float(0.5), Arg::Int(3), float(0.75)];
    assert_eq!(
        decode("/jen", &args),
        stopped(
            vec![position(Measure::Phrase, 0.25), position(Measure::Segment, 0.5)],
            DecodeFault::UnexpectedArgType,
        )
    );
}

#[test]
fn position_block_cut_short_by_another_type_keeps_its_positions() {
    let args = [PLAYHEAD_POSITION, float(0.25), Arg::Other, float(0.75)];
    assert_eq!(
        decode("/jen", &args),
        stopped(vec![position(Measure::Phrase, 0.25)], DecodeFault::UnexpectedArgType)
    );
}

#[test]
fn an_eighth_float_stands_between_blocks() {
    let mut args = vec![PLAYHEAD_POSITION];
    for k in 0..8 {
        args.push(float(k as f32));
    }
    let decoded = decode("/jen", &args);
    assert_eq!(decoded.fault, Some(DecodeFault::UnexpectedArgType));
    assert_eq!(decoded.events.len(), 7);
    assert_eq!(decoded.events[6], position(Measure::SemiQuaver, 6.0));
}

#[test]
fn a_complete_position_block_may_be_followed_by_a_block() {
    let mut args = vec![PLAYHEAD_POSITION];
    for k in 0..7 {
        args.push(float(k as f32));
    }
    args.push(PLAYHEAD_BANG);
    args.push(Arg::Int(4));
    let decoded = decode("/jen", &args);
    assert_eq!(decoded.fault, None);
    assert_eq!(decoded.events.len(), 8);
    assert_eq!(decoded.events[0], position(Measure::Phrase, 0.0));
    assert_eq!(decoded.events[7], Event::PlayheadBang(Measure::Beat));
}

#[test]
fn a_complete_position_block_may_not_be_followed_by_payload() {
    let mut args = vec![PLAYHEAD_POSITION];
    for k in 0..7 {
        args.push(float(k as f32));
    }
    args.push(Arg::Int(4));
    let decoded = decode("/jen", &args);
    assert_eq!(decoded.fault, Some(DecodeFault::UnexpectedArgType));
    assert_eq!(decoded.events.len(), 7);
}

#[test]
fn unknown_instrument_code_is_a_fault() {
    let args = [NOTE_ON, Arg::Int(99)];
    assert_eq!(decode("/jen", &args), stopped(vec![], DecodeFault::UnknownInstrumentCode(99)));
}

#[test]
fn unknown_instrument_code_keeps_the_events_before_it() {
    let args =
        [NOTE_ON, Arg::Int(1), Arg::Int(4), Arg::Int(99), Arg::Int(2), PLAYHEAD_BANG, Arg::Int(0)];
    assert_eq!(
        decode("/jen", &args),
        stopped(
            vec![Event::NoteOn(Instrument::Kick), Event::NoteOn(Instrument::Bass)],
            DecodeFault::UnknownInstrumentCode(99),
        )
    );
}

#[test]
fn instrument_codes_end_at_seven() {
    let args = [NOTE_ON, Arg::Int(7), Arg::Int(8)];
    assert_eq!(
        decode("/jen", &args),
        stopped(vec![Event::NoteOn(Instrument::Atmos)], DecodeFault::UnknownInstrumentCode(8))
    );
    let args = [NOTE_ON, Arg::Int(-1)];
    assert_eq!(decode("/jen", &args), stopped(vec![], DecodeFault::UnknownInstrumentCode(-1)));
}

#[test]
fn unknown_measure_code_is_a_fault() {
    let args = [PLAYHEAD_BANG, Arg::Int(6), Arg::Int(7), Arg::Int(0)];
    assert_eq!(
        decode("/jen", &args),
        stopped(
            vec![Event::PlayheadBang(Measure::SemiQuaver)],
            DecodeFault::UnknownMeasureCode(7),
        )
    );
    let args = [PLAYHEAD_BANG, Arg::Int(i32::MIN)];
    assert_eq!(decode("/jen", &args), stopped(vec![], DecodeFault::UnknownMeasureCode(i32::MIN)));
}

#[test]
fn a_float_in_a_note_on_block_is_a_fault() {
    let args = [NOTE_ON, Arg::Int(0), float(0.5), Arg::Int(1)];
    assert_eq!(
        decode("/jen", &args),
        stopped(vec![Event::NoteOn(Instrument::Snare)], DecodeFault::UnexpectedArgType)
    );
}

#[test]
fn a_float_in_a_playhead_bang_block_is_a_fault() {
    let args = [PLAYHEAD_BANG, float(0.5)];
    assert_eq!(decode("/jen", &args), stopped(vec![], DecodeFault::UnexpectedArgType));
}

#[test]
fn another_type_in_a_block_is_a_fault() {
    let args = [NOTE_ON, Arg::Int(0), Arg::Other];
    assert_eq!(
        decode("/jen", &args),
        stopped(vec![Event::NoteOn(Instrument::Snare)], DecodeFault::UnexpectedArgType)
    );
    let args = [PLAYHEAD_BANG, Arg::Int(0), Arg::Other];
    assert_eq!(
        decode("/jen", &args),
        stopped(vec![Event::PlayheadBang(Measure::Phrase)], DecodeFault::UnexpectedArgType)
    );
}

#[test]
fn the_stream_must_open_with_a_mode_tag() {
    for first in [Arg::Int(5), Arg::Int(0), Arg::Int(103), Arg::Int(99), float(0.5), Arg::Other] {
        let args = [first, NOTE_ON, Arg::Int(1)];
        assert_eq!(decode("/jen", &args), stopped(vec![], DecodeFault::UnexpectedArgType));
    }
}

#[test]
fn blocks_without_payload_are_valid() {
    assert_eq!(decode("/jen", &[NOTE_ON]), ok(vec![]));
    assert_eq!(decode("/jen", &[PLAYHEAD_BANG]), ok(vec![]));
    assert_eq!(decode("/jen", &[PLAYHEAD_POSITION]), ok(vec![]));
    assert_eq!(decode("/jen", &[NOTE_ON, PLAYHEAD_BANG, PLAYHEAD_POSITION, NOTE_ON]), ok(vec![]));
    let args = [NOTE_ON, NOTE_ON, Arg::Int(1), PLAYHEAD_POSITION, PLAYHEAD_BANG, Arg::Int(1)];
    assert_eq!(
        decode("/jen", &args),
        ok(vec![Event::NoteOn(Instrument::Kick), Event::PlayheadBang(Measure::Segment)])
    );
}

#[test]
fn a_message_may_hold_blocks_of_every_mode() {
    let args = [
        NOTE_ON,
        Arg::Int(0),
        Arg::Int(1),
        PLAYHEAD_BANG,
        Arg::Int(2),
        PLAYHEAD_POSITION,
        float(0.125),
        float(0.5),
        NOTE_ON,
        Arg::Int(7),
        PLAYHEAD_POSITION,
        float(0.75),
    ];
    assert_eq!(
        decode("/jen", &args),
        ok(vec![
            Event::NoteOn(Instrument::Snare),
            Event::NoteOn(Instrument::Kick),
            Event::PlayheadBang(Measure::Bar),
            position(Measure::Phrase, 0.125),
            position(Measure::Segment, 0.5),
            Event::NoteOn(Instrument::Atmos),
            position(Measure::Phrase, 0.75),
        ])
    );
}

#[test]
fn a_fault_in_a_later_block_keeps_the_earlier_blocks() {
    let args =
        [NOTE_ON, Arg::Int(0), PLAYHEAD_BANG, Arg::Int(1), Arg::Int(42), NOTE_ON, Arg::Int(1)];
    assert_eq!(
        decode("/jen", &args),
        stopped(
            vec![Event::NoteOn(Instrument::Snare), Event::PlayheadBang(Measure::Segment)],
            DecodeFault::UnknownMeasureCode(42),
        )
    );
}

#[test]
fn each_argument_gives_at_most_one_event() {
    let streams: [Vec<Arg>; 4] = [
        vec![NOTE_ON, Arg::Int(0), Arg::Int(1), Arg::Int(2)],
        vec![PLAYHEAD_POSITION, float(0.0), float(1.0), PLAYHEAD_BANG, Arg::Int(3)],
        vec![NOTE_ON, Arg::Int(0), Arg::Int(50), Arg::Int(2)],
        vec![float(0.0), NOTE_ON],
    ];
    for args in streams.iter() {
        let decoded = decode("/jen", args);
        assert!(decoded.events.len() <= args.len());
    }
}

#[test]
fn a_stream_in_two_parts_keeps_what_the_first_part_gave() {
    let first = vec![NOTE_ON, Arg::Int(0), Arg::Int(1)];
    let seconds: [Vec<Arg>; 3] = [
        vec![Arg::Int(2), PLAYHEAD_BANG, Arg::Int(0)],
        vec![Arg::Int(77)],
        vec![float(1.0), NOTE_ON],
    ];
    let alone = decode("/jen", &first);
    for second in seconds.iter() {
        let mut whole = first.clone();
        whole.extend(second.iter().copied());
        let decoded = decode("/jen", &whole);
        assert_eq!(decoded.events[..alone.events.len()], alone.events[..]);
    }
}

#[test]
fn a_message_without_arguments_gives_no_events() {
    let msg = Message { addr: String::from("/jen"), args: None };
    assert_eq!(osc_msg_to_events(&msg), ok(vec![]));
    let msg = Message { addr: String::from("/jen"), args: Some(vec![]) };
    assert_eq!(osc_msg_to_events(&msg), ok(vec![]));
}

#[test]
fn a_message_decodes_as_its_address_and_arguments_do() {
    let args = vec![NOTE_ON, Arg::Int(3), Arg::Int(99)];
    let msg = Message { addr: String::from("/jen"), args: Some(args.clone()) };
    assert_eq!(osc_msg_to_events(&msg), decode("/jen", &args));
    assert_eq!(
        osc_msg_to_events(&msg),
        stopped(vec![Event::NoteOn(Instrument::GhostNote)], DecodeFault::UnknownInstrumentCode(99))
    );
    let msg = Message { addr: String::from("/elsewhere"), args: Some(args) };
    assert_eq!(osc_msg_to_events(&msg), ok(vec![]));
}
