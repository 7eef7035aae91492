use jen::{Instrument, Measure};

const INSTRUMENTS: [Instrument; 8] = [
    Instrument::Snare,
    Instrument::Kick,
    Instrument::Ride,
    Instrument::GhostNote,
    Instrument::Bass,
    Instrument::Melodic,
    Instrument::Chordal,
    Instrument::Atmos,
];

const MEASURES: [Measure; 7] = [
    Measure::Phrase,
    Measure::Segment,
    Measure::Bar,
    Measure::Minim,
    Measure::Beat,
    Measure::Quaver,
    Measure::SemiQuaver,
];

#[test]
fn total_variants_count_the_members() {
    assert_eq!(Instrument::TOTAL_VARIANTS, 8);
    assert_eq!(Measure::TOTAL_VARIANTS, 7);
    assert_eq!(INSTRUMENTS.len(), Instrument::TOTAL_VARIANTS);
    assert_eq!(MEASURES.len(), Measure::TOTAL_VARIANTS);
}

#[test]
fn instrument_codes_follow_the_declared_order() {
    for (code, inst) in INSTRUMENTS.iter().enumerate() {
        assert_eq!(Instrument::from_i32(code as i32), Some(*inst));
        assert_eq!(inst.index(), code);
    }
}

#[test]
fn measure_codes_follow_the_declared_order() {
    for (code, meas) in MEASURES.iter().enumerate() {
        assert_eq!(Measure::from_i32(code as i32), Some(*meas));
        assert_eq!(meas.index(), code);
    }
}

#[test]
fn instrument_from_i32_knows_each_code() {
    assert_eq!(Instrument::from_i32(0), Some(Instrument::Snare));
    assert_eq!(Instrument::from_i32(1), Some(Instrument::Kick));
    assert_eq!(Instrument::from_i32(2), Some(Instrument::Ride));
    assert_eq!(Instrument::from_i32(3), Some(Instrument::GhostNote));
    assert_eq!(Instrument::from_i32(4), Some(Instrument::Bass));
    assert_eq!(Instrument::from_i32(5), Some(Instrument::Melodic));
    assert_eq!(Instrument::from_i32(6), Some(Instrument::Chordal));
    assert_eq!(Instrument::from_i32(7), Some(Instrument::Atmos));
}

#[test]
fn measure_from_i32_knows_each_code() {
    assert_eq!(Measure::from_i32(0), Some(Measure::Phrase));
    assert_eq!(Measure::from_i32(1), Some(Measure::Segment));
    assert_eq!(Measure::from_i32(2), Some(Measure::Bar));
    assert_eq!(Measure::from_i32(3), Some(Measure::Minim));
    assert_eq!(Measure::from_i32(4), Some(Measure::Beat));
    assert_eq!(Measure::from_i32(5), Some(Measure::Quaver));
    assert_eq!(Measure::from_i32(6), Some(Measure::SemiQuaver));
}

#[test]
fn instrument_from_i32_rejects_what_is_no_code() {
    for code in [-1, 8, 9, 99, 1000, i32::MIN, i32::MAX] {
        assert_eq!(Instrument::from_i32(code), None);
    }
}

#[test]
fn measure_from_i32_rejects_what_is_no_code() {
    for code in [-1, 7, 8, 99, 1000, i32::MIN, i32::MAX] {
        assert_eq!(Measure::from_i32(code), None);
    }
}

#[test]
fn mode_tags_are_no_codes() {
    for tag in [jen::wire::NOTE_ON, jen::wire::PLAYHEAD_BANG, jen::wire::PLAYHEAD_POSITION] {
        assert!(jen::wire::int_is_mode(tag));
        assert_eq!(Instrument::from_i32(tag), None);
        assert_eq!(Measure::from_i32(tag), None);
    }
    assert_eq!(jen::wire::NOTE_ON, 100);
    assert_eq!(jen::wire::PLAYHEAD_BANG, 101);
    assert_eq!(jen::wire::PLAYHEAD_POSITION, 102);
}

#[test]
fn int_is_mode_holds_of_the_three_tags_only() {
    for i in -5..200 {
        assert_eq!(jen::wire::int_is_mode(i), (100..=102).contains(&i));
    }
    assert!(!jen::wire::int_is_mode(i32::MIN));
    assert!(!jen::wire::int_is_mode(i32::MAX));
}

#[test]
fn is_address_holds_of_the_address_only() {
    assert!(jen::wire::is_address("/jen"));
    assert_eq!(jen::wire::ADDRESS, "/jen");
    let others =
        ["", "/", "jen", "/jen/", "/jen ", " /jen", "/JEN", "/je", "/jenn", "/j\u{e9}n", "/jen\u{0}"];
    for other in others {
        assert!(!jen::wire::is_address(other));
    }
}
