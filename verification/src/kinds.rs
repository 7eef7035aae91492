//! The two closed enumerations of the protocol and their integer codes.

use vstd::prelude::*;

verus! {

/// The sound sources that can be triggered, in the order of their codes.
#[derive(Copy, Clone, Debug, PartialEq, Eq, Hash, Structural)]
pub enum Instrument {
    Snare,
    Kick,
    Ride,
    GhostNote,
    Bass,
    Melodic,
    Chordal,
    Atmos,
}

/// The rhythmic granularities of the playhead, from coarsest to finest.
#[derive(Copy, Clone, Debug, PartialEq, Eq, Hash, Structural)]
pub enum Measure {
    Phrase,
    Segment,
    Bar,
    Minim,
    Beat,
    Quaver,
    SemiQuaver,
}

impl Instrument {
    /// The number of instruments.
    pub const TOTAL_VARIANTS: usize = 8;

    /// The integer that stands for this instrument on the wire.
    pub open spec fn code(self) -> int {
        match self {
            Instrument::Snare => 0,
            Instrument::Kick => 1,
            Instrument::Ride => 2,
            Instrument::GhostNote => 3,
            Instrument::Bass => 4,
            Instrument::Melodic => 5,
            Instrument::Chordal => 6,
            Instrument::Atmos => 7,
        }
    }

    /// Whether `i` is the code of some instrument.
    pub open spec fn is_code(i: int) -> bool {
        0 <= i < 8
    }

    /// The instrument whose code is `i`; meaningful only for valid codes.
    pub open spec fn of_code(i: int) -> Instrument {
        choose|inst: Instrument| inst.code() == i
    }

    /// Codes and instruments correspond one to one.
    pub proof fn lemma_code_bijection()
        ensures
            forall|inst: Instrument| #[trigger] Self::is_code(inst.code()),
            forall|inst: Instrument| Self::of_code(#[trigger] inst.code()) == inst,
            forall|i: int| Self::is_code(i) ==> (#[trigger] Self::of_code(i)).code() == i,
            forall|a: Instrument, b: Instrument|
                #[trigger] a.code() == #[trigger] b.code() ==> a == b,
    {
        assert forall|i: int| Self::is_code(i) implies (#[trigger] Self::of_code(i)).code()
            == i by {
            Self::lemma_code_witness(i);
        }
    }

    proof fn lemma_code_witness(i: int)
        requires
            Self::is_code(i),
        ensures
            exists|inst: Instrument| inst.code() == i,
    {
        if i == 0 {
            assert(Instrument::Snare.code() == i);
        } else if i == 1 {
            assert(Instrument::Kick.code() == i);
        } else if i == 2 {
            assert(Instrument::Ride.code() == i);
        } else if i == 3 {
            assert(Instrument::GhostNote.code() == i);
        } else if i == 4 {
            assert(Instrument::Bass.code() == i);
        } else if i == 5 {
            assert(Instrument::Melodic.code() == i);
        } else if i == 6 {
            assert(Instrument::Chordal.code() == i);
        } else {
            assert(Instrument::Atmos.code() == i);
        }
    }

    /// The instrument with code `i`, or `None` where `i` is no instrument's code.
    pub fn from_i32(i: i32) -> (res: Option<Self>)
        ensures
            res is Some <==> Self::is_code(i as int),
            res matches Some(inst) ==> inst.code() == i && inst == Self::of_code(i as int),
    {
        proof {
            Self::lemma_code_bijection();
        }
        match i {
            0 => Some(Instrument::Snare),
            1 => Some(Instrument::Kick),
            2 => Some(Instrument::Ride),
            3 => Some(Instrument::GhostNote),
            4 => Some(Instrument::Bass),
            5 => Some(Instrument::Melodic),
            6 => Some(Instrument::Chordal),
            7 => Some(Instrument::Atmos),
            _ => None,
        }
    }

    /// This instrument's code, as a position in a table of all instruments.
    pub fn index(self) -> (res: usize)
        ensures
            res == self.code(),
            res < Self::TOTAL_VARIANTS,
    {
        match self {
            Instrument::Snare => 0,
            Instrument::Kick => 1,
            Instrument::Ride => 2,
            Instrument::GhostNote => 3,
            Instrument::Bass => 4,
            Instrument::Melodic => 5,
            Instrument::Chordal => 6,
            Instrument::Atmos => 7,
        }
    }
}

impl Measure {
    /// The number of measures.
    pub const TOTAL_VARIANTS: usize = 7;

    /// The integer that stands for this measure on the wire; coarser measures
    /// have smaller codes.
    pub open spec fn code(self) -> int {
        match self {
            Measure::Phrase => 0,
            Measure::Segment => 1,
            Measure::Bar => 2,
            Measure::Minim => 3,
            Measure::Beat => 4,
            Measure::Quaver => 5,
            Measure::SemiQuaver => 6,
        }
    }

    /// Whether `i` is the code of some measure.
    pub open spec fn is_code(i: int) -> bool {
        0 <= i < 7
    }

    /// The measure whose code is `i`; meaningful only for valid codes.
    pub open spec fn of_code(i: int) -> Measure {
        choose|meas: Measure| meas.code() == i
    }

    /// Codes and measures correspond one to one.
    pub proof fn lemma_code_bijection()
        ensures
            forall|meas: Measure| #[trigger] Self::is_code(meas.code()),
            forall|meas: Measure| Self::of_code(#[trigger] meas.code()) == meas,
            forall|i: int| Self::is_code(i) ==> (#[trigger] Self::of_code(i)).code() == i,
            forall|a: Measure, b: Measure|
                #[trigger] a.code() == #[trigger] b.code() ==> a == b,
    {
        assert forall|i: int| Self::is_code(i) implies (#[trigger] Self::of_code(i)).code()
            == i by {
            Self::lemma_code_witness(i);
        }
    }

    proof fn lemma_code_witness(i: int)
        requires
            Self::is_code(i),
        ensures
            exists|meas: Measure| meas.code() == i,
    {
        if i == 0 {
            assert(Measure::Phrase.code() == i);
        } else if i == 1 {
            assert(Measure::Segment.code() == i);
        } else if i == 2 {
            assert(Measure::Bar.code() == i);
        } else if i == 3 {
            assert(Measure::Minim.code() == i);
        } else if i == 4 {
            assert(Measure::Beat.code() == i);
        } else if i == 5 {
            assert(Measure::Quaver.code() == i);
        } else {
            assert(Measure::SemiQuaver.code() == i);
        }
    }

    /// The measure with code `i`, or `None` where `i` is no measure's code.
    pub fn from_i32(i: i32) -> (res: Option<Self>)
        ensures
            res is Some <==> Self::is_code(i as int),
            res matches Some(meas) ==> meas.code() == i && meas == Self::of_code(i as int),
    {
        proof {
            Self::lemma_code_bijection();
        }
        match i {
            0 => Some(Measure::Phrase),
            1 => Some(Measure::Segment),
            2 => Some(Measure::Bar),
            3 => Some(Measure::Minim),
            4 => Some(Measure::Beat),
            5 => Some(Measure::Quaver),
            6 => Some(Measure::SemiQuaver),
            _ => None,
        }
    }

    /// This measure's code, as a position in a table of all measures.
    pub fn index(self) -> (res: usize)
        ensures
            res == self.code(),
            res < Self::TOTAL_VARIANTS,
    {
        match self {
            Measure::Phrase => 0,
            Measure::Segment => 1,
            Measure::Bar => 2,
            Measure::Minim => 3,
            Measure::Beat => 4,
            Measure::Quaver => 5,
            Measure::SemiQuaver => 6,
        }
    }
}

} // verus!
