//! The events that a message can carry.

use vstd::prelude::*;
use crate::kinds::{Instrument, Measure};

verus! {

/// Some event emitted by Jen.
#[derive(Copy, Clone, Debug, PartialEq, Eq, Structural)]
pub enum Event {
    /// The instrument was triggered.
    NoteOn(Instrument),
    /// The playhead crossed the start of the measure.
    PlayheadBang(Measure),
    /// The playhead's position within the measure, as the bit pattern of the
    /// 32-bit float that the message carried.
    PlayheadPosition(Measure, u32),
}

} // verus!
