//! Decoding of the `/jen` event stream and a cache of the most recently
//! observed events.
//!
//! Jen multiplexes note triggers and playhead updates into the arguments of a
//! single message. [`osc_msg_to_events`] turns one such message into typed
//! [`Event`]s, and [`State`] folds batches of events into a snapshot that can
//! be asked how long ago an instrument or a measure was last heard from.

pub mod blocks;
pub mod decode;
pub mod event;
pub mod freshness;
pub mod kinds;
pub mod packet;
pub mod state;
pub mod wire;

pub use decode::{decode, osc_msg_to_events, DecodeFault, Decoded};
pub use event::Event;
pub use kinds::{Instrument, Measure};
pub use state::{Elapsed, State, Timestamp};
pub use wire::{Arg, Message};
