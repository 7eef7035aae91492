//! Packets as the transport delivers them.
//!
//! A packet is a message or a bundle of packets. The library does not look
//! inside one: it has `nannou_osc` list the messages and works on the list.

use vstd::prelude::*;
use crate::wire::{Arg, Message, MessageView};
use nannou_osc::Type;

verus! {

/// `nannou_osc::Packet`, which the library hands on unread: nothing is
/// claimed of what a value of it holds.
#[verifier::external_type_specification]
#[verifier::external_body]
pub struct ExPacket(nannou_osc::Packet);

/// The messages that `packet` holds, in the order in which
/// `nannou_osc::Packet::into_msgs` lists them.
pub uninterp spec fn packet_messages(packet: nannou_osc::Packet) -> Seq<MessageView>;

/// Lists the messages of `packet` with `nannou_osc::Packet::into_msgs`.
///
/// Trusted, not proved: the result is the list that `into_msgs` returns for
/// this packet, each message with its address and arguments as they are,
/// integers as `Arg::Int`, floats as `Arg::Float` with the float's bits, and
/// arguments of every other type as `Arg::Other`.
#[verifier::external_body]
pub(crate) fn into_messages(packet: nannou_osc::Packet) -> (msgs: Vec<Message>)
    ensures
        msgs.deep_view() == packet_messages(packet),
{
    packet.into_msgs().into_iter().map(|msg| Message {
        addr: msg.addr,
        args: msg.args.map(|args| args.into_iter().map(|arg| match arg {
            Type::Int(i) => Arg::Int(i),
            Type::Float(f) => Arg::Float(f.to_bits()),
            _ => Arg::Other,
        }).collect()),
    }).collect()
}

} // verus!
