//! The shape of a message as the decoder reads it.

use vstd::prelude::*;

verus! {

/// The only address whose messages carry events.
pub const ADDRESS: &'static str = "/jen";

/// The mode tag that opens a block of instrument codes.
pub const NOTE_ON: i32 = 100;

/// The mode tag that opens a block of measure codes.
pub const PLAYHEAD_BANG: i32 = 101;

/// The mode tag that opens a block of playhead positions.
pub const PLAYHEAD_POSITION: i32 = 102;

/// One argument of a message.
#[derive(Copy, Clone, Debug, PartialEq, Eq, Structural)]
pub enum Arg {
    /// A 32-bit signed integer.
    Int(i32),
    /// A 32-bit float, held as its bit pattern: the decoder hands the value on
    /// and never computes with it.
    Float(u32),
    /// An argument of any other type.
    Other,
}

/// A message: an address and, where it has any, its arguments in order.
#[derive(Clone, Debug, PartialEq, Eq)]
pub struct Message {
    pub addr: String,
    pub args: Option<Vec<Arg>>,
}

/// What a [`Message`] holds.
pub ghost struct MessageView {
    pub addr: Seq<char>,
    pub args: Option<Seq<Arg>>,
}

impl View for Message {
    type V = MessageView;

    open spec fn view(&self) -> MessageView {
        MessageView {
            addr: self.addr@,
            args: match self.args {
                Some(args) => Some(args@),
                None => None,
            },
        }
    }
}

impl DeepView for Message {
    type V = MessageView;

    open spec fn deep_view(&self) -> MessageView {
        self@
    }
}

/// Whether `addr` is [`ADDRESS`].
pub fn is_address(addr: &str) -> (res: bool)
    ensures
        res == (addr@ == ADDRESS@),
{
    // Two strings are the same where their encodings are, and the address is
    // encoded as the four bytes 2f 6a 65 6e.
    let bytes = addr.as_bytes();
    proof {
        reveal_strlit("/jen");
        let address = seq!['/', 'j', 'e', 'n'];
        assert(ADDRESS@ =~= address);
        vstd::utf8::is_ascii_chars_encode_utf8(address);
        vstd::utf8::encode_utf8_decode_utf8(address);
        vstd::utf8::encode_utf8_decode_utf8(addr@);
        assert(vstd::utf8::encode_utf8(address) =~= seq![0x2fu8, 0x6au8, 0x65u8, 0x6eu8]);
    }
    let same = bytes.len() == 4 && bytes[0] == 0x2f && bytes[1] == 0x6a && bytes[2] == 0x65
        && bytes[3] == 0x6e;
    proof {
        if same {
            assert(bytes@ =~= seq![0x2fu8, 0x6au8, 0x65u8, 0x6eu8]);
        }
    }
    same
}

/// Whether `i` is one of the three mode tags.
pub open spec fn is_mode_tag(i: int) -> bool {
    i == NOTE_ON || i == PLAYHEAD_BANG || i == PLAYHEAD_POSITION
}

/// Whether `i` is one of the three mode tags.
pub fn int_is_mode(i: i32) -> (res: bool)
    ensures
        res == is_mode_tag(i as int),
{
    i == NOTE_ON || i == PLAYHEAD_BANG || i == PLAYHEAD_POSITION
}

/// No mode tag is the code of an instrument or of a measure, so a tag inside a
/// block can always be told from the block's payload.
pub proof fn lemma_tags_are_no_codes(i: int)
    requires
        is_mode_tag(i),
    ensures
        !crate::kinds::Instrument::is_code(i),
        !crate::kinds::Measure::is_code(i),
{
}

} // verus!
