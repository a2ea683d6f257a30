//! The nine-bit word codec: bit 8 marks an address word, the low eight bits
//! carry an address or a payload byte.
use vstd::prelude::*;

use crate::common::Address;

verus! {

/// The marker bit of an address word.
pub const ADDRESS_MARKER: u16 = 0x100;

/// What a word on the bus stands for.
#[derive(Debug, Clone, Copy, PartialEq, Eq, Structural)]
pub enum Word {
    /// The start of a frame for the device with this address.
    Address(Address),
    /// One byte of a frame.
    Data(u8),
}

/// The low eight bits of a word.
pub open spec fn low_byte(w: u16) -> u8 {
    (w % 256) as u8
}

/// Whether the marker bit (bit 8) of a word is set.
pub open spec fn has_marker(w: u16) -> bool {
    (w / 256) % 2 == 1
}

/// The meaning of a word read from the bus.
pub open spec fn word_of(w: u16) -> Word {
    if has_marker(w) {
        Word::Address(low_byte(w))
    } else {
        Word::Data(low_byte(w))
    }
}

/// The word that announces a frame for `a`.
pub open spec fn address_word(a: Address) -> u16 {
    (256 + a) as u16
}

/// The word that carries the payload byte `b`.
pub open spec fn data_word(b: u8) -> u16 {
    b as u16
}

/// Packs an address into an address word: `(1 << 8) | a`.
pub fn pack_address(a: Address) -> (w: u16)
    ensures
        w == address_word(a),
        word_of(w) == Word::Address(a),
{
    let w: u16 = ADDRESS_MARKER | (a as u16);
    assert(ADDRESS_MARKER | (a as u16) == 256 + a) by (bit_vector)
        requires
            ADDRESS_MARKER == 0x100u16,
            a < 256,
    ;
    w
}

/// Packs a payload byte into a word with the marker bit clear.
pub fn pack_data(b: u8) -> (w: u16)
    ensures
        w == data_word(b),
        word_of(w) == Word::Data(b),
{
    b as u16
}

/// Reads a word from the bus: an address word if bit 8 is set, else a
/// payload byte; both carry the low eight bits.
pub fn unpack(w: u16) -> (r: Word)
    ensures
        r == word_of(w),
{
    let low: u8 = (w & 0xff) as u8;
    assert(w & 0xff == w % 256) by (bit_vector);
    assert((w & ADDRESS_MARKER != 0) == ((w / 256) % 2 == 1)) by (bit_vector)
        requires
            ADDRESS_MARKER == 0x100u16,
    ;
    if w & ADDRESS_MARKER != 0 {
        Word::Address(low)
    } else {
        Word::Data(low)
    }
}

} // verus!
