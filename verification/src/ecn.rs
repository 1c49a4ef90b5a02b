//! Explicit congestion notification marks.
use vstd::prelude::*;

verus! {

/// The mark that a datagram carries in the two congestion bits of its header.
#[derive(Debug, Clone, Copy, PartialEq, Eq, Structural)]
pub enum EcnCodepoint {
    /// ECT(0): the sender understands congestion marks.
    Ect0,
    /// ECT(1): the sender understands congestion marks.
    Ect1,
    /// CE: congestion was met on the way.
    Ce,
}

/// The header bits of a mark.
pub open spec fn ecn_bits(mark: EcnCodepoint) -> u8 {
    match mark {
        EcnCodepoint::Ect0 => 0b10,
        EcnCodepoint::Ect1 => 0b01,
        EcnCodepoint::Ce => 0b11,
    }
}

/// The mark in the two low bits of `bits`; `None` where both are zero.
pub open spec fn ecn_mark(bits: u8) -> Option<EcnCodepoint> {
    if bits % 4 == 2 {
        Some(EcnCodepoint::Ect0)
    } else if bits % 4 == 1 {
        Some(EcnCodepoint::Ect1)
    } else if bits % 4 == 3 {
        Some(EcnCodepoint::Ce)
    } else {
        None
    }
}

impl EcnCodepoint {
    /// The header bits of this mark.
    pub fn bits(self) -> (bits: u8)
        ensures
            bits == ecn_bits(self),
    {
        match self {
            EcnCodepoint::Ect0 => 0b10,
            EcnCodepoint::Ect1 => 0b01,
            EcnCodepoint::Ce => 0b11,
        }
    }

    /// The mark in the two low bits of `bits`; the other bits do not matter.
    pub fn from_bits(bits: u8) -> (mark: Option<EcnCodepoint>)
        ensures
            mark == ecn_mark(bits),
    {
        assert(bits & 0b11 == bits % 4) by (bit_vector);
        match bits & 0b11 {
            0b10 => Some(EcnCodepoint::Ect0),
            0b01 => Some(EcnCodepoint::Ect1),
            0b11 => Some(EcnCodepoint::Ce),
            _ => None,
        }
    }
}

/// Reading the header bits of a mark gives the mark back.
pub proof fn ecn_bits_round_trip(mark: EcnCodepoint)
    ensures
        ecn_mark(ecn_bits(mark)) == Some(mark),
{
}

/// The bits in which the marks stand in a header.
pub proof fn marks_have_their_bits(mark: EcnCodepoint)
    ensures
        ecn_bits(mark) == 2 <==> mark is Ect0,
        ecn_bits(mark) == 1 <==> mark is Ect1,
        ecn_bits(mark) == 3 <==> mark is Ce,
        1 <= ecn_bits(mark) <= 3,
{
}

/// Whatever the other bits of the byte are, a mark is read exactly if one of the
/// two low bits is set, and it is the mark that has these two bits.
pub proof fn mark_is_in_the_low_bits(bits: u8)
    ensures
        ecn_mark(bits) is None <==> bits % 4 == 0,
        ecn_mark(bits) matches Some(mark) ==> ecn_bits(mark) == bits % 4,
{
}

} // verus!
