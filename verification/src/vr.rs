//! The two-character value-representation codes, each packed into 16 bits
//! with its first character in the high byte.

use vstd::prelude::*;

verus! {

pub const AE: u16 = 0x4145;
pub const AS: u16 = 0x4153;
pub const AT: u16 = 0x4154;
pub const CS: u16 = 0x4353;
pub const DA: u16 = 0x4441;
pub const DS: u16 = 0x4453;
pub const DT: u16 = 0x4454;
pub const FD: u16 = 0x4644;
pub const FL: u16 = 0x464C;
pub const IS: u16 = 0x4953;
pub const LO: u16 = 0x4c4f;
pub const LT: u16 = 0x4c54;
pub const PN: u16 = 0x504e;
pub const SH: u16 = 0x5348;
pub const SL: u16 = 0x534C;
pub const SS: u16 = 0x5353;
pub const ST: u16 = 0x5354;
pub const TM: u16 = 0x544d;
pub const UI: u16 = 0x5549;
pub const UL: u16 = 0x554C;
pub const US: u16 = 0x5553;

pub const OB: u16 = 0x4f42;
pub const OD: u16 = 0x4f44;
pub const OF: u16 = 0x4f46;
pub const OL: u16 = 0x4f4c;
pub const OV: u16 = 0x4f56;
pub const OW: u16 = 0x4f57;
pub const SV: u16 = 0x5356;
pub const UC: u16 = 0x5543;
pub const UR: u16 = 0x5552;
pub const UT: u16 = 0x5554;
pub const UV: u16 = 0x5556;
pub const UN: u16 = 0x554E;

pub const SQ: u16 = 0x5351;

/// How the bytes after a value-representation code are laid out.
#[derive(Debug, Clone, Copy, PartialEq, Eq, Structural)]
pub enum Category {
    /// Two reserved bytes that hold the length: a 16-bit length.
    Short,
    /// Two reserved bytes, then a 32-bit length.
    Long,
    /// Two reserved bytes, then a 32-bit sequence length and the items.
    Sequence,
    /// No known layout.
    Unknown,
}

/// The codes whose length field has 16 bits.
pub open spec fn is_short(vr: u16) -> bool {
    ||| vr == AE
    ||| vr == AS
    ||| vr == AT
    ||| vr == CS
    ||| vr == DA
    ||| vr == DS
    ||| vr == DT
    ||| vr == FL
    ||| vr == FD
    ||| vr == IS
    ||| vr == LO
    ||| vr == LT
    ||| vr == PN
    ||| vr == SH
    ||| vr == SL
    ||| vr == SS
    ||| vr == ST
    ||| vr == TM
    ||| vr == UI
    ||| vr == UL
    ||| vr == US
}

/// The codes whose length field has 32 bits.
pub open spec fn is_long(vr: u16) -> bool {
    ||| vr == UC
    ||| vr == UT
    ||| vr == UR
    ||| vr == SV
    ||| vr == UV
    ||| vr == OB
    ||| vr == OD
    ||| vr == OF
    ||| vr == OL
    ||| vr == OV
    ||| vr == OW
    ||| vr == UN
}

/// The codes whose values are shown as empty text.
pub open spec fn is_opaque(vr: u16) -> bool {
    is_long(vr) || vr == FD
}

/// The category of a code.
pub open spec fn category_of(vr: u16) -> Category {
    if is_short(vr) {
        Category::Short
    } else if is_long(vr) {
        Category::Long
    } else if vr == SQ {
        Category::Sequence
    } else {
        Category::Unknown
    }
}

/// Tells which layout follows the code `vr`.
pub fn category(vr: u16) -> (c: Category)
    ensures
        c == category_of(vr),
{
    if vr == AE || vr == AS || vr == AT || vr == CS || vr == DA || vr == DS || vr == DT
        || vr == FL || vr == FD || vr == IS || vr == LO || vr == LT || vr == PN || vr == SH
        || vr == SL || vr == SS || vr == ST || vr == TM || vr == UI || vr == UL || vr == US {
        Category::Short
    } else if vr == UC || vr == UT || vr == UR || vr == SV || vr == UV || vr == OB || vr == OD
        || vr == OF || vr == OL || vr == OV || vr == OW || vr == UN {
        Category::Long
    } else if vr == SQ {
        Category::Sequence
    } else {
        Category::Unknown
    }
}

/// Tells whether values of the code `vr` are shown as empty text.
pub fn opaque(vr: u16) -> (b: bool)
    ensures
        b == is_opaque(vr),
{
    vr == OB || vr == OD || vr == OF || vr == OL || vr == OV || vr == OW || vr == SV || vr == UC
        || vr == UR || vr == UT || vr == UV || vr == UN || vr == FD
}

} // verus!
