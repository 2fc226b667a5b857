//! Fixed-width encoding of Cryptoki unsigned integers.
//!
//! Attribute values such as `CLASS`, `KEY_TYPE` and the boolean `TOKEN` are
//! stored as byte strings. Integer-valued attributes use the in-memory
//! representation of the Cryptoki unsigned integer type: a fixed number of
//! bytes in the machine's byte order (little-endian here). The host encodes
//! template values by the same rules, so template matching can compare bytes.

use vstd::prelude::*;

verus! {

/// Width in bytes of a Cryptoki unsigned integer (`CK_ULONG`) as this library
/// encodes it into attribute values.
pub const ULONG_WIDTH: usize = 8;

/// The `width` low-order bytes of `value`, least significant byte first.
pub open spec fn spec_le_bytes(value: u64, width: nat) -> Seq<u8> {
    Seq::new(width, |i: int| ((value >> ((8 * i) as u64)) & 0xff) as u8)
}

/// Encode `value` into a `width`-byte buffer, least significant byte first.
/// `value` must fit, as it always does for the codes this module stores.
pub fn serialize_uint(value: u64, width: usize) -> (r: Vec<u8>)
    requires
        width <= 8,
        width < 8 ==> value < (1u64 << ((8 * width) as u64)),
    ensures
        r@ == spec_le_bytes(value, width as nat),
{
    let mut out: Vec<u8> = Vec::new();
    let mut i: usize = 0;
    while i < width
        invariant
            i <= width <= 8,
            out@.len() == i,
            forall|j: int|
                0 <= j < i ==> out@[j] == ((value >> ((8 * j) as u64)) & 0xff) as u8,
        decreases width - i,
    {
        let shift: u64 = 8 * (i as u64);
        let b: u8 = ((value >> shift) & 0xff) as u8;
        out.push(b);
        i = i + 1;
    }
    proof {
        assert(out@ =~= spec_le_bytes(value, width as nat));
    }
    out
}

} // verus!
