//! Small numeric helpers shared by the storage primitives: a big-endian
//! counter increment used for monotonically growing database keys, and a
//! checked addition.

use vstd::prelude::*;

verus! {

/// The integer held by an 8-byte big-endian word.
pub open spec fn be_value(s: Seq<u8>) -> int
    recommends
        s.len() == 8,
{
    s[0] * 0x100000000000000 + s[1] * 0x1000000000000 + s[2] * 0x10000000000
        + s[3] * 0x100000000 + s[4] * 0x1000000 + s[5] * 0x10000 + s[6] * 0x100 + s[7]
}

/// The counter value encoded by a stored key: an 8-byte word read
/// big-endian; anything else (absent, or of another length) counts as zero.
pub open spec fn counter_value(bytes: Option<Seq<u8>>) -> int {
    match bytes {
        Some(s) => if s.len() == 8 {
            be_value(s)
        } else {
            0
        },
        None => 0,
    }
}

/// Reads an 8-byte big-endian word.
pub fn u64_from_be(b: &[u8]) -> (r: u64)
    requires
        b@.len() == 8,
    ensures
        r == be_value(b@),
{
    (b[0] as u64) * 0x100000000000000 + (b[1] as u64) * 0x1000000000000 + (b[2] as u64)
        * 0x10000000000 + (b[3] as u64) * 0x100000000 + (b[4] as u64) * 0x1000000 + (b[5] as u64)
        * 0x10000 + (b[6] as u64) * 0x100 + (b[7] as u64)
}

/// Writes a value as an 8-byte big-endian word.
pub fn u64_to_be(x: u64) -> (r: [u8; 8])
    ensures
        r@.len() == 8,
        be_value(r@) == x,
{
    let b0: u8 = (x / 0x100000000000000) as u8;
    let r0: u64 = x % 0x100000000000000;
    let b1: u8 = (r0 / 0x1000000000000) as u8;
    let r1: u64 = r0 % 0x1000000000000;
    let b2: u8 = (r1 / 0x10000000000) as u8;
    let r2: u64 = r1 % 0x10000000000;
    let b3: u8 = (r2 / 0x100000000) as u8;
    let r3: u64 = r2 % 0x100000000;
    let b4: u8 = (r3 / 0x1000000) as u8;
    let r4: u64 = r3 % 0x1000000;
    let b5: u8 = (r4 / 0x10000) as u8;
    let r5: u64 = r4 % 0x10000;
    let b6: u8 = (r5 / 0x100) as u8;
    let b7: u8 = (r5 % 0x100) as u8;
    [b0, b1, b2, b3, b4, b5, b6, b7]
}

/// Increments the big-endian counter held by a stored key, wrapping at the
/// 64-bit boundary.  An absent or malformed key counts as zero, so the first
/// stored value is one.
pub fn increment(old_bytes: Option<&[u8]>) -> (r: [u8; 8])
    ensures
        be_value(r@) == (counter_value(match old_bytes {
            Some(b) => Some(b@),
            None => None,
        }) + 1) % 0x10000000000000000,
{
    let v: u64 = match old_bytes {
        Some(b) => if b.len() == 8 {
            u64_from_be(b)
        } else {
            0
        },
        None => 0,
    };
    let next = v.wrapping_add(1);
    u64_to_be(next)
}

/// Addition that reports overflow instead of wrapping.
pub fn checked_add(a: u64, b: u64) -> (r: Option<u64>)
    ensures
        a + b <= u64::MAX ==> r == Some((a + b) as u64),
        a + b > u64::MAX ==> r is None,
{
    a.checked_add(b)
}

} // verus!
