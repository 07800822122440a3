//! Randomness helpers: shuffling, random alphanumeric strings, and random
//! durations.  The draws come from the rand crate through trusted items;
//! everything built on top of a draw is verified.

use vstd::prelude::*;
use vstd::string::StrSliceExecFns;
use vstd::string::StringExecFns;
use core::ops::Range;
use core::time::Duration;
use std::time::SystemTime;

verus! {

/// Relies on rand's `SliceRandom::shuffle`: it permutes the elements in
/// place, so the multiset of elements and the length are unchanged.
#[verifier::external_body]
pub fn shuffle<T>(vec: &mut Vec<T>)
    ensures
        final(vec)@.to_multiset() == old(vec)@.to_multiset(),
        final(vec)@.len() == old(vec)@.len(),
{
    rand::seq::SliceRandom::shuffle(vec.as_mut_slice(), &mut rand::thread_rng())
}

/// Relies on rand's `Rng::gen_range`: a draw from a non-empty range lies
/// inside it.
#[verifier::external_body]
fn draw_index(bound: usize) -> (r: usize)
    requires
        bound > 0,
    ensures
        r < bound,
{
    rand::Rng::gen_range(&mut rand::thread_rng(), 0..bound)
}

/// Relies on rand's `Rng::gen_range`: a draw from a non-empty range lies
/// inside it.
#[verifier::external_body]
fn draw_u64(lo: u64, hi: u64) -> (r: u64)
    requires
        lo < hi,
    ensures
        lo <= r < hi,
{
    rand::Rng::gen_range(&mut rand::thread_rng(), lo..hi)
}

/// Whether a character is an ASCII letter or digit.
pub open spec fn is_alphanumeric_char(c: char) -> bool {
    ('0' <= c <= '9') || ('a' <= c <= 'z') || ('A' <= c <= 'Z')
}

/// A random alphanumeric string of the given length.
pub fn string(length: usize) -> (r: String)
    ensures
        r@.len() == length,
        forall|i: int| 0 <= i < r@.len() ==> is_alphanumeric_char(#[trigger] r@[i]),
{
    proof {
        reveal_strlit("ABCDEFGHIJKLMNOPQRSTUVWXYZabcdefghijklmnopqrstuvwxyz0123456789");
    }
    let charset = "ABCDEFGHIJKLMNOPQRSTUVWXYZabcdefghijklmnopqrstuvwxyz0123456789";
    let mut r = String::new();
    let mut i: usize = 0;
    while i < length
        invariant
            0 <= i <= length,
            r@.len() == i,
            charset@.len() == 62,
            charset@
                == "ABCDEFGHIJKLMNOPQRSTUVWXYZabcdefghijklmnopqrstuvwxyz0123456789"@,
            forall|j: int| 0 <= j < charset@.len() ==> is_alphanumeric_char(#[trigger] charset@[j]),
            forall|j: int| 0 <= j < r@.len() ==> is_alphanumeric_char(#[trigger] r@[j]),
        decreases length - i,
    {
        let d = draw_index(62);
        let c = charset.substring_char(d, d + 1);
        r.append(c);
        i += 1;
    }
    r
}

/// The whole seconds of a duration, as `Duration::as_secs` reports them.
pub uninterp spec fn duration_secs(d: Duration) -> u64;

/// The subsecond part of a duration, as `Duration::subsec_nanos` reports
/// it.
pub uninterp spec fn duration_subsec_nanos(d: Duration) -> u32;

/// Relies on `Duration::from_secs`: the duration holds exactly the given
/// whole seconds and no subsecond part.
pub assume_specification[ Duration::from_secs ](secs: u64) -> (d: Duration)
    ensures
        duration_secs(d) == secs,
        duration_subsec_nanos(d) == 0,
;

/// Relies on `Duration::as_secs`: it reports the duration's whole seconds.
pub assume_specification[ Duration::as_secs ](d: &Duration) -> (r: u64)
    ensures
        r == duration_secs(*d),
;

/// A random duration of whole seconds drawn from the range, with no
/// subsecond part.
pub fn secs(range: Range<u64>) -> (r: Duration)
    requires
        range.start < range.end,
    ensures
        range.start <= duration_secs(r) < range.end,
        duration_subsec_nanos(r) == 0,
{
    let v = draw_u64(range.start, range.end);
    Duration::from_secs(v)
}

#[verifier::external_type_specification]
#[verifier::external_body]
pub struct ExSystemTime(SystemTime);

/// Relies on `SystemTime::now`; nothing is promised of the clock.
#[verifier::external_body]
fn system_time_now() -> SystemTime {
    SystemTime::now()
}

/// Relies on `SystemTime::checked_add`; nothing is promised of the sum,
/// which is absent when it would overflow the clock's representation.
pub assume_specification[ SystemTime::checked_add ](
    t: &SystemTime,
    duration: Duration,
) -> Option<SystemTime>;

/// A point in time a random number of seconds from now, drawn from the
/// range; if the addition would overflow the clock's representation, the
/// current time itself.
pub fn time_from_now_secs(range: Range<u64>) -> SystemTime
    requires
        range.start < range.end,
{
    let d = secs(range);
    let now = system_time_now();
    match now.checked_add(d) {
        Some(t) => t,
        None => now,
    }
}

} // verus!
