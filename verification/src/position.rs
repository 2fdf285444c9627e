//! Lines and columns as the language server counts them, from 0, and as users
//! do, from 1.
use crate::json::{Json, JsonView};
use vstd::prelude::*;
use vstd::string::*;

verus! {

/// A line or column counted from 1, for one counted from 0. The largest
/// number wraps around to the smallest.
pub open spec fn one_based(n: int) -> int {
    if n == i64::MAX {
        i64::MIN as int
    } else {
        n + 1
    }
}

/// A line or column counted from 1, for one counted from 0.
pub fn from_one(n: i64) -> (r: i64)
    ensures
        r == one_based(n as int),
{
    n.wrapping_add(1)
}

/// What is counted from 1 is one more than what is counted from 0.
pub proof fn lemma_counted(n: int, k: u32)
    ensures
        n < i64::MAX ==> one_based(n) == n + 1,
        k < u32::MAX ==> next_of(k) == k + 1,
        k > 0 ==> prior_of(k) == k - 1 && before_of(k) == k - 1,
        before_of(0) == 0,
        prior_of(0) == u32::MAX,
        next_of(u32::MAX) == 0,
        one_based(i64::MAX as int) == i64::MIN,
{
}

/// The number after `n`; the largest wraps around to 0.
pub open spec fn next_of(n: u32) -> u32 {
    if n == u32::MAX {
        0
    } else {
        (n + 1) as u32
    }
}

/// The number after `n`; the largest wraps around to 0.
pub fn next_number(n: u32) -> (r: u32)
    ensures
        r == next_of(n),
{
    n.wrapping_add(1)
}

/// The number before `n`; 0 wraps around to the largest.
pub open spec fn prior_of(n: u32) -> u32 {
    if n == 0 {
        u32::MAX
    } else {
        (n - 1) as u32
    }
}

/// The number before `n`; 0 wraps around to the largest.
pub fn prior_number(n: u32) -> (r: u32)
    ensures
        r == prior_of(n),
{
    n.wrapping_sub(1)
}

/// The number before `n`, and 0 for 0.
pub open spec fn before_of(n: u32) -> u32 {
    if n == 0 {
        0
    } else {
        (n - 1) as u32
    }
}

/// The number before `n`, and 0 for 0.
pub fn number_before(n: u32) -> (r: u32)
    ensures
        r == before_of(n),
{
    if n == 0 {
        0
    } else {
        n - 1
    }
}

/// The range that a diagnostic speaks of: the full range where it has one.
pub open spec fn full_range(d: JsonView) -> Option<JsonView> {
    match d.member("fullRange"@) {
        Some(r) => Some(r),
        None => d.member("range"@),
    }
}

/// The range of a diagnostic, or the full range where it has no other.
pub open spec fn plain_range(d: JsonView) -> Option<JsonView> {
    match d.member("range"@) {
        Some(r) => Some(r),
        None => d.member("fullRange"@),
    }
}

/// The range that a diagnostic speaks of: the full range where it has one.
pub fn full_range_of(d: &Json) -> (r: Option<&Json>)
    ensures
        crate::json::opt_view(r) == full_range(d@),
{
    match d.get("fullRange") {
        Some(r) => Some(r),
        None => d.get("range"),
    }
}

/// The range of a diagnostic, or the full range where it has no other.
pub fn plain_range_of(d: &Json) -> (r: Option<&Json>)
    ensures
        crate::json::opt_view(r) == plain_range(d@),
{
    match d.get("range") {
        Some(r) => Some(r),
        None => d.get("fullRange"),
    }
}

/// A diagnostic that has one range speaks of that one; of two, its full range is the
/// one it speaks of, and the other is the plain one.
pub proof fn lemma_ranges(d: JsonView)
    ensures
        d.member("fullRange"@) is None ==> full_range(d) == d.member("range"@),
        d.member("range"@) is None ==> plain_range(d) == d.member("fullRange"@),
        d.member("fullRange"@) is Some ==> full_range(d) == d.member("fullRange"@),
        d.member("range"@) is Some ==> plain_range(d) == d.member("range"@),
{
}

} // verus!
