//! Severity and confidence labels, sorted into buckets and ranked.
use vstd::prelude::*;

use crate::text::{
    ascii_lower, chars_of, contains, contains_chars, lower_chars, trim, trim_chars,
};

verus! {

/// The bucket a severity or confidence label falls into.
#[derive(Clone, Copy, PartialEq, Eq, Structural, Debug)]
pub enum Bucket {
    High,
    Medium,
    Low,
    Unknown,
}

/// The label that is read: the given one, or "unknown" where there is none,
/// trimmed and lower-cased (ASCII).
pub open spec fn normalized_label(value: Option<Seq<char>>) -> Seq<char> {
    ascii_lower(
        trim(
            match value {
                Some(v) => v,
                None => "unknown"@,
            },
        ),
    )
}

/// "critical" or "high" make a label high; else "medium" or "moderate" make
/// it medium; else "low" makes it low; anything else is unknown.
pub open spec fn bucket_of(value: Option<Seq<char>>) -> Bucket {
    let n = normalized_label(value);
    if contains(n, "critical"@) || contains(n, "high"@) {
        Bucket::High
    } else if contains(n, "medium"@) || contains(n, "moderate"@) {
        Bucket::Medium
    } else if contains(n, "low"@) {
        Bucket::Low
    } else {
        Bucket::Unknown
    }
}

/// The name of a bucket.
pub open spec fn bucket_name(b: Bucket) -> Seq<char> {
    match b {
        Bucket::High => "high"@,
        Bucket::Medium => "medium"@,
        Bucket::Low => "low"@,
        Bucket::Unknown => "unknown"@,
    }
}

/// The rank of a bucket: high first, unknown last.
pub open spec fn bucket_rank(b: Bucket) -> u8 {
    match b {
        Bucket::High => 0,
        Bucket::Medium => 1,
        Bucket::Low => 2,
        Bucket::Unknown => 3,
    }
}

/// The views of an optional text.
pub open spec fn str_views(o: Option<&str>) -> Option<Seq<char>> {
    match o {
        Some(s) => Some(s@),
        None => None,
    }
}

/// The bucket a label falls into.
pub fn bucket(value: Option<&str>) -> (res: Bucket)
    ensures
        res == bucket_of(str_views(value)),
{
    let raw = match value {
        Some(v) => chars_of(v),
        None => chars_of("unknown"),
    };
    let trimmed = trim_chars(raw.as_slice());
    let n = lower_chars(trimmed.as_slice());
    let critical = chars_of("critical");
    let high = chars_of("high");
    let medium = chars_of("medium");
    let moderate = chars_of("moderate");
    let low = chars_of("low");
    if contains_chars(n.as_slice(), critical.as_slice()) || contains_chars(
        n.as_slice(),
        high.as_slice(),
    ) {
        Bucket::High
    } else if contains_chars(n.as_slice(), medium.as_slice()) || contains_chars(
        n.as_slice(),
        moderate.as_slice(),
    ) {
        Bucket::Medium
    } else if contains_chars(n.as_slice(), low.as_slice()) {
        Bucket::Low
    } else {
        Bucket::Unknown
    }
}

/// The name of the bucket a label falls into: "high", "medium", "low" or
/// "unknown".
pub fn severity_bucket(value: Option<&str>) -> (res: &'static str)
    ensures
        res@ == bucket_name(bucket_of(str_views(value))),
{
    match bucket(value) {
        Bucket::High => "high",
        Bucket::Medium => "medium",
        Bucket::Low => "low",
        Bucket::Unknown => "unknown",
    }
}

/// The rank of a label's bucket, by which findings are ordered.
pub fn severity_rank(value: Option<&str>) -> (res: u8)
    ensures
        res == bucket_rank(bucket_of(str_views(value))),
        res <= 3,
{
    match bucket(value) {
        Bucket::High => 0,
        Bucket::Medium => 1,
        Bucket::Low => 2,
        Bucket::Unknown => 3,
    }
}

/// The four bucket names differ, so the rank and the name of a bucket tell
/// the same thing.
pub proof fn lemma_bucket_names_distinct(a: Bucket, b: Bucket)
    ensures
        bucket_name(a) == bucket_name(b) <==> a == b,
        bucket_rank(a) == bucket_rank(b) <==> a == b,
{
    reveal_strlit("high");
    reveal_strlit("medium");
    reveal_strlit("low");
    reveal_strlit("unknown");
    if a != b {
        assert(bucket_name(a)[0] != bucket_name(b)[0] || bucket_name(a).len() != bucket_name(
            b,
        ).len());
    }
}

} // verus!
