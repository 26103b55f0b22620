//! The build cache's command surface: how an entry's age reads, and how a
//! `cache` target names a machine and a path.

use vstd::prelude::*;
use vstd::string::*;

use crate::text::{chars_of, decimal, decimal_chars, push_chars, push_str, string_of};

verus! {

/// A rough age in prose: under a minute is `just now`, then whole minutes,
/// hours or days.
pub open spec fn ago_spec(secs: nat) -> Seq<char> {
    if secs < 60 {
        "just now"@
    } else if secs < 3600 {
        decimal(secs / 60) + " minutes ago"@
    } else if secs < 86_400 {
        decimal(secs / 3600) + " hours ago"@
    } else {
        decimal(secs / 86_400) + " days ago"@
    }
}

/// How long ago `unix` was, seen at `now` (a time in the future reads as
/// `just now`).
pub fn ago(unix: u64, now: u64) -> (r: String)
    ensures
        r@ == ago_spec(if now >= unix {
            (now - unix) as nat
        } else {
            0
        }),
{
    let secs = now.saturating_sub(unix);
    if secs < 60 {
        return String::from_str("just now");
    }
    let (n, unit) = if secs < 3600 {
        (secs / 60, " minutes ago")
    } else if secs < 86_400 {
        (secs / 3600, " hours ago")
    } else {
        (secs / 86_400, " days ago")
    };
    let mut v: Vec<char> = Vec::new();
    let d = decimal_chars(n);
    push_chars(&mut v, &d);
    push_str(&mut v, unit);
    string_of(v.as_slice())
}

/// A `cache` target `ID:PATH`, or a bare `ID` (back where it came from);
/// `None` for a colon with an empty side.
pub open spec fn split_target_spec(t: Seq<char>) -> Option<(Seq<char>, Option<Seq<char>>)> {
    let k = crate::text::first_of(t, ':');
    if k < t.len() {
        let id = t.subrange(0, k as int);
        let path = t.subrange(k + 1int, t.len() as int);
        if id.len() > 0 && path.len() > 0 {
            Some((id, Some(path)))
        } else {
            None
        }
    } else {
        Some((t, None))
    }
}

/// Split a `cache` target.
pub fn split_target(target: &str) -> (r: Option<(String, Option<String>)>)
    ensures
        match (r, split_target_spec(target@)) {
            (Some((i, p)), Some((si, sp))) => i@ == si && match (p, sp) {
                (Some(a), Some(b)) => a@ == b,
                (None, None) => true,
                _ => false,
            },
            (None, None) => true,
            _ => false,
        },
{
    let c = chars_of(target);
    let k = crate::text::first_index(&c, ':');
    if k < c.len() {
        let id = crate::text::sub_chars(&c, 0, k);
        let path = crate::text::sub_chars(&c, k + 1, c.len());
        if id.len() > 0 && path.len() > 0 {
            Some((string_of(id.as_slice()), Some(string_of(path.as_slice()))))
        } else {
            None
        }
    } else {
        Some((String::from_str(target), None))
    }
}

} // verus!
