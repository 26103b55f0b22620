//! Docker-style short identifiers, and the one-shot override that lets an
//! in-place restart boot a machine under its own id.

use vstd::prelude::*;

use crate::text::{hex2, hex_char, string_of};

verus! {



/// 12 lowercase hex characters for 6 bytes, in order.
pub open spec fn hex_id(b: [u8; 6]) -> Seq<char> {
    hex2(b[0]) + hex2(b[1]) + hex2(b[2]) + hex2(b[3]) + hex2(b[4]) + hex2(b[5])
}


/// A short id from 48 random bits: 12 lowercase hex characters, like the
/// truncated ids Docker shows.
pub fn short_id(random: [u8; 6]) -> (r: String)
    ensures
        r@ == hex_id(random),
        r@.len() == 12,
{
    let mut v: Vec<char> = Vec::new();
    let mut i: usize = 0;
    while i < 6
        invariant
            i <= 6,
            v@ == (if i == 0 {
                Seq::<char>::empty()
            } else if i == 1 {
                hex2(random[0])
            } else if i == 2 {
                hex2(random[0]) + hex2(random[1])
            } else if i == 3 {
                hex2(random[0]) + hex2(random[1]) + hex2(random[2])
            } else if i == 4 {
                hex2(random[0]) + hex2(random[1]) + hex2(random[2]) + hex2(random[3])
            } else if i == 5 {
                hex2(random[0]) + hex2(random[1]) + hex2(random[2]) + hex2(random[3]) + hex2(random[4])
            } else {
                hex_id(random)
            }),
        decreases 6 - i,
    {
        let ghost before = v@;
        v.push(hex_char(random[i] / 16));
        v.push(hex_char(random[i] % 16));
        assert(v@ =~= before + hex2(random[i as int]));
        i += 1;
    }
    string_of(v.as_slice())
}

/// The bytes used when the system's random source cannot be read: the pid
/// and the time mixed (`pid * 0x9E3779B97F4A7C15 + nanos`, wrapping), its
/// six low bytes, least significant first.
pub open spec fn fallback_spec(pid: u64, nanos: u64) -> [u8; 6] {
    let m = ((((pid as int) * 0x9E3779B97F4A7C15) % 0x1_0000_0000_0000_0000 + nanos as int)
        % 0x1_0000_0000_0000_0000) as u64;
    [
        (m % 256) as u8,
        ((m / 256) % 256) as u8,
        ((m / 0x1_0000) % 256) as u8,
        ((m / 0x100_0000) % 256) as u8,
        ((m / 0x1_0000_0000) % 256) as u8,
        ((m / 0x100_0000_0000) % 256) as u8,
    ]
}

/// The fallback id bytes.
pub fn fallback_bytes(pid: u64, nanos: u64) -> (r: [u8; 6])
    ensures
        r == fallback_spec(pid, nanos),
{
    let m = pid.wrapping_mul(0x9E3779B97F4A7C15).wrapping_add(nanos);
    [
        (m % 256) as u8,
        ((m / 256) % 256) as u8,
        ((m / 0x1_0000) % 256) as u8,
        ((m / 0x100_0000) % 256) as u8,
        ((m / 0x1_0000_0000) % 256) as u8,
        ((m / 0x100_0000_0000) % 256) as u8,
    ]
}

/// Where machine ids come from: a pending one-shot override, else fresh
/// random bits.
#[derive(Debug, Default)]
pub struct Ids {
    pending: Option<String>,
}

impl Ids {
    /// No override pending.
    pub fn new() -> (r: Ids)
        ensures
            r.pending() is None,
    {
        Ids { pending: None }
    }

    /// The override the next id will use, if any.
    pub closed spec fn pending(&self) -> Option<Seq<char>> {
        match self.pending {
            Some(s) => Some(s@),
            None => None,
        }
    }

    /// Force the next id to be this one (once).
    pub fn set_override(&mut self, id: &str)
        ensures
            final(self).pending() == Some(id@),
    {
        self.pending = Some(String::from_str(id));
    }

    /// The id for a machine about to boot: the pending override (which is
    /// consumed), else a fresh short id from `random`.
    pub fn next_machine_id(&mut self, random: [u8; 6]) -> (r: String)
        ensures
            match old(self).pending() {
                Some(o) => r@ == o,
                None => r@ == hex_id(random),
            },
            final(self).pending() is None,
    {
        let mut taken: Option<String> = None;
        std::mem::swap(&mut taken, &mut self.pending);
        match taken {
            Some(id) => id,
            None => short_id(random),
        }
    }
}

} // verus!
