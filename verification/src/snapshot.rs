//! Machine snapshots: capture a machine's disk state under a name, and put
//! it back. This module holds the rules: which names are allowed, what a
//! snapshot is called when no name is given, how an id is shortened, and
//! when a restore is refused.

use vstd::prelude::*;

use crate::guest::{guest_os_kind, guest_os_kind_spec};
use crate::text::{
    chars_of, decimal, decimal_chars, digits_value, is_name_char, is_name_char_exec, owned_views,
    push_chars, push_str, str_eq, string_of,
};

verus! {

/// A saved snapshot.
#[derive(Debug, Clone)]
pub struct SnapshotRow {
    pub id: String,
    pub name: String,
    pub machine_id: String,
    pub machine_name: String,
    /// The guest OS (`linux` / `freebsd` / `netbsd` / `unikraft`).
    pub kind: String,
    pub image: String,
    pub path: String,
    /// The snapshot the machine was branched from, if any.
    pub parent: Option<String>,
    pub description: String,
    pub cpus: i64,
    pub mem: i64,
    pub ports: Option<String>,
    pub created_at: String,
}

/// A snapshot name: non-empty, and only ASCII letters, digits, `-`, `_` and
/// `.` (it is a database key and shown everywhere).
pub open spec fn valid_name_spec(name: Seq<char>) -> bool {
    name.len() > 0 && forall|i: int| 0 <= i < name.len() ==> is_name_char(#[trigger] name[i])
}

/// Whether `name` is a valid snapshot name.
pub fn valid_name(name: &str) -> (r: bool)
    ensures
        r == valid_name_spec(name@),
{
    let c = chars_of(name);
    if c.len() == 0 {
        return false;
    }
    let mut i: usize = 0;
    while i < c.len()
        invariant
            i <= c@.len(),
            c@ == name@,
            forall|k: int| 0 <= k < i ==> is_name_char(#[trigger] c@[k]),
        decreases c.len() - i,
    {
        if !is_name_char_exec(c[i]) {
            assert(!is_name_char(c@[i as int]));
            return false;
        }
        i += 1;
    }
    true
}

/// The number of bytes `c` takes in UTF-8.
pub open spec fn utf8_len(c: char) -> nat {
    if (c as u32) < 0x80 {
        1
    } else if (c as u32) < 0x800 {
        2
    } else if (c as u32) < 0x10000 {
        3
    } else {
        4
    }
}

/// The UTF-8 length of the first `k` characters.
pub open spec fn bytes_of(s: Seq<char>, k: int) -> nat
    decreases k,
{
    if k <= 0 {
        0
    } else {
        bytes_of(s, k - 1) + utf8_len(s[k - 1])
    }
}

/// `id.get(..12)`, else the whole id: the first characters that take
/// exactly 12 bytes, when 12 bytes end on a character boundary.
pub open spec fn short_spec(id: Seq<char>) -> Seq<char> {
    if exists|k: int| 0 <= k <= id.len() && bytes_of(id, k) == 12 {
        id.subrange(0, choose|k: int| 0 <= k <= id.len() && bytes_of(id, k) == 12)
    } else {
        id
    }
}

proof fn lemma_bytes_grow(s: Seq<char>, a: int, b: int)
    requires
        0 <= a <= b,
    ensures
        bytes_of(s, a) + (b - a) <= bytes_of(s, b),
    decreases b - a,
{
    if a < b {
        lemma_bytes_grow(s, a, b - 1);
    }
}

/// A machine id shortened for messages, the way Docker shortens one.
pub fn short(id: &str) -> (r: String)
    ensures
        r@ == short_spec(id@),
{
    let c = chars_of(id);
    let mut k: usize = 0;
    let mut b: usize = 0;
    while k < c.len() && b < 12
        invariant
            k <= c@.len(),
            c@ == id@,
            b == bytes_of(c@, k as int),
            b <= 15,
            forall|j: int| 0 <= j < k ==> bytes_of(c@, j) < 12,
        decreases c.len() - k,
    {
        let ch = c[k];
        let n: usize = if (ch as u32) < 0x80 {
            1
        } else if (ch as u32) < 0x800 {
            2
        } else if (ch as u32) < 0x10000 {
            3
        } else {
            4
        };
        b = b + n;
        k += 1;
    }
    if b == 12 {
        proof {
            let w = choose|j: int| 0 <= j <= id@.len() && bytes_of(id@, j) == 12;
            assert(bytes_of(c@, k as int) == 12);
            if w < k {
                assert(bytes_of(c@, w) < 12);
            } else if w > k {
                lemma_bytes_grow(c@, k as int, w);
            }
            assert(w == k);
        }
        let s = crate::text::sub_chars(&c, 0, k);
        string_of(s.as_slice())
    } else {
        proof {
            assert forall|j: int| 0 <= j <= id@.len() implies bytes_of(id@, j) != 12 by {
                if j < k {
                } else if j > k {
                    lemma_bytes_grow(c@, k as int, j);
                } else {
                }
            }
        }
        String::from_str(id)
    }
}

/// The name chars of `s`, in order.
pub open spec fn name_chars(s: Seq<char>) -> Seq<char> {
    s.filter(|c: char| is_name_char(c))
}

/// What the candidates for an unnamed snapshot start with: the machine's
/// name (else its short id) with anything outside the name characters
/// dropped, and the suffix; `snapshot<suffix>` when nothing is left.
pub open spec fn auto_base(name: Option<Seq<char>>, id: Seq<char>, suffix: Seq<char>) -> Seq<char> {
    let raw = match name {
        Some(n) => n,
        None => short_spec(id),
    };
    let kept = name_chars(raw);
    if kept.len() == 0 {
        "snapshot"@ + suffix
    } else {
        kept + suffix
    }
}

/// The `n`th candidate: `<base>-<n>`.
pub open spec fn candidate(base: Seq<char>, n: nat) -> Seq<char> {
    base + "-"@ + decimal(n)
}

/// The first free candidate: `<base>-<n>` for the least `n >= 1` that is
/// not taken.
pub open spec fn is_first_free(base: Seq<char>, taken: Set<Seq<char>>, n: nat) -> bool {
    n >= 1 && !taken.contains(candidate(base, n)) && forall|m: nat| 1 <= m < n ==> taken.contains(#[trigger] candidate(base, m))
}

proof fn lemma_decimal_value(n: nat)
    ensures
        digits_value(decimal(n)) == n,
    decreases n,
{
    let c = crate::text::digit_char(n % 10);
    assert((c as u32) == (n % 10) + 48);
    if n >= 10 {
        lemma_decimal_value(n / 10);
        let d = decimal(n / 10);
        assert(decimal(n) == d.push(c));
        assert(decimal(n).drop_last() =~= d);
        assert(digits_value(decimal(n)) == digits_value(d) * 10 + (n % 10));
        assert(n == (n / 10) * 10 + n % 10) by (nonlinear_arith);
        assert(digits_value(d) == n / 10);
        assert(digits_value(decimal(n)) == n);
    } else {
        assert(decimal(n) == seq![c]);
        assert(decimal(n).drop_last() =~= Seq::<char>::empty());
        assert(digits_value(decimal(n).drop_last()) == 0);
        assert(decimal(n).last() == c);
        assert(digits_value(decimal(n)) == n);
    }
}

proof fn lemma_candidate_injective(base: Seq<char>, a: nat, b: nat)
    requires
        candidate(base, a) == candidate(base, b),
    ensures
        a == b,
{
    let pa = base + "-"@;
    assert(candidate(base, a).subrange(pa.len() as int, candidate(base, a).len() as int) =~= decimal(a));
    assert(candidate(base, b).subrange(pa.len() as int, candidate(base, b).len() as int) =~= decimal(b));
    lemma_decimal_value(a);
    lemma_decimal_value(b);
}

/// The candidates `1..=m`, as a set.
pub open spec fn candidates_upto(base: Seq<char>, m: nat) -> Set<Seq<char>>
    decreases m,
{
    if m == 0 {
        Set::empty()
    } else {
        candidates_upto(base, (m - 1) as nat).insert(candidate(base, m))
    }
}

proof fn lemma_candidates_upto(base: Seq<char>, m: nat)
    ensures
        candidates_upto(base, m).finite(),
        candidates_upto(base, m).len() == m,
        forall|s: Seq<char>| #[trigger] candidates_upto(base, m).contains(s) <==> exists|n: nat| 1 <= n <= m && s == candidate(base, n),
    decreases m,
{
    if m > 0 {
        lemma_candidates_upto(base, (m - 1) as nat);
        if candidates_upto(base, (m - 1) as nat).contains(candidate(base, m)) {
            let n = choose|n: nat| 1 <= n <= m - 1 && candidate(base, m) == candidate(base, n);
            lemma_candidate_injective(base, m, n);
        }
        assert forall|s: Seq<char>| #[trigger] candidates_upto(base, m).contains(s) <==> exists|n: nat| 1 <= n <= m && s == candidate(base, n) by {
            if candidates_upto(base, m).contains(s) && s != candidate(base, m) {
                let n = choose|n: nat| 1 <= n <= m - 1 && s == candidate(base, n);
                assert(1 <= n <= m && s == candidate(base, n));
            }
            if exists|n: nat| 1 <= n <= m && s == candidate(base, n) {
                let n = choose|n: nat| 1 <= n <= m && s == candidate(base, n);
                if n < m {
                    assert(candidates_upto(base, (m - 1) as nat).contains(s));
                }
            }
        }
    }
}

/// Some candidate among the first `taken.len() + 1` is free.
proof fn lemma_some_free(base: Seq<char>, taken: Seq<Seq<char>>)
    ensures
        exists|n: nat| 1 <= n <= taken.len() + 1 && !taken.to_set().contains(#[trigger] candidate(base, n)),
{
    let m = (taken.len() + 1) as nat;
    if forall|n: nat| 1 <= n <= m ==> taken.to_set().contains(#[trigger] candidate(base, n)) {
        lemma_candidates_upto(base, m);
        assert(candidates_upto(base, m).subset_of(taken.to_set())) by {
            assert forall|s: Seq<char>| candidates_upto(base, m).contains(s) implies taken.to_set().contains(s) by {
                let n = choose|n: nat| 1 <= n <= m && s == candidate(base, n);
                assert(taken.to_set().contains(candidate(base, n)));
            }
        }
        taken.lemma_cardinality_of_set();
        vstd::set_lib::lemma_len_subset(candidates_upto(base, m), taken.to_set());
        assert(false);
    }
}


fn contains_str(v: &Vec<String>, s: &Vec<char>) -> (r: bool)
    ensures
        r == owned_views(v@).to_set().contains(s@),
{
    let mut i: usize = 0;
    while i < v.len()
        invariant
            i <= v@.len(),
            forall|k: int| 0 <= k < i ==> v@[k]@ != s@,
        decreases v.len() - i,
    {
        let c = chars_of(v[i].as_str());
        if crate::text::vec_eq(&c, s) {
            assert(owned_views(v@)[i as int] == s@);
            assert(owned_views(v@).contains(s@));
            return true;
        }
        i += 1;
    }
    proof {
        if owned_views(v@).to_set().contains(s@) {
            let k = choose|k: int| 0 <= k < owned_views(v@).len() && owned_views(v@)[k] == s@;
            assert(v@[k]@ == s@);
        }
    }
    false
}

/// `r` is the first free candidate.
pub open spec fn auto_name_ok(base: Seq<char>, taken: Set<Seq<char>>, r: Seq<char>) -> bool {
    exists|n: nat| #[trigger] is_first_free(base, taken, n) && r == candidate(base, n)
}

/// The first free `<machine><suffix>-<n>`, so a snapshot never has to be
/// given a name to be useful. `taken` lists the names in use.
pub fn auto_name(name: &Option<String>, id: &str, suffix: &str, taken: &Vec<String>) -> (r: String)
    requires
        taken@.len() < u64::MAX,
    ensures
        auto_name_ok(
            auto_base(
                match name {
                    Some(s) => Some(s@),
                    None => None,
                },
                id@,
                suffix@,
            ),
            owned_views(taken@).to_set(),
            r@,
        ),
{
    let raw: Vec<char> = match name {
        Some(s) => chars_of(s.as_str()),
        None => {
            let sh = short(id);
            chars_of(sh.as_str())
        },
    };
    let mut kept: Vec<char> = Vec::new();
    let mut i: usize = 0;
    while i < raw.len()
        invariant
            i <= raw@.len(),
            kept@ == name_chars(raw@.subrange(0, i as int)),
        decreases raw.len() - i,
    {
        proof {
            let pre = raw@.subrange(0, i + 1);
            assert(pre.drop_last() =~= raw@.subrange(0, i as int));
            reveal(Seq::filter);
        }
        if is_name_char_exec(raw[i]) {
            kept.push(raw[i]);
        }
        i += 1;
    }
    assert(raw@.subrange(0, i as int) =~= raw@);
    let mut base: Vec<char> = Vec::new();
    if kept.len() == 0 {
        push_str(&mut base, "snapshot");
    } else {
        push_chars(&mut base, &kept);
    }
    push_str(&mut base, suffix);
    let ghost bv = auto_base(
        match name {
            Some(s) => Some(s@),
            None => None,
        },
        id@,
        suffix@,
    );
    assert(base@ =~= bv);
    let ghost t = owned_views(taken@).to_set();
    proof {
        lemma_some_free(bv, owned_views(taken@));
    }
    let mut n: u64 = 1;
    loop
        invariant
            1 <= n,
            n <= taken@.len() + 1,
            base@ == bv,
            bv == auto_base(
                match name {
                    Some(s) => Some(s@),
                    None => None,
                },
                id@,
                suffix@,
            ),
            taken@.len() < u64::MAX,
            t == owned_views(taken@).to_set(),
            exists|m: nat| n <= m <= taken@.len() + 1 && !t.contains(#[trigger] candidate(bv, m)),
            forall|m: nat| 1 <= m < n ==> t.contains(#[trigger] candidate(bv, m)),
        decreases taken@.len() + 1 - n,
    {
        let mut cand: Vec<char> = Vec::new();
        push_chars(&mut cand, &base);
        push_str(&mut cand, "-");
        let d = decimal_chars(n);
        push_chars(&mut cand, &d);
        assert(cand@ =~= candidate(bv, n as nat));
        if !contains_str(taken, &cand) {
            assert(is_first_free(bv, t, n as nat));
            let r = string_of(cand.as_slice());
            assert(auto_name_ok(bv, t, r@));
            return r;
        }
        n += 1;
    }
}

/// Why a restore is refused.
#[derive(Debug, Clone, PartialEq, Eq)]
pub enum RestoreRefusal {
    /// One guest's disk cannot go into another's (a FreeBSD UFS image is not
    /// a Linux rootfs tree).
    KindMismatch { snapshot: String, snapshot_kind: String, machine: String, machine_kind: String },
    /// The machine is running and `-f` was not given.
    Running { machine: String },
}

/// Whether a restore may go ahead: the snapshot must be of the machine's
/// guest OS, and a running machine needs `force` (it is then stopped first).
/// On success, whether the machine has to be stopped.
pub fn restore_check(
    snapshot_name: &str,
    snapshot_kind: &str,
    machine_id: &str,
    machine_kind: &str,
    running: bool,
    force: bool,
) -> (r: Result<bool, RestoreRefusal>)
    ensures
        snapshot_kind@ != machine_kind@ ==> (r matches Err(RestoreRefusal::KindMismatch {
            snapshot,
            snapshot_kind: sk,
            machine,
            machine_kind: mk,
        }) && snapshot@ == snapshot_name@ && sk@ == snapshot_kind@ && machine@ == short_spec(machine_id@) && mk@
            == machine_kind@),
        snapshot_kind@ == machine_kind@ && running && !force ==> (r matches Err(RestoreRefusal::Running { machine })
            && machine@ == short_spec(machine_id@)),
        snapshot_kind@ == machine_kind@ && !(running && !force) ==> r == Ok::<bool, RestoreRefusal>(running),
{
    if !str_eq(snapshot_kind, machine_kind) {
        return Err(
            RestoreRefusal::KindMismatch {
                snapshot: String::from_str(snapshot_name),
                snapshot_kind: String::from_str(snapshot_kind),
                machine: short(machine_id),
                machine_kind: String::from_str(machine_kind),
            },
        );
    }
    if running && !force {
        return Err(RestoreRefusal::Running { machine: short(machine_id) });
    }
    Ok(running)
}

/// What a restore did.
#[derive(Debug, Clone)]
pub struct Restored {
    pub machine: String,
    pub snapshot: String,
    /// The automatic safety snapshot taken before overwriting, if any.
    pub backup: Option<String>,
    /// Whether the machine was running and had to be stopped.
    pub stopped: bool,
}

/// The snapshot a rollback restores: the machine's most recent (the list
/// is newest first), or the error naming how to take one.
pub fn rollback_target(snapshots: &Vec<SnapshotRow>, machine_id: &str) -> (r: Result<String, String>)
    ensures
        snapshots@.len() > 0 ==> (r matches Ok(id) && id@ == snapshots@[0].id@),
        snapshots@.len() == 0 ==> (r matches Err(m) && m@ == "machine "@ + short_spec(machine_id@)
            + " has no snapshots to roll back to (take one with `bsdkrun snapshot "@ + short_spec(machine_id@)
            + "`)"@),
{
    if snapshots.len() > 0 {
        return Ok(snapshots[0].id.clone());
    }
    let s = short(machine_id);
    let mut v: Vec<char> = Vec::new();
    push_str(&mut v, "machine ");
    push_str(&mut v, s.as_str());
    push_str(&mut v, " has no snapshots to roll back to (take one with `bsdkrun snapshot ");
    push_str(&mut v, s.as_str());
    push_str(&mut v, "`)");
    Err(string_of(v.as_slice()))
}

/// What a snapshot holds for a guest: a Linux machine's writable rootfs
/// tree, a BSD machine's raw root disk, or a unikernel's image, boot spec
/// and mounted directories.
#[derive(Debug, Clone, Copy, PartialEq, Eq)]
pub enum PayloadKind {
    Rootfs,
    Disk,
    Unikernel,
}

pub open spec fn payload_kind_spec(kind: Seq<char>, image: Seq<char>) -> PayloadKind {
    let os = guest_os_kind_spec(kind, image);
    if os == "unikraft"@ {
        PayloadKind::Unikernel
    } else if os == "linux"@ {
        PayloadKind::Rootfs
    } else {
        PayloadKind::Disk
    }
}

/// What a snapshot of a machine of this kind captures, by its guest OS.
pub fn payload_kind(kind: &str, image: &str) -> (r: PayloadKind)
    ensures
        r == payload_kind_spec(kind@, image@),
{
    let os = guest_os_kind(kind, image);
    if str_eq(os, "unikraft") {
        PayloadKind::Unikernel
    } else if str_eq(os, "linux") {
        PayloadKind::Rootfs
    } else {
        PayloadKind::Disk
    }
}

/// The message for a machine with nothing of this kind to snapshot.
pub fn nothing_to_snapshot(id: &str, kind: PayloadKind) -> (r: String)
    ensures
        r@ == "machine "@ + short_spec(id@) + (match kind {
            PayloadKind::Rootfs => " has no rootfs to snapshot"@,
            PayloadKind::Disk => " has no disk to snapshot"@,
            PayloadKind::Unikernel => " has no recorded unikernel to snapshot"@,
        }),
{
    let s = short(id);
    let mut v: Vec<char> = Vec::new();
    push_str(&mut v, "machine ");
    push_str(&mut v, s.as_str());
    push_str(
        &mut v,
        match kind {
            PayloadKind::Rootfs => " has no rootfs to snapshot",
            PayloadKind::Disk => " has no disk to snapshot",
            PayloadKind::Unikernel => " has no recorded unikernel to snapshot",
        },
    );
    string_of(v.as_slice())
}

/// The machine's root disk a BSD snapshot captures: `root.raw`, else
/// `root.img`, whichever exists first.
pub fn machine_disk(raw: bool, img: bool) -> (r: Option<&'static str>)
    ensures
        raw ==> (r matches Some(n) && n@ == "root.raw"@),
        !raw && img ==> (r matches Some(n) && n@ == "root.img"@),
        !raw && !img ==> r is None,
{
    if raw {
        Some("root.raw")
    } else if img {
        Some("root.img")
    } else {
        None
    }
}

/// The extension a disk image keeps: its own, else `img`.
pub open spec fn ext_or_img(ext: Option<Seq<char>>) -> Seq<char> {
    match ext {
        Some(e) => e,
        None => "img"@,
    }
}

pub open spec fn opt_text(o: Option<&str>) -> Option<Seq<char>> {
    match o {
        Some(s) => Some(s@),
        None => None,
    }
}

/// The file a BSD snapshot stores its disk in: `disk.<ext>` after the
/// machine's disk.
pub fn snapshot_disk_file(ext: Option<&str>) -> (r: String)
    ensures
        r@ == "disk."@ + ext_or_img(opt_text(ext)),
{
    let mut v: Vec<char> = Vec::new();
    push_str(&mut v, "disk.");
    push_str(
        &mut v,
        match ext {
            Some(e) => e,
            None => "img",
        },
    );
    string_of(v.as_slice())
}

/// Where a restore writes a BSD disk back: under the name the machine
/// already boots from (`root.raw`, else `root.img`), so `start` finds it
/// unchanged; else `root.<ext>` after the snapshot's disk.
pub fn write_back_disk(raw: bool, img: bool, ext: Option<&str>) -> (r: String)
    ensures
        r@ == (if raw {
            "root.raw"@
        } else if img {
            "root.img"@
        } else {
            "root."@ + ext_or_img(opt_text(ext))
        }),
{
    match machine_disk(raw, img) {
        Some(n) => String::from_str(n),
        None => {
            let mut v: Vec<char> = Vec::new();
            push_str(&mut v, "root.");
            push_str(
                &mut v,
                match ext {
                    Some(e) => e,
                    None => "img",
                },
            );
            string_of(v.as_slice())
        },
    }
}

/// Which of the candidate snapshot directories to use: the first on the same
/// filesystem as the data it clones (a clone across filesystems is a full
/// copy), else the last.
pub fn snapshot_dir_choice(same_device: &Vec<bool>) -> (r: usize)
    requires
        same_device@.len() > 0,
    ensures
        r < same_device@.len(),
        same_device@[r as int] || r == same_device@.len() - 1,
        forall|k: int| 0 <= k < r ==> !same_device@[k],
{
    let mut i: usize = 0;
    while i < same_device.len()
        invariant
            i <= same_device@.len(),
            forall|k: int| 0 <= k < i ==> !same_device@[k],
        decreases same_device.len() - i,
    {
        if same_device[i] {
            return i;
        }
        i += 1;
    }
    same_device.len() - 1
}

} // verus!
