//! Machine lifecycle rules: what `update` records, which guests must be
//! cleanly powered off, what exit code a stopped machine shows, when `rm`
//! refuses, which machines still use an image, and the small text helpers
//! every table shares.

use vstd::prelude::*;

use crate::db::ImageRow;
use crate::text::{
    chars_of, first_of, has_prefix, is_name_char, is_name_char_exec, join_comma, lower_seq,
    owned_views, push_str, starts_with, str_eq, string_of, sub_chars,
};

verus! {

/// The resources `update` records: the given vCPUs (else the current),
/// clamped to 1..=255, and the given memory (else the current), at least 64
/// MiB. With neither given there is nothing to update.
pub open spec fn update_spec(cpus: Option<u8>, mem: Option<u32>, cur_cpus: i64, cur_mem: i64) -> Option<(int, int)> {
    if cpus is None && mem is None {
        None
    } else {
        let c: int = match cpus {
            Some(c) => c as int,
            None => cur_cpus as int,
        };
        let m: int = match mem {
            Some(m) => m as int,
            None => cur_mem as int,
        };
        Some((if c < 1 { 1 } else if c > 255 { 255 } else { c }, if m < 64 { 64 } else { m }))
    }
}

/// New vCPU / memory for a machine (applied on its next start).
pub fn update(cpus: Option<u8>, mem: Option<u32>, cur_cpus: i64, cur_mem: i64) -> (r: Result<(i64, i64), String>)
    ensures
        match r {
            Ok((c, m)) => update_spec(cpus, mem, cur_cpus, cur_mem) == Some((c as int, m as int)),
            Err(e) => update_spec(cpus, mem, cur_cpus, cur_mem) is None && e@
                == "nothing to update \u{2014} pass --cpus and/or --mem"@,
        },
{
    if cpus.is_none() && mem.is_none() {
        return Err(String::from_str("nothing to update \u{2014} pass --cpus and/or --mem"));
    }
    let c: i64 = match cpus {
        Some(c) => c as i64,
        None => cur_cpus,
    };
    let m: i64 = match mem {
        Some(m) => m as i64,
        None => cur_mem,
    };
    let c2 = if c < 1 {
        1
    } else if c > 255 {
        255
    } else {
        c
    };
    let m2 = if m < 64 {
        64
    } else {
        m
    };
    Ok((c2, m2))
}

/// A BSD guest (FreeBSD/NetBSD), whose live UFS must be cleanly unmounted
/// before its disk is reused or cloned: by its boot kind, or an image named
/// so.
pub open spec fn is_bsd_machine_spec(kind: Seq<char>, image: Seq<char>) -> bool {
    kind == "firmware"@ || kind == "kernel"@ || kind == "freebsd"@ || kind == "netbsd"@ || starts_with(
        lower_seq(image),
        "freebsd"@,
    ) || starts_with(lower_seq(image), "netbsd"@)
}

fn lowered(s: &str) -> (r: String)
    ensures
        r@ == lower_seq(s@),
{
    let c = chars_of(s);
    let mut v: Vec<char> = Vec::new();
    let mut i: usize = 0;
    while i < c.len()
        invariant
            i <= c@.len(),
            c@ == s@,
            v@ == lower_seq(c@.subrange(0, i as int)),
        decreases c.len() - i,
    {
        v.push(crate::text::lower_char(c[i]));
        i += 1;
        assert(v@ =~= lower_seq(c@.subrange(0, i as int)));
    }
    assert(c@.subrange(0, i as int) =~= c@);
    string_of(v.as_slice())
}

/// Whether a machine is a BSD guest.
pub fn is_bsd_machine(kind: &str, image: &str) -> (r: bool)
    ensures
        r == is_bsd_machine_spec(kind@, image@),
{
    let img = lowered(image);
    str_eq(kind, "firmware") || str_eq(kind, "kernel") || str_eq(kind, "freebsd") || str_eq(kind, "netbsd")
        || has_prefix(img.as_str(), "freebsd") || has_prefix(img.as_str(), "netbsd")
}

/// The exit code recorded when a running machine is stopped: 0 after a
/// clean poweroff; otherwise what it already recorded, else `128 + SIGTERM`
/// (143, as `ps` shows a Docker-style "Exited (143)").
pub fn stop_exit_code(clean: bool, recorded: Option<i64>) -> (r: Option<i64>)
    ensures
        clean ==> r == Some(0i64),
        !clean ==> r == (match recorded {
            Some(c) => Some(c),
            None => Some(143i64),
        }),
{
    if clean {
        Some(0)
    } else {
        match recorded {
            Some(c) => Some(c),
            None => Some(128 + 15),
        }
    }
}

/// The report for a machine that was not running.
pub fn not_running(id: &str) -> (r: String)
    ensures
        r@ == id@ + " is not running"@,
{
    let mut v: Vec<char> = Vec::new();
    push_str(&mut v, id);
    push_str(&mut v, " is not running");
    string_of(v.as_slice())
}

/// `rm` refuses a running machine unless forced (then it is stopped first);
/// on success, whether it has to be signalled.
pub fn removal_check(id: &str, running: bool, force: bool) -> (r: Result<bool, String>)
    ensures
        running && !force ==> (r matches Err(m) && m@ == "machine "@ + id@ + " is running (stop it first, or use -f)"@),
        !(running && !force) ==> r == Ok::<bool, String>(running),
{
    if running && !force {
        let mut v: Vec<char> = Vec::new();
        push_str(&mut v, "machine ");
        push_str(&mut v, id);
        push_str(&mut v, " is running (stop it first, or use -f)");
        return Err(string_of(v.as_slice()));
    }
    Ok(running)
}

/// A machine as `image_users` sees it: its id, name, and the image it
/// booted.
#[derive(Debug, Clone)]
pub struct ImageUse {
    pub id: String,
    pub name: Option<String>,
    pub image: String,
}

/// The machines that still reference an image (by reference or by id),
/// each named by its name, else its id.
pub open spec fn image_users_spec(machines: Seq<ImageUse>, reference: Seq<char>, id: Seq<char>) -> Seq<Seq<char>> {
    machines.filter(|m: ImageUse| m.image@ == reference || m.image@ == id).map_values(
        |m: ImageUse| match m.name {
            Some(n) => n@,
            None => m.id@,
        },
    )
}


/// Which machines still reference an image.
pub fn image_users(machines: &Vec<ImageUse>, reference: &str, id: &str) -> (r: Vec<String>)
    ensures
        owned_views(r@) == image_users_spec(machines@, reference@, id@),
{
    let mut out: Vec<String> = Vec::new();
    let mut i: usize = 0;
    while i < machines.len()
        invariant
            i <= machines@.len(),
            owned_views(out@) == image_users_spec(machines@.subrange(0, i as int), reference@, id@),
        decreases machines.len() - i,
    {
        let m = &machines[i];
        proof {
            let pre = machines@.subrange(0, i + 1);
            assert(pre.drop_last() =~= machines@.subrange(0, i as int));
            assert(pre.last() == *m);
            reveal(Seq::filter);
        }
        let ghost before = owned_views(out@);
        if str_eq(m.image.as_str(), reference) || str_eq(m.image.as_str(), id) {
            let n = match &m.name {
                Some(n) => n.clone(),
                None => m.id.clone(),
            };
            out.push(n);
            assert(owned_views(out@) =~= before.push(n@));
        }
        i += 1;
        assert(owned_views(out@) =~= image_users_spec(machines@.subrange(0, i as int), reference@, id@));
    }
    assert(machines@.subrange(0, i as int) =~= machines@);
    out
}

/// Only a dangling image can go: one that no machine uses. Its rootfs is
/// shared by every machine cloned from it, so removing one still in use
/// would leave machines that cannot boot; the error names them.
pub fn removal_of_image(reference: &str, users: &Vec<String>) -> (r: Result<(), String>)
    ensures
        users@.len() > 0 ==> (r matches Err(m) && m@ == reference@ + " is in use by "@
            + crate::text::decimal(users@.len()) + " ("@ + join_comma(owned_views(users@))
            + ") \u{2014} remove those machines first"@),
        users@.len() == 0 ==> r is Ok,
{
    if users.len() > 0 {
        let mut v: Vec<char> = Vec::new();
        push_str(&mut v, reference);
        push_str(&mut v, " is in use by ");
        let d = crate::text::decimal_chars(users.len() as u64);
        crate::text::push_chars(&mut v, &d);
        push_str(&mut v, " (");
        let mut i: usize = 0;
        let ghost start = v@;
        while i < users.len()
            invariant
                i <= users@.len(),
                v@ == start + join_comma(owned_views(users@).subrange(0, i as int)),
            decreases users.len() - i,
        {
            let ghost pre = owned_views(users@).subrange(0, i + 1);
            assert(pre.drop_last() =~= owned_views(users@).subrange(0, i as int));
            if i > 0 {
                push_str(&mut v, ", ");
            }
            push_str(&mut v, users[i].as_str());
            i += 1;
            proof {
                if i == 1 {
                    assert(v@ =~= start + pre[0]);
                } else {
                    assert(v@ =~= start + (join_comma(pre.drop_last()) + ", "@ + pre.last()));
                }
            }
        }
        assert(owned_views(users@).subrange(0, i as int) =~= owned_views(users@));
        push_str(&mut v, ") \u{2014} remove those machines first");
        return Err(string_of(v.as_slice()));
    }
    Ok(())
}

/// `s` cut to `n` characters, the last one replaced by `…` when it is cut.
pub open spec fn truncate_spec(s: Seq<char>, n: nat) -> Seq<char> {
    if s.len() <= n {
        s
    } else {
        s.subrange(0, if n >= 1 { n - 1 } else { 0 }) + seq!['\u{2026}']
    }
}

/// Truncate a string to `n` characters, adding an ellipsis if cut.
pub fn truncate(s: &str, n: usize) -> (r: String)
    ensures
        r@ == truncate_spec(s@, n as nat),
{
    let c = chars_of(s);
    if c.len() <= n {
        return String::from_str(s);
    }
    let k = if n >= 1 {
        n - 1
    } else {
        0
    };
    let mut head = sub_chars(&c, 0, k);
    head.push('\u{2026}');
    string_of(head.as_slice())
}

/// A `--volume` name that cannot escape the volumes directory: non-empty,
/// not `.` or `..`, only ASCII letters, digits, `-`, `_` and `.`.
pub open spec fn valid_volume_name(name: Seq<char>) -> bool {
    name.len() > 0 && name != "."@ && name != ".."@ && forall|i: int| 0 <= i < name.len() ==> is_name_char(#[trigger] name[i])
}

/// Whether `name` is a safe volume name.
pub fn volume_name_ok(name: &str) -> (r: bool)
    ensures
        r == valid_volume_name(name@),
{
    if str_eq(name, ".") || str_eq(name, "..") {
        return false;
    }
    let c = chars_of(name);
    if c.len() == 0 {
        return false;
    }
    let mut i: usize = 0;
    while i < c.len()
        invariant
            i <= c@.len(),
            c@ == name@,
            forall|k: int| 0 <= k < i ==> is_name_char(#[trigger] c@[k]),
        decreases c.len() - i,
    {
        if !is_name_char_exec(c[i]) {
            assert(!is_name_char(c@[i as int]));
            return false;
        }
        i += 1;
    }
    true
}

/// The host side of a recorded `--mount HOST:GUEST[:ro]` spec: everything
/// before its last `:`, or the whole spec without one.
pub open spec fn mount_host_spec(spec: Seq<char>) -> Seq<char> {
    let r = first_of(spec.reverse(), ':');
    if r < spec.len() {
        spec.subrange(0, spec.len() - r - 1)
    } else {
        spec
    }
}

/// The host directory a recorded mount shares.
pub fn mount_host(spec: &str) -> (r: String)
    ensures
        r@ == mount_host_spec(spec@),
{
    let c = chars_of(spec);
    let n = c.len();
    let mut i: usize = n;
    // Scan back for the last `:`.
    while i > 0 && c[i - 1] != ':'
        invariant
            i <= n,
            n == c@.len(),
            c@ == spec@,
            forall|j: int| i <= j < n ==> c@[j] != ':',
        decreases i,
    {
        i -= 1;
    }
    proof {
        let rv = spec@.reverse();
        let k = (n - i) as int;
        if i > 0 {
            assert(rv[k] == c@[i - 1]);
            assert forall|j: int| 0 <= j < k implies rv[j] != ':' by {
                assert(rv[j] == c@[n - 1 - j]);
            }
            crate::text::lemma_first_of_pub(rv, ':', k);
        } else {
            assert forall|j: int| 0 <= j < n implies rv[j] != ':' by {
                assert(rv[j] == c@[n - 1 - j]);
            }
            crate::text::lemma_first_of_pub(rv, ':', n as int);
        }
    }
    if i > 0 {
        let h = sub_chars(&c, 0, i - 1);
        string_of(h.as_slice())
    } else {
        String::from_str(spec)
    }
}

/// The `--mount` shares recorded for a machine whose host directory is
/// still there (each spec with whether its host side exists), in order.
pub open spec fn live_mounts(recorded: Seq<(String, bool)>) -> Seq<Seq<char>> {
    recorded.filter(|m: (String, bool)| m.1).map_values(|m: (String, bool)| m.0@)
}

/// The recorded shares to show or re-apply: one whose host directory is
/// gone is dropped rather than failing the restart.
pub fn machine_mounts(recorded: &Vec<(String, bool)>) -> (r: Vec<String>)
    ensures
        owned_views(r@) == live_mounts(recorded@),
{
    let mut out: Vec<String> = Vec::new();
    let mut i: usize = 0;
    while i < recorded.len()
        invariant
            i <= recorded@.len(),
            owned_views(out@) == live_mounts(recorded@.subrange(0, i as int)),
        decreases recorded.len() - i,
    {
        proof {
            let pre = recorded@.subrange(0, i + 1);
            assert(pre.drop_last() =~= recorded@.subrange(0, i as int));
            reveal(Seq::filter);
        }
        let ghost before = owned_views(out@);
        if recorded[i].1 {
            out.push(recorded[i].0.clone());
            assert(owned_views(out@) =~= before.push(recorded@[i as int].0@));
        }
        i += 1;
        assert(owned_views(out@) =~= live_mounts(recorded@.subrange(0, i as int)));
    }
    assert(recorded@.subrange(0, i as int) =~= recorded@);
    out
}

/// What `image rm` does with an image row: an unknown id is an error; an
/// image still in use is refused, `force` or not, and its row and rootfs are
/// left alone; otherwise its reference is reported and its extracted rootfs
/// (when it has one) is deleted. `force` only skips questions: it never makes
/// a machine lose its rootfs.
pub fn remove_image(id: &str, image: &Option<ImageRow>, users: &Vec<String>, force: bool) -> (r: Result<
    (String, bool),
    String,
>)
    ensures
        match image {
            None => r matches Err(m) && m@ == "no such image: "@ + id@,
            Some(row) => if users@.len() > 0 {
                r matches Err(m) && m@ == row.reference@ + " is in use by "@ + crate::text::decimal(users@.len())
                    + " ("@ + join_comma(owned_views(users@)) + ") \u{2014} remove those machines first"@
            } else {
                r matches Ok((reference, delete)) && reference@ == row.reference@ && delete == (row.rootfs@.len()
                    > 0)
            },
        },
{
    match image {
        None => {
            let mut v: Vec<char> = Vec::new();
            push_str(&mut v, "no such image: ");
            push_str(&mut v, id);
            Err(string_of(v.as_slice()))
        },
        Some(row) => {
            match removal_of_image(row.reference.as_str(), users) {
                Err(e) => Err(e),
                Ok(()) => Ok((row.reference.clone(), row.rootfs.as_str().unicode_len() > 0)),
            }
        },
    }
}

} // verus!
