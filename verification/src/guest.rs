//! Talking to a running guest: which guests run the agent, what an
//! interactive shell runs, what a guest OS is called, which operations a
//! unikernel refuses, and the script that refreshes the in-guest agent.

use vstd::prelude::*;

use crate::text::{
    chars_of, ends_with, has_prefix, has_suffix, join_strings, joined, lemma_lex_total,
    lemma_lex_trans, lex_le, lex_le_exec, lower_char, lower_seq, owned_views, push_str, starts_with,
    str_eq, string_of, trim, trim_chars,
};

verus! {

/// Whether a machine is a non-Linux guest (where the agent is not injected
/// automatically).
pub fn is_bsd(kind: &str) -> (r: bool)
    ensures
        r == (kind@ != "linux"@),
{
    !str_eq(kind, "linux")
}

/// `TERM` for an interactive session on a guest of this kind: BSD guests
/// boot with none on the agent's pty; Linux images set their own.
pub fn interactive_term(kind: &str) -> (r: Option<String>)
    ensures
        kind@ != "linux"@ ==> (r matches Some(t) && t@ == "TERM=xterm"@),
        kind@ == "linux"@ ==> r is None,
{
    if is_bsd(kind) {
        Some(String::from_str("TERM=xterm"))
    } else {
        None
    }
}

/// Extra environment for an interactive shell over the agent.
pub fn interactive_shell_env(kind: &str) -> (r: Vec<String>)
    ensures
        kind@ != "linux"@ ==> r@.len() == 1 && r@[0]@ == "TERM=xterm"@,
        kind@ == "linux"@ ==> r@.len() == 0,
{
    let mut v: Vec<String> = Vec::new();
    if is_bsd(kind) {
        v.push(String::from_str("TERM=xterm"));
    }
    v
}

/// On NetBSD, point `pkg_add` at the pkgsrc CDN for this release (a
/// `-current` release uses the matching `<major>.0` branch).
pub const NETBSD_PKG_PATH_SETUP: &'static str = "if [ -z \"$PKG_PATH\" ] && [ \"$(uname 2>/dev/null)\" = NetBSD ]; then __a=$(uname -p 2>/dev/null); [ \"$__a\" = x86_64 ] && __a=amd64; export PKG_PATH=\"https://cdn.NetBSD.org/pub/pkgsrc/packages/NetBSD/$__a/$(uname -r 2>/dev/null | cut -d. -f1).0/All/\"; fi;";

/// The shell line before the pkgsrc setup: `PATH` extended for FreeBSD
/// `pkg` and NetBSD pkgsrc, and `TERM` for a non-Linux guest.
pub const SHELL_PATH_SETUP: &'static str = "export PATH=\"/usr/local/bin:/usr/local/sbin:/usr/pkg/bin:/usr/pkg/sbin:$PATH\"; [ \"$(uname 2>/dev/null)\" = Linux ] || export TERM=xterm; ";

/// The shell line after it: into a cloned repo, then `bash` when the guest
/// has it, else `/bin/sh`.
pub const SHELL_HANDOFF: &'static str = " cd \"$(cat /etc/bsdkrun-cwd 2>/dev/null)\" 2>/dev/null; if command -v bash >/dev/null 2>&1; then exec bash; else exec /bin/sh; fi";

/// argv that opens an interactive shell inside a guest.
pub fn interactive_shell_argv() -> (r: Vec<String>)
    ensures
        r@.len() == 3,
        r@[0]@ == "/bin/sh"@,
        r@[1]@ == "-c"@,
        r@[2]@ == SHELL_PATH_SETUP@ + NETBSD_PKG_PATH_SETUP@ + SHELL_HANDOFF@,
{
    let mut s: Vec<char> = Vec::new();
    push_str(&mut s, SHELL_PATH_SETUP);
    push_str(&mut s, NETBSD_PKG_PATH_SETUP);
    push_str(&mut s, SHELL_HANDOFF);
    let mut v: Vec<String> = Vec::new();
    v.push(String::from_str("/bin/sh"));
    v.push(String::from_str("-c"));
    v.push(string_of(s.as_slice()));
    v
}

/// A machine's boot-mode kind normalized to a guest-OS label: unikernel
/// kinds exactly, then FreeBSD (kind, `firmware`, or an image named so),
/// then NetBSD likewise, else Linux.
pub open spec fn guest_os_kind_spec(kind: Seq<char>, image: Seq<char>) -> Seq<char> {
    let img = lower_seq(image);
    if kind == "unikraft"@ {
        "unikraft"@
    } else if kind == "nanos"@ {
        "nanos"@
    } else if kind == "osv"@ {
        "osv"@
    } else if kind == "freebsd"@ || kind == "firmware"@ || starts_with(img, "freebsd"@) {
        "freebsd"@
    } else if kind == "netbsd"@ || kind == "kernel"@ || starts_with(img, "netbsd"@) {
        "netbsd"@
    } else {
        "linux"@
    }
}

fn lower_string(s: &str) -> (r: String)
    ensures
        r@ == lower_seq(s@),
{
    let c = chars_of(s);
    let mut v: Vec<char> = Vec::new();
    let mut i: usize = 0;
    while i < c.len()
        invariant
            i <= c@.len(),
            c@ == s@,
            v@ == lower_seq(c@.subrange(0, i as int)),
        decreases c.len() - i,
    {
        v.push(lower_char(c[i]));
        i += 1;
        assert(v@ =~= lower_seq(c@.subrange(0, i as int)));
    }
    assert(c@.subrange(0, i as int) =~= c@);
    string_of(v.as_slice())
}

/// Normalize a machine's kind to a guest-OS label.
pub fn guest_os_kind(kind: &str, image: &str) -> (r: &'static str)
    ensures
        r@ == guest_os_kind_spec(kind@, image@),
{
    let img = lower_string(image);
    if str_eq(kind, "unikraft") {
        "unikraft"
    } else if str_eq(kind, "nanos") {
        "nanos"
    } else if str_eq(kind, "osv") {
        "osv"
    } else if str_eq(kind, "freebsd") || str_eq(kind, "firmware") || has_prefix(img.as_str(), "freebsd") {
        "freebsd"
    } else if str_eq(kind, "netbsd") || str_eq(kind, "kernel") || has_prefix(img.as_str(), "netbsd") {
        "netbsd"
    } else {
        "linux"
    }
}

/// How a unikernel kind is named in the refusal, if the kind is one.
pub open spec fn unikernel_article(kind: Seq<char>) -> Option<Seq<char>> {
    if kind == "unikraft"@ {
        Some("a Unikraft"@)
    } else if kind == "nanos"@ {
        Some("a Nanos"@)
    } else if kind == "osv"@ {
        Some("an OSv"@)
    } else {
        None
    }
}

/// A unikernel is the application linked into the kernel: no disk to
/// snapshot and no userland for the agent, so those operations are refused
/// with the reason.
pub open spec fn reject_unikraft_spec(kind: Seq<char>, id: Seq<char>, what: Seq<char>) -> Result<(), Seq<char>> {
    match unikernel_article(kind) {
        None => Ok(()),
        Some(a) => Err(
            "cannot "@ + what + " "@ + id + " \u{2014} it is "@ + a
                + " unikernel: the application *is* the kernel, so there is no shell or agent to talk to, and snapshots are unsupported. Use `logs` to see its output."@,
        ),
    }
}

/// Refuse an operation that a unikernel fundamentally cannot support.
pub fn reject_unikraft(kind: &str, id: &str, what: &str) -> (r: Result<(), String>)
    ensures
        match r {
            Ok(()) => reject_unikraft_spec(kind@, id@, what@) is Ok,
            Err(m) => reject_unikraft_spec(kind@, id@, what@) == Err::<(), Seq<char>>(m@),
        },
{
    let a = if str_eq(kind, "unikraft") {
        "a Unikraft"
    } else if str_eq(kind, "nanos") {
        "a Nanos"
    } else if str_eq(kind, "osv") {
        "an OSv"
    } else {
        return Ok(());
    };
    let mut v: Vec<char> = Vec::new();
    push_str(&mut v, "cannot ");
    push_str(&mut v, what);
    push_str(&mut v, " ");
    push_str(&mut v, id);
    push_str(&mut v, " \u{2014} it is ");
    push_str(&mut v, a);
    push_str(
        &mut v,
        " unikernel: the application *is* the kernel, so there is no shell or agent to talk to, and snapshots are unsupported. Use `logs` to see its output.",
    );
    assert(v@ =~= "cannot "@ + what@ + " "@ + id@ + " \u{2014} it is "@ + a@
        + " unikernel: the application *is* the kernel, so there is no shell or agent to talk to, and snapshots are unsupported. Use `logs` to see its output."@);
    Err(string_of(v.as_slice()))
}

/// Where the agent binary may be inside a guest, in the order to try:
/// Linux OCI guests carry it at `/sbin`, the bundled BSD images at
/// `/usr/local/sbin`.
pub fn agent_candidates(kind: &str) -> (r: Vec<&'static str>)
    ensures
        r@.len() == 2,
        kind@ == "linux"@ ==> r@[0]@ == "/sbin/bsdkrun-agent"@ && r@[1]@ == "/usr/local/sbin/bsdkrun-agent"@,
        kind@ != "linux"@ ==> r@[0]@ == "/usr/local/sbin/bsdkrun-agent"@ && r@[1]@ == "/sbin/bsdkrun-agent"@,
{
    let mut v: Vec<&'static str> = Vec::new();
    if str_eq(kind, "linux") {
        v.push("/sbin/bsdkrun-agent");
        v.push("/usr/local/sbin/bsdkrun-agent");
    } else {
        v.push("/usr/local/sbin/bsdkrun-agent");
        v.push("/sbin/bsdkrun-agent");
    }
    v
}

/// How the agent is refreshed in a guest of some OS: which build, where it
/// goes, the guest's own download command, and the ELF interpreter that
/// proves a download is a binary for that guest (none for static Linux).
#[derive(Debug, Clone, Copy)]
pub struct AgentInstall {
    pub os: crate::host::GuestOs,
    pub dest: &'static str,
    pub fetch_cmd: &'static str,
    pub interp: &'static str,
}

/// The agent install for a guest OS label from `guest_os_kind`.
pub fn agent_install(os_kind: &str) -> (r: AgentInstall)
    ensures
        os_kind@ == "linux"@ ==> r.os == crate::host::GuestOs::Linux && r.dest@ == "/sbin/bsdkrun-agent"@
            && r.fetch_cmd@ == "curl -fL -o"@ && r.interp@ == ""@,
        os_kind@ != "linux"@ && os_kind@ == "netbsd"@ ==> r.os == crate::host::GuestOs::Netbsd && r.dest@
            == "/usr/local/sbin/bsdkrun-agent"@ && r.fetch_cmd@ == "ftp -o"@ && r.interp@
            == "/usr/libexec/ld.elf_so"@,
        os_kind@ != "linux"@ && os_kind@ != "netbsd"@ ==> r.os == crate::host::GuestOs::Freebsd && r.dest@
            == "/usr/local/sbin/bsdkrun-agent"@ && r.fetch_cmd@ == "fetch -o"@ && r.interp@
            == "/libexec/ld-elf.so.1"@,
{
    if str_eq(os_kind, "linux") {
        AgentInstall { os: crate::host::GuestOs::Linux, dest: "/sbin/bsdkrun-agent", fetch_cmd: "curl -fL -o", interp: "" }
    } else if str_eq(os_kind, "netbsd") {
        AgentInstall {
            os: crate::host::GuestOs::Netbsd,
            dest: "/usr/local/sbin/bsdkrun-agent",
            fetch_cmd: "ftp -o",
            interp: "/usr/libexec/ld.elf_so",
        }
    } else {
        AgentInstall {
            os: crate::host::GuestOs::Freebsd,
            dest: "/usr/local/sbin/bsdkrun-agent",
            fetch_cmd: "fetch -o",
            interp: "/libexec/ld-elf.so.1",
        }
    }
}

/// Refuse anything that is not an ELF binary.
pub const ELF_CHECK: &'static str = "head -c 4 \"$tmp\" | grep -q ELF || { echo 'refusing to install: downloaded file is not an ELF binary' >&2; rm -f \"$tmp\"; exit 1; }; ";

/// The verification a download must pass before it replaces the agent: the
/// ELF magic always, and the guest's ELF interpreter when it has one.
pub open spec fn verify_spec(interp: Seq<char>, os_slug: Seq<char>) -> Seq<char> {
    ELF_CHECK@ + if interp.len() == 0 {
        Seq::<char>::empty()
    } else {
        "grep -aq '"@ + interp + "' \"$tmp\" || { echo 'refusing to install: not a "@ + os_slug + " binary (no "@
            + interp + ")' >&2; rm -f \"$tmp\"; exit 1; }; "@
    }
}

/// The script that downloads the agent, verifies it, and moves it over the
/// old binary: verified before the move, because the agent being replaced
/// is the only channel into the guest.
pub open spec fn update_script_spec(fetch_cmd: Seq<char>, url: Seq<char>, dest: Seq<char>, interp: Seq<char>, os_slug: Seq<char>) -> Seq<char> {
    "set -e; tmp=/tmp/bsdkrun-agent.new; "@ + fetch_cmd + " \"$tmp\" '"@ + url + "'; "@ + verify_spec(interp, os_slug)
        + "chmod +x \"$tmp\"; mv \"$tmp\" '"@ + dest + "'; echo \"updated "@ + dest + "\"; echo \"from "@ + url
        + "\""@
}

/// The agent-refresh script.
pub fn update_script(fetch_cmd: &str, url: &str, dest: &str, interp: &str, os_slug: &str) -> (r: String)
    ensures
        r@ == update_script_spec(fetch_cmd@, url@, dest@, interp@, os_slug@),
{
    let mut v: Vec<char> = Vec::new();
    push_str(&mut v, "set -e; tmp=/tmp/bsdkrun-agent.new; ");
    push_str(&mut v, fetch_cmd);
    push_str(&mut v, " \"$tmp\" '");
    push_str(&mut v, url);
    push_str(&mut v, "'; ");
    push_str(&mut v, ELF_CHECK);
    if interp.unicode_len() > 0 {
        push_str(&mut v, "grep -aq '");
        push_str(&mut v, interp);
        push_str(&mut v, "' \"$tmp\" || { echo 'refusing to install: not a ");
        push_str(&mut v, os_slug);
        push_str(&mut v, " binary (no ");
        push_str(&mut v, interp);
        push_str(&mut v, ")' >&2; rm -f \"$tmp\"; exit 1; }; ");
    }
    push_str(&mut v, "chmod +x \"$tmp\"; mv \"$tmp\" '");
    push_str(&mut v, dest);
    push_str(&mut v, "'; echo \"updated ");
    push_str(&mut v, dest);
    push_str(&mut v, "\"; echo \"from ");
    push_str(&mut v, url);
    push_str(&mut v, "\"");
    assert(v@ =~= update_script_spec(fetch_cmd@, url@, dest@, interp@, os_slug@));
    string_of(v.as_slice())
}

/// The positions of `ssh` arguments, from `i` on, that are the values of a
/// `--key` flag: the argument after each `--key` read as a flag.
pub open spec fn key_value_positions(args: Seq<Seq<char>>, i: int) -> Seq<int>
    decreases args.len() - i,
{
    if i < 0 || i >= args.len() {
        Seq::empty()
    } else if args[i] == "--key"@ {
        if i + 1 < args.len() {
            seq![i + 1] + key_value_positions(args, i + 2)
        } else {
            Seq::empty()
        }
    } else {
        key_value_positions(args, i + 1)
    }
}

/// Whether a `--key` flag is read in the `ssh` arguments from `i` on.
pub open spec fn has_key_flag(args: Seq<Seq<char>>, i: int) -> bool
    decreases args.len() - i,
{
    if i < 0 || i >= args.len() {
        false
    } else if args[i] == "--key"@ {
        true
    } else {
        has_key_flag(args, i + 1)
    }
}

/// How `bsdkrun ssh` reads its arguments: which ones are `--key` values
/// (each may name a key file to read), and whether a key was given at all.
pub fn ssh_key_values(args: &Vec<String>) -> (r: (Vec<usize>, bool))
    ensures
        r.0@.map_values(|p: usize| p as int) == key_value_positions(owned_views(args@), 0),
        r.1 == has_key_flag(owned_views(args@), 0),
{
    let ghost a = owned_views(args@);
    let mut positions: Vec<usize> = Vec::new();
    let mut have_key = false;
    let mut i: usize = 0;
    while i < args.len()
        invariant
            i <= args.len(),
            a == owned_views(args@),
            positions@.map_values(|p: usize| p as int) + key_value_positions(a, i as int)
                == key_value_positions(a, 0),
            have_key || has_key_flag(a, i as int) == has_key_flag(a, 0),
            have_key ==> has_key_flag(a, 0),
        decreases args.len() - i,
    {
        assert(a[i as int] == args@[i as int]@);
        if str_eq(args[i].as_str(), "--key") {
            have_key = true;
            if i + 1 < args.len() {
                let ghost before = positions@.map_values(|p: usize| p as int);
                positions.push(i + 1);
                assert(positions@.map_values(|p: usize| p as int) =~= before.push(i + 1));
                assert(before.push(i + 1) + key_value_positions(a, i + 2) =~= before + (seq![i + 1]
                    + key_value_positions(a, i + 2)));
                i += 2;
            } else {
                assert(positions@.map_values(|p: usize| p as int) + key_value_positions(a, i + 1)
                    =~= positions@.map_values(|p: usize| p as int));
                i += 1;
            }
        } else {
            i += 1;
        }
    }
    assert(key_value_positions(a, i as int) =~= Seq::<int>::empty());
    assert(positions@.map_values(|p: usize| p as int) + Seq::<int>::empty() =~= positions@.map_values(
        |p: usize| p as int,
    ));
    (positions, have_key)
}

/// The `ssh` arguments with each `--key` value that named a key file replaced
/// by the file's trimmed contents: `key_files[i]` holds the contents of
/// argument `i`'s file, where it is a key value naming one.
pub open spec fn ssh_argv_spec(args: Seq<Seq<char>>, key_files: Seq<Option<Seq<char>>>) -> Seq<Seq<char>> {
    Seq::new(
        args.len(),
        |i: int|
            if key_value_positions(args, 0).contains(i) && key_files[i] is Some {
                trim(key_files[i]->0)
            } else {
                args[i]
            },
    )
}

pub open spec fn opt_views(v: Seq<Option<String>>) -> Seq<Option<Seq<char>>> {
    v.map_values(|o: Option<String>| match o {
        Some(s) => Some(s@),
        None => None,
    })
}

/// The arguments handed to the guest's `ssh` helper.
pub fn ssh_argv(args: &Vec<String>, key_files: &Vec<Option<String>>) -> (r: Vec<String>)
    requires
        key_files.len() == args.len(),
    ensures
        owned_views(r@) == ssh_argv_spec(owned_views(args@), opt_views(key_files@)),
{
    let (positions, _) = ssh_key_values(args);
    let ghost a = owned_views(args@);
    let ghost pos = positions@.map_values(|p: usize| p as int);
    let mut out: Vec<String> = Vec::new();
    let mut i: usize = 0;
    while i < args.len()
        invariant
            i <= args.len(),
            a == owned_views(args@),
            pos == key_value_positions(a, 0),
            pos == positions@.map_values(|p: usize| p as int),
            key_files.len() == args.len(),
            owned_views(out@) == ssh_argv_spec(a, opt_views(key_files@)).subrange(0, i as int),
        decreases args.len() - i,
    {
        let mut is_value = false;
        let mut j: usize = 0;
        while j < positions.len()
            invariant
                j <= positions.len(),
                pos == positions@.map_values(|p: usize| p as int),
                is_value == exists|k: int| 0 <= k < j && #[trigger] pos[k] == i as int,
            decreases positions.len() - j,
        {
            assert(pos[j as int] == positions@[j as int] as int);
            if positions[j] == i {
                is_value = true;
            }
            j += 1;
        }
        assert(is_value == pos.contains(i as int));
        let next = match &key_files[i] {
            Some(text) if is_value => string_of(trim_chars(&chars_of(text.as_str())).as_slice()),
            _ => String::from_str(args[i].as_str()),
        };
        assert(a[i as int] == args@[i as int]@);
        assert(next@ == ssh_argv_spec(a, opt_views(key_files@))[i as int]);
        let ghost prev = owned_views(out@);
        let ghost nv = next@;
        out.push(next);
        assert(owned_views(out@) =~= prev.push(nv));
        assert(owned_views(out@) =~= ssh_argv_spec(a, opt_views(key_files@)).subrange(0, i + 1));
        i += 1;
    }
    assert(ssh_argv_spec(a, opt_views(key_files@)).subrange(0, i as int) =~= ssh_argv_spec(
        a,
        opt_views(key_files@),
    ));
    out
}

/// The environment for the guest's `ssh` helper: on `setup` or `add-key`
/// without a `--key`, the local public keys, one per line.
pub open spec fn ssh_env_spec(args: Seq<Seq<char>>, keys: Seq<Seq<char>>) -> Seq<Seq<char>> {
    if !has_key_flag(args, 0) && args.len() > 0 && (args[0] == "setup"@ || args[0] == "add-key"@)
        && keys.len() > 0 {
        seq!["BSDKRUN_SSH_KEYS="@ + joined(keys, "\n"@)]
    } else {
        Seq::empty()
    }
}

/// The `KEY=VALUE` pairs `bsdkrun ssh` passes along with its arguments.
pub fn ssh_env(args: &Vec<String>, keys: &Vec<String>) -> (r: Vec<String>)
    ensures
        owned_views(r@) == ssh_env_spec(owned_views(args@), owned_views(keys@)),
{
    let (_, have_key) = ssh_key_values(args);
    let mut out: Vec<String> = Vec::new();
    if !have_key && args.len() > 0 && keys.len() > 0 {
        assert(owned_views(args@)[0] == args@[0]@);
        let first = args[0].as_str();
        if str_eq(first, "setup") || str_eq(first, "add-key") {
            let mut v: Vec<char> = Vec::new();
            push_str(&mut v, "BSDKRUN_SSH_KEYS=");
            let joined_keys = join_strings(keys, "\n");
            push_str(&mut v, joined_keys.as_str());
            out.push(string_of(v.as_slice()));
        }
    }
    assert(owned_views(out@) =~= ssh_env_spec(owned_views(args@), owned_views(keys@)));
    out
}

/// `s` with `x` inserted before its first item that `x` sorts before (or
/// equal to), as a sort by `String`'s order places it.
pub open spec fn sort_insert(s: Seq<Seq<char>>, x: Seq<char>) -> Seq<Seq<char>>
    decreases s.len(),
{
    if s.len() == 0 {
        seq![x]
    } else if lex_le(x, s[0]) {
        seq![x] + s
    } else {
        seq![s[0]] + sort_insert(s.drop_first(), x)
    }
}

/// The items in `String` order, repeats kept.
pub open spec fn sorted_strings(items: Seq<Seq<char>>) -> Seq<Seq<char>>
    decreases items.len(),
{
    if items.len() == 0 {
        Seq::empty()
    } else {
        sort_insert(sorted_strings(items.drop_last()), items.last())
    }
}

proof fn lemma_sort_insert_skip(s: Seq<Seq<char>>, x: Seq<char>, i: int)
    requires
        0 <= i <= s.len(),
        forall|k: int| 0 <= k < i ==> !lex_le(x, #[trigger] s[k]),
    ensures
        sort_insert(s, x) == s.subrange(0, i) + sort_insert(s.subrange(i, s.len() as int), x),
    decreases i,
{
    if i > 0 {
        assert(!lex_le(x, s[0]));
        let t = s.drop_first();
        assert forall|k: int| 0 <= k < i - 1 implies !lex_le(x, #[trigger] t[k]) by {
            assert(t[k] == s[k + 1]);
        }
        lemma_sort_insert_skip(t, x, i - 1);
        assert(t.subrange(i - 1, t.len() as int) =~= s.subrange(i, s.len() as int));
        assert(seq![s[0]] + t.subrange(0, i - 1) =~= s.subrange(0, i));
    } else {
        assert(s.subrange(0, s.len() as int) =~= s);
        assert(s.subrange(0, 0) + sort_insert(s, x) =~= sort_insert(s, x));
    }
}

pub open spec fn char_seqs(v: Seq<Vec<char>>) -> Seq<Seq<char>> {
    v.map_values(|c: Vec<char>| c@)
}

fn insert_sorted(s: &mut Vec<Vec<char>>, x: Vec<char>)
    ensures
        char_seqs(final(s)@) == sort_insert(char_seqs(old(s)@), x@),
{
    let ghost sv = char_seqs(s@);
    let mut i: usize = 0;
    while i < s.len() && !lex_le_exec(&x, &s[i])
        invariant
            i <= s@.len(),
            sv == char_seqs(s@),
            forall|k: int| 0 <= k < i ==> !lex_le(x@, #[trigger] sv[k]),
        decreases s.len() - i,
    {
        assert(sv[i as int] == s@[i as int]@);
        i += 1;
    }
    proof {
        lemma_sort_insert_skip(sv, x@, i as int);
    }
    let ghost tail = sv.subrange(i as int, sv.len() as int);
    if i < s.len() {
        assert(tail[0] == sv[i as int]);
    }
    s.insert(i, x);
    assert(char_seqs(s@) =~= sv.subrange(0, i as int) + sort_insert(tail, x@));
}

/// The key a file under `~/.ssh` contributes: the trimmed text of an
/// `id_*.pub` file, unless it is blank.
pub open spec fn public_key_of(name: Seq<char>, text: Seq<char>) -> Option<Seq<char>> {
    if starts_with(name, "id_"@) && ends_with(name, ".pub"@) && trim(text).len() > 0 {
        Some(trim(text))
    } else {
        None
    }
}

/// The public keys among `(file name, contents)` pairs, in file order.
pub open spec fn public_keys_in(files: Seq<(Seq<char>, Seq<char>)>) -> Seq<Seq<char>>
    decreases files.len(),
{
    if files.len() == 0 {
        Seq::empty()
    } else {
        let init = public_keys_in(files.drop_last());
        match public_key_of(files.last().0, files.last().1) {
            Some(k) => init.push(k),
            None => init,
        }
    }
}

/// Whether a file under `~/.ssh` is named like a public key, `id_*.pub`.
pub fn is_public_key_file(name: &str) -> (r: bool)
    ensures
        r == (starts_with(name@, "id_"@) && ends_with(name@, ".pub"@)),
{
    has_prefix(name, "id_") && has_suffix(name, ".pub")
}

pub open spec fn file_views(v: Seq<(String, String)>) -> Seq<(Seq<char>, Seq<char>)> {
    v.map_values(|f: (String, String)| (f.0@, f.1@))
}

/// The local public keys offered to `ssh setup`, sorted, from the files of
/// `~/.ssh` as `(name, contents)`, whatever order they come in.
pub fn public_keys(files: &Vec<(String, String)>) -> (r: Vec<String>)
    ensures
        owned_views(r@) == sorted_strings(public_keys_in(file_views(files@))),
{
    let ghost fv = file_views(files@);
    let mut sorted: Vec<Vec<char>> = Vec::new();
    let ghost mut found: Seq<Seq<char>> = Seq::empty();
    let mut i: usize = 0;
    while i < files.len()
        invariant
            i <= files.len(),
            fv == file_views(files@),
            found == public_keys_in(fv.subrange(0, i as int)),
            char_seqs(sorted@) == sorted_strings(found),
        decreases files.len() - i,
    {
        let (name, text) = (&files[i].0, &files[i].1);
        assert(fv.subrange(0, i + 1).drop_last() =~= fv.subrange(0, i as int));
        assert(fv[i as int] == (name@, text@));
        let key = trim_chars(&chars_of(text.as_str()));
        if has_prefix(name.as_str(), "id_") && has_suffix(name.as_str(), ".pub") && key.len() > 0 {
            proof {
                found = found.push(key@);
                assert(found.drop_last() =~= public_keys_in(fv.subrange(0, i as int)));
            }
            insert_sorted(&mut sorted, key);
        }
        i += 1;
    }
    assert(fv.subrange(0, i as int) =~= fv);
    let mut out: Vec<String> = Vec::new();
    let mut j: usize = 0;
    while j < sorted.len()
        invariant
            j <= sorted.len(),
            owned_views(out@) == char_seqs(sorted@).subrange(0, j as int),
        decreases sorted.len() - j,
    {
        let ghost prev = owned_views(out@);
        let k = string_of(sorted[j].as_slice());
        let ghost kv = k@;
        out.push(k);
        assert(owned_views(out@) =~= prev.push(kv));
        assert(char_seqs(sorted@).subrange(0, j + 1) =~= char_seqs(sorted@).subrange(0, j as int).push(
            sorted@[j as int]@,
        ));
        j += 1;
    }
    assert(char_seqs(sorted@).subrange(0, j as int) =~= char_seqs(sorted@));
    out
}

/// In `String` order, repeats allowed.
pub open spec fn sorted_by_string(s: Seq<Seq<char>>) -> bool {
    forall|i: int, j: int| 0 <= i < j < s.len() ==> lex_le(#[trigger] s[i], #[trigger] s[j])
}

/// Where `sort_insert` puts `x`: before the first item it sorts before.
pub open spec fn insert_pos(s: Seq<Seq<char>>, x: Seq<char>) -> int
    decreases s.len(),
{
    if s.len() == 0 || lex_le(x, s[0]) {
        0
    } else {
        1 + insert_pos(s.drop_first(), x)
    }
}

proof fn lemma_sort_insert_at(s: Seq<Seq<char>>, x: Seq<char>)
    ensures
        0 <= insert_pos(s, x) <= s.len(),
        sort_insert(s, x) == s.insert(insert_pos(s, x), x),
        forall|k: int| 0 <= k < insert_pos(s, x) ==> !lex_le(x, #[trigger] s[k]),
        insert_pos(s, x) < s.len() ==> lex_le(x, s[insert_pos(s, x)]),
    decreases s.len(),
{
    if s.len() == 0 {
        assert(seq![x] =~= s.insert(0, x));
    } else if lex_le(x, s[0]) {
        assert(seq![x] + s =~= s.insert(0, x));
    } else {
        let t = s.drop_first();
        lemma_sort_insert_at(t, x);
        let p = insert_pos(s, x);
        assert(seq![s[0]] + t.insert(p - 1, x) =~= s.insert(p, x));
        assert forall|k: int| 0 <= k < p implies !lex_le(x, #[trigger] s[k]) by {
            if k > 0 {
                assert(s[k] == t[k - 1]);
            }
        }
        if p < s.len() {
            assert(s[p] == t[p - 1]);
        }
    }
}

proof fn lemma_sort_insert(s: Seq<Seq<char>>, x: Seq<char>)
    requires
        sorted_by_string(s),
    ensures
        sorted_by_string(sort_insert(s, x)),
        sort_insert(s, x).to_multiset() == s.to_multiset().insert(x),
{
    lemma_sort_insert_at(s, x);
    let p = insert_pos(s, x);
    let r = s.insert(p, x);
    vstd::seq_lib::to_multiset_insert(s, p, x);
    assert forall|i: int, j: int| 0 <= i < j < r.len() implies lex_le(#[trigger] r[i], #[trigger] r[j]) by {
        if j < p {
            assert(r[i] == s[i] && r[j] == s[j]);
        } else if j == p {
            assert(r[i] == s[i] && r[j] == x);
            lemma_lex_total(x, s[i]);
        } else if i < p {
            assert(r[i] == s[i] && r[j] == s[j - 1]);
            lemma_lex_total(x, s[i]);
            if j - 1 > p {
                lemma_lex_trans(x, s[p], s[j - 1]);
            }
            lemma_lex_trans(s[i], x, s[j - 1]);
        } else if i == p {
            assert(r[i] == x && r[j] == s[j - 1]);
            if j - 1 > p {
                lemma_lex_trans(x, s[p], s[j - 1]);
            }
        } else {
            assert(r[i] == s[i - 1] && r[j] == s[j - 1]);
        }
    }
}

proof fn lemma_sorted_strings(items: Seq<Seq<char>>)
    ensures
        sorted_by_string(sorted_strings(items)),
        sorted_strings(items).to_multiset() == items.to_multiset(),
    decreases items.len(),
{
    if items.len() == 0 {
        assert(items =~= Seq::<Seq<char>>::empty());
    } else {
        let init = items.drop_last();
        lemma_sorted_strings(init);
        lemma_sort_insert(sorted_strings(init), items.last());
        assert(items =~= init.push(items.last()));
        vstd::seq_lib::to_multiset_build(init, items.last());
    }
}

/// The keys `bsdkrun ssh setup` offers come in `String` order, and they are
/// exactly the keys the `id_*.pub` files hold, each as often as it occurs.
pub proof fn offered_keys_are_sorted_and_complete(files: Seq<(Seq<char>, Seq<char>)>)
    ensures
        sorted_by_string(sorted_strings(public_keys_in(files))),
        sorted_strings(public_keys_in(files)).to_multiset() == public_keys_in(files).to_multiset(),
{
    lemma_sorted_strings(public_keys_in(files));
}

} // verus!