//! The decisions around booting a machine: the shell snippets a boot hands
//! the guest (repo clone, quoting), how a post-boot command is chosen, the
//! `--mount` syntax, the kernel command lines, and what `start` does with a
//! stopped machine's record.

use vstd::prelude::*;
use vstd::string::*;

use crate::guest::{guest_os_kind, guest_os_kind_spec};
use crate::host::Arch;
use crate::resolver::escaped;
use crate::text::{
    first_index, vec_eq, all_name_chars, chars_of, contains_seq, decimal, decimal_chars, ends_with, first_of,
    keep_name_chars, name_chars_only, owned_views, parse_uint, parse_uint_spec, push_chars,
    push_str, split_at_char, split_spec, str_contains, str_eq, string_of, sub_chars, trim,
    trim_chars,
};

verus! {

/// Inside single quotes, `'` closes the quote, adds an escaped quote and
/// reopens it; everything else is literal.
pub open spec fn squote_char(c: char) -> Seq<char> {
    if c == '\'' {
        seq!['\'', '\\', '\'', '\'']
    } else {
        seq![c]
    }
}

pub open spec fn shell_squote_spec(s: Seq<char>) -> Seq<char> {
    seq!['\''] + escaped(s, |c: char| squote_char(c)) + seq!['\'']
}

/// Single-quote a string for safe interpolation into a `/bin/sh` command.
pub fn shell_squote(s: &str) -> (r: String)
    ensures
        r@ == shell_squote_spec(s@),
{
    let c = chars_of(s);
    let mut v: Vec<char> = Vec::new();
    v.push('\'');
    let ghost start = v@;
    let mut i: usize = 0;
    while i < c.len()
        invariant
            i <= c@.len(),
            start == seq!['\''],
            v@ == start + escaped(c@.subrange(0, i as int), |c: char| squote_char(c)),
        decreases c.len() - i,
    {
        let ch = c[i];
        if ch == '\'' {
            v.push('\'');
            v.push('\\');
            v.push('\'');
            v.push('\'');
        } else {
            v.push(ch);
        }
        let ghost pre = c@.subrange(0, i + 1);
        assert(pre.drop_last() =~= c@.subrange(0, i as int));
        i += 1;
        assert(v@ =~= start + escaped(c@.subrange(0, i as int), |c: char| squote_char(c)));
    }
    assert(c@.subrange(0, i as int) =~= s@);
    v.push('\'');
    assert(v@ =~= shell_squote_spec(s@));
    string_of(v.as_slice())
}

/// What `/bin/sh` reads from a word made of single-quoted runs and
/// backslash escapes: inside quotes everything up to the closing quote is
/// literal; outside, a backslash takes the next character literally.
pub open spec fn sh_read(t: Seq<char>, quoted: bool) -> Seq<char>
    decreases t.len(),
{
    if t.len() == 0 {
        Seq::empty()
    } else if quoted {
        if t[0] == '\'' {
            sh_read(t.drop_first(), false)
        } else {
            seq![t[0]] + sh_read(t.drop_first(), true)
        }
    } else if t[0] == '\'' {
        sh_read(t.drop_first(), true)
    } else if t[0] == '\\' && t.len() >= 2 {
        seq![t[1]] + sh_read(t.subrange(2, t.len() as int), false)
    } else {
        seq![t[0]] + sh_read(t.drop_first(), false)
    }
}

proof fn lemma_read_one(c: char, rest: Seq<char>)
    ensures
        sh_read(squote_char(c) + rest, true) == seq![c] + sh_read(rest, true),
{
    let t = squote_char(c) + rest;
    if c == '\'' {
        assert(t[0] == '\'');
        let t1 = t.drop_first();
        assert(t1 =~= seq!['\\', '\'', '\''] + rest);
        assert(sh_read(t, true) == sh_read(t1, false));
        let t2 = t1.subrange(2, t1.len() as int);
        assert(t2 =~= seq!['\''] + rest);
        assert(t1[0] == '\\' && t1[1] == '\'');
        assert(sh_read(t1, false) == seq!['\''] + sh_read(t2, false));
        assert(t2[0] == '\'');
        assert(t2.drop_first() =~= rest);
        assert(sh_read(t2, false) == sh_read(rest, true));
    } else {
        assert(t[0] == c);
        assert(t.drop_first() =~= rest);
        assert(sh_read(t, true) == seq![c] + sh_read(rest, true));
    }
}

proof fn lemma_read_escaped(u: Seq<char>, rest: Seq<char>)
    ensures
        sh_read(escaped(u, |c: char| squote_char(c)) + rest, true) == u + sh_read(rest, true),
    decreases u.len(),
{
    if u.len() == 0 {
        assert(escaped(u, |c: char| squote_char(c)) + rest =~= rest);
        assert(u + sh_read(rest, true) =~= sh_read(rest, true));
    } else {
        let init = u.drop_last();
        let c = u.last();
        let tail = squote_char(c) + rest;
        assert(escaped(u, |c: char| squote_char(c)) + rest =~= escaped(init, |c: char| squote_char(c)) + tail);
        lemma_read_escaped(init, tail);
        lemma_read_one(c, rest);
        assert(init + (seq![c] + sh_read(rest, true)) =~= u + sh_read(rest, true));
    }
}

/// Quoting is exact: whatever `s` holds, the shell reads the quoted word
/// back as `s` and nothing else.
pub proof fn shell_reads_back_the_quoted_text(s: Seq<char>)
    ensures
        sh_read(shell_squote_spec(s), false) == s,
{
    let e = escaped(s, |c: char| squote_char(c));
    let t = shell_squote_spec(s);
    assert(t.drop_first() =~= e + seq!['\'']);
    lemma_read_escaped(s, seq!['\'']);
    let q: Seq<char> = seq!['\''];
    assert(q.drop_first() =~= Seq::<char>::empty());
    assert(sh_read(q, true) == sh_read(Seq::<char>::empty(), false));
    assert(s + Seq::<char>::empty() =~= s);
}

/// `s` without its trailing `/`s.
pub open spec fn trim_end_slashes(s: Seq<char>) -> Seq<char>
    decreases s.len(),
{
    if s.len() > 0 && s.last() == '/' {
        trim_end_slashes(s.drop_last())
    } else {
        s
    }
}

pub open spec fn is_url_sep(c: char) -> bool {
    c == '/' || c == ':'
}

/// What follows the last `/` or `:` of `s` (all of it when there is none).
pub open spec fn after_last_sep(s: Seq<char>) -> Seq<char>
    decreases s.len(),
{
    if s.len() == 0 {
        s
    } else if is_url_sep(s.last()) {
        Seq::empty()
    } else {
        after_last_sep(s.drop_last()).push(s.last())
    }
}

pub open spec fn dot_git() -> Seq<char> {
    seq!['.', 'g', 'i', 't']
}

/// `s` without one `.git` suffix.
pub open spec fn strip_git(s: Seq<char>) -> Seq<char> {
    if ends_with(s, dot_git()) {
        s.subrange(0, s.len() - 4)
    } else {
        s
    }
}

/// A destination directory name for a cloned repo: the URL's last path
/// segment without `.git`, only its filesystem-safe characters, and `repo`
/// when none are left.
pub open spec fn repo_dir_name_spec(url: Seq<char>) -> Seq<char> {
    let cleaned = name_chars_only(strip_git(after_last_sep(trim_end_slashes(url))));
    if cleaned.len() == 0 {
        seq!['r', 'e', 'p', 'o']
    } else {
        cleaned
    }
}

proof fn lemma_trim_end_slashes(s: Seq<char>, j: int)
    requires
        0 <= j <= s.len(),
        j == 0 || s[j - 1] != '/',
        forall|k: int| j <= k < s.len() ==> #[trigger] s[k] == '/',
    ensures
        trim_end_slashes(s) == s.subrange(0, j),
    decreases s.len(),
{
    if s.len() > j {
        assert(s.last() == s[s.len() - 1]);
        assert(s.drop_last().subrange(0, j) =~= s.subrange(0, j));
        lemma_trim_end_slashes(s.drop_last(), j);
    } else {
        assert(s.subrange(0, j) =~= s);
    }
}

proof fn lemma_after_last_sep(s: Seq<char>, j: int)
    requires
        0 <= j <= s.len(),
        j == 0 || is_url_sep(s[j - 1]),
        forall|k: int| j <= k < s.len() ==> !is_url_sep(#[trigger] s[k]),
    ensures
        after_last_sep(s) == s.subrange(j, s.len() as int),
    decreases s.len(),
{
    if s.len() > j {
        lemma_after_last_sep(s.drop_last(), j);
        assert(s.drop_last().subrange(j, s.len() - 1).push(s.last()) =~= s.subrange(j, s.len() as int));
    } else if j > 0 {
        assert(s.last() == s[j - 1]);
        assert(s.subrange(j, s.len() as int) =~= Seq::<char>::empty());
    } else {
        assert(s.subrange(j, s.len() as int) =~= s);
    }
}

/// The directory a cloned repo lands in, under `$HOME`.
pub fn repo_dir_name(url: &str) -> (r: String)
    ensures
        r@ == repo_dir_name_spec(url@),
{
    let c = chars_of(url);
    let mut e: usize = c.len();
    while e > 0 && c[e - 1] == '/'
        invariant
            e <= c@.len(),
            forall|k: int| e <= k < c@.len() ==> #[trigger] c@[k] == '/',
        decreases e,
    {
        e -= 1;
    }
    proof {
        lemma_trim_end_slashes(c@, e as int);
    }
    let t = sub_chars(&c, 0, e);
    let mut j: usize = t.len();
    while j > 0 && !(t[j - 1] == '/' || t[j - 1] == ':')
        invariant
            j <= t@.len(),
            forall|k: int| j <= k < t@.len() ==> !is_url_sep(#[trigger] t@[k]),
        decreases j,
    {
        j -= 1;
    }
    proof {
        lemma_after_last_sep(t@, j as int);
    }
    let seg = sub_chars(&t, j, t.len());
    let n = seg.len();
    let base = if n >= 4 && seg[n - 4] == '.' && seg[n - 3] == 'g' && seg[n - 2] == 'i' && seg[n - 1] == 't' {
        assert(seg@.subrange(n - 4, n as int) =~= dot_git());
        sub_chars(&seg, 0, n - 4)
    } else {
        proof {
            if n >= 4 && ends_with(seg@, dot_git()) {
                assert(seg@.subrange(n - 4, n as int)[0] == seg@[n - 4]);
                assert(seg@.subrange(n - 4, n as int)[1] == seg@[n - 3]);
                assert(seg@.subrange(n - 4, n as int)[2] == seg@[n - 2]);
                assert(seg@.subrange(n - 4, n as int)[3] == seg@[n - 1]);
            }
        }
        seg
    };
    let cleaned = keep_name_chars(&base);
    if cleaned.len() == 0 {
        let mut v: Vec<char> = Vec::new();
        v.push('r');
        v.push('e');
        v.push('p');
        v.push('o');
        assert(v@ =~= seq!['r', 'e', 'p', 'o']);
        string_of(v.as_slice())
    } else {
        string_of(cleaned.as_slice())
    }
}

/// The guest script that clones a repo into `$HOME/<dest>` (installing git
/// first with whichever package manager the guest has) and records the path
/// in `/etc/bsdkrun-cwd`, so a shell opens inside it.
pub open spec fn clone_script_spec(dest: Seq<char>, quoted: Seq<char>) -> Seq<char> {
    "set -e; export PATH=\"/usr/local/bin:/usr/local/sbin:/usr/pkg/bin:$PATH\"; \
         H=\"${HOME:-/root}\"; case \"$H\" in \"\"|/) H=/root;; esac; \
         mkdir -p \"$H\" 2>/dev/null || true; \
         has() { command -v \"$1\" >/dev/null 2>&1; }; \
         if ! has git; then \
           echo '==> installing git'; \
           (has apt-get && apt-get update && apt-get install -y git) || \
           (has apk && apk add --no-cache git) || \
           (has dnf && dnf install -y git) || \
           (has microdnf && microdnf install -y git) || \
           (has yum && yum install -y git) || \
           (has pacman && pacman -Sy --noconfirm git) || \
           (has zypper && zypper --non-interactive install git) || \
           (has pkg && ASSUME_ALWAYS_YES=yes pkg install -y git) || \
           (has pkgin && pkgin -y install git) || \
           (has pkg_add && { A=$(uname -p 2>/dev/null); [ \"$A\" = x86_64 ] && A=amd64; \
            R=$(uname -r 2>/dev/null | cut -d. -f1).0; \
            PKG_PATH=\"https://cdn.NetBSD.org/pub/pkgsrc/packages/NetBSD/$A/$R/All/\" \
              pkg_add git; }) || \
           (has nix-env && nix-env -iA nixpkgs.git) || \
           (has nix && nix profile install nixpkgs#git) || true; \
         fi; \
         has git || { echo 'error: could not install git in the guest'; exit 1; }; \
         echo '==> cloning "@ + dest + "'; \
         git clone --depth=1 "@ + quoted + " \"$H/"@ + dest + "\"; \
         printf '%s\\n' \"$H/"@ + dest + "\" > /etc/bsdkrun-cwd 2>/dev/null || true; \
         echo '==> cloned into '\"$H/"@ + dest + "\""@
}

/// The post-boot command that clones `repo`; `None` for a blank URL.
pub open spec fn repo_clone_argv_spec(repo: Seq<char>) -> Option<Seq<Seq<char>>> {
    let r = trim(repo);
    if r.len() == 0 {
        None
    } else {
        Some(
            seq![
                seq!['s', 'h'],
                seq!['-', 'l', 'c'],
                clone_script_spec(repo_dir_name_spec(r), shell_squote_spec(r)),
            ],
        )
    }
}


pub open spec fn opt_strings(o: Option<Vec<String>>) -> Option<Seq<Seq<char>>> {
    match o {
        Some(v) => Some(owned_views(v@)),
        None => None,
    }
}

/// The guest command that clones `repo` after boot.
pub fn repo_clone_argv(repo: &str) -> (r: Option<Vec<String>>)
    ensures
        opt_strings(r) == repo_clone_argv_spec(repo@),
{
    let c = chars_of(repo);
    let t = trim_chars(&c);
    if t.len() == 0 {
        return None;
    }
    let r = string_of(t.as_slice());
    let dest = repo_dir_name(r.as_str());
    let q = shell_squote(r.as_str());
    let mut v: Vec<char> = Vec::new();
    push_str(
        &mut v,
        "set -e; export PATH=\"/usr/local/bin:/usr/local/sbin:/usr/pkg/bin:$PATH\"; \
         H=\"${HOME:-/root}\"; case \"$H\" in \"\"|/) H=/root;; esac; \
         mkdir -p \"$H\" 2>/dev/null || true; \
         has() { command -v \"$1\" >/dev/null 2>&1; }; \
         if ! has git; then \
           echo '==> installing git'; \
           (has apt-get && apt-get update && apt-get install -y git) || \
           (has apk && apk add --no-cache git) || \
           (has dnf && dnf install -y git) || \
           (has microdnf && microdnf install -y git) || \
           (has yum && yum install -y git) || \
           (has pacman && pacman -Sy --noconfirm git) || \
           (has zypper && zypper --non-interactive install git) || \
           (has pkg && ASSUME_ALWAYS_YES=yes pkg install -y git) || \
           (has pkgin && pkgin -y install git) || \
           (has pkg_add && { A=$(uname -p 2>/dev/null); [ \"$A\" = x86_64 ] && A=amd64; \
            R=$(uname -r 2>/dev/null | cut -d. -f1).0; \
            PKG_PATH=\"https://cdn.NetBSD.org/pub/pkgsrc/packages/NetBSD/$A/$R/All/\" \
              pkg_add git; }) || \
           (has nix-env && nix-env -iA nixpkgs.git) || \
           (has nix && nix profile install nixpkgs#git) || true; \
         fi; \
         has git || { echo 'error: could not install git in the guest'; exit 1; }; \
         echo '==> cloning ",
    );
    push_str(&mut v, dest.as_str());
    push_str(&mut v, "'; \
         git clone --depth=1 ");
    push_str(&mut v, q.as_str());
    push_str(&mut v, " \"$H/");
    push_str(&mut v, dest.as_str());
    push_str(&mut v, "\"; \
         printf '%s\\n' \"$H/");
    push_str(&mut v, dest.as_str());
    push_str(&mut v, "\" > /etc/bsdkrun-cwd 2>/dev/null || true; \
         echo '==> cloned into '\"$H/");
    push_str(&mut v, dest.as_str());
    push_str(&mut v, "\"");
    assert(v@ =~= clone_script_spec(dest@, q@));
    let mut argv: Vec<String> = Vec::new();
    let mut a: Vec<char> = Vec::new();
    a.push('s');
    a.push('h');
    assert(a@ =~= seq!['s', 'h']);
    argv.push(string_of(a.as_slice()));
    let mut b: Vec<char> = Vec::new();
    b.push('-');
    b.push('l');
    b.push('c');
    assert(b@ =~= seq!['-', 'l', 'c']);
    argv.push(string_of(b.as_slice()));
    argv.push(string_of(v.as_slice()));
    assert(owned_views(argv@) =~= repo_clone_argv_spec(repo@)->0);
    Some(argv)
}

/// The post-boot command of a BSD boot and whether it gets a terminal: with
/// no command, in the foreground and with networking, an interactive
/// `/bin/sh` over the agent; otherwise the given command, without a PTY.
pub fn bsd_exec_after(command: &Vec<String>, detach: bool, no_net: bool) -> (r: (Vec<String>, bool))
    ensures
        command@.len() == 0 && !detach && !no_net ==> owned_views(r.0@) == seq![seq!['/', 'b', 'i', 'n', '/', 's', 'h']]
            && r.1,
        !(command@.len() == 0 && !detach && !no_net) ==> owned_views(r.0@) == owned_views(command@) && !r.1,
{
    if command.len() == 0 && !detach && !no_net {
        let mut c: Vec<char> = Vec::new();
        c.push('/');
        c.push('b');
        c.push('i');
        c.push('n');
        c.push('/');
        c.push('s');
        c.push('h');
        assert(c@ =~= seq!['/', 'b', 'i', 'n', '/', 's', 'h']);
        let mut v: Vec<String> = Vec::new();
        v.push(string_of(c.as_slice()));
        assert(owned_views(v@) =~= seq![seq!['/', 'b', 'i', 'n', '/', 's', 'h']]);
        (v, true)
    } else {
        let mut v: Vec<String> = Vec::new();
        let mut i: usize = 0;
        while i < command.len()
            invariant
                i <= command@.len(),
                owned_views(v@) == owned_views(command@).subrange(0, i as int),
            decreases command.len() - i,
        {
            let ghost before = owned_views(v@);
            v.push(command[i].clone());
            assert(owned_views(v@) =~= before.push(command@[i as int]@));
            i += 1;
            assert(owned_views(v@) =~= owned_views(command@).subrange(0, i as int));
        }
        assert(owned_views(command@).subrange(0, i as int) =~= owned_views(command@));
        (v, false)
    }
}

/// What refuses a post-boot command on a machine without networking.
pub const NEEDS_NET: &'static str = "running a command in the guest needs networking (the agent talks over the \
             guest NIC), but --no-net was given";

/// A command to run in the guest needs the agent, which talks over the
/// guest NIC.
pub fn ensure_net_for_exec(no_net: bool, exec_after: &Vec<String>) -> (r: Result<(), String>)
    ensures
        r is Err <==> (exec_after@.len() > 0 && no_net),
        r matches Err(m) ==> m@ == NEEDS_NET@,
{
    if exec_after.len() > 0 && no_net {
        Err(String::from_str(NEEDS_NET))
    } else {
        Ok(())
    }
}

/// Why a `--mount` spec is refused before its host side is looked at.
#[derive(Debug, Clone, Copy, PartialEq, Eq)]
pub enum MountSpecError {
    /// Not `HOST:GUEST`, `HOST:GUEST:ro` or `HOST:GUEST:rw`.
    Shape,
    /// The host or the guest side is empty.
    EmptySide,
    /// The guest path does not start with `/`.
    RelativeGuest,
}

/// A `--mount HOST:GUEST[:ro|:rw]` spec split into host path, guest path
/// and read-only flag.
pub open spec fn mount_spec(spec: Seq<char>) -> Result<(Seq<char>, Seq<char>, bool), MountSpecError> {
    let parts = split_spec(spec, ':');
    let shape = if parts.len() == 2 {
        Some(false)
    } else if parts.len() == 3 && parts[2] == seq!['r', 'o'] {
        Some(true)
    } else if parts.len() == 3 && parts[2] == seq!['r', 'w'] {
        Some(false)
    } else {
        None
    };
    match shape {
        None => Err(MountSpecError::Shape),
        Some(ro) => if parts[0].len() == 0 || parts[1].len() == 0 {
            Err(MountSpecError::EmptySide)
        } else if parts[1][0] != '/' {
            Err(MountSpecError::RelativeGuest)
        } else {
            Ok((parts[0], parts[1], ro))
        },
    }
}

/// Split and check a `--mount` spec; the host directory itself is looked
/// up by the caller.
pub fn parse_mount_spec(spec: &str) -> (r: Result<(String, String, bool), MountSpecError>)
    ensures
        match r {
            Ok((h, g, ro)) => mount_spec(spec@) == Ok::<(Seq<char>, Seq<char>, bool), MountSpecError>((h@, g@, ro)),
            Err(e) => mount_spec(spec@) == Err::<(Seq<char>, Seq<char>, bool), MountSpecError>(e),
        },
{
    let c = chars_of(spec);
    let parts = split_at_char(&c, ':');
    let ghost ps = parts@.map_values(|l: Vec<char>| l@);
    assert(ps == split_spec(spec@, ':'));
    let n = parts.len();
    let ro = if n == 2 {
        false
    } else if n == 3 && parts[2].len() == 2 && parts[2][0] == 'r' && parts[2][1] == 'o' {
        assert(ps[2] =~= seq!['r', 'o']);
        true
    } else if n == 3 && parts[2].len() == 2 && parts[2][0] == 'r' && parts[2][1] == 'w' {
        assert(ps[2] =~= seq!['r', 'w']);
        false
    } else {
        proof {
            if n == 3 {
                assert(ps[2] == parts@[2]@);
                assert(ps[2] != seq!['r', 'o']) by {
                    if ps[2] == seq!['r', 'o'] {
                        assert(parts@[2]@.len() == 2);
                    }
                }
                assert(ps[2] != seq!['r', 'w']) by {
                    if ps[2] == seq!['r', 'w'] {
                        assert(parts@[2]@.len() == 2);
                    }
                }
            }
        }
        return Err(MountSpecError::Shape);
    };
    assert(ps[0] == parts@[0]@ && ps[1] == parts@[1]@);
    if parts[0].len() == 0 || parts[1].len() == 0 {
        return Err(MountSpecError::EmptySide);
    }
    if parts[1][0] != '/' {
        return Err(MountSpecError::RelativeGuest);
    }
    Ok((string_of(parts[0].as_slice()), string_of(parts[1].as_slice()), ro))
}

/// A non-empty override, else the default.
pub open spec fn override_or(o: Option<&str>, default: Seq<char>) -> Seq<char> {
    match o {
        Some(s) => if s@.len() > 0 {
            s@
        } else {
            default
        },
        None => default,
    }
}

/// The NetBSD kernel's command line: an override when one is set and not
/// empty, else the root device and console of the host's port (amd64 boots
/// a PVH kernel with an `ld0a` root, arm64 a `dk1` one).
pub fn netbsd_cmdline(env_override: Option<&str>, x86_64: bool) -> (r: String)
    ensures
        r@ == override_or(env_override, if x86_64 {
            "root=ld0a console=com"@
        } else {
            "root=dk1"@
        }),
{
    match env_override {
        Some(s) => {
            if s.unicode_len() > 0 {
                return String::from_str(s);
            }
        },
        None => {},
    }
    if x86_64 {
        String::from_str("root=ld0a console=com")
    } else {
        String::from_str("root=dk1")
    }
}

/// FreeBSD's PVH command line: UFS root on the first virtio disk, the serial
/// console, and `uart0` hinted so it fully attaches.
pub const FREEBSD_CMDLINE: &'static str = "vfs.root.mountfrom=ufs:/dev/vtbd0 console=comconsole hw.uart.console=io:0x3f8 \
     hint.uart.0.at=isa hint.uart.0.port=0x3f8 hint.uart.0.flags=0x10 hint.uart.0.irq=4";

/// The FreeBSD kernel's command line: an override when one is set and not
/// empty, else [`FREEBSD_CMDLINE`].
pub fn freebsd_cmdline(env_override: Option<&str>) -> (r: String)
    ensures
        r@ == override_or(env_override, FREEBSD_CMDLINE@),
{
    match env_override {
        Some(s) => {
            if s.unicode_len() > 0 {
                return String::from_str(s);
            }
        },
        None => {},
    }
    String::from_str(FREEBSD_CMDLINE)
}

/// The root disks a machine keeps in its state dir, in the order `start`
/// looks for them.
#[derive(Debug, Clone, Copy, PartialEq, Eq)]
pub enum RootDisk {
    Raw,
    Img,
    Qcow2,
}

impl RootDisk {
    /// The disk's file name in the state dir.
    pub fn file_name(&self) -> (r: &'static str)
        ensures
            r@ == match self {
                RootDisk::Raw => "root.raw"@,
                RootDisk::Img => "root.img"@,
                RootDisk::Qcow2 => "root.qcow2"@,
            },
    {
        match self {
            RootDisk::Raw => "root.raw",
            RootDisk::Img => "root.img",
            RootDisk::Qcow2 => "root.qcow2",
        }
    }
}

/// What `start` knows of a stopped machine: its record, and what is on disk
/// in its state dir.
pub struct RestartFacts {
    pub status: String,
    /// Its recorded pid is set and alive.
    pub pid_alive: bool,
    pub kind: String,
    pub image: String,
    pub cpus: i64,
    pub mem: i64,
    pub has_volume: bool,
    /// Which of `root.raw`, `root.img`, `root.qcow2` exist.
    pub root_disks: (bool, bool, bool),
    /// A non-empty rootfs sits in the machine's legacy state dir.
    pub legacy_rootfs: bool,
    /// The machine's own rootfs lives elsewhere than that legacy dir.
    pub rootfs_moved: bool,
    /// The machine's own rootfs exists, is not nested, and is not empty.
    pub rootfs_intact: bool,
}

/// How `start` brings a machine back.
#[derive(Debug, Clone, Copy, PartialEq, Eq)]
pub enum Resume {
    /// Already up: nothing to do.
    Running,
    /// A Linux rootfs from before the case-sensitive store: refused.
    LegacyRootfs,
    /// Linux, from its own rootfs or from the base image.
    Linux { own_rootfs: bool },
    Nanos { disk: Option<RootDisk> },
    Osv { disk: Option<RootDisk> },
    Unikraft,
    FreeBsd { disk: Option<RootDisk> },
    NetBsd { disk: Option<RootDisk> },
    /// No way to restart this kind.
    Unknown,
}

/// The boot `start` performs, with the resources it boots with.
#[derive(Debug, Clone, Copy, PartialEq, Eq)]
pub struct RestartPlan {
    pub cpus: u8,
    pub mem: u32,
    pub resume: Resume,
}

/// The root disk booted in place: the first that exists, and none for a
/// volume-backed machine.
pub open spec fn root_disk_spec(has_volume: bool, disks: (bool, bool, bool)) -> Option<RootDisk> {
    if has_volume {
        None
    } else if disks.0 {
        Some(RootDisk::Raw)
    } else if disks.1 {
        Some(RootDisk::Img)
    } else if disks.2 {
        Some(RootDisk::Qcow2)
    } else {
        None
    }
}

pub open spec fn resume_spec(f: RestartFacts) -> Resume {
    let disk = root_disk_spec(f.has_volume, f.root_disks);
    if f.status@ == "running"@ && f.pid_alive {
        Resume::Running
    } else if f.kind@ == "linux"@ {
        if !f.has_volume && f.legacy_rootfs && f.rootfs_moved {
            Resume::LegacyRootfs
        } else {
            Resume::Linux { own_rootfs: !f.has_volume && f.rootfs_intact }
        }
    } else if f.kind@ == "nanos"@ {
        Resume::Nanos { disk }
    } else if f.kind@ == "osv"@ {
        Resume::Osv { disk }
    } else if f.kind@ == "unikraft"@ {
        Resume::Unikraft
    } else if guest_os_kind_spec(f.kind@, f.image@) == "freebsd"@ {
        Resume::FreeBsd { disk }
    } else if guest_os_kind_spec(f.kind@, f.image@) == "netbsd"@ {
        Resume::NetBsd { disk }
    } else {
        Resume::Unknown
    }
}

/// What `start` does with a stopped machine: its vCPUs clamped to 1..=255,
/// its memory at least 64 MiB, and its guest booted from its own disk or
/// rootfs where one survives.
pub fn restart_plan(f: &RestartFacts) -> (r: RestartPlan)
    ensures
        r.cpus == (if f.cpus < 1 {
            1
        } else if f.cpus > 255 {
            255
        } else {
            f.cpus
        }),
        r.mem == (if f.mem < 64 {
            64
        } else {
            f.mem
        }) as u32,
        r.resume == resume_spec(*f),
{
    let cpus: u8 = if f.cpus < 1 {
        1
    } else if f.cpus > 255 {
        255
    } else {
        f.cpus as u8
    };
    let m: i64 = if f.mem < 64 {
        64
    } else {
        f.mem
    };
    let mem = m as u32;
    let disk = if f.has_volume {
        None
    } else if f.root_disks.0 {
        Some(RootDisk::Raw)
    } else if f.root_disks.1 {
        Some(RootDisk::Img)
    } else if f.root_disks.2 {
        Some(RootDisk::Qcow2)
    } else {
        None
    };
    let resume = if str_eq(f.status.as_str(), "running") && f.pid_alive {
        Resume::Running
    } else if str_eq(f.kind.as_str(), "linux") {
        if !f.has_volume && f.legacy_rootfs && f.rootfs_moved {
            Resume::LegacyRootfs
        } else {
            Resume::Linux { own_rootfs: !f.has_volume && f.rootfs_intact }
        }
    } else if str_eq(f.kind.as_str(), "nanos") {
        Resume::Nanos { disk }
    } else if str_eq(f.kind.as_str(), "osv") {
        Resume::Osv { disk }
    } else if str_eq(f.kind.as_str(), "unikraft") {
        Resume::Unikraft
    } else {
        let g = guest_os_kind(f.kind.as_str(), f.image.as_str());
        if str_eq(g, "freebsd") {
            Resume::FreeBsd { disk }
        } else if str_eq(g, "netbsd") {
            Resume::NetBsd { disk }
        } else {
            Resume::Unknown
        }
    };
    RestartPlan { cpus, mem, resume }
}

/// Why `start` refuses a Linux machine whose rootfs predates the
/// case-sensitive store.
pub fn legacy_rootfs_error(id: &str) -> (r: String)
    ensures
        r@ == "Linux machine "@ + id@ + " uses a rootfs created before the case-sensitive macOS store; \
                 remove and recreate it with `bsdkrun rm "@ + id@ + "` to avoid resuming corrupted storage"@,
{
    let mut v: Vec<char> = Vec::new();
    push_str(&mut v, "Linux machine ");
    push_str(&mut v, id);
    push_str(&mut v, " uses a rootfs created before the case-sensitive macOS store; \
                 remove and recreate it with `bsdkrun rm ");
    push_str(&mut v, id);
    push_str(&mut v, "` to avoid resuming corrupted storage");
    string_of(v.as_slice())
}

/// How long a freshly booted guest's agent is waited for, in milliseconds.
pub const AGENT_BOOT_TIMEOUT_MS: u64 = 180_000;

/// The least time between two agent polls, in milliseconds.
pub const AGENT_POLL_MS: u64 = 500;

/// The frames of the progress spinner.
pub open spec fn spinner_frame(i: nat) -> char {
    let k = i % 10;
    if k == 0 {
        '\u{280b}'
    } else if k == 1 {
        '\u{2819}'
    } else if k == 2 {
        '\u{2839}'
    } else if k == 3 {
        '\u{2838}'
    } else if k == 4 {
        '\u{283c}'
    } else if k == 5 {
        '\u{2834}'
    } else if k == 6 {
        '\u{2826}'
    } else if k == 7 {
        '\u{2827}'
    } else if k == 8 {
        '\u{2807}'
    } else {
        '\u{280f}'
    }
}

fn spinner_char(i: u64) -> (r: char)
    ensures
        r == spinner_frame(i as nat),
{
    let k = i % 10;
    if k == 0 {
        '\u{280b}'
    } else if k == 1 {
        '\u{2819}'
    } else if k == 2 {
        '\u{2839}'
    } else if k == 3 {
        '\u{2838}'
    } else if k == 4 {
        '\u{283c}'
    } else if k == 5 {
        '\u{2834}'
    } else if k == 6 {
        '\u{2826}'
    } else if k == 7 {
        '\u{2827}'
    } else if k == 8 {
        '\u{2807}'
    } else {
        '\u{280f}'
    }
}

/// What one poll of a booting machine found.
#[derive(Debug, Clone, Copy, PartialEq, Eq)]
pub enum Probe {
    /// No poll was due this round.
    Skipped,
    /// The agent answered on this host port.
    Ready(u16),
    /// The machine exited, or its process is gone.
    Exited,
    /// Still booting.
    Booting,
}

/// What the waiting loop does next.
#[derive(Debug, Clone, Copy, PartialEq, Eq)]
pub enum WaitAction {
    /// The agent is up on this port.
    Ready(u16),
    /// The guest died during boot.
    Exited,
    /// The boot took longer than [`AGENT_BOOT_TIMEOUT_MS`].
    TimedOut,
    /// Sleep `tick_ms` and go round again; with a terminal, draw this
    /// spinner frame and the seconds waited so far.
    Wait { tick_ms: u64, spinner: Option<char>, elapsed_secs: u64 },
}

/// The wait for a booting machine's agent: when it started, when the agent
/// was last polled, and how many spinner frames were drawn.
pub struct AgentWait {
    pub start_ms: u64,
    pub last_poll_ms: Option<u64>,
    pub frame: u64,
    /// A progress counter is drawn (no console is streamed and stderr is a
    /// terminal).
    pub counter: bool,
}

pub open spec fn elapsed(start: u64, now: u64) -> nat {
    if now >= start {
        (now - start) as nat
    } else {
        0
    }
}

/// A poll is due: none was made yet, or the last was half a second ago.
pub open spec fn poll_due(last: Option<u64>, now: u64) -> bool {
    match last {
        None => true,
        Some(t) => elapsed(t, now) >= AGENT_POLL_MS,
    }
}

pub open spec fn wait_action(w: AgentWait, now: u64, probe: Probe) -> WaitAction {
    match probe {
        Probe::Ready(port) => WaitAction::Ready(port),
        Probe::Exited => WaitAction::Exited,
        _ => if elapsed(w.start_ms, now) >= AGENT_BOOT_TIMEOUT_MS {
            WaitAction::TimedOut
        } else {
            WaitAction::Wait {
                tick_ms: if w.counter {
                    80
                } else {
                    250
                },
                spinner: if w.counter {
                    Some(spinner_frame(w.frame as nat))
                } else {
                    None
                },
                elapsed_secs: (elapsed(w.start_ms, now) / 1000) as u64,
            }
        },
    }
}

impl AgentWait {
    /// A wait that starts now.
    pub fn new(start_ms: u64, counter: bool) -> (r: AgentWait)
        ensures
            r.start_ms == start_ms,
            r.last_poll_ms is None,
            r.frame == 0,
            r.counter == counter,
    {
        AgentWait { start_ms, last_poll_ms: None, frame: 0, counter }
    }

    /// Whether the agent should be polled at `now_ms`.
    pub fn poll_due(&self, now_ms: u64) -> (r: bool)
        ensures
            r == poll_due(self.last_poll_ms, now_ms),
    {
        match self.last_poll_ms {
            None => true,
            Some(t) => now_ms.saturating_sub(t) >= AGENT_POLL_MS,
        }
    }

    /// One round of the wait at `now_ms`, given what a poll found: a ready
    /// agent or a dead guest ends it, then the timeout; otherwise it sleeps
    /// and draws the next spinner frame.
    pub fn step(&mut self, now_ms: u64, probe: Probe) -> (r: WaitAction)
        ensures
            r == wait_action(*old(self), now_ms, probe),
            final(self).start_ms == old(self).start_ms,
            final(self).counter == old(self).counter,
            final(self).last_poll_ms == (if probe is Skipped {
                old(self).last_poll_ms
            } else {
                Some(now_ms)
            }),
            final(self).frame == (if r is Wait && old(self).counter && old(self).frame < u64::MAX {
                (old(self).frame + 1) as u64
            } else {
                old(self).frame
            }),
    {
        match probe {
            Probe::Skipped => {},
            _ => {
                self.last_poll_ms = Some(now_ms);
            },
        }
        match probe {
            Probe::Ready(port) => {
                return WaitAction::Ready(port);
            },
            Probe::Exited => {
                return WaitAction::Exited;
            },
            _ => {},
        }
        let waited = now_ms.saturating_sub(self.start_ms);
        if waited >= AGENT_BOOT_TIMEOUT_MS {
            return WaitAction::TimedOut;
        }
        if self.counter {
            let spin = spinner_char(self.frame);
            self.frame = self.frame.saturating_add(1);
            WaitAction::Wait { tick_ms: 80, spinner: Some(spin), elapsed_secs: waited / 1000 }
        } else {
            WaitAction::Wait { tick_ms: 250, spinner: None, elapsed_secs: waited / 1000 }
        }
    }
}

/// The progress line drawn while waiting: the spinner frame, the guest kind
/// and the seconds waited, over the previous line.
pub fn progress_line(spin: char, kind: &str, secs: u64) -> (r: String)
    ensures
        r@ == "\r\x1b[K\x1b[36m"@ + seq![spin] + "\x1b[0m booting "@ + kind@
            + " microVM \u{2014} waiting for the guest agent ("@ + decimal(secs as nat) + "s)\u{2026}"@,
{
    let mut v: Vec<char> = Vec::new();
    push_str(&mut v, "\r\x1b[K\x1b[36m");
    let ghost a = v@;
    v.push(spin);
    assert(v@ =~= a + seq![spin]);
    push_str(&mut v, "\x1b[0m booting ");
    push_str(&mut v, kind);
    push_str(&mut v, " microVM \u{2014} waiting for the guest agent (");
    let d = decimal_chars(secs);
    push_chars(&mut v, &d);
    push_str(&mut v, "s)\u{2026}");
    string_of(v.as_slice())
}

/// Why the wait ended without an agent: the guest died.
pub fn agent_exited_error(id: &str) -> (r: String)
    ensures
        r@ == "machine "@ + id@ + " exited before its agent came up \u{2014} see `bsdkrun logs "@ + id@ + "`"@,
{
    let mut v: Vec<char> = Vec::new();
    push_str(&mut v, "machine ");
    push_str(&mut v, id);
    push_str(&mut v, " exited before its agent came up \u{2014} see `bsdkrun logs ");
    push_str(&mut v, id);
    push_str(&mut v, "`");
    string_of(v.as_slice())
}

/// Why the wait ended without an agent: the timeout.
pub fn agent_timeout_error(id: &str) -> (r: String)
    ensures
        r@ == "timed out after "@ + decimal((AGENT_BOOT_TIMEOUT_MS / 1000) as nat)
            + "s waiting for the guest agent on machine "@ + id@ + " (still booting? try `bsdkrun logs "@ + id@
            + "`)"@,
{
    let mut v: Vec<char> = Vec::new();
    push_str(&mut v, "timed out after ");
    let d = decimal_chars(AGENT_BOOT_TIMEOUT_MS / 1000);
    push_chars(&mut v, &d);
    push_str(&mut v, "s waiting for the guest agent on machine ");
    push_str(&mut v, id);
    push_str(&mut v, " (still booting? try `bsdkrun logs ");
    push_str(&mut v, id);
    push_str(&mut v, "`)");
    string_of(v.as_slice())
}

/// How a machine gets its network.
#[derive(Debug, Clone, Copy, PartialEq, Eq)]
pub enum NetPlan {
    /// No network: `--no-net`, or gvproxy is missing and nothing needs it.
    Disabled,
    /// Join the running shared network's switch.
    Shared,
    /// Spawn a gvproxy of its own.
    Own,
}

/// Why a machine cannot get the network it asked for.
#[derive(Debug, Clone, Copy, PartialEq, Eq)]
pub enum NetError {
    /// `--port` with `--no-net`.
    PortsWithoutNet,
    /// `--port` without gvproxy.
    PortsNeedGvproxy,
}

impl NetError {
    /// The message the user sees.
    pub fn message(&self) -> (r: &'static str)
        ensures
            r@ == match self {
                NetError::PortsWithoutNet => "--port cannot be combined with --no-net"@,
                NetError::PortsNeedGvproxy => "--port requires gvproxy"@,
            },
    {
        match self {
            NetError::PortsWithoutNet => "--port cannot be combined with --no-net",
            NetError::PortsNeedGvproxy => "--port requires gvproxy",
        }
    }
}

/// Networking degrades cleanly: without `--no-net` and with gvproxy, a
/// machine joins the shared network when one is named, else gets its own;
/// otherwise it has none, unless it forwards ports, which is an error.
pub fn net_plan(no_net: bool, has_ports: bool, gvproxy_found: bool, shared: bool) -> (r: Result<NetPlan, NetError>)
    ensures
        r == (if no_net {
            if has_ports {
                Err(NetError::PortsWithoutNet)
            } else {
                Ok(NetPlan::Disabled)
            }
        } else if !gvproxy_found {
            if has_ports {
                Err(NetError::PortsNeedGvproxy)
            } else {
                Ok(NetPlan::Disabled)
            }
        } else if shared {
            Ok(NetPlan::Shared)
        } else {
            Ok(NetPlan::Own)
        }),
{
    if no_net {
        if has_ports {
            Err(NetError::PortsWithoutNet)
        } else {
            Ok(NetPlan::Disabled)
        }
    } else if !gvproxy_found {
        if has_ports {
            Err(NetError::PortsNeedGvproxy)
        } else {
            Ok(NetPlan::Disabled)
        }
    } else if shared {
        Ok(NetPlan::Shared)
    } else {
        Ok(NetPlan::Own)
    }
}

/// The last dotted component of an IP, as a byte, else 2.
pub open spec fn last_octet(ip: Seq<char>) -> u8 {
    let rev_k = first_of(ip.reverse(), '.');
    let tail = ip.subrange(ip.len() - rev_k, ip.len() as int);
    match parse_uint_spec(tail, 255) {
        Some(v) => v as u8,
        None => 2,
    }
}

/// The MAC of a member of the shared network: every member needs its own,
/// or the switch routes two members' traffic to one port. The one the
/// network assigned wins; else it is derived from the member's IP; else
/// the default.
pub open spec fn member_mac_spec(assigned: Option<[u8; 6]>, ip: Option<Seq<char>>, mac: [u8; 6]) -> [u8; 6] {
    match assigned {
        Some(m) => m,
        None => match ip {
            Some(i) => [0x5a, 0x94, 0xef, 0xe4, 0x0c, last_octet(i)],
            None => mac,
        },
    }
}

/// The MAC a shared-network member attaches with.
pub fn member_mac(assigned: Option<[u8; 6]>, ip: Option<&str>, mac: [u8; 6]) -> (r: [u8; 6])
    ensures
        r == member_mac_spec(
            assigned,
            match ip {
                Some(i) => Some(i@),
                None => None,
            },
            mac,
        ),
{
    match assigned {
        Some(m) => m,
        None => match ip {
            Some(i) => {
                let c = chars_of(i);
                let n = c.len();
                let mut j: usize = n;
                while j > 0 && c[j - 1] != '.'
                    invariant
                        j <= n,
                        n == c@.len(),
                        forall|k: int| j <= k < n ==> c@[k] != '.',
                    decreases j,
                {
                    j -= 1;
                }
                proof {
                    let rv = c@.reverse();
                    let k = (n - j) as int;
                    assert forall|t: int| 0 <= t < k implies rv[t] != '.' by {
                        assert(rv[t] == c@[n - 1 - t]);
                    }
                    if j > 0 {
                        assert(rv[k] == c@[j - 1]);
                    }
                    crate::text::lemma_first_of_pub(rv, '.', k);
                }
                let tail = sub_chars(&c, j, n);
                let last: u8 = match parse_uint(&tail, 255) {
                    Some(v) => v as u8,
                    None => 2,
                };
                [0x5a, 0x94, 0xef, 0xe4, 0x0c, last]
            },
            None => mac,
        },
    }
}

/// An OSv image runs on the host's own architecture: an aarch64 image on an
/// arm64 host, an x86_64 loader ELF on an x86_64 one.
pub fn osv_arch_check(arm64_image: bool, host: Arch) -> (r: Result<(), &'static str>)
    ensures
        arm64_image && host == Arch::Aarch64 ==> r is Ok,
        !arm64_image && host == Arch::X86_64 ==> r is Ok,
        arm64_image && host != Arch::Aarch64 ==> (r matches Err(m) && m@
            == "this is an OSv aarch64 image, but the host is x86_64 \u{2014} a guest runs \
             the host's architecture, so use the x86_64 loader ELF instead"@),
        !arm64_image && host != Arch::X86_64 ==> (r matches Err(m) && m@
            == "this is an OSv x86_64 image, but the host is aarch64 \u{2014} use the \
             aarch64 loader.img (e.g. osv-loader-microvm.qemu.aarch64) instead"@),
{
    match (arm64_image, host) {
        (true, Arch::Aarch64) => Ok(()),
        (false, Arch::X86_64) => Ok(()),
        (true, _) => Err(
            "this is an OSv aarch64 image, but the host is x86_64 \u{2014} a guest runs \
             the host's architecture, so use the x86_64 loader ELF instead",
        ),
        (false, _) => Err(
            "this is an OSv x86_64 image, but the host is aarch64 \u{2014} use the \
             aarch64 loader.img (e.g. osv-loader-microvm.qemu.aarch64) instead",
        ),
    }
}

/// Whether an OSv boot attaches a root disk, and whether to warn that the
/// guest has nothing to mount (no root attached and no `--nomount`).
pub fn osv_root(no_disk: bool, has_root: bool, cmdline: &str) -> (r: (bool, bool))
    ensures
        r.0 == (!no_disk && has_root),
        r.1 == (!r.0 && !contains_seq(cmdline@, "--nomount"@)),
{
    let attach = !no_disk && has_root;
    (attach, !attach && !str_contains(cmdline, "--nomount"))
}

proof fn lemma_name_chars_only(s: Seq<char>)
    ensures
        all_name_chars(name_chars_only(s)),
    decreases s.len(),
{
    if s.len() > 0 {
        lemma_name_chars_only(s.drop_last());
        let r = name_chars_only(s);
        let p = name_chars_only(s.drop_last());
        assert forall|i: int| 0 <= i < r.len() implies crate::text::is_name_char(#[trigger] r[i]) by {
            if i < p.len() {
                assert(r[i] == p[i]);
            }
        }
    }
}

/// A cloned repo always lands in one safe directory of `$HOME`: the name is
/// never empty and holds only letters, digits, `-`, `_` and `.`.
pub proof fn repo_dirs_are_safe_names(url: Seq<char>)
    ensures
        repo_dir_name_spec(url).len() > 0,
        all_name_chars(repo_dir_name_spec(url)),
{
    lemma_name_chars_only(strip_git(after_last_sep(trim_end_slashes(url))));
    let r = repo_dir_name_spec(url);
    if name_chars_only(strip_git(after_last_sep(trim_end_slashes(url)))).len() == 0 {
        assert(r == seq!['r', 'e', 'p', 'o']);
        assert forall|i: int| 0 <= i < r.len() implies crate::text::is_name_char(#[trigger] r[i]) by {
            assert(r[i] == 'r' || r[i] == 'e' || r[i] == 'p' || r[i] == 'o');
        }
    }
}

/// The name of a `KEY=VALUE` pair: everything before its first `=`.
pub open spec fn env_key(kv: Seq<char>) -> Seq<char> {
    kv.subrange(0, first_of(kv, '=') as int)
}

/// `env` without the pairs named `key`, in order.
pub open spec fn without_key(env: Seq<Seq<char>>, key: Seq<char>) -> Seq<Seq<char>>
    decreases env.len(),
{
    if env.len() == 0 {
        Seq::empty()
    } else if env_key(env.last()) == key {
        without_key(env.drop_last(), key)
    } else {
        without_key(env.drop_last(), key).push(env.last())
    }
}

/// The image's environment with each `-e KEY=VALUE` applied in turn: any
/// pair of that name is dropped and the new one appended.
pub open spec fn env_with(env: Seq<Seq<char>>, overrides: Seq<Seq<char>>) -> Seq<Seq<char>>
    decreases overrides.len(),
{
    if overrides.len() == 0 {
        env
    } else {
        let before = env_with(env, overrides.drop_last());
        without_key(before, env_key(overrides.last())).push(overrides.last())
    }
}

/// Where a Linux machine's root filesystem lives.
#[derive(Debug, Clone, Copy, PartialEq, Eq)]
pub enum LinuxRoot {
    /// A named volume: a persistent, writable virtio-fs root.
    Volume,
    /// A per-machine virtio-fs clone of the image.
    Virtiofs,
    /// An initramfs built from the image (a RAM disk).
    Initramfs,
}

/// What a Linux boot is set up with before the hypervisor is touched.
#[derive(Debug, Clone, PartialEq, Eq)]
pub struct LinuxBootPlan {
    /// The guest's environment: the image's, with the overrides applied.
    pub env: Vec<String>,
    /// A detached machine without a command keeps a console shell alive
    /// across exits; otherwise the workload runs once.
    pub persistent: bool,
    pub root: LinuxRoot,
    /// Whether the guest's serial console is wired to stdio (any console
    /// but libkrun's implicit `hvc*` one).
    pub stdio_serial: bool,
}

/// Why a Linux boot is refused before anything is prepared.
#[derive(Debug, Clone, Copy, PartialEq, Eq)]
pub enum LinuxBootError {
    /// `--volume` with `--initramfs`: a RAM disk has nothing to persist.
    VolumeNeedsVirtiofs,
}

impl LinuxBootError {
    /// The message the user sees.
    pub fn message(&self) -> (r: &'static str)
        ensures
            r@ == "--volume needs virtio-fs; it can't persist an --initramfs (RAM) rootfs"@,
    {
        "--volume needs virtio-fs; it can't persist an --initramfs (RAM) rootfs"
    }
}

/// The boot a Linux machine gets: refused when a volume is asked of an
/// initramfs; else the merged environment, whether it is persistent, its
/// root (a volume wins, then virtio-fs, else an initramfs), and whether its
/// serial console goes to stdio.
pub open spec fn linux_boot_plan_spec(
    env: Seq<Seq<char>>,
    overrides: Seq<Seq<char>>,
    has_volume: bool,
    initramfs: bool,
    virtiofs: bool,
    detach: bool,
    command_empty: bool,
    console: Seq<char>,
) -> Result<(Seq<Seq<char>>, bool, LinuxRoot, bool), LinuxBootError> {
    if has_volume && initramfs {
        Err(LinuxBootError::VolumeNeedsVirtiofs)
    } else {
        Ok((
            env_with(env, overrides),
            detach && command_empty,
            if has_volume {
                LinuxRoot::Volume
            } else if virtiofs {
                LinuxRoot::Virtiofs
            } else {
                LinuxRoot::Initramfs
            },
            !crate::text::starts_with(console, "hvc"@),
        ))
    }
}

fn key_of(kv: &Vec<char>) -> (r: Vec<char>)
    ensures
        r@ == env_key(kv@),
{
    let k = first_index(kv, '=');
    sub_chars(kv, 0, k)
}

/// `env` without the pairs named `key`.
fn drop_key(env: Vec<String>, key: &Vec<char>) -> (r: Vec<String>)
    ensures
        owned_views(r@) == without_key(owned_views(env@), key@),
{
    let ghost ev = owned_views(env@);
    let mut out: Vec<String> = Vec::new();
    let mut i: usize = 0;
    while i < env.len()
        invariant
            i <= env.len(),
            ev == owned_views(env@),
            owned_views(out@) == without_key(ev.subrange(0, i as int), key@),
        decreases env.len() - i,
    {
        let e = &env[i];
        let k = key_of(&chars_of(e.as_str()));
        let ghost pre = ev.subrange(0, i + 1);
        assert(pre.drop_last() =~= ev.subrange(0, i as int));
        assert(pre.last() == e@);
        if !vec_eq(&k, key) {
            let ghost prev = owned_views(out@);
            let c = String::from_str(e.as_str());
            out.push(c);
            assert(owned_views(out@) =~= prev.push(e@));
        }
        i += 1;
    }
    assert(ev.subrange(0, i as int) =~= ev);
    out
}

/// Decide a Linux boot: refuse a volume on an initramfs, merge the `-e`
/// overrides into the image's environment, and pick the root and console.
pub fn linux_boot_plan(
    env: Vec<String>,
    overrides: &Vec<String>,
    has_volume: bool,
    initramfs: bool,
    virtiofs: bool,
    detach: bool,
    command_empty: bool,
    console: &str,
) -> (r: Result<LinuxBootPlan, LinuxBootError>)
    ensures
        match (r, linux_boot_plan_spec(
            owned_views(env@),
            owned_views(overrides@),
            has_volume,
            initramfs,
            virtiofs,
            detach,
            command_empty,
            console@,
        )) {
            (Ok(p), Ok((e, persistent, root, serial))) => owned_views(p.env@) == e && p.persistent == persistent
                && p.root == root && p.stdio_serial == serial,
            (Err(a), Err(b)) => a == b,
            _ => false,
        },
{
    if has_volume && initramfs {
        return Err(LinuxBootError::VolumeNeedsVirtiofs);
    }
    let ghost ov = owned_views(overrides@);
    let ghost ev = owned_views(env@);
    let mut cur = env;
    let mut i: usize = 0;
    while i < overrides.len()
        invariant
            i <= overrides.len(),
            ov == owned_views(overrides@),
            owned_views(cur@) == env_with(ev, ov.subrange(0, i as int)),
        decreases overrides.len() - i,
    {
        let kv = &overrides[i];
        let key = key_of(&chars_of(kv.as_str()));
        let ghost pre = ov.subrange(0, i + 1);
        assert(pre.drop_last() =~= ov.subrange(0, i as int));
        assert(pre.last() == kv@);
        let mut next = drop_key(cur, &key);
        let ghost prev = owned_views(next@);
        next.push(String::from_str(kv.as_str()));
        assert(owned_views(next@) =~= prev.push(kv@));
        cur = next;
        i += 1;
    }
    assert(ov.subrange(0, i as int) =~= ov);
    let root = if has_volume {
        LinuxRoot::Volume
    } else if virtiofs {
        LinuxRoot::Virtiofs
    } else {
        LinuxRoot::Initramfs
    };
    let serial = !crate::text::has_prefix(console, "hvc");
    Ok(LinuxBootPlan { env: cur, persistent: detach && command_empty, root, stdio_serial: serial })
}

} // verus!
