//! Wiring the host resolver to the built-in DNS responder: the file that
//! routes the machine-domain TLD to 127.0.0.1, how to tell it is in place,
//! and the shell scripts that install or remove it with one privileged step.
//!
//! macOS: `/etc/resolver/<tld>` routes just that TLD to 127.0.0.1:<port>.
//! Linux: a systemd-resolved drop-in (`DNS=127.0.0.1:<port>`, `Domains=~<tld>`).

use vstd::prelude::*;

use crate::text::{
    chars_of, contains_seq, decimal, decimal_chars, push_chars, push_str, str_contains, str_eq,
    string_of, trim, trim_chars,
};

verus! {

/// The drop-in bsdkrun owns on Linux. All TLDs share it.
pub const RESOLVED_DROPIN: &'static str = "/etc/systemd/resolved.conf.d/bsdkrun.conf";

/// The directory holding the drop-in.
pub const RESOLVED_DROPIN_DIR: &'static str = "/etc/systemd/resolved.conf.d";

/// Where the resolver wiring lives, for status output.
pub open spec fn location_spec(tld: Seq<char>, macos: bool) -> Seq<char> {
    if macos {
        "/etc/resolver/"@ + tld
    } else {
        RESOLVED_DROPIN@
    }
}

/// Where the resolver wiring lives: the per-TLD file on macOS, the shared
/// drop-in on Linux.
pub fn location(tld: &str, macos: bool) -> (r: String)
    ensures
        r@ == location_spec(tld@, macos),
{
    if macos {
        let mut v: Vec<char> = Vec::new();
        push_str(&mut v, "/etc/resolver/");
        push_str(&mut v, tld);
        assert(v@ =~= location_spec(tld@, macos));
        string_of(v.as_slice())
    } else {
        String::from_str(RESOLVED_DROPIN)
    }
}

/// Can the native macOS admin dialog appear? Never on Linux; on macOS not
/// over SSH, and only when someone other than root owns the console (an
/// Aqua session is logged in).
pub open spec fn gui_escalation_spec(macos: bool, ssh_session: bool, console_owner: Option<Seq<char>>) -> bool {
    macos && !ssh_session && match console_owner {
        Some(o) => trim(o).len() > 0 && trim(o) != "root"@,
        None => false,
    }
}

/// Whether privileged steps can use the native admin dialog, given whether
/// this is macOS, whether the session is remote, and the console's owner
/// (when it could be read).
pub fn gui_escalation_available(macos: bool, ssh_session: bool, console_owner: &Option<String>) -> (r: bool)
    ensures
        r == gui_escalation_spec(
            macos,
            ssh_session,
            match console_owner {
                Some(o) => Some(o@),
                None => None,
            },
        ),
{
    if !macos || ssh_session {
        return false;
    }
    match console_owner {
        Some(o) => {
            let c = chars_of(o.as_str());
            let t = trim_chars(&c);
            let s = string_of(t.as_slice());
            t.len() > 0 && !str_eq(s.as_str(), "root")
        },
        None => false,
    }
}

/// The macOS resolver file: our nameserver and its port.
pub open spec fn resolver_file_spec(port: u16) -> Seq<char> {
    "nameserver 127.0.0.1\nport "@ + decimal(port as nat) + "\n"@
}

/// The contents of `/etc/resolver/<tld>` on macOS.
pub fn resolver_file(port: u16) -> (r: String)
    ensures
        r@ == resolver_file_spec(port),
{
    let mut v: Vec<char> = Vec::new();
    push_str(&mut v, "nameserver 127.0.0.1\nport ");
    let d = decimal_chars(port as u64);
    push_chars(&mut v, &d);
    push_str(&mut v, "\n");
    assert(v@ =~= resolver_file_spec(port));
    string_of(v.as_slice())
}

/// The systemd-resolved drop-in: `DNS=` with a port (systemd 246 and
/// later), and `~<tld>` as a routing-only domain so only that TLD is sent.
pub open spec fn dropin_spec(tld: Seq<char>, port: u16) -> Seq<char> {
    "# Generated by bsdkrun \u{2014} do not edit by hand.\n[Resolve]\nDNS=127.0.0.1:"@ + decimal(port as nat)
        + "\nDomains=~"@ + tld + "\n"@
}

/// The contents of the systemd-resolved drop-in on Linux.
pub fn dropin(tld: &str, port: u16) -> (r: String)
    ensures
        r@ == dropin_spec(tld@, port),
{
    let mut v: Vec<char> = Vec::new();
    push_str(&mut v, "# Generated by bsdkrun \u{2014} do not edit by hand.\n[Resolve]\nDNS=127.0.0.1:");
    let d = decimal_chars(port as u64);
    push_chars(&mut v, &d);
    push_str(&mut v, "\nDomains=~");
    push_str(&mut v, tld);
    push_str(&mut v, "\n");
    assert(v@ =~= dropin_spec(tld@, port));
    string_of(v.as_slice())
}

/// The wiring is in place: on macOS the file names 127.0.0.1 and our port;
/// on Linux the drop-in targets our port and routes this TLD. A stale or
/// hand-edited file does not count.
pub open spec fn resolver_ok_spec(macos: bool, contents: Seq<char>, tld: Seq<char>, port: u16) -> bool {
    if macos {
        contains_seq(contents, "127.0.0.1"@) && contains_seq(contents, "port "@ + decimal(port as nat))
    } else {
        contains_seq(contents, "127.0.0.1:"@ + decimal(port as nat)) && contains_seq(contents, "~"@ + tld)
    }
}

/// Whether the resolver file's contents (as read) wire the TLD to our port.
pub fn resolver_ok(macos: bool, contents: &str, tld: &str, port: u16) -> (r: bool)
    ensures
        r == resolver_ok_spec(macos, contents@, tld@, port),
{
    let d = decimal_chars(port as u64);
    if macos {
        let mut p: Vec<char> = Vec::new();
        push_str(&mut p, "port ");
        push_chars(&mut p, &d);
        let ps = string_of(p.as_slice());
        str_contains(contents, "127.0.0.1") && str_contains(contents, ps.as_str())
    } else {
        let mut p: Vec<char> = Vec::new();
        push_str(&mut p, "127.0.0.1:");
        push_chars(&mut p, &d);
        let ps = string_of(p.as_slice());
        let mut q: Vec<char> = Vec::new();
        push_str(&mut q, "~");
        push_str(&mut q, tld);
        let qs = string_of(q.as_slice());
        str_contains(contents, ps.as_str()) && str_contains(contents, qs.as_str())
    }
}

/// systemd-resolved is present and not masked: `systemctl is-enabled`
/// printed a state, and not `masked`.
pub open spec fn resolved_available_spec(state: Seq<char>) -> bool {
    trim(state).len() > 0 && trim(state) != "masked"@
}

/// Whether systemd-resolved can be used, from what `systemctl is-enabled`
/// printed.
pub fn resolved_available(state: &str) -> (r: bool)
    ensures
        r == resolved_available_spec(state@),
{
    let c = chars_of(state);
    let t = trim_chars(&c);
    let s = string_of(t.as_slice());
    t.len() > 0 && !str_eq(s.as_str(), "masked")
}

/// Each character of `s` replaced by its escape.
pub open spec fn escaped(s: Seq<char>, esc: spec_fn(char) -> Seq<char>) -> Seq<char>
    decreases s.len(),
{
    if s.len() == 0 {
        Seq::empty()
    } else {
        escaped(s.drop_last(), esc) + esc(s.last())
    }
}

/// Escape for an AppleScript double-quoted string: `\` and `"` get a
/// backslash.
pub open spec fn applescript_char(c: char) -> Seq<char> {
    if c == '\\' {
        seq!['\\', '\\']
    } else if c == '"' {
        seq!['\\', '"']
    } else {
        seq![c]
    }
}

/// Escape for a shell single-quoted string: `\` is doubled and `'` closes,
/// escapes and reopens the quote.
pub open spec fn single_quote_char(c: char) -> Seq<char> {
    if c == '\\' {
        seq!['\\', '\\']
    } else if c == '\'' {
        seq!['\'', '\\', '\'', '\'']
    } else {
        seq![c]
    }
}

/// The AppleScript that runs a shell script with the admin dialog.
pub open spec fn admin_applescript_spec(script: Seq<char>) -> Seq<char> {
    "do shell script \""@ + escaped(script, |c: char| applescript_char(c))
        + "\" with administrator privileges"@
}

/// The AppleScript that runs `shell_script` as root through the native
/// admin dialog.
pub fn admin_applescript(shell_script: &str) -> (r: String)
    ensures
        r@ == admin_applescript_spec(shell_script@),
{
    let s = chars_of(shell_script);
    let mut v: Vec<char> = Vec::new();
    push_str(&mut v, "do shell script \"");
    let ghost start = v@;
    let mut i: usize = 0;
    while i < s.len()
        invariant
            i <= s@.len(),
            v@ == start + escaped(s@.subrange(0, i as int), |c: char| applescript_char(c)),
        decreases s.len() - i,
    {
        let c = s[i];
        if c == '\\' {
            v.push('\\');
            v.push('\\');
        } else if c == '"' {
            v.push('\\');
            v.push('"');
        } else {
            v.push(c);
        }
        let ghost pre = s@.subrange(0, i + 1);
        assert(pre.drop_last() =~= s@.subrange(0, i as int));
        i += 1;
        assert(v@ =~= start + escaped(s@.subrange(0, i as int), |c: char| applescript_char(c)));
    }
    assert(s@.subrange(0, i as int) =~= shell_script@);
    push_str(&mut v, "\" with administrator privileges");
    assert(v@ =~= admin_applescript_spec(shell_script@));
    string_of(v.as_slice())
}

/// The one privileged step that installs the macOS resolver file and
/// flushes the DNS cache.
pub open spec fn macos_setup_script_spec(tld: Seq<char>, port: u16) -> Seq<char> {
    "mkdir -p /etc/resolver && printf 'nameserver 127.0.0.1\\nport "@ + decimal(port as nat)
        + "\\n' > /etc/resolver/"@ + tld + " && dscacheutil -flushcache && killall -HUP mDNSResponder"@
}

/// The shell script that installs `/etc/resolver/<tld>` as root.
pub fn macos_setup_script(tld: &str, port: u16) -> (r: String)
    ensures
        r@ == macos_setup_script_spec(tld@, port),
{
    let mut v: Vec<char> = Vec::new();
    push_str(&mut v, "mkdir -p /etc/resolver && printf 'nameserver 127.0.0.1\\nport ");
    let d = decimal_chars(port as u64);
    push_chars(&mut v, &d);
    push_str(&mut v, "\\n' > /etc/resolver/");
    push_str(&mut v, tld);
    push_str(&mut v, " && dscacheutil -flushcache && killall -HUP mDNSResponder");
    assert(v@ =~= macos_setup_script_spec(tld@, port));
    string_of(v.as_slice())
}

/// The one privileged step that writes the systemd-resolved drop-in; the
/// restart and cache flush are best-effort.
pub open spec fn linux_setup_script_spec(tld: Seq<char>, port: u16) -> Seq<char> {
    "mkdir -p "@ + RESOLVED_DROPIN_DIR@ + " && printf '%s' '"@ + escaped(
        dropin_spec(tld, port),
        |c: char| single_quote_char(c),
    ) + "' > "@ + RESOLVED_DROPIN@
        + " && { systemctl restart systemd-resolved || true; } && { resolvectl flush-caches || true; }"@
}

/// The shell script that writes the drop-in as root.
pub fn linux_setup_script(tld: &str, port: u16) -> (r: String)
    ensures
        r@ == linux_setup_script_spec(tld@, port),
{
    let body = dropin(tld, port);
    let s = chars_of(body.as_str());
    let mut v: Vec<char> = Vec::new();
    push_str(&mut v, "mkdir -p ");
    push_str(&mut v, RESOLVED_DROPIN_DIR);
    push_str(&mut v, " && printf '%s' '");
    let ghost start = v@;
    let mut i: usize = 0;
    while i < s.len()
        invariant
            i <= s@.len(),
            v@ == start + escaped(s@.subrange(0, i as int), |c: char| single_quote_char(c)),
        decreases s.len() - i,
    {
        let c = s[i];
        if c == '\\' {
            v.push('\\');
            v.push('\\');
        } else if c == '\'' {
            v.push('\'');
            v.push('\\');
            v.push('\'');
            v.push('\'');
        } else {
            v.push(c);
        }
        let ghost pre = s@.subrange(0, i + 1);
        assert(pre.drop_last() =~= s@.subrange(0, i as int));
        i += 1;
        assert(v@ =~= start + escaped(s@.subrange(0, i as int), |c: char| single_quote_char(c)));
    }
    assert(s@.subrange(0, i as int) =~= s@);
    push_str(&mut v, "' > ");
    push_str(&mut v, RESOLVED_DROPIN);
    push_str(
        &mut v,
        " && { systemctl restart systemd-resolved || true; } && { resolvectl flush-caches || true; }",
    );
    assert(v@ =~= linux_setup_script_spec(tld@, port));
    string_of(v.as_slice())
}

} // verus!
