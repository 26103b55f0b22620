//! Host platform facts: the CPU architecture and its names in the various
//! artifact schemes, the guest OS slugs, and the KVM diagnosis that turns a
//! failed probe of `/dev/kvm` plus a few host facts into one actionable
//! message.

use vstd::prelude::*;

use crate::text::{
    chars_of, decimal, decimal_chars, first_word, first_word_chars, i64_chars, is_ws, is_ws_exec,
    lines_spec, octal, octal_chars, pad_end, parse_u32, parse_uint_spec, push_chars, push_pad_end,
    push_str, signed_decimal, split_at_char, split_lines, split_spec, starts_with, str_eq,
    string_of, vec_eq, vec_starts_with, zero_pad, zero_pad_chars,
};

verus! {

/// Supported CPU architectures (host == guest for a hardware-virtualized VM).
#[derive(Clone, Copy, PartialEq, Eq, Debug, Structural)]
pub enum Arch {
    X86_64,
    Aarch64,
}

impl Arch {
    /// The architecture named by `std::env::consts::ARCH`, when supported.
    pub fn current(arch: &str) -> (r: Option<Arch>)
        ensures
            r == (if arch@ == "x86_64"@ {
                Some(Arch::X86_64)
            } else if arch@ == "aarch64"@ || arch@ == "arm64"@ {
                Some(Arch::Aarch64)
            } else {
                None
            }),
    {
        if str_eq(arch, "x86_64") {
            Some(Arch::X86_64)
        } else if str_eq(arch, "aarch64") || str_eq(arch, "arm64") {
            Some(Arch::Aarch64)
        } else {
            None
        }
    }

    /// Canonical slug used in artifact filenames.
    pub fn slug(self) -> (r: &'static str)
        ensures
            r@ == (if self == Arch::X86_64 {
                "x86_64"@
            } else {
                "aarch64"@
            }),
    {
        match self {
            Arch::X86_64 => "x86_64",
            Arch::Aarch64 => "aarch64",
        }
    }

    /// The `uname -m` / release name BSD image URLs use.
    pub fn bsd_machine(self) -> (r: &'static str)
        ensures
            r@ == (if self == Arch::X86_64 {
                "amd64"@
            } else {
                "aarch64"@
            }),
    {
        match self {
            Arch::X86_64 => "amd64",
            Arch::Aarch64 => "aarch64",
        }
    }

    /// The architecture name Unikraft's `kraft` uses.
    pub fn uk_slug(self) -> (r: &'static str)
        ensures
            r@ == (if self == Arch::X86_64 {
                "x86_64"@
            } else {
                "arm64"@
            }),
    {
        match self {
            Arch::X86_64 => "x86_64",
            Arch::Aarch64 => "arm64",
        }
    }

    /// The OCI platform architecture (`linux/<oci>`).
    pub fn oci(self) -> (r: &'static str)
        ensures
            r@ == (if self == Arch::X86_64 {
                "amd64"@
            } else {
                "arm64"@
            }),
    {
        match self {
            Arch::X86_64 => "amd64",
            Arch::Aarch64 => "arm64",
        }
    }
}

/// Guest OS an agent is built for.
#[derive(Clone, Copy, PartialEq, Eq, Debug, Structural)]
pub enum GuestOs {
    Linux,
    Freebsd,
    Netbsd,
}

impl GuestOs {
    pub fn slug(self) -> (r: &'static str)
        ensures
            r@ == (match self {
                GuestOs::Linux => "linux"@,
                GuestOs::Freebsd => "freebsd"@,
                GuestOs::Netbsd => "netbsd"@,
            }),
    {
        match self {
            GuestOs::Linux => "linux",
            GuestOs::Freebsd => "freebsd",
            GuestOs::Netbsd => "netbsd",
        }
    }
}

/// Whether a copy-on-write clone between two paths can work: both are on
/// one filesystem (the device of each path, or of its nearest existing
/// ancestor, when it could be read).
pub fn same_device(a: Option<u64>, b: Option<u64>) -> (r: bool)
    ensures
        r == (a is Some && b is Some && a->0 == b->0),
{
    match (a, b) {
        (Some(x), Some(y)) => x == y,
        _ => false,
    }
}

/// The KVM device node every hardware-virtualized VM on Linux needs.
pub const KVM_DEV: &'static str = "/dev/kvm";

/// The KVM userspace API version every VMM expects.
pub const KVM_API_VERSION: i32 = 12;

/// Why `/dev/kvm` isn't usable.
#[derive(Debug, PartialEq, Eq)]
pub enum KvmProblem {
    /// No device node at all.
    Missing,
    /// Something is at `/dev/kvm`, but it isn't a character device.
    NotADevice,
    /// The node exists but this user can't open it read-write.
    Permission,
    /// Another hypervisor holds the CPU's virtualization extensions.
    Busy,
    /// Any other open failure, or an ioctl that didn't come back.
    OpenFailed(String),
    /// It opened, but it isn't speaking the KVM API we expect.
    ApiVersion(i32),
}

/// Host facts that decide which advice a `/dev/kvm` failure deserves.
#[derive(Debug, Default)]
pub struct KvmFacts {
    /// `vmx` (Intel) / `svm` (AMD) in `/proc/cpuinfo`; `None` on arm64.
    pub cpu_virt_flag: Option<&'static str>,
    /// A `kvm_intel` / `kvm_amd` / `kvm` module is loaded.
    pub module_loaded: bool,
    /// We're inside a container.
    pub in_container: bool,
    /// Group that owns the node, and its mode.
    pub owner_group: Option<String>,
    pub mode: Option<u32>,
}

/// The hint for a container that was not given the device.
pub const HINT_CONTAINER: &'static str = "This looks like a container \u{2014} start it with `--device /dev/kvm` (and make sure the host itself has KVM).";

/// The hint for an x86 CPU without virtualization extensions.
pub const HINT_NO_VIRT: &'static str = "This CPU advertises no virtualization extensions (no `vmx`/`svm` in /proc/cpuinfo). Enable VT-x / AMD-V in the BIOS/UEFI \u{2014} or, if this machine is itself a VM, enable nested virtualization on its host.";

/// The hint on arm64, where KVM is built into the kernel.
pub const HINT_ARM64: &'static str = "KVM is built into arm64 kernels, so a missing node means the kernel didn't come up at EL2 \u{2014} usually because this machine is itself a VM on a host without nested virtualization. Check `dmesg | grep -i kvm`.";

/// The hint when the module is loaded but the node is missing.
pub const HINT_UDEV: &'static str = "The KVM module is loaded but the device node is missing \u{2014} check udev (`sudo udevadm trigger`) and `dmesg | grep -i kvm`.";

/// What to try when the node is missing: a container first, then a CPU
/// without extensions (x86), arm64's built-in KVM, an unloaded module (named
/// for the CPU's vendor), and last udev.
pub open spec fn missing_hint(f: KvmFacts, x86: bool) -> Seq<char> {
    if f.in_container {
        HINT_CONTAINER@
    } else if x86 && f.cpu_virt_flag is None {
        HINT_NO_VIRT@
    } else if !x86 {
        HINT_ARM64@
    } else if !f.module_loaded {
        "The KVM module isn't loaded \u{2014} try `sudo modprobe "@ + (if f.cpu_virt_flag matches Some(
            v,
        ) && v@ == "svm"@ {
            "kvm_amd"@
        } else {
            "kvm_intel"@
        }) + "`."@
    } else {
        HINT_UDEV@
    }
}

/// The group named in the permission advice: the node's owner, else `kvm`.
pub open spec fn advice_group(f: KvmFacts) -> Seq<char> {
    match f.owner_group {
        Some(g) => g@,
        None => "kvm"@,
    }
}

/// The message a user sees for a probe failure on this host.
pub open spec fn kvm_advice_spec(p: KvmProblem, f: KvmFacts, x86: bool) -> Seq<char> {
    match p {
        KvmProblem::Missing => KVM_DEV@ + " does not exist, so this host can't run a machine.\n"@
            + missing_hint(f, x86),
        KvmProblem::NotADevice => KVM_DEV@
            + " exists but is not a character device \u{2014} something has replaced the KVM node. Remove it and reload the kvm module."@,
        KvmProblem::Permission => KVM_DEV@ + " exists but this user can't open it read-write"@ + (
        match f.mode {
            Some(m) => " (mode "@ + zero_pad(octal(m as nat), 4) + ", group `"@ + advice_group(f)
                + "`)"@,
            None => Seq::empty(),
        }) + ".\nJoin the owning group, then start a new login session:\n    sudo usermod -aG "@
            + advice_group(f) + " $USER\n`newgrp "@ + advice_group(f)
            + "` picks it up in this shell without logging out."@,
        KvmProblem::Busy => KVM_DEV@
            + " is busy \u{2014} another hypervisor (VirtualBox, VMware) is holding the CPU's virtualization extensions. Stop it and retry."@,
        KvmProblem::OpenFailed(e) => KVM_DEV@ + " could not be opened: "@ + e@,
        KvmProblem::ApiVersion(v) => KVM_DEV@ + " reports KVM API version "@ + signed_decimal(v as int)
            + ", but "@ + decimal(12) + " is required."@,
    }
}

fn push_missing_hint(out: &mut Vec<char>, f: &KvmFacts, x86: bool)
    ensures
        final(out)@ == old(out)@ + missing_hint(*f, x86),
{
    if f.in_container {
        push_str(out, HINT_CONTAINER);
    } else if x86 && f.cpu_virt_flag.is_none() {
        push_str(out, HINT_NO_VIRT);
    } else if !x86 {
        push_str(out, HINT_ARM64);
    } else if !f.module_loaded {
        let amd = match f.cpu_virt_flag {
            Some(v) => str_eq(v, "svm"),
            None => false,
        };
        let ghost pre = out@;
        push_str(out, "The KVM module isn't loaded \u{2014} try `sudo modprobe ");
        push_str(
            out,
            if amd {
                "kvm_amd"
            } else {
                "kvm_intel"
            },
        );
        push_str(out, "`.");
        assert(out@ =~= pre + missing_hint(*f, x86));
    } else {
        push_str(out, HINT_UDEV);
    }
}

/// Turn a probe failure plus host facts into the message the user sees:
/// what's wrong, and the command that fixes it on this host. `x86` says
/// whether the host is x86_64 (where a CPU flag tells whether
/// virtualization is there at all).
pub fn kvm_advice(problem: &KvmProblem, facts: &KvmFacts, x86: bool) -> (r: String)
    ensures
        r@ == kvm_advice_spec(*problem, *facts, x86),
{
    let mut out: Vec<char> = Vec::new();
    push_str(&mut out, KVM_DEV);
    match problem {
        KvmProblem::Missing => {
            push_str(&mut out, " does not exist, so this host can't run a machine.\n");
            push_missing_hint(&mut out, facts, x86);
        },
        KvmProblem::NotADevice => {
            push_str(
                &mut out,
                " exists but is not a character device \u{2014} something has replaced the KVM node. Remove it and reload the kvm module.",
            );
        },
        KvmProblem::Permission => {
            let group: String = match &facts.owner_group {
                Some(g) => g.clone(),
                None => String::from_str("kvm"),
            };
            push_str(&mut out, " exists but this user can't open it read-write");
            match facts.mode {
                Some(m) => {
                    push_str(&mut out, " (mode ");
                    let o = octal_chars(m as u64);
                    let padded = zero_pad_chars(&o, 4);
                    push_chars(&mut out, &padded);
                    push_str(&mut out, ", group `");
                    push_str(&mut out, group.as_str());
                    push_str(&mut out, "`)");
                },
                None => {},
            }
            push_str(&mut out, ".\nJoin the owning group, then start a new login session:\n    sudo usermod -aG ");
            push_str(&mut out, group.as_str());
            push_str(&mut out, " $USER\n`newgrp ");
            push_str(&mut out, group.as_str());
            push_str(&mut out, "` picks it up in this shell without logging out.");
        },
        KvmProblem::Busy => {
            push_str(
                &mut out,
                " is busy \u{2014} another hypervisor (VirtualBox, VMware) is holding the CPU's virtualization extensions. Stop it and retry.",
            );
        },
        KvmProblem::OpenFailed(e) => {
            push_str(&mut out, " could not be opened: ");
            push_str(&mut out, e.as_str());
        },
        KvmProblem::ApiVersion(v) => {
            push_str(&mut out, " reports KVM API version ");
            let d = i64_chars(*v as i64);
            push_chars(&mut out, &d);
            push_str(&mut out, ", but ");
            let t = decimal_chars(12);
            push_chars(&mut out, &t);
            push_str(&mut out, " is required.");
        },
    }
    assert(out@ =~= kvm_advice_spec(*problem, *facts, x86));
    string_of(out.as_slice())
}

/// Everything `bsdkrun kvm` reports: the verdict, plus the host facts that
/// explain it.
#[derive(Debug)]
pub struct KvmStatus {
    pub device: &'static str,
    /// `Ok(api_version)` when a machine can boot here.
    pub result: Result<i32, KvmProblem>,
    pub facts: KvmFacts,
}

/// The short verdict for the first line of the report.
pub open spec fn headline_spec(result: Result<i32, KvmProblem>) -> Seq<char> {
    match result {
        Ok(v) => "ok (KVM API version "@ + signed_decimal(v as int) + ")"@,
        Err(KvmProblem::Missing) => "missing"@,
        Err(KvmProblem::NotADevice) => "not a character device"@,
        Err(KvmProblem::Permission) => "permission denied"@,
        Err(KvmProblem::Busy) => "busy"@,
        Err(KvmProblem::OpenFailed(e)) => "unusable ("@ + e@ + ")"@,
        Err(KvmProblem::ApiVersion(v)) => "unexpected API version "@ + signed_decimal(v as int),
    }
}

/// The lines `bsdkrun kvm` prints about the device and the host.
pub open spec fn kvm_report_spec(s: KvmStatus) -> Seq<Seq<char>> {
    let f = s.facts;
    let head = seq![pad_end(s.device@, 14) + " "@ + headline_spec(s.result)];
    let node = match f.mode {
        Some(m) => seq![
            pad_end("node"@, 14) + " mode "@ + zero_pad(octal(m as nat), 4) + ", group "@ + match f.owner_group {
                Some(g) => g@,
                None => "?"@,
            },
        ],
        None => Seq::empty(),
    };
    let module = seq![
        pad_end("kvm module"@, 14) + " "@ + (if f.module_loaded {
            "loaded"@
        } else {
            "not loaded"@
        }),
    ];
    let cpu = seq![
        pad_end("cpu virt"@, 14) + " "@ + match f.cpu_virt_flag {
            Some(flag) => flag@,
            None => "not advertised"@,
        },
    ];
    let container = if f.in_container {
        seq![pad_end("container"@, 14) + " yes"@]
    } else {
        Seq::empty()
    };
    head + node + module + cpu + container
}

impl KvmStatus {
    /// A machine can boot here.
    pub fn is_ok(&self) -> (r: bool)
        ensures
            r == self.result is Ok,
    {
        self.result.is_ok()
    }

    /// The fix for whatever is wrong, or `None` when nothing is.
    pub fn advice(&self, x86: bool) -> (r: Option<String>)
        ensures
            match self.result {
                Ok(_) => r is None,
                Err(p) => r matches Some(s) && s@ == kvm_advice_spec(p, self.facts, x86),
            },
    {
        match &self.result {
            Ok(_) => None,
            Err(p) => Some(kvm_advice(p, &self.facts, x86)),
        }
    }

    /// Short verdict for the first line of the report.
    pub fn headline(&self) -> (r: String)
        ensures
            r@ == headline_spec(self.result),
    {
        let mut out: Vec<char> = Vec::new();
        match &self.result {
            Ok(v) => {
                push_str(&mut out, "ok (KVM API version ");
                let d = i64_chars(*v as i64);
                push_chars(&mut out, &d);
                push_str(&mut out, ")");
            },
            Err(KvmProblem::Missing) => push_str(&mut out, "missing"),
            Err(KvmProblem::NotADevice) => push_str(&mut out, "not a character device"),
            Err(KvmProblem::Permission) => push_str(&mut out, "permission denied"),
            Err(KvmProblem::Busy) => push_str(&mut out, "busy"),
            Err(KvmProblem::OpenFailed(e)) => {
                push_str(&mut out, "unusable (");
                push_str(&mut out, e.as_str());
                push_str(&mut out, ")");
            },
            Err(KvmProblem::ApiVersion(v)) => {
                push_str(&mut out, "unexpected API version ");
                let d = i64_chars(*v as i64);
                push_chars(&mut out, &d);
            },
        }
        assert(out@ =~= headline_spec(self.result));
        string_of(out.as_slice())
    }

    /// The lines of `bsdkrun kvm`: the device and its verdict, the node's
    /// mode and group, the module, the CPU flag, and whether this is a
    /// container.
    pub fn report(&self) -> (r: Vec<String>)
        ensures
            r@.map_values(|l: String| l@) == kvm_report_spec(*self),
    {
        let mut lines: Vec<String> = Vec::new();
        let mut l: Vec<char> = Vec::new();
        push_pad_end(&mut l, &chars_of(self.device), 14);
        push_str(&mut l, " ");
        let h = self.headline();
        push_str(&mut l, h.as_str());
        lines.push(string_of(l.as_slice()));
        if let Some(mode) = self.facts.mode {
            let mut n: Vec<char> = Vec::new();
            push_pad_end(&mut n, &chars_of("node"), 14);
            push_str(&mut n, " mode ");
            let o = zero_pad_chars(&octal_chars(mode as u64), 4);
            push_chars(&mut n, &o);
            push_str(&mut n, ", group ");
            match &self.facts.owner_group {
                Some(g) => push_str(&mut n, g.as_str()),
                None => push_str(&mut n, "?"),
            }
            lines.push(string_of(n.as_slice()));
        }
        let mut m: Vec<char> = Vec::new();
        push_pad_end(&mut m, &chars_of("kvm module"), 14);
        push_str(&mut m, " ");
        if self.facts.module_loaded {
            push_str(&mut m, "loaded");
        } else {
            push_str(&mut m, "not loaded");
        }
        lines.push(string_of(m.as_slice()));
        let mut c: Vec<char> = Vec::new();
        push_pad_end(&mut c, &chars_of("cpu virt"), 14);
        push_str(&mut c, " ");
        match self.facts.cpu_virt_flag {
            Some(f) => push_str(&mut c, f),
            None => push_str(&mut c, "not advertised"),
        }
        lines.push(string_of(c.as_slice()));
        if self.facts.in_container {
            let mut k: Vec<char> = Vec::new();
            push_pad_end(&mut k, &chars_of("container"), 14);
            push_str(&mut k, " yes");
            lines.push(string_of(k.as_slice()));
        }
        assert(lines@.map_values(|l: String| l@) =~= kvm_report_spec(*self));
        lines
    }
}

/// Whether this host can run a hardware-virtualized machine, from the probe
/// of `/dev/kvm`: on a failure, the advice is the error. Off Linux there is
/// no device to probe (`linux` false) and the check passes.
pub fn check_kvm(linux: bool, result: &Result<i32, KvmProblem>, facts: &KvmFacts, x86: bool) -> (r: Result<
    (),
    String,
>)
    ensures
        !linux ==> r is Ok,
        linux ==> match *result {
            Ok(_) => r is Ok,
            Err(p) => r matches Err(s) && s@ == kvm_advice_spec(p, *facts, x86),
        },
{
    if !linux {
        return Ok(());
    }
    match result {
        Ok(_) => Ok(()),
        Err(p) => Err(kvm_advice(p, facts, x86)),
    }
}

/// The one-line KVM summary for `bsdkrun probe`: the device and its API
/// version, or the advice; `None` off Linux.
pub open spec fn kvm_summary_spec(linux: bool, result: Result<i32, KvmProblem>, f: KvmFacts, x86: bool) -> Option<
    Seq<char>,
> {
    if !linux {
        None
    } else {
        match result {
            Ok(v) => Some(KVM_DEV@ + ": ok (KVM API version "@ + signed_decimal(v as int) + ")"@),
            Err(p) => Some(kvm_advice_spec(p, f, x86)),
        }
    }
}

/// One-line summary of the KVM state.
pub fn kvm_summary(linux: bool, result: &Result<i32, KvmProblem>, facts: &KvmFacts, x86: bool) -> (r: Option<
    String,
>)
    ensures
        match r {
            Some(s) => kvm_summary_spec(linux, *result, *facts, x86) == Some(s@),
            None => kvm_summary_spec(linux, *result, *facts, x86) is None,
        },
{
    if !linux {
        return None;
    }
    match result {
        Ok(v) => {
            let mut out: Vec<char> = Vec::new();
            push_str(&mut out, KVM_DEV);
            push_str(&mut out, ": ok (KVM API version ");
            let d = i64_chars(*v as i64);
            push_chars(&mut out, &d);
            push_str(&mut out, ")");
            Some(string_of(out.as_slice()))
        },
        Err(p) => Some(kvm_advice(p, facts, x86)),
    }
}

/// `w` is one of the whitespace-separated words of `line`.
pub open spec fn has_word(line: Seq<char>, w: Seq<char>) -> bool {
    exists|i: int|
        0 <= i <= line.len() - w.len() && #[trigger] line.subrange(i, i + w.len()) == w && (i == 0
            || is_ws(line[i - 1])) && (i + w.len() == line.len() || is_ws(line[i + w.len()]))
}

/// The first line of `cpuinfo` that lists CPU flags, if any.
pub open spec fn flags_line(lines: Seq<Seq<char>>) -> Option<Seq<char>>
    decreases lines.len(),
{
    if lines.len() == 0 {
        None
    } else if starts_with(lines[0], "flags"@) || starts_with(lines[0], "Features"@) {
        Some(lines[0])
    } else {
        flags_line(lines.drop_first())
    }
}

/// The virtualization flag `/proc/cpuinfo` advertises on its first flags
/// line: `vmx` before `svm`, else none.
pub open spec fn cpu_virt_flag_spec(cpuinfo: Seq<char>) -> Option<Seq<char>> {
    match flags_line(lines_spec(cpuinfo)) {
        Some(l) => if has_word(l, "vmx"@) {
            Some("vmx"@)
        } else if has_word(l, "svm"@) {
            Some("svm"@)
        } else {
            None
        },
        None => None,
    }
}

fn word_in(line: &Vec<char>, w: &str) -> (r: bool)
    ensures
        r == has_word(line@, w@),
{
    let wc = chars_of(w);
    let n = line.len();
    if wc.len() > n {
        return false;
    }
    let mut i: usize = 0;
    while i <= n - wc.len()
        invariant
            wc@ == w@,
            n == line@.len(),
            wc.len() <= n,
            i <= n - wc.len() + 1,
            forall|k: int|
                0 <= k < i ==> !(#[trigger] line@.subrange(k, k + wc@.len()) == wc@ && (k == 0 || is_ws(
                    line@[k - 1],
                )) && (k + wc@.len() == line@.len() || is_ws(line@[k + wc@.len()]))),
        decreases n - wc.len() + 1 - i,
    {
        let mut same = true;
        let mut j: usize = 0;
        while j < wc.len()
            invariant
                j <= wc.len(),
                i + wc.len() <= n,
                n == line@.len(),
                same ==> forall|t: int| 0 <= t < j ==> line@[i + t] == wc@[t],
                !same ==> line@.subrange(i as int, i + wc@.len()) != wc@,
            decreases wc.len() - j,
        {
            if line[i + j] != wc[j] {
                assert(line@.subrange(i as int, i + wc@.len())[j as int] != wc@[j as int]);
                same = false;
            }
            j += 1;
        }
        if same {
            assert(line@.subrange(i as int, i + wc@.len()) =~= wc@);
        }
        let before = i == 0 || is_ws_exec(line[i - 1]);
        let after = i + wc.len() == n || is_ws_exec(line[i + wc.len()]);
        if same && before && after {
            return true;
        }
        if i == n - wc.len() {
            proof {
                assert forall|k: int| 0 <= k <= n - wc@.len() implies !(#[trigger] line@.subrange(
                    k,
                    k + wc@.len(),
                ) == wc@ && (k == 0 || is_ws(line@[k - 1])) && (k + wc@.len() == line@.len() || is_ws(
                    line@[k + wc@.len()],
                ))) by {}
            }
            return false;
        }
        i += 1;
    }
    false
}

/// A KVM module is listed in `/proc/modules`: a line whose first word is
/// `kvm`, `kvm_intel` or `kvm_amd`.
pub open spec fn kvm_module_loaded_spec(modules: Seq<char>) -> bool {
    exists|i: int|
        0 <= i < lines_spec(modules).len() && {
            let w = #[trigger] first_word(lines_spec(modules)[i]);
            w == "kvm"@ || w == "kvm_intel"@ || w == "kvm_amd"@
        }
}

/// Whether `/proc/modules` lists a KVM module.
pub fn kvm_module_loaded(modules: &str) -> (r: bool)
    ensures
        r == kvm_module_loaded_spec(modules@),
{
    let c = chars_of(modules);
    let lines = split_lines(&c);
    let ghost all = lines@.map_values(|l: Vec<char>| l@);
    let kvm = chars_of("kvm");
    let intel = chars_of("kvm_intel");
    let amd = chars_of("kvm_amd");
    let mut i: usize = 0;
    while i < lines.len()
        invariant
            i <= lines@.len(),
            all == lines@.map_values(|l: Vec<char>| l@),
            all == lines_spec(modules@),
            kvm@ == "kvm"@,
            intel@ == "kvm_intel"@,
            amd@ == "kvm_amd"@,
            forall|k: int|
                0 <= k < i ==> {
                    let w = #[trigger] first_word(all[k]);
                    !(w == "kvm"@ || w == "kvm_intel"@ || w == "kvm_amd"@)
                },
        decreases lines.len() - i,
    {
        assert(all[i as int] == lines@[i as int]@);
        let w = first_word_chars(&lines[i]);
        if vec_eq(&w, &kvm) || vec_eq(&w, &intel) || vec_eq(&w, &amd) {
            return true;
        }
        i += 1;
    }
    false
}

/// The virtualization flag `/proc/cpuinfo` advertises, if any. Only
/// meaningful on x86: arm64 kernels don't list one.
pub fn cpu_virt_flag(cpuinfo: &str) -> (r: Option<&'static str>)
    ensures
        match r {
            Some(f) => cpu_virt_flag_spec(cpuinfo@) == Some(f@),
            None => cpu_virt_flag_spec(cpuinfo@) is None,
        },
{
    let c = chars_of(cpuinfo);
    let lines = split_lines(&c);
    let ghost all = lines@.map_values(|l: Vec<char>| l@);
    let flags = chars_of("flags");
    let features = chars_of("Features");
    let mut i: usize = 0;
    assert(all.subrange(0, all.len() as int) =~= all);
    while i < lines.len()
        invariant
            i <= lines@.len(),
            all == lines@.map_values(|l: Vec<char>| l@),
            all == lines_spec(cpuinfo@),
            flags@ == "flags"@,
            features@ == "Features"@,
            flags_line(all) == flags_line(all.subrange(i as int, all.len() as int)),
        decreases lines.len() - i,
    {
        let ghost rest = all.subrange(i as int, all.len() as int);
        assert(rest[0] == lines@[i as int]@);
        assert(rest.drop_first() =~= all.subrange(i + 1, all.len() as int));
        if vec_starts_with(&lines[i], &flags) || vec_starts_with(&lines[i], &features) {
            let l = &lines[i];
            if word_in(l, "vmx") {
                return Some("vmx");
            } else if word_in(l, "svm") {
                return Some("svm");
            } else {
                return None;
            }
        }
        i += 1;
    }
    None
}

/// The name `/etc/group` gives a gid: the first line whose third field
/// parses as a number equal to it (`name:passwd:gid:members`).
pub open spec fn group_name_spec(lines: Seq<Seq<char>>, gid: u32) -> Option<Seq<char>>
    decreases lines.len(),
{
    if lines.len() == 0 {
        None
    } else {
        let f = split_spec(lines[0], ':');
        if f.len() >= 3 && parse_uint_spec(f[2], u32::MAX as nat) == Some(gid as nat) {
            Some(f[0])
        } else {
            group_name_spec(lines.drop_first(), gid)
        }
    }
}

/// Look a gid up in `/etc/group` contents.
pub fn group_name(etc_group: &str, gid: u32) -> (r: Option<String>)
    ensures
        match r {
            Some(s) => group_name_spec(lines_spec(etc_group@), gid) == Some(s@),
            None => group_name_spec(lines_spec(etc_group@), gid) is None,
        },
{
    let c = chars_of(etc_group);
    let lines = split_lines(&c);
    let ghost all = lines@.map_values(|l: Vec<char>| l@);
    let mut i: usize = 0;
    assert(all.subrange(0, all.len() as int) =~= all);
    while i < lines.len()
        invariant
            i <= lines@.len(),
            all == lines@.map_values(|l: Vec<char>| l@),
            all == lines_spec(etc_group@),
            group_name_spec(all, gid) == group_name_spec(all.subrange(i as int, all.len() as int), gid),
        decreases lines.len() - i,
    {
        let ghost rest = all.subrange(i as int, all.len() as int);
        assert(rest[0] == lines@[i as int]@);
        assert(rest.drop_first() =~= all.subrange(i + 1, all.len() as int));
        let fields = split_at_char(&lines[i], ':');
        let ghost fv = fields@.map_values(|l: Vec<char>| l@);
        if fields.len() >= 3 {
            assert(fv[2] == fields@[2]@);
            match parse_u32(&fields[2]) {
                Some(found) => {
                    if found == gid {
                        assert(fv[0] == fields@[0]@);
                        return Some(string_of(fields[0].as_slice()));
                    }
                },
                None => {},
            }
        }
        i += 1;
    }
    None
}

/// The advice for a missing `/dev/kvm` follows the host, in this order: in
/// a container it is always to pass the device through; on an x86 CPU
/// without extensions it points at the firmware whether or not a module is
/// loaded; on arm64 it is about EL2, never a module to load.
pub proof fn missing_node_advice_priorities(f: KvmFacts, x86: bool)
    ensures
        f.in_container ==> kvm_advice_spec(KvmProblem::Missing, f, x86) == KVM_DEV@
            + " does not exist, so this host can't run a machine.\n"@ + HINT_CONTAINER@,
        !f.in_container && x86 && f.cpu_virt_flag is None ==> kvm_advice_spec(KvmProblem::Missing, f, x86)
            == KVM_DEV@ + " does not exist, so this host can't run a machine.\n"@ + HINT_NO_VIRT@,
        !f.in_container && !x86 ==> kvm_advice_spec(KvmProblem::Missing, f, x86) == KVM_DEV@
            + " does not exist, so this host can't run a machine.\n"@ + HINT_ARM64@,
{
}

} // verus!
