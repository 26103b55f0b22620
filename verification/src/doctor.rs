//! `bsdkrun doctor`: check that this host can actually run machines, and say
//! what to do about it when it can't. Each check turns a few host facts
//! into a verdict, a detail line and, when something is wrong, a fix.

use vstd::prelude::*;

use crate::host::Arch;
use crate::text::{
    chars_of, contains_seq, opt_view, push_str, str_contains, string_of, trim, trim_chars,
};

verus! {

/// How a single check came out.
#[derive(Debug, Clone, Copy, PartialEq, Eq, Structural)]
pub enum State {
    /// Working.
    Good,
    /// Works, but something will be missing or slower.
    Warn,
    /// Machines will not run until this is fixed.
    Fail,
}

impl State {
    /// The four-column marker in front of a check's line.
    pub fn marker(self) -> (r: &'static str)
        ensures
            r@ == (match self {
                State::Good => "ok  "@,
                State::Warn => "warn"@,
                State::Fail => "FAIL"@,
            }),
    {
        match self {
            State::Good => "ok  ",
            State::Warn => "warn",
            State::Fail => "FAIL",
        }
    }
}

/// One check's outcome.
#[derive(Debug)]
pub struct Check {
    pub name: &'static str,
    pub state: State,
    pub detail: String,
    /// What to do about it. Only set when there is something to do.
    pub fix: Option<String>,
}

/// A check as values.
pub struct CheckView {
    pub name: Seq<char>,
    pub state: State,
    pub detail: Seq<char>,
    pub fix: Option<Seq<char>>,
}

impl View for Check {
    type V = CheckView;

    open spec fn view(&self) -> CheckView {
        CheckView {
            name: self.name@,
            state: self.state,
            detail: self.detail@,
            fix: match self.fix {
                Some(f) => Some(f@),
                None => None,
            },
        }
    }
}

pub open spec fn ok_view(name: Seq<char>, detail: Seq<char>) -> CheckView {
    CheckView { name, state: State::Good, detail, fix: None }
}

pub open spec fn warn_view(name: Seq<char>, detail: Seq<char>, fix: Seq<char>) -> CheckView {
    CheckView { name, state: State::Warn, detail, fix: Some(fix) }
}

pub open spec fn fail_view(name: Seq<char>, detail: Seq<char>, fix: Seq<char>) -> CheckView {
    CheckView { name, state: State::Fail, detail, fix: Some(fix) }
}

impl Check {
    pub fn ok(name: &'static str, detail: String) -> (r: Check)
        ensures
            r@ == ok_view(name@, detail@),
    {
        Check { name, state: State::Good, detail, fix: None }
    }

    pub fn warn(name: &'static str, detail: String, fix: String) -> (r: Check)
        ensures
            r@ == warn_view(name@, detail@, fix@),
    {
        Check { name, state: State::Warn, detail, fix: Some(fix) }
    }

    pub fn fail(name: &'static str, detail: String, fix: String) -> (r: Check)
        ensures
            r@ == fail_view(name@, detail@, fix@),
    {
        Check { name, state: State::Fail, detail, fix: Some(fix) }
    }
}

fn cat2(a: &str, b: &str) -> (r: String)
    ensures
        r@ == a@ + b@,
{
    let mut v: Vec<char> = Vec::new();
    push_str(&mut v, a);
    push_str(&mut v, b);
    string_of(v.as_slice())
}

fn cat3(a: &str, b: &str, c: &str) -> (r: String)
    ensures
        r@ == a@ + b@ + c@,
{
    let mut v: Vec<char> = Vec::new();
    push_str(&mut v, a);
    push_str(&mut v, b);
    push_str(&mut v, c);
    string_of(v.as_slice())
}

/// Whether `program` is on `PATH` (`found` is where `which` found it), and
/// whether its absence is fatal.
pub open spec fn tool_spec(program: Seq<char>, required: bool, why: Seq<char>, found: Option<Seq<char>>) -> CheckView {
    match found {
        Some(path) => ok_view(program, path),
        None => if required {
            fail_view(
                program,
                "not on PATH \u{2014} "@ + why,
                "brew install "@ + program + " (macOS), or your distribution's package"@,
            )
        } else {
            warn_view(program, "not on PATH \u{2014} "@ + why, "optional"@)
        },
    }
}

/// The check for one host tool.
pub fn tool(program: &'static str, required: bool, why: &str, found: Option<String>) -> (r: Check)
    ensures
        r@ == tool_spec(program@, required, why@, match found {
            Some(p) => Some(p@),
            None => None,
        }),
{
    match found {
        Some(path) => Check::ok(program, path),
        None => {
            let detail = cat2("not on PATH \u{2014} ", why);
            if required {
                Check::fail(program, detail, cat3("brew install ", program, " (macOS), or your distribution's package"))
            } else {
                Check::warn(program, detail, String::from_str("optional"))
            }
        },
    }
}

/// What `which` printed, as a path: nothing unless it succeeded and printed
/// something besides whitespace.
pub open spec fn which_spec(success: bool, stdout: Seq<char>) -> Option<Seq<char>> {
    if success && trim(stdout).len() > 0 {
        Some(trim(stdout))
    } else {
        None
    }
}

/// Where `which` found a program, from its exit status and output.
pub fn which_path(success: bool, stdout: &str) -> (r: Option<String>)
    ensures
        match r {
            Some(p) => which_spec(success, stdout@) == Some(p@),
            None => which_spec(success, stdout@) is None,
        },
{
    if !success {
        return None;
    }
    let c = chars_of(stdout);
    let t = trim_chars(&c);
    if t.len() == 0 {
        None
    } else {
        Some(string_of(t.as_slice()))
    }
}

/// Whether a VM can be created: without the `boot` feature it cannot; a KVM
/// problem fails with its advice; then the result of creating a VM context.
pub open spec fn hypervisor_spec(
    boot: bool,
    macos: bool,
    kvm: Result<(), Seq<char>>,
    ctx: Result<(), Seq<char>>,
) -> CheckView {
    if !boot {
        warn_view(
            "hypervisor"@,
            "this build cannot start machines (compiled without `boot`)"@,
            "use the bsdkrun CLI binary rather than a daemon-only build"@,
        )
    } else {
        match kvm {
            Err(e) => fail_view("hypervisor"@, e, "on Linux, load kvm and add yourself to the kvm group"@),
            Ok(()) => match ctx {
                Ok(()) => ok_view("hypervisor"@, "libkrun linked; a VM context was created"@),
                Err(e) => fail_view(
                    "hypervisor"@,
                    e,
                    if macos {
                        "an EINVAL here is almost always a stripped code signature \u{2014} see the next line"@
                    } else {
                        "check that /dev/kvm exists and is accessible"@
                    },
                ),
            },
        }
    }
}

pub open spec fn res_view(r: Result<(), String>) -> Result<(), Seq<char>> {
    match r {
        Ok(()) => Ok(()),
        Err(e) => Err(e@),
    }
}

pub open spec fn res_str_view(r: Result<String, String>) -> Result<Seq<char>, Seq<char>> {
    match r {
        Ok(s) => Ok(s@),
        Err(e) => Err(e@),
    }
}

/// The hypervisor check.
pub fn hypervisor(boot: bool, macos: bool, kvm: Result<(), String>, ctx: Result<(), String>) -> (r: Check)
    ensures
        r@ == hypervisor_spec(boot, macos, res_view(kvm), res_view(ctx)),
{
    if !boot {
        return Check::warn(
            "hypervisor",
            String::from_str("this build cannot start machines (compiled without `boot`)"),
            String::from_str("use the bsdkrun CLI binary rather than a daemon-only build"),
        );
    }
    match kvm {
        Err(e) => Check::fail("hypervisor", e, String::from_str("on Linux, load kvm and add yourself to the kvm group")),
        Ok(()) => match ctx {
            Ok(()) => Check::ok("hypervisor", String::from_str("libkrun linked; a VM context was created")),
            Err(e) => Check::fail(
                "hypervisor",
                e,
                String::from_str(
                    if macos {
                        "an EINVAL here is almost always a stripped code signature \u{2014} see the next line"
                    } else {
                        "check that /dev/kvm exists and is accessible"
                    },
                ),
            ),
        },
    }
}

/// What `codesign` said about this binary.
#[derive(Debug)]
pub enum Signature {
    /// This binary's path could not be found.
    NoExe(String),
    /// `codesign` could not be run.
    NoCodesign(String),
    /// `codesign` ran; what it printed on stdout and stderr.
    Printed(String, String),
}

pub const HYPERVISOR_ENTITLEMENT: &'static str = "com.apple.security.hypervisor";

/// macOS refuses a VM to a process without the hypervisor entitlement, and
/// an entitlement only counts inside a signature.
pub open spec fn signature_spec(s: Signature) -> CheckView {
    match s {
        Signature::NoExe(e) => warn_view("code signature"@, "cannot locate this binary: "@ + e@, ""@),
        Signature::NoCodesign(e) => warn_view("code signature"@, "could not run codesign: "@ + e@, ""@),
        Signature::Printed(out, err) => if contains_seq(out@, HYPERVISOR_ENTITLEMENT@) || contains_seq(
            err@,
            HYPERVISOR_ENTITLEMENT@,
        ) {
            ok_view("code signature"@, "signed, with the hypervisor entitlement"@)
        } else {
            fail_view(
                "code signature"@,
                "signed, but without com.apple.security.hypervisor \u{2014} krun_start_enter will fail with a bare EINVAL that says nothing about signing"@,
                "every `cargo build` relinks, and the linker's ad-hoc signature carries no \nentitlements. Re-sign:  make sign-release"@,
            )
        },
    }
}

/// The code-signature check (macOS).
pub fn signature(s: Signature) -> (r: Check)
    ensures
        r@ == signature_spec(s),
{
    match s {
        Signature::NoExe(e) => Check::warn("code signature", cat2("cannot locate this binary: ", e.as_str()), String::from_str("")),
        Signature::NoCodesign(e) => Check::warn("code signature", cat2("could not run codesign: ", e.as_str()), String::from_str("")),
        Signature::Printed(out, err) => {
            if str_contains(out.as_str(), HYPERVISOR_ENTITLEMENT) || str_contains(err.as_str(), HYPERVISOR_ENTITLEMENT) {
                Check::ok("code signature", String::from_str("signed, with the hypervisor entitlement"))
            } else {
                Check::fail(
                    "code signature",
                    String::from_str(
                        "signed, but without com.apple.security.hypervisor \u{2014} krun_start_enter will fail with a bare EINVAL that says nothing about signing",
                    ),
                    String::from_str(
                        "every `cargo build` relinks, and the linker's ad-hoc signature carries no \nentitlements. Re-sign:  make sign-release",
                    ),
                )
            }
        },
    }
}

/// gvproxy gives a guest a network, port forwards and the exec agent.
pub open spec fn networking_spec(gvproxy: Result<Seq<char>, Seq<char>>) -> CheckView {
    match gvproxy {
        Ok(p) => ok_view("networking"@, "gvproxy at "@ + p),
        Err(e) => warn_view(
            "networking"@,
            e,
            "brew install gvproxy \u{2014} without it machines boot with no network, so exec/cp/cache cannot reach them"@,
        ),
    }
}

/// The networking check, from where gvproxy was found (or why not).
pub fn networking(gvproxy: Result<String, String>) -> (r: Check)
    ensures
        r@ == networking_spec(res_str_view(gvproxy)),
{
    match gvproxy {
        Ok(p) => Check::ok("networking", cat2("gvproxy at ", p.as_str())),
        Err(e) => Check::warn(
            "networking",
            e,
            String::from_str(
                "brew install gvproxy \u{2014} without it machines boot with no network, so exec/cp/cache cannot reach them",
            ),
        ),
    }
}

/// What happened when a directory was checked for writing.
#[derive(Debug)]
pub struct WriteProbe {
    /// The directory, or why it could not be located.
    pub dir: Result<String, String>,
    /// Creating it (with its parents).
    pub create: Result<(), String>,
    /// Writing a probe file into it (which is then removed).
    pub write: Result<(), String>,
}

/// A directory bsdkrun writes to: it must be locatable, creatable, and
/// writable (creating can succeed on a read-only mount).
pub open spec fn writable_spec(name: Seq<char>, p: WriteProbe) -> CheckView {
    match p.dir {
        Err(e) => fail_view(name, e@, "set HOME"@),
        Ok(d) => match p.create {
            Err(e) => fail_view(name, d@ + " is not usable: "@ + e@, "check the permissions on it"@),
            Ok(()) => match p.write {
                Ok(()) => ok_view(name, d@),
                Err(e) => fail_view(name, d@ + " is not writable: "@ + e@, "check the permissions on it"@),
            },
        },
    }
}

/// The check for one directory bsdkrun writes to.
pub fn writable(name: &'static str, p: WriteProbe) -> (r: Check)
    ensures
        r@ == writable_spec(name@, p),
{
    match p.dir {
        Err(e) => Check::fail(name, e, String::from_str("set HOME")),
        Ok(d) => match p.create {
            Err(e) => Check::fail(name, cat3(d.as_str(), " is not usable: ", e.as_str()), String::from_str("check the permissions on it")),
            Ok(()) => match p.write {
                Ok(()) => Check::ok(name, d),
                Err(e) => Check::fail(
                    name,
                    cat3(d.as_str(), " is not writable: ", e.as_str()),
                    String::from_str("check the permissions on it"),
                ),
            },
        },
    }
}

/// The case-sensitive store (macOS): nix guests and kernel sources need it.
pub open spec fn store_spec(describe: Result<Seq<char>, Seq<char>>) -> CheckView {
    match describe {
        Ok(s) => if contains_seq(s, "case-INSENSITIVE"@) {
            warn_view(
                "store"@,
                s,
                "nix guests and Linux kernel sources need case-sensitive storage; bsdkrun creates it automatically on the next Linux run"@,
            )
        } else {
            ok_view("store"@, s)
        },
        Err(e) => warn_view("store"@, e, ""@),
    }
}

/// The store check.
pub fn store(describe: Result<String, String>) -> (r: Check)
    ensures
        r@ == store_spec(res_str_view(describe)),
{
    match describe {
        Ok(s) => {
            if str_contains(s.as_str(), "case-INSENSITIVE") {
                Check::warn(
                    "store",
                    s,
                    String::from_str(
                        "nix guests and Linux kernel sources need case-sensitive storage; bsdkrun creates it automatically on the next Linux run",
                    ),
                )
            } else {
                Check::ok("store", s)
            }
        },
        Err(e) => Check::warn("store", e, String::from_str("")),
    }
}

/// Where `bsdkrun cache` would put things.
#[derive(Debug)]
pub enum CacheBackend {
    /// The local disk store, described.
    Disk(String),
    /// A remote store, described, and whether its credentials are there.
    Remote(String, Result<(), String>),
    /// The store could not be opened.
    Unusable(String),
}

/// The cache check: a disk store is fine; a remote one needs credentials.
pub open spec fn cache_backend_spec(b: CacheBackend) -> CheckView {
    match b {
        CacheBackend::Disk(d) => ok_view("cache"@, d@),
        CacheBackend::Remote(d, Ok(())) => ok_view("cache"@, d@ + " (credentials present)"@),
        CacheBackend::Remote(d, Err(e)) => warn_view("cache"@, d@ + ": "@ + e@, ""@),
        CacheBackend::Unusable(e) => warn_view("cache"@, e@, ""@),
    }
}

/// The cache check.
pub fn cache_backend(b: CacheBackend) -> (r: Check)
    ensures
        r@ == cache_backend_spec(b),
{
    match b {
        CacheBackend::Disk(d) => Check::ok("cache", d),
        CacheBackend::Remote(d, Ok(())) => Check::ok("cache", cat2(d.as_str(), " (credentials present)")),
        CacheBackend::Remote(d, Err(e)) => Check::warn("cache", cat3(d.as_str(), ": ", e.as_str()), String::from_str("")),
        CacheBackend::Unusable(e) => Check::warn("cache", e, String::from_str("")),
    }
}

/// Everything `doctor` looks at, gathered from the host.
#[derive(Debug)]
pub struct Facts {
    pub macos: bool,
    /// Where `which` found `curl`, `tar` and `gzip`.
    pub curl: Option<String>,
    pub tar: Option<String>,
    pub gzip: Option<String>,
    /// Built with the `boot` feature.
    pub boot: bool,
    /// The KVM check (Linux) and the attempt to create a VM context.
    pub kvm: Result<(), String>,
    pub vm_context: Result<(), String>,
    pub signature: Signature,
    pub gvproxy: Result<String, String>,
    pub state_dir: WriteProbe,
    pub cache_dir: WriteProbe,
    pub store: Result<String, String>,
    pub cache: CacheBackend,
}


/// Every check, in report order; the signature and store checks only on
/// macOS.
pub open spec fn gather_spec(f: Facts) -> Seq<CheckView> {
    let tools = seq![
        tool_spec("curl"@, true, "every image pull and download goes through it"@, opt_view(f.curl)),
        tool_spec("tar"@, true, "unpacking image layers, `cp -r`, and `cache`"@, opt_view(f.tar)),
        tool_spec("gzip"@, false, "not required \u{2014} archives are compressed in-process"@, opt_view(f.gzip)),
        hypervisor_spec(f.boot, f.macos, res_view(f.kvm), res_view(f.vm_context)),
    ];
    let sig = if f.macos {
        seq![signature_spec(f.signature)]
    } else {
        Seq::empty()
    };
    let mid = seq![
        networking_spec(res_str_view(f.gvproxy)),
        writable_spec("state directory"@, f.state_dir),
        writable_spec("cache directory"@, f.cache_dir),
    ];
    let st = if f.macos {
        seq![store_spec(res_str_view(f.store))]
    } else {
        Seq::empty()
    };
    tools + sig + mid + st + seq![cache_backend_spec(f.cache)]
}

pub open spec fn check_views(v: Seq<Check>) -> Seq<CheckView> {
    v.map_values(|c: Check| c@)
}

/// Run every check.
pub fn gather(f: Facts) -> (r: Vec<Check>)
    ensures
        check_views(r@) == gather_spec(f),
{
    let ghost g = f;
    let mut checks: Vec<Check> = Vec::new();
    checks.push(tool("curl", true, "every image pull and download goes through it", f.curl));
    checks.push(tool("tar", true, "unpacking image layers, `cp -r`, and `cache`", f.tar));
    checks.push(tool("gzip", false, "not required \u{2014} archives are compressed in-process", f.gzip));
    checks.push(hypervisor(f.boot, f.macos, f.kvm, f.vm_context));
    if f.macos {
        checks.push(signature(f.signature));
    }
    checks.push(networking(f.gvproxy));
    checks.push(writable("state directory", f.state_dir));
    checks.push(writable("cache directory", f.cache_dir));
    if f.macos {
        checks.push(store(f.store));
    }
    checks.push(cache_backend(f.cache));
    assert(check_views(checks@) =~= gather_spec(g));
    checks
}

/// Doctor is read under stress: every check that is not `ok` carries a fix.
pub proof fn every_problem_has_a_fix(f: Facts)
    ensures
        forall|k: int|
            0 <= k < gather_spec(f).len() ==> (#[trigger] gather_spec(f)[k]).state != State::Good ==> gather_spec(
                f,
            )[k].fix is Some,
{
}

/// Something failed, so the command exits non-zero.
pub fn any_failed(checks: &Vec<Check>) -> (r: bool)
    ensures
        r == exists|k: int| 0 <= k < checks@.len() && (#[trigger] checks@[k]).state == State::Fail,
{
    let mut i: usize = 0;
    while i < checks.len()
        invariant
            i <= checks@.len(),
            forall|k: int| 0 <= k < i ==> (#[trigger] checks@[k]).state != State::Fail,
        decreases checks.len() - i,
    {
        if checks[i].state == State::Fail {
            return true;
        }
        i += 1;
    }
    false
}

/// The report's header line: `<os>/<arch>`, with an unsupported architecture
/// shown as `unknown`.
pub fn platform(os: &str, arch: Option<Arch>) -> (r: String)
    ensures
        r@ == os@ + "/"@ + match arch {
            Some(Arch::X86_64) => "x86_64"@,
            Some(Arch::Aarch64) => "aarch64"@,
            None => "unknown"@,
        },
{
    let a = match arch {
        Some(x) => x.slug(),
        None => "unknown",
    };
    let mut v: Vec<char> = Vec::new();
    push_str(&mut v, os);
    push_str(&mut v, "/");
    push_str(&mut v, a);
    string_of(v.as_slice())
}

} // verus!
