//! The `flavor` commands' decisions: naming a flavor's build cache, the
//! provisioning command a build runs, which flavor a name launches and how,
//! and the checks behind adding and removing user flavors.

use vstd::prelude::*;
use vstd::string::*;

use crate::db::FlavorRow;
use crate::flavors::{
    catalog, catalog_view, find, find_in, find_user, find_user_in, image_spec, kind_spec,
    method_spec, owned_strs, remove_user_flavor, sort_by_name, strs, upsert_user_flavor, user_kind,
    user_views, without_name, Base, FlavorFileError, FlavorView, UserFlavor, UserFlavorView,
};
use crate::guest::{guest_os_kind, guest_os_kind_spec};
use crate::text::{
    all_name_chars, all_name_chars_exec, chars_of, join_strings, joined, keep_name_chars,
    name_chars_only, owned_views, pad_end, push_pad_end, push_str, str_eq, string_of, trim,
    trim_chars,
};

verus! {

/// The prefix of the reserved volumes that hold built flavors; `volume ls`
/// hides them.
pub const FLAVOR_BUILD_PREFIX: &'static str = "bsdkrun-build-";

/// The reserved volume holding the flavor build with this cache key.
pub fn flavor_build_volume(key: &str) -> (r: String)
    ensures
        r@ == FLAVOR_BUILD_PREFIX@ + key@,
{
    let mut v: Vec<char> = Vec::new();
    push_str(&mut v, FLAVOR_BUILD_PREFIX);
    push_str(&mut v, key);
    string_of(v.as_slice())
}

/// A flavor name's filesystem-safe characters, for the guest's `echo`s.
pub fn safe_label(name: &str) -> (r: String)
    ensures
        r@ == name_chars_only(name@),
{
    let c = chars_of(name);
    let k = keep_name_chars(&c);
    string_of(k.as_slice())
}

/// Announces the Nix install.
pub const NIX_BANNER: &'static str = "echo '==> installing Nix (Determinate Systems)'";

/// Installs Nix unless it is there.
pub const NIX_INSTALL: &'static str = "command -v nix >/dev/null 2>&1 || curl --proto '=https' --tlsv1.2 -sSf -L https://install.determinate.systems/nix | sh -s -- install linux --no-confirm --init none";

/// Puts the Nix profile on `PATH`.
pub const NIX_PROFILE: &'static str = ". /nix/var/nix/profiles/default/etc/profile.d/nix-daemon.sh 2>/dev/null || export PATH=/nix/var/nix/profiles/default/bin:$PATH";

pub open spec fn nixpkgs_refs(nix: Seq<Seq<char>>) -> Seq<Seq<char>> {
    nix.map_values(|p: Seq<char>| "nixpkgs#"@ + p)
}

/// The lines of a flavor's provisioning script: a banner, the Nix install
/// and packages when there are any, the flavor's own steps in order, and a
/// closing banner.
pub open spec fn provision_lines(label: Seq<char>, nix: Seq<Seq<char>>, provision: Seq<Seq<char>>) -> Seq<
    Seq<char>,
> {
    let nix_lines = if nix.len() == 0 {
        Seq::empty()
    } else {
        seq![
            NIX_BANNER@,
            NIX_INSTALL@,
            NIX_PROFILE@,
            "nix profile install "@ + joined(nixpkgs_refs(nix), " "@),
        ]
    };
    seq!["echo '==> provisioning "@ + label + "'"@] + nix_lines + provision + seq![
        "echo '==> "@ + label + " ready'"@,
    ]
}

/// The one guest command that provisions a flavor, under a login shell;
/// `None` when there is nothing to provision.
pub open spec fn provision_argv_spec(name: Seq<char>, nix: Seq<Seq<char>>, provision: Seq<Seq<char>>) -> Option<
    Seq<Seq<char>>,
> {
    if nix.len() == 0 && provision.len() == 0 {
        None
    } else {
        Some(
            seq![
                "sh"@,
                "-lc"@,
                joined(provision_lines(name_chars_only(name), nix, provision), "\n"@),
            ],
        )
    }
}

pub open spec fn opt_views(o: Option<Vec<String>>) -> Option<Seq<Seq<char>>> {
    match o {
        Some(v) => Some(owned_views(v@)),
        None => None,
    }
}

fn cat(a: &str, b: &str, c: &str) -> (r: String)
    ensures
        r@ == a@ + b@ + c@,
{
    let mut v: Vec<char> = Vec::new();
    push_str(&mut v, a);
    push_str(&mut v, b);
    push_str(&mut v, c);
    string_of(v.as_slice())
}

fn cat2(a: &str, b: &str) -> (r: String)
    ensures
        r@ == a@ + b@,
{
    let mut v: Vec<char> = Vec::new();
    push_str(&mut v, a);
    push_str(&mut v, b);
    string_of(v.as_slice())
}

/// The guest command that provisions a flavor.
pub fn flavor_provision_argv(name: &str, nix: &Vec<String>, provision: &Vec<String>) -> (r: Option<Vec<String>>)
    ensures
        opt_views(r) == provision_argv_spec(name@, owned_views(nix@), owned_views(provision@)),
{
    if nix.len() == 0 && provision.len() == 0 {
        return None;
    }
    let label = safe_label(name);
    let mut lines: Vec<String> = Vec::new();
    lines.push(cat("echo '==> provisioning ", label.as_str(), "'"));
    let ghost head = owned_views(lines@);
    if nix.len() > 0 {
        lines.push(String::from_str(NIX_BANNER));
        lines.push(String::from_str(NIX_INSTALL));
        lines.push(String::from_str(NIX_PROFILE));
        let mut refs: Vec<String> = Vec::new();
        let mut i: usize = 0;
        while i < nix.len()
            invariant
                i <= nix@.len(),
                owned_views(refs@) == nixpkgs_refs(owned_views(nix@)).subrange(0, i as int),
            decreases nix.len() - i,
        {
            let ghost before = owned_views(refs@);
            refs.push(cat2("nixpkgs#", nix[i].as_str()));
            assert(owned_views(refs@) =~= before.push("nixpkgs#"@ + nix@[i as int]@));
            i += 1;
            assert(owned_views(refs@) =~= nixpkgs_refs(owned_views(nix@)).subrange(0, i as int));
        }
        assert(nixpkgs_refs(owned_views(nix@)).subrange(0, i as int) =~= nixpkgs_refs(owned_views(nix@)));
        let pkgs = join_strings(&refs, " ");
        lines.push(cat2("nix profile install ", pkgs.as_str()));
    }
    let ghost with_nix = owned_views(lines@);
    let mut j: usize = 0;
    while j < provision.len()
        invariant
            j <= provision@.len(),
            owned_views(lines@) == with_nix + owned_views(provision@).subrange(0, j as int),
        decreases provision.len() - j,
    {
        let ghost before = owned_views(lines@);
        lines.push(provision[j].clone());
        assert(owned_views(lines@) =~= before.push(provision@[j as int]@));
        j += 1;
        assert(owned_views(lines@) =~= with_nix + owned_views(provision@).subrange(0, j as int));
    }
    assert(owned_views(provision@).subrange(0, j as int) =~= owned_views(provision@));
    let ghost before_last = owned_views(lines@);
    lines.push(cat("echo '==> ", label.as_str(), " ready'"));
    assert(owned_views(lines@) =~= before_last.push("echo '==> "@ + label@ + " ready'"@));
    assert(owned_views(lines@) =~= provision_lines(name_chars_only(name@), owned_views(nix@), owned_views(provision@)));
    let script = join_strings(&lines, "\n");
    let mut argv: Vec<String> = Vec::new();
    argv.push(String::from_str("sh"));
    argv.push(String::from_str("-lc"));
    argv.push(script);
    assert(owned_views(argv@) =~= provision_argv_spec(name@, owned_views(nix@), owned_views(provision@))->0);
    Some(argv)
}

/// A Linux flavor resolved for a launch: the base image with its default
/// env and ports and its provisioning steps.
pub struct LinuxFlavorSpec {
    pub image: String,
    pub env: Vec<String>,
    pub ports: Vec<String>,
    pub nix: Vec<String>,
    pub provision: Vec<String>,
}

#[verifier::ext_equal]
pub struct LinuxFlavorView {
    pub image: Seq<char>,
    pub env: Seq<Seq<char>>,
    pub ports: Seq<Seq<char>>,
    pub nix: Seq<Seq<char>>,
    pub provision: Seq<Seq<char>>,
}

impl View for LinuxFlavorSpec {
    type V = LinuxFlavorView;

    open spec fn view(&self) -> LinuxFlavorView {
        LinuxFlavorView {
            image: self.image@,
            env: owned_strs(self.env@),
            ports: owned_strs(self.ports@),
            nix: owned_strs(self.nix@),
            provision: owned_strs(self.provision@),
        }
    }
}

/// A Linux flavor by name: a catalog flavor first (none when it is a BSD
/// one), then a user flavor on a Linux base.
pub open spec fn resolve_linux_spec(name: Seq<char>, users: Seq<UserFlavorView>) -> Option<LinuxFlavorView> {
    match find_in(catalog_view(), name) {
        Some(c) => if kind_spec(c.base) == "linux"@ {
            Some(
                LinuxFlavorView {
                    image: image_spec(c.base),
                    env: c.env,
                    ports: c.ports,
                    nix: c.nix,
                    provision: c.provision,
                },
            )
        } else {
            None
        },
        None => match find_user_in(users, name) {
            Some(u) => if user_kind(u.base) == "linux"@ {
                Some(LinuxFlavorView { image: u.base, env: u.env, ports: u.ports, nix: u.nix, provision: u.provision })
            } else {
                None
            },
            None => None,
        },
    }
}

pub open spec fn opt_linux_view(o: Option<LinuxFlavorSpec>) -> Option<LinuxFlavorView> {
    match o {
        Some(s) => Some(s@),
        None => None,
    }
}

fn owned(v: &Vec<&'static str>) -> (r: Vec<String>)
    ensures
        owned_strs(r@) == strs(v@),
{
    let mut out: Vec<String> = Vec::new();
    let mut i: usize = 0;
    while i < v.len()
        invariant
            i <= v@.len(),
            owned_strs(out@) == strs(v@).subrange(0, i as int),
        decreases v.len() - i,
    {
        let ghost before = owned_strs(out@);
        out.push(String::from_str(v[i]));
        assert(owned_strs(out@) =~= before.push(v@[i as int]@));
        i += 1;
        assert(owned_strs(out@) =~= strs(v@).subrange(0, i as int));
    }
    assert(strs(v@).subrange(0, i as int) =~= strs(v@));
    out
}

/// Resolve a Linux flavor (catalog or user) by name; `None` for a BSD
/// flavor or an unknown name.
pub fn resolve_linux_flavor(name: &str, users: Vec<UserFlavor>) -> (r: Option<LinuxFlavorSpec>)
    ensures
        opt_linux_view(r) == resolve_linux_spec(name@, user_views(users@)),
{
    match find(name) {
        Some(c) => {
            if !str_eq(c.kind(), "linux") {
                return None;
            }
            let spec = LinuxFlavorSpec {
                image: String::from_str(c.image()),
                env: owned(&c.env),
                ports: owned(&c.ports),
                nix: owned(&c.nix),
                provision: owned(&c.provision),
            };
            assert(spec@ =~= resolve_linux_spec(name@, user_views(users@))->0);
            Some(spec)
        },
        None => {
            match find_user(users, name) {
                Some(u) => {
                    if !str_eq(u.kind(), "linux") {
                        return None;
                    }
                    let spec = LinuxFlavorSpec {
                        image: u.base,
                        env: u.env,
                        ports: u.ports,
                        nix: u.nix,
                        provision: u.provision,
                    };
                    Some(spec)
                },
                None => None,
            }
        },
    }
}

/// What `flavor add` was given.
pub struct FlavorAddArgs {
    pub name: String,
    pub category: String,
    pub description: String,
    pub base: String,
    pub ports: Vec<String>,
    pub env: Vec<String>,
    pub nix: Vec<String>,
    pub provision: Vec<String>,
}

/// Why `flavor add` refuses.
#[derive(Debug, Clone, Copy, PartialEq, Eq)]
pub enum AddFlavorError {
    /// Empty, or not only letters, digits, `-`, `_` and `.`.
    InvalidName,
    /// No base given.
    BaseRequired,
    /// The flavors file refuses the entry.
    File(FlavorFileError),
}

/// What refuses a flavor without a base.
pub const BASE_REQUIRED: &'static str = "--base is required (an OCI image ref, or `freebsd`/`netbsd`)";

/// A flavor name: not empty, only letters, digits, `-`, `_` and `.`.
pub open spec fn valid_flavor_name(name: Seq<char>) -> bool {
    name.len() > 0 && all_name_chars(name)
}

/// The user flavor `flavor add` saves: the category defaults to `custom`.
pub open spec fn added_view(a: FlavorAddArgs) -> UserFlavorView {
    UserFlavorView {
        name: a.name@,
        category: if a.category@.len() == 0 {
            "custom"@
        } else {
            a.category@
        },
        description: a.description@,
        base: a.base@,
        ports: owned_strs(a.ports@),
        env: owned_strs(a.env@),
        nix: owned_strs(a.nix@),
        provision: owned_strs(a.provision@),
    }
}

/// Define a custom flavor: check the name and base, then add it to the
/// list a `flavors.toml` holds (replacing one of that name, sorted by name).
pub fn add_flavor(a: FlavorAddArgs, list: Vec<UserFlavor>) -> (r: Result<Vec<UserFlavor>, AddFlavorError>)
    ensures
        !valid_flavor_name(a.name@) ==> r == Err::<Vec<UserFlavor>, AddFlavorError>(AddFlavorError::InvalidName),
        valid_flavor_name(a.name@) && trim(a.base@).len() == 0 ==> r == Err::<Vec<UserFlavor>, AddFlavorError>(
            AddFlavorError::BaseRequired,
        ),
        valid_flavor_name(a.name@) && trim(a.base@).len() > 0 && find_in(catalog_view(), a.name@) is Some ==> r
            == Err::<Vec<UserFlavor>, AddFlavorError>(AddFlavorError::File(FlavorFileError::BuiltinName)),
        valid_flavor_name(a.name@) && trim(a.base@).len() > 0 && find_in(catalog_view(), a.name@) is None ==> (r matches Ok(
            v,
        ) && user_views(v@) == sort_by_name(without_name(user_views(list@), a.name@).push(added_view(a)))),
{
    let ghost args = a;
    let nc = chars_of(a.name.as_str());
    if nc.len() == 0 || !all_name_chars_exec(&nc) {
        return Err(AddFlavorError::InvalidName);
    }
    let bc = chars_of(a.base.as_str());
    let bt = trim_chars(&bc);
    if bt.len() == 0 {
        return Err(AddFlavorError::BaseRequired);
    }
    let category = if a.category.as_str().unicode_len() == 0 {
        String::from_str("custom")
    } else {
        a.category
    };
    let flavor = UserFlavor {
        name: a.name,
        category,
        description: a.description,
        base: a.base,
        ports: a.ports,
        env: a.env,
        nix: a.nix,
        provision: a.provision,
    };
    assert(flavor@ =~= added_view(args));
    match upsert_user_flavor(list, flavor) {
        Ok(v) => Ok(v),
        Err(e) => Err(AddFlavorError::File(e)),
    }
}

/// Why `flavor rm` refuses.
#[derive(Debug, Clone, Copy, PartialEq, Eq)]
pub enum RemoveFlavorError {
    /// Built-in catalog flavors cannot be removed.
    Builtin,
    /// No saved snapshot and no user flavor has the name.
    NoSuchFlavor,
}

/// What `flavor rm` removes.
pub enum Removed {
    /// The saved snapshot of that name (its row and its data).
    Snapshot,
    /// The user flavor: the list the `flavors.toml` is rewritten with.
    User(Vec<UserFlavor>),
}

/// Some user flavor has this name.
pub open spec fn has_user_named(list: Seq<UserFlavorView>, name: Seq<char>) -> bool {
    exists|i: int| 0 <= i < list.len() && #[trigger] list[i].name == name
}

proof fn lemma_without_name_len(list: Seq<UserFlavorView>, name: Seq<char>)
    ensures
        without_name(list, name).len() <= list.len(),
        without_name(list, name).len() < list.len() <==> has_user_named(list, name),
    decreases list.len(),
{
    reveal(Seq::filter);
    if list.len() > 0 {
        let init = list.drop_last();
        lemma_without_name_len(init, name);
        assert(list.filter(|u: UserFlavorView| u.name != name) == init.filter(|u: UserFlavorView| u.name != name)
            + if list.last().name != name {
            seq![list.last()]
        } else {
            Seq::empty()
        }) by {
            assert(list =~= init.push(list.last()));
        }
        if has_user_named(init, name) {
            let i = choose|i: int| 0 <= i < init.len() && #[trigger] init[i].name == name;
            assert(list[i].name == name);
        }
        if has_user_named(list, name) && list.last().name != name {
            let i = choose|i: int| 0 <= i < list.len() && #[trigger] list[i].name == name;
            assert(i < init.len());
            assert(init[i].name == name);
        }
        if list.last().name == name {
            assert(list[list.len() - 1].name == name);
        }
    }
}

/// Remove a flavor by name: a built-in one is refused; a saved snapshot of
/// that name goes first; else the user flavor of that name leaves the
/// flavors file; with neither, there is no such flavor.
pub fn remove_flavor(name: &str, snapshot: bool, list: Vec<UserFlavor>) -> (r: Result<Removed, RemoveFlavorError>)
    ensures
        find_in(catalog_view(), name@) is Some ==> r matches Err(RemoveFlavorError::Builtin),
        find_in(catalog_view(), name@) is None && snapshot ==> r matches Ok(Removed::Snapshot),
        find_in(catalog_view(), name@) is None && !snapshot && has_user_named(user_views(list@), name@) ==> (r matches Ok(
            Removed::User(v),
        ) && user_views(v@) == without_name(user_views(list@), name@)),
        find_in(catalog_view(), name@) is None && !snapshot && !has_user_named(user_views(list@), name@) ==> r matches Err(
            RemoveFlavorError::NoSuchFlavor,
        ),
{
    if find(name).is_some() {
        return Err(RemoveFlavorError::Builtin);
    }
    if snapshot {
        return Ok(Removed::Snapshot);
    }
    let ghost views = user_views(list@);
    let n = list.len();
    let (kept, changed) = remove_user_flavor(list, name);
    proof {
        lemma_without_name_len(views, name@);
        assert(views.len() == n);
        assert(user_views(kept@).len() == kept@.len());
    }
    if changed {
        Ok(Removed::User(kept))
    } else {
        Err(RemoveFlavorError::NoSuchFlavor)
    }
}

/// The message for a flavor name nothing defines.
pub fn no_such_flavor(name: &str) -> (r: String)
    ensures
        r@ == "no such flavor: "@ + name@,
{
    let mut v: Vec<char> = Vec::new();
    push_str(&mut v, "no such flavor: ");
    push_str(&mut v, name);
    string_of(v.as_slice())
}

/// The saved snapshot a flavor name names: its recorded kind and base, and
/// which of its data is on disk.
pub struct SavedFlavor {
    pub kind: String,
    pub base: String,
    /// Its `rootfs` directory exists (a Linux snapshot).
    pub has_rootfs: bool,
    /// Which of `disk.raw`, `disk.img` exist (a BSD snapshot).
    pub disks: (bool, bool),
}

/// The root disk a BSD snapshot boots from.
#[derive(Debug, Clone, Copy, PartialEq, Eq)]
pub enum SnapshotDisk {
    Raw,
    Img,
}

impl SnapshotDisk {
    /// The disk's file name in the snapshot's directory.
    pub fn file_name(&self) -> (r: &'static str)
        ensures
            r@ == match self {
                SnapshotDisk::Raw => "disk.raw"@,
                SnapshotDisk::Img => "disk.img"@,
            },
    {
        match self {
            SnapshotDisk::Raw => "disk.raw",
            SnapshotDisk::Img => "disk.img",
        }
    }
}

/// How `flavor run` boots a flavor.
pub enum FlavorRun {
    /// A saved Linux snapshot: its base image, booted from its saved rootfs.
    SnapshotLinux,
    /// A saved BSD snapshot, booted from its saved disk.
    SnapshotBsd { netbsd: bool, disk: SnapshotDisk },
    /// A Linux flavor: built once and cloned when it provisions anything,
    /// else the base image itself.
    Linux { spec: LinuxFlavorSpec, provisioned: bool },
    /// A BSD catalog flavor: the bundled image, with its default ports.
    Bsd { netbsd: bool, ports: Vec<String> },
}

pub enum FlavorRunView {
    SnapshotLinux,
    SnapshotBsd { netbsd: bool, disk: SnapshotDisk },
    Linux { spec: LinuxFlavorView, provisioned: bool },
    Bsd { netbsd: bool, ports: Seq<Seq<char>> },
}

impl View for FlavorRun {
    type V = FlavorRunView;

    open spec fn view(&self) -> FlavorRunView {
        match self {
            FlavorRun::SnapshotLinux => FlavorRunView::SnapshotLinux,
            FlavorRun::SnapshotBsd { netbsd, disk } => FlavorRunView::SnapshotBsd { netbsd: *netbsd, disk: *disk },
            FlavorRun::Linux { spec, provisioned } => FlavorRunView::Linux { spec: spec@, provisioned: *provisioned },
            FlavorRun::Bsd { netbsd, ports } => FlavorRunView::Bsd { netbsd: *netbsd, ports: owned_strs(ports@) },
        }
    }
}

/// Why `flavor run` cannot boot a flavor.
#[derive(Debug, Clone, Copy, PartialEq, Eq)]
pub enum FlavorRunError {
    /// A saved Linux snapshot without its rootfs data.
    MissingRootfs,
    /// A saved BSD snapshot without its disk.
    MissingDisk,
    /// Nothing has this name.
    NoSuchFlavor,
}

pub open spec fn snapshot_disk_spec(disks: (bool, bool)) -> Option<SnapshotDisk> {
    if disks.0 {
        Some(SnapshotDisk::Raw)
    } else if disks.1 {
        Some(SnapshotDisk::Img)
    } else {
        None
    }
}

/// What `flavor run NAME` boots: a saved snapshot of that name wins (its
/// kind normalized as the guest OS); then a Linux flavor, catalog or user;
/// then a BSD catalog flavor.
pub open spec fn flavor_run_spec(name: Seq<char>, saved: Option<SavedFlavor>, users: Seq<UserFlavorView>) -> Result<
    FlavorRunView,
    FlavorRunError,
> {
    match saved {
        Some(f) => {
            let os = guest_os_kind_spec(f.kind@, f.base@);
            if os == "linux"@ {
                if f.has_rootfs {
                    Ok(FlavorRunView::SnapshotLinux)
                } else {
                    Err(FlavorRunError::MissingRootfs)
                }
            } else {
                match snapshot_disk_spec(f.disks) {
                    Some(d) => Ok(FlavorRunView::SnapshotBsd { netbsd: os == "netbsd"@, disk: d }),
                    None => Err(FlavorRunError::MissingDisk),
                }
            }
        },
        None => match resolve_linux_spec(name, users) {
            Some(spec) => Ok(
                FlavorRunView::Linux { spec, provisioned: spec.nix.len() > 0 || spec.provision.len() > 0 },
            ),
            None => match find_in(catalog_view(), name) {
                Some(c) => Ok(FlavorRunView::Bsd { netbsd: c.base is Netbsd, ports: c.ports }),
                None => Err(FlavorRunError::NoSuchFlavor),
            },
        },
    }
}

pub open spec fn run_result_view(r: Result<FlavorRun, FlavorRunError>) -> Result<FlavorRunView, FlavorRunError> {
    match r {
        Ok(f) => Ok(f@),
        Err(e) => Err(e),
    }
}

/// Decide how `flavor run` boots a flavor.
pub fn flavor_run_plan(name: &str, saved: &Option<SavedFlavor>, users: Vec<UserFlavor>) -> (r: Result<
    FlavorRun,
    FlavorRunError,
>)
    ensures
        run_result_view(r) == flavor_run_spec(name@, *saved, user_views(users@)),
{
    match saved {
        Some(f) => {
            let os = guest_os_kind(f.kind.as_str(), f.base.as_str());
            if str_eq(os, "linux") {
                if f.has_rootfs {
                    Ok(FlavorRun::SnapshotLinux)
                } else {
                    Err(FlavorRunError::MissingRootfs)
                }
            } else {
                let netbsd = str_eq(os, "netbsd");
                if f.disks.0 {
                    Ok(FlavorRun::SnapshotBsd { netbsd, disk: SnapshotDisk::Raw })
                } else if f.disks.1 {
                    Ok(FlavorRun::SnapshotBsd { netbsd, disk: SnapshotDisk::Img })
                } else {
                    Err(FlavorRunError::MissingDisk)
                }
            }
        },
        None => {
            match resolve_linux_flavor(name, users) {
                Some(spec) => {
                    let provisioned = spec.nix.len() > 0 || spec.provision.len() > 0;
                    Ok(FlavorRun::Linux { spec, provisioned })
                },
                None => {
                    match find(name) {
                        Some(c) => {
                            let netbsd = match c.base {
                                Base::Netbsd => true,
                                _ => false,
                            };
                            let ports = owned(&c.ports);
                            Ok(FlavorRun::Bsd { netbsd, ports })
                        },
                        None => Err(FlavorRunError::NoSuchFlavor),
                    }
                },
            }
        },
    }
}

/// A row of the flavor tables: name, category, build method, description.
pub open spec fn flavor_line(name: Seq<char>, category: Seq<char>, method: Seq<char>, description: Seq<char>) -> Seq<char> {
    "  "@ + pad_end(name, 14) + "  "@ + pad_end(category, 9) + "  "@ + pad_end(method, 8) + "  "@ + description
}

/// The header of the flavor tables.
pub open spec fn flavor_header() -> Seq<char> {
    flavor_line("NAME"@, "CATEGORY"@, "METHOD"@, "DESCRIPTION"@)
}

/// A catalog flavor's row.
pub open spec fn catalog_line(f: FlavorView) -> Seq<char> {
    flavor_line(
        f.name,
        f.category,
        method_spec(f.base is Oci, f.nix.len() == 0, f.provision.len() == 0),
        f.description,
    )
}

/// A `flavors.toml` flavor's row.
pub open spec fn user_line(u: UserFlavorView) -> Seq<char> {
    flavor_line(
        u.name,
        u.category,
        method_spec(user_kind(u.base) == "linux"@, u.nix.len() == 0, u.provision.len() == 0),
        u.description,
    )
}

/// A saved snapshot flavor's row: name, guest kind, description.
pub open spec fn snapshot_line(f: FlavorRow) -> Seq<char> {
    "  "@ + pad_end(f.name@, 18) + "  "@ + pad_end(f.kind@, 9) + "  "@ + f.description@
}

/// What `bsdkrun flavors` prints: the saved snapshots and the user flavors,
/// each section only when it has rows, then the catalog.
pub open spec fn flavors_listing_spec(snaps: Seq<FlavorRow>, user: Seq<UserFlavorView>) -> Seq<Seq<char>> {
    let snap_part = if snaps.len() == 0 {
        Seq::empty()
    } else {
        seq!["Your snapshots:"@] + snaps.map_values(|f: FlavorRow| snapshot_line(f)) + seq![Seq::<char>::empty()]
    };
    let user_part = if user.len() == 0 {
        Seq::empty()
    } else {
        seq!["Your flavors (flavors.toml):"@, flavor_header()] + user.map_values(|u: UserFlavorView| user_line(u))
            + seq![Seq::<char>::empty()]
    };
    snap_part + user_part + seq!["Catalog:"@, flavor_header()] + catalog_view().map_values(
        |f: FlavorView| catalog_line(f),
    )
}

fn flavor_row(name: &str, category: &str, method: &str, description: &str) -> (r: String)
    ensures
        r@ == flavor_line(name@, category@, method@, description@),
{
    let mut v: Vec<char> = Vec::new();
    push_str(&mut v, "  ");
    push_pad_end(&mut v, &chars_of(name), 14);
    push_str(&mut v, "  ");
    push_pad_end(&mut v, &chars_of(category), 9);
    push_str(&mut v, "  ");
    push_pad_end(&mut v, &chars_of(method), 8);
    push_str(&mut v, "  ");
    push_str(&mut v, description);
    string_of(v.as_slice())
}

fn push_line(lines: &mut Vec<String>, l: String)
    ensures
        owned_views(final(lines)@) == owned_views(old(lines)@).push(l@),
{
    lines.push(l);
    assert(owned_views(lines@) =~= owned_views(old(lines)@).push(l@));
}

/// The text of `bsdkrun flavors`, line by line.
pub fn flavors_listing(snapshots: &Vec<FlavorRow>, user: &Vec<UserFlavor>) -> (r: Vec<String>)
    ensures
        owned_views(r@) == flavors_listing_spec(snapshots@, user_views(user@)),
{
    let mut lines: Vec<String> = Vec::new();
    let ghost snap_rows = snapshots@.map_values(|f: FlavorRow| snapshot_line(f));
    if snapshots.len() > 0 {
        push_line(&mut lines, String::from_str("Your snapshots:"));
        let mut i: usize = 0;
        while i < snapshots.len()
            invariant
                i <= snapshots.len(),
                snap_rows == snapshots@.map_values(|f: FlavorRow| snapshot_line(f)),
                owned_views(lines@) == seq!["Your snapshots:"@] + snap_rows.subrange(0, i as int),
            decreases snapshots.len() - i,
        {
            let f = &snapshots[i];
            let mut v: Vec<char> = Vec::new();
            push_str(&mut v, "  ");
            push_pad_end(&mut v, &chars_of(f.name.as_str()), 18);
            push_str(&mut v, "  ");
            push_pad_end(&mut v, &chars_of(f.kind.as_str()), 9);
            push_str(&mut v, "  ");
            push_str(&mut v, f.description.as_str());
            push_line(&mut lines, string_of(v.as_slice()));
            assert(snap_rows.subrange(0, i + 1) =~= snap_rows.subrange(0, i as int).push(snap_rows[i as int]));
            i += 1;
        }
        assert(snap_rows.subrange(0, i as int) =~= snap_rows);
        push_line(&mut lines, String::new());
    }
    let ghost after_snaps = owned_views(lines@);
    let ghost uv = user_views(user@);
    let ghost user_rows = uv.map_values(|u: UserFlavorView| user_line(u));
    if user.len() > 0 {
        push_line(&mut lines, String::from_str("Your flavors (flavors.toml):"));
        push_line(&mut lines, flavor_row("NAME", "CATEGORY", "METHOD", "DESCRIPTION"));
        let mut i: usize = 0;
        while i < user.len()
            invariant
                i <= user.len(),
                uv == user_views(user@),
                user_rows == uv.map_values(|u: UserFlavorView| user_line(u)),
                owned_views(lines@) == after_snaps + seq!["Your flavors (flavors.toml):"@, flavor_header()]
                    + user_rows.subrange(0, i as int),
            decreases user.len() - i,
        {
            let u = &user[i];
            assert(uv[i as int] == user@[i as int]@);
            let m = u.method();
            push_line(&mut lines, flavor_row(u.name.as_str(), u.category.as_str(), m, u.description.as_str()));
            assert(user_rows.subrange(0, i + 1) =~= user_rows.subrange(0, i as int).push(user_rows[i as int]));
            i += 1;
        }
        assert(user_rows.subrange(0, i as int) =~= user_rows);
        push_line(&mut lines, String::new());
    }
    let ghost after_user = owned_views(lines@);
    push_line(&mut lines, String::from_str("Catalog:"));
    push_line(&mut lines, flavor_row("NAME", "CATEGORY", "METHOD", "DESCRIPTION"));
    let cat = catalog();
    let ghost cv = catalog_view();
    let ghost cat_rows = cv.map_values(|f: FlavorView| catalog_line(f));
    let mut j: usize = 0;
    while j < cat.len()
        invariant
            j <= cat.len(),
            cat@.len() == cv.len(),
            forall|k: int| 0 <= k < cat@.len() ==> (#[trigger] cat@[k])@ == cv[k],
            cat_rows == cv.map_values(|f: FlavorView| catalog_line(f)),
            owned_views(lines@) == after_user + seq!["Catalog:"@, flavor_header()] + cat_rows.subrange(0, j as int),
        decreases cat.len() - j,
    {
        let c = &cat[j];
        assert(cat@[j as int]@ == cv[j as int]);
        let m = c.method();
        push_line(&mut lines, flavor_row(c.name, c.category, m, c.description));
        assert(cat_rows.subrange(0, j + 1) =~= cat_rows.subrange(0, j as int).push(cat_rows[j as int]));
        j += 1;
    }
    assert(cat_rows.subrange(0, j as int) =~= cat_rows);
    proof {
        reveal_strlit("");
    }
    assert(owned_views(lines@) =~= flavors_listing_spec(snapshots@, user_views(user@)));
    lines
}

} // verus!
