//! `bsdkrun prune`: reclaim disk from things nothing is using.
//!
//! The plan says exactly what would be deleted, and how much that is worth,
//! before anything is deleted. What is safe to remove follows the same rules
//! the individual `rm` commands use: a machine only when it is really
//! stopped, an image only when no machine references it, a volume only when
//! no machine at all points at it. The OCI layer cache and saved cache
//! entries need `--all`; volumes need `--volumes`.

use vstd::prelude::*;

use crate::text::{
    chars_of, ends_with, has_suffix, owned_views, push_str, str_eq, string_of, sub_chars,
};

verus! {

/// One thing that can be removed, and what it is worth.
#[derive(Debug, Clone)]
pub struct Item {
    /// What it is: `machine`, `image`, `volume`, `cache`, `layers`, `orphan`.
    pub kind: &'static str,
    /// The id or name to remove it by.
    pub id: String,
    /// What to show: a machine's name, an image's reference.
    pub label: String,
    pub bytes: u64,
}

/// An item as values.
pub struct ItemView {
    pub kind: Seq<char>,
    pub id: Seq<char>,
    pub label: Seq<char>,
    pub bytes: nat,
}

impl View for Item {
    type V = ItemView;

    open spec fn view(&self) -> ItemView {
        ItemView { kind: self.kind@, id: self.id@, label: self.label@, bytes: self.bytes as nat }
    }
}

pub open spec fn item_views(items: Seq<Item>) -> Seq<ItemView> {
    items.map_values(|i: Item| i@)
}

/// What `prune` would remove.
#[derive(Debug, Default)]
pub struct Plan {
    pub items: Vec<Item>,
}

/// The bytes of all the items.
pub open spec fn total_spec(items: Seq<Item>) -> nat
    decreases items.len(),
{
    if items.len() == 0 {
        0
    } else {
        total_spec(items.drop_last()) + items.last().bytes as nat
    }
}

proof fn lemma_total_prefix(items: Seq<Item>, k: int)
    requires
        0 <= k <= items.len(),
    ensures
        total_spec(items.subrange(0, k)) <= total_spec(items),
    decreases items.len() - k,
{
    if k < items.len() {
        lemma_total_prefix(items, k + 1);
        assert(items.subrange(0, k + 1).drop_last() =~= items.subrange(0, k));
    } else {
        assert(items.subrange(0, k) =~= items);
    }
}

impl Plan {
    /// The space the plan reclaims. The sum must fit in a `u64`.
    pub fn total(&self) -> (r: u64)
        requires
            total_spec(self.items@) <= u64::MAX,
        ensures
            r == total_spec(self.items@),
    {
        let mut sum: u64 = 0;
        let mut i: usize = 0;
        while i < self.items.len()
            invariant
                i <= self.items@.len(),
                sum == total_spec(self.items@.subrange(0, i as int)),
                total_spec(self.items@) <= u64::MAX,
            decreases self.items.len() - i,
        {
            proof {
                assert(self.items@.subrange(0, i + 1).drop_last() =~= self.items@.subrange(0, i as int));
                lemma_total_prefix(self.items@, i + 1);
            }
            sum = sum + self.items[i].bytes;
            i += 1;
        }
        assert(self.items@.subrange(0, i as int) =~= self.items@);
        sum
    }

    /// Nothing to prune.
    pub fn is_empty(&self) -> (r: bool)
        ensures
            r == (self.items@.len() == 0),
    {
        self.items.len() == 0
    }

    /// The items of one kind, in plan order.
    pub fn of_kind<'a>(&'a self, kind: &str) -> (r: Vec<&'a Item>)
        ensures
            r@.map_values(|i: &Item| i@) == item_views(self.items@).filter(|i: ItemView| i.kind == kind@),
    {
        let mut out: Vec<&'a Item> = Vec::new();
        let mut i: usize = 0;
        while i < self.items.len()
            invariant
                i <= self.items@.len(),
                out@.map_values(|i: &Item| i@) == item_views(self.items@.subrange(0, i as int)).filter(
                    |i: ItemView| i.kind == kind@,
                ),
            decreases self.items.len() - i,
        {
            proof {
                let pre = self.items@.subrange(0, i + 1);
                assert(pre.drop_last() =~= self.items@.subrange(0, i as int));
                assert(item_views(pre).drop_last() =~= item_views(self.items@.subrange(0, i as int)));
                reveal(Seq::filter);
            }
            let it = &self.items[i];
            if str_eq(it.kind, kind) {
                out.push(it);
            }
            i += 1;
            assert(out@.map_values(|i: &Item| i@) =~= item_views(self.items@.subrange(0, i as int)).filter(
                |i: ItemView| i.kind == kind@,
            ));
        }
        assert(self.items@.subrange(0, i as int) =~= self.items@);
        out
    }
}

/// The kinds `--only` accepts, singular like `Item::kind`.
pub open spec fn kinds_spec() -> Seq<Seq<char>> {
    seq!["machine"@, "image"@, "orphan"@, "volume"@, "cache"@, "layers"@]
}

/// The kinds `--only` accepts, singular like `Item::kind`.
pub fn kinds() -> (r: Vec<&'static str>)
    ensures
        r@.map_values(|s: &str| s@) == kinds_spec(),
{
    let v: Vec<&'static str> = vstd::slice::slice_to_vec(&["machine", "image", "orphan", "volume", "cache", "layers"]);
    assert(v@.map_values(|s: &str| s@) =~= kinds_spec());
    v
}


/// Whether a kind is in scope: an empty `--only` means everything the other
/// flags allow; naming kinds narrows it to exactly those.
pub open spec fn wanted_spec(only: Seq<Seq<char>>, kind: Seq<char>) -> bool {
    only.len() == 0 || only.contains(kind)
}

fn any_is(only: &[String], kind: &str) -> (r: bool)
    ensures
        r == owned_views(only@).contains(kind@),
{
    let mut i: usize = 0;
    while i < only.len()
        invariant
            i <= only@.len(),
            forall|k: int| 0 <= k < i ==> only@[k]@ != kind@,
        decreases only.len() - i,
    {
        if str_eq(only[i].as_str(), kind) {
            assert(owned_views(only@)[i as int] == kind@);
            return true;
        }
        i += 1;
    }
    proof {
        if owned_views(only@).contains(kind@) {
            let k = choose|k: int| 0 <= k < owned_views(only@).len() && owned_views(only@)[k] == kind@;
            assert(only@[k]@ == kind@);
        }
    }
    false
}

/// Whether a kind is in scope.
pub fn wanted(only: &[String], kind: &str) -> (r: bool)
    ensures
        r == wanted_spec(owned_views(only@), kind@),
{
    only.len() == 0 || any_is(only, kind)
}

/// Every `--only` kind is a known one; otherwise the first unknown one.
pub fn check_only(only: &[String]) -> (r: Result<(), String>)
    ensures
        match r {
            Ok(()) => forall|k: int| 0 <= k < only@.len() ==> kinds_spec().contains(#[trigger] only@[k]@),
            Err(bad) => exists|k: int|
                0 <= k < only@.len() && only@[k]@ == bad@ && !kinds_spec().contains(bad@) && forall|j: int|
                    0 <= j < k ==> kinds_spec().contains(#[trigger] only@[j]@),
        },
{
    let ks = kinds();
    let mut i: usize = 0;
    while i < only.len()
        invariant
            i <= only@.len(),
            ks@.map_values(|s: &str| s@) == kinds_spec(),
            forall|k: int| 0 <= k < i ==> kinds_spec().contains(#[trigger] only@[k]@),
        decreases only.len() - i,
    {
        let mut j: usize = 0;
        let mut found = false;
        while j < ks.len()
            invariant
                j <= ks@.len(),
                i < only@.len(),
                ks@.map_values(|s: &str| s@) == kinds_spec(),
                found ==> kinds_spec().contains(only@[i as int]@),
                !found ==> forall|t: int| 0 <= t < j ==> ks@[t]@ != only@[i as int]@,
            decreases ks.len() - j,
        {
            if !found && str_eq(ks[j], only[i].as_str()) {
                found = true;
                assert(kinds_spec()[j as int] == only@[i as int]@);
            }
            j += 1;
        }
        if !found {
            proof {
                if kinds_spec().contains(only@[i as int]@) {
                    let t = choose|t: int| 0 <= t < kinds_spec().len() && kinds_spec()[t] == only@[i as int]@;
                    assert(ks@[t]@ == kinds_spec()[t]);
                }
            }
            return Err(only[i].clone());
        }
        i += 1;
    }
    Ok(())
}

/// Why a directory in the OCI cache is garbage, or `None` if it is live: the
/// layer cache never is; an interrupted pull (`.staging`) always is; any
/// other tree is live exactly when an image row points at it.
pub open spec fn orphan_reason_spec(name: Seq<char>, dir: Seq<char>, image_dirs: Seq<Seq<char>>) -> Option<Seq<char>> {
    if name == "blobs"@ {
        None
    } else if ends_with(name, ".staging"@) {
        Some("interrupted pull"@)
    } else if !image_dirs.contains(dir) {
        Some("no image row"@)
    } else {
        None
    }
}

/// Why a directory in the OCI cache is garbage, or `None` if it is live.
pub fn orphan_reason(name: &str, dir: &str, image_dirs: &Vec<String>) -> (r: Option<&'static str>)
    ensures
        match r {
            Some(w) => orphan_reason_spec(name@, dir@, owned_views(image_dirs@)) == Some(w@),
            None => orphan_reason_spec(name@, dir@, owned_views(image_dirs@)) is None,
        },
{
    if str_eq(name, "blobs") {
        return None;
    }
    if has_suffix(name, ".staging") {
        return Some("interrupted pull");
    }
    if !any_is(image_dirs.as_slice(), dir) {
        Some("no image row")
    } else {
        None
    }
}

/// A machine as `prune` sees it.
#[derive(Debug, Clone)]
pub struct PruneMachine {
    pub id: String,
    pub name: Option<String>,
    /// The status its row records.
    pub status: String,
    /// Its recorded pid is alive.
    pub pid_alive: bool,
    /// The volume it points at, if any.
    pub volume: Option<String>,
    /// The size of its state directory.
    pub bytes: u64,
}

/// An image as `prune` sees it.
#[derive(Debug, Clone)]
pub struct PruneImage {
    pub id: String,
    pub reference: String,
    /// Where its rootfs was extracted.
    pub rootfs: String,
    /// Some machine references it.
    pub in_use: bool,
    /// The size of its rootfs (0 when the tree is gone).
    pub bytes: u64,
}

/// A directory in the OCI cache.
#[derive(Debug, Clone)]
pub struct CacheDir {
    pub name: String,
    pub dir: String,
    pub bytes: u64,
}

/// A named thing with a size: a volume, or a saved cache entry.
#[derive(Debug, Clone)]
pub struct Sized {
    pub name: String,
    pub bytes: u64,
}

/// Everything on disk that `prune` considers.
#[derive(Debug, Clone)]
pub struct Inventory {
    pub machines: Vec<PruneMachine>,
    pub images: Vec<PruneImage>,
    /// The directories in the OCI cache (directories only).
    pub cache_dirs: Vec<CacheDir>,
    pub volumes: Vec<Sized>,
    /// Saved `bsdkrun cache` entries.
    pub cache_entries: Vec<Sized>,
    /// The layer cache's directory and size.
    pub layers: Option<(String, u64)>,
}

/// A machine is really running only when its row says so and its pid lives.
pub open spec fn is_running(m: PruneMachine) -> bool {
    m.status@ == "running"@ && m.pid_alive
}

pub open spec fn machine_item(m: PruneMachine) -> ItemView {
    ItemView {
        kind: "machine"@,
        id: m.id@,
        label: match m.name {
            Some(n) => n@,
            None => m.id@,
        },
        bytes: m.bytes as nat,
    }
}

pub open spec fn image_item(i: PruneImage) -> ItemView {
    ItemView { kind: "image"@, id: i.id@, label: i.reference@, bytes: i.bytes as nat }
}

/// The directories image rows point at: each rootfs without its `/rootfs`.
pub open spec fn image_dirs_spec(images: Seq<PruneImage>) -> Seq<Seq<char>>
    decreases images.len(),
{
    if images.len() == 0 {
        Seq::empty()
    } else {
        let r = images.last().rootfs@;
        let rest = image_dirs_spec(images.drop_last());
        if ends_with(r, "/rootfs"@) {
            rest.push(r.subrange(0, r.len() - 7))
        } else {
            rest
        }
    }
}

/// The orphans among the cache directories, labelled with the reason.
pub open spec fn orphan_items(dirs: Seq<CacheDir>, image_dirs: Seq<Seq<char>>) -> Seq<ItemView>
    decreases dirs.len(),
{
    if dirs.len() == 0 {
        Seq::empty()
    } else {
        let d = dirs.last();
        let rest = orphan_items(dirs.drop_last(), image_dirs);
        match orphan_reason_spec(d.name@, d.dir@, image_dirs) {
            Some(why) => rest.push(
                ItemView { kind: "orphan"@, id: d.dir@, label: d.name@ + " ("@ + why + ")"@, bytes: d.bytes as nat },
            ),
            None => rest,
        }
    }
}

/// A volume no machine at all points at.
pub open spec fn volume_unused(v: Sized, machines: Seq<PruneMachine>) -> bool {
    forall|k: int| 0 <= k < machines.len() ==> !(#[trigger] machines[k].volume matches Some(n) && n@ == v.name@)
}

/// Stopped machines, when `--only` lets machines in.
pub open spec fn machine_section(only: Seq<Seq<char>>, inv: Inventory) -> Seq<ItemView> {
    if wanted_spec(only, "machine"@) {
        inv.machines@.filter(|m: PruneMachine| !is_running(m)).map_values(|m: PruneMachine| machine_item(m))
    } else {
        Seq::empty()
    }
}

/// Images no machine references, when `--only` lets images in.
pub open spec fn image_section(only: Seq<Seq<char>>, inv: Inventory) -> Seq<ItemView> {
    if wanted_spec(only, "image"@) {
        inv.images@.filter(|i: PruneImage| !i.in_use).map_values(|i: PruneImage| image_item(i))
    } else {
        Seq::empty()
    }
}

/// Cache trees nothing points at, when `--only` lets orphans in.
pub open spec fn orphan_section(only: Seq<Seq<char>>, inv: Inventory) -> Seq<ItemView> {
    if wanted_spec(only, "orphan"@) {
        orphan_items(inv.cache_dirs@, image_dirs_spec(inv.images@))
    } else {
        Seq::empty()
    }
}

pub open spec fn volume_item(v: Sized) -> ItemView {
    ItemView { kind: "volume"@, id: v.name@, label: v.name@, bytes: v.bytes as nat }
}

pub open spec fn cache_item(c: Sized) -> ItemView {
    ItemView { kind: "cache"@, id: c.name@, label: c.name@, bytes: c.bytes as nat }
}

/// Volumes no machine points at: with `--volumes`, or when `--only` names
/// them (naming a kind grants the same permission).
pub open spec fn volume_section(volumes: bool, only: Seq<Seq<char>>, inv: Inventory) -> Seq<ItemView> {
    if (volumes || only.contains("volume"@)) && wanted_spec(only, "volume"@) {
        inv.volumes@.filter(|v: Sized| volume_unused(v, inv.machines@)).map_values(|v: Sized| volume_item(v))
    } else {
        Seq::empty()
    }
}

/// `--all`, or naming `cache` or `layers`, reaches the caches.
pub open spec fn extra_spec(all: bool, only: Seq<Seq<char>>) -> bool {
    all || only.contains("cache"@) || only.contains("layers"@)
}

/// Saved cache entries.
pub open spec fn cache_section(all: bool, only: Seq<Seq<char>>, inv: Inventory) -> Seq<ItemView> {
    if extra_spec(all, only) && wanted_spec(only, "cache"@) {
        inv.cache_entries@.map_values(|c: Sized| cache_item(c))
    } else {
        Seq::empty()
    }
}

/// The OCI layer cache, when it holds anything.
pub open spec fn layers_section(all: bool, only: Seq<Seq<char>>, inv: Inventory) -> Seq<ItemView> {
    if extra_spec(all, only) && wanted_spec(only, "layers"@) {
        match inv.layers {
            Some((dir, bytes)) => if bytes > 0 {
                seq![ItemView { kind: "layers"@, id: dir@, label: "OCI layer cache"@, bytes: bytes as nat }]
            } else {
                Seq::empty()
            },
            None => Seq::empty(),
        }
    } else {
        Seq::empty()
    }
}

/// What `prune` would remove, section by section: stopped machines, unused
/// images, orphaned cache trees, unused volumes, saved cache entries and the
/// layer cache.
pub open spec fn plan_spec(all: bool, volumes: bool, only: Seq<Seq<char>>, inv: Inventory) -> Seq<ItemView> {
    machine_section(only, inv) + image_section(only, inv) + orphan_section(only, inv) + volume_section(
        volumes,
        only,
        inv,
    ) + cache_section(all, only, inv) + layers_section(all, only, inv)
}

proof fn lemma_views_push(s: Seq<Item>, x: Item)
    ensures
        item_views(s.push(x)) == item_views(s).push(x@),
{
    assert(item_views(s.push(x)) =~= item_views(s).push(x@));
}

proof fn lemma_views_add(s: Seq<Item>, t: Seq<Item>)
    ensures
        item_views(s + t) == item_views(s) + item_views(t),
{
    assert(item_views(s + t) =~= item_views(s) + item_views(t));
}

fn stopped_machines(ms: &Vec<PruneMachine>) -> (r: Vec<Item>)
    ensures
        item_views(r@) == ms@.filter(|m: PruneMachine| !is_running(m)).map_values(|m: PruneMachine| machine_item(m)),
{
    let mut out: Vec<Item> = Vec::new();
    let mut i: usize = 0;
    while i < ms.len()
        invariant
            i <= ms@.len(),
            item_views(out@) == ms@.subrange(0, i as int).filter(|m: PruneMachine| !is_running(m)).map_values(
                |m: PruneMachine| machine_item(m),
            ),
        decreases ms.len() - i,
    {
        let m = &ms[i];
        let ghost before = out@;
        proof {
            let pre = ms@.subrange(0, i + 1);
            assert(pre.drop_last() =~= ms@.subrange(0, i as int));
            assert(pre.last() == *m);
            reveal(Seq::filter);
        }
        let running = str_eq(m.status.as_str(), "running") && m.pid_alive;
        if !running {
            let label = match &m.name {
                Some(n) => n.clone(),
                None => m.id.clone(),
            };
            let it = Item { kind: "machine", id: m.id.clone(), label, bytes: m.bytes };
            proof {
                lemma_views_push(before, it);
            }
            out.push(it);
        }
        i += 1;
        assert(item_views(out@) =~= ms@.subrange(0, i as int).filter(|m: PruneMachine| !is_running(m)).map_values(
            |m: PruneMachine| machine_item(m),
        ));
    }
    assert(ms@.subrange(0, i as int) =~= ms@);
    out
}

fn unused_images(imgs: &Vec<PruneImage>) -> (r: Vec<Item>)
    ensures
        item_views(r@) == imgs@.filter(|i: PruneImage| !i.in_use).map_values(|i: PruneImage| image_item(i)),
{
    let mut out: Vec<Item> = Vec::new();
    let mut k: usize = 0;
    while k < imgs.len()
        invariant
            k <= imgs@.len(),
            item_views(out@) == imgs@.subrange(0, k as int).filter(|i: PruneImage| !i.in_use).map_values(
                |i: PruneImage| image_item(i),
            ),
        decreases imgs.len() - k,
    {
        let im = &imgs[k];
        let ghost before = out@;
        proof {
            let pre = imgs@.subrange(0, k + 1);
            assert(pre.drop_last() =~= imgs@.subrange(0, k as int));
            assert(pre.last() == *im);
            reveal(Seq::filter);
        }
        if !im.in_use {
            let it = Item { kind: "image", id: im.id.clone(), label: im.reference.clone(), bytes: im.bytes };
            proof {
                lemma_views_push(before, it);
            }
            out.push(it);
        }
        k += 1;
        assert(item_views(out@) =~= imgs@.subrange(0, k as int).filter(|i: PruneImage| !i.in_use).map_values(
            |i: PruneImage| image_item(i),
        ));
    }
    assert(imgs@.subrange(0, k as int) =~= imgs@);
    out
}

/// The directories image rows point at.
pub fn image_dirs(imgs: &Vec<PruneImage>) -> (r: Vec<String>)
    ensures
        owned_views(r@) == image_dirs_spec(imgs@),
{
    let mut out: Vec<String> = Vec::new();
    let mut k: usize = 0;
    while k < imgs.len()
        invariant
            k <= imgs@.len(),
            owned_views(out@) == image_dirs_spec(imgs@.subrange(0, k as int)),
        decreases imgs.len() - k,
    {
        let im = &imgs[k];
        let ghost before = owned_views(out@);
        proof {
            let pre = imgs@.subrange(0, k + 1);
            assert(pre.drop_last() =~= imgs@.subrange(0, k as int));
            assert(pre.last() == *im);
        }
        if has_suffix(im.rootfs.as_str(), "/rootfs") {
            let c = chars_of(im.rootfs.as_str());
            proof {
                reveal_strlit("/rootfs");
            }
            let d = sub_chars(&c, 0, c.len() - 7);
            out.push(string_of(d.as_slice()));
            assert(owned_views(out@) =~= before.push(d@));
        }
        k += 1;
        assert(owned_views(out@) =~= image_dirs_spec(imgs@.subrange(0, k as int)));
    }
    assert(imgs@.subrange(0, k as int) =~= imgs@);
    out
}

fn orphans(dirs: &Vec<CacheDir>, live: &Vec<String>) -> (r: Vec<Item>)
    ensures
        item_views(r@) == orphan_items(dirs@, owned_views(live@)),
{
    let mut out: Vec<Item> = Vec::new();
    let mut k: usize = 0;
    while k < dirs.len()
        invariant
            k <= dirs@.len(),
            item_views(out@) == orphan_items(dirs@.subrange(0, k as int), owned_views(live@)),
        decreases dirs.len() - k,
    {
        let d = &dirs[k];
        let ghost before = out@;
        proof {
            let pre = dirs@.subrange(0, k + 1);
            assert(pre.drop_last() =~= dirs@.subrange(0, k as int));
            assert(pre.last() == *d);
        }
        match orphan_reason(d.name.as_str(), d.dir.as_str(), live) {
            Some(why) => {
                let mut v: Vec<char> = Vec::new();
                push_str(&mut v, d.name.as_str());
                push_str(&mut v, " (");
                push_str(&mut v, why);
                push_str(&mut v, ")");
                assert(v@ =~= d.name@ + " ("@ + why@ + ")"@);
                let it = Item { kind: "orphan", id: d.dir.clone(), label: string_of(v.as_slice()), bytes: d.bytes };
                proof {
                    lemma_views_push(before, it);
                }
                out.push(it);
            },
            None => {},
        }
        k += 1;
        assert(item_views(out@) =~= orphan_items(dirs@.subrange(0, k as int), owned_views(live@)));
    }
    assert(dirs@.subrange(0, k as int) =~= dirs@);
    out
}

fn volume_in_use(v: &Sized, ms: &Vec<PruneMachine>) -> (r: bool)
    ensures
        r == !volume_unused(*v, ms@),
{
    let mut k: usize = 0;
    while k < ms.len()
        invariant
            k <= ms@.len(),
            forall|j: int| 0 <= j < k ==> !(#[trigger] ms@[j].volume matches Some(n) && n@ == v.name@),
        decreases ms.len() - k,
    {
        match &ms[k].volume {
            Some(n) => {
                if str_eq(n.as_str(), v.name.as_str()) {
                    return true;
                }
            },
            None => {},
        }
        k += 1;
    }
    false
}

fn unused_volumes(vols: &Vec<Sized>, ms: &Vec<PruneMachine>) -> (r: Vec<Item>)
    ensures
        item_views(r@) == vols@.filter(|v: Sized| volume_unused(v, ms@)).map_values(|v: Sized| volume_item(v)),
{
    let mut out: Vec<Item> = Vec::new();
    let mut k: usize = 0;
    while k < vols.len()
        invariant
            k <= vols@.len(),
            item_views(out@) == vols@.subrange(0, k as int).filter(|v: Sized| volume_unused(v, ms@)).map_values(
                |v: Sized| volume_item(v),
            ),
        decreases vols.len() - k,
    {
        let v = &vols[k];
        let ghost before = out@;
        proof {
            let pre = vols@.subrange(0, k + 1);
            assert(pre.drop_last() =~= vols@.subrange(0, k as int));
            assert(pre.last() == *v);
            reveal(Seq::filter);
        }
        if !volume_in_use(v, ms) {
            let it = Item { kind: "volume", id: v.name.clone(), label: v.name.clone(), bytes: v.bytes };
            proof {
                lemma_views_push(before, it);
            }
            out.push(it);
        }
        k += 1;
        assert(item_views(out@) =~= vols@.subrange(0, k as int).filter(|v: Sized| volume_unused(v, ms@)).map_values(
            |v: Sized| volume_item(v),
        ));
    }
    assert(vols@.subrange(0, k as int) =~= vols@);
    out
}

fn cache_items(entries: &Vec<Sized>) -> (r: Vec<Item>)
    ensures
        item_views(r@) == entries@.map_values(|c: Sized| cache_item(c)),
{
    let mut out: Vec<Item> = Vec::new();
    let mut k: usize = 0;
    while k < entries.len()
        invariant
            k <= entries@.len(),
            item_views(out@) == entries@.subrange(0, k as int).map_values(|c: Sized| cache_item(c)),
        decreases entries.len() - k,
    {
        let c = &entries[k];
        let ghost before = out@;
        let it = Item { kind: "cache", id: c.name.clone(), label: c.name.clone(), bytes: c.bytes };
        proof {
            lemma_views_push(before, it);
        }
        out.push(it);
        k += 1;
        assert(item_views(out@) =~= entries@.subrange(0, k as int).map_values(|c: Sized| cache_item(c)));
    }
    assert(entries@.subrange(0, k as int) =~= entries@);
    out
}

fn append_items(items: &mut Vec<Item>, more: Vec<Item>)
    ensures
        item_views(final(items)@) == item_views(old(items)@) + item_views(more@),
{
    let mut m = more;
    let ghost a = items@;
    let ghost b = m@;
    items.append(&mut m);
    proof {
        lemma_views_add(a, b);
    }
}

/// What `prune` would remove, without removing it: every candidate is
/// sized up front, so the summary is truthful before the confirmation.
pub fn plan(all: bool, volumes: bool, only: &[String], inv: &Inventory) -> (r: Plan)
    ensures
        item_views(r.items@) == plan_spec(all, volumes, owned_views(only@), *inv),
{
    let ghost o = owned_views(only@);
    let mut items: Vec<Item> = Vec::new();
    if wanted(only, "machine") {
        append_items(&mut items, stopped_machines(&inv.machines));
    }
    assert(item_views(items@) =~= machine_section(o, *inv));
    if wanted(only, "image") {
        append_items(&mut items, unused_images(&inv.images));
    }
    assert(item_views(items@) =~= machine_section(o, *inv) + image_section(o, *inv));
    if wanted(only, "orphan") {
        let live = image_dirs(&inv.images);
        append_items(&mut items, orphans(&inv.cache_dirs, &live));
    }
    let ghost s3 = machine_section(o, *inv) + image_section(o, *inv) + orphan_section(o, *inv);
    assert(item_views(items@) =~= s3);
    if (volumes || any_is(only, "volume")) && wanted(only, "volume") {
        append_items(&mut items, unused_volumes(&inv.volumes, &inv.machines));
    }
    let ghost s4 = s3 + volume_section(volumes, o, *inv);
    assert(item_views(items@) =~= s4);
    let extra = all || any_is(only, "cache") || any_is(only, "layers");
    if extra && wanted(only, "cache") {
        append_items(&mut items, cache_items(&inv.cache_entries));
    }
    let ghost s5 = s4 + cache_section(all, o, *inv);
    assert(item_views(items@) =~= s5);
    if extra && wanted(only, "layers") {
        match &inv.layers {
            Some((dir, bytes)) => {
                if *bytes > 0 {
                    let it = Item {
                        kind: "layers",
                        id: dir.clone(),
                        label: String::from_str("OCI layer cache"),
                        bytes: *bytes,
                    };
                    let ghost before = items@;
                    proof {
                        lemma_views_push(before, it);
                    }
                    items.push(it);
                }
            },
            None => {},
        }
    }
    assert(item_views(items@) =~= s5 + layers_section(all, o, *inv));
    Plan { items }
}

proof fn lemma_orphan_kinds(dirs: Seq<CacheDir>, live: Seq<Seq<char>>)
    ensures
        forall|k: int| 0 <= k < orphan_items(dirs, live).len() ==> (#[trigger] orphan_items(dirs, live)[k]).kind == "orphan"@,
    decreases dirs.len(),
{
    if dirs.len() > 0 {
        lemma_orphan_kinds(dirs.drop_last(), live);
        let rest = orphan_items(dirs.drop_last(), live);
        let all = orphan_items(dirs, live);
        assert forall|k: int| 0 <= k < all.len() implies (#[trigger] all[k]).kind == "orphan"@ by {
            if k < rest.len() {
                assert(all[k] == rest[k]);
            }
        }
    }
}

/// A prune never takes what is in use: every machine it would remove is
/// stopped (its row says so, or its pid is gone), every image is one no
/// machine references, and every volume is one no machine points at.
pub proof fn prune_spares_what_is_in_use(all: bool, volumes: bool, only: Seq<Seq<char>>, inv: Inventory)
    ensures
        forall|k: int|
            0 <= k < plan_spec(all, volumes, only, inv).len() ==> {
                let x = #[trigger] plan_spec(all, volumes, only, inv)[k];
                &&& x.kind == "machine"@ ==> exists|m: PruneMachine|
                    inv.machines@.contains(m) && !is_running(m) && machine_item(m) == x
                &&& x.kind == "image"@ ==> exists|i: PruneImage|
                    inv.images@.contains(i) && !i.in_use && image_item(i) == x
                &&& x.kind == "volume"@ ==> exists|v: Sized|
                    inv.volumes@.contains(v) && volume_unused(v, inv.machines@) && volume_item(v) == x
            },
{
    reveal_strlit("machine");
    reveal_strlit("image");
    reveal_strlit("volume");
    reveal_strlit("orphan");
    reveal_strlit("cache");
    reveal_strlit("layers");
    assert("machine"@.len() != "image"@.len());
    assert("machine"@.len() != "volume"@.len());
    assert("machine"@.len() != "orphan"@.len());
    assert("machine"@.len() != "cache"@.len());
    assert("machine"@.len() != "layers"@.len());
    assert("image"@.len() != "volume"@.len());
    assert("image"@.len() != "orphan"@.len());
    assert("image"@[0] != "cache"@[0]);
    assert("image"@.len() != "layers"@.len());
    assert("volume"@[0] != "orphan"@[0]);
    assert("volume"@.len() != "cache"@.len());
    assert("volume"@[0] != "layers"@[0]);
    assert("orphan"@.len() != "cache"@.len());
    assert("orphan"@[0] != "layers"@[0]);
    assert("cache"@.len() != "layers"@.len());
    let a = machine_section(only, inv);
    let b = image_section(only, inv);
    let c = orphan_section(only, inv);
    let d = volume_section(volumes, only, inv);
    let e = cache_section(all, only, inv);
    let f = layers_section(all, only, inv);
    let p = plan_spec(all, volumes, only, inv);
    assert(p == a + b + c + d + e + f);
    let mp = |m: PruneMachine| !is_running(m);
    let ip = |i: PruneImage| !i.in_use;
    let vp = |v: Sized| volume_unused(v, inv.machines@);
    lemma_orphan_kinds(inv.cache_dirs@, image_dirs_spec(inv.images@));
    assert forall|k: int| 0 <= k < p.len() implies {
        let x = #[trigger] p[k];
        &&& x.kind == "machine"@ ==> exists|m: PruneMachine|
            inv.machines@.contains(m) && !is_running(m) && machine_item(m) == x
        &&& x.kind == "image"@ ==> exists|i: PruneImage|
            inv.images@.contains(i) && !i.in_use && image_item(i) == x
        &&& x.kind == "volume"@ ==> exists|v: Sized|
            inv.volumes@.contains(v) && volume_unused(v, inv.machines@) && volume_item(v) == x
    } by {
        let x = p[k];
        if k < a.len() {
            assert(x == a[k]);
            if wanted_spec(only, "machine"@) {
                let fl = inv.machines@.filter(mp);
                let m = fl[k];
                inv.machines@.lemma_filter_pred(mp, k);
                inv.machines@.lemma_filter_contains_rev(mp, m);
                assert(fl.contains(m));
                assert(x == machine_item(m));
                assert(inv.machines@.contains(m) && !is_running(m) && machine_item(m) == x);
            }
        } else if k < a.len() + b.len() {
            assert(x == b[k - a.len()]);
            if wanted_spec(only, "image"@) {
                let fl = inv.images@.filter(ip);
                let i = fl[k - a.len()];
                inv.images@.lemma_filter_pred(ip, k - a.len());
                inv.images@.lemma_filter_contains_rev(ip, i);
                assert(fl.contains(i));
                assert(x == image_item(i));
                assert(inv.images@.contains(i) && !i.in_use && image_item(i) == x);
            }
        } else if k < a.len() + b.len() + c.len() {
            assert(x == c[k - a.len() - b.len()]);
            assert(x.kind == "orphan"@);
        } else if k < a.len() + b.len() + c.len() + d.len() {
            assert(x == d[k - a.len() - b.len() - c.len()]);
            if (volumes || only.contains("volume"@)) && wanted_spec(only, "volume"@) {
                let j = k - a.len() - b.len() - c.len();
                let fl = inv.volumes@.filter(vp);
                let v = fl[j];
                inv.volumes@.lemma_filter_pred(vp, j);
                inv.volumes@.lemma_filter_contains_rev(vp, v);
                assert(fl.contains(v));
                assert(x == volume_item(v));
                assert(inv.volumes@.contains(v) && volume_unused(v, inv.machines@) && volume_item(v) == x);
            }
        } else if k < a.len() + b.len() + c.len() + d.len() + e.len() {
            assert(x == e[k - a.len() - b.len() - c.len() - d.len()]);
            assert(x.kind == "cache"@);
        } else {
            assert(x == f[k - a.len() - b.len() - c.len() - d.len() - e.len()]);
            assert(x.kind == "layers"@);
        }
    }
}

} // verus!
