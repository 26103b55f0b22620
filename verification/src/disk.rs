//! The agent disk report's host-space figures.

use vstd::prelude::*;

use crate::text::{chars_of, vec_eq};

verus! {

/// The host space below which the report warns: 5 GiB.
pub const LOW_SPACE: u64 = 5 * 1024 * 1024 * 1024;

/// The host's free space as a whole percentage of its total; 0 when the
/// total is 0 or the product does not fit.
pub open spec fn free_percent_spec(free: u64, total: u64) -> u64 {
    if total == 0 || free * 100 > u64::MAX {
        0
    } else {
        ((free * 100) / (total as int)) as u64
    }
}

/// The percentage shown beside the host's free space.
pub fn host_free_percent(free: u64, total: u64) -> (r: u64)
    ensures
        r == free_percent_spec(free, total),
{
    match free.checked_mul(100) {
        Some(n) => {
            if total == 0 {
                0
            } else {
                n / total
            }
        },
        None => 0,
    }
}

/// Sandboxes write into host space, so the report warns when under a tenth
/// of it, or under [`LOW_SPACE`], is left.
pub fn host_nearly_full(free: u64, total: u64) -> (r: bool)
    ensures
        r == (free_percent_spec(free, total) < 10 || free < LOW_SPACE),
{
    host_free_percent(free, total) < 10 || free < LOW_SPACE
}

/// One agent sandbox as the disk report lists it.
#[derive(Debug, Clone)]
pub struct SandboxRow {
    pub id: String,
    pub name: String,
    /// The agent it runs; its home volume is shared by all its sandboxes.
    pub agent: String,
    pub running: bool,
    /// Bytes of its rootfs.
    pub rootfs: u64,
    /// Bytes of its agent's home volume.
    pub home: u64,
}

/// The rootfs bytes of all the rows.
pub open spec fn rootfs_total(rows: Seq<SandboxRow>) -> int
    decreases rows.len(),
{
    if rows.len() == 0 {
        0
    } else {
        rootfs_total(rows.drop_last()) + rows.last().rootfs
    }
}

/// The home bytes of the rows, each agent counted once, with the home its
/// last row reports; agents in `seen` are already counted.
pub open spec fn homes_total(rows: Seq<SandboxRow>, seen: Set<Seq<char>>) -> int
    decreases rows.len(),
{
    if rows.len() == 0 {
        0
    } else if seen.contains(rows.last().agent@) {
        homes_total(rows.drop_last(), seen)
    } else {
        homes_total(rows.drop_last(), seen.insert(rows.last().agent@)) + rows.last().home
    }
}

/// What the report sums up: the sandboxes' rootfs bytes, their agents' home
/// bytes (one home per agent, the last one listed), and how many there are.
pub open spec fn sandbox_totals_spec(rows: Seq<SandboxRow>) -> (int, int, int) {
    (rootfs_total(rows), homes_total(rows, Set::empty()), rows.len() as int)
}

proof fn lemma_totals_nonneg(rows: Seq<SandboxRow>, seen: Set<Seq<char>>)
    ensures
        rootfs_total(rows) >= 0,
        homes_total(rows, seen) >= 0,
    decreases rows.len(),
{
    if rows.len() > 0 {
        lemma_totals_nonneg(rows.drop_last(), seen);
        lemma_totals_nonneg(rows.drop_last(), seen.insert(rows.last().agent@));
    }
}

pub open spec fn char_seqs(v: Seq<Vec<char>>) -> Seq<Seq<char>> {
    v.map_values(|c: Vec<char>| c@)
}

pub open spec fn agent_set(v: Seq<Vec<char>>) -> Set<Seq<char>> {
    char_seqs(v).to_set()
}

fn seen_agent(seen: &Vec<Vec<char>>, a: &Vec<char>) -> (r: bool)
    ensures
        r == agent_set(seen@).contains(a@),
{
    let mut i: usize = 0;
    while i < seen.len()
        invariant
            i <= seen.len(),
            forall|j: int| 0 <= j < i ==> seen@[j]@ != a@,
        decreases seen.len() - i,
    {
        if vec_eq(&seen[i], a) {
            assert(char_seqs(seen@)[i as int] == a@);
            return true;
        }
        i += 1;
    }
    assert forall|x: Seq<char>| agent_set(seen@).contains(x) implies x != a@ by {
        let j = choose|j: int| 0 <= j < seen@.len() && #[trigger] char_seqs(seen@)[j] == x;
        assert(seen@[j]@ == x);
    }
    false
}

/// The totals under the sandbox table. The sums fit in a `u64`, as the
/// report adds them in one.
pub fn sandbox_totals(rows: &Vec<SandboxRow>) -> (r: (u64, u64, usize))
    requires
        rootfs_total(rows@) <= u64::MAX,
        homes_total(rows@, Set::empty()) <= u64::MAX,
    ensures
        (r.0 as int, r.1 as int, r.2 as int) == sandbox_totals_spec(rows@),
{
    let mut rootfs: u64 = 0;
    let mut homes: u64 = 0;
    let mut seen: Vec<Vec<char>> = Vec::new();
    let mut i: usize = rows.len();
    proof {
        assert(rows@.subrange(0, i as int) =~= rows@);
        assert(agent_set(seen@) =~= Set::<Seq<char>>::empty());
    }
    while i > 0
        invariant
            i <= rows.len(),
            rootfs + rootfs_total(rows@.subrange(0, i as int)) == rootfs_total(rows@),
            homes + homes_total(rows@.subrange(0, i as int), agent_set(seen@)) == homes_total(rows@, Set::empty()),
            rootfs_total(rows@) <= u64::MAX,
            homes_total(rows@, Set::empty()) <= u64::MAX,
        decreases i,
    {
        let ghost pre = rows@.subrange(0, i as int);
        assert(pre.drop_last() =~= rows@.subrange(0, i - 1));
        let r = &rows[i - 1];
        assert(pre.last() == *r);
        proof {
            lemma_totals_nonneg(rows@.subrange(0, i - 1), agent_set(seen@));
            lemma_totals_nonneg(rows@.subrange(0, i - 1), agent_set(seen@).insert(r.agent@));
        }
        rootfs = rootfs + r.rootfs;
        let a = chars_of(r.agent.as_str());
        if !seen_agent(&seen, &a) {
            homes = homes + r.home;
            let ghost before = seen@;
            seen.push(a);
            proof {
                assert(char_seqs(seen@) =~= char_seqs(before).push(r.agent@));
                char_seqs(before).lemma_push_to_set_commute(r.agent@);
            }
        }
        i -= 1;
    }
    (rootfs, homes, rows.len())
}

} // verus!
