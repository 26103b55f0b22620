//! Machine domains: every machine reachable at `https://<name>.<tld>` on this
//! host. This module holds the naming rules: how a machine name becomes a DNS
//! label, how collisions are settled, which URL a machine serves on, and the
//! feature's settings as stored in the settings table. The responder itself
//! is [`crate::dns`]; the daemons and the resolver wiring live with the
//! program.

use vstd::prelude::*;

use crate::text::{
    chars_of, decimal, decimal_chars, is_alnum, lex_le, lex_le_exec, lower, lower_char, opt_view,
    parse_u16, parse_u16_spec, push_chars, push_str, string_of, vec_eq,
};

verus! {

/// Default TLD: short, memorable, and clear of other local-dev tools.
pub const DEFAULT_TLD: &'static str = "bsdk";

/// A host-to-guest TCP port forward.
#[derive(Debug, Clone)]
pub struct PortForward {
    pub bind: String,
    pub host: u16,
    pub guest: u16,
}

impl PortForward {
    /// A forward bound to the loopback interface.
    pub fn loopback(host: u16, guest: u16) -> (r: PortForward)
        ensures
            r.bind@ == "127.0.0.1"@,
            r.host == host,
            r.guest == guest,
    {
        PortForward { bind: String::from_str("127.0.0.1"), host, guest }
    }
}

/// A machine as the domains feature sees it.
#[derive(Debug, Clone)]
pub struct Machine {
    pub id: String,
    pub name: Option<String>,
    pub created_at: Option<String>,
    pub running: bool,
    pub ports: Vec<PortForward>,
}

/// The feature's persisted settings.
#[derive(Debug, Clone)]
pub struct Settings {
    pub enabled: bool,
    pub tld: String,
    pub https_port: u16,
    pub http_port: u16,
    pub dns_port: u16,
}

/// The settings as they sit in the settings table: each key's value, if set.
#[derive(Debug, Clone)]
pub struct RawSettings {
    pub enabled: Option<String>,
    pub tld: Option<String>,
    pub https_port: Option<String>,
    pub http_port: Option<String>,
    pub dns_port: Option<String>,
}


/// A stored port, or the default when it is missing or not a port number.
pub open spec fn port_or(raw: Option<String>, default: u16) -> u16 {
    match raw {
        Some(p) => match parse_u16_spec(p@) {
            Some(v) => v,
            None => default,
        },
        None => default,
    }
}

fn parse_port_or(raw: &Option<String>, default: u16) -> (r: u16)
    ensures
        r == port_or(*raw, default),
{
    match raw {
        Some(p) => {
            let c = chars_of(p.as_str());
            match parse_u16(&c) {
                Some(v) => v,
                None => default,
            }
        },
        None => default,
    }
}

impl Settings {
    /// Read the settings from their stored values: enabled only when stored
    /// as `1`, the default TLD and ports where nothing (or no number) is
    /// stored.
    pub fn load(raw: &RawSettings) -> (r: Settings)
        ensures
            r.enabled == (raw.enabled matches Some(v) && v@ == "1"@),
            r.tld@ == match raw.tld {
                Some(t) => t@,
                None => DEFAULT_TLD@,
            },
            r.https_port == port_or(raw.https_port, 443),
            r.http_port == port_or(raw.http_port, 80),
            r.dns_port == port_or(raw.dns_port, crate::dns::DNS_PORT),
    {
        let enabled = match &raw.enabled {
            Some(v) => crate::text::str_eq(v.as_str(), "1"),
            None => false,
        };
        let tld = match &raw.tld {
            Some(t) => t.clone(),
            None => String::from_str(DEFAULT_TLD),
        };
        Settings {
            enabled,
            tld,
            https_port: parse_port_or(&raw.https_port, 443),
            http_port: parse_port_or(&raw.http_port, 80),
            dns_port: parse_port_or(&raw.dns_port, crate::dns::DNS_PORT),
        }
    }

    /// The key/value pairs that store these settings.
    pub fn entries(&self) -> (r: Vec<(String, String)>)
        ensures
            r@.len() == 5,
            r@[0].0@ == "domains.enabled"@,
            r@[0].1@ == (if self.enabled {
                "1"@
            } else {
                "0"@
            }),
            r@[1].0@ == "domains.tld"@,
            r@[1].1@ == self.tld@,
            r@[2].0@ == "domains.https_port"@,
            r@[2].1@ == decimal(self.https_port as nat),
            r@[3].0@ == "domains.http_port"@,
            r@[3].1@ == decimal(self.http_port as nat),
            r@[4].0@ == "domains.dns_port"@,
            r@[4].1@ == decimal(self.dns_port as nat),
    {
        let mut r: Vec<(String, String)> = Vec::new();
        r.push(
            (
                String::from_str("domains.enabled"),
                String::from_str(
                    if self.enabled {
                        "1"
                    } else {
                        "0"
                    },
                ),
            ),
        );
        r.push((String::from_str("domains.tld"), self.tld.clone()));
        let h = decimal_chars(self.https_port as u64);
        r.push((String::from_str("domains.https_port"), string_of(h.as_slice())));
        let h2 = decimal_chars(self.http_port as u64);
        r.push((String::from_str("domains.http_port"), string_of(h2.as_slice())));
        let d = decimal_chars(self.dns_port as u64);
        r.push((String::from_str("domains.dns_port"), string_of(d.as_slice())));
        r
    }
}

/// A character after normalization: lowercase, `_` becomes `-`.
pub open spec fn label_char(c: char) -> char {
    if c == '_' {
        '-'
    } else {
        lower(c)
    }
}

pub open spec fn keeps(c: char) -> bool {
    is_alnum(c) || c == '-'
}

/// The normalized characters of a name that a DNS label may hold.
pub open spec fn label_chars(s: Seq<char>) -> Seq<char>
    decreases s.len(),
{
    if s.len() == 0 {
        Seq::empty()
    } else if keeps(label_char(s.last())) {
        label_chars(s.drop_last()).push(label_char(s.last()))
    } else {
        label_chars(s.drop_last())
    }
}

pub open spec fn trim_dash_front(s: Seq<char>) -> Seq<char>
    decreases s.len(),
{
    if s.len() > 0 && s[0] == '-' {
        trim_dash_front(s.drop_first())
    } else {
        s
    }
}

pub open spec fn trim_dash_back(s: Seq<char>) -> Seq<char>
    decreases s.len(),
{
    if s.len() > 0 && s.last() == '-' {
        trim_dash_back(s.drop_last())
    } else {
        s
    }
}

/// A machine name as a DNS label: lowercase, `_` turned into `-`, anything
/// outside `[a-z0-9-]` dropped, cut to 63 characters, dashes trimmed.
pub open spec fn dns_label_spec(name: Seq<char>) -> Seq<char> {
    let l = label_chars(name);
    let cut = if l.len() > 63 {
        l.subrange(0, 63)
    } else {
        l
    };
    trim_dash_back(trim_dash_front(cut))
}

/// The DNS label for a machine name.
pub fn dns_label(name: &str) -> (r: String)
    ensures
        r@ == dns_label_spec(name@),
{
    let s = chars_of(name);
    let mut l: Vec<char> = Vec::new();
    let mut i: usize = 0;
    while i < s.len()
        invariant
            i <= s.len(),
            l@ == label_chars(s@.subrange(0, i as int)),
        decreases s.len() - i,
    {
        assert(s@.subrange(0, i + 1).drop_last() =~= s@.subrange(0, i as int));
        let c0 = s[i];
        let c = if c0 == '_' {
            '-'
        } else {
            lower_char(c0)
        };
        if ('a' <= c && c <= 'z') || ('A' <= c && c <= 'Z') || ('0' <= c && c <= '9') || c == '-' {
            l.push(c);
        }
        i += 1;
    }
    assert(s@.subrange(0, s.len() as int) =~= s@);
    let n = if l.len() > 63 {
        63
    } else {
        l.len()
    };
    let ghost cut = if l@.len() > 63 {
        l@.subrange(0, 63)
    } else {
        l@
    };
    assert(cut =~= l@.subrange(0, n as int));
    let mut a: usize = 0;
    assert(trim_dash_front(cut) == trim_dash_front(cut.subrange(a as int, cut.len() as int))) by {
        assert(cut.subrange(0, cut.len() as int) =~= cut);
    }
    while a < n && l[a] == '-'
        invariant
            a <= n,
            n <= l.len(),
            cut == l@.subrange(0, n as int),
            trim_dash_front(cut) == trim_dash_front(cut.subrange(a as int, n as int)),
        decreases n - a,
    {
        assert(cut.subrange(a as int, n as int).drop_first() =~= cut.subrange(a + 1, n as int));
        a += 1;
    }
    let ghost front = cut.subrange(a as int, n as int);
    assert(trim_dash_front(cut) == front);
    let mut b: usize = n;
    assert(l@.subrange(a as int, b as int) =~= front);
    while b > a && l[b - 1] == '-'
        invariant
            a <= b <= n,
            n <= l.len(),
            front == l@.subrange(a as int, n as int),
            trim_dash_back(front) == trim_dash_back(l@.subrange(a as int, b as int)),
        decreases b,
    {
        assert(l@.subrange(a as int, b - 1) =~= l@.subrange(a as int, b as int).drop_last());
        b -= 1;
    }
    let mut out: Vec<char> = Vec::new();
    let mut k = a;
    while k < b
        invariant
            a <= k <= b,
            b <= l.len(),
            out@ == l@.subrange(a as int, k as int),
        decreases b - k,
    {
        out.push(l[k]);
        k += 1;
        assert(out@ =~= l@.subrange(a as int, k as int));
    }
    string_of(out.as_slice())
}

/// The label suffix part of a machine id: its first four characters.
pub open spec fn id4(id: Seq<char>) -> Seq<char> {
    if id.len() > 4 {
        id.subrange(0, 4)
    } else {
        id
    }
}

/// The name a machine is labelled by (an unnamed machine has none).
pub open spec fn name_of(m: Machine) -> Seq<char> {
    match m.name {
        Some(n) => n@,
        None => Seq::empty(),
    }
}

/// `Option<String>`'s order: nothing first.
pub open spec fn created_le(a: Option<Seq<char>>, b: Option<Seq<char>>) -> bool {
    match (a, b) {
        (None, _) => true,
        (Some(_), None) => false,
        (Some(x), Some(y)) => lex_le(x, y),
    }
}

pub open spec fn created_of(m: Machine) -> Option<Seq<char>> {
    opt_view(m.created_at)
}

/// Insert index `x` into an order by creation time, after every entry that
/// is not later than it (so equal times keep listing order).
pub open spec fn insert_stable(ms: Seq<Machine>, s: Seq<int>, x: int) -> Seq<int>
    decreases s.len(),
{
    if s.len() == 0 {
        seq![x]
    } else if !created_le(created_of(ms[s.last()]), created_of(ms[x])) {
        insert_stable(ms, s.drop_last(), x).push(s.last())
    } else {
        s.push(x)
    }
}

/// The named machines' indices, oldest first, ties in listing order.
pub open spec fn named_order(ms: Seq<Machine>, n: int) -> Seq<int>
    decreases n,
{
    if n <= 0 {
        Seq::empty()
    } else if ms[n - 1].name is Some {
        insert_stable(ms, named_order(ms, n - 1), n - 1)
    } else {
        named_order(ms, n - 1)
    }
}

/// Hand out labels in `order`: the first machine with a label keeps it bare,
/// a later one gets `-<id prefix>`, and one whose suffixed label is taken as
/// well is skipped; a name with no label characters at all gets nothing.
pub open spec fn label_pass(ms: Seq<Machine>, order: Seq<int>, seen: Set<Seq<char>>) -> Seq<(Seq<char>, int)>
    decreases order.len(),
{
    if order.len() == 0 {
        Seq::empty()
    } else {
        let i = order[0];
        let rest = order.drop_first();
        let base = dns_label_spec(name_of(ms[i]));
        if base.len() == 0 {
            label_pass(ms, rest, seen)
        } else if !seen.contains(base) {
            seq![(base, i)] + label_pass(ms, rest, seen.insert(base))
        } else {
            let l = base + seq!['-'] + id4(ms[i].id@);
            if seen.contains(l) {
                label_pass(ms, rest, seen)
            } else {
                seq![(l, i)] + label_pass(ms, rest, seen.insert(l))
            }
        }
    }
}

/// Every label the domains feature hands out, with the index of its machine.
pub open spec fn labels_spec(ms: Seq<Machine>) -> Seq<(Seq<char>, int)> {
    label_pass(ms, named_order(ms, ms.len() as int), Set::empty())
}

fn created_le_exec(a: &Option<String>, b: &Option<String>) -> (r: bool)
    ensures
        r == created_le(opt_view(*a), opt_view(*b)),
{
    match (a, b) {
        (None, _) => true,
        (Some(_), None) => false,
        (Some(x), Some(y)) => {
            let xc = chars_of(x.as_str());
            let yc = chars_of(y.as_str());
            lex_le_exec(&xc, &yc)
        },
    }
}

proof fn lemma_insert_stable(ms: Seq<Machine>, s: Seq<int>, x: int, pos: int)
    requires
        0 <= pos <= s.len(),
        forall|k: int| pos <= k < s.len() ==> !created_le(#[trigger] created_of(ms[s[k]]), created_of(ms[x])),
        pos == 0 || created_le(created_of(ms[s[pos - 1]]), created_of(ms[x])),
    ensures
        insert_stable(ms, s, x) == s.subrange(0, pos).push(x) + s.subrange(pos, s.len() as int),
    decreases s.len(),
{
    if s.len() == 0 {
        assert(s.subrange(0, pos).push(x) + s.subrange(pos, s.len() as int) =~= seq![x]);
    } else if pos == s.len() {
        assert(s.subrange(0, pos) =~= s);
        assert(s.subrange(0, pos).push(x) + s.subrange(pos, s.len() as int) =~= s.push(x));
    } else {
        let k = s.len() - 1;
        assert(!created_le(created_of(ms[s[k]]), created_of(ms[x])));
        lemma_insert_stable(ms, s.drop_last(), x, pos);
        assert(s.drop_last().subrange(0, pos) =~= s.subrange(0, pos));
        assert(s.drop_last().subrange(pos, s.drop_last().len() as int).push(s.last()) =~= s.subrange(
            pos,
            s.len() as int,
        ));
        assert((s.subrange(0, pos).push(x) + s.drop_last().subrange(pos, s.drop_last().len() as int)).push(
            s.last(),
        ) =~= s.subrange(0, pos).push(x) + s.subrange(pos, s.len() as int));
    }
}

/// Assign each named machine its final label, disambiguating collisions
/// after normalization: the oldest machine keeps the bare label, later ones
/// get a `-<id prefix>` suffix. Deterministic, so the proxy config is too.
pub fn dns_labels<'a>(machines: &'a [Machine]) -> (r: Vec<(String, &'a Machine)>)
    ensures
        r@.len() == labels_spec(machines@).len(),
        forall|k: int|
            0 <= k < r@.len() ==> r@[k].0@ == labels_spec(machines@)[k].0 && *r@[k].1
                == machines@[labels_spec(machines@)[k].1],
{
    // Named machines, oldest first (ties keep listing order).
    let mut order: Vec<usize> = Vec::new();
    let mut n: usize = 0;
    while n < machines.len()
        invariant
            n <= machines.len(),
            order@.map_values(|v: usize| v as int) == named_order(machines@, n as int),
            forall|k: int| 0 <= k < order@.len() ==> order@[k] < n,
        decreases machines.len() - n,
    {
        if machines[n].name.is_some() {
            let mut pos = order.len();
            while pos > 0 && !created_le_exec(&machines[order[pos - 1]].created_at, &machines[n].created_at)
                invariant
                    pos <= order.len(),
                    n < machines.len(),
                    forall|k: int| 0 <= k < order@.len() ==> order@[k] < n,
                    forall|k: int|
                        pos <= k < order@.len() ==> !created_le(
                            #[trigger] created_of(machines@[order@[k] as int]),
                            created_of(machines@[n as int]),
                        ),
                decreases pos,
            {
                pos -= 1;
            }
            let ghost s = order@.map_values(|v: usize| v as int);
            proof {
                lemma_insert_stable(machines@, s, n as int, pos as int);
            }
            order.insert(pos, n);
            assert(order@.map_values(|v: usize| v as int) =~= s.subrange(0, pos as int).push(n as int)
                + s.subrange(pos as int, s.len() as int));
        }
        n += 1;
    }
    let ghost full = order@.map_values(|v: usize| v as int);
    let mut seen: Vec<Vec<char>> = Vec::new();
    let mut out: Vec<(String, &'a Machine)> = Vec::new();
    let ghost mut acc: Seq<(Seq<char>, int)> = Seq::empty();
    let mut j: usize = 0;
    assert(full.subrange(0, full.len() as int) =~= full);
    assert(seen_set(seen@) =~= Set::<Seq<char>>::empty());
    while j < order.len()
        invariant
            j <= order.len(),
            full == order@.map_values(|v: usize| v as int),
            full == named_order(machines@, machines@.len() as int),
            forall|k: int| 0 <= k < order@.len() ==> order@[k] < machines@.len(),
            acc + label_pass(machines@, full.subrange(j as int, full.len() as int), seen_set(seen@))
                == labels_spec(machines@),
            out@.len() == acc.len(),
            forall|k: int|
                0 <= k < out@.len() ==> out@[k].0@ == (#[trigger] acc[k]).0 && 0 <= acc[k].1
                    < machines@.len() && *out@[k].1 == machines@[acc[k].1],
        decreases order.len() - j,
    {
        let ghost rest = full.subrange(j as int, full.len() as int);
        let ghost tail = full.subrange(j + 1, full.len() as int);
        let ghost s0 = seen_set(seen@);
        let ghost a0 = acc;
        let ghost i = order@[j as int] as int;
        assert(rest[0] == i);
        assert(rest.drop_first() =~= tail);
        let m: &'a Machine = &machines[order[j]];
        let base = match &m.name {
            Some(nm) => dns_label(nm.as_str()),
            None => String::from_str(""),
        };
        proof {
            reveal_strlit("");
            assert(label_chars(Seq::<char>::empty()) =~= Seq::<char>::empty());
        }
        let bc = chars_of(base.as_str());
        assert(bc@ == dns_label_spec(name_of(machines@[i])));
        if bc.len() > 0 {
            if !seen_contains(&seen, &bc) {
                proof {
                    assert(label_pass(machines@, rest, s0) == seq![(bc@, i)] + label_pass(
                        machines@,
                        tail,
                        s0.insert(bc@),
                    ));
                    acc = acc.push((bc@, i));
                    assert(a0 + (seq![(bc@, i)] + label_pass(machines@, tail, s0.insert(bc@))) =~= acc
                        + label_pass(machines@, tail, s0.insert(bc@)));
                    lemma_seen_push(seen@, bc);
                }
                out.push((string_of(bc.as_slice()), m));
                seen.push(bc);
            } else {
                let mut l = bc;
                l.push('-');
                let idc = chars_of(m.id.as_str());
                let mut t: usize = 0;
                while t < idc.len() && t < 4
                    invariant
                        t <= idc.len(),
                        t <= 4,
                        l@ == bc@ + seq!['-'] + idc@.subrange(0, t as int),
                    decreases 4 - t,
                {
                    l.push(idc[t]);
                    t += 1;
                    assert(l@ =~= bc@ + seq!['-'] + idc@.subrange(0, t as int));
                }
                assert(idc@.subrange(0, t as int) =~= id4(m.id@));
                if !seen_contains(&seen, &l) {
                    proof {
                        assert(label_pass(machines@, rest, s0) == seq![(l@, i)] + label_pass(
                            machines@,
                            tail,
                            s0.insert(l@),
                        ));
                        acc = acc.push((l@, i));
                        assert(a0 + (seq![(l@, i)] + label_pass(machines@, tail, s0.insert(l@))) =~= acc
                            + label_pass(machines@, tail, s0.insert(l@)));
                        lemma_seen_push(seen@, l);
                    }
                    out.push((string_of(l.as_slice()), m));
                    seen.push(l);
                } else {
                    assert(label_pass(machines@, rest, s0) == label_pass(machines@, tail, s0));
                }
            }
        } else {
            assert(label_pass(machines@, rest, s0) == label_pass(machines@, tail, s0));
        }
        j += 1;
    }
    assert(full.subrange(j as int, full.len() as int) =~= Seq::<int>::empty());
    assert(acc =~= labels_spec(machines@));
    out
}

/// The label texts held so far.
pub open spec fn seen_set(seen: Seq<Vec<char>>) -> Set<Seq<char>> {
    Set::new(|s: Seq<char>| exists|k: int| 0 <= k < seen.len() && (#[trigger] seen[k])@ == s)
}

proof fn lemma_seen_push(seen: Seq<Vec<char>>, x: Vec<char>)
    ensures
        seen_set(seen.push(x)) == seen_set(seen).insert(x@),
{
    assert forall|t: Seq<char>| seen_set(seen.push(x)).contains(t) <==> seen_set(seen).insert(x@).contains(t) by {
        if seen_set(seen.push(x)).contains(t) {
            let k = choose|k: int| 0 <= k < seen.push(x).len() && (#[trigger] seen.push(x)[k])@ == t;
            if k < seen.len() {
                assert(seen[k] == seen.push(x)[k]);
            }
        }
        if seen_set(seen).contains(t) {
            let k = choose|k: int| 0 <= k < seen.len() && (#[trigger] seen[k])@ == t;
            assert(seen.push(x)[k] == seen[k]);
        }
        if t == x@ {
            assert(seen.push(x)[seen.len() as int] == x);
        }
    }
    assert(seen_set(seen.push(x)) =~= seen_set(seen).insert(x@));
}

fn seen_contains(seen: &Vec<Vec<char>>, x: &Vec<char>) -> (r: bool)
    ensures
        r == seen_set(seen@).contains(x@),
{
    let mut i: usize = 0;
    while i < seen.len()
        invariant
            i <= seen.len(),
            forall|k: int| 0 <= k < i ==> (#[trigger] seen@[k])@ != x@,
        decreases seen.len() - i,
    {
        if vec_eq(&seen[i], x) {
            return true;
        }
        i += 1;
    }
    false
}

proof fn lemma_label_chars_keep(s: Seq<char>)
    ensures
        forall|i: int| 0 <= i < label_chars(s).len() ==> keeps(#[trigger] label_chars(s)[i]),
    decreases s.len(),
{
    if s.len() > 0 {
        lemma_label_chars_keep(s.drop_last());
        let p = label_chars(s.drop_last());
        if keeps(label_char(s.last())) {
            assert forall|i: int| 0 <= i < label_chars(s).len() implies keeps(#[trigger] label_chars(s)[i]) by {
                if i < p.len() {
                    assert(label_chars(s)[i] == p[i]);
                }
            }
        }
    }
}

proof fn lemma_trim_front(s: Seq<char>)
    ensures
        exists|a: int| 0 <= a <= s.len() && #[trigger] trim_dash_front(s) == s.subrange(a, s.len() as int),
        trim_dash_front(s).len() > 0 ==> trim_dash_front(s)[0] != '-',
    decreases s.len(),
{
    if s.len() > 0 && s[0] == '-' {
        lemma_trim_front(s.drop_first());
        let a = choose|a: int|
            0 <= a <= s.drop_first().len() && #[trigger] trim_dash_front(s.drop_first())
                == s.drop_first().subrange(a, s.drop_first().len() as int);
        assert(s.drop_first().subrange(a, s.drop_first().len() as int) =~= s.subrange(a + 1, s.len() as int));
    } else {
        assert(s.subrange(0, s.len() as int) =~= s);
    }
}

proof fn lemma_trim_back(s: Seq<char>)
    ensures
        exists|b: int| 0 <= b <= s.len() && #[trigger] trim_dash_back(s) == s.subrange(0, b),
        trim_dash_back(s).len() > 0 ==> trim_dash_back(s).last() != '-',
    decreases s.len(),
{
    if s.len() > 0 && s.last() == '-' {
        lemma_trim_back(s.drop_last());
        let b = choose|b: int|
            0 <= b <= s.drop_last().len() && #[trigger] trim_dash_back(s.drop_last()) == s.drop_last().subrange(0, b);
        assert(s.drop_last().subrange(0, b) =~= s.subrange(0, b));
    } else {
        assert(s.subrange(0, s.len() as int) =~= s);
    }
}

/// A character a label keeps as it is: `[a-z0-9-]`.
pub open spec fn label_ok(c: char) -> bool {
    keeps(c) && !('A' <= c && c <= 'Z')
}

proof fn lemma_label_chars_ok(s: Seq<char>)
    ensures
        forall|i: int| 0 <= i < label_chars(s).len() ==> label_ok(#[trigger] label_chars(s)[i]),
    decreases s.len(),
{
    if s.len() > 0 {
        lemma_label_chars_ok(s.drop_last());
        let p = label_chars(s.drop_last());
        let c = s.last();
        if 'A' <= c && c <= 'Z' {
            assert(!('A' <= label_char(c) && label_char(c) <= 'Z'));
        }
        if keeps(label_char(c)) {
            assert forall|i: int| 0 <= i < label_chars(s).len() implies label_ok(#[trigger] label_chars(s)[i]) by {
                if i < p.len() {
                    assert(label_chars(s)[i] == p[i]);
                }
            }
        }
    }
}

proof fn lemma_label_chars_fixed(s: Seq<char>)
    requires
        forall|i: int| 0 <= i < s.len() ==> label_ok(#[trigger] s[i]),
    ensures
        label_chars(s) == s,
    decreases s.len(),
{
    if s.len() > 0 {
        let t = s.drop_last();
        assert forall|i: int| 0 <= i < t.len() implies label_ok(#[trigger] t[i]) by {
            assert(t[i] == s[i]);
        }
        lemma_label_chars_fixed(t);
        assert(label_ok(s.last()));
        assert(label_char(s.last()) == s.last());
        assert(t.push(s.last()) =~= s);
    }
}

/// A DNS label is its own label: normalizing twice changes nothing.
pub proof fn dns_label_is_idempotent(name: Seq<char>)
    ensures
        dns_label_spec(dns_label_spec(name)) == dns_label_spec(name),
{
    let r = dns_label_spec(name);
    dns_label_shape(name);
    let l = label_chars(name);
    lemma_label_chars_ok(name);
    let cut = if l.len() > 63 {
        l.subrange(0, 63)
    } else {
        l
    };
    let f = trim_dash_front(cut);
    lemma_trim_front(cut);
    let a = choose|a: int| 0 <= a <= cut.len() && #[trigger] trim_dash_front(cut) == cut.subrange(a, cut.len() as int);
    lemma_trim_back(f);
    let b = choose|b: int| 0 <= b <= f.len() && #[trigger] trim_dash_back(f) == f.subrange(0, b);
    assert(r == f.subrange(0, b));
    assert forall|i: int| 0 <= i < r.len() implies label_ok(#[trigger] r[i]) by {
        assert(r[i] == cut[a + i]);
        assert(cut[a + i] == l[a + i]);
    }
    lemma_label_chars_fixed(r);
    assert(r.len() <= 63);
    if r.len() > 0 {
        assert(trim_dash_front(r) == r);
        assert(trim_dash_back(r) == r);
    } else {
        assert(trim_dash_front(r) == r);
        assert(trim_dash_back(r) == r);
    }
}

/// A DNS label is at most 63 characters of `[a-z0-9-]`, and neither starts
/// nor ends with a dash.
pub proof fn dns_label_shape(name: Seq<char>)
    ensures
        dns_label_spec(name).len() <= 63,
        forall|i: int| 0 <= i < dns_label_spec(name).len() ==> keeps(#[trigger] dns_label_spec(name)[i]),
        dns_label_spec(name).len() > 0 ==> dns_label_spec(name)[0] != '-' && dns_label_spec(name).last() != '-',
{
    let l = label_chars(name);
    lemma_label_chars_keep(name);
    let cut = if l.len() > 63 {
        l.subrange(0, 63)
    } else {
        l
    };
    assert(forall|i: int| 0 <= i < cut.len() ==> keeps(#[trigger] cut[i])) by {
        assert forall|i: int| 0 <= i < cut.len() implies keeps(#[trigger] cut[i]) by {
            assert(cut[i] == l[i]);
        }
    }
    let f = trim_dash_front(cut);
    lemma_trim_front(cut);
    let a = choose|a: int| 0 <= a <= cut.len() && #[trigger] trim_dash_front(cut) == cut.subrange(a, cut.len() as int);
    lemma_trim_back(f);
    let b = choose|b: int| 0 <= b <= f.len() && #[trigger] trim_dash_back(f) == f.subrange(0, b);
    let r = dns_label_spec(name);
    assert(r == f.subrange(0, b));
    assert forall|i: int| 0 <= i < r.len() implies keeps(#[trigger] r[i]) by {
        assert(r[i] == cut[a + i]);
    }
    if r.len() > 0 {
        assert(r[0] == f[0]);
    }
}

proof fn lemma_label_pass_fresh(ms: Seq<Machine>, order: Seq<int>, seen: Set<Seq<char>>)
    ensures
        forall|k: int|
            0 <= k < label_pass(ms, order, seen).len() ==> !seen.contains(
                (#[trigger] label_pass(ms, order, seen)[k]).0,
            ) && label_pass(ms, order, seen)[k].0.len() > 0,
        forall|j: int, k: int|
            0 <= j < k < label_pass(ms, order, seen).len() ==> (#[trigger] label_pass(ms, order, seen)[j]).0
                != (#[trigger] label_pass(ms, order, seen)[k]).0,
    decreases order.len(),
{
    if order.len() > 0 {
        let i = order[0];
        let rest = order.drop_first();
        let base = dns_label_spec(name_of(ms[i]));
        if base.len() == 0 {
            lemma_label_pass_fresh(ms, rest, seen);
            assert(label_pass(ms, order, seen) == label_pass(ms, rest, seen));
        } else {
            let l = if !seen.contains(base) {
                base
            } else {
                base + seq!['-'] + id4(ms[i].id@)
            };
            if seen.contains(l) {
                lemma_label_pass_fresh(ms, rest, seen);
                assert(label_pass(ms, order, seen) == label_pass(ms, rest, seen));
            } else {
                lemma_label_pass_fresh(ms, rest, seen.insert(l));
                let tailp = label_pass(ms, rest, seen.insert(l));
                let lp = label_pass(ms, order, seen);
                assert(lp == seq![(l, i)] + tailp);
                assert forall|k: int| 0 <= k < lp.len() implies !seen.contains((#[trigger] lp[k]).0)
                    && lp[k].0.len() > 0 by {
                    if k > 0 {
                        assert(lp[k] == tailp[k - 1]);
                    }
                }
                assert forall|j: int, k: int| 0 <= j < k < lp.len() implies (#[trigger] lp[j]).0
                    != (#[trigger] lp[k]).0 by {
                    assert(lp[k] == tailp[k - 1]);
                    if j > 0 {
                        assert(lp[j] == tailp[j - 1]);
                    }
                }
            }
        }
    }
}

proof fn lemma_first_keeps_bare(ms: Seq<Machine>, order: Seq<int>, seen: Set<Seq<char>>, p: int)
    requires
        0 <= p < order.len(),
        dns_label_spec(name_of(ms[order[p]])).len() > 0,
        !seen.contains(dns_label_spec(name_of(ms[order[p]]))),
        forall|q: int|
            0 <= q < p ==> dns_label_spec(name_of(ms[#[trigger] order[q]])) != dns_label_spec(
                name_of(ms[order[p]]),
            ),
        forall|k: int, q: int|
            0 <= q < p && 0 <= k < label_pass(ms, order, seen).len() && (#[trigger] label_pass(
                ms,
                order,
                seen,
            )[k]).1 == #[trigger] order[q] ==> label_pass(ms, order, seen)[k].0 != dns_label_spec(
                name_of(ms[order[p]]),
            ),
    ensures
        label_pass(ms, order, seen).contains((dns_label_spec(name_of(ms[order[p]])), order[p])),
    decreases order.len(),
{
    let b = dns_label_spec(name_of(ms[order[p]]));
    let lp = label_pass(ms, order, seen);
    let i = order[0];
    let rest = order.drop_first();
    let base = dns_label_spec(name_of(ms[i]));
    if p == 0 {
        assert(lp[0] == (b, order[p]));
    } else {
        assert(base != b) by {
            assert(dns_label_spec(name_of(ms[order[0]])) != b);
        }
        assert(rest[p - 1] == order[p]);
        assert forall|q: int| 0 <= q < p - 1 implies dns_label_spec(name_of(ms[#[trigger] rest[q]])) != b by {
            assert(rest[q] == order[q + 1]);
        }
        let next_seen = if base.len() == 0 {
            seen
        } else if !seen.contains(base) {
            seen.insert(base)
        } else if seen.contains(base + seq!['-'] + id4(ms[i].id@)) {
            seen
        } else {
            seen.insert(base + seq!['-'] + id4(ms[i].id@))
        };
        let rp = label_pass(ms, rest, next_seen);
        assert(lp == rp || lp == seq![lp[0]] + rp);
        if lp != rp {
            assert(lp.len() == rp.len() + 1);
            assert(lp[0].1 == order[0]);
            assert(lp[0].0 != b);
            assert(!next_seen.contains(b));
        }
        assert(!next_seen.contains(b));
        assert forall|k: int, q: int|
            0 <= q < p - 1 && 0 <= k < rp.len() && (#[trigger] rp[k]).1 == #[trigger] rest[q] implies rp[k].0
            != b by {
            assert(rest[q] == order[q + 1]);
            if lp == rp {
                assert(lp[k] == rp[k]);
            } else {
                assert(lp[k + 1] == rp[k]);
            }
        }
        lemma_first_keeps_bare(ms, rest, next_seen, p - 1);
        if lp != rp {
            assert(lp =~= seq![lp[0]] + rp);
            let k = choose|k: int| 0 <= k < rp.len() && rp[k] == (b, order[p]);
            assert(lp[k + 1] == rp[k]);
        }
    }
}

/// The oldest named machine with a given label keeps it bare, unless an
/// older machine already holds that exact text as its disambiguated label.
pub proof fn oldest_keeps_the_bare_label(machines: Seq<Machine>, p: int)
    requires
        0 <= p < named_order(machines, machines.len() as int).len(),
        ({
            let order = named_order(machines, machines.len() as int);
            let b = dns_label_spec(name_of(machines[order[p]]));
            &&& b.len() > 0
            &&& forall|q: int| 0 <= q < p ==> dns_label_spec(name_of(machines[#[trigger] order[q]])) != b
            &&& forall|k: int, q: int|
                0 <= q < p && 0 <= k < labels_spec(machines).len() && (#[trigger] labels_spec(machines)[k]).1
                    == #[trigger] order[q] ==> labels_spec(machines)[k].0 != b
        }),
    ensures
        ({
            let order = named_order(machines, machines.len() as int);
            labels_spec(machines).contains((dns_label_spec(name_of(machines[order[p]])), order[p]))
        }),
{
    let order = named_order(machines, machines.len() as int);
    let lp = label_pass(machines, order, Set::empty());
    let b = dns_label_spec(name_of(machines[order[p]]));
    assert(labels_spec(machines) == lp);
    assert forall|k: int, q: int| 0 <= q < p && 0 <= k < lp.len() && (#[trigger] lp[k]).1 == #[trigger] order[q] implies lp[k].0
        != b by {
        assert(labels_spec(machines)[k] == lp[k]);
    }
    lemma_first_keeps_bare(machines, order, Set::empty(), p);
}

/// No two machines share a domain label, and no label is empty.
pub proof fn labels_unique(machines: Seq<Machine>)
    ensures
        forall|k: int| 0 <= k < labels_spec(machines).len() ==> (#[trigger] labels_spec(machines)[k]).0.len() > 0,
        forall|j: int, k: int|
            0 <= j < k < labels_spec(machines).len() ==> (#[trigger] labels_spec(machines)[j]).0
                != (#[trigger] labels_spec(machines)[k]).0,
{
    lemma_label_pass_fresh(machines, named_order(machines, machines.len() as int), Set::empty());
}

/// `:<port>` after the host, unless the port is the HTTPS default.
pub open spec fn port_suffix(https_port: u16) -> Seq<char> {
    if https_port == 443 {
        Seq::empty()
    } else {
        ":"@ + decimal(https_port as nat)
    }
}

/// `https://<label>.<tld>[:<port>]`.
pub open spec fn url_for(label: Seq<char>, s: Settings) -> Seq<char> {
    "https://"@ + label + "."@ + s.tld@ + port_suffix(s.https_port)
}

/// The URL a machine serves on: only when domains are enabled, the machine
/// has a port forward, and its name yields a label.
pub open spec fn machine_url_spec(m: Machine, s: Settings) -> Option<Seq<char>> {
    if !s.enabled || m.ports@.len() == 0 {
        None
    } else {
        match m.name {
            Some(n) => if dns_label_spec(n@).len() == 0 {
                None
            } else {
                Some(url_for(dns_label_spec(n@), s))
            },
            None => None,
        }
    }
}


fn url_of(label: &str, s: &Settings) -> (r: String)
    ensures
        r@ == url_for(label@, *s),
{
    let mut v: Vec<char> = Vec::new();
    push_str(&mut v, "https://");
    push_str(&mut v, label);
    push_str(&mut v, ".");
    push_str(&mut v, s.tld.as_str());
    if s.https_port != 443 {
        push_str(&mut v, ":");
        let d = decimal_chars(s.https_port as u64);
        push_chars(&mut v, &d);
    }
    assert(v@ =~= url_for(label@, *s));
    string_of(v.as_slice())
}

/// The URL a machine serves on, when domains are enabled and it has a forward.
pub fn machine_url(m: &Machine, s: &Settings) -> (r: Option<String>)
    ensures
        opt_view(r) == machine_url_spec(*m, *s),
{
    if !s.enabled || m.ports.len() == 0 {
        return None;
    }
    let name = match &m.name {
        Some(n) => n,
        None => return None,
    };
    let label = dns_label(name.as_str());
    if label.as_str().unicode_len() == 0 {
        return None;
    }
    Some(url_of(label.as_str(), s))
}

/// One row of `domains ls`.
#[derive(Debug, Clone)]
pub struct DomainRow {
    pub machine: String,
    pub id: String,
    pub url: Option<String>,
    /// `127.0.0.1:<host port>` when routable, or why it isn't.
    pub upstream: String,
    pub running: bool,
}

/// A row as values: name, id, URL, upstream, running.
pub struct RowView {
    pub machine: Seq<char>,
    pub id: Seq<char>,
    pub url: Option<Seq<char>>,
    pub upstream: Seq<char>,
    pub running: bool,
}

pub open spec fn row_view(r: DomainRow) -> RowView {
    RowView { machine: r.machine@, id: r.id@, url: opt_view(r.url), upstream: r.upstream@, running: r.running }
}

/// The row for a labelled machine: a URL and its first forward's host port
/// when it has one, else no URL and the reason.
pub open spec fn row_spec(label: Seq<char>, m: Machine, s: Settings) -> RowView {
    RowView {
        machine: name_of(m),
        id: m.id@,
        url: if m.ports@.len() > 0 {
            Some(url_for(label, s))
        } else {
            None
        },
        upstream: if m.ports@.len() > 0 {
            "127.0.0.1:"@ + decimal(m.ports@[0].host as nat)
        } else {
            "no --port forward"@
        },
        running: m.running,
    }
}

/// Every row of `domains ls`, in label order.
pub open spec fn rows_spec(ms: Seq<Machine>, s: Settings) -> Seq<RowView> {
    labels_spec(ms).map_values(|e: (Seq<char>, int)| row_spec(e.0, ms[e.1], s))
}

/// The rows of `domains ls`: one per labelled machine.
pub fn list(s: &Settings, machines: &[Machine]) -> (r: Vec<DomainRow>)
    ensures
        r@.map_values(|x: DomainRow| row_view(x)) == rows_spec(machines@, *s),
{
    let labeled = dns_labels(machines);
    let mut rows: Vec<DomainRow> = Vec::new();
    let mut i: usize = 0;
    while i < labeled.len()
        invariant
            i <= labeled@.len(),
            labeled@.len() == labels_spec(machines@).len(),
            forall|k: int|
                0 <= k < labeled@.len() ==> (#[trigger] labeled@[k]).0@ == labels_spec(machines@)[k].0
                    && *labeled@[k].1 == machines@[labels_spec(machines@)[k].1],
            rows@.len() == i,
            rows@.map_values(|x: DomainRow| row_view(x)) == rows_spec(machines@, *s).subrange(0, i as int),
        decreases labeled.len() - i,
    {
        let label = &labeled[i].0;
        let m = labeled[i].1;
        let (url, upstream) = if m.ports.len() > 0 {
            let mut v: Vec<char> = Vec::new();
            push_str(&mut v, "127.0.0.1:");
            let d = decimal_chars(m.ports[0].host as u64);
            push_chars(&mut v, &d);
            assert(v@ =~= "127.0.0.1:"@ + decimal(m.ports@[0].host as nat));
            (Some(url_of(label.as_str(), s)), string_of(v.as_slice()))
        } else {
            (None, String::from_str("no --port forward"))
        };
        let machine = match &m.name {
            Some(n) => n.clone(),
            None => String::from_str(""),
        };
        proof {
            reveal_strlit("");
        }
        let ghost e = labels_spec(machines@)[i as int];
        assert(rows_spec(machines@, *s)[i as int] == row_spec(e.0, machines@[e.1], *s));
        assert(machine@ == name_of(*m));
        rows.push(DomainRow { machine, id: m.id.clone(), url, upstream, running: m.running });
        assert(row_view(rows@[i as int]) == row_spec(e.0, machines@[e.1], *s));
        i += 1;
        assert(rows@.map_values(|x: DomainRow| row_view(x)) =~= rows_spec(machines@, *s).subrange(
            0,
            i as int,
        ));
    }
    assert(rows_spec(machines@, *s).subrange(0, i as int) =~= rows_spec(machines@, *s));
    rows
}

/// Component health for `domains status`.
#[derive(Debug, Clone)]
pub struct Status {
    pub enabled: bool,
    pub tld: String,
    pub https_port: u16,
    pub dns_running: bool,
    pub dns_port: u16,
    pub resolver_ok: bool,
    pub resolver_location: String,
    pub caddy_running: bool,
    pub ca_trusted: bool,
    pub domains: usize,
}

/// How many rows have a URL.
pub open spec fn served(rows: Seq<DomainRow>) -> nat {
    rows.filter(|r: DomainRow| r.url is Some).len()
}

/// Component health from the settings, the live checks and the rows: the
/// number of domains is the number of rows that have a URL.
pub fn status(
    s: &Settings,
    dns_running: bool,
    caddy_running: bool,
    resolver_ok: bool,
    resolver_location: String,
    ca_trusted: bool,
    rows: &Vec<DomainRow>,
) -> (r: Status)
    ensures
        r.enabled == s.enabled,
        r.tld@ == s.tld@,
        r.https_port == s.https_port,
        r.dns_running == dns_running,
        r.dns_port == s.dns_port,
        r.resolver_ok == resolver_ok,
        r.resolver_location == resolver_location,
        r.caddy_running == caddy_running,
        r.ca_trusted == ca_trusted,
        r.domains == served(rows@),
{
    let mut n: usize = 0;
    let mut i: usize = 0;
    while i < rows.len()
        invariant
            i <= rows@.len(),
            n == served(rows@.subrange(0, i as int)),
            n <= i,
        decreases rows.len() - i,
    {
        proof {
            let pre = rows@.subrange(0, i + 1);
            assert(pre.drop_last() =~= rows@.subrange(0, i as int));
            reveal(Seq::filter);
        }
        if rows[i].url.is_some() {
            n += 1;
        }
        i += 1;
    }
    assert(rows@.subrange(0, i as int) =~= rows@);
    Status {
        enabled: s.enabled,
        tld: s.tld.clone(),
        https_port: s.https_port,
        dns_running,
        dns_port: s.dns_port,
        resolver_ok,
        resolver_location,
        caddy_running,
        ca_trusted,
        domains: n,
    }
}

/// A TLD the feature accepts: non-empty, lowercase letters, digits, `-`
/// and `.`, and no leading or trailing dot.
pub open spec fn valid_tld_spec(t: Seq<char>) -> bool {
    t.len() > 0 && (forall|i: int| 0 <= i < t.len() ==> tld_char(#[trigger] t[i])) && t[0] != '.'
        && t.last() != '.'
}

/// A character a TLD may hold.
pub open spec fn tld_char(c: char) -> bool {
    ('a' <= c && c <= 'z') || ('0' <= c && c <= '9') || c == '-' || c == '.'
}

/// Whether `tld` is one the feature accepts.
pub fn valid_tld(tld: &str) -> (r: bool)
    ensures
        r == valid_tld_spec(tld@),
{
    let t = chars_of(tld);
    if t.len() == 0 {
        return false;
    }
    let mut i: usize = 0;
    while i < t.len()
        invariant
            i <= t@.len(),
            t@ == tld@,
            forall|k: int| 0 <= k < i ==> tld_char(#[trigger] t@[k]),
        decreases t.len() - i,
    {
        let c = t[i];
        if !(('a' <= c && c <= 'z') || ('0' <= c && c <= '9') || c == '-' || c == '.') {
            assert(t@[i as int] == c);
            return false;
        }
        i += 1;
    }
    t[0] != '.' && t[t.len() - 1] != '.'
}

/// A routable row's upstream is the loopback address with the host port of
/// its machine's first forward; later forwards play no part. A machine with
/// no forward has no URL.
pub proof fn upstream_is_the_first_forward(ms: Seq<Machine>, s: Settings, k: int)
    requires
        0 <= k < rows_spec(ms, s).len(),
    ensures
        ({
            let m = ms[labels_spec(ms)[k].1];
            let row = rows_spec(ms, s)[k];
            &&& m.ports@.len() > 0 ==> row.upstream == "127.0.0.1:"@ + decimal(m.ports@[0].host as nat)
                && row.url is Some
            &&& m.ports@.len() == 0 ==> row.url is None
        }),
{
}

/// Forwards after a machine's first one change nothing in `domains ls`:
/// two machines that differ only there give the same row.
pub proof fn rows_ignore_later_forwards(label: Seq<char>, m1: Machine, m2: Machine, s: Settings)
    requires
        m1.name == m2.name,
        m1.id == m2.id,
        m1.running == m2.running,
        m1.ports@.len() > 0,
        m2.ports@.len() > 0,
        m1.ports@[0] == m2.ports@[0],
    ensures
        row_spec(label, m1, s) == row_spec(label, m2, s),
{
}

} // verus!
