//! `bsdkrun solo5`: run a Solo5 unikernel (MirageOS and friends) under its
//! tender, `solo5-hvt`. This module holds the decisions: which backing file
//! each declared block device gets, how the guest's network devices are
//! attached, the tender's command line, and the exit status it reports.

use vstd::prelude::*;

use crate::text::{
    chars_of, decimal, decimal_chars, first_index, first_of, hex2, hex_char, i64_chars, join_comma,
    owned_views, push_chars, push_str, signed_decimal, str_eq, string_of, sub_chars,
};

verus! {

/// The devices a unikernel declares in its manifest.
#[derive(Debug, Clone)]
pub struct Manifest {
    pub nets: Vec<String>,
    pub blocks: Vec<String>,
}

/// A `--block` argument split at its first `=`: `NAME=FILE`, or a bare
/// path with no name.
pub open spec fn block_arg(spec: Seq<char>) -> (Option<Seq<char>>, Seq<char>) {
    let k = first_of(spec, '=');
    if k < spec.len() {
        (Some(spec.subrange(0, k as int)), spec.subrange(k + 1int, spec.len() as int))
    } else {
        (None, spec)
    }
}

/// `items` joined with `, `.

/// The first `--block` argument for the device `name`: one naming it, or a
/// bare path.
pub open spec fn block_for(given: Seq<(Option<Seq<char>>, Seq<char>)>, name: Seq<char>) -> Option<Seq<char>>
    decreases given.len(),
{
    if given.len() == 0 {
        None
    } else if given[0].0 == Some(name) || given[0].0 is None {
        Some(given[0].1)
    } else {
        block_for(given.drop_first(), name)
    }
}

/// The first argument that names an undeclared device (an empty name never
/// does).
pub open spec fn first_undeclared(given: Seq<(Option<Seq<char>>, Seq<char>)>, declared: Seq<Seq<char>>) -> Option<(Seq<char>, Seq<char>)>
    decreases given.len(),
{
    if given.len() == 0 {
        None
    } else {
        let named = match given[0].0 {
            Some(n) => n,
            None => Seq::empty(),
        };
        if named.len() > 0 && !declared.contains(named) {
            Some((named, given[0].1))
        } else {
            first_undeclared(given.drop_first(), declared)
        }
    }
}

/// Matching the declared devices, in manifest order, against what the
/// arguments give; the first device without a file, or whose file does
/// not exist, is the error.
pub open spec fn match_blocks(declared: Seq<Seq<char>>, given: Seq<(Option<Seq<char>>, Seq<char>)>, existing: Seq<Seq<char>>) -> Result<Seq<(Seq<char>, Seq<char>)>, Seq<char>>
    decreases declared.len(),
{
    if declared.len() == 0 {
        Ok(Seq::empty())
    } else {
        match match_blocks(declared.drop_last(), given, existing) {
            Err(e) => Err(e),
            Ok(done) => {
                let name = declared.last();
                match block_for(given, name) {
                    None => Err(
                        "the unikernel declares a block device named `"@ + name + "` \u{2014} attach one with `--block "@
                            + name + "=<file>`"@,
                    ),
                    Some(p) => if !existing.contains(p) {
                        Err("--block "@ + name + "="@ + p + " does not exist"@)
                    } else {
                        Ok(done.push((name, p)))
                    },
                }
            },
        }
    }
}

/// Which file backs each declared block device. A bare path is allowed only
/// when there is exactly one device and one argument; a name the unikernel
/// never declared is reported before anything missing (both describe the
/// same typo, and this one names the wrong word). `existing` lists the
/// argument paths that exist.
pub open spec fn resolve_blocks_spec(declared: Seq<Seq<char>>, specs: Seq<Seq<char>>, existing: Seq<Seq<char>>) -> Result<Seq<(Seq<char>, Seq<char>)>, Seq<char>> {
    let given = specs.map_values(|s: Seq<char>| block_arg(s));
    let unnamed = given.filter(|g: (Option<Seq<char>>, Seq<char>)| g.0 is None).len();
    if unnamed > 0 && (declared.len() != 1 || given.len() != 1) {
        Err(
            "--block needs a device name (NAME=FILE) when the unikernel declares "@ + decimal(declared.len())
                + " block devices: "@ + join_comma(declared),
        )
    } else {
        match first_undeclared(given, declared) {
            Some((named, p)) => Err(
                "--block "@ + named + "="@ + p + " names a device this unikernel does not declare (it declares: "@
                    + (if declared.len() == 0 {
                    "none"@
                } else {
                    join_comma(declared)
                }) + ")"@,
            ),
            None => match_blocks(declared, given, existing),
        }
    }
}

fn join_comma_exec(items: &Vec<String>) -> (r: Vec<char>)
    ensures
        r@ == join_comma(owned_views(items@)),
{
    let mut out: Vec<char> = Vec::new();
    let mut i: usize = 0;
    while i < items.len()
        invariant
            i <= items@.len(),
            out@ == join_comma(owned_views(items@).subrange(0, i as int)),
        decreases items.len() - i,
    {
        let ghost pre = owned_views(items@).subrange(0, i + 1);
        assert(pre.drop_last() =~= owned_views(items@).subrange(0, i as int));
        if i > 0 {
            push_str(&mut out, ", ");
        }
        push_str(&mut out, items[i].as_str());
        i += 1;
        proof {
            if i == 1 {
                assert(out@ =~= pre[0]);
            } else {
                assert(out@ =~= join_comma(pre.drop_last()) + ", "@ + pre.last());
            }
        }
    }
    assert(owned_views(items@).subrange(0, i as int) =~= owned_views(items@));
    out
}

fn contains_str(v: &Vec<String>, s: &str) -> (r: bool)
    ensures
        r == owned_views(v@).contains(s@),
{
    let mut i: usize = 0;
    while i < v.len()
        invariant
            i <= v@.len(),
            forall|k: int| 0 <= k < i ==> v@[k]@ != s@,
        decreases v.len() - i,
    {
        if str_eq(v[i].as_str(), s) {
            assert(owned_views(v@)[i as int] == s@);
            return true;
        }
        i += 1;
    }
    proof {
        if owned_views(v@).contains(s@) {
            let k = choose|k: int| 0 <= k < owned_views(v@).len() && owned_views(v@)[k] == s@;
            assert(v@[k]@ == s@);
        }
    }
    false
}

/// A parsed `--block` argument.
struct Given {
    name: Option<String>,
    path: String,
}

spec fn given_view(g: Given) -> (Option<Seq<char>>, Seq<char>) {
    (
        match g.name {
            Some(n) => Some(n@),
            None => None,
        },
        g.path@,
    )
}

spec fn givens(v: Seq<Given>) -> Seq<(Option<Seq<char>>, Seq<char>)> {
    v.map_values(|g: Given| given_view(g))
}

fn parse_given(specs: &[String]) -> (r: Vec<Given>)
    ensures
        givens(r@) == owned_views(specs@).map_values(|s: Seq<char>| block_arg(s)),
{
    let mut out: Vec<Given> = Vec::new();
    let mut i: usize = 0;
    while i < specs.len()
        invariant
            i <= specs@.len(),
            givens(out@) == owned_views(specs@).subrange(0, i as int).map_values(|s: Seq<char>| block_arg(s)),
        decreases specs.len() - i,
    {
        let c = chars_of(specs[i].as_str());
        let k = first_index(&c, '=');
        let g = if k < c.len() {
            Given { name: Some(string_of(sub_chars(&c, 0, k).as_slice())), path: string_of(sub_chars(&c, k + 1, c.len()).as_slice()) }
        } else {
            Given { name: None, path: specs[i].clone() }
        };
        assert(given_view(g) == block_arg(owned_views(specs@)[i as int]));
        let ghost before = givens(out@);
        out.push(g);
        assert(givens(out@) =~= before.push(given_view(g)));
        i += 1;
        assert(givens(out@) =~= owned_views(specs@).subrange(0, i as int).map_values(|s: Seq<char>| block_arg(s)));
    }
    assert(owned_views(specs@).subrange(0, i as int) =~= owned_views(specs@));
    out
}

fn find_block(given: &Vec<Given>, name: &str) -> (r: Option<usize>)
    ensures
        match r {
            Some(g) => g < given@.len() && block_for(givens(given@), name@) == Some(given@[g as int].path@),
            None => block_for(givens(given@), name@) is None,
        },
{
    let ghost gs = givens(given@);
    let mut g: usize = 0;
    assert(gs.subrange(0, gs.len() as int) =~= gs);
    while g < given.len()
        invariant
            g <= given@.len(),
            gs == givens(given@),
            block_for(gs, name@) == block_for(gs.subrange(g as int, gs.len() as int), name@),
        decreases given.len() - g,
    {
        let ghost rest = gs.subrange(g as int, gs.len() as int);
        assert(rest[0] == given_view(given@[g as int]));
        assert(rest.drop_first() =~= gs.subrange(g + 1, gs.len() as int));
        let hit = match &given[g].name {
            Some(n) => str_eq(n.as_str(), name),
            None => true,
        };
        if hit {
            return Some(g);
        }
        g += 1;
    }
    assert(gs.subrange(g as int, gs.len() as int) =~= Seq::<(Option<Seq<char>>, Seq<char>)>::empty());
    None
}

proof fn lemma_match_err(declared: Seq<Seq<char>>, given: Seq<(Option<Seq<char>>, Seq<char>)>, existing: Seq<Seq<char>>, j: int)
    requires
        0 <= j <= declared.len(),
        match_blocks(declared.subrange(0, j), given, existing) is Err,
    ensures
        match_blocks(declared, given, existing) == match_blocks(declared.subrange(0, j), given, existing),
    decreases declared.len() - j,
{
    if j < declared.len() {
        let pre = declared.subrange(0, j + 1);
        assert(pre.drop_last() =~= declared.subrange(0, j));
        lemma_match_err(declared, given, existing, j + 1);
    } else {
        assert(declared.subrange(0, j) =~= declared);
    }
}

/// Which file backs each declared block device, or why none can.
pub fn resolve_blocks(manifest: &Manifest, specs: &[String], existing: &Vec<String>) -> (r: Result<Vec<(String, String)>, String>)
    ensures
        match (r, resolve_blocks_spec(owned_views(manifest.blocks@), owned_views(specs@), owned_views(existing@))) {
            (Ok(v), Ok(w)) => v@.map_values(|p: (String, String)| (p.0@, p.1@)) == w,
            (Err(m), Err(w)) => m@ == w,
            _ => false,
        },
{
    let given = parse_given(specs);
    let ghost gs = givens(given@);
    let ghost pred = |g: (Option<Seq<char>>, Seq<char>)| g.0 is None;
    // Count the bare paths.
    let mut unnamed: usize = 0;
    let mut i: usize = 0;
    while i < given.len()
        invariant
            i <= given@.len(),
            gs == givens(given@),
            pred == (|g: (Option<Seq<char>>, Seq<char>)| g.0 is None),
            unnamed == gs.subrange(0, i as int).filter(pred).len(),
            unnamed <= i,
        decreases given.len() - i,
    {
        proof {
            let pre = gs.subrange(0, i + 1);
            assert(pre.drop_last() =~= gs.subrange(0, i as int));
            assert(pre.last() == given_view(given@[i as int]));
            reveal(Seq::filter);
        }
        if given[i].name.is_none() {
            unnamed += 1;
        }
        i += 1;
    }
    assert(gs.subrange(0, i as int) =~= gs);
    let declared = &manifest.blocks;
    if unnamed > 0 && (declared.len() != 1 || given.len() != 1) {
        let mut v: Vec<char> = Vec::new();
        push_str(&mut v, "--block needs a device name (NAME=FILE) when the unikernel declares ");
        let d = decimal_chars(declared.len() as u64);
        push_chars(&mut v, &d);
        push_str(&mut v, " block devices: ");
        let j = join_comma_exec(declared);
        push_chars(&mut v, &j);
        return Err(string_of(v.as_slice()));
    }
    // A name never declared, before anything missing.
    let mut k: usize = 0;
    assert(gs.subrange(0, gs.len() as int) =~= gs);
    while k < given.len()
        invariant
            k <= given@.len(),
            gs == givens(given@),
            gs == owned_views(specs@).map_values(|s: Seq<char>| block_arg(s)),
            !(gs.filter(|g: (Option<Seq<char>>, Seq<char>)| g.0 is None).len() > 0 && (declared@.len() != 1
                || gs.len() != 1)),
            declared == &manifest.blocks,
            first_undeclared(gs, owned_views(declared@)) == first_undeclared(gs.subrange(k as int, gs.len() as int), owned_views(declared@)),
        decreases given.len() - k,
    {
        let ghost rest = gs.subrange(k as int, gs.len() as int);
        assert(rest[0] == given_view(given@[k as int]));
        assert(rest.drop_first() =~= gs.subrange(k + 1, gs.len() as int));
        match &given[k].name {
            Some(n) => {
                if n.as_str().unicode_len() > 0 && !contains_str(declared, n.as_str()) {
                    let mut v: Vec<char> = Vec::new();
                    push_str(&mut v, "--block ");
                    push_str(&mut v, n.as_str());
                    push_str(&mut v, "=");
                    push_str(&mut v, given[k].path.as_str());
                    push_str(&mut v, " names a device this unikernel does not declare (it declares: ");
                    if declared.len() == 0 {
                        push_str(&mut v, "none");
                    } else {
                        let j = join_comma_exec(declared);
                        push_chars(&mut v, &j);
                    }
                    push_str(&mut v, ")");
                    return Err(string_of(v.as_slice()));
                }
            },
            None => {
                proof {
                    reveal_strlit("");
                }
            },
        }
        k += 1;
    }
    assert(gs.subrange(k as int, gs.len() as int) =~= Seq::<(Option<Seq<char>>, Seq<char>)>::empty());
    let mut resolved: Vec<(String, String)> = Vec::new();
    let mut b: usize = 0;
    assert(owned_views(declared@).subrange(0, 0) =~= Seq::<Seq<char>>::empty());
    assert(resolved@.map_values(|p: (String, String)| (p.0@, p.1@)) =~= Seq::<(Seq<char>, Seq<char>)>::empty());
    while b < declared.len()
        invariant
            b <= declared@.len(),
            gs == givens(given@),
            gs == owned_views(specs@).map_values(|s: Seq<char>| block_arg(s)),
            !(gs.filter(|g: (Option<Seq<char>>, Seq<char>)| g.0 is None).len() > 0 && (declared@.len() != 1
                || gs.len() != 1)),
            declared == &manifest.blocks,
            first_undeclared(gs, owned_views(declared@)) is None,
            match_blocks(owned_views(declared@).subrange(0, b as int), gs, owned_views(existing@)) == Ok::<Seq<(Seq<char>, Seq<char>)>, Seq<char>>(
                resolved@.map_values(|p: (String, String)| (p.0@, p.1@)),
            ),
        decreases declared.len() - b,
    {
        let ghost pre = owned_views(declared@).subrange(0, b + 1);
        assert(pre.drop_last() =~= owned_views(declared@).subrange(0, b as int));
        let name = &declared[b];
        assert(pre.last() == name@);
        match find_block(&given, name.as_str()) {
            None => {
                let mut v: Vec<char> = Vec::new();
                push_str(&mut v, "the unikernel declares a block device named `");
                push_str(&mut v, name.as_str());
                push_str(&mut v, "` \u{2014} attach one with `--block ");
                push_str(&mut v, name.as_str());
                push_str(&mut v, "=<file>`");
                proof {
                    lemma_match_err(owned_views(declared@), gs, owned_views(existing@), b + 1);
                }
                return Err(string_of(v.as_slice()));
            },
            Some(g) => {
                let path = &given[g].path;
                if !contains_str(existing, path.as_str()) {
                    let mut v: Vec<char> = Vec::new();
                    push_str(&mut v, "--block ");
                    push_str(&mut v, name.as_str());
                    push_str(&mut v, "=");
                    push_str(&mut v, path.as_str());
                    push_str(&mut v, " does not exist");
                    proof {
                        lemma_match_err(owned_views(declared@), gs, owned_views(existing@), b + 1);
                    }
                    return Err(string_of(v.as_slice()));
                }
                let ghost before = resolved@.map_values(|p: (String, String)| (p.0@, p.1@));
                resolved.push((name.clone(), path.clone()));
                assert(resolved@.map_values(|p: (String, String)| (p.0@, p.1@)) =~= before.push((name@, path@)));
            },
        }
        b += 1;
    }
    assert(owned_views(declared@).subrange(0, b as int) =~= owned_views(declared@));
    Ok(resolved)
}

/// A MAC address as `aa:bb:cc:dd:ee:ff`.
pub open spec fn mac_spec(mac: [u8; 6]) -> Seq<char> {
    hex2(mac[0]) + ":"@ + hex2(mac[1]) + ":"@ + hex2(mac[2]) + ":"@ + hex2(mac[3]) + ":"@ + hex2(mac[4]) + ":"@
        + hex2(mac[5])
}

fn push_hex2(v: &mut Vec<char>, b: u8)
    ensures
        final(v)@ == old(v)@ + hex2(b),
{
    v.push(hex_char(b / 16));
    v.push(hex_char(b % 16));
    assert(final(v)@ =~= old(v)@ + hex2(b)) by {
    }
}

/// Format a MAC address the way the tender takes it.
pub fn format_mac(mac: [u8; 6]) -> (r: String)
    ensures
        r@ == mac_spec(mac),
{
    let mut v: Vec<char> = Vec::new();
    push_hex2(&mut v, mac[0]);
    push_str(&mut v, ":");
    push_hex2(&mut v, mac[1]);
    push_str(&mut v, ":");
    push_hex2(&mut v, mac[2]);
    push_str(&mut v, ":");
    push_hex2(&mut v, mac[3]);
    push_str(&mut v, ":");
    push_hex2(&mut v, mac[4]);
    push_str(&mut v, ":");
    push_hex2(&mut v, mac[5]);
    assert(v@ =~= mac_spec(mac));
    string_of(v.as_slice())
}

/// The exit status the tender reports: its own code, or, killed by a signal,
/// 128 plus the signal, as a shell reports it.
pub fn exit_code(code: Option<i32>, signal: Option<i32>) -> (r: i32)
    requires
        code is None && signal is Some ==> signal->0 <= i32::MAX - 128,
    ensures
        r == match code {
            Some(c) => c as int,
            None => 128 + match signal {
                Some(s) => s as int,
                None => 0,
            },
        },
{
    match code {
        Some(c) => c,
        None => 128 + match signal {
            Some(s) => s,
            None => 0,
        },
    }
}

/// The tender's command line: memory, each network device on its
/// descriptor (the first with the fixed MAC when gvproxy serves it), each
/// block device, then `--` so a unikernel argument starting with a dash is
/// not read as a tender option.
pub open spec fn tender_args_spec(mem: u32, nets: Seq<(Seq<char>, int)>, mac: Option<Seq<char>>, blocks: Seq<(Seq<char>, Seq<char>)>, kernel: Seq<char>, args: Seq<Seq<char>>) -> Seq<Seq<char>> {
    seq!["--mem="@ + decimal(mem as nat)] + net_args(nets, mac) + blocks.map_values(
        |b: (Seq<char>, Seq<char>)| "--block:"@ + b.0 + "="@ + b.1,
    ) + seq!["--"@, kernel] + args
}

/// `--net:NAME=@FD` per device, with `--net-mac:NAME=MAC` after the first
/// when a MAC is given.
pub open spec fn net_args(nets: Seq<(Seq<char>, int)>, mac: Option<Seq<char>>) -> Seq<Seq<char>>
    decreases nets.len(),
{
    if nets.len() == 0 {
        Seq::empty()
    } else {
        let n = nets.last();
        let one = seq!["--net:"@ + n.0 + "=@"@ + signed_decimal(n.1)];
        let extra = if nets.len() == 1 && mac is Some {
            seq!["--net-mac:"@ + n.0 + "="@ + mac->0]
        } else {
            Seq::empty()
        };
        net_args(nets.drop_last(), mac) + one + extra
    }
}

proof fn lemma_strings_push(s: Seq<String>, x: String)
    ensures
        owned_views(s.push(x)) == owned_views(s).push(x@),
{
    assert(owned_views(s.push(x)) =~= owned_views(s).push(x@));
}

/// The tender's command line.
pub fn tender_args(
    mem: u32,
    nets: &Vec<(String, i32)>,
    mac: &Option<String>,
    blocks: &Vec<(String, String)>,
    kernel: &str,
    args: &Vec<String>,
) -> (r: Vec<String>)
    ensures
        owned_views(r@) == tender_args_spec(
            mem,
            nets@.map_values(|n: (String, i32)| (n.0@, n.1 as int)),
            match mac {
                Some(m) => Some(m@),
                None => None,
            },
            blocks@.map_values(|b: (String, String)| (b.0@, b.1@)),
            kernel@,
            owned_views(args@),
        ),
{
    let ghost macv = match mac {
        Some(m) => Some(m@),
        None => None::<Seq<char>>,
    };
    let ghost nv = nets@.map_values(|n: (String, i32)| (n.0@, n.1 as int));
    let ghost bv = blocks@.map_values(|b: (String, String)| (b.0@, b.1@));
    let mut out: Vec<String> = Vec::new();
    let mut m: Vec<char> = Vec::new();
    push_str(&mut m, "--mem=");
    let d = decimal_chars(mem as u64);
    push_chars(&mut m, &d);
    let x = string_of(m.as_slice());
    proof {
        lemma_strings_push(out@, x);
    }
    out.push(x);
    assert(owned_views(out@) =~= seq!["--mem="@ + decimal(mem as nat)]);
    let mut i: usize = 0;
    while i < nets.len()
        invariant
            i <= nets@.len(),
            nv == nets@.map_values(|n: (String, i32)| (n.0@, n.1 as int)),
            macv == (match mac {
                Some(m) => Some(m@),
                None => None::<Seq<char>>,
            }),
            owned_views(out@) == seq!["--mem="@ + decimal(mem as nat)] + net_args(nv.subrange(0, i as int), macv),
        decreases nets.len() - i,
    {
        let ghost pre = nv.subrange(0, i + 1);
        assert(pre.drop_last() =~= nv.subrange(0, i as int));
        let mut a: Vec<char> = Vec::new();
        push_str(&mut a, "--net:");
        push_str(&mut a, nets[i].0.as_str());
        push_str(&mut a, "=@");
        let fd = i64_chars(nets[i].1 as i64);
        push_chars(&mut a, &fd);
        let ghost before = owned_views(out@);
        let x = string_of(a.as_slice());
        proof {
            lemma_strings_push(out@, x);
        }
        out.push(x);
        if i == 0 {
            match mac {
                Some(mm) => {
                    let mut b: Vec<char> = Vec::new();
                    push_str(&mut b, "--net-mac:");
                    push_str(&mut b, nets[i].0.as_str());
                    push_str(&mut b, "=");
                    push_str(&mut b, mm.as_str());
                    let x = string_of(b.as_slice());
                    proof {
                        lemma_strings_push(out@, x);
                    }
                    out.push(x);
                },
                None => {},
            }
        }
        assert(pre.last() == (nets@[i as int].0@, nets@[i as int].1 as int));
        i += 1;
        assert(owned_views(out@) =~= seq!["--mem="@ + decimal(mem as nat)] + net_args(nv.subrange(0, i as int), macv));
    }
    assert(nv.subrange(0, i as int) =~= nv);
    let ghost head = owned_views(out@);
    let mut j: usize = 0;
    while j < blocks.len()
        invariant
            j <= blocks@.len(),
            bv == blocks@.map_values(|b: (String, String)| (b.0@, b.1@)),
            owned_views(out@) == head + bv.subrange(0, j as int).map_values(
                |b: (Seq<char>, Seq<char>)| "--block:"@ + b.0 + "="@ + b.1,
            ),
        decreases blocks.len() - j,
    {
        let mut a: Vec<char> = Vec::new();
        push_str(&mut a, "--block:");
        push_str(&mut a, blocks[j].0.as_str());
        push_str(&mut a, "=");
        push_str(&mut a, blocks[j].1.as_str());
        let x = string_of(a.as_slice());
        proof {
            lemma_strings_push(out@, x);
        }
        out.push(x);
        j += 1;
        assert(owned_views(out@) =~= head + bv.subrange(0, j as int).map_values(
            |b: (Seq<char>, Seq<char>)| "--block:"@ + b.0 + "="@ + b.1,
        ));
    }
    assert(bv.subrange(0, j as int) =~= bv);
    let x = String::from_str("--");
    proof {
        lemma_strings_push(out@, x);
    }
    out.push(x);
    let x = String::from_str(kernel);
    proof {
        lemma_strings_push(out@, x);
    }
    out.push(x);
    let ghost mid = owned_views(out@);
    let mut k: usize = 0;
    while k < args.len()
        invariant
            k <= args@.len(),
            owned_views(out@) == mid + owned_views(args@).subrange(0, k as int),
        decreases args.len() - k,
    {
        let x = args[k].clone();
        proof {
            lemma_strings_push(out@, x);
        }
        out.push(x);
        k += 1;
        assert(owned_views(out@) =~= mid + owned_views(args@).subrange(0, k as int));
    }
    assert(owned_views(args@).subrange(0, k as int) =~= owned_views(args@));
    assert(owned_views(out@) =~= tender_args_spec(mem, nv, macv, bv, kernel@, owned_views(args@)));
    out
}

/// An argument that gives a network device the fixed MAC.
pub open spec fn is_mac_arg(a: Seq<char>) -> bool {
    crate::text::starts_with(a, "--net-mac:"@)
}

/// The one MAC argument there may be: for the first device.
pub open spec fn first_mac_arg(nets: Seq<(Seq<char>, int)>, mac: Seq<char>) -> Seq<char> {
    "--net-mac:"@ + nets[0].0 + "="@ + mac
}

proof fn lemma_not_mac_arg(a: Seq<char>, lead: Seq<char>)
    requires
        lead == "--net:"@ || lead == "--mem="@ || lead == "--block:"@,
        crate::text::starts_with(a, lead),
    ensures
        !is_mac_arg(a),
{
    reveal_strlit("--net:");
    reveal_strlit("--mem=");
    reveal_strlit("--block:");
    reveal_strlit("--net-mac:");
    if is_mac_arg(a) {
        let m = a.subrange(0, 10);
        let l = a.subrange(0, lead.len() as int);
        assert(m == "--net-mac:"@);
        assert(l == lead);
        if lead == "--net:"@ {
            assert(a[5] == m[5] && a[5] == l[5]);
        } else {
            assert(a[2] == m[2] && a[2] == l[2]);
        }
    }
}

proof fn lemma_net_args(nets: Seq<(Seq<char>, int)>, mac: Option<Seq<char>>)
    ensures
        net_args(nets, mac).len() == nets.len() + (if nets.len() > 0 && mac is Some {
            1int
        } else {
            0int
        }),
        forall|i: int|
            0 <= i < net_args(nets, mac).len() && is_mac_arg(#[trigger] net_args(nets, mac)[i]) ==> i == 1
                && nets.len() > 0 && mac is Some && net_args(nets, mac)[i] == first_mac_arg(nets, mac->0),
        nets.len() > 0 && mac is Some ==> net_args(nets, mac)[1] == first_mac_arg(nets, mac->0),
    decreases nets.len(),
{
    reveal_strlit("--net:");
    reveal_strlit("--net-mac:");
    if nets.len() > 0 {
        let init = nets.drop_last();
        lemma_net_args(init, mac);
        let n = nets.last();
        let one = "--net:"@ + n.0 + "=@"@ + crate::text::signed_decimal(n.1);
        assert(crate::text::starts_with(one, "--net:"@)) by {
            assert(one.subrange(0, 6) =~= "--net:"@);
        }
        lemma_not_mac_arg(one, "--net:"@);
        let r = net_args(nets, mac);
        let p = net_args(init, mac);
        if nets.len() == 1 {
            assert(init.len() == 0);
            assert(p.len() == 0);
            assert(n == nets[0]);
            if mac is Some {
                let x = "--net-mac:"@ + n.0 + "="@ + mac->0;
                assert(r =~= seq![one, x]);
                assert(is_mac_arg(x)) by {
                    assert(x.subrange(0, 10) =~= "--net-mac:"@);
                }
            } else {
                assert(r =~= seq![one]);
            }
        } else {
            assert(r =~= p.push(one));
            assert(init[0] == nets[0]);
            assert forall|i: int| 0 <= i < r.len() && is_mac_arg(#[trigger] r[i]) implies i == 1 && nets.len() > 0
                && mac is Some && r[i] == first_mac_arg(nets, mac->0) by {
                if i < p.len() {
                    assert(r[i] == p[i]);
                }
            }
            if mac is Some {
                assert(r[1] == p[1]);
            }
        }
    }
}

/// The fixed MAC goes to the first network device and to no other: before
/// the `--` that ends the tender's own options, at most one argument gives
/// a MAC, it names the first device, and it is there exactly when a MAC and
/// a device are.
pub proof fn only_the_first_device_gets_the_mac(
    mem: u32,
    nets: Seq<(Seq<char>, int)>,
    mac: Option<Seq<char>>,
    blocks: Seq<(Seq<char>, Seq<char>)>,
    kernel: Seq<char>,
    args: Seq<Seq<char>>,
)
    ensures
        ({
            let r = tender_args_spec(mem, nets, mac, blocks, kernel, args);
            let opts = r.subrange(0, r.len() - args.len() - 2);
            &&& r.len() >= args.len() + 2
            &&& r[r.len() - args.len() - 2] == "--"@
            &&& forall|i: int, j: int|
                0 <= i < j < opts.len() ==> !(is_mac_arg(#[trigger] opts[i]) && is_mac_arg(#[trigger] opts[j]))
            &&& forall|i: int|
                0 <= i < opts.len() && is_mac_arg(#[trigger] opts[i]) ==> nets.len() > 0 && mac is Some
                    && opts[i] == first_mac_arg(nets, mac->0)
            &&& (nets.len() > 0 && mac is Some) ==> opts.contains(first_mac_arg(nets, mac->0))
        }),
{
    reveal_strlit("--mem=");
    reveal_strlit("--block:");
    reveal_strlit("--net-mac:");
    lemma_net_args(nets, mac);
    let na = net_args(nets, mac);
    let bl = blocks.map_values(|b: (Seq<char>, Seq<char>)| "--block:"@ + b.0 + "="@ + b.1);
    let memarg = "--mem="@ + decimal(mem as nat);
    let r = tender_args_spec(mem, nets, mac, blocks, kernel, args);
    let opts = r.subrange(0, r.len() - args.len() - 2);
    assert(r =~= ((seq![memarg] + na + bl) + seq!["--"@, kernel]) + args);
    assert(opts =~= seq![memarg] + na + bl);
    assert(crate::text::starts_with(memarg, "--mem="@)) by {
        assert(memarg.subrange(0, 6) =~= "--mem="@);
    }
    lemma_not_mac_arg(memarg, "--mem="@);
    assert forall|i: int| 0 <= i < bl.len() implies !is_mac_arg(#[trigger] bl[i]) by {
        let b = blocks[i];
        assert(bl[i] == "--block:"@ + b.0 + "="@ + b.1);
        assert(bl[i].subrange(0, 8) =~= "--block:"@);
        lemma_not_mac_arg(bl[i], "--block:"@);
    }
    assert forall|i: int| 0 <= i < opts.len() && is_mac_arg(#[trigger] opts[i]) implies 1 <= i < 1 + na.len()
        && opts[i] == na[i - 1] by {
        if i == 0 {
            assert(opts[0] == memarg);
        } else if i >= 1 + na.len() {
            assert(opts[i] == bl[i - 1 - na.len()]);
        }
    }
    assert forall|i: int| 0 <= i < opts.len() && is_mac_arg(#[trigger] opts[i]) implies nets.len() > 0
        && mac is Some && opts[i] == first_mac_arg(nets, mac->0) by {
        assert(is_mac_arg(na[i - 1]));
    }
    assert forall|i: int, j: int| 0 <= i < j < opts.len() implies !(is_mac_arg(#[trigger] opts[i]) && is_mac_arg(
        #[trigger] opts[j],
    )) by {
        if is_mac_arg(opts[i]) && is_mac_arg(opts[j]) {
            assert(is_mac_arg(na[i - 1]) && is_mac_arg(na[j - 1]));
        }
    }
    if nets.len() > 0 && mac is Some {
        assert(opts[2] == na[1]);
    }
}

} // verus!
