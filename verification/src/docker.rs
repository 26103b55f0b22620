//! The Docker engine: a `docker:dind` machine whose API the host's `docker`
//! CLI reaches through a unix socket. This module holds what the engine is
//! called and where its files live, the HTTP framing of the API requests and
//! replies (chunked bodies, the multiplexed log stream), and the container
//! actions the UIs offer.

use vstd::prelude::*;
use vstd::string::*;
use vstd::utf8::{decode_utf8, encode_utf8, is_ascii_chars, valid_utf8};

use crate::db::{join, path_join};
use crate::dns::{lossy_chars, lossy_text};
use crate::machines::{truncate, truncate_spec};
use crate::text::{
    chars_of, contains_seq, decimal, decimal_chars, first_index, first_of, first_ws, has_substring,
    join_strings, joined, lemma_lex_antisym, lemma_lex_total, lemma_lex_trans, lex_le, lex_le_exec,
    lower_char, lower_seq, opt_view, owned_views, pad_end, parse_hex, parse_hex_spec, parse_u16,
    parse_u16_spec, push_chars, push_pad_end, push_str, skip_word, skip_ws, split_at_char,
    split_spec, str_eq, string_of, strip_cr, sub_chars, trim, trim_chars, trim_start, vec_eq,
};

verus! {

/// The machine name the Docker VM always has.
pub const MACHINE_NAME: &'static str = "bsdkrun-docker";

/// The named volume holding `/var/lib/docker`.
pub const VOLUME: &'static str = "bsdkrun-docker";

/// The OCI image the VM boots.
pub const IMAGE: &'static str = "docker:dind";

/// dockerd's plaintext API port inside the guest.
pub const GUEST_API_PORT: u16 = 2375;

/// The `docker context` bsdkrun creates and points at its socket.
pub const CONTEXT: &'static str = "bsdkrun";

/// The well-known path Docker Desktop owns, claimed only on request.
pub const SYSTEM_SOCKET: &'static str = "/var/run/docker.sock";

/// The guest path the data disk is mounted at.
pub const DATA_MOUNT: &'static str = "/var/lib/docker";

/// `<state>/docker`: the socket, the proxy's log, the data disk.
pub fn docker_dir(state: &str) -> (r: String)
    ensures
        r@ == join(state@, "docker"@),
{
    path_join(state, "docker")
}

/// The unix socket the host's `docker` CLI talks to.
pub fn socket_path(state: &str) -> (r: String)
    ensures
        r@ == join(join(state@, "docker"@), "docker.sock"@),
{
    let d = docker_dir(state);
    path_join(d.as_str(), "docker.sock")
}

/// The proxy's log.
pub fn log_path(state: &str) -> (r: String)
    ensures
        r@ == join(join(state@, "docker"@), "proxy.log"@),
{
    let d = docker_dir(state);
    path_join(d.as_str(), "proxy.log")
}

/// The dedicated image store, when one was asked for.
pub fn data_disk(state: &str) -> (r: String)
    ensures
        r@ == join(join(state@, "docker"@), "data.img"@),
{
    let d = docker_dir(state);
    path_join(d.as_str(), "data.img")
}

/// Whether the engine is up: its machine row says running and its pid lives.
pub fn engine_running(machine: &Option<(String, bool)>) -> (r: bool)
    ensures
        r == (machine matches Some((status, alive)) && status@ == "running"@ && *alive),
{
    match machine {
        Some((status, alive)) => str_eq(status.as_str(), "running") && *alive,
        None => false,
    }
}

/// The data disk's size, when there is one.
pub fn data_disk_size(len: Option<u64>) -> (r: Option<u64>)
    ensures
        r == len,
{
    len
}

/// The port forwards a machine row records: `HOST:GUEST` pairs joined with
/// commas, each pair that does not parse skipped.
pub open spec fn ports_spec(s: Seq<char>) -> Seq<(u16, u16)> {
    split_spec(s, ',').filter(|p: Seq<char>| pair_spec(p) is Some).map_values(|p: Seq<char>| pair_spec(p)->0)
}

/// One `HOST:GUEST` pair.
pub open spec fn pair_spec(p: Seq<char>) -> Option<(u16, u16)> {
    let k = first_of(p, ':');
    if k < p.len() {
        match (parse_u16_spec(trim(p.subrange(0, k as int))), parse_u16_spec(trim(p.subrange(k + 1int, p.len() as int)))) {
            (Some(h), Some(g)) => Some((h, g)),
            _ => None,
        }
    } else {
        None
    }
}

/// The host port forwarded to the guest's dockerd: the first recorded
/// forward whose guest side is the API port.
pub open spec fn api_port_spec(ports: Option<Seq<char>>) -> Option<u16> {
    match ports {
        Some(s) => first_to(ports_spec(s), GUEST_API_PORT),
        None => None,
    }
}

pub open spec fn first_to(ps: Seq<(u16, u16)>, guest: u16) -> Option<u16>
    decreases ps.len(),
{
    if ps.len() == 0 {
        None
    } else if ps[0].1 == guest {
        Some(ps[0].0)
    } else {
        first_to(ps.drop_first(), guest)
    }
}

fn parse_pair(p: &Vec<char>) -> (r: Option<(u16, u16)>)
    ensures
        r == pair_spec(p@),
{
    let k = first_index(p, ':');
    if k < p.len() {
        let a = sub_chars(p, 0, k);
        let b = sub_chars(p, k + 1, p.len());
        let at = trim_chars(&a);
        let bt = trim_chars(&b);
        match (parse_u16(&at), parse_u16(&bt)) {
            (Some(h), Some(g)) => Some((h, g)),
            _ => None,
        }
    } else {
        None
    }
}

fn parse_ports(s: &str) -> (r: Vec<(u16, u16)>)
    ensures
        r@ == ports_spec(s@),
{
    let c = chars_of(s);
    let parts = split_at_char(&c, ',');
    let ghost all = parts@.map_values(|l: Vec<char>| l@);
    let mut out: Vec<(u16, u16)> = Vec::new();
    let mut i: usize = 0;
    while i < parts.len()
        invariant
            i <= parts@.len(),
            all == parts@.map_values(|l: Vec<char>| l@),
            all == split_spec(s@, ','),
            out@ == all.subrange(0, i as int).filter(|p: Seq<char>| pair_spec(p) is Some).map_values(
                |p: Seq<char>| pair_spec(p)->0,
            ),
        decreases parts.len() - i,
    {
        proof {
            let pre = all.subrange(0, i + 1);
            assert(pre.drop_last() =~= all.subrange(0, i as int));
            assert(pre.last() == parts@[i as int]@);
            reveal(Seq::filter);
        }
        match parse_pair(&parts[i]) {
            Some(pr) => {
                out.push(pr);
            },
            None => {},
        }
        i += 1;
        assert(out@ =~= all.subrange(0, i as int).filter(|p: Seq<char>| pair_spec(p) is Some).map_values(
            |p: Seq<char>| pair_spec(p)->0,
        ));
    }
    assert(all.subrange(0, i as int) =~= all);
    out
}

/// The host port forwarded to the guest's dockerd, from the machine's
/// recorded forwards.
pub fn api_port(ports: &Option<String>) -> (r: Option<u16>)
    ensures
        r == api_port_spec(match ports {
            Some(s) => Some(s@),
            None => None,
        }),
{
    let s = match ports {
        Some(s) => s,
        None => return None,
    };
    let ps = parse_ports(s.as_str());
    let mut i: usize = 0;
    assert(ps@.subrange(0, ps@.len() as int) =~= ps@);
    while i < ps.len()
        invariant
            i <= ps@.len(),
            ps@ == ports_spec(s@),
            match ports {
                Some(x) => Some(x@),
                None => None,
            } == Some(s@),
            first_to(ps@, GUEST_API_PORT) == first_to(ps@.subrange(i as int, ps@.len() as int), GUEST_API_PORT),
        decreases ps.len() - i,
    {
        let ghost rest = ps@.subrange(i as int, ps@.len() as int);
        assert(rest.drop_first() =~= ps@.subrange(i + 1, ps@.len() as int));
        assert(rest[0] == ps@[i as int]);
        if ps[i].1 == GUEST_API_PORT {
            assert(first_to(rest, GUEST_API_PORT) == Some(ps@[i as int].0));
            return Some(ps[i].0);
        }
        i += 1;
    }
    None
}

/// The HTTP request for one Docker API call: `Connection: close`, so the
/// reply is read to EOF.
pub open spec fn request_spec(method: Seq<char>, path: Seq<char>, body: Seq<char>, body_len: nat) -> Seq<char> {
    method + " "@ + path
        + " HTTP/1.1\r\nHost: docker\r\nAccept: application/json\r\nContent-Type: application/json\r\nContent-Length: "@
        + decimal(body_len) + "\r\nConnection: close\r\n\r\n"@ + body
}

/// The request text for one call; `Content-Length` counts the body's bytes.
pub fn request(method: &str, path: &str, body: &str) -> (r: String)
    ensures
        r@ == request_spec(method@, path@, body@, body.spec_bytes().len()),
{
    let n = body.as_bytes().len();
    let mut v: Vec<char> = Vec::new();
    push_str(&mut v, method);
    push_str(&mut v, " ");
    push_str(&mut v, path);
    push_str(
        &mut v,
        " HTTP/1.1\r\nHost: docker\r\nAccept: application/json\r\nContent-Type: application/json\r\nContent-Length: ",
    );
    let d = decimal_chars(n as u64);
    push_chars(&mut v, &d);
    push_str(&mut v, "\r\nConnection: close\r\n\r\n");
    push_str(&mut v, body);
    assert(v@ =~= request_spec(method@, path@, body@, body.spec_bytes().len()));
    string_of(v.as_slice())
}

/// Where the first `\r\n` starts, or the length when there is none.
pub open spec fn first_crlf(b: Seq<u8>) -> nat
    decreases b.len(),
{
    if b.len() < 2 {
        b.len()
    } else if b[0] == 13 && b[1] == 10 {
        0
    } else {
        1 + first_crlf(b.drop_first())
    }
}

/// A chunk-size line's value: the hex number before any `;` extension, 0
/// when it does not parse.
pub open spec fn chunk_size(line: Seq<char>) -> nat {
    match parse_hex_spec(split_spec(trim(line), ';')[0], u64::MAX as nat) {
        Some(v) => v,
        None => 0,
    }
}

/// The body with HTTP chunked framing stripped: `<hex length>\r\n<data>\r\n`
/// pieces up to a zero-length one, a short one, or the end.
#[verifier::opaque]
pub open spec fn dechunk_spec(b: Seq<u8>) -> Seq<char>
    decreases b.len(),
{
    let k = first_crlf(b);
    if k + 2 > b.len() {
        Seq::empty()
    } else {
        let size = chunk_size(lossy_text(b.subrange(0, k as int)));
        let tail = b.subrange(k + 2int, b.len() as int);
        if size == 0 || tail.len() < size {
            Seq::empty()
        } else {
            let after = tail.subrange(size as int, tail.len() as int);
            let rest = if after.len() >= 2 && after[0] == 13 && after[1] == 10 {
                after.subrange(2, after.len() as int)
            } else {
                Seq::empty()
            };
            lossy_text(tail.subrange(0, size as int)) + dechunk_spec(rest)
        }
    }
}

proof fn lemma_first_crlf(b: Seq<u8>, k: int)
    requires
        0 <= k <= b.len(),
        k + 1 < b.len() ==> b[k] == 13 && b[k + 1] == 10,
        k + 1 >= b.len() ==> k == b.len(),
        forall|j: int| 0 <= j < k && j + 1 < b.len() ==> !(#[trigger] b[j] == 13 && b[j + 1] == 10),
    ensures
        first_crlf(b) == k,
    decreases b.len(),
{
    if b.len() >= 2 && k > 0 {
        lemma_first_crlf(b.drop_first(), k - 1);
    }
}

proof fn lemma_first_crlf_props(b: Seq<u8>)
    ensures
        first_crlf(b) <= b.len(),
        first_crlf(b) < b.len() ==> first_crlf(b) + 1 < b.len(),
    decreases b.len(),
{
    if b.len() >= 2 && !(b[0] == 13 && b[1] == 10) {
        lemma_first_crlf_props(b.drop_first());
    }
}

fn find_crlf(b: &[u8], from: usize) -> (r: usize)
    requires
        from <= b@.len(),
    ensures
        r == from + first_crlf(b@.subrange(from as int, b@.len() as int)),
{
    let mut i = from;
    while b.len() - i >= 2
        invariant
            from <= i <= b@.len(),
            forall|j: int| from <= j < i && j + 1 < b@.len() ==> !(#[trigger] b@[j] == 13 && b@[j + 1] == 10),
        decreases b.len() - i,
    {
        if b[i] == 13 && b[i + 1] == 10 {
            proof {
                lemma_first_crlf(b@.subrange(from as int, b@.len() as int), i - from);
            }
            return i;
        }
        i += 1;
    }
    proof {
        lemma_first_crlf(b@.subrange(from as int, b@.len() as int), b@.len() - from);
    }
    b.len()
}

/// One chunk of a chunked body that starts at `pos`: its data and where the
/// next one starts, or `None` where the framing ends.
fn next_chunk(b: &[u8], pos: usize) -> (r: Option<(Vec<char>, usize)>)
    requires
        pos <= b@.len(),
    ensures
        match r {
            Some((chunk, next)) => {
                &&& pos < next <= b@.len()
                &&& dechunk_spec(b@.subrange(pos as int, b@.len() as int)) == chunk@ + dechunk_spec(
                    b@.subrange(next as int, b@.len() as int),
                )
            },
            None => dechunk_spec(b@.subrange(pos as int, b@.len() as int)) == Seq::<char>::empty(),
        },
{
    let ghost cur = b@.subrange(pos as int, b@.len() as int);
    reveal(dechunk_spec);
    let k = find_crlf(b, pos);
    proof {
        lemma_first_crlf_props(cur);
    }
    if k >= b.len() || b.len() - k < 2 {
        return None;
    }
    let line = lossy_chars(vstd::slice::slice_subrange(b, pos, k));
    assert(cur.subrange(0, k - pos) =~= b@.subrange(pos as int, k as int));
    let t = trim_chars(&line);
    let pieces = split_at_char(&t, ';');
    assert(split_spec(t@, ';').len() >= 1);
    assert(pieces@.map_values(|l: Vec<char>| l@)[0] == pieces@[0]@);
    let size: usize = match parse_hex(&pieces[0], u64::MAX) {
        Some(v) => {
            if v > usize::MAX as u64 {
                0
            } else {
                v as usize
            }
        },
        None => 0,
    };
    let tail_start = k + 2;
    let ghost tail = b@.subrange(tail_start as int, b@.len() as int);
    assert(cur.subrange(k - pos + 2, cur.len() as int) =~= tail);
    if size == 0 || b.len() - tail_start < size {
        proof {
            if chunk_size(line@) != size {
                assert(chunk_size(line@) > usize::MAX);
                assert(b.len() - tail_start < chunk_size(line@));
            }
        }
        return None;
    }
    assert(chunk_size(line@) == size);
    let chunk = lossy_chars(vstd::slice::slice_subrange(b, tail_start, tail_start + size));
    assert(tail.subrange(0, size as int) =~= b@.subrange(tail_start as int, tail_start + size));
    let after = tail_start + size;
    let next = if b.len() - after >= 2 && b[after] == 13 && b[after + 1] == 10 {
        after + 2
    } else {
        b.len()
    };
    proof {
        let af = tail.subrange(size as int, tail.len() as int);
        assert(af =~= b@.subrange(after as int, b@.len() as int));
        if af.len() >= 2 && af[0] == 13 && af[1] == 10 {
            assert(af.subrange(2, af.len() as int) =~= b@.subrange(next as int, b@.len() as int));
        } else {
            assert(b@.subrange(next as int, b@.len() as int) =~= Seq::<u8>::empty());
        }
    }
    Some((chunk, next))
}

/// Strip HTTP chunked framing from a body.
pub fn dechunk(body: &str) -> (r: String)
    ensures
        r@ == dechunk_spec(body.spec_bytes()),
{
    let b = body.as_bytes();
    let mut out: Vec<char> = Vec::new();
    let mut pos: usize = 0;
    assert(b@.subrange(0, b@.len() as int) =~= b@);
    loop
        invariant
            pos <= b@.len(),
            b@ == body.spec_bytes(),
            out@ + dechunk_spec(b@.subrange(pos as int, b@.len() as int)) == dechunk_spec(body.spec_bytes()),
        ensures
            out@ == dechunk_spec(body.spec_bytes()),
        decreases b@.len() - pos,
    {
        match next_chunk(b, pos) {
            None => {
                assert(out@ + Seq::<char>::empty() =~= out@);
                break;
            },
            Some((chunk, next)) => {
                let ghost before = out@;
                let mut j: usize = 0;
                while j < chunk.len()
                    invariant
                        j <= chunk@.len(),
                        out@ == before + chunk@.subrange(0, j as int),
                    decreases chunk.len() - j,
                {
                    out.push(chunk[j]);
                    j += 1;
                    assert(out@ =~= before + chunk@.subrange(0, j as int));
                }
                assert(chunk@.subrange(0, j as int) =~= chunk@);
                assert(out@ + dechunk_spec(b@.subrange(next as int, b@.len() as int)) =~= before + (chunk@
                    + dechunk_spec(b@.subrange(next as int, b@.len() as int))));
                pos = next;
            },
        }
    }
    string_of(out.as_slice())
}

/// A big-endian 32-bit length at `i`.
pub open spec fn be32(b: Seq<u8>, i: int) -> nat {
    (b[i] as nat) * 0x100_0000 + (b[i + 1] as nat) * 0x1_0000 + (b[i + 2] as nat) * 0x100 + (b[i + 3] as nat)
}

/// Docker's non-TTY log frames from `i` on: an 8-byte header (stream 0-2,
/// three zero bytes, a big-endian length) then the payload, cut at the end.
/// `None` when something that is not a frame header is met.
pub open spec fn frames(b: Seq<u8>, i: int) -> Option<Seq<char>>
    decreases b.len() - i,
{
    if i < 0 || i + 8 > b.len() {
        Some(Seq::empty())
    } else if b[i] > 2 || b[i + 1] != 0 || b[i + 2] != 0 || b[i + 3] != 0 {
        None
    } else {
        let start = i + 8;
        let end = if start + be32(b, i + 4) <= b.len() {
            start + be32(b, i + 4)
        } else {
            b.len() as int
        };
        match frames(b, end) {
            Some(rest) => Some(lossy_text(b.subrange(start, end)) + rest),
            None => None,
        }
    }
}

/// A container's logs with Docker's frames stripped; output that is not
/// framed (a TTY container's) passes through untouched.
pub open spec fn demux_spec(raw: Seq<char>, bytes: Seq<u8>) -> Seq<char> {
    match frames(bytes, 0) {
        Some(out) => if out.len() == 0 {
            raw
        } else {
            out
        },
        None => raw,
    }
}

/// Strip Docker's log frames.
pub fn demux_logs(raw: &str) -> (r: String)
    ensures
        r@ == demux_spec(raw@, raw.spec_bytes()),
{
    let b = raw.as_bytes();
    let mut out: Vec<char> = Vec::new();
    let mut i: usize = 0;
    while b.len() - i >= 8
        invariant
            i <= b@.len(),
            b@ == raw.spec_bytes(),
            frames(b@, 0) == match frames(b@, i as int) {
                Some(rest) => Some(out@ + rest),
                None => None,
            },
        decreases b@.len() - i,
    {
        if b[i] > 2 || b[i + 1] != 0 || b[i + 2] != 0 || b[i + 3] != 0 {
            return String::from_str(raw);
        }
        let len: u64 = (b[i + 4] as u64) * 0x100_0000 + (b[i + 5] as u64) * 0x1_0000 + (b[i + 6] as u64) * 0x100
            + (b[i + 7] as u64);
        let start = i + 8;
        let end: usize = if (len as u128) + (start as u128) <= b.len() as u128 {
            start + len as usize
        } else {
            b.len()
        };
        assert(len as nat == be32(b@, i + 4));
        let piece = lossy_chars(vstd::slice::slice_subrange(b, start, end));
        let ghost before = out@;
        let mut j: usize = 0;
        while j < piece.len()
            invariant
                j <= piece@.len(),
                out@ == before + piece@.subrange(0, j as int),
            decreases piece.len() - j,
        {
            out.push(piece[j]);
            j += 1;
            assert(out@ =~= before + piece@.subrange(0, j as int));
        }
        assert(piece@.subrange(0, j as int) =~= piece@);
        proof {
            match frames(b@, end as int) {
                Some(rest) => {
                    assert(out@ + rest =~= before + (piece@ + rest));
                },
                None => {},
            }
        }
        i = end;
    }
    proof {
        assert(out@ + Seq::<char>::empty() =~= out@);
    }
    if out.len() == 0 {
        String::from_str(raw)
    } else {
        string_of(out.as_slice())
    }
}

/// A character a URL path segment carries as is.
pub open spec fn url_safe(c: char) -> bool {
    ('a' <= c && c <= 'z') || ('A' <= c && c <= 'Z') || ('0' <= c && c <= '9') || c == '-' || c == '_' || c
        == '.' || c == '~'
}

/// Uppercase hex digits of a code point, at least two.
pub open spec fn hex_upper(n: nat) -> Seq<char>
    decreases n,
{
    if n < 16 {
        seq![upper_digit(n)]
    } else {
        hex_upper(n / 16).push(upper_digit(n % 16))
    }
}

pub open spec fn upper_digit(d: nat) -> char {
    if d < 10 {
        (d + 48) as char
    } else {
        (d + 55) as char
    }
}

/// One character percent-encoded, as `%{:02X}` of its code point.
pub open spec fn encode_char(c: char) -> Seq<char> {
    if url_safe(c) {
        seq![c]
    } else {
        let h = hex_upper((c as u32) as nat);
        "%"@ + if h.len() < 2 {
            seq!['0'] + h
        } else {
            h
        }
    }
}

/// Percent-encode what a container name or id could carry that would break
/// the request line.
pub open spec fn urlencode_spec(s: Seq<char>) -> Seq<char>
    decreases s.len(),
{
    if s.len() == 0 {
        Seq::empty()
    } else {
        urlencode_spec(s.drop_last()) + encode_char(s.last())
    }
}

fn upper_char(d: u32) -> (r: char)
    requires
        d < 16,
    ensures
        r == upper_digit(d as nat),
{
    if d < 10 {
        ((d as u8) + 48) as char
    } else {
        ((d as u8) + 55) as char
    }
}

fn hex_upper_chars(n: u32) -> (r: Vec<char>)
    ensures
        r@ == hex_upper(n as nat),
    decreases n,
{
    if n < 16 {
        let mut v: Vec<char> = Vec::new();
        v.push(upper_char(n));
        v
    } else {
        let mut v = hex_upper_chars(n / 16);
        v.push(upper_char(n % 16));
        v
    }
}

/// Percent-encode a container name or id.
pub fn urlencode(s: &str) -> (r: String)
    ensures
        r@ == urlencode_spec(s@),
{
    let c = chars_of(s);
    let mut v: Vec<char> = Vec::new();
    let mut i: usize = 0;
    while i < c.len()
        invariant
            i <= c@.len(),
            c@ == s@,
            v@ == urlencode_spec(c@.subrange(0, i as int)),
        decreases c.len() - i,
    {
        let ch = c[i];
        let ghost pre = c@.subrange(0, i + 1);
        assert(pre.drop_last() =~= c@.subrange(0, i as int));
        let ghost before = v@;
        if ('a' <= ch && ch <= 'z') || ('A' <= ch && ch <= 'Z') || ('0' <= ch && ch <= '9') || ch == '-' || ch == '_'
            || ch == '.' || ch == '~' {
            v.push(ch);
            assert(v@ =~= before + encode_char(ch));
        } else {
            push_str(&mut v, "%");
            let h = hex_upper_chars(ch as u32);
            if h.len() < 2 {
                v.push('0');
            }
            push_chars(&mut v, &h);
            assert(v@ =~= before + encode_char(ch));
        }
        i += 1;
    }
    assert(c@.subrange(0, i as int) =~= c@);
    string_of(v.as_slice())
}

/// What a percent-encoded name is made of: unreserved characters, `%`, and
/// uppercase hex digits; nothing that could end a request line's path.
pub open spec fn request_safe(c: char) -> bool {
    url_safe(c) || c == '%' || ('A' <= c && c <= 'F')
}

proof fn lemma_upper_digit_safe(d: nat)
    requires
        d < 16,
    ensures
        request_safe(upper_digit(d)),
{
    if d < 10 {
        assert(((d + 48) as char) as u32 == d + 48);
    } else {
        assert(((d + 55) as char) as u32 == d + 55);
    }
}

proof fn lemma_hex_upper_safe(n: nat)
    ensures
        forall|i: int| 0 <= i < hex_upper(n).len() ==> request_safe(#[trigger] hex_upper(n)[i]),
    decreases n,
{
    if n < 16 {
        lemma_upper_digit_safe(n);
    } else {
        lemma_hex_upper_safe(n / 16);
        lemma_upper_digit_safe(n % 16);
        let pre = hex_upper(n / 16);
        assert forall|i: int| 0 <= i < hex_upper(n).len() implies request_safe(#[trigger] hex_upper(n)[i]) by {
            if i < pre.len() {
                assert(hex_upper(n)[i] == pre[i]);
            } else {
                assert(hex_upper(n)[i] == upper_digit(n % 16));
            }
        }
    }
}

/// Percent-encoding leaves nothing that could break the request line: every
/// character of the result is unreserved, a `%`, or an uppercase hex digit.
pub proof fn urlencoded_names_are_request_safe(s: Seq<char>)
    ensures
        forall|i: int| 0 <= i < urlencode_spec(s).len() ==> request_safe(#[trigger] urlencode_spec(s)[i]),
    decreases s.len(),
{
    if s.len() > 0 {
        urlencoded_names_are_request_safe(s.drop_last());
        let c = s.last();
        let e = encode_char(c);
        if !url_safe(c) {
            let h = hex_upper((c as u32) as nat);
            lemma_hex_upper_safe((c as u32) as nat);
            reveal_strlit("%");
            assert forall|i: int| 0 <= i < e.len() implies request_safe(#[trigger] e[i]) by {
                if h.len() < 2 {
                    assert(e =~= seq!['%'] + (seq!['0'] + h));
                    if i >= 2 {
                        assert(e[i] == h[i - 2]);
                    }
                } else {
                    assert(e =~= seq!['%'] + h);
                    if i >= 1 {
                        assert(e[i] == h[i - 1]);
                    }
                }
            }
        }
        let pre = urlencode_spec(s.drop_last());
        assert forall|i: int| 0 <= i < urlencode_spec(s).len() implies request_safe(#[trigger] urlencode_spec(s)[i]) by {
            if i < pre.len() {
                assert(urlencode_spec(s)[i] == pre[i]);
            } else {
                assert(urlencode_spec(s)[i] == e[i - pre.len()]);
            }
        }
    }
}

/// The API call a container action makes: start, stop, restart, kill, pause
/// and unpause are a `POST` to `/containers/<id>/<action>`; `rm` or `remove`
/// a forced `DELETE` of the container and its anonymous volumes.
pub open spec fn action_spec(id: Seq<char>, action: Seq<char>) -> Option<(Seq<char>, Seq<char>)> {
    let e = urlencode_spec(id);
    if action == "start"@ || action == "stop"@ || action == "restart"@ || action == "kill"@ || action == "pause"@
        || action == "unpause"@ {
        Some(("POST"@, "/containers/"@ + e + "/"@ + action))
    } else if action == "rm"@ || action == "remove"@ {
        Some(("DELETE"@, "/containers/"@ + e + "?force=1&v=1"@))
    } else {
        None
    }
}

/// The method and path of a container action, or `None` for an unknown one.
pub fn container_action(id: &str, action: &str) -> (r: Option<(&'static str, String)>)
    ensures
        match r {
            Some((m, p)) => action_spec(id@, action@) == Some((m@, p@)),
            None => action_spec(id@, action@) is None,
        },
{
    let e = urlencode(id);
    if str_eq(action, "start") || str_eq(action, "stop") || str_eq(action, "restart") || str_eq(action, "kill")
        || str_eq(action, "pause") || str_eq(action, "unpause") {
        let mut v: Vec<char> = Vec::new();
        push_str(&mut v, "/containers/");
        push_str(&mut v, e.as_str());
        push_str(&mut v, "/");
        push_str(&mut v, action);
        Some(("POST", string_of(v.as_slice())))
    } else if str_eq(action, "rm") || str_eq(action, "remove") {
        let mut v: Vec<char> = Vec::new();
        push_str(&mut v, "/containers/");
        push_str(&mut v, e.as_str());
        push_str(&mut v, "?force=1&v=1");
        Some(("DELETE", string_of(v.as_slice())))
    } else {
        None
    }
}

/// The path that reads a container's logs: stdout and stderr, the last
/// `tail` lines.
pub fn container_logs(id: &str, tail: u32) -> (r: String)
    ensures
        r@ == "/containers/"@ + urlencode_spec(id@) + "/logs?stdout=1&stderr=1&tail="@ + decimal(tail as nat),
{
    let e = urlencode(id);
    let mut v: Vec<char> = Vec::new();
    push_str(&mut v, "/containers/");
    push_str(&mut v, e.as_str());
    push_str(&mut v, "/logs?stdout=1&stderr=1&tail=");
    let d = decimal_chars(tail as u64);
    push_chars(&mut v, &d);
    string_of(v.as_slice())
}

/// Where the blank line that ends an HTTP head starts, if there is one.
pub open spec fn header_end(s: Seq<char>) -> Option<nat>
    decreases s.len(),
{
    if s.len() < 4 {
        None
    } else if s[0] == '\r' && s[1] == '\n' && s[2] == '\r' && s[3] == '\n' {
        Some(0)
    } else {
        match header_end(s.drop_first()) {
            Some(k) => Some(k + 1),
            None => None,
        }
    }
}

/// The second whitespace-separated word, or nothing.
pub open spec fn second_word(s: Seq<char>) -> Seq<char> {
    let a = trim_start(s);
    let b = trim_start(a.subrange(first_ws(a) as int, a.len() as int));
    b.subrange(0, first_ws(b) as int)
}

/// The first line of an HTTP head, without its `\r`.
pub open spec fn status_line(head: Seq<char>) -> Seq<char> {
    strip_cr(head.subrange(0, first_of(head, '\n') as int))
}

/// A Docker API reply read to EOF: the body (de-chunked when the head says
/// so) when the status code starts with `2`; otherwise the status line and
/// the trimmed body as the error; a reply without the blank line after its
/// head is truncated.
pub open spec fn api_reply_spec(text: Seq<char>) -> Result<Seq<char>, Seq<char>> {
    match header_end(text) {
        None => Err("the Docker API sent a truncated response"@),
        Some(k) => {
            let head = text.subrange(0, k as int);
            let raw = text.subrange(k + 4int, text.len() as int);
            let body = if contains_seq(lower_seq(head), "transfer-encoding: chunked"@) {
                dechunk_spec(encode_utf8(raw))
            } else {
                raw
            };
            let status = status_line(head);
            let code = second_word(status);
            if code.len() > 0 && code[0] == '2' {
                Ok(body)
            } else {
                Err("the Docker API answered "@ + status + ": "@ + trim(body))
            }
        },
    }
}

proof fn lemma_header_end(s: Seq<char>, k: int)
    requires
        0 <= k,
        k + 4 <= s.len() ==> s[k] == '\r' && s[k + 1] == '\n' && s[k + 2] == '\r' && s[k + 3] == '\n',
        forall|j: int|
            0 <= j < k && j + 4 <= s.len() ==> !(#[trigger] s[j] == '\r' && s[j + 1] == '\n' && s[j + 2] == '\r'
                && s[j + 3] == '\n'),
    ensures
        k + 4 <= s.len() ==> header_end(s) == Some(k as nat),
        k + 4 > s.len() ==> header_end(s) is None,
    decreases s.len(),
{
    if s.len() >= 4 && k > 0 {
        lemma_header_end(s.drop_first(), k - 1);
    } else if s.len() >= 4 && k == 0 {
    } else {
    }
}

fn find_header_end(s: &Vec<char>) -> (r: Option<usize>)
    ensures
        match r {
            Some(k) => header_end(s@) == Some(k as nat) && k + 4 <= s@.len(),
            None => header_end(s@) is None,
        },
{
    let mut i: usize = 0;
    while s.len() >= 4 && i <= s.len() - 4
        invariant
            i <= s@.len(),
            forall|j: int|
                0 <= j < i && j + 4 <= s@.len() ==> !(#[trigger] s@[j] == '\r' && s@[j + 1] == '\n' && s@[j + 2]
                    == '\r' && s@[j + 3] == '\n'),
        decreases s.len() - i,
    {
        if s[i] == '\r' && s[i + 1] == '\n' && s[i + 2] == '\r' && s[i + 3] == '\n' {
            proof {
                lemma_header_end(s@, i as int);
            }
            return Some(i);
        }
        i += 1;
    }
    proof {
        lemma_header_end(s@, i as int);
    }
    None
}

fn lower_chars(s: &Vec<char>) -> (r: Vec<char>)
    ensures
        r@ == lower_seq(s@),
{
    let mut v: Vec<char> = Vec::new();
    let mut i: usize = 0;
    while i < s.len()
        invariant
            i <= s@.len(),
            v@ == lower_seq(s@.subrange(0, i as int)),
        decreases s.len() - i,
    {
        v.push(lower_char(s[i]));
        i += 1;
        assert(v@ =~= lower_seq(s@.subrange(0, i as int)));
    }
    assert(s@.subrange(0, i as int) =~= s@);
    v
}

/// The status code of a status line: its second word.
fn status_code(status: &Vec<char>) -> (r: Vec<char>)
    ensures
        r@ == second_word(status@),
{
    let a = skip_ws(status, 0);
    let w = skip_word(status, a);
    let b = skip_ws(status, w);
    let e = skip_word(status, b);
    proof {
        let s = status@;
        let ta = s.subrange(a as int, s.len() as int);
        assert(s.subrange(0, s.len() as int) =~= s);
        assert(ta.subrange(w - a, ta.len() as int) =~= s.subrange(w as int, s.len() as int));
        let tb = s.subrange(b as int, s.len() as int);
        assert(tb.subrange(0, e - b) =~= s.subrange(b as int, e as int));
    }
    sub_chars(status, b, e)
}

/// Interpret a Docker API reply read to EOF.
pub fn api_reply(text: &str) -> (r: Result<String, String>)
    ensures
        match (r, api_reply_spec(text@)) {
            (Ok(b), Ok(w)) => b@ == w,
            (Err(m), Err(w)) => m@ == w,
            _ => false,
        },
{
    let c = chars_of(text);
    let k = match find_header_end(&c) {
        None => return Err(String::from_str("the Docker API sent a truncated response")),
        Some(k) => k,
    };
    let head = sub_chars(&c, 0, k);
    let raw = sub_chars(&c, k + 4, c.len());
    let low = lower_chars(&head);
    let marker = chars_of("transfer-encoding: chunked");
    let body: Vec<char> = if has_substring(&low, &marker) {
        let rs = string_of(raw.as_slice());
        let d = dechunk(rs.as_str());
        chars_of(d.as_str())
    } else {
        raw
    };
    let nl = first_index(&head, '\n');
    let first = sub_chars(&head, 0, nl);
    let status: Vec<char> = if first.len() > 0 && first[first.len() - 1] == '\r' {
        sub_chars(&first, 0, first.len() - 1)
    } else {
        first
    };
    proof {
        if first@.len() > 0 && first@.last() == '\r' {
            assert(first@.drop_last() =~= first@.subrange(0, first@.len() - 1));
        }
    }
    let code = status_code(&status);
    if code.len() > 0 && code[0] == '2' {
        Ok(string_of(body.as_slice()))
    } else {
        let tb = trim_chars(&body);
        let mut v: Vec<char> = Vec::new();
        push_str(&mut v, "the Docker API answered ");
        push_chars(&mut v, &status);
        push_str(&mut v, ": ");
        push_chars(&mut v, &tb);
        Err(string_of(v.as_slice()))
    }
}

/// One entry of a container's `Ports`, as the API lists it.
#[derive(Debug, Clone)]
pub struct PortEntry {
    pub ip: Option<String>,
    pub private_port: Option<u64>,
    pub public_port: Option<u64>,
    /// `tcp` or `udp`; `tcp` when absent.
    pub kind: Option<String>,
}

pub open spec fn port_kind(p: PortEntry) -> Seq<char> {
    match p.kind {
        Some(k) => k@,
        None => "tcp"@,
    }
}

/// A published TCP port: gvproxy forwards TCP only, and a port without a
/// public side is the container's own business.
pub open spec fn is_published(p: PortEntry) -> bool {
    port_kind(p) == "tcp"@ && p.public_port is Some
}

/// A published port as `(bind ip, host, guest, proto)`.
pub open spec fn published_view(p: PortEntry) -> (Seq<char>, u16, u16, Seq<char>) {
    (
        match p.ip {
            Some(i) => i@,
            None => Seq::empty(),
        },
        (p.public_port->0) as u16,
        (match p.private_port {
            Some(g) => g,
            None => 0,
        }) as u16,
        port_kind(p),
    )
}

pub open spec fn published_spec(ports: Seq<PortEntry>) -> Seq<(Seq<char>, u16, u16, Seq<char>)> {
    ports.filter(|p: PortEntry| is_published(p)).map_values(|p: PortEntry| published_view(p))
}

pub open spec fn quad_views(v: Seq<(String, u16, u16, String)>) -> Seq<(Seq<char>, u16, u16, Seq<char>)> {
    v.map_values(|q: (String, u16, u16, String)| (q.0@, q.1, q.2, q.3@))
}

/// Every published TCP port of one container row.
pub fn published(ports: &Vec<PortEntry>) -> (r: Vec<(String, u16, u16, String)>)
    ensures
        quad_views(r@) == published_spec(ports@),
{
    let mut out: Vec<(String, u16, u16, String)> = Vec::new();
    let mut i: usize = 0;
    while i < ports.len()
        invariant
            i <= ports@.len(),
            quad_views(out@) == published_spec(ports@.subrange(0, i as int)),
        decreases ports.len() - i,
    {
        proof {
            let pre = ports@.subrange(0, i + 1);
            assert(pre.drop_last() =~= ports@.subrange(0, i as int));
            reveal(Seq::filter);
        }
        let p = &ports[i];
        let tcp = match &p.kind {
            Some(k) => str_eq(k.as_str(), "tcp"),
            None => true,
        };
        let ghost before = quad_views(out@);
        if tcp {
            match p.public_port {
                Some(host) => {
                    let ip = match &p.ip {
                        Some(s) => s.clone(),
                        None => String::new(),
                    };
                    let guest: u64 = match p.private_port {
                        Some(g) => g,
                        None => 0,
                    };
                    let proto = match &p.kind {
                        Some(k) => k.clone(),
                        None => String::from_str("tcp"),
                    };
                    out.push((ip, host as u16, guest as u16, proto));
                    assert(quad_views(out@) =~= before.push(published_view(ports@[i as int])));
                },
                None => {},
            }
        }
        i += 1;
        assert(quad_views(out@) =~= published_spec(ports@.subrange(0, i as int)));
    }
    assert(ports@.subrange(0, i as int) =~= ports@);
    out
}

/// `s` with `x` added, keeping it sorted by `String`'s order and free of
/// repeats.
pub open spec fn set_insert(s: Seq<Seq<char>>, x: Seq<char>) -> Seq<Seq<char>>
    decreases s.len(),
{
    if s.len() == 0 {
        seq![x]
    } else if s[0] == x {
        s
    } else if lex_le(x, s[0]) {
        seq![x] + s
    } else {
        seq![s[0]] + set_insert(s.drop_first(), x)
    }
}

/// The distinct items in `String` order, as a `BTreeSet` yields them.
pub open spec fn sorted_set(items: Seq<Seq<char>>) -> Seq<Seq<char>>
    decreases items.len(),
{
    if items.len() == 0 {
        Seq::empty()
    } else {
        set_insert(sorted_set(items.drop_last()), items.last())
    }
}

proof fn lemma_set_insert_skip(s: Seq<Seq<char>>, x: Seq<char>, i: int)
    requires
        0 <= i <= s.len(),
        forall|k: int| 0 <= k < i ==> #[trigger] s[k] != x && !lex_le(x, s[k]),
    ensures
        set_insert(s, x) == s.subrange(0, i) + set_insert(s.subrange(i, s.len() as int), x),
    decreases i,
{
    if i > 0 {
        assert(s[0] != x && !lex_le(x, s[0]));
        let t = s.drop_first();
        assert forall|k: int| 0 <= k < i - 1 implies #[trigger] t[k] != x && !lex_le(x, t[k]) by {
            assert(t[k] == s[k + 1]);
        }
        lemma_set_insert_skip(t, x, i - 1);
        assert(t.subrange(i - 1, t.len() as int) =~= s.subrange(i, s.len() as int));
        assert(seq![s[0]] + t.subrange(0, i - 1) =~= s.subrange(0, i));
    } else {
        assert(s.subrange(0, s.len() as int) =~= s);
        assert(s.subrange(0, 0) + set_insert(s, x) =~= set_insert(s, x));
    }
}

pub open spec fn char_views(v: Seq<Vec<char>>) -> Seq<Seq<char>> {
    v.map_values(|c: Vec<char>| c@)
}

fn insert_unique(s: &mut Vec<Vec<char>>, x: Vec<char>)
    ensures
        char_views(final(s)@) == set_insert(char_views(old(s)@), x@),
{
    let ghost sv = char_views(s@);
    let mut i: usize = 0;
    while i < s.len() && !vec_eq(&s[i], &x) && !lex_le_exec(&x, &s[i])
        invariant
            i <= s@.len(),
            sv == char_views(s@),
            forall|k: int| 0 <= k < i ==> #[trigger] sv[k] != x@ && !lex_le(x@, sv[k]),
        decreases s.len() - i,
    {
        assert(sv[i as int] == s@[i as int]@);
        i += 1;
    }
    proof {
        lemma_set_insert_skip(sv, x@, i as int);
    }
    if i < s.len() && vec_eq(&s[i], &x) {
        assert(sv.subrange(i as int, sv.len() as int)[0] == sv[i as int]);
        assert(sv.subrange(0, i as int) + sv.subrange(i as int, sv.len() as int) =~= sv);
        return;
    }
    let ghost tail = sv.subrange(i as int, sv.len() as int);
    if i < s.len() {
        assert(tail[0] == sv[i as int]);
    }
    s.insert(i, x);
    assert(char_views(s@) =~= sv.subrange(0, i as int) + set_insert(tail, x@));
}

/// A container, as the UIs and SDKs see it: a trimmed `docker ps` row.
#[derive(Debug, Clone)]
pub struct Container {
    pub id: String,
    /// The first name Docker reports, without its leading slash.
    pub name: String,
    pub image: String,
    pub command: String,
    /// `running`, `exited`, `created`, `paused`, ...
    pub state: String,
    /// Docker's human status, e.g. `Up 3 minutes`.
    pub status: String,
    /// Published forwards, each `HOST:GUEST/proto`.
    pub ports: Vec<String>,
    /// Unix epoch seconds.
    pub created: i64,
}

/// What one row of the container list carries, field by field.
#[derive(Debug, Clone)]
pub struct RawContainer {
    pub id: Option<String>,
    /// The first of its `Names`.
    pub first_name: Option<String>,
    pub image: Option<String>,
    pub command: Option<String>,
    pub state: Option<String>,
    pub status: Option<String>,
    pub ports: Vec<PortEntry>,
    pub created: Option<i64>,
}

pub open spec fn or_empty(o: Option<String>) -> Seq<char> {
    match o {
        Some(s) => s@,
        None => Seq::empty(),
    }
}

/// `s` without its leading `/`s.
pub open spec fn strip_slashes(s: Seq<char>) -> Seq<char>
    decreases s.len(),
{
    if s.len() > 0 && s[0] == '/' {
        strip_slashes(s.drop_first())
    } else {
        s
    }
}

/// A published port as `HOST:GUEST/proto`.
pub open spec fn port_text(p: (Seq<char>, u16, u16, Seq<char>)) -> Seq<char> {
    decimal(p.1 as nat) + ":"@ + decimal(p.2 as nat) + "/"@ + p.3
}

pub open spec fn container_ports(ports: Seq<PortEntry>) -> Seq<Seq<char>> {
    sorted_set(published_spec(ports).map_values(|p: (Seq<char>, u16, u16, Seq<char>)| port_text(p)))
}

fn text_or_empty(o: &Option<String>) -> (r: String)
    ensures
        r@ == or_empty(*o),
{
    match o {
        Some(s) => s.clone(),
        None => String::new(),
    }
}

/// A container row: its id cut to 12 characters, its first name without
/// the leading `/`, its published ports deduplicated and sorted (Docker
/// lists a port once per address family).
pub fn container_row(raw: &RawContainer) -> (r: Container)
    ensures
        r.id@ == or_empty(raw.id).subrange(0, if or_empty(raw.id).len() < 12 {
            or_empty(raw.id).len() as int
        } else {
            12
        }),
        r.name@ == strip_slashes(or_empty(raw.first_name)),
        r.image@ == or_empty(raw.image),
        r.command@ == or_empty(raw.command),
        r.state@ == or_empty(raw.state),
        r.status@ == or_empty(raw.status),
        r.ports@.map_values(|s: String| s@) == container_ports(raw.ports@),
        r.created == match raw.created {
            Some(c) => c,
            None => 0,
        },
{
    let idc = chars_of(text_or_empty(&raw.id).as_str());
    let n = if idc.len() < 12 {
        idc.len()
    } else {
        12
    };
    let id = sub_chars(&idc, 0, n);
    let nm = chars_of(text_or_empty(&raw.first_name).as_str());
    let mut j: usize = 0;
    assert(nm@.subrange(0, nm@.len() as int) =~= nm@);
    while j < nm.len() && nm[j] == '/'
        invariant
            j <= nm@.len(),
            strip_slashes(nm@) == strip_slashes(nm@.subrange(j as int, nm@.len() as int)),
        decreases nm.len() - j,
    {
        assert(nm@.subrange(j as int, nm@.len() as int).drop_first() =~= nm@.subrange(j + 1, nm@.len() as int));
        j += 1;
    }
    assert(nm@.subrange(0, nm@.len() as int) =~= nm@);
    let name = sub_chars(&nm, j, nm.len());
    let pubs = published(&raw.ports);
    let ghost texts = published_spec(raw.ports@).map_values(|p: (Seq<char>, u16, u16, Seq<char>)| port_text(p));
    let mut set: Vec<Vec<char>> = Vec::new();
    let mut k: usize = 0;
    while k < pubs.len()
        invariant
            k <= pubs@.len(),
            quad_views(pubs@) == published_spec(raw.ports@),
            texts == published_spec(raw.ports@).map_values(|p: (Seq<char>, u16, u16, Seq<char>)| port_text(p)),
            char_views(set@) == sorted_set(texts.subrange(0, k as int)),
        decreases pubs.len() - k,
    {
        let mut t: Vec<char> = decimal_chars(pubs[k].1 as u64);
        push_str(&mut t, ":");
        let g = decimal_chars(pubs[k].2 as u64);
        push_chars(&mut t, &g);
        push_str(&mut t, "/");
        push_str(&mut t, pubs[k].3.as_str());
        assert(quad_views(pubs@)[k as int] == (pubs@[k as int].0@, pubs@[k as int].1, pubs@[k as int].2, pubs@[k as int].3@));
        assert(t@ == texts[k as int]);
        let ghost pre = texts.subrange(0, k + 1);
        assert(pre.drop_last() =~= texts.subrange(0, k as int));
        insert_unique(&mut set, t);
        k += 1;
    }
    assert(texts.subrange(0, k as int) =~= texts);
    let mut ports: Vec<String> = Vec::new();
    let mut m: usize = 0;
    while m < set.len()
        invariant
            m <= set@.len(),
            ports@.map_values(|s: String| s@) == char_views(set@).subrange(0, m as int),
        decreases set.len() - m,
    {
        let ghost before = ports@.map_values(|s: String| s@);
        ports.push(string_of(set[m].as_slice()));
        assert(ports@.map_values(|s: String| s@) =~= before.push(set@[m as int]@));
        m += 1;
        assert(ports@.map_values(|s: String| s@) =~= char_views(set@).subrange(0, m as int));
    }
    assert(char_views(set@).subrange(0, m as int) =~= char_views(set@));
    Container {
        id: string_of(id.as_slice()),
        name: string_of(name.as_slice()),
        image: text_or_empty(&raw.image),
        command: text_or_empty(&raw.command),
        state: text_or_empty(&raw.state),
        status: text_or_empty(&raw.status),
        ports,
        created: match raw.created {
            Some(c) => c,
            None => 0,
        },
    }
}

/// What keeping the socket proxy alive calls for.
#[derive(Debug, Clone, Copy, PartialEq, Eq)]
pub enum ProxyAction {
    /// The proxy is alive and its socket is there.
    Keep,
    /// Nothing to serve: no Docker VM, a stopped one, or no API forward.
    Idle,
    /// Respawn the proxy against this API port.
    Spawn(u16),
}

/// Lazy supervision of the socket proxy: respawn it when its pid is gone
/// (or its socket is) while the VM is up with an API forward.
pub open spec fn ensure_proxy_spec(
    proxy_alive: bool,
    socket_exists: bool,
    machine: Option<(Seq<char>, bool, Option<Seq<char>>)>,
) -> ProxyAction {
    if proxy_alive && socket_exists {
        ProxyAction::Keep
    } else {
        match machine {
            None => ProxyAction::Idle,
            Some((status, alive, ports)) => if status != "running"@ || !alive {
                ProxyAction::Idle
            } else {
                match api_port_spec(ports) {
                    Some(p) => ProxyAction::Spawn(p),
                    None => ProxyAction::Idle,
                }
            },
        }
    }
}

pub open spec fn machine_view(m: Option<(String, bool, Option<String>)>) -> Option<(Seq<char>, bool, Option<Seq<char>>)> {
    match m {
        Some((s, a, p)) => Some(
            (
                s@,
                a,
                match p {
                    Some(x) => Some(x@),
                    None => None,
                },
            ),
        ),
        None => None,
    }
}

/// Whether the socket proxy must be respawned, from whether its recorded
/// pid lives, whether its socket exists, and the Docker VM's row (status,
/// pid alive, recorded forwards).
pub fn ensure_proxy(proxy_alive: bool, socket_exists: bool, machine: &Option<(String, bool, Option<String>)>) -> (r: ProxyAction)
    ensures
        r == ensure_proxy_spec(proxy_alive, socket_exists, machine_view(*machine)),
{
    if proxy_alive && socket_exists {
        return ProxyAction::Keep;
    }
    match machine {
        None => ProxyAction::Idle,
        Some((status, alive, ports)) => {
            if !str_eq(status.as_str(), "running") || !*alive {
                return ProxyAction::Idle;
            }
            match api_port(ports) {
                Some(p) => ProxyAction::Spawn(p),
                None => ProxyAction::Idle,
            }
        },
    }
}

/// The forwards to add and to withdraw so the host's forwards equal what
/// the containers publish: each `(bind address, port)` wanted and not yet
/// forwarded, and each forwarded and no longer wanted.
pub fn port_changes(want: &Vec<(String, u16)>, exposed: &Vec<(String, u16)>) -> (r: (Vec<(String, u16)>, Vec<(String, u16)>))
    ensures
        pair_views(r.0@).to_set() == pair_views(want@).to_set().difference(pair_views(exposed@).to_set()),
        pair_views(r.1@).to_set() == pair_views(exposed@).to_set().difference(pair_views(want@).to_set()),
{
    let add = missing_from(want, exposed);
    let drop = missing_from(exposed, want);
    (add, drop)
}

pub open spec fn pair_views(v: Seq<(String, u16)>) -> Seq<(Seq<char>, u16)> {
    v.map_values(|p: (String, u16)| (p.0@, p.1))
}

fn contains_pair(v: &Vec<(String, u16)>, x: &(String, u16)) -> (r: bool)
    ensures
        r == pair_views(v@).contains((x.0@, x.1)),
{
    let mut i: usize = 0;
    while i < v.len()
        invariant
            i <= v@.len(),
            forall|k: int| 0 <= k < i ==> #[trigger] pair_views(v@)[k] != (x.0@, x.1),
        decreases v.len() - i,
    {
        if v[i].1 == x.1 && str_eq(v[i].0.as_str(), x.0.as_str()) {
            assert(pair_views(v@)[i as int] == (x.0@, x.1));
            return true;
        }
        assert(pair_views(v@)[i as int] == (v@[i as int].0@, v@[i as int].1));
        i += 1;
    }
    false
}

/// The entries of `a` that `b` lacks.
fn missing_from(a: &Vec<(String, u16)>, b: &Vec<(String, u16)>) -> (r: Vec<(String, u16)>)
    ensures
        pair_views(r@).to_set() == pair_views(a@).to_set().difference(pair_views(b@).to_set()),
{
    let mut out: Vec<(String, u16)> = Vec::new();
    let mut i: usize = 0;
    while i < a.len()
        invariant
            i <= a@.len(),
            pair_views(out@).to_set() == pair_views(a@).subrange(0, i as int).to_set().difference(
                pair_views(b@).to_set(),
            ),
        decreases a.len() - i,
    {
        let ghost before = pair_views(out@);
        let ghost x = pair_views(a@)[i as int];
        let ghost pre = pair_views(a@).subrange(0, i as int);
        assert(pair_views(a@).subrange(0, i + 1) =~= pre.push(x));
        assert(pre.push(x).to_set() =~= pre.to_set().insert(x)) by {
            pre.lemma_push_to_set_commute(x);
        }
        if !contains_pair(b, &a[i]) {
            let item = (a[i].0.clone(), a[i].1);
            out.push(item);
            assert(pair_views(out@) =~= before.push(x));
            assert(before.push(x).to_set() =~= before.to_set().insert(x)) by {
                before.lemma_push_to_set_commute(x);
            }
        }
        i += 1;
        assert(pair_views(out@).to_set() =~= pair_views(a@).subrange(0, i as int).to_set().difference(
            pair_views(b@).to_set(),
        ));
    }
    assert(pair_views(a@).subrange(0, i as int) =~= pair_views(a@));
    out
}

/// What `docker status` reports, and what the UIs render.
#[derive(Debug, Clone)]
pub struct Status {
    /// The VM is up and its API answered.
    pub running: bool,
    pub machine_id: Option<String>,
    /// The VM's row says running and its pid lives.
    pub machine_running: bool,
    pub socket: String,
    /// The socket exists and the proxy behind it is alive.
    pub socket_ready: bool,
    /// Host port forwarded to the guest's dockerd.
    pub api_port: Option<u16>,
    pub proxy_pid: Option<i64>,
    /// Server version, when the API answered.
    pub version: Option<String>,
    pub containers: Option<i64>,
    pub images: Option<i64>,
    /// Host directories shared into the VM, each `HOST:GUEST`.
    pub mounts: Vec<String>,
    /// The `docker context` exists / is the active one.
    pub context: bool,
    pub context_active: bool,
    /// `/var/run/docker.sock` points at our socket.
    pub system_socket: bool,
    /// The dedicated image-store disk, when there is one.
    pub disk: Option<String>,
    pub disk_size: Option<u64>,
}

/// The Docker VM's row as `status` reads it.
#[derive(Debug, Clone)]
pub struct EngineMachine {
    pub id: String,
    pub status: String,
    pub pid_alive: bool,
    pub ports: Option<String>,
}

/// What `status` gathered from the host and the API.
#[derive(Debug, Clone)]
pub struct StatusFacts {
    pub machine: Option<EngineMachine>,
    pub socket: String,
    pub socket_exists: bool,
    /// The proxy's recorded pid, when it is alive.
    pub proxy_pid: Option<i64>,
    /// What the API's `/info` answered: server version, containers, images.
    pub info: Option<(Option<String>, Option<i64>, Option<i64>)>,
    pub mounts: Vec<String>,
    pub context: bool,
    pub context_active: bool,
    pub system_socket: bool,
    pub disk: Option<String>,
    pub disk_size: Option<u64>,
}


/// The engine's status: it runs when the VM is up and the API answered
/// with a version; the socket is ready when it exists and the proxy lives.
pub fn status(f: StatusFacts) -> (r: Status)
    ensures
        r.machine_running == (f.machine matches Some(m) && m.status@ == "running"@ && m.pid_alive),
        r.running == (r.machine_running && (f.info matches Some(i) && i.0 is Some)),
        opt_view(r.machine_id) == (match f.machine {
            Some(m) => Some(m.id@),
            None => None,
        }),
        r.api_port == (match f.machine {
            Some(m) => api_port_spec(opt_view(m.ports)),
            None => None,
        }),
        r.socket@ == f.socket@,
        r.socket_ready == (f.socket_exists && f.proxy_pid is Some),
        r.proxy_pid == f.proxy_pid,
        opt_view(r.version) == (match f.info {
            Some(i) => opt_view(i.0),
            None => None,
        }),
        r.containers == (match f.info {
            Some(i) => i.1,
            None => None,
        }),
        r.images == (match f.info {
            Some(i) => i.2,
            None => None,
        }),
        r.mounts@ == f.mounts@,
        r.context == f.context,
        r.context_active == f.context_active,
        r.system_socket == f.system_socket,
        opt_view(r.disk) == opt_view(f.disk),
        r.disk_size == f.disk_size,
{
    let ghost g = f;
    let (machine_running, machine_id, port) = match &f.machine {
        Some(m) => (str_eq(m.status.as_str(), "running") && m.pid_alive, Some(m.id.clone()), api_port(&m.ports)),
        None => (false, None, None),
    };
    let (version, containers, images) = match f.info {
        Some((v, c, i)) => (v, c, i),
        None => (None, None, None),
    };
    let running = machine_running && version.is_some();
    Status {
        running,
        machine_id,
        machine_running,
        socket: f.socket,
        socket_ready: f.socket_exists && f.proxy_pid.is_some(),
        api_port: port,
        proxy_pid: f.proxy_pid,
        version,
        containers,
        images,
        mounts: f.mounts,
        context: f.context,
        context_active: f.context_active,
        system_socket: f.system_socket,
        disk: f.disk,
        disk_size: f.disk_size,
    }
}

/// The `docker` invocation that points the `bsdkrun` context at our
/// socket: an update when the context exists, else a create with a
/// description.
pub fn context_argv(socket: &str, existing: bool) -> (r: Vec<String>)
    ensures
        existing ==> r@.map_values(|s: String| s@) == seq![
            "context"@,
            "update"@,
            CONTEXT@,
            "--docker"@,
            "host=unix://"@ + socket@,
        ],
        !existing ==> r@.map_values(|s: String| s@) == seq![
            "context"@,
            "create"@,
            CONTEXT@,
            "--docker"@,
            "host=unix://"@ + socket@,
            "--description"@,
            "bsdkrun microVM Docker engine"@,
        ],
{
    let mut h: Vec<char> = Vec::new();
    push_str(&mut h, "host=unix://");
    push_str(&mut h, socket);
    let mut v: Vec<String> = Vec::new();
    v.push(String::from_str("context"));
    v.push(String::from_str(if existing {
        "update"
    } else {
        "create"
    }));
    v.push(String::from_str(CONTEXT));
    v.push(String::from_str("--docker"));
    v.push(string_of(h.as_slice()));
    if !existing {
        v.push(String::from_str("--description"));
        v.push(String::from_str("bsdkrun microVM Docker engine"));
    }
    assert(v@.map_values(|s: String| s@) =~= if existing {
        seq!["context"@, "update"@, CONTEXT@, "--docker"@, "host=unix://"@ + socket@]
    } else {
        seq![
            "context"@,
            "create"@,
            CONTEXT@,
            "--docker"@,
            "host=unix://"@ + socket@,
            "--description"@,
            "bsdkrun microVM Docker engine"@,
        ]
    });
    v
}

/// Where a `docker` CLI could be: each `PATH` entry joined with `docker`,
/// in order.
pub fn docker_cli(path_var: &str) -> (r: Vec<String>)
    ensures
        r@.map_values(|s: String| s@) == split_spec(path_var@, ':').map_values(|d: Seq<char>| join(d, "docker"@)),
{
    let c = chars_of(path_var);
    let dirs = split_at_char(&c, ':');
    let ghost all = dirs@.map_values(|l: Vec<char>| l@);
    let mut out: Vec<String> = Vec::new();
    let mut i: usize = 0;
    while i < dirs.len()
        invariant
            i <= dirs@.len(),
            all == dirs@.map_values(|l: Vec<char>| l@),
            all == split_spec(path_var@, ':'),
            out@.map_values(|s: String| s@) == all.subrange(0, i as int).map_values(|d: Seq<char>| join(d, "docker"@)),
        decreases dirs.len() - i,
    {
        let d = string_of(dirs[i].as_slice());
        let ghost before = out@.map_values(|s: String| s@);
        out.push(path_join(d.as_str(), "docker"));
        assert(out@.map_values(|s: String| s@) =~= before.push(join(all[i as int], "docker"@)));
        i += 1;
        assert(out@.map_values(|s: String| s@) =~= all.subrange(0, i as int).map_values(
            |d: Seq<char>| join(d, "docker"@),
        ));
    }
    assert(all.subrange(0, i as int) =~= all);
    out
}

/// Strictly increasing in `String`'s order: sorted, with no repeats.
pub open spec fn strictly_sorted(s: Seq<Seq<char>>) -> bool {
    forall|i: int, j: int| 0 <= i < j < s.len() ==> lex_le(#[trigger] s[i], #[trigger] s[j]) && s[i] != s[j]
}

proof fn lemma_set_insert(s: Seq<Seq<char>>, x: Seq<char>)
    requires
        strictly_sorted(s),
    ensures
        strictly_sorted(set_insert(s, x)),
        set_insert(s, x).to_set() == s.to_set().insert(x),
    decreases s.len(),
{
    if s.len() == 0 {
        assert(set_insert(s, x) =~= seq![x]);
        assert(seq![x].to_set() =~= s.to_set().insert(x)) by {
            assert(seq![x][0] == x);
            assert(seq![x].to_set().contains(x));
        }
    } else if s[0] == x {
        assert(s.to_set().contains(x));
        assert(s.to_set().insert(x) =~= s.to_set());
    } else if lex_le(x, s[0]) {
        let r = seq![x] + s;
        assert(set_insert(s, x) == r);
        assert forall|i: int, j: int| 0 <= i < j < r.len() implies lex_le(#[trigger] r[i], #[trigger] r[j])
            && r[i] != r[j] by {
            if i == 0 {
                assert(r[i] == x);
                assert(r[j] == s[j - 1]);
                if j - 1 > 0 {
                    assert(lex_le(s[0], s[j - 1]) && s[0] != s[j - 1]);
                    lemma_lex_trans(x, s[0], s[j - 1]);
                    if x == s[j - 1] {
                        lemma_lex_antisym(x, s[0]);
                    }
                }
            } else {
                assert(r[i] == s[i - 1] && r[j] == s[j - 1]);
            }
        }
        assert(r.to_set() =~= s.to_set().insert(x)) by {
            assert forall|y: Seq<char>| r.to_set().contains(y) implies s.to_set().insert(x).contains(y) by {
                let k = choose|k: int| 0 <= k < r.len() && r[k] == y;
                if k > 0 {
                    assert(s[k - 1] == y);
                }
            }
            assert forall|y: Seq<char>| s.to_set().insert(x).contains(y) implies r.to_set().contains(y) by {
                if y == x {
                    assert(r[0] == x);
                } else {
                    let k = choose|k: int| 0 <= k < s.len() && s[k] == y;
                    assert(r[k + 1] == y);
                }
            }
        }
    } else {
        lemma_lex_total(x, s[0]);
        let t = s.drop_first();
        assert forall|i: int, j: int| 0 <= i < j < t.len() implies lex_le(#[trigger] t[i], #[trigger] t[j]) && t[i]
            != t[j] by {
            assert(t[i] == s[i + 1] && t[j] == s[j + 1]);
        }
        lemma_set_insert(t, x);
        let u = set_insert(t, x);
        let r = seq![s[0]] + u;
        assert(set_insert(s, x) == r);
        assert forall|i: int, j: int| 0 <= i < j < r.len() implies lex_le(#[trigger] r[i], #[trigger] r[j])
            && r[i] != r[j] by {
            if i == 0 {
                assert(r[j] == u[j - 1]);
                assert(u.to_set().contains(u[j - 1]));
                if u[j - 1] == x {
                } else {
                    assert(t.to_set().contains(u[j - 1]));
                    let k = choose|k: int| 0 <= k < t.len() && t[k] == u[j - 1];
                    assert(s[k + 1] == t[k]);
                    assert(lex_le(s[0], s[k + 1]) && s[0] != s[k + 1]);
                }
            } else {
                assert(r[i] == u[i - 1] && r[j] == u[j - 1]);
            }
        }
        assert(r.to_set() =~= s.to_set().insert(x)) by {
            assert forall|y: Seq<char>| r.to_set().contains(y) implies s.to_set().insert(x).contains(y) by {
                let k = choose|k: int| 0 <= k < r.len() && r[k] == y;
                if k == 0 {
                    assert(s[0] == y);
                } else {
                    assert(u[k - 1] == y);
                    assert(u.to_set().contains(y));
                    if y != x {
                        assert(t.to_set().contains(y));
                        let m = choose|m: int| 0 <= m < t.len() && t[m] == y;
                        assert(s[m + 1] == y);
                    }
                }
            }
            assert forall|y: Seq<char>| s.to_set().insert(x).contains(y) implies r.to_set().contains(y) by {
                if y == s[0] {
                    assert(r[0] == y);
                } else {
                    assert(u.to_set().contains(y)) by {
                        if y != x {
                            let k = choose|k: int| 0 <= k < s.len() && s[k] == y;
                            assert(k > 0);
                            assert(t[k - 1] == y);
                            assert(t.to_set().contains(y));
                        }
                    }
                    let k = choose|k: int| 0 <= k < u.len() && u[k] == y;
                    assert(r[k + 1] == y);
                }
            }
        }
    }
}

proof fn lemma_sorted_set(items: Seq<Seq<char>>)
    ensures
        strictly_sorted(sorted_set(items)),
        sorted_set(items).to_set() == items.to_set(),
    decreases items.len(),
{
    if items.len() == 0 {
        assert(sorted_set(items).to_set() =~= items.to_set());
    } else {
        let init = items.drop_last();
        lemma_sorted_set(init);
        lemma_set_insert(sorted_set(init), items.last());
        assert(items =~= init.push(items.last()));
        init.lemma_push_to_set_commute(items.last());
    }
}

/// A container row lists each published port once and in `String` order
/// (Docker reports a port once per address family), and lists exactly the
/// published ones.
pub proof fn container_ports_are_distinct_and_sorted(ports: Seq<PortEntry>)
    ensures
        strictly_sorted(container_ports(ports)),
        container_ports(ports).to_set() == published_spec(ports).map_values(
            |p: (Seq<char>, u16, u16, Seq<char>)| port_text(p),
        ).to_set(),
{
    lemma_sorted_set(published_spec(ports).map_values(|p: (Seq<char>, u16, u16, Seq<char>)| port_text(p)));
}

/// `docker status` on a VM that exists but is stopped.
pub const HINT_STOPPED: &'static str = "the VM exists but is stopped \u{2014} `bsdkrun docker start` resumes it";

/// `docker status` when there is no VM at all.
pub const HINT_NO_VM: &'static str = "start one with: bsdkrun docker start";

/// `docker status` when the VM runs but dockerd does not answer yet.
pub const HINT_WARMING: &'static str = "the VM is up but dockerd is not answering yet \u{2014} try again in a moment";

/// What `docker status` suggests when the engine is not running.
pub open spec fn not_running_hint_spec(s: Status) -> Seq<char> {
    if s.machine_id is Some && !s.machine_running {
        HINT_STOPPED@
    } else if s.machine_id is None {
        HINT_NO_VM@
    } else {
        HINT_WARMING@
    }
}

/// The advice line under "Docker engine: not running".
pub fn not_running_hint(s: &Status) -> (r: &'static str)
    ensures
        r@ == not_running_hint_spec(*s),
{
    if s.machine_id.is_some() && !s.machine_running {
        HINT_STOPPED
    } else if s.machine_id.is_none() {
        HINT_NO_VM
    } else {
        HINT_WARMING
    }
}

/// The `context` line of `docker status`: active, present, or how to do
/// without it.
pub open spec fn context_line_spec(s: Status) -> Seq<char> {
    if s.context && s.context_active {
        CONTEXT@ + " (active)"@
    } else if s.context {
        CONTEXT@ + " (run `docker context use "@ + CONTEXT@ + "`)"@
    } else {
        "not configured \u{2014} export DOCKER_HOST=unix://"@ + s.socket@
    }
}

/// How a shell reaches the engine, as `docker status` reports it.
pub fn context_line(s: &Status) -> (r: String)
    ensures
        r@ == context_line_spec(*s),
{
    let mut out: Vec<char> = Vec::new();
    if s.context && s.context_active {
        push_str(&mut out, CONTEXT);
        push_str(&mut out, " (active)");
    } else if s.context {
        push_str(&mut out, CONTEXT);
        push_str(&mut out, " (run `docker context use ");
        push_str(&mut out, CONTEXT);
        push_str(&mut out, "`)");
    } else {
        push_str(&mut out, "not configured \u{2014} export DOCKER_HOST=unix://");
        push_str(&mut out, s.socket.as_str());
    }
    string_of(&out)
}

/// What `docker ps` prints when there is nothing to list.
pub open spec fn no_containers_spec(all: bool) -> Seq<char> {
    "No "@ + (if all {
        Seq::<char>::empty()
    } else {
        "running "@
    }) + "containers. Run one with `docker run`."@
}

/// The empty `docker ps` message, with or without `--all`.
pub fn no_containers(all: bool) -> (r: String)
    ensures
        r@ == no_containers_spec(all),
{
    let mut out: Vec<char> = Vec::new();
    push_str(&mut out, "No ");
    if !all {
        push_str(&mut out, "running ");
    }
    push_str(&mut out, "containers. Run one with `docker run`.");
    proof {
        reveal_strlit("");
    }
    assert(all ==> out@ =~= no_containers_spec(all));
    string_of(&out)
}

/// The header of `docker ps`.
pub open spec fn ps_header_spec() -> Seq<char> {
    pad_end("CONTAINER ID"@, 14) + "  "@ + pad_end("NAME"@, 22) + "  "@ + pad_end("IMAGE"@, 24) + "  "@
        + pad_end("STATUS"@, 18) + "  "@ + "PORTS"@
}

/// One line of `docker ps`: the name, image and status cut to their columns,
/// the ports joined, or `-` when none is published.
pub open spec fn ps_row_spec(c: Container) -> Seq<char> {
    pad_end(c.id@, 14) + "  "@ + pad_end(truncate_spec(c.name@, 22), 22) + "  "@ + pad_end(
        truncate_spec(c.image@, 24),
        24,
    ) + "  "@ + pad_end(truncate_spec(c.status@, 18), 18) + "  "@ + (if c.ports.len() == 0 {
        "-"@
    } else {
        joined(owned_views(c.ports@), ", "@)
    })
}

/// The header of `docker ps`.
pub fn ps_header() -> (r: String)
    ensures
        r@ == ps_header_spec(),
{
    let mut out: Vec<char> = Vec::new();
    push_pad_end(&mut out, &chars_of("CONTAINER ID"), 14);
    push_str(&mut out, "  ");
    push_pad_end(&mut out, &chars_of("NAME"), 22);
    push_str(&mut out, "  ");
    push_pad_end(&mut out, &chars_of("IMAGE"), 24);
    push_str(&mut out, "  ");
    push_pad_end(&mut out, &chars_of("STATUS"), 18);
    push_str(&mut out, "  ");
    push_str(&mut out, "PORTS");
    string_of(&out)
}

/// One line of `docker ps`.
pub fn ps_row(c: &Container) -> (r: String)
    ensures
        r@ == ps_row_spec(*c),
{
    let mut out: Vec<char> = Vec::new();
    push_pad_end(&mut out, &chars_of(c.id.as_str()), 14);
    push_str(&mut out, "  ");
    let name = truncate(c.name.as_str(), 22);
    push_pad_end(&mut out, &chars_of(name.as_str()), 22);
    push_str(&mut out, "  ");
    let image = truncate(c.image.as_str(), 24);
    push_pad_end(&mut out, &chars_of(image.as_str()), 24);
    push_str(&mut out, "  ");
    let status = truncate(c.status.as_str(), 18);
    push_pad_end(&mut out, &chars_of(status.as_str()), 18);
    push_str(&mut out, "  ");
    if c.ports.len() == 0 {
        push_str(&mut out, "-");
    } else {
        let ports = join_strings(&c.ports, ", ");
        push_str(&mut out, ports.as_str());
    }
    string_of(&out)
}

/// A line end on the wire.
pub open spec fn crlf() -> Seq<u8> {
    seq![13u8, 10u8]
}

/// One chunk of a chunked HTTP body: the byte length of `part` in hex, a
/// line end, the bytes of `part`, a line end.
pub open spec fn chunk_frame(part: Seq<char>) -> Seq<u8> {
    encode_utf8(crate::text::hex_text(encode_utf8(part).len())) + crlf() + encode_utf8(part) + crlf()
}

/// A chunked body carrying `parts` in order, closed by the zero-size chunk.
pub open spec fn chunked_body(parts: Seq<Seq<char>>) -> Seq<u8>
    decreases parts.len(),
{
    if parts.len() == 0 {
        encode_utf8(crate::text::hex_text(0)) + crlf() + crlf()
    } else {
        chunk_frame(parts[0]) + chunked_body(parts.drop_first())
    }
}

/// The parts one after another.
pub open spec fn concat_parts(parts: Seq<Seq<char>>) -> Seq<char>
    decreases parts.len(),
{
    if parts.len() == 0 {
        Seq::empty()
    } else {
        parts[0] + concat_parts(parts.drop_first())
    }
}

proof fn lemma_first_crlf_at(b: Seq<u8>, j: int)
    requires
        0 <= j,
        j + 2 <= b.len(),
        forall|k: int| 0 <= k < j ==> b[k] != 13,
        b[j] == 13,
        b[j + 1] == 10,
    ensures
        first_crlf(b) == j,
    decreases j,
{
    if j > 0 {
        assert(b[0] != 13);
        let t = b.drop_first();
        assert forall|k: int| 0 <= k < j - 1 implies t[k] != 13 by {
            assert(t[k] == b[k + 1]);
        }
        lemma_first_crlf_at(t, j - 1);
    }
}

/// The size line written for `m` reads back as `m`.
proof fn lemma_chunk_size_of_hex(m: nat)
    requires
        m <= u64::MAX,
    ensures
        chunk_size(crate::text::hex_text(m)) == m,
{
    let h = crate::text::hex_text(m);
    crate::text::lemma_hex_text(m);
    assert(crate::text::is_lower_hex(h[0]));
    assert(crate::text::is_lower_hex(h.last()));
    assert(!crate::text::is_ws(h[0]) && !crate::text::is_ws(h.last()));
    assert(crate::text::trim_start(h) == h);
    assert(crate::text::trim_end(h) == h);
    assert(trim(h) == h);
    assert forall|j: int| 0 <= j < h.len() implies h[j] != ';' by {
        assert(crate::text::is_lower_hex(h[j]));
    }
    crate::text::lemma_first_of_pub(h, ';', h.len() as int);
    assert(split_spec(h, ';') =~= seq![h]) by {
        assert(h.subrange(0, h.len() as int) =~= h);
    }
    assert(h[0] != '+');
}

/// Text written as ASCII bytes decodes back to itself, and no byte of
/// lowercase hex text is a carriage return.
proof fn lemma_hex_bytes(m: nat)
    ensures
        ({
            let h = crate::text::hex_text(m);
            let hb = encode_utf8(h);
            &&& hb.len() == h.len()
            &&& forall|k: int| 0 <= k < hb.len() ==> hb[k] != 13
            &&& valid_utf8(hb)
            &&& decode_utf8(hb) == h
        }),
{
    let h = crate::text::hex_text(m);
    crate::text::lemma_hex_text(m);
    assert(is_ascii_chars(h)) by {
        assert forall|i: int| 0 <= i < h.len() implies '\0' <= #[trigger] h[i] <= '\u{7f}' by {
            assert(crate::text::is_lower_hex(h[i]));
        }
    }
    vstd::utf8::is_ascii_chars_encode_utf8(h);
    let hb = encode_utf8(h);
    assert forall|k: int| 0 <= k < hb.len() implies hb[k] != 13 by {
        assert(crate::text::is_lower_hex(h[k]));
        assert(h[k] as u8 == hb[k]);
    }
    vstd::utf8::encode_utf8_valid_utf8(h);
    vstd::utf8::encode_utf8_decode_utf8(h);
}

/// Dechunking reads one frame: its part, then whatever follows.
proof fn lemma_dechunk_frame(part: Seq<char>, rest: Seq<u8>)
    requires
        part.len() > 0,
        encode_utf8(part).len() <= u64::MAX,
    ensures
        dechunk_spec(chunk_frame(part) + rest) == part + dechunk_spec(rest),
{
    reveal(dechunk_spec);
    let e = encode_utf8(part);
    let m = e.len();
    let h = crate::text::hex_text(m);
    let hb = encode_utf8(h);
    lemma_hex_bytes(m);
    lemma_chunk_size_of_hex(m);
    let b = chunk_frame(part) + rest;
    assert(b =~= hb + (crlf() + (e + (crlf() + rest))));
    assert forall|k: int| 0 <= k < hb.len() implies b[k] != 13 by {
        assert(b[k] == hb[k]);
    }
    lemma_first_crlf_at(b, hb.len() as int);
    assert(b.subrange(0, hb.len() as int) =~= hb);
    assert(e.len() > 0) by {
        assert(e == vstd::utf8::encode_scalar(part[0] as u32) + encode_utf8(part.drop_first()));
    }
    vstd::utf8::encode_utf8_valid_utf8(part);
    vstd::utf8::encode_utf8_decode_utf8(part);
    let tail = b.subrange(hb.len() + 2int, b.len() as int);
    assert(tail =~= e + (crlf() + rest));
    assert(tail.subrange(0, m as int) =~= e);
    let after = tail.subrange(m as int, tail.len() as int);
    assert(after =~= crlf() + rest);
    assert(after.subrange(2, after.len() as int) =~= rest);
}

/// `dechunk` reassembles a chunked body: the chunks framed by their hex sizes
/// come back as their text, in order, up to the zero-size chunk.
pub proof fn dechunk_reassembles_a_chunked_body(parts: Seq<Seq<char>>)
    requires
        forall|i: int|
            0 <= i < parts.len() ==> (#[trigger] parts[i]).len() > 0 && encode_utf8(parts[i]).len()
                <= u64::MAX,
    ensures
        dechunk_spec(chunked_body(parts)) == concat_parts(parts),
    decreases parts.len(),
{
    if parts.len() == 0 {
        reveal(dechunk_spec);
        let hb = encode_utf8(crate::text::hex_text(0));
        lemma_hex_bytes(0);
        lemma_chunk_size_of_hex(0);
        let b = chunked_body(parts);
        assert(b =~= hb + (crlf() + crlf()));
        assert forall|k: int| 0 <= k < hb.len() implies b[k] != 13 by {
            assert(b[k] == hb[k]);
        }
        lemma_first_crlf_at(b, hb.len() as int);
        assert(b.subrange(0, hb.len() as int) =~= hb);
    } else {
        let rest = parts.drop_first();
        assert forall|i: int| 0 <= i < rest.len() implies (#[trigger] rest[i]).len() > 0 && encode_utf8(
            rest[i],
        ).len() <= u64::MAX by {
            assert(rest[i] == parts[i + 1]);
        }
        dechunk_reassembles_a_chunked_body(rest);
        assert(parts[0].len() > 0);
        lemma_dechunk_frame(parts[0], chunked_body(rest));
    }
}

/// A length as four big-endian bytes.
pub open spec fn be32_bytes(n: nat) -> Seq<u8> {
    seq![(n / 0x100_0000) as u8, (n / 0x1_0000 % 0x100) as u8, (n / 0x100 % 0x100) as u8, (n % 0x100) as u8]
}

/// One frame of Docker's multiplexed log stream: the stream number, three
/// zero bytes, the payload's byte length, the payload.
pub open spec fn log_frame(stream: u8, part: Seq<char>) -> Seq<u8> {
    seq![stream, 0u8, 0u8, 0u8] + be32_bytes(encode_utf8(part).len()) + encode_utf8(part)
}

/// A log stream carrying `parts`, each on its stream.
pub open spec fn framed_logs(parts: Seq<(u8, Seq<char>)>) -> Seq<u8>
    decreases parts.len(),
{
    if parts.len() == 0 {
        Seq::empty()
    } else {
        log_frame(parts[0].0, parts[0].1) + framed_logs(parts.drop_first())
    }
}

/// The payloads one after another.
pub open spec fn log_text(parts: Seq<(u8, Seq<char>)>) -> Seq<char>
    decreases parts.len(),
{
    if parts.len() == 0 {
        Seq::empty()
    } else {
        parts[0].1 + log_text(parts.drop_first())
    }
}

proof fn lemma_frames_shift(b: Seq<u8>, prefix: Seq<u8>, i: int)
    requires
        0 <= i <= b.len(),
    ensures
        frames(prefix + b, prefix.len() + i) == frames(b, i),
    decreases b.len() - i,
{
    let c = prefix + b;
    let j = prefix.len() + i;
    if i + 8 <= b.len() {
        assert(c[j] == b[i] && c[j + 1] == b[i + 1] && c[j + 2] == b[i + 2] && c[j + 3] == b[i + 3]);
        assert(c[j + 4] == b[i + 4] && c[j + 5] == b[i + 5] && c[j + 6] == b[i + 6] && c[j + 7] == b[i + 7]);
        assert(be32(c, j + 4) == be32(b, i + 4));
        if !(b[i] > 2 || b[i + 1] != 0 || b[i + 2] != 0 || b[i + 3] != 0) {
            let start = i + 8;
            let end = if start + be32(b, i + 4) <= b.len() {
                start + be32(b, i + 4)
            } else {
                b.len() as int
            };
            lemma_frames_shift(b, prefix, end);
            assert(c.subrange(prefix.len() + start, prefix.len() + end) =~= b.subrange(start, end));
        }
    }
}

/// Stripping the frames of a stream of frames gives back the payloads, in
/// order, whichever stream each came on.
pub proof fn demux_strips_log_frames(parts: Seq<(u8, Seq<char>)>)
    requires
        forall|i: int|
            0 <= i < parts.len() ==> (#[trigger] parts[i]).0 <= 2 && encode_utf8(parts[i].1).len()
                < 0x1_0000_0000,
    ensures
        frames(framed_logs(parts), 0) == Some(log_text(parts)),
        log_text(parts).len() > 0 ==> demux_spec(
            vstd::utf8::decode_utf8(framed_logs(parts)),
            framed_logs(parts),
        ) == log_text(parts),
    decreases parts.len(),
{
    if parts.len() > 0 {
        let rest = parts.drop_first();
        assert forall|i: int| 0 <= i < rest.len() implies (#[trigger] rest[i]).0 <= 2 && encode_utf8(
            rest[i].1,
        ).len() < 0x1_0000_0000 by {
            assert(rest[i] == parts[i + 1]);
        }
        demux_strips_log_frames(rest);
        let (stream, part) = parts[0];
        assert(stream <= 2);
        let e = encode_utf8(part);
        let n = e.len();
        let tail = framed_logs(rest);
        let b = framed_logs(parts);
        let head = seq![stream, 0u8, 0u8, 0u8] + be32_bytes(n);
        assert(b =~= head + e + tail);
        assert(b[0] == stream && b[1] == 0 && b[2] == 0 && b[3] == 0);
        assert(be32(b, 4) == n) by {
            assert(b[4] == (n / 0x100_0000) as u8 && b[5] == (n / 0x1_0000 % 0x100) as u8);
            assert(b[6] == (n / 0x100 % 0x100) as u8 && b[7] == (n % 0x100) as u8);
        }
        assert(b.subrange(8, 8 + n as int) =~= e);
        vstd::utf8::encode_utf8_valid_utf8(part);
        vstd::utf8::encode_utf8_decode_utf8(part);
        lemma_frames_shift(tail, head + e, 0);
        assert((head + e + tail) == (head + e) + tail);
    }
}

} // verus!
