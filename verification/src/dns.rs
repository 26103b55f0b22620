//! The built-in DNS responder behind machine domains: it answers every name
//! under the configured TLD with the loopback address, where the reverse
//! proxy listens.
//!
//! * A in zone     -> 127.0.0.1
//! * AAAA in zone  -> ::1
//! * other in zone -> NODATA (RCODE 0, no answers; never NXDOMAIN)
//! * out of zone   -> REFUSED, so a mis-routed query fails fast
//! * not a standard query / malformed -> `None` (dropped)
//!
//! The socket loop lives with the program; this module is the wire format.

use vstd::prelude::*;
use vstd::slice::*;
use vstd::utf8::*;
use vstd::string::*;

use crate::text::{chars_of, ends_with, lower, lower_char, lower_seq};

verus! {

/// Loopback UDP port the responder listens on.
pub const DNS_PORT: u16 = 5343;

/// Response bit of the header flags.
pub const QR: u16 = 0x8000;
/// Authoritative-answer bit.
pub const AA: u16 = 0x0400;
/// Recursion-desired bit.
pub const RD: u16 = 0x0100;
pub const RCODE_REFUSED: u16 = 5;
pub const TYPE_A: u16 = 1;
pub const TYPE_AAAA: u16 = 28;
pub const CLASS_IN: u16 = 1;
/// Short TTL: machines come and go, and the answer is always loopback anyway.
pub const TTL: u32 = 10;

/// What `String::from_utf8_lossy` makes of a byte string.
pub uninterp spec fn utf8_lossy(bytes: Seq<u8>) -> Seq<char>;

/// The text `String::from_utf8_lossy` makes of a byte string: valid UTF-8
/// decodes as itself, as its documentation says; what replacement characters
/// the rest gets is left to its name.
pub open spec fn lossy_text(bytes: Seq<u8>) -> Seq<char> {
    if valid_utf8(bytes) {
        decode_utf8(bytes)
    } else {
        utf8_lossy(bytes)
    }
}

/// The text of a label, as `String::from_utf8_lossy` decodes it: valid UTF-8
/// is decoded as is, anything else gets replacement characters.
#[verifier::external_body]
pub(crate) fn lossy_chars(bytes: &[u8]) -> (r: Vec<char>)
    ensures
        r@ == utf8_lossy(bytes@),
        r@ == lossy_text(bytes@),
{
    String::from_utf8_lossy(bytes).chars().collect()
}

/// A big-endian 16-bit field at `i`.
pub open spec fn be16(b: Seq<u8>, i: int) -> int {
    b[i] as int * 256 + b[i + 1] as int
}

/// Two bytes, big-endian.
pub open spec fn u16_bytes(x: int) -> Seq<u8> {
    seq![(x / 256) as u8, (x % 256) as u8]
}

/// Where the QNAME that starts at `pos` ends (one past its zero length byte),
/// or `None` when it runs off the message, or a length byte has either of its
/// top two bits set (a compression pointer, which a query never carries).
pub open spec fn name_end(req: Seq<u8>, pos: int) -> Option<int>
    decreases req.len() - pos,
{
    if pos < 0 || pos >= req.len() {
        None
    } else if req[pos] == 0 {
        Some(pos + 1)
    } else if req[pos] >= 64 {
        None
    } else if pos + 1 + req[pos] > req.len() {
        None
    } else {
        name_end(req, pos + 1 + req[pos])
    }
}

/// The QNAME from `pos` on, appended to `acc`: each label decoded as text and
/// the labels joined with dots.
pub open spec fn qname(req: Seq<u8>, pos: int, acc: Seq<char>) -> Seq<char>
    decreases req.len() - pos,
{
    if pos < 0 || pos >= req.len() || req[pos] == 0 || req[pos] >= 64 || pos + 1 + req[pos]
        > req.len() {
        acc
    } else {
        let len = req[pos] as int;
        let label = lossy_text(req.subrange(pos + 1, pos + 1 + len));
        let sep = if acc.len() == 0 {
            acc
        } else {
            acc.push('.')
        };
        qname(req, pos + 1 + len, sep + label)
    }
}

/// A zone with any trailing dots removed.
pub open spec fn trim_dots(z: Seq<char>) -> Seq<char>
    decreases z.len(),
{
    if z.len() > 0 && z.last() == '.' {
        trim_dots(z.drop_last())
    } else {
        z
    }
}

/// A name is in the zone when it is the zone itself or ends in `.zone`,
/// compared without regard to ASCII case.
pub open spec fn in_zone(name: Seq<char>, zone: Seq<char>) -> bool {
    let n = lower_seq(name);
    let z = lower_seq(trim_dots(zone));
    n == z || ends_with(n, seq!['.'] + z)
}

/// A standard query: at least a header, QR clear, opcode 0, one question.
pub open spec fn is_standard_query(req: Seq<u8>) -> bool {
    &&& req.len() >= 12
    &&& req[2] < 128
    &&& (req[2] / 8) % 16 == 0
    &&& be16(req, 4) == 1
}

/// The answer record for a type, after the name pointer.
pub open spec fn answer_record(qtype: int) -> Seq<u8> {
    seq![0xC0u8, 0x0Cu8] + u16_bytes(qtype) + seq![0u8, 1u8] + seq![0u8, 0u8, 0u8, 10u8] + if qtype
        == 1 {
        seq![0u8, 4u8, 127u8, 0u8, 0u8, 1u8]
    } else {
        seq![0u8, 16u8] + Seq::new(15, |i: int| 0u8) + seq![1u8]
    }
}

/// The reply to `req` for the zone `zone`, or `None` when the request is not
/// a well-formed standard query.
pub open spec fn dns_response(req: Seq<u8>, zone: Seq<char>) -> Option<Seq<u8>> {
    if !is_standard_query(req) {
        None
    } else {
        match name_end(req, 12) {
            None => None,
            Some(end) => {
                if end + 4 > req.len() {
                    None
                } else {
                    let qtype = be16(req, end);
                    let qclass = be16(req, end + 2);
                    let question = req.subrange(12, end + 4);
                    let inz = in_zone(qname(req, 12, Seq::empty()), zone);
                    let rcode: u8 = if inz {
                        0
                    } else {
                        5
                    };
                    let answers = inz && (qtype == 1 || qtype == 28) && qclass == 1;
                    let header = seq![req[0], req[1], (0x84 + req[2] % 2) as u8, rcode, 0u8, 1u8]
                        + u16_bytes(
                        if answers {
                            1
                        } else {
                            0
                        },
                    ) + seq![0u8, 0u8, 0u8, 0u8];
                    Some(
                        header + question + if answers {
                            answer_record(qtype)
                        } else {
                            Seq::empty()
                        },
                    )
                }
            },
        }
    }
}

pub open spec fn opt_bytes(r: Option<Vec<u8>>) -> Option<Seq<u8>> {
    match r {
        Some(v) => Some(v@),
        None => None,
    }
}

/// The ASCII lowercase of a character vector.
pub fn lower_vec(s: &Vec<char>) -> (r: Vec<char>)
    ensures
        r@ == lower_seq(s@),
{
    let mut out: Vec<char> = Vec::new();
    let mut i: usize = 0;
    while i < s.len()
        invariant
            i <= s.len(),
            out@ == Seq::new(i as nat, |k: int| lower(s@[k])),
        decreases s.len() - i,
    {
        out.push(lower_char(s[i]));
        i += 1;
        assert(out@ =~= Seq::new(i as nat, |k: int| lower(s@[k])));
    }
    assert(out@ =~= lower_seq(s@));
    out
}

/// Equality of two character vectors.
pub fn chars_eq(a: &Vec<char>, b: &Vec<char>) -> (r: bool)
    ensures
        r == (a@ == b@),
{
    if a.len() != b.len() {
        return false;
    }
    let mut i: usize = 0;
    while i < a.len()
        invariant
            i <= a.len(),
            a.len() == b.len(),
            a@.subrange(0, i as int) == b@.subrange(0, i as int),
        decreases a.len() - i,
    {
        if a[i] != b[i] {
            assert(a@[i as int] != b@[i as int]);
            return false;
        }
        assert(a@.subrange(0, i + 1) =~= a@.subrange(0, i as int).push(a@[i as int]));
        assert(b@.subrange(0, i + 1) =~= b@.subrange(0, i as int).push(b@[i as int]));
        i += 1;
    }
    assert(a@ =~= a@.subrange(0, a.len() as int));
    assert(b@ =~= b@.subrange(0, b.len() as int));
    true
}

/// Whether `s` ends with `p`.
pub fn chars_ends_with(s: &Vec<char>, p: &Vec<char>) -> (r: bool)
    ensures
        r == ends_with(s@, p@),
{
    if p.len() > s.len() {
        return false;
    }
    let off = s.len() - p.len();
    let mut i: usize = 0;
    while i < p.len()
        invariant
            i <= p.len(),
            off + p.len() == s.len(),
            forall|k: int| 0 <= k < i ==> s@[off + k] == p@[k],
        decreases p.len() - i,
    {
        if s[off + i] != p[i] {
            assert(s@.subrange(off as int, s.len() as int)[i as int] != p@[i as int]);
            return false;
        }
        i += 1;
    }
    assert(s@.subrange(off as int, s.len() as int) =~= p@);
    true
}

/// The zone with trailing dots removed.
fn trim_dots_vec(z: &Vec<char>) -> (r: Vec<char>)
    ensures
        r@ == trim_dots(z@),
{
    let mut n = z.len();
    assert(z@.subrange(0, n as int) =~= z@);
    while n > 0 && z[n - 1] == '.'
        invariant
            n <= z.len(),
            trim_dots(z@) == trim_dots(z@.subrange(0, n as int)),
        decreases n,
    {
        assert(z@.subrange(0, n - 1) =~= z@.subrange(0, n as int).drop_last());
        n -= 1;
    }
    let mut out: Vec<char> = Vec::new();
    let mut i: usize = 0;
    while i < n
        invariant
            i <= n,
            n <= z.len(),
            out@ == z@.subrange(0, i as int),
        decreases n - i,
    {
        out.push(z[i]);
        i += 1;
        assert(out@ =~= z@.subrange(0, i as int));
    }
    out
}

fn push_u16(out: &mut Vec<u8>, x: u16)
    ensures
        final(out)@ == old(out)@ + u16_bytes(x as int),
{
    out.push((x / 256) as u8);
    out.push((x % 256) as u8);
    assert(final(out)@ =~= old(out)@ + u16_bytes(x as int));
}

/// The QNAME of a standard query: where it ends, and its text.
fn parse_qname(req: &[u8]) -> (r: Option<(usize, Vec<char>)>)
    requires
        is_standard_query(req@),
    ensures
        match r {
            Some((e, n)) => 12 < e <= req.len() && name_end(req@, 12) == Some(e as int) && qname(
                req@,
                12,
                Seq::empty(),
            ) == n@,
            None => name_end(req@, 12) is None,
        },
{
    let mut pos: usize = 12;
    let mut name: Vec<char> = Vec::new();
    loop
        invariant_except_break
            name_end(req@, 12) == name_end(req@, pos as int),
            qname(req@, 12, Seq::empty()) == qname(req@, pos as int, name@),
        invariant
            12 <= pos <= req.len(),
        ensures
            12 < pos <= req.len(),
            name_end(req@, 12) == Some(pos as int),
            qname(req@, 12, Seq::empty()) == name@,
        decreases req.len() - pos,
    {
        if pos >= req.len() {
            return None;
        }
        let len = req[pos] as usize;
        if len == 0 {
            assert(name_end(req@, pos as int) == Some(pos + 1));
            assert(qname(req@, pos as int, name@) == name@);
            pos += 1;
            break;
        }
        if len >= 64 {
            return None;
        }
        if len > req.len() - pos - 1 {
            return None;
        }
        let label = slice_subrange(req, pos + 1, pos + 1 + len);
        let text = lossy_chars(label);
        if name.len() != 0 {
            name.push('.');
        }
        let mut k: usize = 0;
        let ghost before = name@;
        while k < text.len()
            invariant
                k <= text.len(),
                name@ == before + text@.subrange(0, k as int),
            decreases text.len() - k,
        {
            name.push(text[k]);
            k += 1;
            assert(name@ =~= before + text@.subrange(0, k as int));
        }
        assert(text@.subrange(0, text.len() as int) =~= text@);
        pos = pos + 1 + len;
    }
    Some((pos, name))
}

/// Whether a query name falls in the zone (see [`in_zone`]).
pub fn name_in_zone(name: &Vec<char>, zone: &str) -> (r: bool)
    ensures
        r == in_zone(name@, zone@),
{
    let lname = lower_vec(name);
    let zchars = chars_of(zone);
    let ztrim = trim_dots_vec(&zchars);
    let lzone = lower_vec(&ztrim);
    let mut dotzone: Vec<char> = Vec::new();
    dotzone.push('.');
    let mut k: usize = 0;
    while k < lzone.len()
        invariant
            k <= lzone.len(),
            dotzone@ == seq!['.'] + lzone@.subrange(0, k as int),
        decreases lzone.len() - k,
    {
        dotzone.push(lzone[k]);
        k += 1;
        assert(dotzone@ =~= seq!['.'] + lzone@.subrange(0, k as int));
    }
    assert(lzone@.subrange(0, lzone.len() as int) =~= lzone@);
    chars_eq(&lname, &lzone) || chars_ends_with(&lname, &dotzone)
}

fn push_answer(out: &mut Vec<u8>, qtype: u16)
    ensures
        final(out)@ == old(out)@ + answer_record(qtype as int),
{
    let ghost body = out@;
    out.push(0xC0);
    out.push(0x0C);
    push_u16(out, qtype);
    push_u16(out, CLASS_IN);
    push_u16(out, 0);
    push_u16(out, TTL as u16);
    if qtype == TYPE_A {
        push_u16(out, 4);
        out.push(127);
        out.push(0);
        out.push(0);
        out.push(1);
    } else {
        push_u16(out, 16);
        let ghost pre = out@;
        let mut j: usize = 0;
        while j < 15
            invariant
                j <= 15,
                out@ == pre + Seq::new(j as nat, |i: int| 0u8),
            decreases 15 - j,
        {
            out.push(0);
            j += 1;
            assert(out@ =~= pre + Seq::new(j as nat, |i: int| 0u8));
        }
        out.push(1);
    }
    assert(out@ =~= body + answer_record(qtype as int));
}

/// Answer one DNS query for the zone `zone`.
pub fn handle_query(req: &[u8], zone: &str) -> (r: Option<Vec<u8>>)
    ensures
        opt_bytes(r) == dns_response(req@, zone@),
{
    if req.len() < 12 {
        return None;
    }
    if req[2] >= 128 || (req[2] / 8) % 16 != 0 || req[4] as u16 * 256 + req[5] as u16 != 1 {
        return None;
    }
    let (end, name) = match parse_qname(req) {
        Some(p) => p,
        None => {
            return None;
        },
    };
    if req.len() - end < 4 {
        return None;
    }
    let qtype: u16 = req[end] as u16 * 256 + req[end + 1] as u16;
    let qclass: u16 = req[end + 2] as u16 * 256 + req[end + 3] as u16;
    let question = slice_subrange(req, 12, end + 4);
    let inz = name_in_zone(&name, zone);
    let rcode: u8 = if inz {
        0
    } else {
        5
    };
    let answers = inz && (qtype == TYPE_A || qtype == TYPE_AAAA) && qclass == CLASS_IN;

    let mut out: Vec<u8> = Vec::new();
    out.push(req[0]);
    out.push(req[1]);
    out.push(0x84 + req[2] % 2);
    out.push(rcode);
    out.push(0);
    out.push(1);
    push_u16(
        &mut out,
        if answers {
            1
        } else {
            0
        },
    );
    out.push(0);
    out.push(0);
    out.push(0);
    out.push(0);
    let ghost header = out@;
    let mut i: usize = 0;
    while i < question.len()
        invariant
            i <= question.len(),
            out@ == header + question@.subrange(0, i as int),
        decreases question.len() - i,
    {
        out.push(question[i]);
        i += 1;
        assert(out@ =~= header + question@.subrange(0, i as int));
    }
    assert(question@.subrange(0, question.len() as int) =~= question@);
    if answers {
        push_answer(&mut out, qtype);
    }
    assert(out@ =~= dns_response(req@, zone@).unwrap());
    Some(out)
}

/// A byte string with any trailing dots removed.
pub open spec fn trim_dot_bytes(t: Seq<u8>) -> Seq<u8>
    decreases t.len(),
{
    if t.len() > 0 && t.last() == 46 {
        trim_dot_bytes(t.drop_last())
    } else {
        t
    }
}

/// Dot-separated labels, each as a length byte (the length modulo 256, as a
/// `u8` cast makes it) followed by its bytes; `cur` is the label read so far.
pub open spec fn encode_labels(t: Seq<u8>, cur: Seq<u8>) -> Seq<u8>
    decreases t.len(),
{
    if t.len() == 0 {
        seq![(cur.len() % 256) as u8] + cur
    } else if t[0] == 46 {
        seq![(cur.len() % 256) as u8] + cur + encode_labels(t.drop_first(), Seq::empty())
    } else {
        encode_labels(t.drop_first(), cur.push(t[0]))
    }
}

/// The query `probe` sends: id 0x4242, RD set, one question for
/// `probe.<tld>`, type A, class IN.
pub open spec fn probe_query_bytes(tld: Seq<u8>) -> Seq<u8> {
    seq![0x42u8, 0x42u8, 0x01u8, 0x00u8, 0u8, 1u8, 0u8, 0u8, 0u8, 0u8, 0u8, 0u8, 5u8]
        + seq![112u8, 114u8, 111u8, 98u8, 101u8] + encode_labels(
        trim_dot_bytes(tld),
        Seq::empty(),
    ) + seq![0u8, 0u8, 1u8, 0u8, 1u8]
}

/// The responder's stderr log, beside the rest of the state.
pub fn dns_log_path(state: &str) -> (r: String)
    ensures
        r@ == crate::db::join(state@, "dns.log"@),
{
    crate::db::path_join(state, "dns.log")
}

/// Whether the responder must be respawned: its recorded pid (the
/// `domains.dns_pid` setting) is missing, not a number, or not alive.
/// `alive` says whether a given pid lives.
pub fn ensure_running(recorded_pid: Option<&str>, alive: bool) -> (r: bool)
    ensures
        r == !(match recorded_pid {
            Some(p) => crate::text::parse_i64_spec(p@) is Some && alive,
            None => false,
        }),
{
    match recorded_pid {
        Some(p) => {
            let c = chars_of(p);
            match crate::text::parse_i64(&c) {
                Some(_) => !alive,
                None => true,
            }
        },
        None => true,
    }
}

/// The question `probe` asks the responder: an A query for `probe.<tld>`.
pub fn probe_query(tld: &str) -> (r: Vec<u8>)
    ensures
        r@ == probe_query_bytes(tld.spec_bytes()),
{
    let t = tld.as_bytes();
    let mut n = t.len();
    assert(t@.subrange(0, n as int) =~= t@);
    while n > 0 && t[n - 1] == 46
        invariant
            n <= t.len(),
            trim_dot_bytes(t@) == trim_dot_bytes(t@.subrange(0, n as int)),
        decreases n,
    {
        assert(t@.subrange(0, n - 1) =~= t@.subrange(0, n as int).drop_last());
        n -= 1;
    }
    let ghost body = t@.subrange(0, n as int);
    assert(trim_dot_bytes(t@) == body);
    assert(body.subrange(0, n as int) =~= body);
    let mut q: Vec<u8> = Vec::new();
    q.push(0x42);
    q.push(0x42);
    q.push(0x01);
    q.push(0x00);
    q.push(0);
    q.push(1);
    q.push(0);
    q.push(0);
    q.push(0);
    q.push(0);
    q.push(0);
    q.push(0);
    q.push(5);
    q.push(112);
    q.push(114);
    q.push(111);
    q.push(98);
    q.push(101);
    let ghost head = q@;
    let mut cur: Vec<u8> = Vec::new();
    let mut i: usize = 0;
    while i < n
        invariant
            i <= n,
            n <= t.len(),
            body == t@.subrange(0, n as int),
            head + encode_labels(body, Seq::empty()) == q@ + encode_labels(
                body.subrange(i as int, n as int),
                cur@,
            ),
        decreases n - i,
    {
        let ghost rest = body.subrange(i as int, n as int);
        assert(rest.drop_first() =~= body.subrange(i + 1, n as int));
        if t[i] == 46 {
            let ghost before = q@;
            q.push((cur.len() % 256) as u8);
            let mut k: usize = 0;
            while k < cur.len()
                invariant
                    k <= cur.len(),
                    q@ == before + seq![(cur@.len() % 256) as u8] + cur@.subrange(0, k as int),
                decreases cur.len() - k,
            {
                q.push(cur[k]);
                k += 1;
                assert(q@ =~= before + seq![(cur@.len() % 256) as u8] + cur@.subrange(0, k as int));
            }
            assert(cur@.subrange(0, cur.len() as int) =~= cur@);
            cur = Vec::new();
        } else {
            cur.push(t[i]);
        }
        i += 1;
    }
    assert(body.subrange(n as int, n as int) =~= Seq::<u8>::empty());
    assert(encode_labels(Seq::<u8>::empty(), cur@) == seq![(cur@.len() % 256) as u8] + cur@);
    let ghost before = q@;
    assert(head + encode_labels(body, Seq::empty()) == before + seq![(cur@.len() % 256) as u8]
        + cur@);
    q.push((cur.len() % 256) as u8);
    let mut k: usize = 0;
    while k < cur.len()
        invariant
            k <= cur.len(),
            q@ == before + seq![(cur@.len() % 256) as u8] + cur@.subrange(0, k as int),
        decreases cur.len() - k,
    {
        q.push(cur[k]);
        k += 1;
        assert(q@ =~= before + seq![(cur@.len() % 256) as u8] + cur@.subrange(0, k as int));
    }
    assert(cur@.subrange(0, cur.len() as int) =~= cur@);
    q.push(0);
    q.push(0);
    q.push(1);
    q.push(0);
    q.push(1);
    assert(head =~= seq![0x42u8, 0x42u8, 0x01u8, 0x00u8, 0u8, 1u8, 0u8, 0u8, 0u8, 0u8, 0u8, 0u8, 5u8]
        + seq![112u8, 114u8, 111u8, 98u8, 101u8]);
    assert(q@ =~= head + encode_labels(body, Seq::empty()) + seq![0u8, 0u8, 1u8, 0u8, 1u8]);
    assert(q@ =~= probe_query_bytes(t@));
    q
}

/// A probe reply counts as answered when it ends with the loopback address.
pub fn probe_answered(reply: &[u8]) -> (r: bool)
    ensures
        r == (reply@.len() >= 4 && reply@.subrange(reply@.len() - 4, reply@.len() as int) == seq![
            127u8,
            0u8,
            0u8,
            1u8,
        ]),
{
    let n = reply.len();
    if n < 4 {
        return false;
    }
    let ok = reply[n - 4] == 127 && reply[n - 3] == 0 && reply[n - 2] == 0 && reply[n - 1] == 1;
    assert(ok == (reply@.subrange(n - 4, n as int) =~= seq![127u8, 0u8, 0u8, 1u8]));
    ok
}

/// A QNAME that ends, ends after it starts and within the message.
pub proof fn lemma_name_end_bounds(req: Seq<u8>, pos: int)
    requires
        name_end(req, pos) is Some,
    ensures
        pos < name_end(req, pos).unwrap() <= req.len(),
    decreases req.len() - pos,
{
    if req[pos] != 0 {
        lemma_name_end_bounds(req, pos + 1 + req[pos]);
    }
}

/// Every reply echoes the query's id and its question section, carries
/// exactly one question, and answers with RCODE 0 or REFUSED, never
/// NXDOMAIN; REFUSED exactly when the name is out of the zone; and it holds
/// at most one answer, present exactly for an in-zone A or AAAA query of
/// class IN, whose record ends in the loopback address of that family.
pub proof fn reply_laws(req: Seq<u8>, zone: Seq<char>)
    requires
        dns_response(req, zone) is Some,
    ensures
        ({
            let resp = dns_response(req, zone).unwrap();
            let end = name_end(req, 12).unwrap();
            let qtype = be16(req, end);
            let qclass = be16(req, end + 2);
            let inz = in_zone(qname(req, 12, Seq::empty()), zone);
            &&& resp.len() >= 12 + (end + 4 - 12)
            &&& resp[0] == req[0] && resp[1] == req[1]
            &&& resp[2] >= 128
            &&& be16(resp, 4) == 1
            &&& resp.subrange(12, end + 4) == req.subrange(12, end + 4)
            &&& (resp[3] == 0 || resp[3] == 5)
            &&& (resp[3] == 5 <==> !inz)
            &&& (be16(resp, 6) == 1 <==> (inz && (qtype == 1 || qtype == 28) && qclass == 1))
            &&& (be16(resp, 6) == 0 || be16(resp, 6) == 1)
            &&& (inz && qtype == 1 && qclass == 1 ==> resp.subrange(resp.len() - 4, resp.len() as int)
                == seq![127u8, 0u8, 0u8, 1u8])
        }),
{
    let resp = dns_response(req, zone).unwrap();
    lemma_name_end_bounds(req, 12);
    let end = name_end(req, 12).unwrap();
    let qtype = be16(req, end);
    let qclass = be16(req, end + 2);
    let inz = in_zone(qname(req, 12, Seq::empty()), zone);
    let answers = inz && (qtype == 1 || qtype == 28) && qclass == 1;
    let header = seq![req[0], req[1], (0x84 + req[2] % 2) as u8, (if inz { 0u8 } else { 5u8 }), 0u8, 1u8]
        + u16_bytes(if answers { 1 } else { 0 }) + seq![0u8, 0u8, 0u8, 0u8];
    assert(header.len() == 12);
    let question = req.subrange(12, end + 4);
    assert(resp.subrange(12, end + 4) =~= question);
    if answers && qtype == 1 {
        assert(resp.subrange(resp.len() - 4, resp.len() as int) =~= seq![127u8, 0u8, 0u8, 1u8]);
    }
}

/// Zone matching ignores ASCII case and a trailing dot on the zone.
pub proof fn zone_match_laws(name: Seq<char>, zone: Seq<char>)
    ensures
        in_zone(name, zone.push('.')) == in_zone(name, zone),
        in_zone(lower_seq(name), zone) == in_zone(name, zone),
{
    assert(zone.push('.').drop_last() =~= zone);
    assert(lower_seq(lower_seq(name)) =~= lower_seq(name));
}

} // verus!
