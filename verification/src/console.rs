//! The byte filters that sit between a detached machine's guest console and
//! whoever reads it: one strips the firmware's screen painting from the boot
//! preamble, the other finds the marker the guest prints when its console
//! shell exits. The pty broker and the terminal proxy around them live with
//! the program.

use vstd::prelude::*;
use vstd::slice::*;

verus! {

/// EDK2's opening line; the paint filter arms only after it.
pub open spec fn fw_banner() -> Seq<u8> {
    seq![
        85u8, 69u8, 70u8, 73u8, 32u8, 102u8, 105u8, 114u8, 109u8, 119u8, 97u8, 114u8, 101u8,
        32u8, 40u8, 118u8, 101u8, 114u8, 115u8, 105u8, 111u8, 110u8,
    ]
}

/// The firmware's handoff line; nothing it prints comes after this.
pub open spec fn handoff_anchor() -> Seq<u8> {
    seq![
        66u8, 100u8, 115u8, 68u8, 120u8, 101u8, 58u8, 32u8, 115u8, 116u8, 97u8, 114u8, 116u8,
        105u8, 110u8, 103u8,
    ]
}

/// The invisible marker the guest init prints when its console shell exits
/// (`ESC ] 6666 ; bsdkrun-exit BEL`).
pub open spec fn exit_marker() -> Seq<u8> {
    seq![
        27u8, 93u8, 54u8, 54u8, 54u8, 54u8, 59u8, 98u8, 115u8, 100u8, 107u8, 114u8, 117u8, 110u8,
        45u8, 101u8, 120u8, 105u8, 116u8, 7u8,
    ]
}

/// Bytes the filter looks at before giving up on a banner, and the most it
/// stays armed for when the handoff never comes.
pub const FW_PAINT_BUDGET: usize = 8192;

/// CSI final bytes that paint: erase display (`J`), cursor position (`H`,
/// `f`), mode set and reset (`h`, `l`). Colour (`m`) is kept.
pub open spec fn is_paint_final(b: u8) -> bool {
    b == 74 || b == 72 || b == 102 || b == 104 || b == 108
}

fn banner_bytes() -> (r: Vec<u8>)
    ensures
        r@ == fw_banner(),
{
    let a: [u8; 22] = [
        85u8, 69u8, 70u8, 73u8, 32u8, 102u8, 105u8, 114u8, 109u8, 119u8, 97u8, 114u8, 101u8,
        32u8, 40u8, 118u8, 101u8, 114u8, 115u8, 105u8, 111u8, 110u8,
    ];
    let v = slice_to_vec(&a);
    assert(v@ =~= fw_banner());
    v
}

fn anchor_bytes() -> (r: Vec<u8>)
    ensures
        r@ == handoff_anchor(),
{
    let a: [u8; 16] = [
        66u8, 100u8, 115u8, 68u8, 120u8, 101u8, 58u8, 32u8, 115u8, 116u8, 97u8, 114u8, 116u8,
        105u8, 110u8, 103u8,
    ];
    let v = slice_to_vec(&a);
    assert(v@ =~= handoff_anchor());
    v
}

fn marker_bytes() -> (r: Vec<u8>)
    ensures
        r@ == exit_marker(),
{
    let a: [u8; 20] = [
        27u8, 93u8, 54u8, 54u8, 54u8, 54u8, 59u8, 98u8, 115u8, 100u8, 107u8, 114u8, 117u8, 110u8,
        45u8, 101u8, 120u8, 105u8, 116u8, 7u8,
    ];
    let v = slice_to_vec(&a);
    assert(v@ =~= exit_marker());
    v
}

/// How a byte string that starts with ESC parses as a CSI sequence:
/// `ESC [` parameters (0x30-0x3F), intermediates (0x20-0x2F), final
/// (0x40-0x7E).
#[derive(Debug, Clone, Copy, PartialEq, Eq, Structural)]
pub enum CsiScan {
    Complete { len: usize, final_byte: u8 },
    /// Cut off by the end of the input: the rest may come in the next read.
    Partial,
    NotCsi,
}

/// Where a run of bytes in `lo..=hi` starting at `i` ends.
pub open spec fn run_end(s: Seq<u8>, i: int, lo: u8, hi: u8) -> int
    decreases s.len() - i,
{
    if 0 <= i < s.len() && lo <= s[i] <= hi {
        run_end(s, i + 1, lo, hi)
    } else {
        i
    }
}

pub open spec fn csi_scan(s: Seq<u8>) -> CsiScan {
    if s.len() < 2 {
        CsiScan::Partial
    } else if s[1] != 91 {
        CsiScan::NotCsi
    } else {
        let k = run_end(s, run_end(s, 2, 0x30, 0x3f), 0x20, 0x2f);
        if k >= s.len() {
            CsiScan::Partial
        } else if 0x40 <= s[k] <= 0x7e {
            CsiScan::Complete { len: (k + 1) as usize, final_byte: s[k] }
        } else {
            CsiScan::NotCsi
        }
    }
}

proof fn lemma_run_end(s: Seq<u8>, i: int, lo: u8, hi: u8)
    requires
        0 <= i <= s.len(),
    ensures
        i <= run_end(s, i, lo, hi) <= s.len(),
    decreases s.len() - i,
{
    if i < s.len() && lo <= s[i] <= hi {
        lemma_run_end(s, i + 1, lo, hi);
    }
}

fn skip_run(s: &[u8], i: usize, lo: u8, hi: u8) -> (r: usize)
    requires
        i <= s@.len(),
    ensures
        r == run_end(s@, i as int, lo, hi),
        i <= r <= s@.len(),
{
    let mut k = i;
    while k < s.len() && lo <= s[k] && s[k] <= hi
        invariant
            i <= k <= s@.len(),
            run_end(s@, i as int, lo, hi) == run_end(s@, k as int, lo, hi),
        decreases s.len() - k,
    {
        k += 1;
    }
    k
}

/// Classify the escape sequence at the start of `s` (which starts with ESC).
pub fn parse_csi(s: &[u8]) -> (r: CsiScan)
    ensures
        r == csi_scan(s@),
{
    if s.len() < 2 {
        return CsiScan::Partial;
    }
    if s[1] != 91 {
        return CsiScan::NotCsi;
    }
    let j = skip_run(s, 2, 0x30, 0x3f);
    let k = skip_run(s, j, 0x20, 0x2f);
    if k >= s.len() {
        CsiScan::Partial
    } else if 0x40 <= s[k] && s[k] <= 0x7e {
        CsiScan::Complete { len: k + 1, final_byte: s[k] }
    } else {
        CsiScan::NotCsi
    }
}

/// The bytes the paint filter emits for `b`: painting sequences dropped,
/// everything else passed, stopping at a sequence cut off by the end.
pub open spec fn paint_out(b: Seq<u8>) -> Seq<u8>
    decreases b.len(),
{
    if b.len() == 0 {
        Seq::empty()
    } else if b[0] != 0x1b {
        seq![b[0]] + paint_out(b.drop_first())
    } else {
        match csi_scan(b) {
            CsiScan::Complete { len, final_byte } => if len < 1 || len > b.len() {
                Seq::empty()
            } else {
                (if is_paint_final(final_byte) {
                    Seq::empty()
                } else {
                    b.subrange(0, len as int)
                }) + paint_out(b.subrange(len as int, b.len() as int))
            },
            CsiScan::Partial => Seq::empty(),
            CsiScan::NotCsi => seq![b[0]] + paint_out(b.drop_first()),
        }
    }
}

/// The truncated sequence the paint filter holds back from `b`, if any.
pub open spec fn paint_carry(b: Seq<u8>) -> Seq<u8>
    decreases b.len(),
{
    if b.len() == 0 {
        Seq::empty()
    } else if b[0] != 0x1b {
        paint_carry(b.drop_first())
    } else {
        match csi_scan(b) {
            CsiScan::Complete { len, final_byte } => if len < 1 || len > b.len() {
                Seq::empty()
            } else {
                paint_carry(b.subrange(len as int, b.len() as int))
            },
            CsiScan::Partial => b,
            CsiScan::NotCsi => paint_carry(b.drop_first()),
        }
    }
}

proof fn lemma_csi_len(s: Seq<u8>)
    requires
        s.len() <= usize::MAX,
    ensures
        csi_scan(s) matches CsiScan::Complete { len, final_byte } ==> 3 <= len <= s.len()
            && final_byte == s[len - 1],
{
    if s.len() >= 2 && s[1] == 91 {
        lemma_run_end(s, 2, 0x30, 0x3f);
        lemma_run_end(s, run_end(s, 2, 0x30, 0x3f), 0x20, 0x2f);
    }
}

/// Strip painting sequences from `buf`, returning what to emit and the
/// truncated tail to hold for the next read.
fn strip_paint(buf: &Vec<u8>) -> (r: (Vec<u8>, Vec<u8>))
    ensures
        r.0@ == paint_out(buf@),
        r.1@ == paint_carry(buf@),
{
    let mut out: Vec<u8> = Vec::new();
    let mut i: usize = 0;
    assert(buf@.subrange(0, buf@.len() as int) =~= buf@);
    while i < buf.len()
        invariant
            i <= buf.len(),
            paint_out(buf@) == out@ + paint_out(buf@.subrange(i as int, buf@.len() as int)),
            paint_carry(buf@) == paint_carry(buf@.subrange(i as int, buf@.len() as int)),
        decreases buf.len() - i,
    {
        let ghost rest = buf@.subrange(i as int, buf@.len() as int);
        assert(rest.drop_first() =~= buf@.subrange(i + 1, buf@.len() as int));
        if buf[i] != 0x1b {
            out.push(buf[i]);
            i += 1;
            continue;
        }
        let tail = slice_subrange(buf.as_slice(), i, buf.len());
        assert(tail@ =~= rest);
        proof {
            lemma_csi_len(rest);
        }
        match parse_csi(tail) {
            CsiScan::Complete { len, final_byte } => {
                assert(rest.subrange(len as int, rest.len() as int) =~= buf@.subrange(
                    i + len,
                    buf@.len() as int,
                ));
                if !(final_byte == 74 || final_byte == 72 || final_byte == 102 || final_byte
                    == 104 || final_byte == 108) {
                    let ghost before = out@;
                    let mut k: usize = 0;
                    while k < len
                        invariant
                            k <= len,
                            i + len <= buf.len(),
                            out@ == before + buf@.subrange(i as int, i + k),
                        decreases len - k,
                    {
                        out.push(buf[i + k]);
                        k += 1;
                        assert(out@ =~= before + buf@.subrange(i as int, i + k));
                    }
                    assert(rest.subrange(0, len as int) =~= buf@.subrange(i as int, i + len));
                }
                i += len;
            },
            CsiScan::Partial => {
                let mut carry: Vec<u8> = Vec::new();
                let mut k: usize = i;
                while k < buf.len()
                    invariant
                        i <= k <= buf.len(),
                        carry@ == buf@.subrange(i as int, k as int),
                    decreases buf.len() - k,
                {
                    carry.push(buf[k]);
                    k += 1;
                    assert(carry@ =~= buf@.subrange(i as int, k as int));
                }
                assert(out@ + Seq::<u8>::empty() =~= out@);
                return (out, carry);
            },
            CsiScan::NotCsi => {
                out.push(buf[i]);
                i += 1;
            },
        }
    }
    assert(buf@.subrange(buf.len() as int, buf.len() as int) =~= Seq::<u8>::empty());
    assert(out@ + Seq::<u8>::empty() =~= out@);
    (out, Vec::new())
}

/// The first position at or after `i` where `m` occurs in `s`.
pub open spec fn first_from(s: Seq<u8>, m: Seq<u8>, i: int) -> Option<int>
    decreases s.len() + 1 - i,
{
    if i < 0 || i + m.len() > s.len() {
        None
    } else if s.subrange(i, i + m.len()) == m {
        Some(i)
    } else {
        first_from(s, m, i + 1)
    }
}

proof fn lemma_first_from(s: Seq<u8>, m: Seq<u8>, i: int)
    requires
        0 <= i,
    ensures
        first_from(s, m, i) matches Some(j) ==> i <= j && j + m.len() <= s.len(),
    decreases s.len() + 1 - i,
{
    if i + m.len() <= s.len() && s.subrange(i, i + m.len()) != m {
        lemma_first_from(s, m, i + 1);
    }
}

fn find_from(s: &Vec<u8>, m: &Vec<u8>) -> (r: Option<usize>)
    ensures
        match r {
            Some(j) => first_from(s@, m@, 0) == Some(j as int),
            None => first_from(s@, m@, 0) is None,
        },
{
    let mut i: usize = 0;
    while i <= s.len() && m.len() <= s.len() - i
        invariant
            first_from(s@, m@, 0) == first_from(s@, m@, i as int),
        decreases s.len() + 1 - i,
    {
        let mut k: usize = 0;
        let mut same = true;
        while k < m.len()
            invariant
                k <= m.len(),
                i + m.len() <= s.len(),
                same <==> (forall|t: int| 0 <= t < k ==> s@[i + t] == m@[t]),
            decreases m.len() - k,
        {
            if s[i + k] != m[k] {
                same = false;
            }
            k += 1;
        }
        if same {
            assert(s@.subrange(i as int, i + m.len()) =~= m@);
            return Some(i);
        }
        assert(s@.subrange(i as int, i + m.len()) != m@) by {
            let t = choose|t: int| 0 <= t < m.len() && s@[i + t] != m@[t];
            assert(s@.subrange(i as int, i + m.len())[t] != m@[t]);
        }
        i += 1;
    }
    None
}

/// Where the window search of [`FirmwarePaintFilter`] trims the probe: it
/// keeps only what a marker could still end in.
pub open spec fn saw_cut(probe: Seq<u8>, chunk: Seq<u8>, mlen: int) -> int {
    let p = probe.len() + chunk.len();
    let c = if p > chunk.len() + mlen {
        p - (chunk.len() + mlen)
    } else {
        0
    };
    if c < probe.len() {
        c
    } else {
        probe.len() as int
    }
}

/// The probe after the window search.
pub open spec fn saw_probe(probe: Seq<u8>, chunk: Seq<u8>, mlen: int) -> Seq<u8> {
    let p = probe + chunk;
    p.subrange(saw_cut(probe, chunk, mlen), p.len() as int)
}

/// The offset in `chunk` just past the first `m` seen in the probe plus
/// `chunk`, tolerating a marker split across reads.
pub open spec fn saw_at(probe: Seq<u8>, chunk: Seq<u8>, m: Seq<u8>) -> Option<int> {
    let np = saw_probe(probe, chunk, m.len() as int);
    let back = probe.len() - saw_cut(probe, chunk, m.len() as int);
    match first_from(np, m, 0) {
        None => None,
        Some(i) => Some(
            if i + m.len() > back {
                i + m.len() - back
            } else {
                0
            },
        ),
    }
}

/// Where the firmware paint filter is in the firmware's short life.
#[derive(Debug, Clone, Copy, PartialEq, Eq, Structural)]
pub enum Paint {
    /// Watching for the firmware banner; bytes pass through untouched.
    Disarmed,
    /// The firmware is talking: strip its screen painting until the handoff.
    Armed,
    /// Retired for the rest of the machine's life.
    Off,
}

/// One step of the paint filter: what it emits and the state it moves to.
pub struct PaintStep {
    pub out: Seq<u8>,
    pub state: Paint,
    pub carry: Seq<u8>,
    pub probe: Seq<u8>,
    pub seen: int,
}

/// Filtering `body` (after passing `head`) while armed.
pub open spec fn armed_step(carry: Seq<u8>, probe: Seq<u8>, seen: int, head: Seq<u8>, body: Seq<u8>) -> PaintStep {
    let buf = carry + body;
    let o1 = head + paint_out(buf);
    let c1 = paint_carry(buf);
    if saw_at(probe, o1, handoff_anchor()) is Some || seen >= FW_PAINT_BUDGET {
        PaintStep { out: o1 + c1, state: Paint::Off, carry: Seq::empty(), probe: Seq::empty(), seen }
    } else {
        PaintStep {
            out: o1,
            state: Paint::Armed,
            carry: c1,
            probe: saw_probe(probe, o1, handoff_anchor().len() as int),
            seen,
        }
    }
}

/// What feeding `data` does to a paint filter in the given state.
pub open spec fn paint_step(st: Paint, carry: Seq<u8>, probe: Seq<u8>, seen: int, data: Seq<u8>) -> PaintStep {
    let seen2 = seen + data.len();
    match st {
        Paint::Off => PaintStep { out: data, state: Paint::Off, carry, probe, seen: seen2 },
        Paint::Disarmed => match saw_at(probe, data, fw_banner()) {
            None => if seen2 >= FW_PAINT_BUDGET {
                PaintStep { out: data, state: Paint::Off, carry, probe: Seq::empty(), seen: seen2 }
            } else {
                PaintStep {
                    out: data,
                    state: Paint::Disarmed,
                    carry,
                    probe: saw_probe(probe, data, fw_banner().len() as int),
                    seen: seen2,
                }
            },
            Some(at) => {
                let a = if at < data.len() {
                    at
                } else {
                    data.len() as int
                };
                armed_step(carry, Seq::empty(), seen2, data.subrange(0, a), data.subrange(a, data.len() as int))
            },
        },
        Paint::Armed => armed_step(carry, probe, seen2, Seq::empty(), data),
    }
}

/// Strips EDK2's screen-painting escapes from the firmware preamble.
///
/// It starts disarmed and arms only when the firmware introduces itself with
/// its banner, then retires for good at the handoff line; a budget of
/// [`FW_PAINT_BUDGET`] bytes backstops both ends. A guest that boots
/// directly never prints the banner, so its cursor control is never touched.
pub struct FirmwarePaintFilter {
    state: Paint,
    /// A CSI sequence split across two reads waits here for its tail.
    carry: Vec<u8>,
    /// Trailing bytes, so a marker is still found when a read splits it.
    probe: Vec<u8>,
    seen: usize,
}

impl FirmwarePaintFilter {
    pub closed spec fn spec_state(&self) -> Paint {
        self.state
    }

    pub closed spec fn held(&self) -> Seq<u8> {
        self.carry@
    }

    pub closed spec fn window(&self) -> Seq<u8> {
        self.probe@
    }

    pub closed spec fn bytes_seen(&self) -> int {
        self.seen as int
    }

    pub fn new() -> (r: Self)
        ensures
            r.spec_state() == Paint::Disarmed,
            r.held() == Seq::<u8>::empty(),
            r.window() == Seq::<u8>::empty(),
            r.bytes_seen() == 0,
    {
        FirmwarePaintFilter { state: Paint::Disarmed, carry: Vec::new(), probe: Vec::new(), seen: 0 }
    }

    /// Where the filter is.
    pub fn state(&self) -> (r: Paint)
        ensures
            r == self.spec_state(),
    {
        self.state
    }

    /// Offset in `chunk` just past `marker`, tolerating a read that splits
    /// it; `None` if the marker has not appeared yet.
    fn saw(&mut self, chunk: &Vec<u8>, marker: &Vec<u8>) -> (r: Option<usize>)
        ensures
            final(self).probe@ == saw_probe(old(self).probe@, chunk@, marker@.len() as int),
            match r {
                Some(a) => saw_at(old(self).probe@, chunk@, marker@) == Some(a as int),
                None => saw_at(old(self).probe@, chunk@, marker@) is None,
            },
            final(self).state == old(self).state,
            final(self).carry == old(self).carry,
            final(self).seen == old(self).seen,
    {
        let carried = self.probe.len();
        let mut p: Vec<u8> = Vec::new();
        let mut i: usize = 0;
        while i < carried
            invariant
                i <= carried,
                carried == self.probe@.len(),
                p@ == self.probe@.subrange(0, i as int),
            decreases carried - i,
        {
            p.push(self.probe[i]);
            i += 1;
            assert(p@ =~= self.probe@.subrange(0, i as int));
        }
        let mut j: usize = 0;
        while j < chunk.len()
            invariant
                j <= chunk.len(),
                carried == self.probe@.len(),
                p@ == self.probe@ + chunk@.subrange(0, j as int),
            decreases chunk.len() - j,
        {
            p.push(chunk[j]);
            j += 1;
            assert(p@ =~= self.probe@ + chunk@.subrange(0, j as int));
        }
        assert(chunk@.subrange(0, chunk.len() as int) =~= chunk@);
        let c = if p.len() > chunk.len() && p.len() - chunk.len() > marker.len() {
            p.len() - chunk.len() - marker.len()
        } else {
            0
        };
        let cut = if c < carried {
            c
        } else {
            carried
        };
        let mut np: Vec<u8> = Vec::new();
        let mut k: usize = cut;
        while k < p.len()
            invariant
                cut <= k <= p.len(),
                np@ == p@.subrange(cut as int, k as int),
            decreases p.len() - k,
        {
            np.push(p[k]);
            k += 1;
            assert(np@ =~= p@.subrange(cut as int, k as int));
        }
        assert(np@ == saw_probe(self.probe@, chunk@, marker@.len() as int));
        let ghost old_probe = self.probe@;
        let found = find_from(&np, marker);
        self.probe = np;
        match found {
            None => None,
            Some(at0) => {
                proof {
                    lemma_first_from(self.probe@, marker@, 0);
                }
                let at = at0 + marker.len();
                let back = carried - cut;
                Some(
                    if at > back {
                        at - back
                    } else {
                        0
                    },
                )
            },
        }
    }

    /// Filter one read of console output.
    pub fn feed(&mut self, data: &[u8]) -> (out: Vec<u8>)
        requires
            old(self).bytes_seen() + data@.len() <= usize::MAX,
        ensures
            ({
                let st = paint_step(
                    old(self).spec_state(),
                    old(self).held(),
                    old(self).window(),
                    old(self).bytes_seen(),
                    data@,
                );
                &&& out@ == st.out
                &&& final(self).spec_state() == st.state
                &&& final(self).held() == st.carry
                &&& final(self).window() == st.probe
                &&& final(self).bytes_seen() == st.seen
            }),
    {
        self.seen = self.seen + data.len();
        let d = slice_to_vec(data);
        if self.state == Paint::Off {
            return d;
        }
        let mut head: Vec<u8> = Vec::new();
        let mut body: Vec<u8> = Vec::new();
        if self.state == Paint::Disarmed {
            let banner = banner_bytes();
            match self.saw(&d, &banner) {
                Some(at) => {
                    self.state = Paint::Armed;
                    self.probe = Vec::new();
                    let a = if at < d.len() {
                        at
                    } else {
                        d.len()
                    };
                    let mut i: usize = 0;
                    while i < d.len()
                        invariant
                            i <= d.len(),
                            a <= d.len(),
                            i <= a ==> head@ == d@.subrange(0, i as int) && body@ == Seq::<u8>::empty(),
                            i > a ==> head@ == d@.subrange(0, a as int) && body@ == d@.subrange(a as int, i as int),
                        decreases d.len() - i,
                    {
                        if i < a {
                            head.push(d[i]);
                        } else {
                            body.push(d[i]);
                        }
                        i += 1;
                        assert(head@ =~= d@.subrange(0, if i <= a { i as int } else { a as int }));
                        if i > a {
                            assert(body@ =~= d@.subrange(a as int, i as int));
                        }
                    }
                    if a == d.len() {
                        assert(body@ =~= d@.subrange(a as int, d.len() as int));
                    }
                },
                None => {
                    if self.seen >= FW_PAINT_BUDGET {
                        self.state = Paint::Off;
                        self.probe = Vec::new();
                    }
                    return d;
                },
            }
        } else {
            body = d;
        }
        let ghost old_carry = self.carry@;
        let mut buf: Vec<u8> = Vec::new();
        std::mem::swap(&mut buf, &mut self.carry);
        let mut i: usize = 0;
        let ghost pre = buf@;
        while i < body.len()
            invariant
                i <= body.len(),
                buf@ == pre + body@.subrange(0, i as int),
            decreases body.len() - i,
        {
            buf.push(body[i]);
            i += 1;
            assert(buf@ =~= pre + body@.subrange(0, i as int));
        }
        assert(body@.subrange(0, body.len() as int) =~= body@);
        let (po, pc) = strip_paint(&buf);
        let mut out = head;
        let ghost h = out@;
        let mut k: usize = 0;
        while k < po.len()
            invariant
                k <= po.len(),
                out@ == h + po@.subrange(0, k as int),
            decreases po.len() - k,
        {
            out.push(po[k]);
            k += 1;
            assert(out@ =~= h + po@.subrange(0, k as int));
        }
        assert(po@.subrange(0, po.len() as int) =~= po@);
        let anchor = anchor_bytes();
        let retire = match self.saw(&out, &anchor) {
            Some(_) => true,
            None => false,
        };
        if retire || self.seen >= FW_PAINT_BUDGET {
            self.state = Paint::Off;
            let ghost o1 = out@;
            let mut k: usize = 0;
            while k < pc.len()
                invariant
                    k <= pc.len(),
                    out@ == o1 + pc@.subrange(0, k as int),
                decreases pc.len() - k,
            {
                out.push(pc[k]);
                k += 1;
                assert(out@ =~= o1 + pc@.subrange(0, k as int));
            }
            assert(pc@.subrange(0, pc.len() as int) =~= pc@);
            self.carry = Vec::new();
            self.probe = Vec::new();
        } else {
            self.carry = pc;
        }
        out
    }

    /// Release anything still held back (the machine is going away).
    pub fn flush(&mut self) -> (r: Vec<u8>)
        ensures
            r@ == old(self).held(),
            final(self).held() == Seq::<u8>::empty(),
            final(self).spec_state() == old(self).spec_state(),
            final(self).window() == old(self).window(),
            final(self).bytes_seen() == old(self).bytes_seen(),
    {
        let mut r: Vec<u8> = Vec::new();
        std::mem::swap(&mut r, &mut self.carry);
        r
    }
}

/// The exit marker starts the byte string.
pub open spec fn marker_at_start(s: Seq<u8>) -> bool {
    s.len() >= 20 && s.subrange(0, 20) == exit_marker()
}

/// `s` with every exit marker removed, scanning from the front.
pub open spec fn strip_markers(s: Seq<u8>) -> Seq<u8>
    decreases s.len(),
{
    if s.len() == 0 {
        Seq::empty()
    } else if marker_at_start(s) {
        strip_markers(s.subrange(20, s.len() as int))
    } else {
        seq![s[0]] + strip_markers(s.drop_first())
    }
}

/// How many exit markers that scan removes.
pub open spec fn count_markers(s: Seq<u8>) -> nat
    decreases s.len(),
{
    if s.len() == 0 {
        0
    } else if marker_at_start(s) {
        1 + count_markers(s.subrange(20, s.len() as int))
    } else {
        count_markers(s.drop_first())
    }
}

/// The last `h` bytes of `buf` are the first `h` bytes of the marker, for a
/// proper prefix.
pub open spec fn is_partial_marker(buf: Seq<u8>, h: int) -> bool {
    1 <= h <= 19 && h <= buf.len() && buf.subrange(buf.len() - h, buf.len() as int)
        == exit_marker().subrange(0, h)
}

pub open spec fn longest_partial(buf: Seq<u8>, h: int) -> int
    decreases h,
{
    if h <= 0 {
        0
    } else if is_partial_marker(buf, h) {
        h
    } else {
        longest_partial(buf, h - 1)
    }
}

/// Length of the longest suffix of `buf` that is a proper prefix of the
/// marker, so it might complete on the next read.
pub open spec fn partial_len(buf: Seq<u8>) -> int {
    longest_partial(buf, if buf.len() < 19 { buf.len() as int } else { 19 })
}

proof fn lemma_longest_partial(buf: Seq<u8>, h: int)
    ensures
        0 <= longest_partial(buf, h),
        h >= 0 ==> longest_partial(buf, h) <= h,
        longest_partial(buf, h) == 0 || is_partial_marker(buf, longest_partial(buf, h)),
        forall|g: int| longest_partial(buf, h) < g <= h ==> !is_partial_marker(buf, g),
    decreases h,
{
    if h > 0 && !is_partial_marker(buf, h) {
        lemma_longest_partial(buf, h - 1);
    }
}

fn marker_suffix_matches(buf: &Vec<u8>, m: &Vec<u8>, h: usize) -> (r: bool)
    requires
        m@ == exit_marker(),
        1 <= h <= 19,
        h <= buf.len(),
    ensures
        r == is_partial_marker(buf@, h as int),
{
    let off = buf.len() - h;
    assert(exit_marker().len() == 20);
    let mut k: usize = 0;
    while k < h
        invariant
            k <= h,
            h <= 19,
            off + h == buf.len(),
            m@ == exit_marker(),
            forall|t: int| 0 <= t < k ==> buf@[off + t] == m@[t],
        decreases h - k,
    {
        if buf[off + k] != m[k] {
            assert(buf@.subrange(off as int, buf.len() as int)[k as int] != exit_marker().subrange(
                0,
                h as int,
            )[k as int]);
            return false;
        }
        k += 1;
    }
    assert(buf@.subrange(off as int, buf.len() as int) =~= exit_marker().subrange(0, h as int));
    true
}

/// Length of the longest suffix of `buf` that is a proper prefix of the exit
/// marker.
pub fn partial_marker_suffix(buf: &Vec<u8>) -> (r: usize)
    ensures
        r == partial_len(buf@),
{
    let m = marker_bytes();
    let max = if buf.len() < 19 {
        buf.len()
    } else {
        19
    };
    let mut h = max;
    while h > 0
        invariant
            h <= max,
            max <= buf.len(),
            max <= 19,
            m@ == exit_marker(),
            partial_len(buf@) == longest_partial(buf@, h as int),
        decreases h,
    {
        if marker_suffix_matches(buf, &m, h) {
            return h;
        }
        h -= 1;
    }
    0
}

fn marker_at(buf: &Vec<u8>, m: &Vec<u8>, i: usize, end: usize) -> (r: bool)
    requires
        m@ == exit_marker(),
        i <= end <= buf.len(),
    ensures
        r == marker_at_start(buf@.subrange(i as int, end as int)),
{
    if end - i < 20 {
        return false;
    }
    let mut k: usize = 0;
    while k < 20
        invariant
            k <= 20,
            i + 20 <= end <= buf.len(),
            m@ == exit_marker(),
            forall|t: int| 0 <= t < k ==> buf@[i + t] == m@[t],
        decreases 20 - k,
    {
        if buf[i + k] != m[k] {
            assert(buf@.subrange(i as int, end as int).subrange(0, 20)[k as int] != exit_marker()[k as int]);
            return false;
        }
        k += 1;
    }
    assert(buf@.subrange(i as int, end as int).subrange(0, 20) =~= exit_marker());
    true
}

/// Streams bytes through, stripping every exit marker and holding back a
/// trailing partial marker across reads.
pub struct MarkerFilter {
    carry: Vec<u8>,
}

impl MarkerFilter {
    pub closed spec fn held(&self) -> Seq<u8> {
        self.carry@
    }

    pub fn new() -> (r: Self)
        ensures
            r.held() == Seq::<u8>::empty(),
    {
        MarkerFilter { carry: Vec::new() }
    }

    /// Returns the bytes to emit and how many markers were stripped. What is
    /// held back is the longest suffix of the input so far that could still
    /// grow into a marker.
    pub fn feed(&mut self, data: &[u8]) -> (r: (Vec<u8>, usize))
        ensures
            ({
                let buf = old(self).held() + data@;
                let split = buf.len() - partial_len(buf);
                &&& final(self).held() == buf.subrange(split, buf.len() as int)
                &&& r.0@ == strip_markers(buf.subrange(0, split))
                &&& r.1 == count_markers(buf.subrange(0, split))
            }),
    {
        let mut buf: Vec<u8> = Vec::new();
        std::mem::swap(&mut buf, &mut self.carry);
        let ghost pre = buf@;
        let mut j: usize = 0;
        while j < data.len()
            invariant
                j <= data.len(),
                buf@ == pre + data@.subrange(0, j as int),
            decreases data.len() - j,
        {
            buf.push(data[j]);
            j += 1;
            assert(buf@ =~= pre + data@.subrange(0, j as int));
        }
        assert(data@.subrange(0, data.len() as int) =~= data@);
        let hold = partial_marker_suffix(&buf);
        proof {
            lemma_longest_partial(buf@, if buf@.len() < 19 { buf@.len() as int } else { 19 });
        }
        let split = buf.len() - hold;
        let mut carry: Vec<u8> = Vec::new();
        let mut k: usize = split;
        while k < buf.len()
            invariant
                split <= k <= buf.len(),
                carry@ == buf@.subrange(split as int, k as int),
            decreases buf.len() - k,
        {
            carry.push(buf[k]);
            k += 1;
            assert(carry@ =~= buf@.subrange(split as int, k as int));
        }
        self.carry = carry;
        let m = marker_bytes();
        let ghost process = buf@.subrange(0, split as int);
        let mut out: Vec<u8> = Vec::new();
        let mut markers: usize = 0;
        let mut i: usize = 0;
        assert(buf@.subrange(0, split as int).subrange(0, split as int) =~= process);
        while i < split
            invariant
                i <= split <= buf.len(),
                m@ == exit_marker(),
                process == buf@.subrange(0, split as int),
                markers <= i,
                strip_markers(process) == out@ + strip_markers(buf@.subrange(i as int, split as int)),
                count_markers(process) == markers + count_markers(buf@.subrange(i as int, split as int)),
            decreases split - i,
        {
            let ghost rest = buf@.subrange(i as int, split as int);
            if marker_at(&buf, &m, i, split) {
                assert(rest.subrange(20, rest.len() as int) =~= buf@.subrange(i + 20, split as int));
                markers += 1;
                i += 20;
            } else {
                assert(rest.drop_first() =~= buf@.subrange(i + 1, split as int));
                out.push(buf[i]);
                i += 1;
            }
        }
        assert(buf@.subrange(split as int, split as int) =~= Seq::<u8>::empty());
        assert(out@ + Seq::<u8>::empty() =~= out@);
        (out, markers)
    }

    /// Release the held-back bytes.
    pub fn flush(&mut self) -> (r: Vec<u8>)
        ensures
            r@ == old(self).held(),
            final(self).held() == Seq::<u8>::empty(),
    {
        let mut r: Vec<u8> = Vec::new();
        std::mem::swap(&mut r, &mut self.carry);
        r
    }
}

proof fn lemma_stream_from(buf: Seq<u8>, f: Seq<u8>, i: int)
    requires
        0 <= i <= buf.len() - partial_len(buf),
    ensures
        ({
            let split = buf.len() - partial_len(buf);
            let all = buf + f;
            &&& strip_markers(all.subrange(i, all.len() as int)) == strip_markers(
                buf.subrange(i, split),
            ) + strip_markers(buf.subrange(split, buf.len() as int) + f)
            &&& count_markers(all.subrange(i, all.len() as int)) == count_markers(
                buf.subrange(i, split),
            ) + count_markers(buf.subrange(split, buf.len() as int) + f)
        }),
    decreases buf.len() - i,
{
    let hmax = if buf.len() < 19 {
        buf.len() as int
    } else {
        19
    };
    lemma_longest_partial(buf, hmax);
    let hold = partial_len(buf);
    let split = buf.len() - hold;
    let all = buf + f;
    let s1 = all.subrange(i, all.len() as int);
    let r = buf.subrange(i, split);
    let tail = buf.subrange(split, buf.len() as int) + f;
    if i == split {
        assert(r =~= Seq::<u8>::empty());
        assert(s1 =~= tail);
        assert(Seq::<u8>::empty() + strip_markers(tail) =~= strip_markers(tail));
    } else if marker_at_start(r) {
        assert(s1.subrange(0, 20) =~= r.subrange(0, 20));
        assert(s1.subrange(20, s1.len() as int) =~= all.subrange(i + 20, all.len() as int));
        assert(r.subrange(20, r.len() as int) =~= buf.subrange(i + 20, split));
        lemma_stream_from(buf, f, i + 20);
    } else {
        if marker_at_start(s1) {
            if i + 20 <= split {
                assert(r.subrange(0, 20) =~= s1.subrange(0, 20));
                assert(false);
            } else if i + 20 <= buf.len() {
                assert(is_partial_marker(buf, hold));
                assert(buf.subrange(buf.len() - hold, buf.len() as int)[0] == buf[split]);
                assert(buf[split] == exit_marker()[0]);
                assert(s1.subrange(0, 20)[split - i] == buf[split]);
                assert(false);
            } else {
                let h = buf.len() - i;
                assert(buf.subrange(buf.len() - h, buf.len() as int) =~= s1.subrange(0, 20).subrange(
                    0,
                    h,
                ));
                assert(is_partial_marker(buf, h));
                assert(false);
            }
        }
        assert(s1.drop_first() =~= all.subrange(i + 1, all.len() as int));
        assert(r.drop_first() =~= buf.subrange(i + 1, split));
        assert(s1[0] == r[0]);
        lemma_stream_from(buf, f, i + 1);
        assert(seq![r[0]] + strip_markers(r.drop_first()) + strip_markers(tail) =~= seq![r[0]] + (
        strip_markers(r.drop_first()) + strip_markers(tail)));
    }
}

/// Feeding the marker filter loses and invents nothing: for whatever comes
/// next (`f`), stripping everything the filter held plus this read plus `f`
/// gives what this read emitted followed by stripping what is held now plus
/// `f` (and the same for the marker count). So the outputs of a run of reads,
/// followed by a final flush, are exactly the input with every marker
/// removed, however the reads split it.
pub proof fn marker_stream_law(held: Seq<u8>, data: Seq<u8>, f: Seq<u8>)
    ensures
        ({
            let buf = held + data;
            let split = buf.len() - partial_len(buf);
            &&& strip_markers(held + data + f) == strip_markers(buf.subrange(0, split))
                + strip_markers(buf.subrange(split, buf.len() as int) + f)
            &&& count_markers(held + data + f) == count_markers(buf.subrange(0, split))
                + count_markers(buf.subrange(split, buf.len() as int) + f)
        }),
{
    let buf = held + data;
    lemma_longest_partial(buf, if buf.len() < 19 { buf.len() as int } else { 19 });
    lemma_stream_from(buf, f, 0);
    assert((buf + f).subrange(0, (buf + f).len() as int) =~= held + data + f);
}

/// What the marker filter holds back is shorter than a marker, so flushing
/// it emits no marker: a held tail strips to itself.
pub proof fn held_tail_has_no_marker(buf: Seq<u8>)
    ensures
        ({
            let t = buf.subrange(buf.len() - partial_len(buf), buf.len() as int);
            strip_markers(t) == t && count_markers(t) == 0
        }),
{
    lemma_longest_partial(buf, if buf.len() < 19 { buf.len() as int } else { 19 });
    let t = buf.subrange(buf.len() - partial_len(buf), buf.len() as int);
    lemma_short_strip(t);
}

proof fn lemma_short_strip(t: Seq<u8>)
    requires
        t.len() < 20,
    ensures
        strip_markers(t) == t,
        count_markers(t) == 0,
    decreases t.len(),
{
    if t.len() > 0 {
        lemma_short_strip(t.drop_first());
        assert(seq![t[0]] + t.drop_first() =~= t);
    }
}

/// Once the paint filter retires it stays retired and passes every byte
/// through untouched; until the banner shows up, a disarmed filter passes
/// bytes through too.
pub proof fn paint_passthrough_law(st: Paint, carry: Seq<u8>, probe: Seq<u8>, seen: int, data: Seq<u8>)
    ensures
        st == Paint::Off ==> paint_step(st, carry, probe, seen, data).out == data
            && paint_step(st, carry, probe, seen, data).state == Paint::Off,
        st == Paint::Disarmed && saw_at(probe, data, fw_banner()) is None ==> paint_step(
            st,
            carry,
            probe,
            seen,
            data,
        ).out == data && paint_step(st, carry, probe, seen, data).state != Paint::Armed,
{
}

/// How much of the end of the console log is searched for the current line
/// to replay to a newly attached client.
pub const REPLAY_WINDOW: u64 = 4096;

/// The bytes read from the end of a log of `len` bytes.
pub fn replay_window(len: u64) -> (r: u64)
    ensures
        r == (if len < REPLAY_WINDOW {
            len
        } else {
            REPLAY_WINDOW
        }),
{
    if len < REPLAY_WINDOW {
        len
    } else {
        REPLAY_WINDOW
    }
}

/// Where the current line starts in the tail of the log: after its last
/// newline, or at the start. Only that line (the live prompt) is replayed,
/// so an attach shows the prompt without old scrollback.
pub fn replay_start(tail: &[u8]) -> (r: usize)
    ensures
        r <= tail@.len(),
        r > 0 ==> tail@[r - 1] == 10,
        forall|k: int| r <= k < tail@.len() ==> tail@[k] != 10,
{
    let mut i: usize = tail.len();
    while i > 0 && tail[i - 1] != 10
        invariant
            i <= tail@.len(),
            forall|k: int| i <= k < tail@.len() ==> tail@[k] != 10,
        decreases i,
    {
        i -= 1;
    }
    i
}

/// The byte that detaches an interactive `shell` session: Ctrl-], as in
/// telnet.
pub const DETACH_KEY: u8 = 0x1d;

/// Where a read of local input asks to detach: the first Ctrl-]. What comes
/// before it still goes to the guest; nothing after it does.
pub fn detach_point(input: &[u8]) -> (r: Option<usize>)
    ensures
        match r {
            Some(k) => k < input@.len() && input@[k as int] == DETACH_KEY && forall|j: int|
                0 <= j < k ==> input@[j] != DETACH_KEY,
            None => forall|j: int| 0 <= j < input@.len() ==> input@[j] != DETACH_KEY,
        },
{
    let mut i: usize = 0;
    while i < input.len()
        invariant
            i <= input@.len(),
            forall|j: int| 0 <= j < i ==> input@[j] != DETACH_KEY,
        decreases input.len() - i,
    {
        if input[i] == DETACH_KEY {
            return Some(i);
        }
        i += 1;
    }
    None
}

} // verus!
