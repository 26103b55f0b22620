use bsdkrun::console::{
    detach_point, DETACH_KEY,
    parse_csi, partial_marker_suffix, CsiScan, FirmwarePaintFilter, MarkerFilter, Paint,
    FW_PAINT_BUDGET,
};

/// The real preamble libkrun's EDK2 emits, byte for byte.
const PREAMBLE: &[u8] = b"UEFI firmware (version edk2-13e8adac8a)\r\n\
    \x1b[2J\x1b[01;01H\x1b[=3h\x1b[2J\x1b[01;01H\x1b[2J\x1b[01;01H\x1b[=3h\x1b[2J\x1b[01;01H\
    BdsDxe: loading Boot0001\r\nBdsDxe: starting Boot0001\r\n";

const FW_BANNER: &[u8] = b"UEFI firmware (version";

const EXIT_MARKER: &[u8] = b"\x1b]6666;bsdkrun-exit\x07";

#[test]
fn strips_the_firmware_paint_but_keeps_the_text() {
    let mut f = FirmwarePaintFilter::new();
    let out = f.feed(PREAMBLE);
    assert!(!out.contains(&0x1b), "escapes survived: {:?}", out);
    assert!(out.starts_with(b"UEFI firmware"));
    assert!(out.ends_with(b"BdsDxe: starting Boot0001\r\n"));
}

#[test]
fn handles_a_sequence_split_across_reads() {
    for split in 1..PREAMBLE.len() {
        let mut f = FirmwarePaintFilter::new();
        let mut out = f.feed(&PREAMBLE[..split]);
        out.extend_from_slice(&f.feed(&PREAMBLE[split..]));
        out.extend_from_slice(&f.flush());
        assert!(!out.contains(&0x1b), "split at {split} leaked an escape");
        assert!(
            out.ends_with(b"BdsDxe: starting Boot0001\r\n"),
            "split at {split} mangled the tail: {:?}",
            String::from_utf8_lossy(&out)
        );
    }
}

#[test]
fn retires_at_the_handoff_so_guest_escapes_survive() {
    let mut f = FirmwarePaintFilter::new();
    f.feed(PREAMBLE);
    assert!(f.state() == Paint::Off, "should retire at the BdsDxe handoff");
    let guest = b"\x1b[2J\x1b[H$ vi\r\n";
    assert_eq!(f.feed(guest), guest, "guest escapes must pass through");
}

#[test]
fn never_arms_without_the_firmware_banner() {
    let mut f = FirmwarePaintFilter::new();
    f.feed(b"[    0.076848] Run /.bsdkrun-init as init process\r\n");
    let guest = b"\x1b[2J\x1b[Hcleared\r\n";
    assert_eq!(f.feed(guest), guest, "direct-boot guest must be untouched");
    assert!(f.state() != Paint::Armed);
}

#[test]
fn retires_on_budget_when_no_handoff_appears() {
    let mut f = FirmwarePaintFilter::new();
    f.feed(FW_BANNER);
    assert!(f.state() == Paint::Armed);
    f.feed(&vec![b'x'; FW_PAINT_BUDGET]);
    assert!(f.state() == Paint::Off, "budget should retire the filter");
    let guest = b"\x1b[2Jclear";
    assert_eq!(f.feed(guest), guest);
}

#[test]
fn keeps_colour_while_armed() {
    let mut f = FirmwarePaintFilter::new();
    f.feed(FW_BANNER);
    assert_eq!(f.feed(b"\x1b[31mred\x1b[0m"), b"\x1b[31mred\x1b[0m");
}

#[test]
fn passes_through_a_lone_escape() {
    let mut f = FirmwarePaintFilter::new();
    f.feed(FW_BANNER);
    let mut out = f.feed(b"a\x1bZb");
    out.extend_from_slice(&f.flush());
    assert_eq!(out, b"a\x1bZb");
}

#[test]
fn a_csi_sequence_is_classified_by_its_shape() {
    assert_eq!(parse_csi(b"\x1b[2J"), CsiScan::Complete { len: 4, final_byte: b'J' });
    assert_eq!(parse_csi(b"\x1b[01;01Hrest"), CsiScan::Complete { len: 8, final_byte: b'H' });
    assert_eq!(parse_csi(b"\x1b[12"), CsiScan::Partial);
    assert_eq!(parse_csi(b"\x1b"), CsiScan::Partial);
    assert_eq!(parse_csi(b"\x1bZ"), CsiScan::NotCsi);
    assert_eq!(parse_csi(b"\x1b[\x01"), CsiScan::NotCsi);
}

#[test]
fn the_exit_marker_is_stripped_and_counted_even_when_split() {
    let mut stream = b"$ exit\r\n".to_vec();
    stream.extend_from_slice(EXIT_MARKER);
    stream.extend_from_slice(b"after");
    for split in 0..=stream.len() {
        let mut f = MarkerFilter::new();
        let (mut out, mut n) = f.feed(&stream[..split]);
        let (more, m) = f.feed(&stream[split..]);
        out.extend_from_slice(&more);
        n += m;
        out.extend_from_slice(&f.flush());
        assert_eq!(out, b"$ exit\r\nafter", "split at {split}");
        assert_eq!(n, 1, "split at {split}");
    }
}

#[test]
fn a_partial_marker_at_the_end_is_held_back() {
    let mut buf = b"abc".to_vec();
    buf.extend_from_slice(&EXIT_MARKER[..5]);
    assert_eq!(partial_marker_suffix(&buf), 5);
    assert_eq!(partial_marker_suffix(&b"plain".to_vec()), 0);
    let mut f = MarkerFilter::new();
    let (out, n) = f.feed(&buf);
    assert_eq!(out, b"abc");
    assert_eq!(n, 0);
    assert_eq!(f.flush(), EXIT_MARKER[..5].to_vec());
}

#[test]
fn detach_key_cuts_the_input_at_its_first_occurrence() {
    assert_eq!(detach_point(b"ls\n"), None);
    assert_eq!(detach_point(&[b'a', DETACH_KEY, b'b', DETACH_KEY]), Some(1));
    assert_eq!(detach_point(&[DETACH_KEY]), Some(0));
    assert_eq!(detach_point(&[]), None);
}
