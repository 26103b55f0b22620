use bsdkrun::solo5::{exit_code, format_mac, resolve_blocks, tender_args, Manifest};

fn manifest(blocks: &[&str]) -> Manifest {
    Manifest { nets: Vec::new(), blocks: blocks.iter().map(|s| s.to_string()).collect() }
}

#[test]
fn a_declared_block_device_must_be_attached() {
    let err = resolve_blocks(&manifest(&["storage"]), &[], &vec![]).unwrap_err();
    assert!(err.contains("--block storage="), "error should name the flag to fix it: {err}");
}

#[test]
fn a_bare_path_is_ambiguous_with_two_devices() {
    let err = resolve_blocks(&manifest(&["a", "b"]), &["disk.img".into()], &vec!["disk.img".into()]).unwrap_err();
    assert!(err.contains("NAME=FILE"), "{err}");
}

#[test]
fn an_undeclared_device_is_rejected() {
    let img = "/tmp/x/disk.img".to_string();
    let spec = format!("nope={img}");
    let err = resolve_blocks(&manifest(&["storage"]), &[spec], &vec![img]).unwrap_err();
    assert!(err.contains("does not declare"), "{err}");
}

#[test]
fn a_bare_path_backs_the_only_device() {
    let r = resolve_blocks(&manifest(&["storage"]), &["disk.img".into()], &vec!["disk.img".into()]).unwrap();
    assert_eq!(r, vec![("storage".to_string(), "disk.img".to_string())]);
}

#[test]
fn a_named_file_must_exist() {
    let err = resolve_blocks(&manifest(&["storage"]), &["storage=gone.img".into()], &vec![]).unwrap_err();
    assert_eq!(err, "--block storage=gone.img does not exist");
}

#[test]
fn macs_are_lowercase_hex_pairs() {
    assert_eq!(format_mac([0x5a, 0x94, 0xef, 0x0b, 0xc1, 0x02]), "5a:94:ef:0b:c1:02");
}

#[test]
fn a_signal_reads_as_128_plus_it() {
    assert_eq!(exit_code(Some(3), None), 3);
    assert_eq!(exit_code(None, Some(9)), 137);
    assert_eq!(exit_code(None, None), 128);
}

#[test]
fn the_tender_line_ends_with_the_kernel_and_its_args() {
    let argv = tender_args(
        256,
        &vec![("service".to_string(), 5)],
        &Some("5a:94:ef:0b:c1:02".to_string()),
        &vec![("storage".to_string(), "disk.img".to_string())],
        "app.hvt",
        &vec!["-v".to_string()],
    );
    assert_eq!(
        argv,
        vec![
            "--mem=256",
            "--net:service=@5",
            "--net-mac:service=5a:94:ef:0b:c1:02",
            "--block:storage=disk.img",
            "--",
            "app.hvt",
            "-v"
        ]
    );
}
