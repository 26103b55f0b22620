use bsdkrun::ids::{fallback_bytes, short_id, Ids};

#[test]
fn ids_are_twelve_hex_digits() {
    assert_eq!(short_id([0x01, 0x23, 0x45, 0x67, 0x89, 0xab]), "0123456789ab");
    assert_eq!(short_id([0xff; 6]).len(), 12);
}

#[test]
fn an_override_is_used_once() {
    let mut ids = Ids::new();
    assert_eq!(ids.next_machine_id([0; 6]), "000000000000");
    ids.set_override("keepme");
    assert_eq!(ids.next_machine_id([1; 6]), "keepme");
    assert_eq!(ids.next_machine_id([1; 6]), "010101010101");
}

#[test]
fn the_fallback_mixes_pid_and_time() {
    assert_eq!(fallback_bytes(0, 0x0605040302010), [0x10, 0x20, 0x30, 0x40, 0x50, 0x60]);
    assert_ne!(fallback_bytes(1, 0), fallback_bytes(2, 0));
}
