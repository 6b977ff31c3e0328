use vpm_shop::digest::Checksum;

#[test]
fn checksums_are_those_of_sha256() {
    assert_eq!(
        Checksum::new().finish(),
        "e3b0c44298fc1c149afbf4c8996fb92427ae41e4649b934ca495991b7852b855"
    );
    let mut c = Checksum::new();
    c.update(b"abc");
    assert_eq!(
        c.finish(),
        "ba7816bf8f01cfea414140de5dae2223b00361a396177a9cb410ff61f20015ad"
    );
}

#[test]
fn checksums_do_not_depend_on_the_pieces() {
    let data: Vec<u8> = (0..5000u32).map(|i| (i % 251) as u8).collect();
    let mut whole = Checksum::new();
    whole.update(&data);
    let mut parts = Checksum::new();
    for piece in data.chunks(77) {
        assert!(parts.has_room(piece.len()));
        parts.update(piece);
    }
    let sum = whole.finish();
    assert_eq!(sum.len(), 64);
    assert_eq!(sum, parts.finish());
}

#[test]
fn checksums_have_room() {
    let c = Checksum::new();
    assert!(c.has_room(0x1fff_ffff_ffff_ffff));
    assert!(!c.has_room(0x2000_0000_0000_0000));
}
