use descriptor_info::hex_bytes::HexBytes;

#[test]
fn hex_of_bytes_is_lower_case_pairs() {
    let bytes = HexBytes(vec![0x00, 0x0f, 0x10, 0xab, 0xff]);
    assert_eq!(bytes.hex(), "000f10abff");
}

#[test]
fn hex_of_nothing_is_empty() {
    assert_eq!(HexBytes(Vec::new()).hex(), "");
}

#[test]
fn hex_is_twice_as_long_as_the_bytes() {
    let bytes: Vec<u8> = (0..=255).collect();
    let text = HexBytes(bytes).hex();
    assert_eq!(text.len(), 512);
    assert_eq!(&text[0..6], "000102");
    assert_eq!(&text[506..512], "fdfeff");
}

#[test]
fn bytes_are_borrowed_unchanged() {
    let bytes = HexBytes(vec![1, 2, 3]);
    assert_eq!(bytes.bytes(), &[1u8, 2, 3][..]);
}

#[test]
fn take_bytes_gives_the_vector_back() {
    let bytes = HexBytes(vec![9, 8, 7]);
    assert_eq!(bytes.take_bytes(), vec![9u8, 8, 7]);
}

#[test]
fn hex_bytes_from_a_vector() {
    let bytes: HexBytes = vec![0xde, 0xad].into();
    assert_eq!(bytes, HexBytes(vec![0xde, 0xad]));
    assert_eq!(bytes.hex(), "dead");
}

#[test]
fn hex_bytes_from_a_slice() {
    let source = [0xbeu8, 0xef];
    let bytes = HexBytes::from_slice(&source[..]);
    assert_eq!(bytes.bytes(), &source[..]);
    assert_eq!(bytes.hex(), "beef");
}

#[test]
fn the_records_are_found_at_the_root() {
    let info = descriptor_info::analyze_policy("pk(A)").unwrap();
    assert_eq!(info.key_type, descriptor_info::MiniscriptKeyType::String);
    assert_eq!(descriptor_info::HexBytes(vec![0xab]).hex(), "ab");
    assert_eq!(descriptor_info::format_str(" a ".to_string()), "a");
}
