#[test]
fn ascii_codepoints_match_hex_constants() {
    for (ch, hex) in [
        ('[', 0x5B),
        (']', 0x5D),
        (',', 0x2C),
        ('=', 0x3D),
        ('\n', 0x0A),
        ('\r', 0x0D),
        ('"', 0x22),
        ('\'', 0x27),
        ('{', 0x7B),
        ('}', 0x7D),
        ('.', 0x2E),
        ('#', 0x23),
        ('\t', 0x09),
        (' ', 0x20),
        ('0', 0x30),
        ('9', 0x39),
        ('A', 0x41),
        ('Z', 0x5A),
        ('a', 0x61),
        ('z', 0x7A),
    ] {
        assert_eq!(ch as u32, hex, "{:?}", ch);
    }
}

#[test]
fn invalid_codepoints_are_none() {
    assert!(char::from_u32(0xD800).is_none());
    assert!(char::from_u32(0xDFFF).is_none());
    assert!(char::from_u32(0x110000).is_none());
}
