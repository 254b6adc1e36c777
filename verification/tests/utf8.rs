use charmander::utf8::{decode_unit, utf8_char_width};

#[test]
fn width_of_each_range_of_lead_bytes() {
    let edges: [(u8, usize); 15] = [
        (0x00, 1),
        (0x41, 1),
        (0x7F, 1),
        (0x80, 0),
        (0xBF, 0),
        (0xC0, 0),
        (0xC1, 0),
        (0xC2, 2),
        (0xDF, 2),
        (0xE0, 3),
        (0xEF, 3),
        (0xF0, 4),
        (0xF4, 4),
        (0xF5, 0),
        (0xFF, 0),
    ];
    for (lead, width) in edges {
        assert_eq!(utf8_char_width(lead), width, "lead byte {:#x}", lead);
    }
}

#[test]
fn width_agrees_with_the_encoder_on_every_scalar_lead() {
    for scalar in ['\u{0}', 'A', '\u{7F}', '\u{80}', '\u{7FF}', '\u{800}', '\u{FFFF}', '\u{10000}', '\u{10FFFF}'] {
        let mut buf = [0u8; 4];
        let encoded = scalar.encode_utf8(&mut buf);
        assert_eq!(utf8_char_width(encoded.as_bytes()[0]), encoded.len());
    }
}

#[test]
fn unit_decodes_to_its_scalar() {
    assert_eq!(decode_unit(&[0x41]), Some('A'));
    assert_eq!(decode_unit(&[0xC3, 0xA9]), Some('\u{E9}'));
    assert_eq!(decode_unit(&[0xE2, 0x82, 0xAC]), Some('\u{20AC}'));
    assert_eq!(decode_unit(&[0xF0, 0x9D, 0x84, 0x9E]), Some('\u{1D11E}'));
}

#[test]
fn unit_that_is_no_scalar() {
    assert_eq!(decode_unit(&[]), None);
    assert_eq!(decode_unit(&[0x80]), None);
    assert_eq!(decode_unit(&[0xC0, 0x80]), None);
    assert_eq!(decode_unit(&[0xC3, 0x28]), None);
    assert_eq!(decode_unit(&[0xE0, 0x80, 0x80]), None);
    assert_eq!(decode_unit(&[0xED, 0xA0, 0x80]), None);
    assert_eq!(decode_unit(&[0xF4, 0x90, 0x80, 0x80]), None);
    assert_eq!(decode_unit(&[0xF5, 0x80, 0x80, 0x80]), None);
}

#[test]
fn unit_of_the_wrong_length() {
    assert_eq!(decode_unit(&[0xE2, 0x82]), None);
    assert_eq!(decode_unit(&[0x41, 0x42]), None);
    assert_eq!(decode_unit(&[0xC3, 0xA9, 0x41]), None);
    assert_eq!(decode_unit(&[0xE2, 0x82, 0xAC, 0x41]), None);
}
