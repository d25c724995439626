use ade_core::base64::{base64_decode, base64_encode, sextet_of, symbol_of};

const ALPHABET: &[u8; 64] = b"ABCDEFGHIJKLMNOPQRSTUVWXYZabcdefghijklmnopqrstuvwxyz0123456789+/";

#[test]
fn decodes_padded_text() {
    assert_eq!(base64_decode("aGVsbG8="), Ok(b"hello".to_vec()));
    assert_eq!(base64_decode("aGVsbG8h"), Ok(b"hello!".to_vec()));
    assert_eq!(base64_decode("aA=="), Ok(b"h".to_vec()));
    assert_eq!(base64_decode(""), Ok(Vec::new()));
}

#[test]
fn decodes_without_padding_and_across_line_ends() {
    assert_eq!(base64_decode("aGVsbG8"), Ok(b"hello".to_vec()));
    assert_eq!(base64_decode("aGVs\r\nbG8h\n"), Ok(b"hello!".to_vec()));
    assert_eq!(base64_decode(" a G V s b G 8 = "), Ok(b"hello".to_vec()));
    assert_eq!(base64_decode("aGV=sbG8"), Ok(b"hello".to_vec()));
}

#[test]
fn leftover_bits_are_dropped() {
    assert_eq!(base64_decode("a"), Ok(Vec::new()));
    assert_eq!(base64_decode("aGVsb"), Ok(b"hel".to_vec()));
    assert_eq!(base64_decode("////"), Ok(vec![255, 255, 255]));
    assert_eq!(base64_decode("+/+/"), Ok(vec![0xfb, 0xff, 0xbf]));
}

#[test]
fn rejects_the_first_byte_outside_the_alphabet() {
    assert_eq!(base64_decode("aGV*bG8#"), Err("Invalid base64 char: *".to_string()));
    assert_eq!(base64_decode("-"), Err("Invalid base64 char: -".to_string()));
    assert_eq!(base64_decode("a\tb"), Err("Invalid base64 char: \t".to_string()));
}

#[test]
fn rejected_byte_is_shown_as_the_character_of_its_value() {
    assert_eq!(base64_decode("é"), Err("Invalid base64 char: \u{c3}".to_string()));
}

#[test]
fn sextets_follow_the_alphabet() {
    for (value, byte) in ALPHABET.iter().enumerate() {
        assert_eq!(sextet_of(*byte), Some(value as u8));
        assert_eq!(symbol_of(value as u8), *byte);
    }
    let outside = (0..=255u8).filter(|byte| !ALPHABET.contains(byte));
    for byte in outside {
        assert_eq!(sextet_of(byte), None);
    }
}

#[test]
fn encodes_with_padding() {
    assert_eq!(base64_encode(b""), "");
    assert_eq!(base64_encode(b"h"), "aA==");
    assert_eq!(base64_encode(b"he"), "aGU=");
    assert_eq!(base64_encode(b"hel"), "aGVs");
    assert_eq!(base64_encode(b"hello"), "aGVsbG8=");
    assert_eq!(base64_encode(&[255, 255, 255]), "////");
    assert_eq!(base64_encode(&[0xfb, 0xff, 0xbf, 0]), "+/+/AA==");
}

#[test]
fn decoding_undoes_encoding() {
    let mut bytes = Vec::new();
    for length in 0..70usize {
        let text = base64_encode(&bytes);
        assert_eq!(text.len(), (length + 2) / 3 * 4);
        assert_eq!(base64_decode(&text), Ok(bytes.clone()));
        bytes.push((length * 37 % 256) as u8);
    }
    let all: Vec<u8> = (0..=255u8).collect();
    assert_eq!(base64_decode(&base64_encode(&all)), Ok(all));
}
