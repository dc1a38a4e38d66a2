use navigator::error::Fault;
use navigator::io::clipboard::{base64, copied, copy_file, osc52, MAX_BYTES};
use navigator::path::FilePath;

/// The test vectors from RFC 4648 section 10.
#[test]
fn encodes_the_rfc_4648_vectors() {
    let vectors = [
        ("", ""),
        ("f", "Zg=="),
        ("fo", "Zm8="),
        ("foo", "Zm9v"),
        ("foob", "Zm9vYg=="),
        ("fooba", "Zm9vYmE="),
        ("foobar", "Zm9vYmFy"),
    ];

    for (input, expected) in vectors {
        assert_eq!(base64(input.as_bytes()), expected, "{input:?}");
    }
}

#[test]
fn encodes_bytes_that_are_not_ascii() {
    // Every bit pattern in the top half, where a sloppy encoder sign-extends.
    assert_eq!(base64(&[0xff, 0xff, 0xff]), "////");
    assert_eq!(base64(&[0x00, 0x00, 0x00]), "AAAA");
    assert_eq!(base64(&[0xfb, 0xff, 0xbf]), "+/+/");
}

#[test]
fn the_encoded_length_is_always_a_multiple_of_four() {
    for length in 0..32 {
        let encoded = base64(&vec![b'x'; length]);
        assert_eq!(encoded.len() % 4, 0, "length {length} encoded to {encoded}");
    }
}

#[test]
fn the_escape_sequence_carries_the_encoded_payload() {
    assert_eq!(osc52(b"foo", false), "\x1b]52;c;Zm9v\x07");
}

#[test]
fn inside_tmux_the_sequence_is_wrapped_for_passthrough() {
    let wrapped = osc52(b"foo", true);

    assert!(wrapped.starts_with("\x1bPtmux;"), "{wrapped:?}");
    assert!(wrapped.ends_with("\x1b\\"), "{wrapped:?}");
    assert!(
        wrapped.contains("\x1b\x1b]52;c;Zm9v"),
        "the inner escape must be doubled: {wrapped:?}"
    );
}

fn refusal(name: &str, contents: Vec<u8>) -> String {
    let path = FilePath::new(name);
    copy_file(&path, Ok(contents), false).unwrap_err().to_text()
}

#[test]
fn a_binary_file_is_refused() {
    let refusal = refusal("/tmp/app.bin", vec![0x7f, 0x45, 0x4c, 0x46, 0x00]);

    assert!(refusal.contains("not a text file"), "{refusal}");
    assert_eq!(refusal, "Any: app.bin is not a text file");
}

#[test]
fn a_file_over_the_limit_is_refused() {
    let refusal = refusal("/tmp/huge.txt", vec![b'x'; MAX_BYTES + 1]);

    assert!(refusal.contains("clipboard limit"), "{refusal}");
    assert_eq!(refusal, "Any: huge.txt is 48 KiB, over the 48 KiB clipboard limit");
}

#[test]
fn a_file_at_exactly_the_limit_is_allowed() {
    let path = FilePath::new("/tmp/big.txt");
    let going = copy_file(&path, Ok(vec![b'x'; MAX_BYTES]), false).unwrap();

    assert_eq!(copied(going.bytes, Ok(())).unwrap(), MAX_BYTES);
    assert_eq!(going.sequence, osc52(&vec![b'x'; MAX_BYTES], false));
}

#[test]
fn a_missing_file_is_refused() {
    let path = FilePath::new("/tmp/gone.txt");
    let fault = Fault { text: "not found".to_string(), causes: vec![], code: Some(2) };

    let errx = copy_file(&path, Err(fault), false).unwrap_err();

    assert_eq!(errx.chain(), ["IO: reading /tmp/gone.txt", "not found"]);
}

#[test]
fn a_terminal_that_takes_nothing_is_an_error() {
    let fault = Fault { text: "broken pipe".to_string(), causes: vec![], code: Some(32) };

    let errx = copied(3, Err(fault)).unwrap_err();

    assert_eq!(errx.chain(), ["IO: writing to the terminal", "broken pipe"]);
}

/// Reads base64 back, four characters at a time.
fn decode(text: &str) -> Vec<u8> {
    let digit = |c: u8| match c {
        b'A'..=b'Z' => c - b'A',
        b'a'..=b'z' => c - b'a' + 26,
        b'0'..=b'9' => c - b'0' + 52,
        b'+' => 62,
        _ => 63,
    } as u32;
    let mut bytes: Vec<u8> = Vec::new();
    for chunk in text.as_bytes().chunks(4) {
        let filled = chunk.iter().filter(|c| **c != b'=').count();
        let bits = chunk.iter().fold(0u32, |bits, c| bits << 6 | (digit(*c) & 63));
        let all = [(bits >> 16) as u8, (bits >> 8) as u8, bits as u8];
        bytes.extend_from_slice(&all[..filled - 1]);
    }
    bytes
}

#[test]
fn what_was_encoded_can_be_read_back() {
    for length in 0..64usize {
        let data: Vec<u8> = (0..length).map(|i| (i * 37 + length * 11) as u8).collect();
        assert_eq!(decode(&base64(&data)), data, "length {length}");
    }
}

#[test]
fn the_encoding_never_holds_what_would_end_the_sequence() {
    let data: Vec<u8> = (0..=255u8).collect();

    assert!(base64(&data).chars().all(|c| c.is_ascii_alphanumeric() || "+/=".contains(c)));
}
