use llama_cpp_4::cstr::{first_nul, id_text, text_or};
use llama_cpp_4::decimal::{decimal, signed_decimal};
use llama_cpp_4::text::{incomplete_tail_len, Utf8Assembler};

#[test]
fn whole_text_is_emitted_at_once() {
    let mut assembler = Utf8Assembler::new();
    let text = assembler.push("café".as_bytes());
    assert_eq!(text, "café");
    assert!(assembler.pending().is_empty());
}

#[test]
fn cafe_split_at_every_byte_gives_the_same_text() {
    let bytes = "café".as_bytes();
    assert_eq!(bytes.len(), 5);
    for cut in 0..=bytes.len() {
        let mut assembler = Utf8Assembler::new();
        let mut text = assembler.push(&bytes[..cut]);
        text.push_str(&assembler.push(&bytes[cut..]));
        assert_eq!(text, "café");
        assert!(!text.contains('\u{fffd}'));
        assert!(assembler.pending().is_empty());
    }
}

#[test]
fn unfinished_character_is_held_back() {
    let mut assembler = Utf8Assembler::new();
    assert_eq!(assembler.push(&[b'c', b'a', b'f', 0xc3]), "caf");
    assert_eq!(assembler.pending(), &[0xc3]);
    assert_eq!(assembler.push(&[0xa9, b'!']), "é!");
    assert!(assembler.pending().is_empty());
}

#[test]
fn four_byte_character_over_four_tokens() {
    let bytes = "🦙".as_bytes();
    assert_eq!(bytes.len(), 4);
    let mut assembler = Utf8Assembler::new();
    assert_eq!(assembler.push(&bytes[0..1]), "");
    assert_eq!(assembler.push(&bytes[1..2]), "");
    assert_eq!(assembler.push(&bytes[2..3]), "");
    assert_eq!(assembler.pending().len(), 3);
    assert_eq!(assembler.push(&bytes[3..4]), "🦙");
    assert!(assembler.pending().is_empty());
}

#[test]
fn malformed_bytes_become_replacement_characters() {
    let mut assembler = Utf8Assembler::new();
    let text = assembler.push(&[b'a', 0xff, b'b']);
    assert_eq!(text, "a\u{fffd}b");
    assert!(assembler.pending().is_empty());
}

#[test]
fn abandoned_character_is_replaced_when_the_next_token_arrives() {
    let mut assembler = Utf8Assembler::new();
    assert_eq!(assembler.push(&[0xe2, 0x82]), "");
    assert_eq!(assembler.push(&[b'x']), "\u{fffd}x");
    assert!(assembler.pending().is_empty());
}

#[test]
fn byte_order_mark_is_kept() {
    let mut assembler = Utf8Assembler::new();
    assert_eq!(assembler.push(&[0xef, 0xbb, 0xbf, b'a']), "\u{feff}a");
}

#[test]
fn empty_push_emits_nothing() {
    let mut assembler = Utf8Assembler::new();
    assert_eq!(assembler.push(&[]), "");
    assert!(assembler.pending().is_empty());
}

#[test]
fn incomplete_tail_lengths() {
    assert_eq!(incomplete_tail_len(&[]), 0);
    assert_eq!(incomplete_tail_len(b"abc"), 0);
    assert_eq!(incomplete_tail_len(&[b'a', 0xc3]), 1);
    assert_eq!(incomplete_tail_len(&[0xc3, 0xa9]), 0);
    assert_eq!(incomplete_tail_len(&[0xe2, 0x82]), 2);
    assert_eq!(incomplete_tail_len(&[0xe2, 0x82, 0xac]), 0);
    assert_eq!(incomplete_tail_len(&[0xf0, 0x9f, 0xa6]), 3);
    assert_eq!(incomplete_tail_len(&[0xf0, 0x9f, 0xa6, 0x99]), 0);
    assert_eq!(incomplete_tail_len(&[0x80]), 0);
    assert_eq!(incomplete_tail_len(&[0xff]), 0);
    assert_eq!(incomplete_tail_len(&[0xc3, b'a']), 0);
}

#[test]
fn first_nul_finds_the_first_zero_byte() {
    assert_eq!(first_nul(b"hello"), None);
    assert_eq!(first_nul(b""), None);
    assert_eq!(first_nul(b"he\0l\0o"), Some(2));
    assert_eq!(first_nul(b"\0"), Some(0));
}

#[test]
fn id_text_decodes_what_the_engine_gave() {
    assert_eq!(id_text(None), None);
    assert_eq!(id_text(Some(b"image-1")), Some(String::from("image-1")));
    assert_eq!(id_text(Some("café".as_bytes())), Some(String::from("café")));
    assert_eq!(id_text(Some(&[0xff, 0xfe])), None);
    assert_eq!(id_text(Some(b"")), Some(String::new()));
}

#[test]
fn text_or_falls_back_on_invalid_bytes() {
    assert_eq!(text_or(b"<img>", "<__media__>"), "<img>");
    assert_eq!(text_or(&[0xc3], "<__media__>"), "<__media__>");
}

#[test]
fn decimal_rendering() {
    assert_eq!(decimal(0), "0");
    assert_eq!(decimal(7), "7");
    assert_eq!(decimal(10), "10");
    assert_eq!(decimal(1234567890), "1234567890");
    assert_eq!(decimal(u64::MAX), "18446744073709551615");
    assert_eq!(signed_decimal(0), "0");
    assert_eq!(signed_decimal(-1), "-1");
    assert_eq!(signed_decimal(42), "42");
    assert_eq!(signed_decimal(i32::MAX), "2147483647");
    assert_eq!(signed_decimal(i32::MIN), "-2147483648");
}

#[test]
fn text_fed_byte_by_byte_comes_out_whole() {
    let whole = "naïve café 🦙 ok";
    let mut assembler = Utf8Assembler::new();
    let mut text = String::new();
    for byte in whole.as_bytes() {
        text.push_str(&assembler.push(&[*byte]));
        assert!(whole.starts_with(&text));
    }
    assert_eq!(text, whole);
    assert!(assembler.pending().is_empty());
}
