use tailor::hashing::{hex_decode, hex_encode};
use tailor::text::{escape, format_dec, format_dec_pad, last_component, ord, path_join, str_eq, str_le};

#[test]
fn test_hex_encode_matches_reference() {
    let samples: Vec<Vec<u8>> = vec![
        vec![],
        vec![0],
        vec![0xde, 0xad, 0xbe, 0xef],
        (0..=255u8).collect(),
    ];
    for bytes in &samples {
        assert_eq!(hex_encode(bytes), hex::encode(bytes));
    }
}

#[test]
fn test_hex_decode_matches_reference() {
    for text in ["", "00", "deadBEEF", "0123456789abcdefABCDEF"] {
        assert_eq!(hex_decode(text), hex::decode(text).ok());
    }
    for bad in ["0", "zz", "0g", "123"] {
        assert!(hex_decode(bad).is_none());
        assert!(hex::decode(bad).is_err());
    }
}

#[test]
fn test_hex_round_trip() {
    let bytes: Vec<u8> = (0..=255u8).collect();
    assert_eq!(hex_decode(&hex_encode(&bytes)).unwrap(), bytes);
}

#[test]
fn test_path_join_behaves_like_pathbuf_push() {
    assert_eq!(path_join("/a/b", "c.txt"), "/a/b/c.txt");
    assert_eq!(path_join("/a/b/", "c.txt"), "/a/b/c.txt");
    assert_eq!(path_join("/a/b", "/abs"), "/abs");
    assert_eq!(path_join("", "rel"), "rel");
    assert_eq!(path_join("/w", "../rand"), "/w/../rand");
}

#[test]
fn test_last_component() {
    assert_eq!(last_component("a/b/c"), "c");
    assert_eq!(last_component("a/b/c/"), "c");
    assert_eq!(last_component("hello"), "hello");
    assert_eq!(last_component("/"), "/");
    assert_eq!(last_component("/x"), "x");
}

#[test]
fn test_string_order_matches_std() {
    let words = ["", "a", "ab", "b", "zephyr", "backpack", "rand", "Ab", "a b"];
    for x in &words {
        for y in &words {
            assert_eq!(str_le(x, y), x <= y, "disagreement on {:?} <= {:?}", x, y);
            assert_eq!(str_eq(x, y), x == y);
        }
    }
}

#[test]
fn test_escape() {
    assert_eq!(escape("plain"), "plain");
    assert_eq!(escape("a\"b\\c\nd\te\rf"), "a\\\"b\\\\c\\nd\\te\\rf");
}

#[test]
fn test_decimal_rendering() {
    assert_eq!(format_dec(0), "0");
    assert_eq!(format_dec(2026), "2026");
    assert_eq!(format_dec_pad(7, 2), "07");
    assert_eq!(format_dec_pad(11, 2), "11");
    assert_eq!(format_dec_pad(987, 4), "0987");
    assert_eq!(format_dec_pad(12345, 4), "12345");
}

#[test]
fn test_ordinal_suffixes() {
    assert_eq!(ord(0), "th");
    assert_eq!(ord(1), "st");
    assert_eq!(ord(2), "nd");
    assert_eq!(ord(3), "rd");
    assert_eq!(ord(11), "st");
    assert_eq!(ord(24), "th");
}
