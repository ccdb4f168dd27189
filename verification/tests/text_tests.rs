use lightning_explorer::text::{
    append_decimal, i64_to_decimal, key_less, text_eq, u64_to_decimal, u64_to_hex,
};

#[test]
fn decimal_rendering_matches_the_standard_one() {
    for n in [0u64, 1, 9, 10, 11, 99, 100, 12345, u32::MAX as u64, u64::MAX] {
        assert_eq!(u64_to_decimal(n), n.to_string());
    }
    assert_eq!(u64_to_decimal(0), "0");
    assert_eq!(u64_to_decimal(1536), "1536");
}

#[test]
fn signed_decimal_rendering_matches_the_standard_one() {
    for n in [0i64, 1, -1, 42, -42, i64::MAX, i64::MIN, -10, 10] {
        assert_eq!(i64_to_decimal(n), n.to_string());
    }
}

#[test]
fn hexadecimal_rendering_matches_the_standard_one() {
    for n in [0u64, 1, 9, 10, 15, 16, 255, 256, 0xdead_beef, u64::MAX] {
        assert_eq!(u64_to_hex(n), format!("{:x}", n));
    }
    assert_eq!(u64_to_hex(0), "0");
    assert_eq!(u64_to_hex(0xabc), "abc");
}

#[test]
fn append_decimal_adds_to_what_is_there() {
    let mut s = String::from("version_");
    append_decimal(&mut s, 7);
    assert_eq!(s, "version_7");
    append_decimal(&mut s, 100);
    assert_eq!(s, "version_7100");
}

#[test]
fn key_order_is_the_order_of_strings() {
    let keys = [
        "", "a", "A", "ab", "abc", "b", "batch_size", "lr", "model", "trainer-lr", "trainer",
        "é", "z", "日本", "a-b", "a_b", "a0", "😀",
    ];
    for a in keys {
        for b in keys {
            assert_eq!(key_less(a, b), a < b, "{:?} {:?}", a, b);
        }
    }
}

#[test]
fn key_order_is_strict() {
    assert!(key_less("batch_size", "lr"));
    assert!(!key_less("lr", "batch_size"));
    assert!(!key_less("lr", "lr"));
    assert!(key_less("", "a"));
    assert!(!key_less("a", ""));
    assert!(key_less("lr", "lr2"));
}

#[test]
fn text_equality() {
    assert!(text_eq("", ""));
    assert!(text_eq("model", "model"));
    assert!(!text_eq("model", "Model"));
    assert!(!text_eq("model", "models"));
    assert!(!text_eq("models", "model"));
    assert!(text_eq("日本語", "日本語"));
    assert!(!text_eq("日本語", "日本誤"));
}
