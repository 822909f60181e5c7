use robotrace_sim::text::{chars_equal, chars_of, is_control, is_whitespace, normalize, push_decimal, string_of, to_ascii_lower, trimmed};

#[test]
fn character_classes_agree_with_std_for_every_char() {
    for u in 0..=0x10FFFFu32 {
        if let Some(c) = char::from_u32(u) {
            assert_eq!(is_whitespace(c), c.is_whitespace(), "{u:#x}");
            assert_eq!(is_control(c), c.is_control(), "{u:#x}");
            assert_eq!(to_ascii_lower(c), c.to_ascii_lowercase(), "{u:#x}");
        }
    }
}

#[test]
fn trimming_agrees_with_std() {
    for s in ["", "  ", " a b ", "\u{2003}x\u{3000}", "\tline\r\n", "x", "\u{85}y\u{a0}"] {
        let t: String = trimmed(s).into_iter().collect();
        assert_eq!(t, s.trim());
    }
    assert_eq!(normalize(" Strict\n"), vec!['s', 't', 'r', 'i', 'c', 't']);
}

#[test]
fn decimal_text() {
    for n in [0u64, 7, 10, 99, 100, 123456789, u64::MAX] {
        let mut s = "n=".to_string();
        push_decimal(&mut s, n);
        assert_eq!(s, format!("n={n}"));
    }
}

#[test]
fn char_vectors_and_strings() {
    let v = chars_of("pista ação");
    assert_eq!(v.len(), 10);
    assert!(chars_equal(&v, "pista ação"));
    assert!(!chars_equal(&v, "pista acao"));
    assert_eq!(string_of(&v), "pista ação");
}
