use ztunnel::text::{bytes_before, bytes_equal, decimal_text, joined, text_before, text_equal};

#[test]
fn numbers_are_written_in_decimal() {
    for n in [0usize, 1, 9, 10, 42, 100, 65535, usize::MAX] {
        assert_eq!(decimal_text(n), n.to_string());
    }
    assert_eq!(joined("rule-", "7"), "rule-7");
}

#[test]
fn texts_are_ordered_by_their_bytes() {
    let texts = ["", "a", "ab", "b", "\u{7f}", "\u{e9}", "\u{ffff}", "\u{10000}"];
    for (i, a) in texts.iter().enumerate() {
        for (j, b) in texts.iter().enumerate() {
            assert_eq!(text_before(a, b), i < j);
            assert_eq!(text_equal(a, b), i == j);
            assert_eq!(bytes_before(a.as_bytes(), b.as_bytes()), a < b);
            assert_eq!(bytes_equal(a.as_bytes(), b.as_bytes()), a == b);
        }
    }
}
