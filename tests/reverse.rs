use unicode_reverse::{reverse_each_cluster, reverse_grapheme_clusters_in_place, reverse_range};
use unicode_segmentation::UnicodeSegmentation;

fn test_rev(a: &str, b: &str) {
    let mut a = a.to_string();
    reverse_grapheme_clusters_in_place(&mut a);
    assert_eq!(a, b);
}

#[test]
fn test_empty() {
    test_rev("", "");
}

#[test]
fn test_ascii() {
    test_rev("Hello", "olleH");
}

#[test]
fn test_utf8() {
    test_rev("¡Hola!", "!aloH¡");
}

#[test]
fn test_emoji() {
    test_rev("\u{1F36D}\u{1F36E}", "\u{1F36E}\u{1F36D}");
}

#[test]
fn test_combining_mark() {
    test_rev("man\u{0303}ana", "anan\u{0303}am");
}

#[test]
fn single_cluster_is_unchanged() {
    test_rev("n\u{0303}", "n\u{0303}");
    test_rev("x", "x");
}

#[test]
fn flags_stay_paired() {
    test_rev(
        "\u{1F1EB}\u{1F1F7}\u{1F1E9}\u{1F1EA}",
        "\u{1F1E9}\u{1F1EA}\u{1F1EB}\u{1F1F7}",
    );
}

#[test]
fn emoji_sequence_with_joiner_stays_whole() {
    test_rev(
        "a\u{1F468}\u{200D}\u{1F469}b",
        "b\u{1F468}\u{200D}\u{1F469}a",
    );
}

#[test]
fn leading_mark_joins_its_new_neighbour() {
    let mut s = "\u{0303}a".to_string();
    reverse_grapheme_clusters_in_place(&mut s);
    assert_eq!(s, "a\u{0303}");
    reverse_grapheme_clusters_in_place(&mut s);
    assert_eq!(s, "a\u{0303}");
}

#[test]
fn reversing_twice_restores() {
    for text in ["Hello", "¡Hola!", "man\u{0303}ana", "\u{1F36D}\u{1F36E}", ""] {
        let mut s = text.to_string();
        reverse_grapheme_clusters_in_place(&mut s);
        reverse_grapheme_clusters_in_place(&mut s);
        assert_eq!(s, text);
    }
}

#[test]
fn byte_length_is_kept() {
    for text in ["¡Hola!", "man\u{0303}ana", "\u{1F36D}\u{1F36E}"] {
        let mut s = text.to_string();
        reverse_grapheme_clusters_in_place(&mut s);
        assert_eq!(s.len(), text.len());
    }
}

#[test]
fn clusters_are_kept_in_reverse_order() {
    let text = "e\u{0301}t\u{00E9}\u{1F36D}!";
    let mut s = text.to_string();
    reverse_grapheme_clusters_in_place(&mut s);
    let before: Vec<&str> = text.graphemes(true).collect();
    let after: Vec<&str> = s.graphemes(true).collect();
    let mut expected = before.clone();
    expected.reverse();
    assert_eq!(after, expected);
    let mut sorted_before = before.clone();
    let mut sorted_after = after.clone();
    sorted_before.sort();
    sorted_after.sort();
    assert_eq!(sorted_before, sorted_after);
}

#[test]
fn result_is_valid_text() {
    let mut s = "\u{00A1}\u{20AC}\u{1F36D}".to_string();
    reverse_grapheme_clusters_in_place(&mut s);
    assert!(std::str::from_utf8(s.as_bytes()).is_ok());
    assert_eq!(s, "\u{1F36D}\u{20AC}\u{00A1}");
}

#[test]
fn first_pass_reverses_inside_each_cluster() {
    let text = "an\u{0303}\u{00A1}";
    let mut buf = text.as_bytes().to_vec();
    reverse_each_cluster(text, &mut buf);
    assert_eq!(buf, vec![b'a', 0x83, 0xCC, b'n', 0xA1, 0xC2]);
}

#[test]
fn range_reversal_touches_only_the_range() {
    let mut buf = vec![1u8, 2, 3, 4, 5, 6];
    reverse_range(&mut buf, 1, 5);
    assert_eq!(buf, vec![1, 5, 4, 3, 2, 6]);
    reverse_range(&mut buf, 2, 2);
    assert_eq!(buf, vec![1, 5, 4, 3, 2, 6]);
    reverse_range(&mut buf, 0, 6);
    assert_eq!(buf, vec![6, 2, 3, 4, 5, 1]);
}
