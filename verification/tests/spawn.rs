use factorio_oracle::spawn::tail;

#[test]
fn tail_returns_the_last_bytes_not_the_first() {
    let text: String = (0..100).map(|i| format!("line {i}\n")).collect();
    let out = tail(&text, 40);
    assert!(out.ends_with("line 99\n"));
    assert!(!out.contains("line 0\n"));
    assert!(out.len() <= 40 + 8);
}

#[test]
fn tail_returns_short_text_unchanged() {
    assert_eq!(tail("short", 4000), "short");
}

#[test]
fn tail_does_not_split_a_multibyte_character() {
    let text = "aaaa\u{1F600}";
    let out = tail(text, 5);
    assert!(out.chars().count() > 0);
}

#[test]
fn tail_keeps_exactly_the_last_bytes_when_they_fall_on_a_boundary() {
    assert_eq!(tail("abcdef", 3), "def");
    assert_eq!(tail("abcdef", 0), "");
}

#[test]
fn tail_moves_forward_to_the_next_character_boundary() {
    // The last five bytes start inside the four-byte emoji, so the cut moves
    // forward to the next boundary rather than back.
    let text = "aaaa\u{1F600}b";
    assert_eq!(tail(text, 5), "\u{1F600}b");
    assert_eq!(tail(text, 4), "b");
}
