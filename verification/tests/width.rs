use rdir::layout::visible_len;

#[test]
fn plain_text_is_as_wide_as_long() {
    assert_eq!(visible_len(""), 0);
    assert_eq!(visible_len("hello"), 5);
    assert_eq!(visible_len("a b"), 3);
}

#[test]
fn colour_codes_take_no_room() {
    assert_eq!(visible_len("\x1b[34m"), 0);
    assert_eq!(visible_len("\x1b[34mdir\x1b[0m"), 3);
    assert_eq!(visible_len("\x1b[1;32mx\x1b[0m\x1b[0my"), 2);
    assert_eq!(visible_len("a\x1b[0mb\x1b[31mc"), 3);
}

#[test]
fn code_placement_does_not_matter() {
    let code = "\x1b[93m";
    let text = "abcdef";
    let mut k = 0;
    while k <= text.len() {
        let s = format!("{}{}{}", &text[..k], code, &text[k..]);
        assert_eq!(visible_len(&s), 6);
        let nested = format!("{}{}{}{}", code, &text[..k], code, &text[k..]);
        assert_eq!(visible_len(&nested), 6);
        k += 1;
    }
}

#[test]
fn escape_without_bracket_counts() {
    assert_eq!(visible_len("\x1b"), 1);
    assert_eq!(visible_len("\x1bx"), 2);
    assert_eq!(visible_len("\x1b\x1b[0m"), 1);
}

#[test]
fn unfinished_code_hides_the_rest() {
    assert_eq!(visible_len("ab\x1b[31"), 2);
    assert_eq!(visible_len("ab\x1b[31;1xyz"), 2);
    assert_eq!(visible_len("\x1b["), 0);
}

#[test]
fn width_counts_each_character_once() {
    assert_eq!(visible_len("é"), 1);
    assert_eq!(visible_len("📁"), 1);
    assert_eq!(visible_len("\x1b[34m📁\x1b[0m a"), 3);
}
