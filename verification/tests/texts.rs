use rdir::text::decimal_len;
use rdir::text::decimal_string;
use rdir::text::find_byte;
use rdir::text::is_word;
use rdir::text::push_decimal;
use rdir::text::push_right_aligned;
use rdir::text::push_spaces;
use rdir::text::push_zero_padded;
use rdir::text::push_zeros;
use rdir::text::same_bytes;
use rdir::text::text_after;

#[test]
fn decimal_numerals() {
    assert_eq!(decimal_string(0), "0");
    assert_eq!(decimal_string(7), "7");
    assert_eq!(decimal_string(10), "10");
    assert_eq!(decimal_string(1_000_000), "1000000");
    assert_eq!(decimal_string(u64::MAX), "18446744073709551615");
}

#[test]
fn decimal_lengths() {
    assert_eq!(decimal_len(0), 1);
    assert_eq!(decimal_len(9), 1);
    assert_eq!(decimal_len(10), 2);
    assert_eq!(decimal_len(99), 2);
    assert_eq!(decimal_len(100), 3);
    assert_eq!(decimal_len(u64::MAX), 20);
}

#[test]
fn numerals_agree_with_the_standard_library() {
    let mut x: u64 = 1;
    let mut n = 0;
    while n < 5000 {
        x = x.wrapping_mul(6364136223846793005).wrapping_add(1442695040888963407);
        let v = x >> (x >> 58);
        assert_eq!(decimal_string(v), v.to_string());
        assert_eq!(decimal_len(v), v.to_string().len());
        n += 1;
    }
}

#[test]
fn appending_keeps_what_was_there() {
    let mut s = String::from("ab");
    push_decimal(&mut s, 42);
    assert_eq!(s, "ab42");
    push_spaces(&mut s, 3);
    assert_eq!(s, "ab42   ");
    push_spaces(&mut s, 0);
    push_zeros(&mut s, 2);
    assert_eq!(s, "ab42   00");
}

#[test]
fn zero_padding() {
    let mut s = String::new();
    push_zero_padded(&mut s, 7, 2);
    s.push('|');
    push_zero_padded(&mut s, 123, 2);
    s.push('|');
    push_zero_padded(&mut s, 0, 4);
    s.push('|');
    push_zero_padded(&mut s, 5, 0);
    assert_eq!(s, "07|123|0000|5");
}

#[test]
fn right_alignment() {
    let mut s = String::from(">");
    push_right_aligned(&mut s, "ab", 5);
    s.push('|');
    push_right_aligned(&mut s, "abcdef", 5);
    s.push('|');
    push_right_aligned(&mut s, "", 2);
    s.push('|');
    push_right_aligned(&mut s, "é", 2);
    assert_eq!(s, ">   ab|abcdef|  | é");
}

#[test]
fn bytes_and_words() {
    assert!(same_bytes(b"", b""));
    assert!(same_bytes(b"abc", b"abc"));
    assert!(!same_bytes(b"abc", b"abd"));
    assert!(!same_bytes(b"abc", b"ab"));
    assert!(is_word(b"--all", "--all"));
    assert!(!is_word(b"--al", "--all"));
    assert!(is_word("é".as_bytes(), "é"));
}

#[test]
fn finding_a_byte() {
    assert_eq!(find_byte(b"a=b=c", 0, b'='), 1);
    assert_eq!(find_byte(b"a=b=c", 2, b'='), 3);
    assert_eq!(find_byte(b"a=b=c", 4, b'='), 5);
    assert_eq!(find_byte(b"", 0, b'='), 0);
    assert_eq!(find_byte(b"=", 0, b'='), 0);
    assert_eq!(find_byte(b"abc", 3, b'='), 3);
}

#[test]
fn text_behind_an_ascii_byte() {
    assert_eq!(text_after("a=b", 2), "b");
    assert_eq!(text_after("a=", 2), "");
    assert_eq!(text_after("é=ü", 3), "ü");
    assert_eq!(text_after("x/éy", 2), "éy");
}
