//! Building blocks for text: appending to a `String`, decimal numerals,
//! padding, and comparisons on the UTF-8 bytes of a string.

use vstd::prelude::*;
use vstd::utf8::encode_utf8;
use vstd::utf8::decode_utf8;
use vstd::utf8::encode_utf8_decode_utf8;
use vstd::utf8::encode_utf8_valid_utf8;
use vstd::utf8::is_char_boundary;
use vstd::utf8::is_char_boundary_iff_not_is_continuation_byte;
use vstd::utf8::is_char_boundary_start_end_of_seq;
use vstd::utf8::pop_first_scalar;
use vstd::utf8::valid_utf8;
use vstd::utf8::valid_utf8_split;

verus! {

/// `String::push` of the standard library: the string afterwards is the
/// string before with `ch` appended as its last character. Trusted.
pub assume_specification[ String::push ](s: &mut String, ch: char)
    ensures
        final(s)@ == old(s)@.push(ch),
;

/// The lowercase form of a text as `str::to_lowercase` of the standard
/// library computes it (Unicode's lowercase mapping, independent of locale).
pub uninterp spec fn lowercase(text: Seq<char>) -> Seq<char>;

/// Calls `str::to_lowercase`. Trusted: the result is the lowercase form of
/// the argument, which depends on the argument alone.
#[verifier::external_body]
pub(crate) fn to_lowercase(text: &str) -> (lower: String)
    ensures
        lower@ == lowercase(text@),
{
    text.to_lowercase()
}

/// The texts of a list of strings.
pub open spec fn texts(strings: Seq<String>) -> Seq<Seq<char>> {
    Seq::new(strings.len(), |i: int| strings[i]@)
}

/// `n` spaces.
pub open spec fn spaces(n: nat) -> Seq<char> {
    Seq::new(n, |i: int| ' ')
}

/// The character for a single decimal digit `d < 10`.
pub open spec fn digit_char(d: nat) -> char {
    (0x30 + d) as char
}

/// The decimal numeral of `n`, without leading zeros.
pub open spec fn decimal(n: nat) -> Seq<char>
    decreases n,
{
    if n < 10 {
        seq![digit_char(n)]
    } else {
        decimal(n / 10).push(digit_char(n % 10))
    }
}

/// `text` right-aligned in a field of `width` characters: spaces are put in
/// front of a shorter text, a longer one is left as it is.
pub open spec fn pad_left(text: Seq<char>, width: nat) -> Seq<char> {
    if text.len() < width {
        spaces((width - text.len()) as nat) + text
    } else {
        text
    }
}

/// `n` zeros.
pub open spec fn zeros(n: nat) -> Seq<char> {
    Seq::new(n, |i: int| '0')
}

/// `text` with zeros in front up to `width` characters.
pub open spec fn zero_pad(text: Seq<char>, width: nat) -> Seq<char> {
    if text.len() < width {
        zeros((width - text.len()) as nat) + text
    } else {
        text
    }
}

/// A numeral has at least one digit, and a number below `10^k` at most `k`.
pub proof fn lemma_decimal_len(n: nat)
    ensures
        decimal(n).len() >= 1,
        n < 10 ==> decimal(n).len() == 1,
        10 <= n < 100 ==> decimal(n).len() == 2,
        n <= u64::MAX ==> decimal(n).len() <= 20,
    decreases n,
{
    reveal_with_fuel(decimal, 3);
    if n >= 10 {
        lemma_decimal_len(n / 10);
    }
    if n <= u64::MAX {
        assert(pow10(20) == 100000000000000000000) by {
            reveal_with_fuel(pow10, 21);
        }
        lemma_decimal_len_bound(n, 20);
    }
}

/// A number below `10^k` has at most `k` digits.
proof fn lemma_decimal_len_bound(n: nat, k: nat)
    requires
        k >= 1,
        n < pow10(k),
    ensures
        decimal(n).len() <= k,
    decreases k,
{
    reveal_with_fuel(pow10, 2);
    if n >= 10 {
        assert(k >= 2);
        lemma_decimal_len_bound(n / 10, (k - 1) as nat);
    }
}

/// Ten to the power `k`.
pub open spec fn pow10(k: nat) -> nat
    decreases k,
{
    if k == 0 {
        1
    } else {
        10 * pow10((k - 1) as nat)
    }
}

/// Appends `n` spaces to `s`.
pub fn push_spaces(s: &mut String, n: usize)
    ensures
        final(s)@ == old(s)@ + spaces(n as nat),
{
    let mut i: usize = 0;
    while i < n
        invariant
            i <= n,
            s@ == old(s)@ + spaces(i as nat),
        decreases n - i,
    {
        s.push(' ');
        i += 1;
        assert(s@ =~= old(s)@ + spaces(i as nat));
    }
}

/// Appends `n` zeros to `s`.
pub fn push_zeros(s: &mut String, n: usize)
    ensures
        final(s)@ == old(s)@ + zeros(n as nat),
{
    let mut i: usize = 0;
    while i < n
        invariant
            i <= n,
            s@ == old(s)@ + zeros(i as nat),
        decreases n - i,
    {
        s.push('0');
        i += 1;
        assert(s@ =~= old(s)@ + zeros(i as nat));
    }
}

/// Appends the decimal numeral of `n` to `s`.
pub fn push_decimal(s: &mut String, n: u64)
    ensures
        final(s)@ == old(s)@ + decimal(n as nat),
    decreases n,
{
    if n >= 10 {
        push_decimal(s, n / 10);
    }
    let d: u8 = (n % 10) as u8;
    s.push((0x30u8 + d) as char);
    assert(s@ =~= old(s)@ + decimal(n as nat));
}

/// The number of digits in the decimal numeral of `n`.
pub fn decimal_len(n: u64) -> (len: usize)
    ensures
        len == decimal(n as nat).len(),
        1 <= len <= 20,
{
    proof {
        lemma_decimal_len(n as nat);
    }
    let mut len: usize = 1;
    let mut rest: u64 = n;
    while rest >= 10
        invariant
            1 <= len,
            len + decimal(rest as nat).len() == decimal(n as nat).len() + 1,
            decimal(n as nat).len() <= 20,
        decreases rest,
    {
        proof {
            lemma_decimal_len((rest / 10) as nat);
        }
        rest = rest / 10;
        len += 1;
    }
    len
}

/// Appends the numeral of `n` with zeros in front up to `width` characters.
pub fn push_zero_padded(s: &mut String, n: u64, width: usize)
    ensures
        final(s)@ == old(s)@ + zero_pad(decimal(n as nat), width as nat),
{
    let len = decimal_len(n);
    if len < width {
        push_zeros(s, width - len);
    }
    push_decimal(s, n);
    assert(s@ =~= old(s)@ + zero_pad(decimal(n as nat), width as nat));
}

/// The decimal numeral of `n` as a new string.
pub fn decimal_string(n: u64) -> (s: String)
    ensures
        s@ == decimal(n as nat),
{
    let mut s = String::new();
    push_decimal(&mut s, n);
    s
}

/// Appends `text` to `s`, with spaces in front so that it fills at least
/// `width` characters.
pub fn push_right_aligned(s: &mut String, text: &str, width: usize)
    ensures
        final(s)@ == old(s)@ + pad_left(text@, width as nat),
{
    let text_len = text.unicode_len();
    if text_len < width {
        push_spaces(s, width - text_len);
    }
    s.append(text);
    assert(s@ =~= old(s)@ + pad_left(text@, width as nat));
}

/// The UTF-8 encoding of a concatenation is the concatenation of the
/// encodings.
pub proof fn lemma_utf8_concat(a: Seq<char>, b: Seq<char>)
    ensures
        encode_utf8(a + b) == encode_utf8(a) + encode_utf8(b),
    decreases a.len(),
{
    if a.len() == 0 {
        assert(a + b =~= b);
        assert(encode_utf8(a) + encode_utf8(b) =~= encode_utf8(b));
    } else {
        lemma_utf8_concat(a.drop_first(), b);
        assert((a + b).drop_first() =~= a.drop_first() + b);
        assert((a + b)[0] == a[0]);
        assert(encode_utf8(a + b) =~= encode_utf8(a) + encode_utf8(b));
    }
}

/// A text has at most as many characters as its UTF-8 encoding has bytes.
pub proof fn lemma_utf8_len(text: Seq<char>)
    ensures
        text.len() <= encode_utf8(text).len(),
    decreases text.len(),
{
    if text.len() > 0 {
        lemma_utf8_len(text.drop_first());
    }
}

/// Two texts with the same UTF-8 bytes are the same text.
pub proof fn lemma_utf8_injective(a: Seq<char>, b: Seq<char>)
    requires
        encode_utf8(a) == encode_utf8(b),
    ensures
        a == b,
{
    encode_utf8_decode_utf8(a);
    encode_utf8_decode_utf8(b);
    assert(decode_utf8(encode_utf8(a)) == a);
    assert(decode_utf8(encode_utf8(b)) == b);
}

/// Whether two byte strings are the same.
pub fn same_bytes(a: &[u8], b: &[u8]) -> (same: bool)
    ensures
        same == (a@ == b@),
{
    if a.len() != b.len() {
        return false;
    }
    let mut i: usize = 0;
    while i < a.len()
        invariant
            i <= a.len(),
            a.len() == b.len(),
            forall|k: int| 0 <= k < i ==> a@[k] == b@[k],
        decreases a.len() - i,
    {
        if a[i] != b[i] {
            return false;
        }
        i += 1;
    }
    assert(a@ =~= b@);
    true
}

/// The number of bytes of `text` before the first byte `stop`, all of them
/// where there is none.
pub open spec fn span_before(text: Seq<u8>, stop: u8) -> nat
    decreases text.len(),
{
    if text.len() == 0 || text[0] == stop {
        0
    } else {
        1 + span_before(text.skip(1), stop)
    }
}

/// The place of the first byte `stop` from `from` on, or the length of
/// `bytes` where there is none.
pub fn find_byte(bytes: &[u8], from: usize, stop: u8) -> (end: usize)
    requires
        from <= bytes.len(),
    ensures
        from <= end <= bytes.len(),
        end - from == span_before(bytes@.skip(from as int), stop),
        end < bytes.len() ==> bytes[end as int] == stop,
{
    let n = bytes.len();
    let mut k: usize = from;
    while k < n && bytes[k] != stop
        invariant
            from <= k <= n,
            n == bytes.len(),
            span_before(bytes@.skip(from as int), stop) == (k - from) + span_before(
                bytes@.skip(k as int),
                stop,
            ),
        decreases n - k,
    {
        assert(bytes@.skip(k as int)[0] == bytes[k as int]);
        assert(bytes@.skip(k as int).skip(1) =~= bytes@.skip(k + 1));
        k += 1;
    }
    proof {
        if k < n {
            assert(bytes@.skip(k as int)[0] == bytes[k as int]);
        }
    }
    k
}

/// Whether `bytes` is the text `word`.
pub open spec fn named(bytes: Seq<u8>, word: &str) -> bool {
    bytes == encode_utf8(word@)
}

/// Whether `bytes` is the text `word`.
pub fn is_word(bytes: &[u8], word: &str) -> (yes: bool)
    ensures
        yes == named(bytes@, word),
{
    same_bytes(bytes, word.as_bytes())
}

/// In the bytes of a text, a character starts behind each ASCII byte,
/// unless the text ends there.
pub proof fn lemma_boundary_after_ascii(text: Seq<char>, i: int)
    requires
        0 <= i < encode_utf8(text).len(),
        encode_utf8(text)[i] < 0x80,
    ensures
        is_char_boundary(encode_utf8(text), i + 1),
{
    let bytes = encode_utf8(text);
    encode_utf8_valid_utf8(text);
    is_char_boundary_iff_not_is_continuation_byte(bytes, i);
    valid_utf8_split(bytes, i);
    let tail = bytes.subrange(i, bytes.len() as int);
    assert(tail[0] == bytes[i]);
    reveal_with_fuel(valid_utf8, 2);
    let rest = pop_first_scalar(tail);
    assert(rest =~= bytes.subrange(i + 1, bytes.len() as int));
    if i + 1 < bytes.len() {
        assert(rest[0] == bytes[i + 1]);
        is_char_boundary_iff_not_is_continuation_byte(bytes, i + 1);
    } else {
        is_char_boundary_start_end_of_seq(bytes);
    }
}

/// The part of `text` from the byte `at` on, which stands behind an ASCII
/// byte.
pub fn text_after(text: &str, at: usize) -> (rest: &str)
    requires
        0 < at <= encode_utf8(text@).len(),
        encode_utf8(text@)[at - 1] < 0x80,
    ensures
        encode_utf8(rest@) == encode_utf8(text@).skip(at as int),
{
    proof {
        lemma_boundary_after_ascii(text@, at - 1);
    }
    let parts = text.split_at(at);
    parts.1
}

} // verus!
