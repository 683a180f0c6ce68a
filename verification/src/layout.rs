//! Visible width of coloured text.
//!
//! A fragment may carry colour codes: the character `ESC`, a `[`, and then
//! everything up to and with the next `m`. Such a code takes no room on the
//! terminal. Every other character of the fragment counts as one column.

use vstd::prelude::*;
use crate::text::lemma_utf8_len;

verus! {

/// The character that starts an escape sequence.
pub const ESC: char = '\x1b';

/// The character `[`, which follows `ESC` in a colour code.
pub const BRACKET: char = '[';

/// The character `m`, which ends a colour code.
pub const CODE_END: char = 'm';

/// The number of visible characters in `text`, read from its start, where
/// `in_code` says whether the reader stands inside a colour code.
pub open spec fn visible_scan(text: Seq<char>, in_code: bool) -> nat
    decreases text.len(),
{
    if text.len() == 0 {
        0
    } else if in_code {
        visible_scan(text.skip(1), text[0] != CODE_END)
    } else if text[0] == ESC && text.len() > 1 && text[1] == BRACKET {
        visible_scan(text.skip(2), true)
    } else {
        1 + visible_scan(text.skip(1), false)
    }
}

/// The visible width of a text: its characters outside colour codes.
pub open spec fn text_width(text: Seq<char>) -> nat {
    visible_scan(text, false)
}

/// The visible width of `s`: the characters that belong to no colour code.
pub fn visible_len(s: &str) -> (len: usize)
    ensures
        len == text_width(s@),
{
    let ghost text = s@;
    let limit = s.as_bytes().len();
    proof {
        lemma_utf8_len(text);
        assert(text.skip(0) =~= text);
    }
    let mut len: usize = 0;
    let mut in_code = false;
    let mut after_esc = false;
    for c in it: s.chars()
        invariant
            it.seq() == text,
            text.len() <= limit,
            !(in_code && after_esc),
            after_esc ==> it.index() >= 1 && text[it.index() - 1] == ESC && len < it.index()
                && len + visible_scan(text.skip(it.index() - 1), false) == text_width(text),
            !after_esc ==> len <= it.index() && len + visible_scan(
                text.skip(it.index() as int),
                in_code,
            ) == text_width(text),
    {
        let ghost i = it.index() as int;
        assert(text.skip(i)[0] == c);
        assert(text.skip(i).skip(1) =~= text.skip(i + 1));
        if in_code {
            if c == CODE_END {
                in_code = false;
            }
        } else if after_esc {
            let ghost from = text.skip(i - 1);
            assert(from[0] == ESC && from[1] == c);
            assert(from.skip(1) =~= text.skip(i));
            assert(from.skip(2) =~= text.skip(i + 1));
            after_esc = false;
            if c == BRACKET {
                in_code = true;
            } else {
                len += 1;
                if c == ESC {
                    after_esc = true;
                } else {
                    len += 1;
                }
            }
        } else if c == ESC {
            after_esc = true;
        } else {
            len += 1;
        }
    }
    assert(text.skip(text.len() as int).len() == 0);
    if after_esc {
        let ghost last = text.skip(text.len() - 1);
        assert(last.len() == 1 && last[0] == ESC);
        assert(visible_scan(last.skip(1), false) == 0);
        len += 1;
    }
    len
}

/// Text without an escape character: each of its characters is visible.
pub open spec fn is_plain(text: Seq<char>) -> bool {
    forall|i: int| 0 <= i < text.len() ==> text[i] != ESC
}

/// A colour code: `ESC`, `[`, parameters other than `m`, and an `m`.
pub open spec fn is_color_code(code: Seq<char>) -> bool {
    &&& code.len() >= 3
    &&& code[0] == ESC
    &&& code[1] == BRACKET
    &&& code[code.len() - 1] == CODE_END
    &&& forall|i: int| 2 <= i < code.len() - 1 ==> code[i] != CODE_END
}

/// One piece of a coloured text.
pub enum Piece {
    /// Visible text.
    Text(Seq<char>),
    /// A colour code.
    Code(Seq<char>),
}

/// Each text piece is plain and each code piece is a colour code.
pub open spec fn pieces_well_formed(pieces: Seq<Piece>) -> bool {
    forall|i: int|
        0 <= i < pieces.len() ==> match #[trigger] pieces[i] {
            Piece::Text(t) => is_plain(t),
            Piece::Code(c) => is_color_code(c),
        }
}

/// The characters of the pieces, one after the other.
pub open spec fn pieces_text(pieces: Seq<Piece>) -> Seq<char>
    decreases pieces.len(),
{
    if pieces.len() == 0 {
        Seq::empty()
    } else {
        let head = match pieces[0] {
            Piece::Text(t) => t,
            Piece::Code(c) => c,
        };
        head + pieces_text(pieces.skip(1))
    }
}

/// The number of characters in the text pieces.
pub open spec fn pieces_text_len(pieces: Seq<Piece>) -> nat
    decreases pieces.len(),
{
    if pieces.len() == 0 {
        0
    } else {
        let head = match pieces[0] {
            Piece::Text(t) => t.len(),
            Piece::Code(c) => 0,
        };
        head + pieces_text_len(pieces.skip(1))
    }
}

/// Plain text in front of anything adds its length to the width.
pub proof fn lemma_plain_prefix(text: Seq<char>, rest: Seq<char>)
    requires
        is_plain(text),
    ensures
        visible_scan(text + rest, false) == text.len() + visible_scan(rest, false),
    decreases text.len(),
{
    if text.len() == 0 {
        assert(text + rest =~= rest);
    } else {
        let all = text + rest;
        assert(all[0] == text[0]);
        assert(all.skip(1) =~= text.skip(1) + rest);
        assert(is_plain(text.skip(1))) by {
            assert forall|i: int| 0 <= i < text.skip(1).len() implies text.skip(1)[i] != ESC by {
                assert(text.skip(1)[i] == text[i + 1]);
            }
        }
        lemma_plain_prefix(text.skip(1), rest);
    }
}

/// Inside a colour code, everything up to and with its `m` adds nothing to
/// the width.
proof fn lemma_code_body(body: Seq<char>, rest: Seq<char>)
    requires
        body.len() >= 1,
        body[body.len() - 1] == CODE_END,
        forall|i: int| 0 <= i < body.len() - 1 ==> body[i] != CODE_END,
    ensures
        visible_scan(body + rest, true) == visible_scan(rest, false),
    decreases body.len(),
{
    let all = body + rest;
    assert(all[0] == body[0]);
    if body.len() == 1 {
        assert(all.skip(1) =~= rest);
    } else {
        assert(all.skip(1) =~= body.skip(1) + rest);
        assert forall|i: int| 0 <= i < body.skip(1).len() - 1 implies body.skip(1)[i]
            != CODE_END by {
            assert(body.skip(1)[i] == body[i + 1]);
        }
        lemma_code_body(body.skip(1), rest);
    }
}

/// A colour code in front of anything adds nothing to the width.
pub proof fn lemma_code_prefix(code: Seq<char>, rest: Seq<char>)
    requires
        is_color_code(code),
    ensures
        visible_scan(code + rest, false) == visible_scan(rest, false),
{
    let all = code + rest;
    assert(all[0] == code[0]);
    assert(all[1] == code[1]);
    assert(all.skip(2) =~= code.skip(2) + rest);
    assert forall|i: int| 0 <= i < code.skip(2).len() - 1 implies code.skip(2)[i]
        != CODE_END by {
        assert(code.skip(2)[i] == code[i + 2]);
    }
    lemma_code_body(code.skip(2), rest);
}

/// The visible width of a text made of plain text and colour codes, in any
/// order and number, is the number of characters of its plain text.
pub proof fn lemma_width_counts_text(pieces: Seq<Piece>)
    requires
        pieces_well_formed(pieces),
    ensures
        text_width(pieces_text(pieces)) == pieces_text_len(pieces),
    decreases pieces.len(),
{
    if pieces.len() > 0 {
        let tail = pieces.skip(1);
        assert(pieces_well_formed(tail)) by {
            assert forall|i: int| 0 <= i < tail.len() implies match #[trigger] tail[i] {
                Piece::Text(t) => is_plain(t),
                Piece::Code(c) => is_color_code(c),
            } by {
                assert(tail[i] == pieces[i + 1]);
            }
        }
        lemma_width_counts_text(tail);
        match pieces[0] {
            Piece::Text(t) => lemma_plain_prefix(t, pieces_text(tail)),
            Piece::Code(c) => lemma_code_prefix(c, pieces_text(tail)),
        }
    }
}

/// Plain text is as wide as it is long.
pub proof fn lemma_plain_width(text: Seq<char>)
    requires
        is_plain(text),
    ensures
        text_width(text) == text.len(),
{
    lemma_plain_prefix(text, Seq::empty());
    assert(text + Seq::<char>::empty() =~= text);
}

} // verus!
