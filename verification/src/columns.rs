//! The column layout of a flat listing: fragments are laid out down the
//! first column, then down the second, and so on, as many columns as fit
//! into the terminal's width.

use vstd::prelude::*;
use vstd::arithmetic::div_mod::lemma_fundamental_div_mod;
use vstd::arithmetic::div_mod::lemma_fundamental_div_mod_converse;
use crate::text::spaces;
use crate::text::push_spaces;
use crate::text::texts;
use crate::layout::text_width;
use crate::layout::visible_len;

verus! {

/// The largest visible width among the fragments, 0 where there is none.
pub open spec fn widest(frags: Seq<Seq<char>>) -> nat
    decreases frags.len(),
{
    if frags.len() == 0 {
        0
    } else {
        let w = text_width(frags.last());
        let m = widest(frags.drop_last());
        if w > m {
            w
        } else {
            m
        }
    }
}

/// The width of one column: the widest fragment and two columns of room.
pub open spec fn column_width(frags: Seq<Seq<char>>) -> nat {
    widest(frags) + 2
}

/// The number of columns: one where one entry per line is asked for, else
/// as many columns of `col_width` as fit into `term_width`, and at least one.
pub open spec fn column_count(term_width: nat, col_width: nat, one_per_line: bool) -> nat {
    if one_per_line || col_width == 0 || term_width / col_width == 0 {
        1
    } else {
        term_width / col_width
    }
}

/// The number of rows that `n` fragments take in `cols` columns: `n / cols`,
/// rounded up.
pub open spec fn row_count(n: nat, cols: nat) -> nat {
    ((n + cols - 1) / (cols as int)) as nat
}

/// The index of the fragment shown in row `r` and column `c`.
pub open spec fn cell_index(r: nat, c: nat, rows: nat) -> nat {
    r + c * rows
}

/// What row `r` shows in column `c`: the fragment of that place, filled up
/// with spaces to the column's width unless the column is the last one; and
/// nothing where the place is past the last fragment.
pub open spec fn cell(
    frags: Seq<Seq<char>>,
    r: nat,
    c: nat,
    rows: nat,
    cols: nat,
    col_width: nat,
) -> Seq<char> {
    let idx = cell_index(r, c, rows) as int;
    if idx < frags.len() {
        if c + 1 < cols {
            frags[idx] + spaces((col_width - text_width(frags[idx])) as nat)
        } else {
            frags[idx]
        }
    } else {
        Seq::empty()
    }
}

/// The first `upto` cells of row `r`, from left to right.
pub open spec fn row_text(
    frags: Seq<Seq<char>>,
    r: nat,
    rows: nat,
    cols: nat,
    col_width: nat,
    upto: nat,
) -> Seq<char>
    decreases upto,
{
    if upto == 0 {
        Seq::empty()
    } else {
        row_text(frags, r, rows, cols, col_width, (upto - 1) as nat) + cell(
            frags,
            r,
            (upto - 1) as nat,
            rows,
            cols,
            col_width,
        )
    }
}

/// The lines of the listing, from top to bottom.
pub open spec fn layout(frags: Seq<Seq<char>>, term_width: nat, one_per_line: bool) -> Seq<
    Seq<char>,
> {
    let col_width = column_width(frags);
    let cols = column_count(term_width, col_width, one_per_line);
    let rows = row_count(frags.len(), cols);
    Seq::new(rows, |r: int| row_text(frags, r as nat, rows, cols, col_width, cols))
}

/// No fragment is wider than the widest.
pub proof fn lemma_widest_bounds(frags: Seq<Seq<char>>, i: int)
    requires
        0 <= i < frags.len(),
    ensures
        text_width(frags[i]) <= widest(frags),
    decreases frags.len(),
{
    if i < frags.len() - 1 {
        lemma_widest_bounds(frags.drop_last(), i);
    }
}

/// Rounding `n / cols` up gives the quotient where the division is exact and
/// one more where it is not; the rows hold all fragments, and without the
/// last row they would not.
pub proof fn lemma_row_count(n: nat, cols: nat)
    requires
        cols >= 1,
    ensures
        row_count(n, cols) == if n % cols == 0 {
            n / cols
        } else {
            n / cols + 1
        },
        row_count(n, cols) * cols >= n,
        n > 0 ==> (row_count(n, cols) - 1) * cols < n,
        n > 0 ==> row_count(n, cols) >= 1,
        row_count(n, cols) <= n,
{
    let q = n as int / cols as int;
    let m = n as int % cols as int;
    lemma_fundamental_div_mod(n as int, cols as int);
    assert(n == cols * q + m);
    assert(0 <= q) by (nonlinear_arith)
        requires
            n == cols * q + m,
            0 <= m < cols,
            cols >= 1,
            n >= 0,
    ;
    if m == 0 {
        assert(n + cols - 1 == q * cols + (cols - 1)) by (nonlinear_arith)
            requires
                n == cols * q + m,
                m == 0,
        ;
        lemma_fundamental_div_mod_converse(n + cols - 1, cols as int, q, cols - 1);
    } else {
        assert(n + cols - 1 == (q + 1) * cols + (m - 1)) by (nonlinear_arith)
            requires
                n == cols * q + m,
        ;
        lemma_fundamental_div_mod_converse(n + cols - 1, cols as int, q + 1, m - 1);
    }
    let rows = row_count(n, cols) as int;
    assert(rows * cols >= n && (n > 0 ==> (rows - 1) * cols < n) && rows <= n && (n > 0 ==> rows
        >= 1)) by (nonlinear_arith)
        requires
            n == cols * q + m,
            0 <= m < cols,
            0 <= q,
            cols >= 1,
            rows == if m == 0 {
                q
            } else {
                q + 1
            },
    ;
}

/// From the first place of a row that lies past the last fragment on, the
/// row shows nothing more.
proof fn lemma_row_rest_empty(
    frags: Seq<Seq<char>>,
    r: nat,
    rows: nat,
    cols: nat,
    col_width: nat,
    from: nat,
    upto: nat,
)
    requires
        from <= upto,
        cell_index(r, from, rows) >= frags.len(),
    ensures
        row_text(frags, r, rows, cols, col_width, upto) == row_text(
            frags,
            r,
            rows,
            cols,
            col_width,
            from,
        ),
    decreases upto - from,
{
    if from < upto {
        let c = (upto - 1) as nat;
        lemma_row_rest_empty(frags, r, rows, cols, col_width, from, c);
        assert(from * rows <= c * rows) by (nonlinear_arith)
            requires
                from <= c,
        ;
        assert(cell(frags, r, c, rows, cols, col_width) =~= Seq::<char>::empty());
        assert(row_text(frags, r, rows, cols, col_width, upto) =~= row_text(
            frags,
            r,
            rows,
            cols,
            col_width,
            c,
        ));
    }
}

/// The number of columns for fragments of which the widest is `max_len`
/// wide.
pub fn column_total(max_len: usize, term_width: usize, one_per_line: bool) -> (cols: usize)
    ensures
        cols == column_count(term_width as nat, (max_len + 2) as nat, one_per_line),
        cols >= 1,
{
    if one_per_line || max_len > usize::MAX - 2 {
        assert(max_len > usize::MAX - 2 ==> term_width as nat / ((max_len + 2) as nat) == 0)
            by (nonlinear_arith);
        1
    } else {
        let c = term_width / (max_len + 2);
        if c == 0 {
            1
        } else {
            c
        }
    }
}

/// One line of the listing: row `r` of `rows`, in `cols` columns.
/// `widths` holds the visible width of each fragment and `max_len` the
/// largest of them.
fn layout_row(
    fragments: &Vec<String>,
    widths: &Vec<usize>,
    max_len: usize,
    r: usize,
    rows: usize,
    cols: usize,
) -> (line: String)
    requires
        r < fragments.len(),
        cols >= 1,
        widths.len() == fragments.len(),
        forall|k: int|
            0 <= k < fragments.len() ==> widths[k] == text_width(#[trigger] fragments[k]@),
        max_len == widest(texts(fragments@)),
    ensures
        line@ == row_text(
            texts(fragments@),
            r as nat,
            rows as nat,
            cols as nat,
            column_width(texts(fragments@)),
            cols as nat,
        ),
{
    let n = fragments.len();
    let ghost frags = texts(fragments@);
    let ghost width = column_width(frags);
    let mut line = String::new();
    let mut c: usize = 0;
    let mut idx: usize = r;
    assert(0 * rows == 0) by (nonlinear_arith);
    loop
        invariant_except_break
            c < cols,
            idx < n,
            idx == cell_index(r as nat, c as nat, rows as nat),
            line@ == row_text(frags, r as nat, rows as nat, cols as nat, width, c as nat),
        invariant
            n == fragments.len(),
            frags == texts(fragments@),
            width == column_width(frags),
            widths.len() == n,
            forall|k: int| 0 <= k < n ==> widths[k] == text_width(#[trigger] fragments[k]@),
            max_len == widest(frags),
        ensures
            line@ == row_text(frags, r as nat, rows as nat, cols as nat, width, cols as nat),
        decreases cols - c,
    {
        let ghost before = line@;
        line.append(fragments[idx].as_str());
        let w = widths[idx];
        proof {
            lemma_widest_bounds(frags, idx as int);
            assert(frags[idx as int] == fragments[idx as int]@);
        }
        if c + 1 < cols {
            push_spaces(&mut line, max_len - w);
            push_spaces(&mut line, 2);
            assert(spaces((max_len - w) as nat) + spaces(2) =~= spaces((width - w) as nat));
        }
        assert(line@ =~= before + cell(frags, r as nat, c as nat, rows as nat, cols as nat, width));
        assert(line@ == row_text(
            frags,
            r as nat,
            rows as nat,
            cols as nat,
            width,
            (c + 1) as nat,
        ));
        if c + 1 >= cols {
            break ;
        }
        assert((c + 1) * rows == c * rows + rows) by (nonlinear_arith);
        if n - idx <= rows {
            proof {
                lemma_row_rest_empty(
                    frags,
                    r as nat,
                    rows as nat,
                    cols as nat,
                    width,
                    (c + 1) as nat,
                    cols as nat,
                );
            }
            break ;
        }
        idx += rows;
        c += 1;
    }
    line
}

/// Lays the fragments out in columns for a terminal `term_width` columns
/// wide, or one to a line where `one_per_line` is set, and returns the lines
/// from top to bottom.
pub fn column_layout(fragments: &Vec<String>, term_width: usize, one_per_line: bool) -> (lines:
    Vec<String>)
    ensures
        texts(lines@) == layout(texts(fragments@), term_width as nat, one_per_line),
{
    let n = fragments.len();
    let ghost frags = texts(fragments@);
    let mut widths: Vec<usize> = Vec::new();
    let mut max_len: usize = 0;
    let mut i: usize = 0;
    assert(frags.take(0) =~= Seq::<Seq<char>>::empty());
    while i < n
        invariant
            i <= n,
            n == fragments.len(),
            frags == texts(fragments@),
            widths.len() == i,
            forall|k: int| 0 <= k < i ==> widths[k] == text_width(#[trigger] fragments[k]@),
            max_len == widest(frags.take(i as int)),
        decreases n - i,
    {
        let w = visible_len(fragments[i].as_str());
        proof {
            assert(frags.take(i + 1).drop_last() =~= frags.take(i as int));
            assert(frags.take(i + 1).last() == fragments[i as int]@);
        }
        if w > max_len {
            max_len = w;
        }
        widths.push(w);
        i += 1;
    }
    assert(frags.take(n as int) =~= frags);
    let cols = column_total(max_len, term_width, one_per_line);
    proof {
        lemma_row_count(n as nat, cols as nat);
    }
    let rows: usize = if n % cols == 0 {
        n / cols
    } else {
        n / cols + 1
    };
    let ghost width = column_width(frags);
    let mut lines: Vec<String> = Vec::new();
    let mut r: usize = 0;
    while r < rows
        invariant
            r <= rows,
            rows <= n,
            cols >= 1,
            n == fragments.len(),
            frags == texts(fragments@),
            width == column_width(frags),
            widths.len() == n,
            forall|k: int| 0 <= k < n ==> widths[k] == text_width(#[trigger] fragments[k]@),
            max_len == widest(frags),
            lines.len() == r,
            forall|k: int|
                0 <= k < r ==> (#[trigger] lines[k])@ == row_text(
                    frags,
                    k as nat,
                    rows as nat,
                    cols as nat,
                    width,
                    cols as nat,
                ),
        decreases rows - r,
    {
        let line = layout_row(fragments, &widths, max_len, r, rows, cols);
        lines.push(line);
        r += 1;
    }
    assert(texts(lines@) =~= layout(frags, term_width as nat, one_per_line));
    lines
}

/// Unless one entry per line is asked for, the number of columns is the
/// terminal's width divided by the column's width, and one where not even
/// one column fits; that many columns do fit.
pub proof fn lemma_column_count(term_width: nat, col_width: nat)
    requires
        col_width > 0,
    ensures
        column_count(term_width, col_width, true) == 1,
        column_count(term_width, col_width, false) == if term_width / col_width >= 1 {
            term_width / col_width
        } else {
            1
        },
        term_width / col_width >= 1 ==> column_count(term_width, col_width, false) * col_width
            <= term_width,
{
    lemma_fundamental_div_mod(term_width as int, col_width as int);
    let q = term_width as int / col_width as int;
    assert(q * col_width == col_width * q) by (nonlinear_arith);
}

/// Every fragment has its place: fragment `idx` stands in row
/// `idx % rows` and column `idx / rows`, which is one of the columns.
pub proof fn lemma_fragment_placed(n: nat, cols: nat, idx: nat)
    requires
        cols >= 1,
        idx < n,
    ensures
        idx % row_count(n, cols) < row_count(n, cols),
        idx / row_count(n, cols) < cols,
        cell_index(idx % row_count(n, cols), idx / row_count(n, cols), row_count(n, cols))
            == idx,
{
    lemma_row_count(n, cols);
    let rows = row_count(n, cols) as int;
    lemma_fundamental_div_mod(idx as int, rows);
    let c = idx as int / rows;
    let r = idx as int % rows;
    assert(c < cols && r + c * rows == idx) by (nonlinear_arith)
        requires
            idx == rows * c + r,
            0 <= r < rows,
            idx < n,
            rows * cols >= n,
            cols >= 1,
    ;
}

/// No two places of the grid show the same fragment.
pub proof fn lemma_places_differ(rows: nat, r1: nat, c1: nat, r2: nat, c2: nat)
    requires
        r1 < rows,
        r2 < rows,
        cell_index(r1, c1, rows) == cell_index(r2, c2, rows),
    ensures
        r1 == r2,
        c1 == c2,
{
    assert(c1 == c2) by (nonlinear_arith)
        requires
            r1 < rows,
            r2 < rows,
            r1 + c1 * rows == r2 + c2 * rows,
    ;
}

/// Rows fill from the left: left of a place that holds a fragment, every
/// place of the row holds one.
pub proof fn lemma_row_fills_from_left(n: nat, rows: nat, r: nat, c: nat, left: nat)
    requires
        cell_index(r, c, rows) < n,
        left <= c,
    ensures
        cell_index(r, left, rows) < n,
{
    assert(left * rows <= c * rows) by (nonlinear_arith)
        requires
            left <= c,
    ;
}

/// Columns fill from the top: a column that starts `rows` places before the
/// end is full.
pub proof fn lemma_full_column(n: nat, rows: nat, r: nat, c: nat)
    requires
        r < rows,
        (c + 1) * rows <= n,
    ensures
        cell_index(r, c, rows) < n,
{
    assert((c + 1) * rows == c * rows + rows) by (nonlinear_arith);
}

/// Where the fragments fill the grid up to at most one place, every row
/// but the last is full.
pub proof fn lemma_full_rows(n: nat, cols: nat, r: nat, c: nat)
    requires
        cols >= 1,
        row_count(n, cols) * cols <= n + 1,
        r + 1 < row_count(n, cols),
        c < cols,
    ensures
        cell_index(r, c, row_count(n, cols)) < n,
{
    let rows = row_count(n, cols);
    assert(r + c * rows < n) by (nonlinear_arith)
        requires
            rows * cols <= n + 1,
            r + 1 < rows,
            c < cols,
            cols >= 1,
    ;
}

} // verus!
