//! The tree listing: one directory's rows, each with its branch drawing,
//! and for each row whether and how the walk goes down into it.

use vstd::prelude::*;
use crate::collect::entries_of;
use crate::collect::collect_entries;
use crate::collect::counted;
use crate::collect::listed;
use crate::collect::Counts;
use crate::display::build_short_display;
use crate::display::short_display;
use crate::entry::EntryInfo;
use crate::entry::FileKind;
use crate::entry::RawEntry;
use crate::options::Options;
use crate::options::UNLIMITED_DEPTH;
use crate::sort::is_stable_sort;
use crate::sort::sort_entries;
use crate::vcs::GitState;
use crate::vcs::StatusMap;

verus! {

/// Where the walk goes next: into a directory, with the prefix for its
/// rows and the depth that is left for it.
pub struct Descent {
    /// The directory's path, relative to the root of the listing.
    pub rel_path: String,
    /// What stands in front of each row of the directory.
    pub prefix: String,
    /// The number of levels still to show, the directory's own rows being
    /// the first; or `UNLIMITED_DEPTH`.
    pub depth: usize,
}

/// One row of a tree listing.
pub struct TreeRow {
    /// The row's text.
    pub line: String,
    /// Where to go down before the next row, if anywhere.
    pub descend: Option<Descent>,
}

/// The branch in front of an entry: a corner for the last entry of its
/// directory, a tee for the others.
pub open spec fn branch(is_last: bool) -> Seq<char> {
    if is_last {
        "└── "@
    } else {
        "├── "@
    }
}

/// What the rows below an entry get in front, after the prefix of the
/// entry's own row: room below a last entry, a bar below the others.
pub open spec fn continuation(is_last: bool) -> Seq<char> {
    if is_last {
        "    "@
    } else {
        "│   "@
    }
}

/// Whether the walk goes down into entries at the given depth: not where
/// only one level is left, and always where the depth is unlimited.
pub open spec fn goes_deeper(depth: usize) -> bool {
    depth == UNLIMITED_DEPTH || depth > 1
}

/// The depth that is left below a level of depth `depth`: one less, and
/// unlimited below unlimited.
pub open spec fn depth_below(depth: usize) -> usize {
    if depth == UNLIMITED_DEPTH {
        UNLIMITED_DEPTH
    } else {
        (depth - 1) as usize
    }
}

/// Whether `row` is the row of `entry`: the prefix, the branch and the
/// entry's short form; and a descent for a directory that the depth lets
/// the walk go into, with the prefix grown by the continuation.
pub open spec fn is_row_of(
    row: TreeRow,
    entry: EntryInfo,
    is_last: bool,
    prefix: Seq<char>,
    depth: usize,
    opts: Options,
) -> bool {
    &&& row.line@ == prefix + branch(is_last) + short_display(entry, opts)
    &&& (row.descend is Some) == (entry.metadata.is_dir() && goes_deeper(depth))
    &&& row.descend matches Some(d) ==> {
        &&& d.rel_path@ == entry.rel_path@
        &&& d.prefix@ == prefix + continuation(is_last)
        &&& d.depth == depth_below(depth)
    }
}

/// Whether `rows` are the rows of the entries, in their order.
pub open spec fn are_rows_of(
    rows: Seq<TreeRow>,
    entries: Seq<EntryInfo>,
    prefix: Seq<char>,
    depth: usize,
    opts: Options,
) -> bool {
    &&& rows.len() == entries.len()
    &&& forall|i: int|
        0 <= i < rows.len() ==> is_row_of(
            #[trigger] rows[i],
            entries[i],
            i == entries.len() - 1,
            prefix,
            depth,
            opts,
        )
}

/// Whether `rows` is the tree level of what a directory read found: the
/// entries that are shown, sorted, one row for each.
pub open spec fn is_tree_level(
    rows: Seq<TreeRow>,
    raws: Seq<RawEntry>,
    prefix: Seq<char>,
    depth: usize,
    opts: Options,
    status: Map<Seq<u8>, GitState>,
) -> bool {
    exists|sorted: Seq<EntryInfo>|
        {
            &&& #[trigger] is_stable_sort(entries_of(listed(raws, opts), status), sorted, opts)
            &&& are_rows_of(rows, sorted, prefix, depth, opts)
        }
}

/// With a depth of one, the walk shows the entries of the root and goes
/// down into none of them.
pub proof fn lemma_depth_one_stays(
    rows: Seq<TreeRow>,
    entries: Seq<EntryInfo>,
    prefix: Seq<char>,
    opts: Options,
)
    requires
        are_rows_of(rows, entries, prefix, 1, opts),
    ensures
        forall|i: int| 0 <= i < rows.len() ==> (#[trigger] rows[i]).descend is None,
{
}

/// With unlimited depth, the walk goes down into every directory that it
/// shows, and the depth stays unlimited on the way down.
pub proof fn lemma_unlimited_depth_goes_on(
    rows: Seq<TreeRow>,
    entries: Seq<EntryInfo>,
    prefix: Seq<char>,
    opts: Options,
)
    requires
        are_rows_of(rows, entries, prefix, UNLIMITED_DEPTH, opts),
    ensures
        forall|i: int|
            0 <= i < rows.len() && entries[i].metadata.is_dir() ==> ((#[trigger] rows[i]).descend
                matches Some(d) && d.depth == UNLIMITED_DEPTH),
{
}

/// With a depth of `n` levels, the walk is `n - 1` levels from its end
/// after going down once.
pub proof fn lemma_depth_counts_down(depth: usize)
    requires
        1 < depth < UNLIMITED_DEPTH,
    ensures
        goes_deeper(depth),
        depth_below(depth) == depth - 1,
        !goes_deeper(1),
{
}

/// The rows of one directory for entries already in their order.
pub fn tree_rows(
    entries: &Vec<EntryInfo>,
    prefix: &str,
    depth: usize,
    opts: &Options,
) -> (rows: Vec<TreeRow>)
    ensures
        are_rows_of(rows@, entries@, prefix@, depth, *opts),
{
    let n = entries.len();
    let mut rows: Vec<TreeRow> = Vec::new();
    let mut i: usize = 0;
    while i < n
        invariant
            i <= n,
            n == entries.len(),
            rows.len() == i,
            forall|k: int|
                0 <= k < i ==> is_row_of(
                    #[trigger] rows[k],
                    entries[k],
                    k == n - 1,
                    prefix@,
                    depth,
                    *opts,
                ),
        decreases n - i,
    {
        let info = &entries[i];
        let is_last = i == n - 1;
        let mut line = String::new();
        line.append(prefix);
        if is_last {
            line.append("└── ");
        } else {
            line.append("├── ");
        }
        let disp = build_short_display(info, opts);
        line.append(disp.as_str());
        let descend = if info.metadata.kind == FileKind::Directory && (depth == UNLIMITED_DEPTH
            || depth > 1) {
            let mut new_prefix = String::new();
            new_prefix.append(prefix);
            if is_last {
                new_prefix.append("    ");
            } else {
                new_prefix.append("│   ");
            }
            let below = if depth == UNLIMITED_DEPTH {
                UNLIMITED_DEPTH
            } else {
                depth - 1
            };
            Some(Descent { rel_path: info.rel_path.clone(), prefix: new_prefix, depth: below })
        } else {
            None
        };
        let row = TreeRow { line, descend };
        assert(row.line@ =~= prefix@ + branch(is_last) + short_display(*info, *opts));
        assert(is_row_of(row, *info, is_last, prefix@, depth, *opts));
        rows.push(row);
        i += 1;
    }
    rows
}

/// One level of a tree listing: takes what the directory read found,
/// counts what it sees, and returns a row for each entry that is shown.
/// The caller prints a row, goes down where the row says so, and only then
/// goes on to the next row.
pub fn print_tree(
    raws: Vec<RawEntry>,
    prefix: &str,
    depth: usize,
    opts: &Options,
    status: &StatusMap,
    counts: &mut Counts,
) -> (rows: Vec<TreeRow>)
    requires
        old(counts).total() + raws.len() <= usize::MAX,
    ensures
        *final(counts) == counted(*old(counts), raws@, *opts),
        is_tree_level(rows@, raws@, prefix@, depth, *opts, status@),
{
    let entries = collect_entries(raws, opts, status, counts);
    let ghost collected = entries@;
    let sorted = sort_entries(entries, opts);
    let rows = tree_rows(&sorted, prefix, depth, opts);
    assert(is_stable_sort(collected, sorted@, *opts));
    rows
}

} // verus!
