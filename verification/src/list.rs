//! The flat listing of one directory: in columns, or in long form.

use vstd::prelude::*;
use crate::collect::entries_of;
use crate::collect::collect_entries;
use crate::collect::counted;
use crate::collect::listed;
use crate::collect::Counts;
use crate::columns::column_layout;
use crate::columns::layout;
use crate::display::build_short_display;
use crate::display::short_display;
use crate::entry::EntryInfo;
use crate::entry::RawEntry;
use crate::long::format_long_entry;
use crate::long::long_line;
use crate::long::long_widths;
use crate::long::widths_for;
use crate::options::Options;
use crate::sort::is_stable_sort;
use crate::sort::sort_entries;
use crate::text::texts;
use crate::vcs::GitState;
use crate::vcs::StatusMap;

verus! {

/// The short forms of the entries, one for each.
pub open spec fn short_forms(entries: Seq<EntryInfo>, opts: Options) -> Seq<Seq<char>> {
    Seq::new(entries.len(), |i: int| short_display(entries[i], opts))
}

/// The long form of the entries: one line for each, the number columns as
/// wide as the widest number of the batch.
pub open spec fn long_lines(entries: Seq<EntryInfo>, opts: Options) -> Seq<Seq<char>> {
    Seq::new(
        entries.len(),
        |i: int| long_line(entries[i], widths_for(entries, opts.human_readable), opts),
    )
}

/// The lines that show the entries, in their order: the long form where it
/// is asked for, else the short forms laid out in columns.
pub open spec fn entry_lines(entries: Seq<EntryInfo>, opts: Options, term_width: nat) -> Seq<
    Seq<char>,
> {
    if opts.long {
        long_lines(entries, opts)
    } else {
        layout(short_forms(entries, opts), term_width, opts.one_per_line)
    }
}

/// Whether `lines` is the flat listing of what a directory read found: the
/// entries that are shown, sorted, and rendered.
pub open spec fn is_flat_listing(
    lines: Seq<Seq<char>>,
    raws: Seq<RawEntry>,
    opts: Options,
    status: Map<Seq<u8>, GitState>,
    term_width: nat,
) -> bool {
    exists|sorted: Seq<EntryInfo>|
        {
            &&& #[trigger] is_stable_sort(entries_of(listed(raws, opts), status), sorted, opts)
            &&& lines == entry_lines(sorted, opts, term_width)
        }
}

/// Renders entries, in the order given, for a terminal `term_width`
/// columns wide.
pub fn render_entries(entries: &Vec<EntryInfo>, opts: &Options, term_width: usize) -> (lines: Vec<
    String,
>)
    ensures
        texts(lines@) == entry_lines(entries@, *opts, term_width as nat),
{
    let n = entries.len();
    if opts.long {
        let widths = long_widths(entries, opts);
        let mut lines: Vec<String> = Vec::new();
        let mut i: usize = 0;
        while i < n
            invariant
                i <= n,
                n == entries.len(),
                opts.long,
                widths == widths_for(entries@, opts.human_readable),
                lines.len() == i,
                forall|k: int|
                    0 <= k < i ==> (#[trigger] lines[k])@ == long_line(entries[k], widths, *opts),
            decreases n - i,
        {
            lines.push(format_long_entry(&entries[i], &widths, opts));
            i += 1;
        }
        assert(texts(lines@) =~= long_lines(entries@, *opts));
        lines
    } else {
        let mut fragments: Vec<String> = Vec::new();
        let mut i: usize = 0;
        while i < n
            invariant
                i <= n,
                n == entries.len(),
                fragments.len() == i,
                forall|k: int|
                    0 <= k < i ==> (#[trigger] fragments[k])@ == short_display(entries[k], *opts),
            decreases n - i,
        {
            fragments.push(build_short_display(&entries[i], opts));
            i += 1;
        }
        assert(texts(fragments@) =~= short_forms(entries@, *opts));
        column_layout(&fragments, term_width, opts.one_per_line)
    }
}

/// Lists one directory: takes what the directory read found, counts what
/// it sees, and returns the lines of the listing for a terminal
/// `term_width` columns wide.
pub fn list_dir(
    raws: Vec<RawEntry>,
    opts: &Options,
    status: &StatusMap,
    term_width: usize,
    counts: &mut Counts,
) -> (lines: Vec<String>)
    requires
        old(counts).total() + raws.len() <= usize::MAX,
    ensures
        *final(counts) == counted(*old(counts), raws@, *opts),
        is_flat_listing(texts(lines@), raws@, *opts, status@, term_width as nat),
{
    let entries = collect_entries(raws, opts, status, counts);
    let ghost collected = entries@;
    let sorted = sort_entries(entries, opts);
    let lines = render_entries(&sorted, opts, term_width);
    assert(is_stable_sort(collected, sorted@, *opts));
    lines
}

} // verus!
