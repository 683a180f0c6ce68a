//! The summary that follows a listing.

use vstd::prelude::*;
use crate::collect::Counts;
use crate::text::decimal;
use crate::text::push_decimal;

verus! {

/// The part of the summary for `n` entries of one type: nothing for none,
/// else the number and the type's name in the singular or the plural.
pub open spec fn part(n: nat, singular: Seq<char>, plural: Seq<char>) -> Seq<Seq<char>> {
    if n == 0 {
        Seq::empty()
    } else if n == 1 {
        seq![decimal(n).push(' ') + singular]
    } else {
        seq![decimal(n).push(' ') + plural]
    }
}

/// The parts of the summary, in their order.
pub open spec fn parts(counts: Counts) -> Seq<Seq<char>> {
    part(counts.dirs as nat, "directory"@, "directories"@) + part(
        counts.files as nat,
        "file"@,
        "files"@,
    ) + part(counts.symlinks as nat, "symlink"@, "symlinks"@) + part(
        counts.broken_symlinks as nat,
        "broken symlink"@,
        "broken symlinks"@,
    ) + part(counts.pipes as nat, "pipe"@, "pipes"@) + part(
        counts.sockets as nat,
        "socket"@,
        "sockets"@,
    ) + part(counts.block_devices as nat, "block device"@, "block devices"@) + part(
        counts.char_devices as nat,
        "char device"@,
        "char devices"@,
    )
}

/// The parts with a comma and a space between each two.
pub open spec fn joined(parts: Seq<Seq<char>>) -> Seq<char>
    decreases parts.len(),
{
    if parts.len() == 0 {
        Seq::empty()
    } else if parts.len() == 1 {
        parts[0]
    } else {
        joined(parts.drop_last()) + ", "@ + parts.last()
    }
}

/// The summary of the counts: its parts joined, and none where nothing was
/// counted.
pub open spec fn report_text(counts: Counts) -> Option<Seq<char>> {
    if parts(counts).len() == 0 {
        None
    } else {
        Some(joined(parts(counts)))
    }
}

/// Appends one part to the summary.
fn add_part(
    out: &mut String,
    n: usize,
    singular: &str,
    plural: &str,
    Ghost(before): Ghost<Seq<Seq<char>>>,
) -> (after: Ghost<Seq<Seq<char>>>)
    requires
        old(out)@ == joined(before),
        forall|i: int| 0 <= i < before.len() ==> (#[trigger] before[i]).len() > 0,
    ensures
        after@ == before + part(n as nat, singular@, plural@),
        final(out)@ == joined(after@),
        forall|i: int| 0 <= i < after@.len() ==> (#[trigger] after@[i]).len() > 0,
        after@.len() == 0 <==> before.len() == 0 && n == 0,
{
    let ghost added = part(n as nat, singular@, plural@);
    if n > 0 {
        let ghost start = out@;
        let empty_before = out.as_str().is_empty();
        proof {
            lemma_joined_len(before);
        }
        if !empty_before {
            out.append(", ");
        }
        let ghost mid = out@;
        push_decimal(out, n as u64);
        out.push(' ');
        if n == 1 {
            out.append(singular);
        } else {
            out.append(plural);
        }
        proof {
            let text = added[0];
            assert(out@ =~= mid + text);
            let all = before + added;
            assert(all.drop_last() =~= before);
            assert(all.last() == text);
            if before.len() == 0 {
                assert(all.len() == 1);
                assert(all[0] == text);
                assert(out@ =~= joined(all));
            } else {
                assert(out@ =~= joined(all));
            }
        }
    } else {
        assert(before + added =~= before);
    }
    Ghost(before + added)
}

/// Joined parts, none of them empty, are empty only where there are none.
proof fn lemma_joined_len(parts: Seq<Seq<char>>)
    requires
        forall|i: int| 0 <= i < parts.len() ==> (#[trigger] parts[i]).len() > 0,
    ensures
        joined(parts).len() == 0 <==> parts.len() == 0,
    decreases parts.len(),
{
    if parts.len() > 1 {
        lemma_joined_len(parts.drop_last());
    }
}

/// The summary line for the counts: for each type that was met, the number
/// and the type's name; `None` where nothing was counted.
pub fn print_report(counts: &Counts) -> (line: Option<String>)
    ensures
        match line {
            Some(text) => report_text(*counts) == Some(text@),
            None => report_text(*counts) is None,
        },
        line is None <==> counts.total() == 0,
{
    let mut out = String::new();
    let ghost none: Seq<Seq<char>> = Seq::empty();
    let p1 = add_part(&mut out, counts.dirs, "directory", "directories", Ghost(none));
    let p2 = add_part(&mut out, counts.files, "file", "files", p1);
    let p3 = add_part(&mut out, counts.symlinks, "symlink", "symlinks", p2);
    let p4 = add_part(&mut out, counts.broken_symlinks, "broken symlink", "broken symlinks", p3);
    let p5 = add_part(&mut out, counts.pipes, "pipe", "pipes", p4);
    let p6 = add_part(&mut out, counts.sockets, "socket", "sockets", p5);
    let p7 = add_part(&mut out, counts.block_devices, "block device", "block devices", p6);
    let p8 = add_part(&mut out, counts.char_devices, "char device", "char devices", p7);
    assert(p8@ =~= parts(*counts));
    proof {
        lemma_joined_len(p8@);
    }
    if out.as_str().is_empty() {
        None
    } else {
        Some(out)
    }
}

} // verus!
