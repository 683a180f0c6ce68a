//! The long form of a listing: one line for each entry, with permissions,
//! link count, owner, group, size and time in columns.

use vstd::prelude::*;
use crate::display::build_short_display;
use crate::display::push_status_marker;
use crate::display::short_display;
use crate::display::status_marker;
use crate::entry::EntryInfo;
use crate::entry::FileKind;
use crate::entry::Metadata;
use crate::entry::ModTime;
use crate::format::format_size;
use crate::format::format_time;
use crate::format::size_text;
use crate::format::time_text;
use crate::options::Options;
use crate::text::decimal;
use crate::text::decimal_len;
use crate::text::decimal_string;
use crate::text::pad_left;
use crate::text::push_right_aligned;

verus! {

/// The letter that stands for a file type.
pub open spec fn type_char(kind: FileKind) -> char {
    match kind {
        FileKind::Directory => 'd',
        FileKind::Symlink => 'l',
        FileKind::Pipe => 'p',
        FileKind::Socket => 's',
        FileKind::BlockDevice => 'b',
        FileKind::CharDevice => 'c',
        FileKind::Regular => '-',
    }
}

/// The letter `letter` where the bit `mask` of `mode` is set, else a dash.
pub open spec fn perm_char(mode: u32, mask: u32, letter: char) -> char {
    if mode & mask != 0 {
        letter
    } else {
        '-'
    }
}

/// The permissions as ten characters: the type's letter, then read, write
/// and execute for the owner, the group and the others. Where there are no
/// permission bits, nine dashes follow the type's letter.
pub open spec fn perm_text(kind: FileKind, mode: Option<u32>) -> Seq<char> {
    match mode {
        Some(m) => seq![
            type_char(kind),
            perm_char(m, 0o400, 'r'),
            perm_char(m, 0o200, 'w'),
            perm_char(m, 0o100, 'x'),
            perm_char(m, 0o40, 'r'),
            perm_char(m, 0o20, 'w'),
            perm_char(m, 0o10, 'x'),
            perm_char(m, 0o4, 'r'),
            perm_char(m, 0o2, 'w'),
            perm_char(m, 0o1, 'x'),
        ],
        None => seq![type_char(kind), '-', '-', '-', '-', '-', '-', '-', '-', '-'],
    }
}

/// The letter that stands for a file type.
fn type_letter(kind: FileKind) -> (c: char)
    ensures
        c == type_char(kind),
{
    match kind {
        FileKind::Directory => 'd',
        FileKind::Symlink => 'l',
        FileKind::Pipe => 'p',
        FileKind::Socket => 's',
        FileKind::BlockDevice => 'b',
        FileKind::CharDevice => 'c',
        FileKind::Regular => '-',
    }
}

/// The letter for one permission bit.
fn perm_letter(mode: u32, mask: u32, letter: char) -> (c: char)
    ensures
        c == perm_char(mode, mask, letter),
{
    if mode & mask != 0 {
        letter
    } else {
        '-'
    }
}

/// The permission string of an entry.
pub fn perm_string(metadata: &Metadata) -> (s: String)
    ensures
        s@ == perm_text(metadata.kind, metadata.mode),
{
    let mut s = String::new();
    s.push(type_letter(metadata.kind));
    match metadata.mode {
        Some(mode) => {
            s.push(perm_letter(mode, 0o400, 'r'));
            s.push(perm_letter(mode, 0o200, 'w'));
            s.push(perm_letter(mode, 0o100, 'x'));
            s.push(perm_letter(mode, 0o40, 'r'));
            s.push(perm_letter(mode, 0o20, 'w'));
            s.push(perm_letter(mode, 0o10, 'x'));
            s.push(perm_letter(mode, 0o4, 'r'));
            s.push(perm_letter(mode, 0o2, 'w'));
            s.push(perm_letter(mode, 0o1, 'x'));
        },
        None => {
            let mut i: usize = 0;
            while i < 9
                invariant
                    i <= 9,
                    s@ == seq![type_char(metadata.kind)] + Seq::new(i as nat, |k: int| '-'),
                decreases 9 - i,
            {
                s.push('-');
                i += 1;
                assert(s@ =~= seq![type_char(metadata.kind)] + Seq::new(i as nat, |k: int| '-'));
            }
        },
    }
    assert(s@ =~= perm_text(metadata.kind, metadata.mode));
    s
}

/// The point in time as nanoseconds since the start of 1970.
pub open spec fn instant(t: ModTime) -> int {
    t.secs * 1_000_000_000 + t.nanos
}

/// The whole seconds between a modification time and the start of 1970,
/// in either direction; 0 where the time is not known.
pub open spec fn seconds_from_epoch(modified: Option<ModTime>) -> nat {
    match modified {
        Some(t) => if instant(t) >= 0 {
            (instant(t) / 1_000_000_000) as nat
        } else {
            ((-instant(t)) / 1_000_000_000) as nat
        },
        None => 0,
    }
}

/// The whole seconds between a modification time and the start of 1970.
pub fn epoch_seconds(modified: Option<ModTime>) -> (secs: u64)
    ensures
        secs == seconds_from_epoch(modified),
{
    match modified {
        Some(t) => {
            let ns: i128 = (t.secs as i128) * 1_000_000_000 + (t.nanos as i128);
            let distance: i128 = if ns >= 0 {
                ns
            } else {
                -ns
            };
            (distance / 1_000_000_000) as u64
        },
        None => 0,
    }
}

/// The widths of the long form's number columns.
#[derive(Clone, Copy, Debug)]
pub struct Widths {
    pub links: usize,
    pub uid: usize,
    pub gid: usize,
    pub size: usize,
}

/// The larger of two widths.
pub open spec fn wider(a: usize, b: nat) -> usize {
    if b > a {
        b as usize
    } else {
        a
    }
}

/// The widths that a batch of entries needs: for each column the longest
/// text that any entry of the batch has in it, 0 for an empty batch.
pub open spec fn widths_for(entries: Seq<EntryInfo>, human_readable: bool) -> Widths
    decreases entries.len(),
{
    if entries.len() == 0 {
        Widths { links: 0, uid: 0, gid: 0, size: 0 }
    } else {
        let rest = widths_for(entries.drop_last(), human_readable);
        let e = entries.last();
        Widths {
            links: wider(rest.links, links_len(e)),
            uid: wider(rest.uid, uid_len(e)),
            gid: wider(rest.gid, gid_len(e)),
            size: wider(rest.size, size_len(e, human_readable)),
        }
    }
}

/// One line of the long form. Its fields, from left to right: the
/// permissions, the link count, the owner, the group, the size, the time,
/// the status mark and the short form. The numbers and the size are
/// right-aligned to the given widths, with two spaces between the columns.
pub open spec fn long_line(info: EntryInfo, widths: Widths, opts: Options) -> Seq<char> {
    let m = info.metadata;
    let space = seq![' '];
    let gap = seq![' ', ' '];
    let links = pad_left(decimal(m.links as nat), widths.links as nat);
    let uid = pad_left(decimal(m.uid as nat), widths.uid as nat);
    let gid = pad_left(decimal(m.gid as nat), widths.gid as nat);
    let size = pad_left(size_text(m.size as nat, opts.human_readable), widths.size as nat);
    let time = time_text(seconds_from_epoch(m.modified));
    let marker = status_marker(info.git_state, opts.color_scheme);
    perm_text(m.kind, m.mode) + space + links + gap + uid + gap + gid + gap + size + gap + time
        + space + marker + space + short_display(info, opts)
}

/// The measure of the link-count column.
pub open spec fn links_len(e: EntryInfo) -> nat {
    decimal(e.metadata.links as nat).len()
}

/// The measure of the owner column.
pub open spec fn uid_len(e: EntryInfo) -> nat {
    decimal(e.metadata.uid as nat).len()
}

/// The measure of the group column.
pub open spec fn gid_len(e: EntryInfo) -> nat {
    decimal(e.metadata.gid as nat).len()
}

/// The measure of the size column.
pub open spec fn size_len(e: EntryInfo, human_readable: bool) -> nat {
    size_text(e.metadata.size as nat, human_readable).len()
}

/// The widths of the number columns for a batch of entries, found in one
/// pass over the batch.
pub fn long_widths(entries: &Vec<EntryInfo>, opts: &Options) -> (widths: Widths)
    ensures
        widths == widths_for(entries@, opts.human_readable),
{
    let mut widths = Widths { links: 0, uid: 0, gid: 0, size: 0 };
    let mut i: usize = 0;
    assert(entries@.take(0) =~= Seq::<EntryInfo>::empty());
    while i < entries.len()
        invariant
            i <= entries.len(),
            widths == widths_for(entries@.take(i as int), opts.human_readable),
        decreases entries.len() - i,
    {
        let m = &entries[i].metadata;
        proof {
            assert(entries@.take(i + 1).drop_last() =~= entries@.take(i as int));
            assert(entries@.take(i + 1).last() == entries@[i as int]);
        }
        let l = decimal_len(m.links);
        if l > widths.links {
            widths.links = l;
        }
        let u = decimal_len(m.uid as u64);
        if u > widths.uid {
            widths.uid = u;
        }
        let g = decimal_len(m.gid as u64);
        if g > widths.gid {
            widths.gid = g;
        }
        let size_str = format_size(m.size, opts.human_readable);
        let z = size_str.as_str().unicode_len();
        if z > widths.size {
            widths.size = z;
        }
        i += 1;
    }
    assert(entries@.take(entries.len() as int) =~= entries@);
    widths
}

/// Renders one line of the long form, without a line end.
pub fn format_long_entry(info: &EntryInfo, widths: &Widths, opts: &Options) -> (line: String)
    ensures
        line@ == long_line(*info, *widths, *opts),
{
    let m = &info.metadata;
    let mut line = perm_string(m);
    line.push(' ');
    let links = decimal_string(m.links);
    push_right_aligned(&mut line, links.as_str(), widths.links);
    line.push(' ');
    line.push(' ');
    let uid = decimal_string(m.uid as u64);
    push_right_aligned(&mut line, uid.as_str(), widths.uid);
    line.push(' ');
    line.push(' ');
    let gid = decimal_string(m.gid as u64);
    push_right_aligned(&mut line, gid.as_str(), widths.gid);
    line.push(' ');
    line.push(' ');
    let size_str = format_size(m.size, opts.human_readable);
    push_right_aligned(&mut line, size_str.as_str(), widths.size);
    line.push(' ');
    line.push(' ');
    let time_str = format_time(epoch_seconds(m.modified));
    line.append(time_str.as_str());
    line.push(' ');
    push_status_marker(&mut line, info.git_state, &opts.color_scheme);
    line.push(' ');
    let short = build_short_display(info, opts);
    line.append(short.as_str());
    assert(line@ =~= long_line(*info, *widths, *opts));
    line
}

} // verus!
