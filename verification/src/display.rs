//! One entry as text: the short form of the column and tree listings, and
//! the long form with permissions, owner, size and time.

use vstd::prelude::*;
use crate::color::ColorScheme;
use crate::entry::EntryInfo;
use crate::entry::FileKind;
use crate::entry::is_executable;
use crate::layout::is_color_code;
use crate::layout::is_plain;
use crate::layout::lemma_code_prefix;
use crate::layout::lemma_plain_prefix;
use crate::layout::text_width;
use crate::layout::visible_scan;
use crate::options::Options;
use crate::vcs::GitState;

verus! {

/// The mark of a version-control state: its letter in the state's colour,
/// or a space where there is nothing to report.
pub open spec fn status_marker(state: GitState, scheme: ColorScheme) -> Seq<char> {
    match state {
        GitState::Added => scheme.git_new@.push('A') + scheme.reset@,
        GitState::Modified => scheme.git_modified@.push('M') + scheme.reset@,
        GitState::Deleted => scheme.git_deleted@.push('D') + scheme.reset@,
        GitState::Renamed => scheme.git_renamed@.push('R') + scheme.reset@,
        GitState::TypeChanged => scheme.git_renamed@.push('T') + scheme.reset@,
        GitState::Untracked => scheme.git_untracked@.push('?') + scheme.reset@,
        GitState::Ignored => scheme.git_ignored@.push('I') + scheme.reset@,
        GitState::Clean => seq![' '],
    }
}

/// The colour of an entry's icon and name: by its type; for a symbolic link
/// by whether it leads anywhere; for a regular file by whether it can be
/// executed.
pub open spec fn entry_color(info: EntryInfo, scheme: ColorScheme) -> Seq<char> {
    match info.metadata.kind {
        FileKind::Directory => scheme.dir@,
        FileKind::Symlink => if info.target_exists {
            scheme.symlink@
        } else {
            scheme.broken_symlink@
        },
        FileKind::Pipe => scheme.pipe@,
        FileKind::Socket => scheme.socket@,
        FileKind::BlockDevice => scheme.block_device@,
        FileKind::CharDevice => scheme.char_device@,
        FileKind::Regular => if info.metadata.executable() {
            scheme.executable@
        } else {
            scheme.file@
        },
    }
}

/// For a symbolic link whose target could be read: an arrow and the target,
/// in the entry's colour. For everything else nothing.
pub open spec fn link_suffix(info: EntryInfo, scheme: ColorScheme) -> Seq<char> {
    match info.link_target {
        Some(target) if info.metadata.kind == FileKind::Symlink => scheme.reset@ + " -> "@
            + entry_color(info, scheme) + target@,
        _ => Seq::empty(),
    }
}

/// The short form of an entry: status mark, icon and name, and for a
/// symbolic link its target.
pub open spec fn short_display(info: EntryInfo, opts: Options) -> Seq<char> {
    let scheme = opts.color_scheme;
    let color = entry_color(info, scheme);
    status_marker(info.git_state, scheme).push(' ') + color + info.icon@ + scheme.reset@.push(
        ' ',
    ) + color + info.name@ + link_suffix(info, scheme) + scheme.reset@
}

/// The room that an entry's short form takes on the terminal: one column
/// for the status mark, the icon, the name, a space before and behind the
/// icon, and for a symbolic link the arrow and the target.
pub open spec fn short_width(info: EntryInfo) -> nat {
    let link = match info.link_target {
        Some(target) if info.metadata.kind == FileKind::Symlink => 4 + target@.len(),
        _ => 0,
    };
    3 + info.icon@.len() + info.name@.len() + link
}

/// The mark of a state is one column wide, whatever stands behind it.
pub proof fn lemma_marker_width(state: GitState, scheme: ColorScheme, rest: Seq<char>)
    requires
        scheme.well_formed(),
    ensures
        visible_scan(status_marker(state, scheme) + rest, false) == 1 + visible_scan(rest, false),
{
    let (color, letter) = match state {
        GitState::Added => (scheme.git_new@, 'A'),
        GitState::Modified => (scheme.git_modified@, 'M'),
        GitState::Deleted => (scheme.git_deleted@, 'D'),
        GitState::Renamed => (scheme.git_renamed@, 'R'),
        GitState::TypeChanged => (scheme.git_renamed@, 'T'),
        GitState::Untracked => (scheme.git_untracked@, '?'),
        GitState::Ignored => (scheme.git_ignored@, 'I'),
        GitState::Clean => (Seq::empty(), ' '),
    };
    if state == GitState::Clean {
        lemma_plain_prefix(seq![' '], rest);
    } else {
        let behind = scheme.reset@ + rest;
        let from_letter = seq![letter] + behind;
        assert(status_marker(state, scheme) + rest =~= color + from_letter);
        lemma_code_prefix(color, from_letter);
        lemma_plain_prefix(seq![letter], behind);
        lemma_code_prefix(scheme.reset@, rest);
    }
}

/// The colour of an entry is one of the palette's colour codes.
pub proof fn lemma_entry_color_is_code(info: EntryInfo, scheme: ColorScheme)
    requires
        scheme.well_formed(),
    ensures
        is_color_code(entry_color(info, scheme)),
{
}

/// The target of a symbolic link takes the room of the arrow and of the
/// target's text.
pub proof fn lemma_link_width(info: EntryInfo, scheme: ColorScheme, rest: Seq<char>)
    requires
        scheme.well_formed(),
        info.link_target matches Some(target) ==> is_plain(target@),
    ensures
        visible_scan(link_suffix(info, scheme) + rest, false) == visible_scan(rest, false) + (
        match info.link_target {
            Some(target) if info.metadata.kind == FileKind::Symlink => 4 + target@.len(),
            _ => 0,
        }),
{
    let color = entry_color(info, scheme);
    lemma_entry_color_is_code(info, scheme);
    match info.link_target {
        Some(target) if info.metadata.kind == FileKind::Symlink => {
            let arrow = " -> "@;
            reveal_strlit(" -> ");
            assert(is_plain(arrow));
            let from_target = target@ + rest;
            let from_color = color + from_target;
            let from_arrow = arrow + from_color;
            assert(link_suffix(info, scheme) + rest =~= scheme.reset@ + from_arrow);
            lemma_code_prefix(scheme.reset@, from_arrow);
            lemma_plain_prefix(arrow, from_color);
            lemma_code_prefix(color, from_target);
            lemma_plain_prefix(target@, rest);
        },
        _ => {
            assert(link_suffix(info, scheme) + rest =~= rest);
        },
    }
}

/// Text in a colour takes the room of the text.
pub proof fn lemma_colored_width(color: Seq<char>, text: Seq<char>, rest: Seq<char>)
    requires
        is_color_code(color),
        is_plain(text),
    ensures
        visible_scan(color + text + rest, false) == text.len() + visible_scan(rest, false),
{
    assert(color + text + rest =~= color + (text + rest));
    lemma_code_prefix(color, text + rest);
    lemma_plain_prefix(text, rest);
}

/// Colour takes no room: with a palette of colour codes, and an icon, a
/// name and a target without escape characters, the visible width of an
/// entry's short form is the width of what it shows.
pub proof fn lemma_short_display_width(info: EntryInfo, opts: Options)
    requires
        opts.color_scheme.well_formed(),
        is_plain(info.icon@),
        is_plain(info.name@),
        info.link_target matches Some(target) ==> is_plain(target@),
    ensures
        text_width(short_display(info, opts)) == short_width(info),
{
    let scheme = opts.color_scheme;
    let reset = scheme.reset@;
    let color = entry_color(info, scheme);
    let marker = status_marker(info.git_state, scheme);
    let space = seq![' '];
    let tail = link_suffix(info, scheme) + reset;
    let from_gap = reset + (space + (color + info.name@ + tail));
    let from_icon = space + (color + info.icon@ + from_gap);
    assert(short_display(info, opts) =~= marker + from_icon);
    lemma_entry_color_is_code(info, scheme);
    lemma_marker_width(info.git_state, scheme, from_icon);
    lemma_plain_prefix(space, color + info.icon@ + from_gap);
    lemma_colored_width(color, info.icon@, from_gap);
    lemma_code_prefix(reset, space + (color + info.name@ + tail));
    lemma_plain_prefix(space, color + info.name@ + tail);
    lemma_colored_width(color, info.name@, tail);
    lemma_link_width(info, scheme, reset);
    lemma_code_prefix(reset, Seq::empty());
    assert(reset + Seq::<char>::empty() =~= reset);
}

/// Appends the mark of a version-control state.
pub fn push_status_marker(out: &mut String, state: GitState, scheme: &ColorScheme)
    ensures
        final(out)@ == old(out)@ + status_marker(state, *scheme),
{
    match state {
        GitState::Added => {
            out.append(scheme.git_new);
            out.push('A');
            out.append(scheme.reset);
        },
        GitState::Modified => {
            out.append(scheme.git_modified);
            out.push('M');
            out.append(scheme.reset);
        },
        GitState::Deleted => {
            out.append(scheme.git_deleted);
            out.push('D');
            out.append(scheme.reset);
        },
        GitState::Renamed => {
            out.append(scheme.git_renamed);
            out.push('R');
            out.append(scheme.reset);
        },
        GitState::TypeChanged => {
            out.append(scheme.git_renamed);
            out.push('T');
            out.append(scheme.reset);
        },
        GitState::Untracked => {
            out.append(scheme.git_untracked);
            out.push('?');
            out.append(scheme.reset);
        },
        GitState::Ignored => {
            out.append(scheme.git_ignored);
            out.push('I');
            out.append(scheme.reset);
        },
        GitState::Clean => {
            out.push(' ');
        },
    }
    assert(out@ =~= old(out)@ + status_marker(state, *scheme));
}

/// The colour code for an entry's icon and name.
pub fn color_of(info: &EntryInfo, scheme: &ColorScheme) -> (color: &'static str)
    ensures
        color@ == entry_color(*info, *scheme),
{
    match info.metadata.kind {
        FileKind::Directory => scheme.dir,
        FileKind::Symlink => if info.target_exists {
            scheme.symlink
        } else {
            scheme.broken_symlink
        },
        FileKind::Pipe => scheme.pipe,
        FileKind::Socket => scheme.socket,
        FileKind::BlockDevice => scheme.block_device,
        FileKind::CharDevice => scheme.char_device,
        FileKind::Regular => if is_executable(&info.metadata) {
            scheme.executable
        } else {
            scheme.file
        },
    }
}

/// Renders an entry in short form.
pub fn build_short_display(info: &EntryInfo, opts: &Options) -> (parts: String)
    ensures
        parts@ == short_display(*info, *opts),
{
    let scheme = opts.color_scheme;
    let mut parts = String::new();
    push_status_marker(&mut parts, info.git_state, &scheme);
    parts.push(' ');
    let color = color_of(info, &scheme);
    parts.append(color);
    parts.append(info.icon);
    parts.append(scheme.reset);
    parts.push(' ');
    parts.append(color);
    parts.append(info.name.as_str());
    let ghost before_link = parts@;
    if info.metadata.kind == FileKind::Symlink {
        match &info.link_target {
            Some(target) => {
                parts.append(scheme.reset);
                parts.append(" -> ");
                parts.append(color);
                parts.append(target.as_str());
            },
            None => {},
        }
    }
    assert(parts@ =~= before_link + link_suffix(*info, scheme));
    parts.append(scheme.reset);
    assert(parts@ =~= short_display(*info, *opts));
    parts
}

} // verus!
