//! Version-control status: the states, and the status report's lines.

use vstd::prelude::*;
use vstd::utf8::encode_utf8;
use crate::text::same_bytes;
use crate::text::span_before;
use crate::text::find_byte;

verus! {

/// What version control says of a path.
#[derive(Debug, Clone, Copy, PartialEq, Eq, Structural)]
pub enum GitState {
    Added,
    Modified,
    Deleted,
    Renamed,
    TypeChanged,
    Untracked,
    Ignored,
    /// Nothing to report: the path is not in the status report, or its
    /// code is no known one.
    Clean,
}

/// The state that a status code stands for. The code has two characters;
/// the first one counts unless it is a space.
pub open spec fn state_of_code(x: char, y: char) -> GitState {
    let c = if x != ' ' {
        x
    } else {
        y
    };
    if c == 'A' || c == 'C' {
        GitState::Added
    } else if c == 'M' {
        GitState::Modified
    } else if c == 'D' {
        GitState::Deleted
    } else if c == 'R' {
        GitState::Renamed
    } else if c == 'T' {
        GitState::TypeChanged
    } else if c == '?' {
        GitState::Untracked
    } else if c == '!' {
        GitState::Ignored
    } else {
        GitState::Clean
    }
}

/// Reads a two-character status code.
pub fn parse_git_state(x: char, y: char) -> (state: GitState)
    ensures
        state == state_of_code(x, y),
{
    let c = if x != ' ' {
        x
    } else {
        y
    };
    match c {
        'A' | 'C' => GitState::Added,
        'M' => GitState::Modified,
        'D' => GitState::Deleted,
        'R' => GitState::Renamed,
        'T' => GitState::TypeChanged,
        '?' => GitState::Untracked,
        '!' => GitState::Ignored,
        _ => GitState::Clean,
    }
}

/// The byte `/`, which parts the components of a path.
pub const SLASH: u8 = 0x2f;

/// The byte that ends a line.
pub const NEWLINE: u8 = 0x0a;

/// The carriage return, which may stand before the end of a line.
pub const CARRIAGE_RETURN: u8 = 0x0d;

/// The byte of a space.
pub const SPACE: u8 = 0x20;

/// The path with each run of slashes made one slash.
pub open spec fn squeeze(path: Seq<u8>) -> Seq<u8>
    decreases path.len(),
{
    if path.len() == 0 {
        Seq::empty()
    } else if path.last() == SLASH && path.len() >= 2 && path[path.len() - 2] == SLASH {
        squeeze(path.drop_last())
    } else {
        squeeze(path.drop_last()).push(path.last())
    }
}

/// The path without a slash at its end, unless the slash is all of it.
pub open spec fn trim_slash(path: Seq<u8>) -> Seq<u8> {
    if path.len() > 1 && path.last() == SLASH {
        path.drop_last()
    } else {
        path
    }
}

/// The form under which a path is kept and looked up: two paths that
/// differ only in repeated slashes or in a slash at the end have the same
/// form, so a directory is found whether or not it is written with a slash
/// behind it.
pub open spec fn path_key(path: Seq<u8>) -> Seq<u8> {
    trim_slash(squeeze(path))
}

/// Whether the rename arrow ` -> ` stands at place `i` of `s`.
pub open spec fn arrow_at(s: Seq<u8>, i: int) -> bool {
    &&& 0 <= i
    &&& i + 4 <= s.len()
    &&& s[i] == SPACE
    &&& s[i + 1] == 0x2d
    &&& s[i + 2] == 0x3e
    &&& s[i + 3] == SPACE
}

/// Whether the first rename arrow of `s` stands at place `i`.
pub open spec fn is_first_arrow(s: Seq<u8>, i: int) -> bool {
    arrow_at(s, i) && forall|j: int| 0 <= j < i ==> !arrow_at(s, j)
}

/// The path that a status line speaks of: what follows the first rename
/// arrow where the line has one, else all that follows the status code.
pub open spec fn effective_path(rest: Seq<u8>) -> Seq<u8> {
    if exists|i: int| is_first_arrow(rest, i) {
        rest.skip((choose|i: int| is_first_arrow(rest, i)) + 4)
    } else {
        rest
    }
}

/// What a status line says: a two-character status code, one more
/// character, and a path. A line of fewer than three bytes says nothing.
pub open spec fn line_entry(line: Seq<u8>) -> Option<(Seq<u8>, GitState)> {
    if line.len() < 3 {
        None
    } else {
        Some(
            (
                path_key(effective_path(line.skip(3))),
                state_of_code(line[0] as char, line[1] as char),
            ),
        )
    }
}

/// The number of bytes before the first line end of `text`, all of them
/// where there is no line end.
pub open spec fn line_len(text: Seq<u8>) -> nat {
    span_before(text, NEWLINE)
}

/// The line without the carriage return at its end, if it has one.
pub open spec fn strip_return(line: Seq<u8>) -> Seq<u8> {
    if line.len() > 0 && line.last() == CARRIAGE_RETURN {
        line.drop_last()
    } else {
        line
    }
}

/// The lines of a text. A line ends with a newline, or with a carriage
/// return and a newline; the last line needs no line end.
pub open spec fn lines_of(text: Seq<u8>) -> Seq<Seq<u8>>
    decreases text.len(),
{
    if text.len() == 0 {
        Seq::empty()
    } else {
        let n = line_len(text);
        if n >= text.len() {
            seq![text]
        } else {
            seq![strip_return(text.take(n as int))] + lines_of(text.skip(n as int + 1))
        }
    }
}

/// The mapping that a sequence of status lines gives: each line sets the
/// state of its path, a later line overriding an earlier one.
pub open spec fn status_of_lines(lines: Seq<Seq<u8>>) -> Map<Seq<u8>, GitState>
    decreases lines.len(),
{
    if lines.len() == 0 {
        Map::empty()
    } else {
        let before = status_of_lines(lines.drop_last());
        match line_entry(lines.last()) {
            Some(entry) => before.insert(entry.0, entry.1),
            None => before,
        }
    }
}

/// The mapping that the text of a status report gives.
pub open spec fn parse_status(text: Seq<u8>) -> Map<Seq<u8>, GitState> {
    status_of_lines(lines_of(text))
}

/// The state of `key` in a mapping: `Clean` where the mapping has no such
/// path.
pub open spec fn state_in(map: Map<Seq<u8>, GitState>, key: Seq<u8>) -> GitState {
    if map.dom().contains(key) {
        map[key]
    } else {
        GitState::Clean
    }
}

/// One path with its state.
pub struct StatusEntry {
    key: Vec<u8>,
    state: GitState,
}

/// The states of the paths below one root, keyed by the path relative to
/// that root.
pub struct StatusMap {
    entries: Vec<StatusEntry>,
}

/// The mapping that a list of entries stands for: a later entry overrides
/// an earlier one with the same key.
pub closed spec fn map_of(entries: Seq<StatusEntry>) -> Map<Seq<u8>, GitState>
    decreases entries.len(),
{
    if entries.len() == 0 {
        Map::empty()
    } else {
        map_of(entries.drop_last()).insert(entries.last().key@, entries.last().state)
    }
}

impl View for StatusMap {
    type V = Map<Seq<u8>, GitState>;

    closed spec fn view(&self) -> Map<Seq<u8>, GitState> {
        map_of(self.entries@)
    }
}

/// The key of the path that stands in `bytes` from `from` up to `to`.
fn key_of(bytes: &[u8], from: usize, to: usize) -> (key: Vec<u8>)
    requires
        from <= to <= bytes.len(),
    ensures
        key@ == path_key(bytes@.subrange(from as int, to as int)),
{
    let ghost path = bytes@.subrange(from as int, to as int);
    let mut key: Vec<u8> = Vec::new();
    let mut k: usize = from;
    assert(path.take(0) =~= Seq::<u8>::empty());
    while k < to
        invariant
            from <= k <= to,
            to <= bytes.len(),
            path == bytes@.subrange(from as int, to as int),
            key@ == squeeze(path.take(k - from)),
        decreases to - k,
    {
        let b = bytes[k];
        let ghost prefix = path.take(k - from + 1);
        assert(prefix.drop_last() =~= path.take(k - from));
        assert(prefix.last() == b);
        if b == SLASH && k > from && bytes[k - 1] == SLASH {
            assert(prefix[prefix.len() - 2] == bytes[k - 1]);
        } else {
            key.push(b);
        }
        k += 1;
    }
    assert(path.take(to - from) =~= path);
    if key.len() > 1 && key[key.len() - 1] == SLASH {
        key.pop();
    }
    assert(key@ =~= path_key(path));
    key
}

impl StatusMap {
    /// A mapping without any path.
    pub fn new() -> (map: Self)
        ensures
            map@ == Map::<Seq<u8>, GitState>::empty(),
    {
        StatusMap { entries: Vec::new() }
    }

    /// Sets the state of the path `path`.
    pub fn insert(&mut self, path: &str, state: GitState)
        ensures
            final(self)@ == old(self)@.insert(path_key(encode_utf8(path@)), state),
    {
        let bytes = path.as_bytes();
        let key = key_of(bytes, 0, bytes.len());
        assert(bytes@.subrange(0, bytes.len() as int) =~= bytes@);
        self.push_key(key, state);
    }

    /// Records `state` for the key `key`, over what stood there before.
    fn push_key(&mut self, key: Vec<u8>, state: GitState)
        ensures
            final(self)@ == old(self)@.insert(key@, state),
    {
        let ghost before = self.entries@;
        self.entries.push(StatusEntry { key, state });
        assert(self.entries@.drop_last() =~= before);
    }

    /// The state of the path `path`: what the mapping holds for it, and
    /// `Clean` where it holds nothing.
    pub fn get(&self, path: &str) -> (state: GitState)
        ensures
            state == state_in(self@, path_key(encode_utf8(path@))),
    {
        let bytes = path.as_bytes();
        let key = key_of(bytes, 0, bytes.len());
        assert(bytes@.subrange(0, bytes.len() as int) =~= bytes@);
        let mut i: usize = self.entries.len();
        assert(self.entries@.take(i as int) =~= self.entries@);
        while i > 0
            invariant
                i <= self.entries.len(),
                key@ == path_key(encode_utf8(path@)),
                state_in(map_of(self.entries@), key@) == state_in(
                    map_of(self.entries@.take(i as int)),
                    key@,
                ),
            decreases i,
        {
            let entry = &self.entries[i - 1];
            let ghost upto = self.entries@.take(i as int);
            assert(upto.drop_last() =~= self.entries@.take(i - 1));
            assert(upto.last() == *entry);
            if same_bytes(entry.key.as_slice(), key.as_slice()) {
                return entry.state;
            }
            i -= 1;
        }
        GitState::Clean
    }

    /// Whether the mapping holds no path.
    pub fn is_empty(&self) -> (empty: bool)
        ensures
            empty == (self@ == Map::<Seq<u8>, GitState>::empty()),
    {
        let ghost entries = self.entries@;
        proof {
            if entries.len() > 0 {
                assert(map_of(entries).dom().contains(entries.last().key@));
            }
        }
        self.entries.len() == 0
    }
}

/// The place of the first rename arrow between `from` and `to`, counted
/// from `from`.
fn find_arrow(bytes: &[u8], from: usize, to: usize) -> (found: Option<usize>)
    requires
        from <= to <= bytes.len(),
    ensures
        match found {
            Some(i) => is_first_arrow(bytes@.subrange(from as int, to as int), i as int),
            None => forall|j: int| !arrow_at(bytes@.subrange(from as int, to as int), j),
        },
{
    let ghost sub = bytes@.subrange(from as int, to as int);
    let mut i: usize = from;
    while to - i >= 4
        invariant
            from <= i <= to,
            to <= bytes.len(),
            sub == bytes@.subrange(from as int, to as int),
            forall|j: int| 0 <= j < i - from ==> !arrow_at(sub, j),
        decreases to - i,
    {
        if bytes[i] == SPACE && bytes[i + 1] == 0x2d && bytes[i + 2] == 0x3e && bytes[i + 3]
            == SPACE {
            assert(arrow_at(sub, i - from));
            return Some(i - from);
        }
        assert(!arrow_at(sub, i - from));
        i += 1;
    }
    None
}

/// Reads the status line that stands in `bytes` from `from` up to `to`
/// into `map`.
fn read_status_line(map: &mut StatusMap, bytes: &[u8], from: usize, to: usize)
    requires
        from <= to <= bytes.len(),
    ensures
        final(map)@ == match line_entry(bytes@.subrange(from as int, to as int)) {
            Some(entry) => old(map)@.insert(entry.0, entry.1),
            None => old(map)@,
        },
{
    if to - from < 3 {
        return ;
    }
    let ghost line = bytes@.subrange(from as int, to as int);
    let x = bytes[from] as char;
    let y = bytes[from + 1] as char;
    let state = parse_git_state(x, y);
    let start = from + 3;
    let ghost rest = line.skip(3);
    assert(rest =~= bytes@.subrange(start as int, to as int));
    let key = match find_arrow(bytes, start, to) {
        Some(i) => {
            proof {
                let chosen = choose|j: int| is_first_arrow(rest, j);
                assert(is_first_arrow(rest, i as int));
                assert(chosen == i);
                assert(rest.skip(i + 4) =~= bytes@.subrange(start + i + 4, to as int));
            }
            key_of(bytes, start + i + 4, to)
        },
        None => key_of(bytes, start, to),
    };
    assert(key@ == path_key(effective_path(rest)));
    assert(line[0] == bytes[from as int] && line[1] == bytes[from + 1]);
    map.push_key(key, state);
}

/// Reads the output of a status query: each line a two-character status
/// code, a space, and a path, or two paths with ` -> ` between them, of
/// which the second counts. The result maps each path to its state.
pub fn git_statuses(stdout: &str) -> (map: StatusMap)
    ensures
        map@ == parse_status(encode_utf8(stdout@)),
{
    let bytes = stdout.as_bytes();
    let n = bytes.len();
    let mut map = StatusMap::new();
    let mut pos: usize = 0;
    let ghost mut done: Seq<Seq<u8>> = Seq::empty();
    assert(bytes@.skip(0) =~= bytes@);
    assert(done + lines_of(bytes@) =~= lines_of(bytes@));
    while pos < n
        invariant
            pos <= n,
            n == bytes.len(),
            bytes@ == encode_utf8(stdout@),
            map@ == status_of_lines(done),
            done + lines_of(bytes@.skip(pos as int)) == lines_of(bytes@),
        decreases n - pos,
    {
        let ghost rest = bytes@.skip(pos as int);
        let end = find_byte(bytes, pos, NEWLINE);
        if end >= n {
            proof {
                assert(rest =~= bytes@.subrange(pos as int, n as int));
                assert(lines_of(rest) =~= seq![rest]);
                assert(bytes@.skip(n as int) =~= Seq::<u8>::empty());
                assert(done.push(rest) + lines_of(bytes@.skip(n as int)) =~= done + lines_of(rest));
                assert(done.push(rest).drop_last() =~= done);
            }
            read_status_line(&mut map, bytes, pos, n);
            proof {
                done = done.push(rest);
            }
            pos = n;
        } else {
            let line_to = if end > pos && bytes[end - 1] == CARRIAGE_RETURN {
                end - 1
            } else {
                end
            };
            proof {
                let raw = rest.take(end - pos);
                assert(raw =~= bytes@.subrange(pos as int, end as int));
                if end > pos {
                    assert(raw.last() == bytes[end - 1]);
                }
                let line = strip_return(raw);
                assert(line =~= bytes@.subrange(pos as int, line_to as int));
                assert(rest.skip(end - pos + 1) =~= bytes@.skip(end + 1));
                assert(lines_of(rest) =~= seq![line] + lines_of(bytes@.skip(end + 1)));
                assert(done.push(line) + lines_of(bytes@.skip(end + 1)) =~= done + lines_of(rest));
                assert(done.push(line).drop_last() =~= done);
            }
            read_status_line(&mut map, bytes, pos, line_to);
            proof {
                done = done.push(bytes@.subrange(pos as int, line_to as int));
            }
            pos = end + 1;
        }
    }
    proof {
        assert(bytes@.skip(n as int) =~= Seq::<u8>::empty());
        assert(done + lines_of(bytes@.skip(n as int)) =~= done);
    }
    map
}

} // verus!
