//! From what a directory read found to the entries of a listing: which
//! entries are shown, what is counted, and what each entry carries.

use vstd::prelude::*;
use vstd::utf8::encode_utf8;
use crate::entry::EntryInfo;
use crate::entry::FileKind;
use crate::entry::RawEntry;
use crate::options::Options;
use crate::symbols::get_file_icon;
use crate::symbols::icon_of;
use crate::symbols::DOT;
use crate::vcs::path_key;
use crate::vcs::state_in;
use crate::vcs::GitState;
use crate::vcs::StatusMap;

verus! {

/// How many entries of each type a listing has met.
#[derive(Clone, Copy, Debug, PartialEq, Eq, Structural)]
pub struct Counts {
    pub dirs: usize,
    pub files: usize,
    pub symlinks: usize,
    pub pipes: usize,
    pub sockets: usize,
    pub block_devices: usize,
    pub char_devices: usize,
    pub broken_symlinks: usize,
}

impl Counts {
    /// The number of entries counted.
    pub open spec fn total(&self) -> int {
        self.dirs + self.files + self.symlinks + self.pipes + self.sockets + self.block_devices
            + self.char_devices + self.broken_symlinks
    }

    /// The counts with one more entry of the given type. A symbolic link
    /// that leads nowhere counts as broken.
    pub open spec fn with(self, kind: FileKind, target_exists: bool) -> Counts {
        match kind {
            FileKind::Directory => Counts { dirs: (self.dirs + 1) as usize, ..self },
            FileKind::Symlink => if target_exists {
                Counts { symlinks: (self.symlinks + 1) as usize, ..self }
            } else {
                Counts { broken_symlinks: (self.broken_symlinks + 1) as usize, ..self }
            },
            FileKind::Pipe => Counts { pipes: (self.pipes + 1) as usize, ..self },
            FileKind::Socket => Counts { sockets: (self.sockets + 1) as usize, ..self },
            FileKind::BlockDevice => Counts {
                block_devices: (self.block_devices + 1) as usize,
                ..self
            },
            FileKind::CharDevice => Counts {
                char_devices: (self.char_devices + 1) as usize,
                ..self
            },
            FileKind::Regular => Counts { files: (self.files + 1) as usize, ..self },
        }
    }

    /// Counts with nothing counted.
    pub fn new() -> (counts: Self)
        ensures
            counts.total() == 0,
            counts == (Counts {
                dirs: 0,
                files: 0,
                symlinks: 0,
                pipes: 0,
                sockets: 0,
                block_devices: 0,
                char_devices: 0,
                broken_symlinks: 0,
            }),
    {
        Counts {
            dirs: 0,
            files: 0,
            symlinks: 0,
            pipes: 0,
            sockets: 0,
            block_devices: 0,
            char_devices: 0,
            broken_symlinks: 0,
        }
    }

    /// Whether `more` further entries can be counted.
    pub fn has_room(&self, more: usize) -> (yes: bool)
        ensures
            yes == (self.total() + more <= usize::MAX),
    {
        let mut sum: u128 = more as u128;
        sum = sum + self.dirs as u128;
        sum = sum + self.files as u128;
        sum = sum + self.symlinks as u128;
        sum = sum + self.pipes as u128;
        sum = sum + self.sockets as u128;
        sum = sum + self.block_devices as u128;
        sum = sum + self.char_devices as u128;
        sum = sum + self.broken_symlinks as u128;
        sum <= usize::MAX as u128
    }

    /// Counts one entry of the given type.
    pub fn count(&mut self, kind: FileKind, target_exists: bool)
        requires
            old(self).total() < usize::MAX,
        ensures
            *final(self) == old(self).with(kind, target_exists),
            final(self).total() == old(self).total() + 1,
    {
        match kind {
            FileKind::Directory => {
                self.dirs += 1;
            },
            FileKind::Symlink => {
                if target_exists {
                    self.symlinks += 1;
                } else {
                    self.broken_symlinks += 1;
                }
            },
            FileKind::Pipe => {
                self.pipes += 1;
            },
            FileKind::Socket => {
                self.sockets += 1;
            },
            FileKind::BlockDevice => {
                self.block_devices += 1;
            },
            FileKind::CharDevice => {
                self.char_devices += 1;
            },
            FileKind::Regular => {
                self.files += 1;
            },
        }
    }
}

/// Whether a name marks a hidden entry: it starts with a dot.
pub open spec fn is_hidden(name: Seq<u8>) -> bool {
    name.len() > 0 && name[0] == DOT
}

/// Whether a listing sees an entry at all: hidden entries only where all
/// are asked for, and none whose metadata could not be read.
pub open spec fn is_seen(raw: RawEntry, opts: Options) -> bool {
    (opts.all || !is_hidden(encode_utf8(raw.name@))) && raw.metadata is Some
}

/// Whether a listing shows an entry: it sees it, and the entry's type is
/// not filtered out. With directories only, nothing but directories is
/// shown; with files only, no directory; with both, nothing.
pub open spec fn is_listed(raw: RawEntry, opts: Options) -> bool {
    &&& is_seen(raw, opts)
    &&& !(opts.dirs_only && !raw.metadata->0.is_dir())
    &&& !(opts.files_only && raw.metadata->0.is_dir())
}

/// The entries that a listing shows, in the order in which they were
/// found.
pub open spec fn listed(raws: Seq<RawEntry>, opts: Options) -> Seq<RawEntry>
    decreases raws.len(),
{
    if raws.len() == 0 {
        Seq::empty()
    } else if is_listed(raws.last(), opts) {
        listed(raws.drop_last(), opts).push(raws.last())
    } else {
        listed(raws.drop_last(), opts)
    }
}

/// The counts after a listing has met the entries: every entry that it
/// sees is counted once, whether or not it is shown.
pub open spec fn counted(counts: Counts, raws: Seq<RawEntry>, opts: Options) -> Counts
    decreases raws.len(),
{
    if raws.len() == 0 {
        counts
    } else if is_seen(raws.last(), opts) {
        counted(counts, raws.drop_last(), opts).with(
            raws.last().metadata->0.kind,
            raws.last().target_exists,
        )
    } else {
        counted(counts, raws.drop_last(), opts)
    }
}

/// The entry that a listing makes of what was found: it keeps name, path,
/// metadata and link, and adds the glyph for its type and name and the
/// state that `status` has for its path.
pub open spec fn entry_of(raw: RawEntry, status: Map<Seq<u8>, GitState>) -> EntryInfo {
    EntryInfo {
        name: raw.name,
        rel_path: raw.rel_path,
        metadata: raw.metadata->0,
        icon: icon_of(raw.metadata->0.kind, encode_utf8(raw.name@)),
        git_state: state_in(status, path_key(encode_utf8(raw.rel_path@))),
        link_target: raw.link_target,
        target_exists: raw.target_exists,
    }
}

/// The entries that a listing makes of what was found, one for one.
pub open spec fn entries_of(raws: Seq<RawEntry>, status: Map<Seq<u8>, GitState>) -> Seq<EntryInfo> {
    Seq::new(raws.len(), |i: int| entry_of(raws[i], status))
}

/// Whether a name starts with a dot.
pub fn starts_with_dot(name: &str) -> (yes: bool)
    ensures
        yes == is_hidden(encode_utf8(name@)),
{
    let bytes = name.as_bytes();
    bytes.len() > 0 && bytes[0] == DOT
}

/// The number of entries that a listing sees.
pub open spec fn seen(raws: Seq<RawEntry>, opts: Options) -> nat
    decreases raws.len(),
{
    if raws.len() == 0 {
        0
    } else if is_seen(raws.last(), opts) {
        seen(raws.drop_last(), opts) + 1
    } else {
        seen(raws.drop_last(), opts)
    }
}

/// Each entry that a listing sees is counted once, whether or not the
/// listing shows it: the total grows by the number of entries seen.
pub proof fn lemma_counted_once(counts: Counts, raws: Seq<RawEntry>, opts: Options)
    requires
        counts.total() + raws.len() <= usize::MAX,
    ensures
        counted(counts, raws, opts).total() == counts.total() + seen(raws, opts),
        seen(raws, opts) <= raws.len(),
    decreases raws.len(),
{
    if raws.len() > 0 {
        lemma_counted_once(counts, raws.drop_last(), opts);
    }
}

/// What a listing shows it has seen; and with neither directories only nor
/// files only asked for, it shows all that it sees.
pub proof fn lemma_listed_is_seen(raws: Seq<RawEntry>, opts: Options)
    ensures
        listed(raws, opts).len() <= seen(raws, opts),
        !opts.dirs_only && !opts.files_only ==> listed(raws, opts).len() == seen(raws, opts),
        forall|i: int|
            0 <= i < listed(raws, opts).len() ==> is_listed(#[trigger] listed(raws, opts)[i], opts),
    decreases raws.len(),
{
    if raws.len() > 0 {
        lemma_listed_is_seen(raws.drop_last(), opts);
    }
}

/// Takes in what a directory read found: counts every entry that the
/// listing sees, and returns the entries that it shows, each with its glyph
/// and its version-control state, in the order in which they were found.
pub fn collect_entries(
    raws: Vec<RawEntry>,
    opts: &Options,
    status: &StatusMap,
    counts: &mut Counts,
) -> (entries: Vec<EntryInfo>)
    requires
        old(counts).total() + raws.len() <= usize::MAX,
    ensures
        *final(counts) == counted(*old(counts), raws@, *opts),
        entries@ == entries_of(listed(raws@, *opts), status@),
{
    let ghost input = raws@;
    let ghost start = *counts;
    let mut entries: Vec<EntryInfo> = Vec::new();
    assert(input.take(0) =~= Seq::<RawEntry>::empty());
    for raw in it: raws
        invariant
            it.seq() == input,
            start.total() + input.len() <= usize::MAX,
            *counts == counted(start, input.take(it.index() as int), *opts),
            entries@ == entries_of(listed(input.take(it.index() as int), *opts), status@),
    {
        let ghost done = input.take(it.index() as int);
        let ghost next = input.take(it.index() + 1);
        proof {
            assert(next.drop_last() =~= done);
            assert(next.last() == raw);
            lemma_counted_once(start, done, *opts);
        }
        let ghost shown = entries@;
        if opts.all || !starts_with_dot(raw.name.as_str()) {
            match raw.metadata {
                Some(metadata) => {
                    counts.count(metadata.kind, raw.target_exists);
                    let is_dir = metadata.kind == FileKind::Directory;
                    if !(opts.dirs_only && !is_dir) && !(opts.files_only && is_dir) {
                        let icon = get_file_icon(metadata.kind, raw.name.as_str());
                        let git_state = status.get(raw.rel_path.as_str());
                        entries.push(
                            EntryInfo {
                                name: raw.name,
                                rel_path: raw.rel_path,
                                metadata,
                                icon,
                                git_state,
                                link_target: raw.link_target,
                                target_exists: raw.target_exists,
                            },
                        );
                        proof {
                            assert(is_listed(raw, *opts));
                            assert(listed(next, *opts).drop_last() =~= listed(done, *opts));
                            assert(entries@ =~= entries_of(listed(next, *opts), status@));
                        }
                    }
                },
                None => {},
            }
        }
    }
    assert(input.take(input.len() as int) =~= input);
    entries
}

} // verus!
