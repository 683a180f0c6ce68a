//! The glyph shown in front of an entry's name.

use vstd::prelude::*;
use vstd::utf8::encode_utf8;
use crate::entry::FileKind;
use crate::text::is_word;
use crate::text::named;

verus! {

/// A directory.
pub const DIRECTORY: &'static str = "📁";
/// A symbolic link.
pub const SYMLINK: &'static str = "🔗";
/// A named pipe.
pub const PIPE: &'static str = "│";
/// A socket.
pub const SOCKET: &'static str = "🔌";
/// A block device.
pub const BLOCK_DEVICE: &'static str = "⬛";
/// A character device.
pub const CHAR_DEVICE: &'static str = "📟";
/// A file of no known kind.
pub const GENERIC_FILE: &'static str = "📄";

// Glyphs by the kind of content, as the extension tells it.
pub const RUST: &'static str = "🦀";
pub const RUBY: &'static str = "💎";
pub const PYTHON: &'static str = "🐍";
pub const JAVASCRIPT: &'static str = "📜";
pub const GO: &'static str = "🐹";
pub const SHELL: &'static str = "🐚";
pub const C_CPP: &'static str = "📄";
pub const JAVA: &'static str = "☕";
pub const MARKDOWN: &'static str = "📘";
pub const TEXT: &'static str = "📄";
pub const JSON: &'static str = "🗂";
pub const CONFIG: &'static str = "🧾";
pub const HTML: &'static str = "🌐";
pub const CSS: &'static str = "🎨";
pub const ARCHIVE: &'static str = "📦";
pub const IMAGE: &'static str = "🖼";
pub const AUDIO: &'static str = "🎵";
pub const VIDEO: &'static str = "🎬";
pub const PDF: &'static str = "📄";
pub const DOCUMENT: &'static str = "📄";
pub const PRESENTATION: &'static str = "📊";
pub const SPREADSHEET: &'static str = "📊";
pub const DATABASE: &'static str = "🗄";
pub const LOG: &'static str = "📜";
pub const LOCK: &'static str = "🔒";

/// The byte `.`.
pub const DOT: u8 = 0x2e;

/// The place of the last dot in `name`, or -1 where it has none.
pub open spec fn last_dot(name: Seq<u8>) -> int
    decreases name.len(),
{
    if name.len() == 0 {
        -1
    } else if name.last() == DOT {
        name.len() - 1
    } else {
        last_dot(name.drop_last())
    }
}

/// The extension of a file name: what follows its last dot. A name without
/// a dot has none, nor has a name whose only dot is its first byte, nor the
/// name `..`.
pub open spec fn extension(name: Seq<u8>) -> Option<Seq<u8>> {
    let dot = last_dot(name);
    if dot <= 0 || (name.len() == 2 && name[0] == DOT) {
        None
    } else {
        Some(name.skip(dot + 1))
    }
}

/// An ASCII capital as its small letter, any other byte as it is.
pub open spec fn ascii_lower(b: u8) -> u8 {
    if 0x41 <= b <= 0x5a {
        (b + 0x20) as u8
    } else {
        b
    }
}

/// The bytes with each ASCII capital made small.
pub open spec fn lower_bytes(bytes: Seq<u8>) -> Seq<u8> {
    Seq::new(bytes.len(), |i: int| ascii_lower(bytes[i]))
}

/// The glyph for a regular file with the extension `lower`, given in small
/// letters.
pub open spec fn extension_icon(lower: Seq<u8>) -> &'static str {
    if named(lower, "rs") {
        RUST
    } else if named(lower, "rb") {
        RUBY
    } else if named(lower, "py") {
        PYTHON
    } else if named(lower, "js") || named(lower, "ts") {
        JAVASCRIPT
    } else if named(lower, "go") {
        GO
    } else if named(lower, "sh") || named(lower, "zsh") || named(lower, "bash") {
        SHELL
    } else if named(lower, "c") || named(lower, "h") || named(lower, "cpp")
        || named(lower, "hpp") || named(lower, "cc") || named(lower, "cxx") {
        C_CPP
    } else if named(lower, "java") {
        JAVA
    } else if named(lower, "md") || named(lower, "markdown") {
        MARKDOWN
    } else if named(lower, "txt") || named(lower, "text") {
        TEXT
    } else if named(lower, "json") {
        JSON
    } else if named(lower, "toml") || named(lower, "yaml") || named(lower, "yml") {
        CONFIG
    } else if named(lower, "html") || named(lower, "htm") {
        HTML
    } else if named(lower, "css") {
        CSS
    } else if named(lower, "zip") || named(lower, "tar") || named(lower, "gz")
        || named(lower, "tgz") || named(lower, "bz2") || named(lower, "xz")
        || named(lower, "7z") || named(lower, "rar") {
        ARCHIVE
    } else if named(lower, "png") || named(lower, "jpg") || named(lower, "jpeg")
        || named(lower, "gif") || named(lower, "bmp") || named(lower, "svg")
        || named(lower, "webp") {
        IMAGE
    } else if named(lower, "mp3") || named(lower, "flac") || named(lower, "ogg")
        || named(lower, "wav") || named(lower, "aac") {
        AUDIO
    } else if named(lower, "mp4") || named(lower, "mkv") || named(lower, "avi")
        || named(lower, "mov") || named(lower, "wmv") || named(lower, "flv") {
        VIDEO
    } else if named(lower, "pdf") {
        PDF
    } else if named(lower, "doc") || named(lower, "docx") || named(lower, "odt")
        || named(lower, "rtf") {
        DOCUMENT
    } else if named(lower, "ppt") || named(lower, "pptx") || named(lower, "odp") {
        PRESENTATION
    } else if named(lower, "xls") || named(lower, "xlsx") || named(lower, "ods")
        || named(lower, "csv") {
        SPREADSHEET
    } else if named(lower, "sql") || named(lower, "db") || named(lower, "sqlite") {
        DATABASE
    } else if named(lower, "log") {
        LOG
    } else if named(lower, "lock") {
        LOCK
    } else {
        GENERIC_FILE
    }
}

/// The glyph for an entry: by its type, and for a regular file by the
/// extension of its name, whatever the case of its letters.
pub open spec fn icon_of(kind: FileKind, name: Seq<u8>) -> &'static str {
    match kind {
        FileKind::Directory => DIRECTORY,
        FileKind::Symlink => SYMLINK,
        FileKind::Pipe => PIPE,
        FileKind::Socket => SOCKET,
        FileKind::BlockDevice => BLOCK_DEVICE,
        FileKind::CharDevice => CHAR_DEVICE,
        FileKind::Regular => match extension(name) {
            Some(ext) => extension_icon(lower_bytes(ext)),
            None => GENERIC_FILE,
        },
    }
}

/// The extension of `name` in small letters, where it has one.
pub fn lower_extension(name: &str) -> (ext: Option<Vec<u8>>)
    ensures
        match ext {
            Some(lower) => extension(encode_utf8(name@)) matches Some(e) && lower@ == lower_bytes(
                e,
            ),
            None => extension(encode_utf8(name@)) is None,
        },
{
    let bytes = name.as_bytes();
    let n = bytes.len();
    let mut i: usize = n;
    assert(bytes@.take(n as int) =~= bytes@);
    while i > 0 && bytes[i - 1] != DOT
        invariant
            i <= n,
            n == bytes.len(),
            last_dot(bytes@) == last_dot(bytes@.take(i as int)),
        decreases i,
    {
        assert(bytes@.take(i as int).drop_last() =~= bytes@.take(i - 1));
        i -= 1;
    }
    assert(last_dot(bytes@) == i - 1) by {
        if i > 0 {
            assert(bytes@.take(i as int).last() == bytes[i - 1]);
        }
    }
    if i <= 1 || (n == 2 && bytes[0] == DOT) {
        return None;
    }
    let mut lower: Vec<u8> = Vec::new();
    let mut k: usize = i;
    while k < n
        invariant
            i <= k <= n,
            n == bytes.len(),
            lower.len() == k - i,
            forall|j: int| 0 <= j < k - i ==> lower[j] == ascii_lower(bytes[i + j]),
        decreases n - k,
    {
        let b = bytes[k];
        if b >= 0x41 && b <= 0x5a {
            lower.push(b + 0x20);
        } else {
            lower.push(b);
        }
        k += 1;
    }
    assert(lower@ =~= lower_bytes(bytes@.skip(i as int)));
    Some(lower)
}

/// The glyph for a regular file with the extension `lower`, given in small
/// letters.
pub fn icon_for_extension(lower: &[u8]) -> (icon: &'static str)
    ensures
        icon == extension_icon(lower@),
{
    if is_word(lower, "rs") {
        RUST
    } else if is_word(lower, "rb") {
        RUBY
    } else if is_word(lower, "py") {
        PYTHON
    } else if is_word(lower, "js") || is_word(lower, "ts") {
        JAVASCRIPT
    } else if is_word(lower, "go") {
        GO
    } else if is_word(lower, "sh") || is_word(lower, "zsh") || is_word(lower, "bash") {
        SHELL
    } else if is_word(lower, "c") || is_word(lower, "h") || is_word(lower, "cpp")
        || is_word(lower, "hpp") || is_word(lower, "cc") || is_word(lower, "cxx") {
        C_CPP
    } else if is_word(lower, "java") {
        JAVA
    } else if is_word(lower, "md") || is_word(lower, "markdown") {
        MARKDOWN
    } else if is_word(lower, "txt") || is_word(lower, "text") {
        TEXT
    } else if is_word(lower, "json") {
        JSON
    } else if is_word(lower, "toml") || is_word(lower, "yaml") || is_word(lower, "yml") {
        CONFIG
    } else if is_word(lower, "html") || is_word(lower, "htm") {
        HTML
    } else if is_word(lower, "css") {
        CSS
    } else if is_word(lower, "zip") || is_word(lower, "tar") || is_word(lower, "gz")
        || is_word(lower, "tgz") || is_word(lower, "bz2") || is_word(lower, "xz")
        || is_word(lower, "7z") || is_word(lower, "rar") {
        ARCHIVE
    } else if is_word(lower, "png") || is_word(lower, "jpg") || is_word(lower, "jpeg")
        || is_word(lower, "gif") || is_word(lower, "bmp") || is_word(lower, "svg")
        || is_word(lower, "webp") {
        IMAGE
    } else if is_word(lower, "mp3") || is_word(lower, "flac") || is_word(lower, "ogg")
        || is_word(lower, "wav") || is_word(lower, "aac") {
        AUDIO
    } else if is_word(lower, "mp4") || is_word(lower, "mkv") || is_word(lower, "avi")
        || is_word(lower, "mov") || is_word(lower, "wmv") || is_word(lower, "flv") {
        VIDEO
    } else if is_word(lower, "pdf") {
        PDF
    } else if is_word(lower, "doc") || is_word(lower, "docx") || is_word(lower, "odt")
        || is_word(lower, "rtf") {
        DOCUMENT
    } else if is_word(lower, "ppt") || is_word(lower, "pptx") || is_word(lower, "odp") {
        PRESENTATION
    } else if is_word(lower, "xls") || is_word(lower, "xlsx") || is_word(lower, "ods")
        || is_word(lower, "csv") {
        SPREADSHEET
    } else if is_word(lower, "sql") || is_word(lower, "db") || is_word(lower, "sqlite") {
        DATABASE
    } else if is_word(lower, "log") {
        LOG
    } else if is_word(lower, "lock") {
        LOCK
    } else {
        GENERIC_FILE
    }
}

/// The glyph for an entry of the given type and name.
pub fn get_file_icon(kind: FileKind, name: &str) -> (icon: &'static str)
    ensures
        icon == icon_of(kind, encode_utf8(name@)),
{
    match kind {
        FileKind::Directory => DIRECTORY,
        FileKind::Symlink => SYMLINK,
        FileKind::Pipe => PIPE,
        FileKind::Socket => SOCKET,
        FileKind::BlockDevice => BLOCK_DEVICE,
        FileKind::CharDevice => CHAR_DEVICE,
        FileKind::Regular => match lower_extension(name) {
            Some(lower) => icon_for_extension(lower.as_slice()),
            None => GENERIC_FILE,
        },
    }
}

} // verus!
