//! The colours of a listing.

use vstd::prelude::*;
use crate::layout::is_color_code;

verus! {

/// A palette: one colour code for each kind of entry and for each
/// version-control state, and the code that ends a colour.
#[derive(Clone, Copy, Debug)]
pub struct ColorScheme {
    pub reset: &'static str,
    pub dir: &'static str,
    pub symlink: &'static str,
    pub executable: &'static str,
    pub file: &'static str,
    pub pipe: &'static str,
    pub socket: &'static str,
    pub block_device: &'static str,
    pub char_device: &'static str,
    pub broken_symlink: &'static str,
    pub git_new: &'static str,
    pub git_modified: &'static str,
    pub git_deleted: &'static str,
    pub git_renamed: &'static str,
    pub git_untracked: &'static str,
    pub git_ignored: &'static str,
}

impl ColorScheme {
    /// The colours for a dark background.
    pub open spec fn dark_colors() -> ColorScheme {
        ColorScheme {
            reset: "\x1b[0m",
            dir: "\x1b[34m",
            symlink: "\x1b[36m",
            executable: "\x1b[32m",
            file: "\x1b[37m",
            pipe: "\x1b[33m",
            socket: "\x1b[35m",
            block_device: "\x1b[34m",
            char_device: "\x1b[33m",
            broken_symlink: "\x1b[31m",
            git_new: "\x1b[32m",
            git_modified: "\x1b[34m",
            git_deleted: "\x1b[31m",
            git_renamed: "\x1b[33m",
            git_untracked: "\x1b[90m",
            git_ignored: "\x1b[90m",
        }
    }

    /// The colours for a light background: the bright variants, and black for
    /// plain files.
    pub open spec fn light_colors() -> ColorScheme {
        ColorScheme {
            reset: "\x1b[0m",
            dir: "\x1b[94m",
            symlink: "\x1b[96m",
            executable: "\x1b[92m",
            file: "\x1b[30m",
            pipe: "\x1b[93m",
            socket: "\x1b[95m",
            block_device: "\x1b[94m",
            char_device: "\x1b[93m",
            broken_symlink: "\x1b[91m",
            git_new: "\x1b[92m",
            git_modified: "\x1b[94m",
            git_deleted: "\x1b[91m",
            git_renamed: "\x1b[93m",
            git_untracked: "\x1b[90m",
            git_ignored: "\x1b[90m",
        }
    }

    /// Whether each colour of the palette is a colour code, which takes no
    /// room on the terminal.
    pub open spec fn well_formed(self) -> bool {
        &&& is_color_code(self.reset@)
        &&& is_color_code(self.dir@)
        &&& is_color_code(self.symlink@)
        &&& is_color_code(self.executable@)
        &&& is_color_code(self.file@)
        &&& is_color_code(self.pipe@)
        &&& is_color_code(self.socket@)
        &&& is_color_code(self.block_device@)
        &&& is_color_code(self.char_device@)
        &&& is_color_code(self.broken_symlink@)
        &&& is_color_code(self.git_new@)
        &&& is_color_code(self.git_modified@)
        &&& is_color_code(self.git_deleted@)
        &&& is_color_code(self.git_renamed@)
        &&& is_color_code(self.git_untracked@)
        &&& is_color_code(self.git_ignored@)
    }

    /// Both palettes are made of colour codes.
    pub proof fn lemma_palettes_well_formed()
        ensures
            Self::dark_colors().well_formed(),
            Self::light_colors().well_formed(),
    {
        reveal_strlit("\x1b[0m");
        reveal_strlit("\x1b[30m");
        reveal_strlit("\x1b[31m");
        reveal_strlit("\x1b[32m");
        reveal_strlit("\x1b[33m");
        reveal_strlit("\x1b[34m");
        reveal_strlit("\x1b[35m");
        reveal_strlit("\x1b[36m");
        reveal_strlit("\x1b[37m");
        reveal_strlit("\x1b[90m");
        reveal_strlit("\x1b[91m");
        reveal_strlit("\x1b[92m");
        reveal_strlit("\x1b[93m");
        reveal_strlit("\x1b[94m");
        reveal_strlit("\x1b[95m");
        reveal_strlit("\x1b[96m");
    }

    /// The palette for a dark background.
    pub fn dark() -> (scheme: Self)
        ensures
            scheme == Self::dark_colors(),
    {
        ColorScheme {
            reset: "\x1b[0m",
            dir: "\x1b[34m",
            symlink: "\x1b[36m",
            executable: "\x1b[32m",
            file: "\x1b[37m",
            pipe: "\x1b[33m",
            socket: "\x1b[35m",
            block_device: "\x1b[34m",
            char_device: "\x1b[33m",
            broken_symlink: "\x1b[31m",
            git_new: "\x1b[32m",
            git_modified: "\x1b[34m",
            git_deleted: "\x1b[31m",
            git_renamed: "\x1b[33m",
            git_untracked: "\x1b[90m",
            git_ignored: "\x1b[90m",
        }
    }

    /// The palette for a light background.
    pub fn light() -> (scheme: Self)
        ensures
            scheme == Self::light_colors(),
    {
        ColorScheme {
            reset: "\x1b[0m",
            dir: "\x1b[94m",
            symlink: "\x1b[96m",
            executable: "\x1b[92m",
            file: "\x1b[30m",
            pipe: "\x1b[93m",
            socket: "\x1b[95m",
            block_device: "\x1b[94m",
            char_device: "\x1b[93m",
            broken_symlink: "\x1b[91m",
            git_new: "\x1b[92m",
            git_modified: "\x1b[94m",
            git_deleted: "\x1b[91m",
            git_renamed: "\x1b[93m",
            git_untracked: "\x1b[90m",
            git_ignored: "\x1b[90m",
        }
    }
}

} // verus!
