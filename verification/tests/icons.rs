use rdir::entry::FileKind;
use rdir::symbols::get_file_icon;
use rdir::symbols::icon_for_extension;
use rdir::symbols::lower_extension;

#[test]
fn fixed_glyphs_for_types() {
    assert_eq!(get_file_icon(FileKind::Directory, "src.rs"), rdir::symbols::DIRECTORY);
    assert_eq!(get_file_icon(FileKind::Symlink, "a.py"), rdir::symbols::SYMLINK);
    assert_eq!(get_file_icon(FileKind::Pipe, "p"), rdir::symbols::PIPE);
    assert_eq!(get_file_icon(FileKind::Socket, "s"), rdir::symbols::SOCKET);
    assert_eq!(get_file_icon(FileKind::BlockDevice, "sda"), rdir::symbols::BLOCK_DEVICE);
    assert_eq!(get_file_icon(FileKind::CharDevice, "tty"), rdir::symbols::CHAR_DEVICE);
}

#[test]
fn regular_files_by_extension() {
    assert_eq!(get_file_icon(FileKind::Regular, "main.rs"), "🦀");
    assert_eq!(get_file_icon(FileKind::Regular, "a.rb"), rdir::symbols::RUBY);
    assert_eq!(get_file_icon(FileKind::Regular, "a.py"), rdir::symbols::PYTHON);
    assert_eq!(get_file_icon(FileKind::Regular, "a.ts"), rdir::symbols::JAVASCRIPT);
    assert_eq!(get_file_icon(FileKind::Regular, "a.go"), rdir::symbols::GO);
    assert_eq!(get_file_icon(FileKind::Regular, "a.bash"), rdir::symbols::SHELL);
    assert_eq!(get_file_icon(FileKind::Regular, "a.java"), rdir::symbols::JAVA);
    assert_eq!(get_file_icon(FileKind::Regular, "README.md"), rdir::symbols::MARKDOWN);
    assert_eq!(get_file_icon(FileKind::Regular, "a.json"), rdir::symbols::JSON);
    assert_eq!(get_file_icon(FileKind::Regular, "Cargo.toml"), rdir::symbols::CONFIG);
    assert_eq!(get_file_icon(FileKind::Regular, "a.htm"), rdir::symbols::HTML);
    assert_eq!(get_file_icon(FileKind::Regular, "a.css"), rdir::symbols::CSS);
    assert_eq!(get_file_icon(FileKind::Regular, "a.tar.gz"), rdir::symbols::ARCHIVE);
    assert_eq!(get_file_icon(FileKind::Regular, "a.7z"), rdir::symbols::ARCHIVE);
    assert_eq!(get_file_icon(FileKind::Regular, "a.webp"), rdir::symbols::IMAGE);
    assert_eq!(get_file_icon(FileKind::Regular, "a.flac"), rdir::symbols::AUDIO);
    assert_eq!(get_file_icon(FileKind::Regular, "a.mkv"), rdir::symbols::VIDEO);
    assert_eq!(get_file_icon(FileKind::Regular, "a.pptx"), rdir::symbols::PRESENTATION);
    assert_eq!(get_file_icon(FileKind::Regular, "a.csv"), rdir::symbols::SPREADSHEET);
    assert_eq!(get_file_icon(FileKind::Regular, "a.sqlite"), rdir::symbols::DATABASE);
    assert_eq!(get_file_icon(FileKind::Regular, "a.log"), rdir::symbols::LOG);
    assert_eq!(get_file_icon(FileKind::Regular, "Cargo.lock"), rdir::symbols::LOCK);
}

#[test]
fn extension_case_does_not_matter() {
    assert_eq!(get_file_icon(FileKind::Regular, "MAIN.RS"), rdir::symbols::RUST);
    assert_eq!(get_file_icon(FileKind::Regular, "photo.JpEg"), rdir::symbols::IMAGE);
}

#[test]
fn unknown_or_absent_extension_is_generic() {
    assert_eq!(get_file_icon(FileKind::Regular, "Makefile"), rdir::symbols::GENERIC_FILE);
    assert_eq!(get_file_icon(FileKind::Regular, "a.xyz"), rdir::symbols::GENERIC_FILE);
    assert_eq!(get_file_icon(FileKind::Regular, ".rs"), rdir::symbols::GENERIC_FILE);
    assert_eq!(get_file_icon(FileKind::Regular, "a."), rdir::symbols::GENERIC_FILE);
    assert_eq!(get_file_icon(FileKind::Regular, ""), rdir::symbols::GENERIC_FILE);
    assert_eq!(get_file_icon(FileKind::Regular, "a.rs "), rdir::symbols::GENERIC_FILE);
}

#[test]
fn extension_agrees_with_the_standard_library() {
    let names = [
        "", ".", "..", "...", "a", ".a", "a.", "a.b", ".a.b", "a..b", "a.b.c", "..a", "a.B", "É.TXT",
        "x.é", ".bashrc", "archive.tar.GZ", "a.b.", "ab", ". ", " .x",
    ];
    for name in names {
        let ours = lower_extension(name);
        let std = std::path::Path::new(name)
            .extension()
            .and_then(|s| s.to_str())
            .map(|s| s.to_ascii_lowercase().into_bytes());
        assert_eq!(ours, std, "name {:?}", name);
    }
}

#[test]
fn glyph_of_an_extension_in_small_letters() {
    assert_eq!(icon_for_extension(b"rs"), "🦀");
    assert_eq!(icon_for_extension(b"tgz"), "📦");
    assert_eq!(icon_for_extension(b"sqlite"), "🗄");
    assert_eq!(icon_for_extension(b"lock"), "🔒");
    assert_eq!(icon_for_extension(b""), "📄");
    assert_eq!(icon_for_extension(b"RS"), "📄");
    assert_eq!(icon_for_extension(b"rss"), "📄");
}
