use rdir::collect::collect_entries;
use rdir::collect::starts_with_dot;
use rdir::collect::Counts;
use rdir::entry::is_executable;
use rdir::entry::FileKind;
use rdir::entry::Metadata;
use rdir::entry::RawEntry;
use rdir::options::Options;
use rdir::report::print_report;
use rdir::vcs::git_statuses;
use rdir::vcs::GitState;
use rdir::vcs::StatusMap;

fn meta(kind: FileKind) -> Metadata {
    Metadata { kind, size: 0, modified: None, mode: Some(0o644), links: 1, uid: 0, gid: 0 }
}

fn raw(name: &str, kind: FileKind) -> RawEntry {
    RawEntry {
        name: name.to_string(),
        rel_path: format!("sub/{}", name),
        metadata: Some(meta(kind)),
        link_target: None,
        target_exists: false,
    }
}

fn sample() -> Vec<RawEntry> {
    let mut link = raw("good", FileKind::Symlink);
    link.target_exists = true;
    link.link_target = Some("a.rs".to_string());
    let mut unreadable = raw("gone", FileKind::Regular);
    unreadable.metadata = None;
    vec![
        raw("a.rs", FileKind::Regular),
        raw(".hidden", FileKind::Regular),
        raw("dir", FileKind::Directory),
        raw(".git", FileKind::Directory),
        link,
        raw("bad", FileKind::Symlink),
        unreadable,
        raw("fifo", FileKind::Pipe),
        raw("sock", FileKind::Socket),
        raw("sda", FileKind::BlockDevice),
        raw("tty", FileKind::CharDevice),
        raw("b.txt", FileKind::Regular),
    ]
}

fn names(entries: &Vec<rdir::entry::EntryInfo>) -> Vec<String> {
    entries.iter().map(|e| e.name.clone()).collect()
}

#[test]
fn hidden_entries_are_left_out() {
    let mut counts = Counts::new();
    let entries = collect_entries(sample(), &Options::default(), &StatusMap::new(), &mut counts);
    assert_eq!(names(&entries), vec!["a.rs", "dir", "good", "bad", "fifo", "sock", "sda", "tty", "b.txt"]);
    assert_eq!(
        counts,
        Counts { dirs: 1, files: 2, symlinks: 1, pipes: 1, sockets: 1, block_devices: 1, char_devices: 1, broken_symlinks: 1 }
    );
}

#[test]
fn all_shows_hidden_entries() {
    let mut opts = Options::default();
    opts.all = true;
    let mut counts = Counts::new();
    let entries = collect_entries(sample(), &opts, &StatusMap::new(), &mut counts);
    assert_eq!(entries.len(), 11);
    assert_eq!(entries[1].name, ".hidden");
    assert_eq!(counts.dirs, 2);
    assert_eq!(counts.files, 3);
}

#[test]
fn directories_only_still_counts_files() {
    let mut opts = Options::default();
    opts.dirs_only = true;
    let mut counts = Counts::new();
    let entries = collect_entries(sample(), &opts, &StatusMap::new(), &mut counts);
    assert_eq!(names(&entries), vec!["dir"]);
    assert_eq!(counts.dirs, 1);
    assert_eq!(counts.files, 2);
    assert_eq!(counts.symlinks, 1);
    assert_eq!(counts.broken_symlinks, 1);
}

#[test]
fn files_only_leaves_directories_out() {
    let mut opts = Options::default();
    opts.files_only = true;
    let mut counts = Counts::new();
    let entries = collect_entries(sample(), &opts, &StatusMap::new(), &mut counts);
    assert_eq!(names(&entries), vec!["a.rs", "good", "bad", "fifo", "sock", "sda", "tty", "b.txt"]);
    assert_eq!(counts.dirs, 1);
}

#[test]
fn both_filters_show_nothing() {
    let mut opts = Options::default();
    opts.files_only = true;
    opts.dirs_only = true;
    let mut counts = Counts::new();
    let entries = collect_entries(sample(), &opts, &StatusMap::new(), &mut counts);
    assert!(entries.is_empty());
    assert_eq!(counts.dirs + counts.files, 3);
}

#[test]
fn counts_add_up_over_calls() {
    let mut counts = Counts::new();
    let opts = Options::default();
    let _ = collect_entries(sample(), &opts, &StatusMap::new(), &mut counts);
    let _ = collect_entries(sample(), &opts, &StatusMap::new(), &mut counts);
    assert_eq!(counts.files, 4);
    assert_eq!(counts.broken_symlinks, 2);
    assert!(counts.has_room(10));
    assert!(!counts.has_room(usize::MAX));
}

#[test]
fn entries_carry_icon_and_state() {
    let status = git_statuses("M  sub/a.rs\n?? sub/dir/\n");
    let mut counts = Counts::new();
    let entries = collect_entries(sample(), &Options::default(), &status, &mut counts);
    assert_eq!(entries[0].icon, rdir::symbols::RUST);
    assert_eq!(entries[0].git_state, GitState::Modified);
    assert_eq!(entries[0].rel_path, "sub/a.rs");
    assert_eq!(entries[1].icon, rdir::symbols::DIRECTORY);
    assert_eq!(entries[1].git_state, GitState::Untracked);
    assert_eq!(entries[2].link_target, Some("a.rs".to_string()));
    assert!(entries[2].target_exists);
    assert_eq!(entries[8].git_state, GitState::Clean);
}

#[test]
fn dot_at_the_start_hides() {
    assert!(starts_with_dot(".a"));
    assert!(starts_with_dot("."));
    assert!(!starts_with_dot("a.b"));
    assert!(!starts_with_dot(""));
}

#[test]
fn executable_by_any_execute_bit() {
    let mut m = meta(FileKind::Regular);
    assert!(!is_executable(&m));
    m.mode = Some(0o100);
    assert!(is_executable(&m));
    m.mode = Some(0o010);
    assert!(is_executable(&m));
    m.mode = Some(0o001);
    assert!(is_executable(&m));
    m.mode = Some(0o666);
    assert!(!is_executable(&m));
    m.mode = None;
    assert!(!is_executable(&m));
}

#[test]
fn report_of_an_empty_directory_is_none() {
    let mut counts = Counts::new();
    let entries = collect_entries(Vec::new(), &Options::default(), &StatusMap::new(), &mut counts);
    assert!(entries.is_empty());
    assert_eq!(print_report(&counts), None);
    assert_eq!(print_report(&Counts::new()), None);
}

#[test]
fn report_names_each_type_met() {
    let mut counts = Counts::new();
    let _ = collect_entries(sample(), &Options::default(), &StatusMap::new(), &mut counts);
    assert_eq!(
        print_report(&counts),
        Some("1 directory, 2 files, 1 symlink, 1 broken symlink, 1 pipe, 1 socket, 1 block device, 1 char device".to_string())
    );
}

#[test]
fn report_uses_plurals() {
    let counts = Counts { dirs: 2, files: 1, symlinks: 3, pipes: 4, sockets: 5, block_devices: 6, char_devices: 7, broken_symlinks: 12 };
    assert_eq!(
        print_report(&counts),
        Some("2 directories, 1 file, 3 symlinks, 12 broken symlinks, 4 pipes, 5 sockets, 6 block devices, 7 char devices".to_string())
    );
    let only = Counts { dirs: 0, files: 0, symlinks: 0, pipes: 0, sockets: 1, block_devices: 0, char_devices: 0, broken_symlinks: 0 };
    assert_eq!(print_report(&only), Some("1 socket".to_string()));
}
