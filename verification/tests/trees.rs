use rdir::collect::Counts;
use rdir::entry::EntryInfo;
use rdir::entry::FileKind;
use rdir::entry::Metadata;
use rdir::entry::RawEntry;
use rdir::options::Options;
use rdir::options::UNLIMITED_DEPTH;
use rdir::tree::print_tree;
use rdir::tree::tree_rows;
use rdir::vcs::GitState;
use rdir::vcs::StatusMap;

fn meta(kind: FileKind) -> Metadata {
    Metadata { kind, size: 0, modified: None, mode: Some(0o644), links: 1, uid: 0, gid: 0 }
}

fn entry(name: &str, kind: FileKind) -> EntryInfo {
    EntryInfo {
        name: name.to_string(),
        rel_path: format!("top/{}", name),
        metadata: meta(kind),
        icon: "*",
        git_state: GitState::Clean,
        link_target: None,
        target_exists: false,
    }
}

fn sample() -> Vec<EntryInfo> {
    vec![entry("a", FileKind::Directory), entry("b", FileKind::Regular), entry("c", FileKind::Directory)]
}

#[test]
fn rows_have_branches_and_the_last_a_corner() {
    let rows = tree_rows(&sample(), "│   ", 3, &Options::default());
    assert_eq!(rows.len(), 3);
    assert_eq!(rows[0].line, "│   ├──   \x1b[34m*\x1b[0m \x1b[34ma\x1b[0m");
    assert_eq!(rows[1].line, "│   ├──   \x1b[37m*\x1b[0m \x1b[37mb\x1b[0m");
    assert_eq!(rows[2].line, "│   └──   \x1b[34m*\x1b[0m \x1b[34mc\x1b[0m");
}

#[test]
fn descent_carries_prefix_and_depth() {
    let rows = tree_rows(&sample(), ">", 3, &Options::default());
    let first = rows[0].descend.as_ref().unwrap();
    assert_eq!(first.rel_path, "top/a");
    assert_eq!(first.prefix, ">│   ");
    assert_eq!(first.depth, 2);
    assert!(rows[1].descend.is_none());
    let last = rows[2].descend.as_ref().unwrap();
    assert_eq!(last.rel_path, "top/c");
    assert_eq!(last.prefix, ">    ");
    assert_eq!(last.depth, 2);
}

#[test]
fn depth_one_goes_into_no_directory() {
    let rows = tree_rows(&sample(), "", 1, &Options::default());
    assert_eq!(rows.len(), 3);
    assert!(rows.iter().all(|r| r.descend.is_none()));
}

#[test]
fn depth_two_leaves_one_level() {
    let rows = tree_rows(&sample(), "", 2, &Options::default());
    assert_eq!(rows[0].descend.as_ref().unwrap().depth, 1);
}

#[test]
fn unlimited_depth_stays_unlimited() {
    let rows = tree_rows(&sample(), "", UNLIMITED_DEPTH, &Options::default());
    assert_eq!(rows[0].descend.as_ref().unwrap().depth, UNLIMITED_DEPTH);
    assert_eq!(rows[2].descend.as_ref().unwrap().depth, UNLIMITED_DEPTH);
    assert!(rows[1].descend.is_none());
}

#[test]
fn depth_zero_goes_nowhere() {
    let rows = tree_rows(&sample(), "", 0, &Options::default());
    assert!(rows.iter().all(|r| r.descend.is_none()));
}

#[test]
fn empty_directory_has_no_rows() {
    assert!(tree_rows(&Vec::new(), "", 3, &Options::default()).is_empty());
}

#[test]
fn tree_level_filters_sorts_and_counts() {
    let raws = vec![
        RawEntry { name: "z.py".to_string(), rel_path: "d/z.py".to_string(), metadata: Some(meta(FileKind::Regular)), link_target: None, target_exists: false },
        RawEntry { name: ".x".to_string(), rel_path: "d/.x".to_string(), metadata: Some(meta(FileKind::Regular)), link_target: None, target_exists: false },
        RawEntry { name: "Sub".to_string(), rel_path: "d/Sub".to_string(), metadata: Some(meta(FileKind::Directory)), link_target: None, target_exists: false },
    ];
    let mut counts = Counts::new();
    let rows = print_tree(raws, "    ", 2, &Options::default(), &StatusMap::new(), &mut counts);
    assert_eq!(rows.len(), 2);
    assert_eq!(rows[0].line, "    ├──   \x1b[34m📁\x1b[0m \x1b[34mSub\x1b[0m");
    assert_eq!(rows[0].descend.as_ref().unwrap().rel_path, "d/Sub");
    assert_eq!(rows[0].descend.as_ref().unwrap().prefix, "    │   ");
    assert_eq!(rows[1].line, "    └──   \x1b[37m🐍\x1b[0m \x1b[37mz.py\x1b[0m");
    assert_eq!((counts.dirs, counts.files), (1, 1));
}

#[test]
fn files_only_tree_goes_nowhere() {
    let raws = vec![
        RawEntry { name: "f".to_string(), rel_path: "f".to_string(), metadata: Some(meta(FileKind::Regular)), link_target: None, target_exists: false },
        RawEntry { name: "d".to_string(), rel_path: "d".to_string(), metadata: Some(meta(FileKind::Directory)), link_target: None, target_exists: false },
    ];
    let mut opts = Options::default();
    opts.files_only = true;
    let mut counts = Counts::new();
    let rows = print_tree(raws, "", UNLIMITED_DEPTH, &opts, &StatusMap::new(), &mut counts);
    assert_eq!(rows.len(), 1);
    assert!(rows[0].descend.is_none());
    assert_eq!(counts.dirs, 1);
}
