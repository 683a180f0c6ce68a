use rdir::vcs::git_statuses;
use rdir::vcs::parse_git_state;
use rdir::vcs::GitState;
use rdir::vcs::StatusMap;

#[test]
fn untracked_line_marks_its_path() {
    let map = git_statuses("?? newfile.txt");
    assert_eq!(map.get("newfile.txt"), GitState::Untracked);
}

#[test]
fn rename_is_keyed_at_the_new_path() {
    let map = git_statuses("R  old.txt -> new.txt");
    assert_eq!(map.get("new.txt"), GitState::Renamed);
    assert_eq!(map.get("old.txt"), GitState::Clean);
}

#[test]
fn absent_path_is_clean() {
    let map = git_statuses(" M a.txt\n");
    assert_eq!(map.get("b.txt"), GitState::Clean);
    assert_eq!(map.get(""), GitState::Clean);
}

#[test]
fn empty_report_gives_an_empty_map() {
    assert!(git_statuses("").is_empty());
    assert!(git_statuses("\n\n").is_empty());
    assert!(git_statuses("ab\nM\n").is_empty());
    assert!(!git_statuses("M  x").is_empty());
}

#[test]
fn status_codes_map_to_states() {
    assert_eq!(parse_git_state('A', ' '), GitState::Added);
    assert_eq!(parse_git_state('C', ' '), GitState::Added);
    assert_eq!(parse_git_state('M', ' '), GitState::Modified);
    assert_eq!(parse_git_state('D', ' '), GitState::Deleted);
    assert_eq!(parse_git_state('R', ' '), GitState::Renamed);
    assert_eq!(parse_git_state('T', ' '), GitState::TypeChanged);
    assert_eq!(parse_git_state('?', '?'), GitState::Untracked);
    assert_eq!(parse_git_state('!', '!'), GitState::Ignored);
    assert_eq!(parse_git_state('X', 'M'), GitState::Clean);
    assert_eq!(parse_git_state(' ', ' '), GitState::Clean);
}

#[test]
fn second_code_character_counts_after_a_space() {
    assert_eq!(parse_git_state(' ', 'M'), GitState::Modified);
    assert_eq!(parse_git_state(' ', 'D'), GitState::Deleted);
    assert_eq!(parse_git_state('A', 'M'), GitState::Added);
}

#[test]
fn report_with_several_lines() {
    let map = git_statuses("A  src/new.rs\n M README.md\r\nD  gone\n?? dir/\n!! target/\nT  link");
    assert_eq!(map.get("src/new.rs"), GitState::Added);
    assert_eq!(map.get("README.md"), GitState::Modified);
    assert_eq!(map.get("gone"), GitState::Deleted);
    assert_eq!(map.get("dir"), GitState::Untracked);
    assert_eq!(map.get("dir/"), GitState::Untracked);
    assert_eq!(map.get("target"), GitState::Ignored);
    assert_eq!(map.get("link"), GitState::TypeChanged);
    assert_eq!(map.get("src"), GitState::Clean);
}

#[test]
fn later_line_overrides_earlier_line() {
    let map = git_statuses("M  a\nD  a\n");
    assert_eq!(map.get("a"), GitState::Deleted);
}

#[test]
fn repeated_slashes_do_not_matter() {
    let map = git_statuses("M  a//b\n");
    assert_eq!(map.get("a/b"), GitState::Modified);
    assert_eq!(map.get("a/b//"), GitState::Modified);
    assert_eq!(map.get("a/c"), GitState::Clean);
    assert_eq!(map.get("/a/b"), GitState::Clean);
}

#[test]
fn first_arrow_splits_a_rename() {
    let map = git_statuses("R  a -> b -> c\n");
    assert_eq!(map.get("b -> c"), GitState::Renamed);
    assert_eq!(map.get("c"), GitState::Clean);
}

#[test]
fn carriage_return_of_last_line_without_newline_stays() {
    let map = git_statuses("M  a\r");
    assert_eq!(map.get("a\r"), GitState::Modified);
    assert_eq!(map.get("a"), GitState::Clean);
}

#[test]
fn insert_then_get() {
    let mut map = StatusMap::new();
    assert!(map.is_empty());
    map.insert("x/", GitState::Ignored);
    assert_eq!(map.get("x"), GitState::Ignored);
    map.insert("x", GitState::Added);
    assert_eq!(map.get("x/"), GitState::Added);
}
