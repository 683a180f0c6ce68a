use rdir::args::apply;
use rdir::args::classify;
use rdir::args::error_message;
use rdir::args::parse_args;
use rdir::args::Meaning;
use rdir::args::Request;
use rdir::numbers::terminal_width;
use rdir::options::Options;
use rdir::options::UNLIMITED_DEPTH;

fn args(list: &[&str]) -> Vec<String> {
    list.iter().map(|s| s.to_string()).collect()
}

fn listing(list: &[&str]) -> (Options, Vec<String>) {
    match parse_args(&args(list)) {
        Request::List { opts, paths } => (opts, paths),
        _ => panic!("no listing"),
    }
}

#[test]
fn defaults() {
    let o = Options::default();
    assert!(!o.one_per_line && !o.all && !o.almost_all && !o.dirs_only && !o.files_only);
    assert!(!o.long && !o.report && !o.git_status);
    assert!(!o.sort_dirs_first && !o.sort_files_first && !o.sort_time);
    assert!(o.human_readable);
    assert_eq!(o.tree_depth, None);
    assert_eq!(o.color_scheme.dir, "\x1b[34m");
}

#[test]
fn no_arguments_list_the_current_directory() {
    let (opts, paths) = listing(&[]);
    assert_eq!(paths, vec!["."]);
    assert_eq!(opts.tree_depth, None);
    assert!(opts.human_readable);
}

#[test]
fn each_flag_sets_its_option() {
    assert_eq!(classify("-1"), Meaning::OnePerLine);
    assert_eq!(classify("-a"), Meaning::All);
    assert_eq!(classify("--all"), Meaning::All);
    assert_eq!(classify("-A"), Meaning::AlmostAll);
    assert_eq!(classify("--almost-all"), Meaning::AlmostAll);
    assert_eq!(classify("-d"), Meaning::DirsOnly);
    assert_eq!(classify("--dirs"), Meaning::DirsOnly);
    assert_eq!(classify("-f"), Meaning::FilesOnly);
    assert_eq!(classify("--files"), Meaning::FilesOnly);
    assert_eq!(classify("-l"), Meaning::Long);
    assert_eq!(classify("--long"), Meaning::Long);
    assert_eq!(classify("--report"), Meaning::Report);
    assert_eq!(classify("--gs"), Meaning::GitStatus);
    assert_eq!(classify("--git-status"), Meaning::GitStatus);
    assert_eq!(classify("--sd"), Meaning::SortDirsFirst);
    assert_eq!(classify("--sort-dirs"), Meaning::SortDirsFirst);
    assert_eq!(classify("--group-directories-first"), Meaning::SortDirsFirst);
    assert_eq!(classify("--sf"), Meaning::SortFilesFirst);
    assert_eq!(classify("--sort-files"), Meaning::SortFilesFirst);
    assert_eq!(classify("-t"), Meaning::SortTime);
    assert_eq!(classify("--light"), Meaning::Light);
    assert_eq!(classify("--dark"), Meaning::Dark);
    assert_eq!(classify("--non-human-readable"), Meaning::NonHumanReadable);
    assert_eq!(classify("--help"), Meaning::Help);
    assert_eq!(classify("-h"), Meaning::Help);
    assert_eq!(classify("--nope"), Meaning::UnknownFlag);
    assert_eq!(classify("-"), Meaning::UnknownFlag);
    assert_eq!(classify("-al"), Meaning::UnknownFlag);
    assert_eq!(classify("src"), Meaning::Path);
    assert_eq!(classify(""), Meaning::Path);
    assert_eq!(classify("a-b"), Meaning::Path);
}

#[test]
fn tree_depths() {
    assert_eq!(classify("--tree"), Meaning::Tree(3));
    assert_eq!(classify("--tree="), Meaning::Tree(3));
    assert_eq!(classify("--tree=1"), Meaning::Tree(1));
    assert_eq!(classify("--tree=+7"), Meaning::Tree(7));
    assert_eq!(classify("--tree=007"), Meaning::Tree(7));
    assert_eq!(classify("--tree=0"), Meaning::Tree(UNLIMITED_DEPTH));
    assert_eq!(classify("--tree=-0"), Meaning::Tree(UNLIMITED_DEPTH));
    assert_eq!(classify("--tree=-3"), Meaning::Tree(UNLIMITED_DEPTH));
    assert_eq!(classify(&format!("--tree={}", isize::MAX)), Meaning::Tree(isize::MAX as usize));
    assert_eq!(classify(&format!("--tree={}", isize::MIN)), Meaning::Tree(UNLIMITED_DEPTH));
    assert_eq!(classify("--treeX=5"), Meaning::Tree(5));
}

#[test]
fn invalid_tree_arguments() {
    assert_eq!(classify("--tree=abc"), Meaning::InvalidDepth);
    assert_eq!(classify("--tree=1x"), Meaning::InvalidDepth);
    assert_eq!(classify("--tree= 1"), Meaning::InvalidDepth);
    assert_eq!(classify("--tree=+"), Meaning::InvalidDepth);
    assert_eq!(classify("--tree=-"), Meaning::InvalidDepth);
    assert_eq!(classify("--tree=--1"), Meaning::InvalidDepth);
    assert_eq!(classify("--tree=1=2"), Meaning::InvalidDepth);
    assert_eq!(classify("--tree=9223372036854775808"), Meaning::InvalidDepth);
    assert_eq!(classify("--tree=-9223372036854775809"), Meaning::InvalidDepth);
    assert_eq!(classify("--tree=99999999999999999999999999999999"), Meaning::InvalidDepth);
    assert_eq!(classify("--tree3"), Meaning::InvalidTreeSyntax);
    assert_eq!(classify("--trees"), Meaning::InvalidTreeSyntax);
    assert_eq!(classify("--tre"), Meaning::UnknownFlag);
}

#[test]
fn tree_depth_agrees_with_the_standard_parse() {
    let values = ["", "0", "1", "-1", "+1", "12", "-12", "1 ", " 1", "1.0", "0x10", "٣", "+-1", "-+1", "00", "-00",
        "9223372036854775807", "9223372036854775808", "-9223372036854775808", "-9223372036854775809",
        "18446744073709551615", "18446744073709551616", "340282366920938463463374607431768211456"];
    for val in values {
        let expect = if val.is_empty() {
            Meaning::Tree(3)
        } else {
            match val.parse::<isize>() {
                Ok(n) if n <= 0 => Meaning::Tree(UNLIMITED_DEPTH),
                Ok(n) => Meaning::Tree(n as usize),
                Err(_) => Meaning::InvalidDepth,
            }
        };
        assert_eq!(classify(&format!("--tree={}", val)), expect, "value {:?}", val);
    }
}

#[test]
fn options_and_paths_mix() {
    let (opts, paths) = listing(&["-l", "src", "--sd", "-t", "tests", "--tree=2", "--light", "--non-human-readable"]);
    assert_eq!(paths, vec!["src", "tests"]);
    assert!(opts.long && opts.sort_dirs_first && opts.sort_time);
    assert!(!opts.human_readable);
    assert_eq!(opts.tree_depth, Some(2));
    assert_eq!(opts.color_scheme.dir, "\x1b[94m");
    assert!(!opts.all && !opts.report);
}

#[test]
fn almost_all_sets_all_too() {
    let (opts, _) = listing(&["-A"]);
    assert!(opts.all && opts.almost_all);
    let (opts, _) = listing(&["-a"]);
    assert!(opts.all && !opts.almost_all);
}

#[test]
fn dark_after_light_is_dark() {
    let (opts, _) = listing(&["--light", "--dark"]);
    assert_eq!(opts.color_scheme.dir, "\x1b[34m");
}

#[test]
fn later_tree_depth_replaces_earlier() {
    let (opts, _) = listing(&["--tree=5", "--tree"]);
    assert_eq!(opts.tree_depth, Some(3));
    let (opts, _) = listing(&["--tree", "--tree=0"]);
    assert_eq!(opts.tree_depth, Some(UNLIMITED_DEPTH));
}

#[test]
fn help_ends_the_reading() {
    assert!(matches!(parse_args(&args(&["-l", "--help", "--nope"])), Request::Help));
    assert!(matches!(parse_args(&args(&["-h"])), Request::Help));
}

#[test]
fn first_error_decides() {
    match parse_args(&args(&["-l", "--nope", "--help", "--tree=x"])) {
        Request::Invalid { index, meaning } => {
            assert_eq!(index, 1);
            assert_eq!(meaning, Meaning::UnknownFlag);
        }
        _ => panic!("no error"),
    }
    match parse_args(&args(&["a", "b", "--tree=x"])) {
        Request::Invalid { index, meaning } => {
            assert_eq!(index, 2);
            assert_eq!(meaning, Meaning::InvalidDepth);
        }
        _ => panic!("no error"),
    }
    match parse_args(&args(&["--treetop"])) {
        Request::Invalid { index, meaning } => {
            assert_eq!(index, 0);
            assert_eq!(meaning, Meaning::InvalidTreeSyntax);
        }
        _ => panic!("no error"),
    }
}

#[test]
fn apply_leaves_the_rest_alone() {
    let base = Options::default();
    let o = apply(base, Meaning::Report);
    assert!(o.report && !o.long && o.human_readable);
    let o = apply(o, Meaning::Path);
    assert!(o.report);
    let o = apply(o, Meaning::Help);
    assert!(o.report && o.tree_depth.is_none());
}

#[test]
fn terminal_width_from_the_environment() {
    assert_eq!(terminal_width(None), 80);
    assert_eq!(terminal_width(Some("120")), 120);
    assert_eq!(terminal_width(Some("+120")), 120);
    assert_eq!(terminal_width(Some("0")), 0);
    assert_eq!(terminal_width(Some("007")), 7);
    assert_eq!(terminal_width(Some("")), 80);
    assert_eq!(terminal_width(Some("+")), 80);
    assert_eq!(terminal_width(Some("-1")), 80);
    assert_eq!(terminal_width(Some("-0")), 80);
    assert_eq!(terminal_width(Some("12a")), 80);
    assert_eq!(terminal_width(Some(" 12")), 80);
    assert_eq!(terminal_width(Some("18446744073709551615")), usize::MAX);
    assert_eq!(terminal_width(Some("18446744073709551616")), 80);
    assert_eq!(terminal_width(Some("99999999999999999999999999")), 80);
}

#[test]
fn terminal_width_agrees_with_the_standard_parse() {
    let values = ["", "0", "1", "-1", "+1", "80", "-0", "+0", "0080", "8 0", "１２", "18446744073709551615", "18446744073709551616", "++1"];
    for val in values {
        let expect: usize = val.parse().unwrap_or(80);
        assert_eq!(terminal_width(Some(val)), expect, "value {:?}", val);
    }
}

#[test]
fn messages_for_arguments_in_error() {
    assert_eq!(error_message("--tree=abc"), Some("Invalid depth for --tree: abc".to_string()));
    assert_eq!(error_message("--tree=1=2"), Some("Invalid depth for --tree: 1=2".to_string()));
    assert_eq!(error_message("--tree=ü"), Some("Invalid depth for --tree: ü".to_string()));
    assert_eq!(error_message("--tréé=ü"), Some("Unknown flag: --tréé=ü".to_string()));
    assert_eq!(error_message("--trees"), Some("Invalid syntax for --tree: --trees".to_string()));
    assert_eq!(error_message("--nope"), Some("Unknown flag: --nope".to_string()));
    assert_eq!(error_message("-"), Some("Unknown flag: -".to_string()));
    assert_eq!(error_message("--tree=3"), None);
    assert_eq!(error_message("--help"), None);
    assert_eq!(error_message("src"), None);
}
