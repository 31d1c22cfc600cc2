use sf_search::engine::{resolve_root, run, SearchOutcome};
use sf_search::request::{KindFilter, OutputMode, SearchRequest, DEFAULT_MAX_DEPTH};
use sf_search::tree::{EntryKind, ErrorClass, TreeNode};

fn file(name: &str) -> TreeNode {
    TreeNode {
        name: name.to_string(),
        kind: EntryKind::File,
        hidden: false,
        read_error: None,
        children: Vec::new(),
    }
}

fn hidden_file(name: &str) -> TreeNode {
    TreeNode {
        name: name.to_string(),
        kind: EntryKind::File,
        hidden: true,
        read_error: None,
        children: Vec::new(),
    }
}

fn dir(name: &str, children: Vec<TreeNode>) -> TreeNode {
    TreeNode {
        name: name.to_string(),
        kind: EntryKind::Dir,
        hidden: false,
        read_error: None,
        children,
    }
}

fn hidden_dir(name: &str, children: Vec<TreeNode>) -> TreeNode {
    TreeNode {
        name: name.to_string(),
        kind: EntryKind::Dir,
        hidden: true,
        read_error: None,
        children,
    }
}

fn unreadable_dir(name: &str, class: ErrorClass) -> TreeNode {
    TreeNode {
        name: name.to_string(),
        kind: EntryKind::Dir,
        hidden: false,
        read_error: Some(class),
        children: Vec::new(),
    }
}

fn symlink(name: &str) -> TreeNode {
    TreeNode {
        name: name.to_string(),
        kind: EntryKind::Symlink,
        hidden: false,
        read_error: None,
        children: Vec::new(),
    }
}

fn strings(items: &[&str]) -> Vec<String> {
    items.iter().map(|s| s.to_string()).collect()
}

#[allow(clippy::too_many_arguments)]
fn request(
    includes: &[&str],
    excludes: &[&str],
    case_insensitive: bool,
    kind_filter: KindFilter,
    extensions: &[&str],
    suppress_hidden: bool,
    max_depth: u32,
    mode: OutputMode,
) -> SearchRequest {
    SearchRequest::new(
        strings(includes),
        strings(excludes),
        case_insensitive,
        kind_filter,
        strings(extensions),
        suppress_hidden,
        true,
        max_depth,
        mode,
    )
    .unwrap()
}

fn match_set(outcome: &SearchOutcome) -> Vec<(String, String)> {
    let mut v: Vec<(String, String)> = outcome
        .matches
        .iter()
        .map(|m| (m.parent.clone(), m.name.clone()))
        .collect();
    v.sort();
    v
}

#[test]
fn scenario_mixed_case_hidden_and_extension() {
    let root = dir(
        "root",
        vec![
            file("report.txt"),
            file("REPORT.csv"),
            hidden_file(".secret"),
            dir("archive", vec![file("old_report.txt")]),
        ],
    );
    let req = request(
        &["report"],
        &[],
        true,
        KindFilter::Any,
        &["txt"],
        true,
        DEFAULT_MAX_DEPTH,
        OutputMode::Verbose,
    );
    let out = run(&req, &"/root".to_string(), &root);
    assert_eq!(
        match_set(&out),
        vec![
            ("/root".to_string(), "report.txt".to_string()),
            ("/root/archive".to_string(), "old_report.txt".to_string()),
        ]
    );
    assert_eq!(out.stats.entries, 5);
    assert_eq!(out.stats.hits, 2);
    assert!(out.warnings.is_empty());
}

#[test]
fn scenario_exclude_pattern() {
    let root = dir("root", vec![file("log1.txt"), file("old_log.txt")]);
    let req = request(
        &["log"],
        &["old"],
        false,
        KindFilter::Any,
        &[],
        false,
        DEFAULT_MAX_DEPTH,
        OutputMode::Verbose,
    );
    let out = run(&req, &"/r".to_string(), &root);
    assert_eq!(
        match_set(&out),
        vec![("/r".to_string(), "log1.txt".to_string())]
    );
    assert_eq!(out.stats.hits, 1);
}

#[test]
fn scenario_symlink_never_followed_nor_reported() {
    let root = dir("root", vec![symlink("link_to_dir"), file("dir_notes.txt")]);
    let req = request(
        &["dir"],
        &[],
        false,
        KindFilter::Any,
        &[],
        false,
        DEFAULT_MAX_DEPTH,
        OutputMode::Verbose,
    );
    let out = run(&req, &"/r".to_string(), &root);
    // The link's name holds the pattern, yet a symlink is never considered,
    // and nothing beyond it is visited.
    assert_eq!(
        match_set(&out),
        vec![("/r".to_string(), "dir_notes.txt".to_string())]
    );
    assert_eq!(out.stats.entries, 2);
}

#[test]
fn scenario_unreadable_subtree_yields_one_warning() {
    let root = dir(
        "root",
        vec![
            unreadable_dir("locked", ErrorClass::PermissionDenied),
            file("a_report.md"),
        ],
    );
    let req = request(
        &["report"],
        &[],
        false,
        KindFilter::Any,
        &[],
        false,
        DEFAULT_MAX_DEPTH,
        OutputMode::Verbose,
    );
    let out = run(&req, &"/top".to_string(), &root);
    assert_eq!(
        match_set(&out),
        vec![("/top".to_string(), "a_report.md".to_string())]
    );
    assert_eq!(out.warnings.len(), 1);
    assert_eq!(out.warnings[0].path, "/top/locked");
    assert_eq!(out.warnings[0].class, ErrorClass::PermissionDenied);
}

#[test]
fn depth_zero_visits_only_direct_children() {
    let root = dir(
        "root",
        vec![file("ab.txt"), dir("subb", vec![file("b2.txt")])],
    );
    let req = request(
        &["b"],
        &[],
        false,
        KindFilter::Any,
        &[],
        false,
        0,
        OutputMode::Verbose,
    );
    let out = run(&req, &"/r".to_string(), &root);
    assert_eq!(
        match_set(&out),
        vec![
            ("/r".to_string(), "ab.txt".to_string()),
            ("/r".to_string(), "subb".to_string()),
        ]
    );
    assert_eq!(out.stats.entries, 2);
}

#[test]
fn depth_one_descends_exactly_one_level() {
    let root = dir(
        "root",
        vec![dir(
            "l1",
            vec![file("hit_l2.txt"), dir("l2", vec![file("hit_l3.txt")])],
        )],
    );
    let req = request(
        &["hit"],
        &[],
        false,
        KindFilter::Any,
        &[],
        false,
        1,
        OutputMode::Verbose,
    );
    let out = run(&req, &"/r".to_string(), &root);
    assert_eq!(
        match_set(&out),
        vec![("/r/l1".to_string(), "hit_l2.txt".to_string())]
    );
    assert_eq!(out.stats.entries, 3);
}

#[test]
fn running_twice_yields_identical_results() {
    let root = dir(
        "root",
        vec![
            file("report.txt"),
            dir("archive", vec![file("old_report.txt"), file("notes.md")]),
            unreadable_dir("locked", ErrorClass::Other),
        ],
    );
    let req = request(
        &["report"],
        &[],
        true,
        KindFilter::Any,
        &[],
        false,
        DEFAULT_MAX_DEPTH,
        OutputMode::Verbose,
    );
    let out1 = run(&req, &"/r".to_string(), &root);
    let out2 = run(&req, &"/r".to_string(), &root);
    assert_eq!(out1.matches, out2.matches);
    assert_eq!(out1.warnings, out2.warnings);
    assert_eq!(out1.stats, out2.stats);
}

#[test]
fn hidden_directory_prunes_whole_subtree() {
    let root = dir("root", vec![hidden_dir(".hid", vec![file("visible_match.txt")])]);
    let req = request(
        &["match"],
        &[],
        false,
        KindFilter::Any,
        &[],
        true,
        DEFAULT_MAX_DEPTH,
        OutputMode::Verbose,
    );
    let out = run(&req, &"/r".to_string(), &root);
    assert!(out.matches.is_empty());
    assert_eq!(out.stats.entries, 1);
}

#[test]
fn hidden_directory_can_prune_only_itself() {
    let root = dir("root", vec![hidden_dir(".hid", vec![file("visible_match.txt")])]);
    let req = SearchRequest::new(
        strings(&["match"]),
        Vec::new(),
        false,
        KindFilter::Any,
        Vec::new(),
        true,
        false,
        DEFAULT_MAX_DEPTH,
        OutputMode::Verbose,
    )
    .unwrap();
    let out = run(&req, &"/r".to_string(), &root);
    assert_eq!(
        match_set(&out),
        vec![("/r/.hid".to_string(), "visible_match.txt".to_string())]
    );
    assert_eq!(out.stats.entries, 2);
}

#[test]
fn files_only_filter_still_descends_directories() {
    let root = dir(
        "root",
        vec![dir("box", vec![file("box.txt")])],
    );
    let req = request(
        &["box"],
        &[],
        false,
        KindFilter::FilesOnly,
        &[],
        false,
        DEFAULT_MAX_DEPTH,
        OutputMode::Verbose,
    );
    let out = run(&req, &"/r".to_string(), &root);
    // The directory's name holds the pattern but only files are reported;
    // the directory is still descended into.
    assert_eq!(
        match_set(&out),
        vec![("/r/box".to_string(), "box.txt".to_string())]
    );
}

#[test]
fn dirs_only_filter_reports_no_files() {
    let root = dir(
        "root",
        vec![dir("box", vec![file("box.txt")])],
    );
    let req = request(
        &["box"],
        &[],
        false,
        KindFilter::DirsOnly,
        &[],
        false,
        DEFAULT_MAX_DEPTH,
        OutputMode::Verbose,
    );
    let out = run(&req, &"/r".to_string(), &root);
    assert_eq!(match_set(&out), vec![("/r".to_string(), "box".to_string())]);
}

#[test]
fn count_only_mode_counts_without_collecting() {
    let root = dir("root", vec![file("a_log.txt"), file("b_log.txt")]);
    let req = request(
        &["log"],
        &[],
        false,
        KindFilter::Any,
        &[],
        false,
        DEFAULT_MAX_DEPTH,
        OutputMode::CountOnly,
    );
    let out = run(&req, &"/r".to_string(), &root);
    assert!(out.matches.is_empty());
    assert_eq!(out.stats.hits, 2);
    assert_eq!(out.stats.entries, 2);
}

#[test]
fn unreadable_root_yields_single_warning_and_empty_result() {
    let root = TreeNode {
        name: "root".to_string(),
        kind: EntryKind::Dir,
        hidden: false,
        read_error: Some(ErrorClass::NotFound),
        children: Vec::new(),
    };
    let req = request(
        &["x"],
        &[],
        false,
        KindFilter::Any,
        &[],
        false,
        DEFAULT_MAX_DEPTH,
        OutputMode::Verbose,
    );
    let out = run(&req, &"/missing".to_string(), &root);
    assert!(out.matches.is_empty());
    assert_eq!(out.stats.entries, 0);
    assert_eq!(out.warnings.len(), 1);
    assert_eq!(out.warnings[0].path, "/missing");
    assert_eq!(out.warnings[0].class, ErrorClass::NotFound);
}

#[test]
fn root_that_is_not_a_directory_yields_warning() {
    let root = file("plain.txt");
    let req = request(
        &["plain"],
        &[],
        false,
        KindFilter::Any,
        &[],
        false,
        DEFAULT_MAX_DEPTH,
        OutputMode::Verbose,
    );
    let out = run(&req, &"/plain.txt".to_string(), &root);
    assert!(out.matches.is_empty());
    assert_eq!(out.warnings.len(), 1);
    assert_eq!(out.warnings[0].class, ErrorClass::Other);
}

#[test]
fn match_record_line_joins_parent_and_name() {
    let root = dir("root", vec![file("hit.txt")]);
    let req = request(
        &["hit"],
        &[],
        false,
        KindFilter::Any,
        &[],
        false,
        DEFAULT_MAX_DEPTH,
        OutputMode::Verbose,
    );
    let out = run(&req, &"/base".to_string(), &root);
    assert_eq!(out.matches.len(), 1);
    assert_eq!(out.matches[0].line(), "/base/hit.txt");
}

#[test]
fn extension_filter_requires_exact_case() {
    let root = dir("root", vec![file("a_report.TXT"), file("b_report.txt")]);
    let req = request(
        &["report"],
        &[],
        false,
        KindFilter::Any,
        &["txt"],
        false,
        DEFAULT_MAX_DEPTH,
        OutputMode::Verbose,
    );
    let out = run(&req, &"/r".to_string(), &root);
    assert_eq!(
        match_set(&out),
        vec![("/r".to_string(), "b_report.txt".to_string())]
    );
}

#[test]
fn extension_list_with_dirs_only_leaves_directories_unaffected() {
    let root = dir(
        "root",
        vec![dir("box_dir", Vec::new()), file("box.txt"), file("box.md")],
    );
    let req = request(
        &["box"],
        &[],
        false,
        KindFilter::DirsOnly,
        &["txt"],
        false,
        DEFAULT_MAX_DEPTH,
        OutputMode::Verbose,
    );
    let out = run(&req, &"/r".to_string(), &root);
    assert_eq!(
        match_set(&out),
        vec![("/r".to_string(), "box_dir".to_string())]
    );
}

#[test]
fn several_extensions_accepted_at_once() {
    let root = dir(
        "root",
        vec![file("box.txt"), file("box.md"), file("box.pdf")],
    );
    let req = request(
        &["box"],
        &[],
        false,
        KindFilter::Any,
        &["txt", "md"],
        false,
        DEFAULT_MAX_DEPTH,
        OutputMode::Verbose,
    );
    let out = run(&req, &"/r".to_string(), &root);
    assert_eq!(
        match_set(&out),
        vec![
            ("/r".to_string(), "box.md".to_string()),
            ("/r".to_string(), "box.txt".to_string()),
        ]
    );
}

#[test]
fn hidden_entries_are_reported_when_not_suppressed() {
    let root = dir("root", vec![hidden_file(".secret")]);
    let req = request(
        &["secret"],
        &[],
        false,
        KindFilter::Any,
        &[],
        false,
        DEFAULT_MAX_DEPTH,
        OutputMode::Verbose,
    );
    let out = run(&req, &"/r".to_string(), &root);
    assert_eq!(
        match_set(&out),
        vec![("/r".to_string(), ".secret".to_string())]
    );
}

#[test]
fn bare_dot_resolves_to_working_directory() {
    assert_eq!(resolve_root(".", "/home/someone"), "/home/someone");
    assert_eq!(resolve_root("/var/data", "/home/someone"), "/var/data");
    assert_eq!(resolve_root("./sub", "/home/someone"), "./sub");
}

#[test]
fn default_depth_constant() {
    assert_eq!(DEFAULT_MAX_DEPTH, 250);
}
