use hrevu::content::{enumerate_file_lines, extract_file_lines, file_content_data, untracked_entry_relevant, untracked_file_data};
use hrevu::diff::{diff_to_file_data, merge_file_sets, sort_by_path, DeltaStatus, RawDelta, RawLine};
use hrevu::models::{FileData, LineData};

fn raw(origin: char, content: &str, old: Option<u32>, new: Option<u32>) -> RawLine {
    RawLine { origin, content: Some(content.to_string()), old_lineno: old, new_lineno: new }
}

fn delta(path: &str, status: DeltaStatus, lines: Vec<RawLine>) -> RawDelta {
    RawDelta { new_path: Some(path.to_string()), status, lines }
}

#[test]
fn classifies_markers_and_numbers() {
    let d = delta(
        "a.rs",
        DeltaStatus::Modified,
        vec![
            raw('+', "plus", None, Some(5)),
            raw('>', "gt", None, Some(6)),
            raw('-', "minus", Some(7), None),
            raw('<', "lt", Some(8), None),
            raw(' ', "ctx", Some(9), Some(9)),
        ],
    );
    let files = diff_to_file_data(&vec![d]);
    assert_eq!(files.len(), 1);
    let f = &files[0];
    assert_eq!(f.path, "a.rs");
    assert_eq!(f.status, "modified");
    assert_eq!(f.lines.len(), 5);
    assert_eq!((f.lines[0].number, f.lines[0].kind.as_deref()), (5, Some("added")));
    assert_eq!((f.lines[1].number, f.lines[1].kind.as_deref()), (6, Some("added")));
    assert_eq!((f.lines[2].number, f.lines[2].kind.as_deref()), (7, Some("removed")));
    assert_eq!((f.lines[3].number, f.lines[3].kind.as_deref()), (8, Some("removed")));
    assert_eq!((f.lines[4].number, f.lines[4].kind.as_deref()), (9, None));
}

#[test]
fn removed_line_uses_pre_image_number_and_missing_number_is_zero() {
    let d = delta(
        "a.rs",
        DeltaStatus::Modified,
        vec![raw('-', "gone", Some(12), Some(99)), raw('+', "new", None, None)],
    );
    let files = diff_to_file_data(&vec![d]);
    assert_eq!(files[0].lines[0].number, 12);
    assert_eq!(files[0].lines[1].number, 0);
}

#[test]
fn trailing_whitespace_is_trimmed_and_blank_lines_dropped() {
    let d = delta(
        "a.rs",
        DeltaStatus::Modified,
        vec![
            raw('+', "hello   \n", None, Some(1)),
            raw('+', "   \n", None, Some(2)),
            raw('+', "", None, Some(3)),
            raw(' ', "\tkeep\tme\t\n", Some(4), Some(4)),
        ],
    );
    let files = diff_to_file_data(&vec![d]);
    let f = &files[0];
    assert_eq!(f.lines.len(), 2);
    assert_eq!(f.lines[0].content, "hello");
    assert_eq!(f.lines[1].content, "\tkeep\tme");
}

#[test]
fn binary_payload_counts_as_empty_and_is_dropped() {
    let d = RawDelta {
        new_path: Some("bin.dat".to_string()),
        status: DeltaStatus::Modified,
        lines: vec![RawLine { origin: '+', content: None, old_lineno: None, new_lineno: Some(1) }],
    };
    let files = diff_to_file_data(&vec![d]);
    assert_eq!(files.len(), 1);
    assert!(files[0].lines.is_empty());
}

#[test]
fn delta_without_path_lands_in_binary_bucket() {
    let d = RawDelta {
        new_path: None,
        status: DeltaStatus::Added,
        lines: vec![raw('+', "x", None, Some(1))],
    };
    let files = diff_to_file_data(&vec![d]);
    assert_eq!(files[0].path, "binary");
    assert_eq!(files[0].status, "added");
}

#[test]
fn delta_statuses_map_to_markers() {
    let deltas = vec![
        delta("a", DeltaStatus::Added, vec![]),
        delta("b", DeltaStatus::Deleted, vec![]),
        delta("c", DeltaStatus::Modified, vec![]),
        delta("d", DeltaStatus::Renamed, vec![]),
        delta("e", DeltaStatus::Copied, vec![]),
        delta("f", DeltaStatus::Other, vec![]),
    ];
    let files = diff_to_file_data(&deltas);
    let statuses: Vec<&str> = files.iter().map(|f| f.status.as_str()).collect();
    assert_eq!(statuses, vec!["added", "deleted", "modified", "modified", "modified", "modified"]);
}

#[test]
fn merge_with_empty_is_identity() {
    let staged = diff_to_file_data(&vec![delta(
        "a.rs",
        DeltaStatus::Modified,
        vec![raw('+', "one", None, Some(1))],
    )]);
    let merged = merge_file_sets(staged.clone(), Vec::new());
    assert_eq!(merged.len(), staged.len());
    assert_eq!(merged[0].path, staged[0].path);
    assert_eq!(merged[0].status, staged[0].status);
    assert_eq!(merged[0].lines.len(), staged[0].lines.len());
    assert_eq!(merged[0].lines[0].content, staged[0].lines[0].content);
}

fn paths_sorted(files: &[FileData]) -> Vec<String> {
    let mut p: Vec<String> = files.iter().map(|f| f.path.clone()).collect();
    p.sort();
    p
}

#[test]
fn merge_membership_is_grouping_independent_for_disjoint_paths() {
    let a = diff_to_file_data(&vec![delta("a.rs", DeltaStatus::Modified, vec![])]);
    let b = diff_to_file_data(&vec![delta("b.rs", DeltaStatus::Modified, vec![])]);
    let c = diff_to_file_data(&vec![delta("c.rs", DeltaStatus::Modified, vec![])]);
    let left = merge_file_sets(merge_file_sets(a.clone(), b.clone()), c.clone());
    let right = merge_file_sets(a, merge_file_sets(b, c));
    assert_eq!(paths_sorted(&left), paths_sorted(&right));
}

#[test]
fn merge_concatenates_staged_lines_first() {
    let staged = diff_to_file_data(&vec![delta(
        "same.rs",
        DeltaStatus::Modified,
        vec![raw('+', "staged-one", None, Some(1)), raw('+', "staged-two", None, Some(2))],
    )]);
    let workdir = diff_to_file_data(&vec![delta(
        "same.rs",
        DeltaStatus::Modified,
        vec![raw('-', "work-one", Some(3), None)],
    )]);
    let merged = merge_file_sets(staged, workdir);
    assert_eq!(merged.len(), 1);
    let contents: Vec<&str> = merged[0].lines.iter().map(|l| l.content.as_str()).collect();
    assert_eq!(contents, vec!["staged-one", "staged-two", "work-one"]);
}

#[test]
fn working_tree_scenario_staged_added_then_unstaged_removed() {
    let staged = diff_to_file_data(&vec![delta(
        "file.rs",
        DeltaStatus::Modified,
        vec![raw('+', "added here", None, Some(5))],
    )]);
    let workdir = diff_to_file_data(&vec![delta(
        "file.rs",
        DeltaStatus::Modified,
        vec![raw('-', "removed here", Some(10), None)],
    )]);
    let merged = merge_file_sets(staged, workdir);
    assert_eq!(merged.len(), 1);
    let f = &merged[0];
    assert_eq!(f.path, "file.rs");
    assert_eq!(f.lines.len(), 2);
    assert_eq!((f.lines[0].number, f.lines[0].kind.as_deref()), (5, Some("added")));
    assert_eq!((f.lines[1].number, f.lines[1].kind.as_deref()), (10, Some("removed")));
}

#[test]
fn same_path_in_one_diff_keeps_one_entry() {
    let deltas = vec![
        delta("dup.rs", DeltaStatus::Added, vec![raw('+', "first", None, Some(1))]),
        delta("dup.rs", DeltaStatus::Modified, vec![raw('+', "second", None, Some(2))]),
    ];
    let files = diff_to_file_data(&deltas);
    assert_eq!(files.len(), 1);
    assert_eq!(files[0].status, "modified");
    let contents: Vec<&str> = files[0].lines.iter().map(|l| l.content.as_str()).collect();
    assert_eq!(contents, vec!["first", "second"]);
}

#[test]
fn sort_orders_by_path_ascending() {
    let files = diff_to_file_data(&vec![
        delta("zebra.rs", DeltaStatus::Modified, vec![]),
        delta("alpha.rs", DeltaStatus::Modified, vec![]),
        delta("mid/way.rs", DeltaStatus::Modified, vec![]),
    ]);
    let sorted = sort_by_path(files);
    let p: Vec<&str> = sorted.iter().map(|f| f.path.as_str()).collect();
    assert_eq!(p, vec!["alpha.rs", "mid/way.rs", "zebra.rs"]);
}

#[test]
fn file_view_scenario_three_plain_lines() {
    let files = file_content_data("notes.txt", "line one\nline two\nline three\n");
    assert_eq!(files.len(), 1);
    let f = &files[0];
    assert_eq!(f.path, "notes.txt");
    assert_eq!(f.status, "view");
    assert_eq!(f.lines.len(), 3);
    for (i, l) in f.lines.iter().enumerate() {
        assert_eq!(l.number, (i + 1) as u32);
        assert!(l.kind.is_none());
    }
    assert_eq!(f.lines[0].content, "line one");
    assert_eq!(f.lines[2].content, "line three");
}

#[test]
fn enumerate_handles_crlf_and_keeps_blank_middle_lines() {
    let lines = enumerate_file_lines("a\r\n\nb", Some("added"));
    let contents: Vec<&str> = lines.iter().map(|l| l.content.as_str()).collect();
    assert_eq!(contents, vec!["a", "", "b"]);
    assert!(lines.iter().all(|l| l.kind.as_deref() == Some("added")));
    assert_eq!(lines[2].number, 3);
}

#[test]
fn enumerate_empty_content_gives_no_lines() {
    assert!(enumerate_file_lines("", None).is_empty());
}

#[test]
fn untracked_file_is_all_added() {
    let f = untracked_file_data("new.rs", "x\ny\n");
    assert_eq!(f.status, "added");
    assert_eq!(f.lines.len(), 2);
    assert!(f.lines.iter().all(|l| l.kind.as_deref() == Some("added")));
}

#[test]
fn untracked_relevance_requires_change_and_no_deletion() {
    assert!(untracked_entry_relevant(true, false, false, false, false, false));
    assert!(untracked_entry_relevant(false, true, false, false, false, false));
    assert!(!untracked_entry_relevant(true, false, false, false, true, false));
    assert!(!untracked_entry_relevant(false, false, true, true, false, true));
    assert!(!untracked_entry_relevant(false, false, false, false, false, false));
}

#[test]
fn extract_file_lines_pairs_paths_with_contents() {
    let files = vec![
        FileData {
            path: "a.rs".to_string(),
            status: "modified".to_string(),
            lines: vec![
                LineData { number: 1, content: "one".to_string(), kind: None },
                LineData { number: 2, content: "two".to_string(), kind: Some("added".to_string()) },
            ],
        },
        FileData { path: "b.rs".to_string(), status: "view".to_string(), lines: vec![] },
    ];
    let pairs = extract_file_lines(files);
    assert_eq!(pairs.len(), 2);
    assert_eq!(pairs[0].0, "a.rs");
    assert_eq!(pairs[0].1, vec!["one".to_string(), "two".to_string()]);
    assert_eq!(pairs[1].0, "b.rs");
    assert!(pairs[1].1.is_empty());
}
