use hrevu::models::{AppError, Comment, InputType, ReviewStatus};
use hrevu::resolve::resolve_input;
use hrevu::session::{
    add_comment, build_data_response, complete_review, new_session, remove_comment,
    update_comment, CompletionGate,
};

fn working_tree_session() -> hrevu::models::ReviewData {
    new_session(InputType::WorkingTreeDiff)
}

#[test]
fn new_session_is_open_and_empty() {
    let data = working_tree_session();
    assert_eq!(data.input, "Current Changes");
    assert!(data.comments.is_empty());
    assert!(matches!(data.status, ReviewStatus::InProgress));
}

#[test]
fn display_titles_name_the_subject() {
    let commit = InputType::CommitDiff { commit: "abc123".to_string() };
    let file = InputType::FileContent { path: "src/lib.rs".to_string() };
    assert_eq!(commit.display_title(), "Commit: abc123");
    assert_eq!(file.display_title(), "File: src/lib.rs");
    assert_eq!(InputType::WorkingTreeDiff.display_title(), "Current Changes");
}

#[test]
fn append_then_read_shows_comment_once_with_fresh_id() {
    let mut data = working_tree_session();
    let first = add_comment(&mut data, None, None, "first".to_string());
    let second = add_comment(
        &mut data,
        Some("a.rs".to_string()),
        Some(3),
        "second".to_string(),
    );
    assert_eq!(data.comments.len(), 2);
    assert!(!first.id.is_empty());
    assert!(!second.id.is_empty());
    assert_ne!(first.id, second.id);
    assert_eq!(data.comments.iter().filter(|c| c.id == second.id).count(), 1);
    assert_eq!(data.comments[1].text, "second");
    assert_eq!(data.comments[1].file.as_deref(), Some("a.rs"));
    assert_eq!(data.comments[1].line, Some(3));
}

#[test]
fn fresh_comment_id_is_hyphenated_uuid_length() {
    let c = Comment::new(None, None, "x".to_string());
    assert_eq!(c.id.chars().count(), 36);
}

#[test]
fn update_missing_id_reports_not_found_and_changes_nothing() {
    let mut data = working_tree_session();
    add_comment(&mut data, None, None, "keep me".to_string());
    let before: Vec<(String, String)> =
        data.comments.iter().map(|c| (c.id.clone(), c.text.clone())).collect();
    let r = update_comment(&mut data, "no-such-id", Some("new".to_string()));
    match r {
        Err(AppError::CommentNotFound(id)) => assert_eq!(id, "no-such-id"),
        _ => panic!("expected not-found"),
    }
    let after: Vec<(String, String)> =
        data.comments.iter().map(|c| (c.id.clone(), c.text.clone())).collect();
    assert_eq!(before, after);
}

#[test]
fn update_existing_id_replaces_text_only() {
    let mut data = working_tree_session();
    let c = add_comment(&mut data, Some("f.rs".to_string()), Some(7), "old".to_string());
    let updated = update_comment(&mut data, &c.id, Some("new".to_string())).unwrap();
    assert_eq!(updated.id, c.id);
    assert_eq!(updated.text, "new");
    assert_eq!(updated.file.as_deref(), Some("f.rs"));
    assert_eq!(updated.line, Some(7));
    assert_eq!(data.comments.len(), 1);
    assert_eq!(data.comments[0].text, "new");
}

#[test]
fn update_without_text_keeps_the_old_text() {
    let mut data = working_tree_session();
    let c = add_comment(&mut data, None, None, "stays".to_string());
    let updated = update_comment(&mut data, &c.id, None).unwrap();
    assert_eq!(updated.text, "stays");
    assert_eq!(data.comments[0].text, "stays");
}

#[test]
fn remove_decreases_count_and_id_never_reappears() {
    let mut data = working_tree_session();
    let a = add_comment(&mut data, None, None, "a".to_string());
    let b = add_comment(&mut data, None, None, "b".to_string());
    assert_eq!(data.comments.len(), 2);
    remove_comment(&mut data, &a.id).unwrap();
    assert_eq!(data.comments.len(), 1);
    assert!(data.comments.iter().all(|c| c.id != a.id));
    assert_eq!(data.comments[0].id, b.id);
    match remove_comment(&mut data, &a.id) {
        Err(AppError::CommentNotFound(id)) => assert_eq!(id, a.id),
        _ => panic!("expected not-found on second removal"),
    }
}

#[test]
fn complete_publishes_first_snapshot_and_counts_live_store() {
    let mut data = working_tree_session();
    let mut gate = CompletionGate::new();
    add_comment(&mut data, None, None, "one".to_string());
    let r1 = complete_review(&mut data, &mut gate);
    assert_eq!(r1.message, "Review completed");
    assert_eq!(r1.comment_count, 1);
    assert!(matches!(data.status, ReviewStatus::Completed));
    add_comment(&mut data, None, None, "two".to_string());
    let r2 = complete_review(&mut data, &mut gate);
    assert_eq!(r2.comment_count, 2);
    let snap = gate.snapshot().unwrap();
    assert_eq!(snap.comments.len(), 1);
    assert_eq!(snap.comments[0].text, "one");
    assert!(matches!(snap.status, ReviewStatus::Completed));
}

#[test]
fn snapshot_before_any_publish_fails_loudly() {
    let gate = CompletionGate::new();
    match gate.snapshot() {
        Err(AppError::Internal(m)) => assert_eq!(m, "Final data not available"),
        _ => panic!("expected the bypassed-handshake failure"),
    }
}

#[test]
fn data_response_carries_subject_files_and_comments() {
    let mut data = working_tree_session();
    add_comment(&mut data, None, None, "note".to_string());
    let files = hrevu::content::file_content_data("n.txt", "x\n");
    let resp = build_data_response(&data, files);
    assert!(matches!(resp.input_type, InputType::WorkingTreeDiff));
    assert_eq!(resp.files.len(), 1);
    assert_eq!(resp.comments.len(), 1);
    assert_eq!(resp.comments[0].text, "note");
}

#[test]
fn resolve_prefers_diff_then_path_then_revision() {
    assert!(matches!(
        resolve_input("diff", true, true),
        Ok(InputType::WorkingTreeDiff)
    ));
    match resolve_input("some/file.rs", true, true) {
        Ok(InputType::FileContent { path }) => assert_eq!(path, "some/file.rs"),
        _ => panic!("expected a file subject"),
    }
    match resolve_input("abc123", false, true) {
        Ok(InputType::CommitDiff { commit }) => assert_eq!(commit, "abc123"),
        _ => panic!("expected a commit subject"),
    }
}

#[test]
fn unresolvable_input_fails_with_explicit_message() {
    match resolve_input("abc123", false, false) {
        Err(m) => assert_eq!(
            m,
            "Unable to parse input: abc123. Please provide: commit hash, file path, or 'diff'"
        ),
        Ok(_) => panic!("expected resolution to fail"),
    }
}

#[test]
fn app_error_maps_to_status_and_message() {
    let nf = AppError::CommentNotFound("xyz".to_string());
    assert_eq!(nf.status_code(), 404);
    assert_eq!(nf.message(), "Comment not found: xyz");
    let internal = AppError::Internal("boom".to_string());
    assert_eq!(internal.status_code(), 500);
    assert_eq!(internal.message(), "boom");
}
