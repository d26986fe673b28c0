use hrevu::assets::{get_asset, get_mime_type, get_template, strip_static_prefix, AssetStore};
use hrevu::models::InputType;
use hrevu::session::{add_comment, new_session};
use hrevu::summary::build_summary;

fn store() -> AssetStore {
    AssetStore {
        templates: vec![
            ("review.html".to_string(), b"<html>review</html>".to_vec()),
            ("broken.html".to_string(), vec![0xff, 0xfe, 0x41]),
        ],
        statics: vec![
            ("app.js".to_string(), b"console".to_vec()),
            ("style.css".to_string(), b"body{}".to_vec()),
        ],
    }
}

#[test]
fn template_lookup_decodes_text() {
    let s = store();
    assert_eq!(get_template(&s, "review.html").as_deref(), Some("<html>review</html>"));
    assert!(get_template(&s, "missing.html").is_none());
}

#[test]
fn template_with_invalid_bytes_gives_nothing() {
    let s = store();
    assert!(get_template(&s, "broken.html").is_none());
}

#[test]
fn asset_lookup_strips_prefix_and_names_media_type() {
    let s = store();
    let (data, mime) = get_asset(&s, "/static/app.js").unwrap();
    assert_eq!(data, b"console".to_vec());
    assert_eq!(mime, "application/javascript");
    let (_, mime2) = get_asset(&s, "style.css").unwrap();
    assert_eq!(mime2, "text/css");
    assert!(get_asset(&s, "/static/none.png").is_none());
}

#[test]
fn static_prefix_is_stripped_once_where_present() {
    assert_eq!(strip_static_prefix("/static/a/b.css"), "a/b.css");
    assert_eq!(strip_static_prefix("static/a.js"), "a.js");
    assert_eq!(strip_static_prefix("plain.txt"), "plain.txt");
}

#[test]
fn media_types_follow_the_extension() {
    assert_eq!(get_mime_type("a.css"), "text/css");
    assert_eq!(get_mime_type("a.js"), "application/javascript");
    assert_eq!(get_mime_type("dir/page.html"), "text/html");
    assert_eq!(get_mime_type("d.json"), "application/json");
    assert_eq!(get_mime_type("i.png"), "image/png");
    assert_eq!(get_mime_type("i.jpg"), "image/jpeg");
    assert_eq!(get_mime_type("i.jpeg"), "image/jpeg");
    assert_eq!(get_mime_type("v.svg"), "image/svg+xml");
    assert_eq!(get_mime_type("f.woff"), "font/woff2");
    assert_eq!(get_mime_type("f.woff2"), "font/woff2");
    assert_eq!(get_mime_type("f.ttf"), "font/ttf");
    assert_eq!(get_mime_type("f.eot"), "application/vnd.ms-fontobject");
    assert_eq!(get_mime_type("noext"), "application/octet-stream");
    assert_eq!(get_mime_type("odd.xyz"), "application/octet-stream");
}

#[test]
fn summary_groups_by_file_in_first_appearance_order() {
    let mut data = new_session(InputType::WorkingTreeDiff);
    add_comment(&mut data, Some("b.rs".to_string()), Some(1), "on b".to_string());
    add_comment(&mut data, None, None, "global".to_string());
    add_comment(&mut data, Some("a.rs".to_string()), Some(2), "on a".to_string());
    add_comment(&mut data, Some("b.rs".to_string()), Some(9), "again b".to_string());
    let report = build_summary(&data, &Vec::new());
    assert_eq!(report.total, 4);
    assert_eq!(report.groups.len(), 3);
    assert_eq!(report.groups[0].file.as_deref(), Some("b.rs"));
    assert!(report.groups[1].file.is_none());
    assert_eq!(report.groups[2].file.as_deref(), Some("a.rs"));
    let b_texts: Vec<&str> =
        report.groups[0].comments.iter().map(|e| e.comment.text.as_str()).collect();
    assert_eq!(b_texts, vec!["on b", "again b"]);
    assert!(report.groups.iter().all(|g| g.comments.iter().all(|e| e.context.is_none())));
}

#[test]
fn summary_context_shows_three_lines_above_and_the_target() {
    let mut data = new_session(InputType::WorkingTreeDiff);
    add_comment(&mut data, Some("src.rs".to_string()), Some(5), "look here".to_string());
    let contents = vec![(
        "src.rs".to_string(),
        vec![
            "one".to_string(),
            "two".to_string(),
            "   ".to_string(),
            "four  ".to_string(),
            "  five  ".to_string(),
            "six".to_string(),
        ],
    )];
    let report = build_summary(&data, &contents);
    let entry = &report.groups[0].comments[0];
    let cx = entry.context.as_ref().expect("context expected");
    let before: Vec<(u32, &str)> =
        cx.before.iter().map(|r| (r.number, r.content.as_str())).collect();
    assert_eq!(before, vec![(2, "two"), (4, "four")]);
    let target = cx.target.as_ref().expect("target expected");
    assert_eq!((target.number, target.content.as_str()), (5, "five"));
}

#[test]
fn summary_target_beyond_file_end_or_blank_is_absent() {
    let mut data = new_session(InputType::WorkingTreeDiff);
    add_comment(&mut data, Some("s.rs".to_string()), Some(40), "past end".to_string());
    add_comment(&mut data, Some("s.rs".to_string()), Some(2), "blank line".to_string());
    let contents = vec![("s.rs".to_string(), vec!["x".to_string(), "   ".to_string()])];
    let report = build_summary(&data, &contents);
    let entries = &report.groups[0].comments;
    assert!(entries[0].context.as_ref().unwrap().target.is_none());
    assert!(entries[1].context.as_ref().unwrap().target.is_none());
}

#[test]
fn summary_without_known_contents_has_no_context() {
    let mut data = new_session(InputType::WorkingTreeDiff);
    add_comment(&mut data, Some("gone.rs".to_string()), Some(1), "nothing known".to_string());
    let report = build_summary(&data, &Vec::new());
    assert!(report.groups[0].comments[0].context.is_none());
}
