use zed_ctrmml::documents::{initial_roots, DocumentStore};
use zed_ctrmml::update_check::{
    format_update_check, parse_last_update_check, update_check_due, update_check_path,
};

#[test]
fn store_reads_back_last_write() {
    let mut docs = DocumentStore::new();
    assert_eq!(docs.text_of("file:///a.mml"), "");
    docs.set_text("file:///a.mml".to_string(), "A c".to_string());
    docs.set_text("file:///b.mml".to_string(), "B d".to_string());
    docs.set_text("file:///a.mml".to_string(), "A e".to_string());
    assert_eq!(docs.text_of("file:///a.mml"), "A e");
    assert_eq!(docs.text_of("file:///b.mml"), "B d");
    docs.apply_changes(
        "file:///b.mml".to_string(),
        vec!["first".to_string(), "last".to_string()],
    );
    assert_eq!(docs.text_of("file:///b.mml"), "last");
    docs.apply_changes("file:///b.mml".to_string(), Vec::new());
    assert_eq!(docs.text_of("file:///b.mml"), "last");
}

#[test]
fn roots_from_folders_or_root_uri() {
    let folders = vec!["file:///w1".to_string(), "http://x/y".to_string(), "file:///w2".to_string()];
    assert_eq!(
        initial_roots(Some(folders), Some("file:///r".to_string())),
        vec!["/w1", "/w2"]
    );
    assert_eq!(initial_roots(None, Some("file:///r".to_string())), vec!["/r"]);
    assert_eq!(initial_roots(None, None), Vec::<String>::new());
    assert_eq!(initial_roots(Some(Vec::new()), Some("file:///r".to_string())), Vec::<String>::new());
}

#[test]
fn update_check_file_name() {
    assert_eq!(update_check_path(), ".ctrmml-lsp-last-check");
}

#[test]
fn update_check_text_parses_like_u64() {
    assert_eq!(parse_last_update_check(" 123\n"), Some(123));
    assert_eq!(parse_last_update_check("+5"), Some(5));
    assert_eq!(parse_last_update_check("-5"), None);
    assert_eq!(parse_last_update_check("+"), None);
    assert_eq!(parse_last_update_check(""), None);
    assert_eq!(parse_last_update_check("1 2"), None);
    assert_eq!(parse_last_update_check("18446744073709551615"), Some(u64::MAX));
    assert_eq!(parse_last_update_check("18446744073709551616"), None);
    assert_eq!(parse_last_update_check("\u{3000}7\u{a0}"), Some(7));
}

#[test]
fn update_check_text_round_trip() {
    assert_eq!(format_update_check(0), "0");
    assert_eq!(format_update_check(1_725_029_869), "1725029869");
    for t in [0u64, 9, 10, 1_725_029_869, u64::MAX] {
        assert_eq!(parse_last_update_check(&format_update_check(t)), Some(t));
        assert_eq!(format_update_check(t), t.to_string());
    }
}

#[test]
fn update_check_due_after_thirty_minutes() {
    assert!(update_check_due(None, Some(100)));
    assert!(update_check_due(Some(100), None));
    assert!(!update_check_due(Some(100), Some(100)));
    assert!(!update_check_due(Some(100), Some(1899)));
    assert!(update_check_due(Some(100), Some(1900)));
    assert!(update_check_due(Some(100), Some(99)));
}

#[test]
fn no_check_due_within_thirty_minutes_of_a_record() {
    let t = 1_725_029_869u64;
    let last = parse_last_update_check(&format_update_check(t));
    assert!(!update_check_due(last, Some(t)));
    assert!(!update_check_due(last, Some(t + 1799)));
    assert!(update_check_due(last, Some(t + 1800)));
    assert!(update_check_due(last, Some(t - 1)));
}
