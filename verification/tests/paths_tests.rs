use zed_ctrmml::paths::{is_wav, pcm_path_items, pcm_search_roots, uri_to_dir, PcmRequest};

fn request(prefix: &str, suffix: &str) -> PcmRequest {
    PcmRequest {
        prefix: prefix.to_string(),
        start_col: 8,
        col: 10,
        line_index: 2,
        suffix: suffix.to_string(),
        base_dir: "/a".to_string(),
    }
}

#[test]
fn wav_extension_in_any_case() {
    assert!(is_wav("x/a.wav"));
    assert!(is_wav("x/a.WaV"));
    assert!(!is_wav("a.wavx"));
    assert!(!is_wav("a.mp3"));
    assert!(!is_wav(".wav"));
    assert!(!is_wav("wav"));
}

#[test]
fn document_folder_from_file_uri() {
    assert_eq!(uri_to_dir("file:///tmp/a/b.mml"), Some("/tmp/a".to_string()));
    assert_eq!(uri_to_dir("file:///tmp/a%20b/c.mml"), Some("/tmp/a b".to_string()));
    assert_eq!(uri_to_dir("http://host/y.mml"), None);
    assert_eq!(uri_to_dir("not a uri"), None);
}

#[test]
fn search_roots_start_with_document_folder_once() {
    let roots = vec!["/a".to_string(), "/b".to_string(), "/b/".to_string(), "/c".to_string()];
    assert_eq!(pcm_search_roots("/a", &roots), vec!["/a", "/b", "/c"]);
    assert_eq!(pcm_search_roots("/a", &Vec::new()), vec!["/a"]);
}

#[test]
fn sample_items_relative_and_distinct() {
    let files = vec![
        "/a/x.wav".to_string(),
        "/a/sub/y.WAV".to_string(),
        "/a/z.txt".to_string(),
        "/a/x.wav".to_string(),
        "/b/w.wav".to_string(),
    ];
    let items = pcm_path_items(&request("", "\""), &files);
    let labels: Vec<&str> = items.iter().map(|i| i.label.as_str()).collect();
    assert_eq!(labels, vec!["x.wav", "sub/y.WAV", "../b/w.wav"]);
    assert_eq!(items[0].insert_text.as_deref(), Some("x.wav\""));
    let edit = items[0].text_edit.as_ref().unwrap();
    assert_eq!((edit.range.line, edit.range.start, edit.range.end), (2, 8, 10));
    assert_eq!(edit.new_text, "x.wav\"");
    assert_eq!(items[0].filter_text.as_deref(), Some("x.wav"));
}

#[test]
fn sample_items_filtered_by_prefix() {
    let files = vec!["/a/x.wav".to_string(), "/a/sub/y.wav".to_string()];
    let items = pcm_path_items(&request("sub", ""), &files);
    assert_eq!(items.len(), 1);
    assert_eq!(items[0].label, "sub/y.wav");
    assert_eq!(items[0].insert_text.as_deref(), Some("sub/y.wav"));
}
