use zed_ctrmml::completion::{plan_completion, CompletionPlan};
use zed_ctrmml::items::{Completion, ItemKind};

fn labels(items: &[Completion]) -> Vec<String> {
    items.iter().map(|i| i.label.clone()).collect()
}

fn items_of(plan: CompletionPlan) -> Vec<Completion> {
    match plan {
        CompletionPlan::Items(items) => items,
        CompletionPlan::Nothing => panic!("expected items, got nothing"),
        CompletionPlan::PcmPaths(_) => panic!("expected items, got sample paths"),
    }
}

const URI: &str = "file:///tmp/song/main.mml";

#[test]
fn nothing_in_a_comment() {
    assert!(matches!(plan_completion("A c ; d", 0, 6, URI), CompletionPlan::Nothing));
}

#[test]
fn platform_values_after_platform_keyword() {
    let items = items_of(plan_completion("#platform ", 0, 10, URI));
    assert_eq!(labels(&items), vec!["megadrive", "mdsdrv"]);
    assert_eq!(items[0].kind, ItemKind::Keyword);
    assert_eq!(
        items[0].documentation.as_deref(),
        Some("Use VGM datablocks and DAC stream commands to play back samples.")
    );
    let edit = items[0].text_edit.as_ref().unwrap();
    assert_eq!((edit.range.line, edit.range.start, edit.range.end), (0, 10, 10));
}

#[test]
fn platform_value_replaces_typed_value() {
    let items = items_of(plan_completion("#platform meg", 0, 13, URI));
    assert_eq!(labels(&items), vec!["megadrive", "mdsdrv"]);
    for item in &items {
        let edit = item.text_edit.as_ref().unwrap();
        assert_eq!((edit.range.line, edit.range.start, edit.range.end), (0, 10, 13));
        assert_eq!(edit.new_text, item.label);
        assert_eq!(item.insert_text.as_deref(), Some(item.label.as_str()));
    }
    // Right after the keyword nothing is replaced.
    let items = items_of(plan_completion("  #platform", 0, 11, URI));
    let edit = items[1].text_edit.as_ref().unwrap();
    assert_eq!((edit.range.start, edit.range.end), (11, 11));
}

#[test]
fn meta_keywords_replace_text_after_hash() {
    let items = items_of(plan_completion("x\n  #ti", 1, 5, URI));
    assert_eq!(items.len(), 12);
    assert_eq!(items[10].label, "#timesig");
    assert_eq!(items[11].label, "#group");
    assert_eq!(items[11].insert_text.as_deref(), Some("group"));
    assert_eq!(items[0].label, "#title");
    assert_eq!(items[0].insert_text.as_deref(), Some("title"));
    assert_eq!(items[0].filter_text.as_deref(), Some("#title"));
    assert_eq!(items[0].documentation.as_deref(), Some("Song metadata."));
    let edit = items[0].text_edit.as_ref().unwrap();
    assert_eq!((edit.range.line, edit.range.start, edit.range.end), (1, 3, 5));
    assert_eq!(edit.new_text, "title");
    assert_eq!(items[5].documentation.as_deref(), Some("Sets the MML target platform."));
    assert_eq!(items[7].label, "#game");
    assert_eq!(items[7].documentation, None);
}

#[test]
fn instrument_types_after_at_number() {
    let items = items_of(plan_completion("@3 ", 0, 3, URI));
    assert_eq!(labels(&items), vec!["pcm", "fm", "psg", "2op"]);
    assert_eq!(items[1].kind, ItemKind::TypeParameter);
    assert_eq!(items[1].documentation.as_deref(), Some("FM instruments are defined as below."));
}

#[test]
fn rate_and_offset_after_pcm_definition() {
    let items = items_of(plan_completion("@3 pcm \"kick.wav\" ", 0, 18, URI));
    assert_eq!(labels(&items), vec!["rate=", "offset="]);
    assert_eq!(items[0].kind, ItemKind::Property);
    assert_eq!(items[1].documentation.as_deref(), Some("Adjust the start position."));
}

#[test]
fn nothing_on_other_instrument_lines() {
    assert!(matches!(plan_completion("@3 fm 1 2", 0, 9, URI), CompletionPlan::Nothing));
}

#[test]
fn commands_on_track_lines() {
    let items = items_of(plan_completion("A cdef", 0, 6, URI));
    assert_eq!(items.len(), 23);
    assert_eq!(items[0].label, "o");
    assert_eq!(items[0].documentation.as_deref(), Some("Set octave."));
    assert_eq!(items[22].label, "&");
    // Past the last line the line is empty: commands too.
    let items = items_of(plan_completion("", 4, 0, URI));
    assert_eq!(items.len(), 23);
}

#[test]
fn sample_paths_inside_pcm_string() {
    match plan_completion("@1 pcm \"sa", 0, 10, URI) {
        CompletionPlan::PcmPaths(req) => {
            assert_eq!(req.prefix, "sa");
            assert_eq!(req.start_col, 8);
            assert_eq!(req.col, 10);
            assert_eq!(req.suffix, "\"");
            assert_eq!(req.base_dir, "/tmp/song");
        }
        _ => panic!("expected sample paths"),
    }
    match plan_completion("@1 pcm \"sa\"", 0, 10, URI) {
        CompletionPlan::PcmPaths(req) => assert_eq!(req.suffix, ""),
        _ => panic!("expected sample paths"),
    }
}

#[test]
fn no_sample_paths_for_remote_documents() {
    // Without a local folder the line is an instrument line: nothing.
    assert!(matches!(
        plan_completion("@1 pcm \"sa", 0, 10, "untitled:Untitled-1"),
        CompletionPlan::Nothing
    ));
}
