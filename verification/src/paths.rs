//! File paths: the directory of a document, the folders searched for PCM
//! samples, and the sample files offered for a PCM instrument.

use vstd::prelude::*;
use crate::text::{char_vec, push_char, string_from_chars};
use crate::items::{
    Completion, CompletionView, EditView, ItemKind, LineRange, TextEdit, item_views, owned,
};

verus! {

/// The local path that the `file:` URI `uri` names (`url::Url::parse`
/// followed by `Url::to_file_path`), for the platform the crate is built
/// for.
pub uninterp spec fn file_path_of_uri(uri: Seq<char>) -> Option<Seq<char>>;

/// The parent of a path (`std::path::Path::parent`), for the platform the
/// crate is built for.
pub uninterp spec fn parent_of(path: Seq<char>) -> Option<Seq<char>>;

/// The extension of a path's file name (`std::path::Path::extension`), for
/// the platform the crate is built for.
pub uninterp spec fn extension_of(path: Seq<char>) -> Option<Seq<char>>;

/// Whether two paths are equal component by component (`==` on
/// `std::path::Path`), for the platform the crate is built for.
pub uninterp spec fn paths_equal(a: Seq<char>, b: Seq<char>) -> bool;

/// The path that leads from `base` to `path` (`pathdiff::diff_paths`), for
/// the platform the crate is built for.
pub uninterp spec fn relative_path_of(path: Seq<char>, base: Seq<char>) -> Option<Seq<char>>;

/// Calls `url::Url::to_file_path` on `uri`, which `url::Url::parse` turns
/// into the `Url` that the call takes. Claims that the path comes back as
/// `file_path_of_uri` names it, and that no path comes back where that name
/// gives none (a URI that does not parse, or names no local path). A path
/// that is not valid UTF-8 comes back as no path; nothing is claimed of
/// which URIs those are.
#[verifier::external_body]
pub(crate) fn uri_file_path(uri: &str) -> (r: Option<String>)
    ensures
        match r {
            Some(p) => file_path_of_uri(uri@) == Some(p@),
            None => file_path_of_uri(uri@) is None,
        },
{
    match url::Url::parse(uri) {
        Ok(url) => match url.to_file_path() {
            Ok(path) => path.into_os_string().into_string().ok(),
            Err(_) => None,
        },
        Err(_) => None,
    }
}

/// Calls `std::path::Path::parent`; claims the result is `parent_of` of
/// the argument.
#[verifier::external_body]
fn path_parent(path: &str) -> (r: Option<String>)
    ensures
        match r {
            Some(p) => parent_of(path@) == Some(p@),
            None => parent_of(path@) is None,
        },
{
    match std::path::Path::new(path).parent() {
        Some(parent) => parent.to_str().map(str::to_owned),
        None => None,
    }
}

/// Calls `std::path::Path::extension`; claims the result is
/// `extension_of` of the argument.
#[verifier::external_body]
fn path_extension(path: &str) -> (r: Option<String>)
    ensures
        match r {
            Some(e) => extension_of(path@) == Some(e@),
            None => extension_of(path@) is None,
        },
{
    match std::path::Path::new(path).extension() {
        Some(ext) => ext.to_str().map(str::to_owned),
        None => None,
    }
}

/// Compares two paths with `==` on `std::path::Path`; claims the result is
/// `paths_equal` of the arguments.
#[verifier::external_body]
fn same_path(a: &str, b: &str) -> (r: bool)
    ensures
        r == paths_equal(a@, b@),
{
    std::path::Path::new(a) == std::path::Path::new(b)
}

/// Calls `pathdiff::diff_paths(path, base)`; claims the result is
/// `relative_path_of` of the arguments (the path's text taken with
/// `to_string_lossy`).
#[verifier::external_body]
fn relative_path(path: &str, base: &str) -> (r: Option<String>)
    ensures
        match r {
            Some(p) => relative_path_of(path@, base@) == Some(p@),
            None => relative_path_of(path@, base@) is None,
        },
{
    match pathdiff::diff_paths(path, base) {
        Some(rel) => Some(rel.to_string_lossy().into_owned()),
        None => None,
    }
}

/// The directory that holds the document named by `uri`.
pub open spec fn dir_of_uri(uri: Seq<char>) -> Option<Seq<char>> {
    match file_path_of_uri(uri) {
        Some(path) => parent_of(path),
        None => None,
    }
}

/// The directory of the document with URI `uri`, if it is a local file.
pub fn uri_to_dir(uri: &str) -> (r: Option<String>)
    ensures
        match r {
            Some(d) => dir_of_uri(uri@) == Some(d@),
            None => dir_of_uri(uri@) is None,
        },
{
    match uri_file_path(uri) {
        Some(path) => path_parent(path.as_str()),
        None => None,
    }
}

/// ASCII letters made lower case, other characters kept.
pub open spec fn ascii_lower(c: char) -> char {
    if 'A' <= c && c <= 'Z' {
        ((c as u32) + 32) as char
    } else {
        c
    }
}

/// Equality up to ASCII case (`str::eq_ignore_ascii_case`).
pub open spec fn eq_ignore_ascii_case(a: Seq<char>, b: Seq<char>) -> bool {
    &&& a.len() == b.len()
    &&& forall|i: int| 0 <= i < a.len() ==> ascii_lower(#[trigger] a[i]) == ascii_lower(b[i])
}

/// `"wav"` as characters.
pub open spec fn wav_word() -> Seq<char> {
    seq!['w', 'a', 'v']
}

/// A WAV file: its extension is `wav` in any ASCII case.
pub open spec fn wav_path(path: Seq<char>) -> bool {
    match extension_of(path) {
        Some(ext) => eq_ignore_ascii_case(ext, wav_word()),
        None => false,
    }
}

/// Whether a character equals `lower` up to ASCII case, where `lower` is a
/// lower-case ASCII letter.
fn matches_lower(c: char, lower: char) -> (r: bool)
    requires
        'a' <= lower <= 'z',
    ensures
        r == (ascii_lower(c) == ascii_lower(lower)),
{
    let upper_code = (lower as u32) - 32;
    assert(ascii_lower(lower) == lower);
    if 'A' <= c && c <= 'Z' {
        assert(((c as u32) + 32) as char == lower <==> c as u32 == upper_code) by {
            assert(((c as u32) + 32) as u32 == (c as u32) + 32);
        }
        (c as u32) == upper_code
    } else {
        c == lower
    }
}

/// Whether `path` names a WAV file.
pub fn is_wav(path: &str) -> (r: bool)
    ensures
        r == wav_path(path@),
{
    match path_extension(path) {
        Some(ext) => {
            let chars = char_vec(ext.as_str());
            if chars.len() != 3 {
                return false;
            }
            let r = matches_lower(chars[0], 'w') && matches_lower(chars[1], 'a') && matches_lower(
                chars[2],
                'v',
            );
            assert(r == eq_ignore_ascii_case(ext@, wav_word())) by {
                assert(wav_word()[0] == 'w' && wav_word()[1] == 'a' && wav_word()[2] == 'v');
                if r {
                    assert forall|k: int| 0 <= k < 3 implies ascii_lower(#[trigger] ext@[k])
                        == ascii_lower(wav_word()[k]) by {
                        assert(k == 0 || k == 1 || k == 2);
                    }
                }
            }
            r
        },
        None => false,
    }
}

/// `s` with every `\` turned into `/`.
pub open spec fn forward_slashes(s: Seq<char>) -> Seq<char> {
    s.map_values(
        |c: char|
            if c == '\\' {
                '/'
            } else {
                c
            },
    )
}

/// `s.replace('\\', "/")`.
pub fn with_forward_slashes(s: &str) -> (r: String)
    ensures
        r@ == forward_slashes(s@),
{
    let chars = char_vec(s);
    let mut r = String::new();
    for i in 0..chars.len()
        invariant
            chars@ == s@,
            r@ == forward_slashes(s@).take(i as int),
    {
        let c = chars[i];
        if c == '\\' {
            push_char(&mut r, '/');
        } else {
            push_char(&mut r, c);
        }
        assert(r@ =~= forward_slashes(s@).take(i + 1));
    }
    assert(forward_slashes(s@).take(chars.len() as int) =~= forward_slashes(s@));
    r
}

/// Whether some path in `kept` equals `p`.
pub open spec fn path_seen(kept: Seq<Seq<char>>, p: Seq<char>) -> bool {
    exists|j: int| 0 <= j < kept.len() && paths_equal(#[trigger] kept[j], p)
}

/// `paths` with every path dropped that equals one kept before it.
pub open spec fn distinct_paths(paths: Seq<Seq<char>>) -> Seq<Seq<char>>
    decreases paths.len(),
{
    if paths.len() == 0 {
        seq![]
    } else {
        let kept = distinct_paths(paths.drop_last());
        if path_seen(kept, paths.last()) {
            kept
        } else {
            kept.push(paths.last())
        }
    }
}

/// The character sequences held by a sequence of strings.
pub open spec fn views_of(v: Seq<String>) -> Seq<Seq<char>> {
    v.map_values(|s: String| s@)
}

/// The folders searched for samples: the document's folder, then the
/// workspace folders, each only once.
pub fn pcm_search_roots(base_dir: &str, roots: &Vec<String>) -> (r: Vec<String>)
    ensures
        views_of(r@) == distinct_paths(seq![base_dir@] + views_of(roots@)),
{
    let ghost all = seq![base_dir@] + views_of(roots@);
    let mut kept: Vec<String> = Vec::new();
    kept.push(owned(base_dir));
    assert(all.take(1).drop_last() =~= Seq::<Seq<char>>::empty());
    assert(all.take(1).last() == base_dir@);
    assert(distinct_paths(Seq::<Seq<char>>::empty()) =~= Seq::<Seq<char>>::empty());
    assert(!path_seen(Seq::<Seq<char>>::empty(), base_dir@));
    assert(views_of(kept@) =~= distinct_paths(all.take(1)));
    let mut i: usize = 0;
    while i < roots.len()
        invariant
            i <= roots.len(),
            all == seq![base_dir@] + views_of(roots@),
            views_of(kept@) == distinct_paths(all.take(i + 1)),
        decreases roots.len() - i,
    {
        let candidate = &roots[i];
        assert(all.take(i + 2).drop_last() =~= all.take(i + 1));
        assert(all.take(i + 2).last() == candidate@);
        let mut seen = false;
        let mut j: usize = 0;
        while j < kept.len()
            invariant
                j <= kept.len(),
                seen == exists|k: int| 0 <= k < j && paths_equal(#[trigger] views_of(kept@)[k], candidate@),
            decreases kept.len() - j,
        {
            assert(views_of(kept@)[j as int] == kept@[j as int]@);
            if same_path(kept[j].as_str(), candidate.as_str()) {
                seen = true;
            }
            j = j + 1;
        }
        let ghost prev = views_of(kept@);
        if !seen {
            kept.push(candidate.clone());
            assert(views_of(kept@) =~= prev.push(candidate@));
        }
        i = i + 1;
    }
    assert(all.take(roots.len() + 1) =~= all);
    kept
}

/// What the completion of a PCM sample path needs: the text typed inside
/// the string so far, the range it replaces, the closing quote to add, and
/// the document's folder.
#[derive(Clone, Debug)]
pub struct PcmRequest {
    pub prefix: String,
    pub start_col: usize,
    pub col: usize,
    pub line_index: u32,
    pub suffix: String,
    pub base_dir: String,
}

/// Whether `s` begins with `prefix`.
pub open spec fn starts_with(s: Seq<char>, prefix: Seq<char>) -> bool {
    prefix.len() <= s.len() && s.take(prefix.len() as int) == prefix
}

/// The label a file gets, if it is offered: a WAV file whose path relative
/// to the document's folder (with forward slashes) begins with the typed
/// prefix.
pub open spec fn pcm_label(prefix: Seq<char>, base_dir: Seq<char>, file: Seq<char>) -> Option<
    Seq<char>,
> {
    if !wav_path(file) {
        None
    } else {
        match relative_path_of(file, base_dir) {
            Some(rel) => {
                let label = forward_slashes(rel);
                if prefix.len() == 0 || starts_with(label, prefix) {
                    Some(label)
                } else {
                    None
                }
            },
            None => None,
        }
    }
}

/// The labels offered for `files`, in order, each only once.
pub open spec fn pcm_labels(prefix: Seq<char>, base_dir: Seq<char>, files: Seq<Seq<char>>) -> Seq<
    Seq<char>,
>
    decreases files.len(),
{
    if files.len() == 0 {
        seq![]
    } else {
        let labels = pcm_labels(prefix, base_dir, files.drop_last());
        match pcm_label(prefix, base_dir, files.last()) {
            Some(label) => if labels.contains(label) {
                labels
            } else {
                labels.push(label)
            },
            None => labels,
        }
    }
}

/// The item for a sample file: it replaces the typed text with the path and
/// the closing quote.
pub open spec fn pcm_item(
    label: Seq<char>,
    suffix: Seq<char>,
    line_index: u32,
    start_col: usize,
    col: usize,
) -> CompletionView {
    CompletionView {
        label,
        kind: ItemKind::File,
        documentation: None,
        insert_text: Some(label + suffix),
        filter_text: Some(label),
        text_edit: Some(
            EditView {
                range: LineRange { line: line_index, start: start_col as u32, end: col as u32 },
                new_text: label + suffix,
            },
        ),
    }
}

/// The items offered for `files` under `req`.
pub open spec fn pcm_items(
    prefix: Seq<char>,
    base_dir: Seq<char>,
    suffix: Seq<char>,
    line_index: u32,
    start_col: usize,
    col: usize,
    files: Seq<Seq<char>>,
) -> Seq<CompletionView> {
    pcm_labels(prefix, base_dir, files).map_values(
        |label: Seq<char>| pcm_item(label, suffix, line_index, start_col, col),
    )
}

/// Whether `s` begins with `prefix`.
pub fn has_prefix(s: &str, prefix: &str) -> (r: bool)
    ensures
        r == starts_with(s@, prefix@),
{
    let a = char_vec(s);
    let p = char_vec(prefix);
    if p.len() > a.len() {
        return false;
    }
    let mut i: usize = 0;
    while i < p.len()
        invariant
            i <= p.len() <= a.len(),
            a@ == s@,
            p@ == prefix@,
            forall|j: int| 0 <= j < i ==> a@[j] == p@[j],
        decreases p.len() - i,
    {
        if a[i] != p[i] {
            assert(s@.take(prefix@.len() as int)[i as int] != prefix@[i as int]);
            return false;
        }
        i = i + 1;
    }
    assert(s@.take(prefix@.len() as int) =~= prefix@);
    true
}

/// The items for the sample files `files` (in the order the folders were
/// walked): each WAV file whose relative path begins with the typed
/// prefix, once per path.
pub fn pcm_path_items(req: &PcmRequest, files: &Vec<String>) -> (items: Vec<Completion>)
    ensures
        item_views(items@) == pcm_items(
            req.prefix@,
            req.base_dir@,
            req.suffix@,
            req.line_index,
            req.start_col,
            req.col,
            views_of(files@),
        ),
{
    let ghost fs = views_of(files@);
    let prefix_empty = req.prefix.as_str().is_empty();
    let mut labels: Vec<String> = Vec::new();
    let mut items: Vec<Completion> = Vec::new();
    let mut i: usize = 0;
    assert(fs.take(0) =~= Seq::<Seq<char>>::empty());
    while i < files.len()
        invariant
            i <= files.len(),
            fs == views_of(files@),
            prefix_empty == (req.prefix@.len() == 0),
            views_of(labels@) == pcm_labels(req.prefix@, req.base_dir@, fs.take(i as int)),
            item_views(items@) == pcm_labels(req.prefix@, req.base_dir@, fs.take(i as int)).map_values(
                |label: Seq<char>| pcm_item(label, req.suffix@, req.line_index, req.start_col, req.col),
            ),
        decreases files.len() - i,
    {
        let file = files[i].as_str();
        assert(fs.take(i + 1).drop_last() =~= fs.take(i as int));
        assert(fs.take(i + 1).last() == file@);
        let ghost prev_labels = views_of(labels@);
        let ghost prev_items = item_views(items@);
        let candidate: Option<String> = if is_wav(file) {
            match relative_path(file, req.base_dir.as_str()) {
                Some(rel) => {
                    let label = with_forward_slashes(rel.as_str());
                    if prefix_empty || has_prefix(label.as_str(), req.prefix.as_str()) {
                        Some(label)
                    } else {
                        None
                    }
                },
                None => None,
            }
        } else {
            None
        };
        assert(crate::items::opt_view(candidate) == pcm_label(req.prefix@, req.base_dir@, file@));
        if let Some(label) = candidate {
            let mut seen = false;
            let mut j: usize = 0;
            while j < labels.len()
                invariant
                    j <= labels.len(),
                    seen == exists|k: int| 0 <= k < j && #[trigger] views_of(labels@)[k] == label@,
                decreases labels.len() - j,
            {
                assert(views_of(labels@)[j as int] == labels@[j as int]@);
                if crate::text::str_equal(labels[j].as_str(), label.as_str()) {
                    seen = true;
                }
                j = j + 1;
            }
            assert(seen == views_of(labels@).contains(label@));
            if !seen {
                let mut insert_text = label.clone();
                insert_text.append(req.suffix.as_str());
                let edit = TextEdit {
                    range: LineRange {
                        line: req.line_index,
                        start: #[verifier::truncate] (req.start_col as u32),
                        end: #[verifier::truncate] (req.col as u32),
                    },
                    new_text: insert_text.clone(),
                };
                let item = Completion {
                    label: label.clone(),
                    kind: ItemKind::File,
                    documentation: None,
                    insert_text: Some(insert_text),
                    filter_text: Some(label.clone()),
                    text_edit: Some(edit),
                };
                assert(item@ == pcm_item(label@, req.suffix@, req.line_index, req.start_col, req.col));
                let ghost label_view = label@;
                labels.push(label);
                items.push(item);
                assert(views_of(labels@) =~= prev_labels.push(label_view));
                assert(item_views(items@) =~= prev_items.push(item@));
            }
        }
        assert(pcm_labels(req.prefix@, req.base_dir@, fs.take(i + 1)) == match pcm_label(
            req.prefix@,
            req.base_dir@,
            file@,
        ) {
            Some(l) => if prev_labels.contains(l) {
                prev_labels
            } else {
                prev_labels.push(l)
            },
            None => prev_labels,
        });
        i = i + 1;
        assert(views_of(labels@) == pcm_labels(req.prefix@, req.base_dir@, fs.take(i as int)));
        assert(item_views(items@) =~= pcm_labels(req.prefix@, req.base_dir@, fs.take(i as int)).map_values(
            |label: Seq<char>| pcm_item(label, req.suffix@, req.line_index, req.start_col, req.col),
        ));
    }
    assert(fs.take(files.len() as int) =~= fs);
    items
}

/// Each label offered for sample files is offered once, uses forward
/// slashes only, names a WAV file, and begins with the typed prefix.
pub proof fn law_pcm_labels(prefix: Seq<char>, base_dir: Seq<char>, files: Seq<Seq<char>>)
    ensures
        pcm_labels(prefix, base_dir, files).no_duplicates(),
        forall|i: int|
            0 <= i < pcm_labels(prefix, base_dir, files).len() ==> {
                let label = #[trigger] pcm_labels(prefix, base_dir, files)[i];
                &&& !label.contains('\\')
                &&& (prefix.len() == 0 || starts_with(label, prefix))
                &&& exists|j: int| 0 <= j < files.len() && pcm_label(prefix, base_dir, #[trigger] files[j]) == Some(label)
            },
    decreases files.len(),
{
    if files.len() > 0 {
        let prev_files = files.drop_last();
        law_pcm_labels(prefix, base_dir, prev_files);
        let labels = pcm_labels(prefix, base_dir, prev_files);
        let out = pcm_labels(prefix, base_dir, files);
        assert forall|i: int| 0 <= i < labels.len() implies exists|j: int|
            0 <= j < files.len() && pcm_label(prefix, base_dir, #[trigger] files[j]) == Some(
                #[trigger] labels[i],
            ) by {
            let j = choose|j: int|
                0 <= j < prev_files.len() && pcm_label(prefix, base_dir, #[trigger] prev_files[j])
                    == Some(labels[i]);
            assert(files[j] == prev_files[j]);
        }
        if let Some(label) = pcm_label(prefix, base_dir, files.last()) {
            if !labels.contains(label) {
                assert(!label.contains('\\')) by {
                    let rel = relative_path_of(files.last(), base_dir)->0;
                    assert(label == forward_slashes(rel));
                    if label.contains('\\') {
                        let k = choose|k: int| 0 <= k < label.len() && label[k] == '\\';
                        assert(label[k] == (if rel[k] == '\\' { '/' } else { rel[k] }));
                    }
                }
                assert forall|i: int| 0 <= i < out.len() implies {
                    let l = #[trigger] out[i];
                    &&& !l.contains('\\')
                    &&& (prefix.len() == 0 || starts_with(l, prefix))
                    &&& exists|j: int| 0 <= j < files.len() && pcm_label(prefix, base_dir, #[trigger] files[j]) == Some(l)
                } by {
                    if i < labels.len() {
                        assert(out[i] == labels[i]);
                    } else {
                        assert(out[i] == label);
                        assert(files[files.len() - 1] == files.last());
                    }
                }
                assert(out.no_duplicates()) by {
                    assert forall|a: int, b: int|
                        0 <= a < out.len() && 0 <= b < out.len() && a != b implies out[a]
                        != out[b] by {
                        if a < labels.len() && b < labels.len() {
                            assert(out[a] == labels[a] && out[b] == labels[b]);
                        } else if a < labels.len() {
                            assert(out[a] == labels[a]);
                            assert(labels.contains(labels[a]));
                        } else {
                            assert(out[b] == labels[b]);
                            assert(labels.contains(labels[b]));
                        }
                    }
                }
            }
        }
    }
}

/// The folders searched begin with the document's folder, and no two of
/// them are equal paths.
pub proof fn law_search_roots_distinct(base_dir: Seq<char>, roots: Seq<Seq<char>>)
    ensures
        distinct_paths(seq![base_dir] + roots).len() > 0,
        distinct_paths(seq![base_dir] + roots)[0] == base_dir,
        forall|i: int, j: int|
            0 <= i < j < distinct_paths(seq![base_dir] + roots).len() ==> !paths_equal(
                #[trigger] distinct_paths(seq![base_dir] + roots)[i],
                #[trigger] distinct_paths(seq![base_dir] + roots)[j],
            ),
{
    lemma_distinct_paths(seq![base_dir] + roots);
}

proof fn lemma_distinct_paths(paths: Seq<Seq<char>>)
    ensures
        paths.len() > 0 ==> distinct_paths(paths).len() > 0 && distinct_paths(paths)[0]
            == paths[0],
        forall|i: int, j: int|
            0 <= i < j < distinct_paths(paths).len() ==> !paths_equal(
                #[trigger] distinct_paths(paths)[i],
                #[trigger] distinct_paths(paths)[j],
            ),
    decreases paths.len(),
{
    if paths.len() > 0 {
        let prev = paths.drop_last();
        lemma_distinct_paths(prev);
        let kept = distinct_paths(prev);
        if prev.len() == 0 {
            assert(kept =~= Seq::<Seq<char>>::empty());
            assert(!path_seen(kept, paths.last()));
            assert(paths.last() == paths[0]);
        } else {
            assert(prev[0] == paths[0]);
        }
        if !path_seen(kept, paths.last()) {
            let out = kept.push(paths.last());
            assert forall|i: int, j: int| 0 <= i < j < out.len() implies !paths_equal(
                #[trigger] out[i],
                #[trigger] out[j],
            ) by {
                if j < kept.len() {
                    assert(out[i] == kept[i] && out[j] == kept[j]);
                } else {
                    assert(out[i] == kept[i]);
                    assert(out[j] == paths.last());
                    if paths_equal(kept[i], paths.last()) {
                        assert(path_seen(kept, paths.last()));
                    }
                }
            }
        }
    }
}

/// Every path of the input is kept, or stands for one kept before it; and
/// every path kept is one of the input.
proof fn lemma_distinct_paths_cover(paths: Seq<Seq<char>>)
    ensures
        forall|i: int|
            0 <= i < paths.len() ==> exists|j: int|
                0 <= j < distinct_paths(paths).len() && (distinct_paths(paths)[j] == #[trigger] paths[i]
                    || paths_equal(distinct_paths(paths)[j], paths[i])),
        forall|j: int|
            0 <= j < distinct_paths(paths).len() ==> exists|i: int|
                0 <= i < paths.len() && #[trigger] distinct_paths(paths)[j] == paths[i],
    decreases paths.len(),
{
    if paths.len() > 0 {
        let prev = paths.drop_last();
        lemma_distinct_paths_cover(prev);
        let kept = distinct_paths(prev);
        let out = distinct_paths(paths);
        let last = paths.last();
        assert forall|i: int| 0 <= i < paths.len() implies exists|j: int|
            0 <= j < out.len() && (out[j] == #[trigger] paths[i] || paths_equal(out[j], paths[i])) by {
            if i < paths.len() - 1 {
                assert(paths[i] == prev[i]);
                let j = choose|j: int|
                    0 <= j < kept.len() && (kept[j] == #[trigger] prev[i] || paths_equal(kept[j], prev[i]));
                if !path_seen(kept, last) {
                    assert(out[j] == kept[j]);
                }
            } else {
                if path_seen(kept, last) {
                    let j = choose|j: int| 0 <= j < kept.len() && paths_equal(#[trigger] kept[j], last);
                    assert(out[j] == kept[j]);
                } else {
                    assert(out[kept.len() as int] == last);
                }
            }
        }
        assert forall|j: int| 0 <= j < out.len() implies exists|i: int|
            0 <= i < paths.len() && #[trigger] out[j] == paths[i] by {
            if j < kept.len() {
                assert(out[j] == kept[j]);
                let i = choose|i: int| 0 <= i < prev.len() && #[trigger] kept[j] == prev[i];
                assert(prev[i] == paths[i]);
            } else {
                assert(out[j] == paths[paths.len() - 1]);
            }
        }
    }
}

/// Every workspace folder is searched for samples, unless an equal path is
/// searched already; and only the document's folder and the workspace
/// folders are searched.
pub proof fn law_search_roots_cover(base_dir: Seq<char>, roots: Seq<Seq<char>>)
    ensures
        forall|i: int|
            0 <= i < roots.len() ==> exists|j: int|
                0 <= j < distinct_paths(seq![base_dir] + roots).len() && (distinct_paths(
                    seq![base_dir] + roots,
                )[j] == #[trigger] roots[i] || paths_equal(
                    distinct_paths(seq![base_dir] + roots)[j],
                    roots[i],
                )),
        forall|j: int|
            0 <= j < distinct_paths(seq![base_dir] + roots).len() ==> (#[trigger] distinct_paths(
                seq![base_dir] + roots,
            )[j] == base_dir || roots.contains(distinct_paths(seq![base_dir] + roots)[j])),
{
    let all = seq![base_dir] + roots;
    lemma_distinct_paths_cover(all);
    let out = distinct_paths(all);
    assert forall|i: int| 0 <= i < roots.len() implies exists|j: int|
        0 <= j < out.len() && (out[j] == #[trigger] roots[i] || paths_equal(out[j], roots[i])) by {
        assert(all[i + 1] == roots[i]);
    }
    assert forall|j: int| 0 <= j < out.len() implies (#[trigger] out[j] == base_dir || roots.contains(
        out[j],
    )) by {
        let i = choose|i: int| 0 <= i < all.len() && #[trigger] out[j] == all[i];
        if i > 0 {
            assert(all[i] == roots[i - 1]);
        }
    }
}

} // verus!
