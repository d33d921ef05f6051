//! Completion items: their kinds and documentation, and the fixed lists the
//! server offers (meta keywords, platforms, instrument types, PCM options,
//! MML commands).

use vstd::prelude::*;
use crate::text::{char_vec, str_equal, string_from_chars};
use crate::context::{meta_prefix_start_col, meta_start, meta_value_start, value_start};

verus! {

/// The kind of a completion item, as the editor shows it.
#[derive(Clone, Copy, Debug, PartialEq, Eq, Structural)]
pub enum ItemKind {
    Keyword,
    TypeParameter,
    Property,
    File,
}

/// A range on one line, from `start` to `end` (byte columns).
#[derive(Clone, Copy, Debug, PartialEq, Eq, Structural)]
pub struct LineRange {
    pub line: u32,
    pub start: u32,
    pub end: u32,
}

/// Text that replaces a range when the item is accepted.
#[derive(Clone, Debug)]
pub struct TextEdit {
    pub range: LineRange,
    pub new_text: String,
}

/// One completion item.
#[derive(Clone, Debug)]
pub struct Completion {
    pub label: String,
    pub kind: ItemKind,
    pub documentation: Option<String>,
    pub insert_text: Option<String>,
    pub filter_text: Option<String>,
    pub text_edit: Option<TextEdit>,
}

/// The mathematical form of a [`TextEdit`].
pub struct EditView {
    pub range: LineRange,
    pub new_text: Seq<char>,
}

/// The mathematical form of a [`Completion`].
pub struct CompletionView {
    pub label: Seq<char>,
    pub kind: ItemKind,
    pub documentation: Option<Seq<char>>,
    pub insert_text: Option<Seq<char>>,
    pub filter_text: Option<Seq<char>>,
    pub text_edit: Option<EditView>,
}

/// The characters of an optional string.
pub open spec fn opt_view(s: Option<String>) -> Option<Seq<char>> {
    match s {
        Some(t) => Some(t@),
        None => None,
    }
}

impl View for TextEdit {
    type V = EditView;

    open spec fn view(&self) -> EditView {
        EditView { range: self.range, new_text: self.new_text@ }
    }
}

impl View for Completion {
    type V = CompletionView;

    open spec fn view(&self) -> CompletionView {
        CompletionView {
            label: self.label@,
            kind: self.kind,
            documentation: opt_view(self.documentation),
            insert_text: opt_view(self.insert_text),
            filter_text: opt_view(self.filter_text),
            text_edit: match self.text_edit {
                Some(e) => Some(e@),
                None => None,
            },
        }
    }
}

/// The views of a sequence of items.
pub open spec fn item_views(v: Seq<Completion>) -> Seq<CompletionView> {
    v.map_values(|c: Completion| c@)
}

/// An item that carries only a label, a kind and documentation.
pub open spec fn plain_item(label: Seq<char>, kind: ItemKind, doc: Option<Seq<char>>) -> CompletionView {
    CompletionView {
        label,
        kind,
        documentation: doc,
        insert_text: None,
        filter_text: None,
        text_edit: None,
    }
}

/// A string with the characters of `s`.
pub fn owned(s: &str) -> (r: String)
    ensures
        r@ == s@,
{
    s.to_owned()
}

/// An item with a label, a kind and optional documentation.
pub fn documented_item(label: &str, kind: ItemKind, doc: Option<&str>) -> (item: Completion)
    ensures
        item@ == plain_item(
            label@,
            kind,
            match doc {
                Some(d) => Some(d@),
                None => None,
            },
        ),
{
    let documentation = match doc {
        Some(text) => Some(owned(text)),
        None => None,
    };
    Completion {
        label: owned(label),
        kind,
        documentation,
        insert_text: None,
        filter_text: None,
        text_edit: None,
    }
}

/// The views of a sequence of string slices.
pub open spec fn str_views(v: Seq<&str>) -> Seq<Seq<char>> {
    v.map_values(|s: &str| s@)
}

/// The metadata keywords, in the order they are offered.
pub open spec fn meta_keywords() -> Seq<Seq<char>> {
    seq![
        "#title"@,
        "#composer"@,
        "#author"@,
        "#date"@,
        "#comment"@,
        "#platform"@,
        "#option"@,
        "#game"@,
        "#composerj"@,
        "#programmer"@,
        "#timesig"@,
        "#group"@,
    ]
}

/// The metadata keywords.
pub fn meta_keyword_list() -> (v: Vec<&'static str>)
    ensures
        str_views(v@) == meta_keywords(),
{
    let mut v: Vec<&'static str> = Vec::new();
    v.push("#title");
    v.push("#composer");
    v.push("#author");
    v.push("#date");
    v.push("#comment");
    v.push("#platform");
    v.push("#option");
    v.push("#game");
    v.push("#composerj");
    v.push("#programmer");
    v.push("#timesig");
    v.push("#group");
    assert(str_views(v@) =~= meta_keywords());
    v
}

/// The documentation of a metadata keyword.
pub open spec fn meta_doc(label: Seq<char>) -> Option<Seq<char>> {
    if label == "#title"@ || label == "#composer"@ || label == "#author"@ || label == "#date"@
        || label == "#comment"@ {
        Some("Song metadata."@)
    } else if label == "#platform"@ {
        Some("Sets the MML target platform."@)
    } else if label == "#option"@ {
        Some("Sets platform options."@)
    } else {
        None
    }
}

/// The item for a metadata keyword.
pub fn meta_item(label: &str) -> (item: Completion)
    ensures
        item@ == plain_item(label@, ItemKind::Keyword, meta_doc(label@)),
{
    let doc = if str_equal(label, "#title") || str_equal(label, "#composer") || str_equal(
        label,
        "#author",
    ) || str_equal(label, "#date") || str_equal(label, "#comment") {
        Some("Song metadata.")
    } else if str_equal(label, "#platform") {
        Some("Sets the MML target platform.")
    } else if str_equal(label, "#option") {
        Some("Sets platform options.")
    } else {
        None
    };
    documented_item(label, ItemKind::Keyword, doc)
}

/// The platform values of `#platform`.
pub open spec fn platform_values() -> Seq<Seq<char>> {
    seq!["megadrive"@, "mdsdrv"@]
}

/// The platform values of `#platform`.
pub fn platform_value_list() -> (v: Vec<&'static str>)
    ensures
        str_views(v@) == platform_values(),
{
    let mut v: Vec<&'static str> = Vec::new();
    v.push("megadrive");
    v.push("mdsdrv");
    assert(str_views(v@) =~= platform_values());
    v
}

/// The documentation of a platform value.
pub open spec fn platform_doc(label: Seq<char>) -> Option<Seq<char>> {
    if label == "megadrive"@ {
        Some("Use VGM datablocks and DAC stream commands to play back samples."@)
    } else if label == "mdsdrv"@ {
        Some(
            "Simulate MDSDRV's PCM driver (2-3 channel mixing). Sample rate is fixed to ~2 kHz steps."@,
        )
    } else {
        None
    }
}

/// The item for a platform value.
pub fn platform_item(label: &str) -> (item: Completion)
    ensures
        item@ == plain_item(label@, ItemKind::Keyword, platform_doc(label@)),
{
    let doc = if str_equal(label, "megadrive") {
        Some("Use VGM datablocks and DAC stream commands to play back samples.")
    } else if str_equal(label, "mdsdrv") {
        Some(
            "Simulate MDSDRV's PCM driver (2-3 channel mixing). Sample rate is fixed to ~2 kHz steps.",
        )
    } else {
        None
    };
    documented_item(label, ItemKind::Keyword, doc)
}

/// The instrument types of an `@N` definition.
pub open spec fn instrument_types() -> Seq<Seq<char>> {
    seq!["pcm"@, "fm"@, "psg"@, "2op"@]
}

/// The instrument types of an `@N` definition.
pub fn instrument_type_list() -> (v: Vec<&'static str>)
    ensures
        str_views(v@) == instrument_types(),
{
    let mut v: Vec<&'static str> = Vec::new();
    v.push("pcm");
    v.push("fm");
    v.push("psg");
    v.push("2op");
    assert(str_views(v@) =~= instrument_types());
    v
}

/// The documentation of an instrument type.
pub open spec fn instrument_doc(label: Seq<char>) -> Option<Seq<char>> {
    if label == "fm"@ {
        Some("FM instruments are defined as below."@)
    } else if label == "2op"@ {
        Some(
            "Instrument type `2op` is used to duplicate FM instruments, modifying the operators' multiply ratios and setting a transpose."@,
        )
    } else if label == "psg"@ {
        Some("PSG instruments (envelopes) are defined as a sequence of values."@)
    } else if label == "pcm"@ {
        Some(
            "PCM samples are defined as instruments. The first parameter is the path to the sample (relative to that of the MML file)."@,
        )
    } else {
        None
    }
}

/// The item for an instrument type.
pub fn instrument_item(label: &str) -> (item: Completion)
    ensures
        item@ == plain_item(label@, ItemKind::TypeParameter, instrument_doc(label@)),
{
    let doc = if str_equal(label, "fm") {
        Some("FM instruments are defined as below.")
    } else if str_equal(label, "2op") {
        Some(
            "Instrument type `2op` is used to duplicate FM instruments, modifying the operators' multiply ratios and setting a transpose.",
        )
    } else if str_equal(label, "psg") {
        Some("PSG instruments (envelopes) are defined as a sequence of values.")
    } else if str_equal(label, "pcm") {
        Some(
            "PCM samples are defined as instruments. The first parameter is the path to the sample (relative to that of the MML file).",
        )
    } else {
        None
    };
    documented_item(label, ItemKind::TypeParameter, doc)
}

/// The options of a PCM instrument definition.
pub open spec fn rate_offset_keywords() -> Seq<Seq<char>> {
    seq!["rate="@, "offset="@]
}

/// The options of a PCM instrument definition.
pub fn rate_offset_keyword_list() -> (v: Vec<&'static str>)
    ensures
        str_views(v@) == rate_offset_keywords(),
{
    let mut v: Vec<&'static str> = Vec::new();
    v.push("rate=");
    v.push("offset=");
    assert(str_views(v@) =~= rate_offset_keywords());
    v
}

/// The documentation of a PCM option.
pub open spec fn rate_offset_doc(label: Seq<char>) -> Option<Seq<char>> {
    if label == "rate="@ {
        Some("Override the sample rate."@)
    } else if label == "offset="@ {
        Some("Adjust the start position."@)
    } else {
        None
    }
}

/// The item for a PCM option.
pub fn rate_offset_item(label: &str) -> (item: Completion)
    ensures
        item@ == plain_item(label@, ItemKind::Property, rate_offset_doc(label@)),
{
    let doc = if str_equal(label, "rate=") {
        Some("Override the sample rate.")
    } else if str_equal(label, "offset=") {
        Some("Adjust the start position.")
    } else {
        None
    };
    documented_item(label, ItemKind::Property, doc)
}

/// The MML commands offered on track lines.
pub open spec fn command_keywords() -> Seq<Seq<char>> {
    seq![
        "o"@,
        "l"@,
        "Q"@,
        "q"@,
        "C"@,
        "R"@,
        "L"@,
        "s"@,
        "t"@,
        "T"@,
        "v"@,
        "V"@,
        "p"@,
        "k"@,
        "K"@,
        "E"@,
        "M"@,
        "P"@,
        "G"@,
        "D"@,
        "r"@,
        "^"@,
        "&"@,
    ]
}

/// The MML commands offered on track lines.
pub fn command_keyword_list() -> (v: Vec<&'static str>)
    ensures
        str_views(v@) == command_keywords(),
{
    let mut v: Vec<&'static str> = Vec::new();
    v.push("o");
    v.push("l");
    v.push("Q");
    v.push("q");
    v.push("C");
    v.push("R");
    v.push("L");
    v.push("s");
    v.push("t");
    v.push("T");
    v.push("v");
    v.push("V");
    v.push("p");
    v.push("k");
    v.push("K");
    v.push("E");
    v.push("M");
    v.push("P");
    v.push("G");
    v.push("D");
    v.push("r");
    v.push("^");
    v.push("&");
    assert(str_views(v@) =~= command_keywords());
    v
}

/// The documentation of an MML command.
pub open spec fn command_doc(label: Seq<char>) -> Option<Seq<char>> {
    if label == "o"@ {
        Some("Set octave."@)
    } else if label == "l"@ {
        Some(
            "Set default duration, used if not specified by notes, rests, `R` or `~` commands."@,
        )
    } else if label == "Q"@ {
        Some("Quantize. Used to set articulation. Note length is param/8."@)
    } else if label == "q"@ {
        Some("Set early release. Used to set articulation."@)
    } else if label == "C"@ {
        Some("Set the length of a measure (or a whole note) in ticks."@)
    } else if label == "R"@ {
        Some("Reverse rest. This subtracts the value from the previous note or rest."@)
    } else if label == "L"@ {
        Some(
            "Set loop point (segno). If this is present, playback resumes at this point when the end of the track is reached."@,
        )
    } else if label == "s"@ {
        Some(
            "Set shuffle. The specified number of ticks will be added to the the next note, rest or tie, then subtracted from the next."@,
        )
    } else if label == "t"@ {
        Some("Set tempo in BPM."@)
    } else if label == "T"@ {
        Some("Set tempo using the platform's native timer values."@)
    } else if label == "v"@ {
        Some("Set volume."@)
    } else if label == "V"@ {
        Some("Set volume (fine), or modify volume (fine) depending on parameter range."@)
    } else if label == "p"@ {
        Some("Set panning."@)
    } else if label == "k"@ {
        Some("Set transpose. Default behavior is the same as the `_` command."@)
    } else if label == "K"@ {
        Some("Set detune."@)
    } else if label == "E"@ {
        Some("Set envelope. 0 to disable."@)
    } else if label == "M"@ {
        Some("Set pitch envelope. 0 to disable."@)
    } else if label == "P"@ {
        Some("Set pan envelope or macro track. 0 to disable."@)
    } else if label == "G"@ {
        Some("Set portamento. 0 to disable."@)
    } else if label == "D"@ {
        Some("Set drum mode. 0 disables drum mode."@)
    } else if label == "r"@ {
        Some("Rest. Optionally set duration after the rest."@)
    } else if label == "^"@ {
        Some("Tie. Extends duration of previous note."@)
    } else if label == "&"@ {
        Some("Slur. Used to connect two notes (legato)."@)
    } else {
        None
    }
}

/// The item for an MML command.
pub fn command_item(label: &str) -> (item: Completion)
    ensures
        item@ == plain_item(label@, ItemKind::Keyword, command_doc(label@)),
{
    let doc = if str_equal(label, "o") {
        Some("Set octave.")
    } else if str_equal(label, "l") {
        Some("Set default duration, used if not specified by notes, rests, `R` or `~` commands.")
    } else if str_equal(label, "Q") {
        Some("Quantize. Used to set articulation. Note length is param/8.")
    } else if str_equal(label, "q") {
        Some("Set early release. Used to set articulation.")
    } else if str_equal(label, "C") {
        Some("Set the length of a measure (or a whole note) in ticks.")
    } else if str_equal(label, "R") {
        Some("Reverse rest. This subtracts the value from the previous note or rest.")
    } else if str_equal(label, "L") {
        Some(
            "Set loop point (segno). If this is present, playback resumes at this point when the end of the track is reached.",
        )
    } else if str_equal(label, "s") {
        Some(
            "Set shuffle. The specified number of ticks will be added to the the next note, rest or tie, then subtracted from the next.",
        )
    } else if str_equal(label, "t") {
        Some("Set tempo in BPM.")
    } else if str_equal(label, "T") {
        Some("Set tempo using the platform's native timer values.")
    } else if str_equal(label, "v") {
        Some("Set volume.")
    } else if str_equal(label, "V") {
        Some("Set volume (fine), or modify volume (fine) depending on parameter range.")
    } else if str_equal(label, "p") {
        Some("Set panning.")
    } else if str_equal(label, "k") {
        Some("Set transpose. Default behavior is the same as the `_` command.")
    } else if str_equal(label, "K") {
        Some("Set detune.")
    } else if str_equal(label, "E") {
        Some("Set envelope. 0 to disable.")
    } else if str_equal(label, "M") {
        Some("Set pitch envelope. 0 to disable.")
    } else if str_equal(label, "P") {
        Some("Set pan envelope or macro track. 0 to disable.")
    } else if str_equal(label, "G") {
        Some("Set portamento. 0 to disable.")
    } else if str_equal(label, "D") {
        Some("Set drum mode. 0 disables drum mode.")
    } else if str_equal(label, "r") {
        Some("Rest. Optionally set duration after the rest.")
    } else if str_equal(label, "^") {
        Some("Tie. Extends duration of previous note.")
    } else if str_equal(label, "&") {
        Some("Slur. Used to connect two notes (legato).")
    } else {
        None
    };
    documented_item(label, ItemKind::Keyword, doc)
}

/// A fixed list of items.
#[derive(Clone, Copy, Debug, PartialEq, Eq, Structural)]
pub enum ItemList {
    Platforms,
    InstrumentTypes,
    RateOffset,
    Commands,
}

/// The labels of a fixed list.
pub open spec fn list_labels(list: ItemList) -> Seq<Seq<char>> {
    match list {
        ItemList::Platforms => platform_values(),
        ItemList::InstrumentTypes => instrument_types(),
        ItemList::RateOffset => rate_offset_keywords(),
        ItemList::Commands => command_keywords(),
    }
}

/// The item a fixed list offers for `label`.
pub open spec fn list_item(list: ItemList, label: Seq<char>) -> CompletionView {
    match list {
        ItemList::Platforms => plain_item(label, ItemKind::Keyword, platform_doc(label)),
        ItemList::InstrumentTypes => plain_item(
            label,
            ItemKind::TypeParameter,
            instrument_doc(label),
        ),
        ItemList::RateOffset => plain_item(label, ItemKind::Property, rate_offset_doc(label)),
        ItemList::Commands => plain_item(label, ItemKind::Keyword, command_doc(label)),
    }
}

/// The items of a fixed list, in order.
pub open spec fn list_items(list: ItemList) -> Seq<CompletionView> {
    list_labels(list).map_values(|label: Seq<char>| list_item(list, label))
}

/// All items of a fixed list, in order.
pub fn fixed_items(list: ItemList) -> (items: Vec<Completion>)
    ensures
        item_views(items@) == list_items(list),
{
    let labels = match list {
        ItemList::Platforms => platform_value_list(),
        ItemList::InstrumentTypes => instrument_type_list(),
        ItemList::RateOffset => rate_offset_keyword_list(),
        ItemList::Commands => command_keyword_list(),
    };
    let mut items: Vec<Completion> = Vec::new();
    for i in 0..labels.len()
        invariant
            str_views(labels@) == list_labels(list),
            item_views(items@) == list_items(list).take(i as int),
    {
        let label = labels[i];
        assert(label@ == list_labels(list)[i as int]);
        let item = match list {
            ItemList::Platforms => platform_item(label),
            ItemList::InstrumentTypes => instrument_item(label),
            ItemList::RateOffset => rate_offset_item(label),
            ItemList::Commands => command_item(label),
        };
        let ghost prev = item_views(items@);
        items.push(item);
        assert(item_views(items@) =~= list_items(list).take(i + 1)) by {
            assert(item_views(items@) =~= prev.push(item@));
        }
    }
    assert(list_items(list).take(labels.len() as int) =~= list_items(list));
    items
}

/// A keyword without its leading `#`, as `strip_prefix('#')` leaves it.
pub open spec fn strip_hash(kw: Seq<char>) -> Seq<char> {
    if kw.len() > 0 && kw[0] == '#' {
        kw.drop_first()
    } else {
        kw
    }
}

/// The item for a metadata keyword that replaces `range` with the keyword's
/// name.
pub open spec fn meta_keyword_item(kw: Seq<char>, range: LineRange) -> CompletionView {
    CompletionView {
        label: kw,
        kind: ItemKind::Keyword,
        documentation: meta_doc(kw),
        insert_text: Some(strip_hash(kw)),
        filter_text: Some(kw),
        text_edit: Some(EditView { range, new_text: strip_hash(kw) }),
    }
}

/// The range a metadata keyword replaces: from just past the last `#`
/// before the cursor to the cursor.
pub open spec fn meta_range(line: Seq<char>, col: usize, line_index: u32) -> LineRange {
    LineRange { line: line_index, start: meta_start(line, col), end: col as u32 }
}

/// The metadata keyword items at the cursor.
pub open spec fn meta_items(line: Seq<char>, col: usize, line_index: u32) -> Seq<CompletionView> {
    meta_keywords().map_values(
        |kw: Seq<char>| meta_keyword_item(kw, meta_range(line, col, line_index)),
    )
}

/// `kw.strip_prefix('#').unwrap_or(kw)`.
pub fn without_hash(kw: &str) -> (r: String)
    ensures
        r@ == strip_hash(kw@),
{
    let chars = char_vec(kw);
    if chars.len() > 0 && chars[0] == '#' {
        let r = string_from_chars(&chars, 1, chars.len());
        assert(r@ =~= kw@.drop_first());
        r
    } else {
        owned(kw)
    }
}

/// The metadata keyword items, each replacing the text typed after the
/// last `#` before the cursor.
pub fn meta_completion_items(line: &str, col: usize, line_index: u32) -> (items: Vec<Completion>)
    ensures
        item_views(items@) == meta_items(line@, col, line_index),
{
    let start_col = meta_prefix_start_col(line, col);
    let range = LineRange { line: line_index, start: start_col, end: #[verifier::truncate] (col as u32) };
    let keywords = meta_keyword_list();
    let mut items: Vec<Completion> = Vec::new();
    for i in 0..keywords.len()
        invariant
            str_views(keywords@) == meta_keywords(),
            range == meta_range(line@, col, line_index),
            item_views(items@) == meta_items(line@, col, line_index).take(i as int),
    {
        let kw = keywords[i];
        assert(kw@ == meta_keywords()[i as int]);
        let insert = without_hash(kw);
        let mut item = meta_item(kw);
        let edit = TextEdit { range, new_text: insert.clone() };
        item.text_edit = Some(edit);
        item.insert_text = Some(insert);
        item.filter_text = Some(owned(kw));
        let ghost prev = item_views(items@);
        assert(item@ == meta_keyword_item(kw@, range));
        items.push(item);
        assert(item_views(items@) =~= meta_items(line@, col, line_index).take(i + 1)) by {
            assert(item_views(items@) =~= prev.push(item@));
        }
    }
    assert(meta_items(line@, col, line_index).take(keywords.len() as int) =~= meta_items(
        line@,
        col,
        line_index,
    ));
    items
}

/// The item for a platform value that replaces `range` (the value being
/// typed) with the value.
pub open spec fn platform_value_item(label: Seq<char>, range: LineRange) -> CompletionView {
    CompletionView {
        label,
        kind: ItemKind::Keyword,
        documentation: platform_doc(label),
        insert_text: Some(label),
        filter_text: None,
        text_edit: Some(EditView { range, new_text: label }),
    }
}

/// The range a meta value replaces: from the start of the value being typed
/// to the cursor.
pub open spec fn value_range(line: Seq<char>, col: usize, line_index: u32) -> LineRange {
    LineRange { line: line_index, start: value_start(line, col), end: col as u32 }
}

/// The platform value items at the cursor.
pub open spec fn platform_items(line: Seq<char>, col: usize, line_index: u32) -> Seq<
    CompletionView,
> {
    platform_values().map_values(
        |label: Seq<char>| platform_value_item(label, value_range(line, col, line_index)),
    )
}

/// The platform value items, each replacing the value typed before the
/// cursor.
pub fn platform_value_items(line: &str, col: usize, line_index: u32) -> (items: Vec<Completion>)
    ensures
        item_views(items@) == platform_items(line@, col, line_index),
{
    let start_col = meta_value_start(line, col);
    let range = LineRange { line: line_index, start: start_col, end: #[verifier::truncate] (col as u32) };
    let values = platform_value_list();
    let mut items: Vec<Completion> = Vec::new();
    for i in 0..values.len()
        invariant
            str_views(values@) == platform_values(),
            range == value_range(line@, col, line_index),
            item_views(items@) == platform_items(line@, col, line_index).take(i as int),
    {
        let value = values[i];
        assert(value@ == platform_values()[i as int]);
        let mut item = platform_item(value);
        item.insert_text = Some(owned(value));
        item.text_edit = Some(TextEdit { range, new_text: owned(value) });
        let ghost prev = item_views(items@);
        assert(item@ == platform_value_item(value@, range));
        items.push(item);
        assert(item_views(items@) =~= platform_items(line@, col, line_index).take(i + 1)) by {
            assert(item_views(items@) =~= prev.push(item@));
        }
    }
    assert(platform_items(line@, col, line_index).take(values.len() as int) =~= platform_items(
        line@,
        col,
        line_index,
    ));
    items
}

/// The MML commands of ctrmml, in the order they are offered.
pub open spec fn ctrmml_commands() -> Seq<Seq<char>> {
    seq!["o"@, "l"@, "Q"@, "q"@, "C"@, "R"@, "L"@, "s"@, "t"@, "T"@, "v"@, "V"@, "p"@, "k"@, "K"@, "E"@, "M"@, "P"@, "G"@, "D"@, "r"@, "^"@, "&"@]
}

/// The metadata keywords of ctrmml, in the order they are offered.
pub open spec fn ctrmml_meta_keywords() -> Seq<Seq<char>> {
    seq!["#title"@, "#composer"@, "#author"@, "#date"@, "#comment"@, "#platform"@, "#option"@, "#game"@, "#composerj"@, "#programmer"@, "#timesig"@, "#group"@]
}

/// The commands offered on track lines are the ctrmml commands, each once,
/// each with its documentation: a label has documentation exactly when it
/// is offered.
pub proof fn law_commands_offered_once()
    ensures
        list_labels(ItemList::Commands) == ctrmml_commands(),
        list_labels(ItemList::Commands).no_duplicates(),
        forall|i: int|
            0 <= i < list_items(ItemList::Commands).len() ==> {
                let item = #[trigger] list_items(ItemList::Commands)[i];
                &&& item.label == ctrmml_commands()[i]
                &&& item.kind == ItemKind::Keyword
                &&& item.documentation is Some
            },
        forall|label: Seq<char>|
            #[trigger] command_doc(label) is Some <==> list_labels(ItemList::Commands).contains(
                label,
            ),
{
    reveal_strlit("o");
    reveal_strlit("l");
    reveal_strlit("Q");
    reveal_strlit("q");
    reveal_strlit("C");
    reveal_strlit("R");
    reveal_strlit("L");
    reveal_strlit("s");
    reveal_strlit("t");
    reveal_strlit("T");
    reveal_strlit("v");
    reveal_strlit("V");
    reveal_strlit("p");
    reveal_strlit("k");
    reveal_strlit("K");
    reveal_strlit("E");
    reveal_strlit("M");
    reveal_strlit("P");
    reveal_strlit("G");
    reveal_strlit("D");
    reveal_strlit("r");
    reveal_strlit("^");
    reveal_strlit("&");
    let ks = command_keywords();
    assert(ks =~= ctrmml_commands());
    assert forall|i: int, j: int| 0 <= i < ks.len() && 0 <= j < ks.len() && i != j implies ks[i]
        != ks[j] by {
        assert(ks[i].len() == 1 && ks[j].len() == 1);
        assert(ks[i][0] != ks[j][0]);
    }
    assert forall|label: Seq<char>| #[trigger] command_doc(label) is Some implies ks.contains(label) by {
        if label == "o"@ { assert(ks[0] == label); }
        if label == "l"@ { assert(ks[1] == label); }
        if label == "Q"@ { assert(ks[2] == label); }
        if label == "q"@ { assert(ks[3] == label); }
        if label == "C"@ { assert(ks[4] == label); }
        if label == "R"@ { assert(ks[5] == label); }
        if label == "L"@ { assert(ks[6] == label); }
        if label == "s"@ { assert(ks[7] == label); }
        if label == "t"@ { assert(ks[8] == label); }
        if label == "T"@ { assert(ks[9] == label); }
        if label == "v"@ { assert(ks[10] == label); }
        if label == "V"@ { assert(ks[11] == label); }
        if label == "p"@ { assert(ks[12] == label); }
        if label == "k"@ { assert(ks[13] == label); }
        if label == "K"@ { assert(ks[14] == label); }
        if label == "E"@ { assert(ks[15] == label); }
        if label == "M"@ { assert(ks[16] == label); }
        if label == "P"@ { assert(ks[17] == label); }
        if label == "G"@ { assert(ks[18] == label); }
        if label == "D"@ { assert(ks[19] == label); }
        if label == "r"@ { assert(ks[20] == label); }
        if label == "^"@ { assert(ks[21] == label); }
        if label == "&"@ { assert(ks[22] == label); }
    }
    assert forall|label: Seq<char>| ks.contains(label) implies #[trigger] command_doc(label) is Some by {
        let i = choose|i: int| 0 <= i < ks.len() && ks[i] == label;
        assert(0 <= i < 23);
    }
}

/// On a metadata line the items offered are the ctrmml metadata keywords,
/// each once, each inserting its name without the `#` over a range that
/// ends at the cursor.
pub proof fn law_meta_keywords_offered(line: Seq<char>, col: usize, line_index: u32)
    ensures
        meta_items(line, col, line_index).len() == ctrmml_meta_keywords().len(),
        meta_keywords().no_duplicates(),
        forall|i: int|
            0 <= i < meta_items(line, col, line_index).len() ==> {
                let item = #[trigger] meta_items(line, col, line_index)[i];
                let kw = ctrmml_meta_keywords()[i];
                &&& item.label == kw
                &&& kw[0] == '#'
                &&& item.insert_text == Some(kw.drop_first())
                &&& item.filter_text == Some(kw)
                &&& item.text_edit matches Some(e) && e.new_text == kw.drop_first() && e.range.end
                    == col as u32 && e.range.line == line_index
            },
{
    reveal_strlit("#title");
    reveal_strlit("#composer");
    reveal_strlit("#author");
    reveal_strlit("#date");
    reveal_strlit("#comment");
    reveal_strlit("#platform");
    reveal_strlit("#option");
    reveal_strlit("#game");
    reveal_strlit("#composerj");
    reveal_strlit("#programmer");
    reveal_strlit("#timesig");
    reveal_strlit("#group");
    let ks = meta_keywords();
    assert(ks =~= ctrmml_meta_keywords());
    assert forall|i: int, j: int| 0 <= i < ks.len() && 0 <= j < ks.len() && i != j implies ks[i]
        != ks[j] by {
        assert(0 <= i < 12 && 0 <= j < 12);
        if ks[i] == ks[j] {
            assert(ks[i].len() == ks[j].len());
            assert(ks[i][1] == ks[j][1]);
            assert(ks[i][2] == ks[j][2]);
            assert(ks[i][3] == ks[j][3]);
            assert(ks[i][ks[i].len() - 1] == ks[j][ks[j].len() - 1]);
        }
    }
    assert forall|i: int| 0 <= i < ks.len() implies ks[i][0] == '#' by {
        assert(0 <= i < 12);
    }
}

} // verus!
