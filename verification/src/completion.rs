//! Which completions the server answers at a cursor position.

use vstd::prelude::*;
use crate::text::{
    char_vec, leading_white_space, line_at, line_prefix, line_suffix, string_from_chars,
    suffix_from, text_lines, trim_start,
};
use crate::context::{
    has_comment, has_pcm_token_before, has_pcm_word, instrument_definition, is_in_comment,
    is_instrument_definition_context, is_rate_offset_context, open_string_prefix,
    rate_offset_context, string_prefix,
};
use crate::items::{
    Completion, CompletionView, ItemList, fixed_items, item_views, list_items,
    meta_completion_items, meta_items, owned, platform_items, platform_value_items,
};
use crate::paths::{PcmRequest, dir_of_uri, has_prefix, starts_with, uri_to_dir};

verus! {

/// What to answer a completion request with.
pub enum CompletionPlan {
    /// No completion list.
    Nothing,
    /// Sample files to be listed from the folders (the walk is done by the
    /// caller); the list is the answer even when it is empty.
    PcmPaths(PcmRequest),
    /// This list of items.
    Items(Vec<Completion>),
}

/// The mathematical form of a [`CompletionPlan`].
pub enum PlanView {
    Nothing,
    PcmPaths {
        prefix: Seq<char>,
        start_col: int,
        col: int,
        line_index: u32,
        suffix: Seq<char>,
        base_dir: Seq<char>,
    },
    Items(Seq<CompletionView>),
}

impl View for CompletionPlan {
    type V = PlanView;

    open spec fn view(&self) -> PlanView {
        match self {
            CompletionPlan::Nothing => PlanView::Nothing,
            CompletionPlan::PcmPaths(req) => PlanView::PcmPaths {
                prefix: req.prefix@,
                start_col: req.start_col as int,
                col: req.col as int,
                line_index: req.line_index,
                suffix: req.suffix@,
                base_dir: req.base_dir@,
            },
            CompletionPlan::Items(items) => PlanView::Items(item_views(items@)),
        }
    }
}

/// The line of `text` at `line_index`, or the empty line past the end.
pub open spec fn text_line(text: Seq<char>, line_index: u32) -> Seq<char> {
    if line_index < text_lines(text).len() {
        text_lines(text)[line_index as int]
    } else {
        seq![]
    }
}

/// The closing quote that a sample path needs: none when a `"` already
/// follows the cursor.
pub open spec fn closing_quote(line: Seq<char>, col: int) -> Seq<char> {
    match line_suffix(line, col) {
        Some(rest) => if rest.len() > 0 && rest[0] == '"' {
            seq![]
        } else {
            seq!['"']
        },
        None => seq!['"'],
    }
}

/// The answer to a completion request on `line` at byte column `col`, for
/// the document with URI `uri`: nothing in a comment; sample files inside
/// the string of a `pcm` definition; platforms after `#platform`, each
/// replacing the value being typed; metadata
/// keywords on other `#` lines; PCM options after a complete PCM
/// definition; instrument types after `@N `; nothing on other `@` lines;
/// MML commands everywhere else.
pub open spec fn plan_for(line: Seq<char>, col: usize, line_index: u32, uri: Seq<char>) -> PlanView {
    let trimmed = trim_start(line);
    let prefix = line_prefix(line, col as int);
    if prefix matches Some(p) && has_comment(p) {
        PlanView::Nothing
    } else if prefix matches Some(p) && open_string_prefix(p) is Some && has_pcm_word(p)
        && dir_of_uri(uri) is Some {
        let (text, start) = open_string_prefix(prefix->0)->0;
        PlanView::PcmPaths {
            prefix: text,
            start_col: start,
            col: col as int,
            line_index,
            suffix: closing_quote(line, col as int),
            base_dir: dir_of_uri(uri)->0,
        }
    } else if starts_with(trimmed, "#platform"@) {
        PlanView::Items(platform_items(line, col, line_index))
    } else if starts_with(trimmed, "#"@) {
        PlanView::Items(meta_items(line, col, line_index))
    } else if prefix matches Some(p) && rate_offset_context(p) {
        PlanView::Items(list_items(ItemList::RateOffset))
    } else if prefix matches Some(p) && instrument_definition(trim_start(p)) {
        PlanView::Items(list_items(ItemList::InstrumentTypes))
    } else if starts_with(trimmed, "@"@) {
        PlanView::Nothing
    } else {
        PlanView::Items(list_items(ItemList::Commands))
    }
}

/// Decides the answer to a completion request on `line` at byte column
/// `col`.
pub fn plan_line_completion(line: &str, col: usize, line_index: u32, uri: &str) -> (plan:
    CompletionPlan)
    ensures
        plan@ == plan_for(line@, col, line_index, uri@),
{
    if is_in_comment(line, col) {
        return CompletionPlan::Nothing;
    }
    let open = string_prefix(line, col);
    if let Some((prefix, start_col)) = open {
        if has_pcm_token_before(line, col) {
            if let Some(base_dir) = uri_to_dir(uri) {
                let suffix = match suffix_from(line, col) {
                    Some(rest) => {
                        let chars = char_vec(rest);
                        if chars.len() > 0 && chars[0] == '"' {
                            owned("")
                        } else {
                            owned("\"")
                        }
                    },
                    None => owned("\""),
                };
                proof {
                    reveal_strlit("");
                    reveal_strlit("\"");
                }
                assert(suffix@ == closing_quote(line@, col as int)) by {
                    assert(""@ =~= Seq::<char>::empty());
                    assert("\""@ =~= seq!['"']);
                }
                return CompletionPlan::PcmPaths(
                    PcmRequest { prefix, start_col, col, line_index, suffix, base_dir },
                );
            }
        }
    }
    let chars = char_vec(line);
    let start = leading_white_space(&chars);
    let trimmed = string_from_chars(&chars, start, chars.len());
    assert(trimmed@ =~= trim_start(line@));
    if has_prefix(trimmed.as_str(), "#platform") {
        return CompletionPlan::Items(platform_value_items(line, col, line_index));
    }
    if has_prefix(trimmed.as_str(), "#") {
        return CompletionPlan::Items(meta_completion_items(line, col, line_index));
    }
    if is_rate_offset_context(line, col) {
        return CompletionPlan::Items(fixed_items(ItemList::RateOffset));
    }
    if is_instrument_definition_context(line, col) {
        return CompletionPlan::Items(fixed_items(ItemList::InstrumentTypes));
    }
    if has_prefix(trimmed.as_str(), "@") {
        return CompletionPlan::Nothing;
    }
    CompletionPlan::Items(fixed_items(ItemList::Commands))
}

/// Decides the answer to a completion request in the document `text` at
/// line `line_index` and column `character`.
pub fn plan_completion(text: &str, line_index: u32, character: u32, uri: &str) -> (plan:
    CompletionPlan)
    ensures
        plan@ == plan_for(text_line(text@, line_index), character as usize, line_index, uri@),
{
    let line = match line_at(text, line_index) {
        Some(l) => l,
        None => String::new(),
    };
    plan_line_completion(line.as_str(), character as usize, line_index, uri)
}

/// Inside a comment nothing is offered.
pub proof fn law_no_completion_in_comment(line: Seq<char>, col: usize, line_index: u32, uri: Seq<char>)
    requires
        line_prefix(line, col as int) matches Some(p) && has_comment(p),
    ensures
        plan_for(line, col, line_index, uri) == PlanView::Nothing,
{
}

/// Outside comments, a cursor inside the string of a `pcm` instrument
/// definition of a local document is answered with sample files, whatever
/// else the line holds.
pub proof fn law_sample_paths_in_pcm_string(line: Seq<char>, col: usize, line_index: u32, uri: Seq<char>)
    requires
        line_prefix(line, col as int) matches Some(p) && !has_comment(p)
            && open_string_prefix(p) is Some && has_pcm_word(p),
        dir_of_uri(uri) is Some,
    ensures
        plan_for(line, col, line_index, uri) is PcmPaths,
{
}

} // verus!
