//! What the text before the cursor says about the place of a completion:
//! inside a comment, inside a string, after a keyword, on an instrument
//! definition.

use vstd::prelude::*;
use vstd::utf8::encode_utf8;
use crate::text::{
    char_vec, count_char, is_digit, is_white_space, is_whitespace, last_char_position, last_index_of,
    leading_white_space, lemma_encode_push, lemma_last_index_of, lemma_utf8_len_take, line_prefix, prefix_before,
    str_equal, string_from_chars, trim_start, utf8_len,
};

verus! {

/// Whether position `i` of `p` lies inside a string literal, that is, after
/// an odd number of `"`.
pub open spec fn in_string_at(p: Seq<char>, i: int) -> bool {
    count_char(p.take(i), '"') % 2 == 1
}

/// Whether `p` holds a `;` outside every string literal, which starts a
/// comment.
pub open spec fn has_comment(p: Seq<char>) -> bool {
    exists|i: int| 0 <= i < p.len() && #[trigger] p[i] == ';' && !in_string_at(p, i)
}

/// One more character in the count of `c`.
pub proof fn lemma_count_step(s: Seq<char>, i: int, c: char)
    requires
        0 <= i < s.len(),
    ensures
        count_char(s.take(i + 1), c) == count_char(s.take(i), c) + if s[i] == c {
            1nat
        } else {
            0nat
        },
{
    assert(s.take(i + 1).drop_last() =~= s.take(i));
}

/// Whether the cursor at byte column `col` of `line` stands in a comment.
pub fn is_in_comment(line: &str, col: usize) -> (r: bool)
    ensures
        r == match line_prefix(line@, col as int) {
            Some(p) => has_comment(p),
            None => false,
        },
{
    let prefix = match prefix_before(line, col) {
        Some(text) => text,
        None => return false,
    };
    let chars = char_vec(prefix);
    let mut in_string = false;
    let mut i: usize = 0;
    while i < chars.len()
        invariant
            i <= chars.len(),
            chars@ == prefix@,
            line_prefix(line@, col as int) == Some(prefix@),
            in_string == in_string_at(chars@, i as int),
            forall|j: int| 0 <= j < i ==> !(#[trigger] chars@[j] == ';' && !in_string_at(chars@, j)),
        decreases chars.len() - i,
    {
        let ch = chars[i];
        proof {
            lemma_count_step(chars@, i as int, '"');
        }
        if ch == '"' {
            in_string = !in_string;
        } else if ch == ';' && !in_string {
            assert(chars@[i as int] == ';' && !in_string_at(chars@, i as int));
            assert(has_comment(chars@));
            return true;
        }
        i = i + 1;
    }
    false
}

/// Reading `s` from the left, as the tokenizer does: the tokens completed
/// so far, the token being read, and whether a string literal is open.
/// White space outside string literals separates tokens; quotes belong to
/// the token they stand in.
pub open spec fn scan_tokens(s: Seq<char>) -> (Seq<Seq<char>>, Seq<char>, bool)
    decreases s.len(),
{
    if s.len() == 0 {
        (seq![], seq![], false)
    } else {
        let (done, cur, quoted) = scan_tokens(s.drop_last());
        let c = s.last();
        if c == '"' {
            (done, cur.push(c), !quoted)
        } else if is_white_space(c) && !quoted {
            if cur.len() > 0 {
                (done.push(cur), seq![], quoted)
            } else {
                (done, cur, quoted)
            }
        } else {
            (done, cur.push(c), quoted)
        }
    }
}

/// The tokens of `s`: split at white space that stands outside string
/// literals, with no empty token.
pub open spec fn tokens_outside_quotes(s: Seq<char>) -> Seq<Seq<char>> {
    let (done, cur, _quoted) = scan_tokens(s);
    if cur.len() > 0 {
        done.push(cur)
    } else {
        done
    }
}

/// The character sequences held by a sequence of strings.
pub open spec fn string_views(v: Seq<String>) -> Seq<Seq<char>> {
    v.map_values(|t: String| t@)
}

/// Splits `input` into tokens at white space outside string literals.
pub fn tokenize_outside_quotes(input: &str) -> (tokens: Vec<String>)
    ensures
        string_views(tokens@) == tokens_outside_quotes(input@),
{
    let chars = char_vec(input);
    let mut tokens: Vec<String> = Vec::new();
    let mut current: Vec<char> = Vec::new();
    let mut in_string = false;
    let mut i: usize = 0;
    while i < chars.len()
        invariant
            i <= chars.len(),
            chars@ == input@,
            (string_views(tokens@), current@, in_string) == scan_tokens(chars@.take(i as int)),
        decreases chars.len() - i,
    {
        let ch = chars[i];
        assert(chars@.take(i + 1).drop_last() =~= chars@.take(i as int));
        let ghost prev = string_views(tokens@);
        if ch == '"' {
            current.push(ch);
            in_string = !in_string;
        } else if is_whitespace(ch) && !in_string {
            if current.len() > 0 {
                let ghost token = current@;
                let s = string_from_chars(&current, 0, current.len());
                assert(s@ =~= token);
                tokens.push(s);
                current = Vec::new();
                assert(string_views(tokens@) =~= prev.push(token));
            }
        } else {
            current.push(ch);
        }
        i = i + 1;
    }
    assert(chars@.take(i as int) =~= input@);
    if current.len() > 0 {
        let ghost prev = string_views(tokens@);
        let ghost token = current@;
        let s = string_from_chars(&current, 0, current.len());
        assert(s@ =~= token);
        tokens.push(s);
        assert(string_views(tokens@) =~= prev.push(token));
    }
    tokens
}

/// An instrument reference such as `@12`: an `@` and at least one digit.
pub open spec fn at_number(t: Seq<char>) -> bool {
    &&& t.len() >= 2
    &&& t[0] == '@'
    &&& forall|i: int| 1 <= i < t.len() ==> is_digit(#[trigger] t[i])
}

/// Whether `token` is `@` followed by one or more ASCII digits.
pub fn is_at_number(token: &str) -> (r: bool)
    ensures
        r == at_number(token@),
{
    let chars = char_vec(token);
    if chars.len() == 0 || chars[0] != '@' {
        return false;
    }
    if chars.len() < 2 {
        return false;
    }
    let mut i: usize = 1;
    while i < chars.len()
        invariant
            1 <= i <= chars.len(),
            chars@ == token@,
            chars@.len() >= 2,
            chars@[0] == '@',
            forall|j: int| 1 <= j < i ==> is_digit(#[trigger] chars@[j]),
        decreases chars.len() - i,
    {
        if !('0' <= chars[i] && chars[i] <= '9') {
            return false;
        }
        i = i + 1;
    }
    true
}

/// A quoted token: at least two bytes long, starting and ending with `"`.
pub open spec fn quoted(t: Seq<char>) -> bool {
    &&& utf8_len(t) >= 2
    &&& t.len() > 0
    &&& t[0] == '"'
    &&& t.last() == '"'
}

/// Whether `token` is at least two bytes long and starts and ends with `"`.
pub fn is_quoted(token: &str) -> (r: bool)
    ensures
        r == quoted(token@),
{
    if token.as_bytes().len() < 2 {
        return false;
    }
    let chars = char_vec(token);
    chars.len() > 0 && chars[0] == '"' && chars[chars.len() - 1] == '"'
}

/// `"pcm"` as characters.
pub open spec fn pcm_word() -> Seq<char> {
    seq!['p', 'c', 'm']
}

/// Whether `p` holds the word `pcm` between white space (or the ends of
/// `p`): one of the words that `str::split_whitespace` yields.
pub open spec fn has_pcm_word(p: Seq<char>) -> bool {
    exists|i: int|
        0 <= i && i + 3 <= p.len() && #[trigger] p.subrange(i, i + 3) == pcm_word() && (i == 0
            || is_white_space(p[i - 1])) && (i + 3 == p.len() || is_white_space(p[i + 3]))
}

/// Whether the word `pcm` stands before the cursor.
pub fn has_pcm_token_before(line: &str, col: usize) -> (r: bool)
    ensures
        r == match line_prefix(line@, col as int) {
            Some(p) => has_pcm_word(p),
            None => false,
        },
{
    let prefix = match prefix_before(line, col) {
        Some(text) => text,
        None => return false,
    };
    let chars = char_vec(prefix);
    let n = chars.len();
    let mut i: usize = 0;
    while n >= 3 && i <= n - 3
        invariant
            n == chars@.len(),
            chars@ == prefix@,
            line_prefix(line@, col as int) == Some(prefix@),
            forall|j: int|
                0 <= j < i && j + 3 <= n ==> !(#[trigger] chars@.subrange(j, j + 3) == pcm_word()
                    && (j == 0 || is_white_space(chars@[j - 1])) && (j + 3 == n || is_white_space(
                    chars@[j + 3],
                ))),
        decreases n - i,
    {
        let starts = i == 0 || is_whitespace(chars[i - 1]);
        let ends = i + 3 == n || is_whitespace(chars[i + 3]);
        if starts && ends && chars[i] == 'p' && chars[i + 1] == 'c' && chars[i + 2] == 'm' {
            assert(chars@.subrange(i as int, i + 3) =~= pcm_word());
            assert(has_pcm_word(chars@));
            return true;
        }
        assert(chars[i as int] != 'p' || chars[i + 1] != 'c' || chars[i + 2] != 'm' ==> chars@.subrange(
            i as int,
            i + 3,
        ) != pcm_word()) by {
            if chars@.subrange(i as int, i + 3) == pcm_word() {
                assert(chars@.subrange(i as int, i + 3)[0] == chars@[i as int]);
                assert(chars@.subrange(i as int, i + 3)[1] == chars@[i + 1]);
                assert(chars@.subrange(i as int, i + 3)[2] == chars@[i + 2]);
            }
        }
        i = i + 1;
    }
    false
}

/// An instrument definition being typed: after leading white space, `@`,
/// one or more digits, and one space, ending at the cursor.
pub open spec fn instrument_definition(t: Seq<char>) -> bool {
    &&& t.len() >= 3
    &&& t[0] == '@'
    &&& t.last() == ' '
    &&& forall|i: int| 1 <= i < t.len() - 1 ==> is_digit(#[trigger] t[i])
}

/// Whether the text before the cursor reads `@N ` (the place where an
/// instrument type is chosen).
pub fn is_instrument_definition_context(line: &str, col: usize) -> (r: bool)
    ensures
        r == match line_prefix(line@, col as int) {
            Some(p) => instrument_definition(trim_start(p)),
            None => false,
        },
{
    let prefix = match prefix_before(line, col) {
        Some(text) => text,
        None => return false,
    };
    let chars = char_vec(prefix);
    let start = leading_white_space(&chars);
    let ghost t = chars@.skip(start as int);
    if start >= chars.len() || chars[start] != '@' {
        return false;
    }
    let mut i = start + 1;
    while i < chars.len() && '0' <= chars[i] && chars[i] <= '9'
        invariant
            start < i <= chars.len(),
            t == chars@.skip(start as int),
            forall|j: int| start < j < i ==> is_digit(#[trigger] chars@[j]),
        decreases chars.len() - i,
    {
        i = i + 1;
    }
    let digits_len = i - start - 1;
    if digits_len == 0 {
        assert(!instrument_definition(t)) by {
            if t.len() >= 3 {
                assert(t[1] == chars@[start + 1]);
            }
        }
        return false;
    }
    let r = i < chars.len() && chars.len() - i == 1 && chars[i] == ' ';
    assert(r == instrument_definition(t)) by {
        if r {
            assert forall|k: int| 1 <= k < t.len() - 1 implies is_digit(#[trigger] t[k]) by {
                assert(t[k] == chars@[start + k]);
            }
        } else if instrument_definition(t) {
            if i < chars.len() {
                assert(t[i - start] == chars@[i as int]);
                if i + 1 < chars.len() {
                    assert(is_digit(t[i - start]));
                }
            }
        }
    }
    r
}

/// After an `@N pcm "file"` definition and a space: the place for the
/// `rate=` and `offset=` options.
pub open spec fn rate_offset_context(p: Seq<char>) -> bool {
    let tokens = tokens_outside_quotes(p);
    &&& p.len() > 0
    &&& p.last() == ' '
    &&& tokens.len() == 3
    &&& at_number(tokens[0])
    &&& tokens[1] == pcm_word()
    &&& quoted(tokens[2])
}

/// Whether the cursor follows a complete PCM instrument definition.
pub fn is_rate_offset_context(line: &str, col: usize) -> (r: bool)
    ensures
        r == match line_prefix(line@, col as int) {
            Some(p) => rate_offset_context(p),
            None => false,
        },
{
    let prefix = match prefix_before(line, col) {
        Some(text) => text,
        None => return false,
    };
    let chars = char_vec(prefix);
    if chars.len() == 0 || chars[chars.len() - 1] != ' ' {
        return false;
    }
    let tokens = tokenize_outside_quotes(prefix);
    if tokens.len() != 3 {
        return false;
    }
    assert(tokens@[0]@ == tokens_outside_quotes(prefix@)[0]);
    assert(tokens@[1]@ == tokens_outside_quotes(prefix@)[1]);
    assert(tokens@[2]@ == tokens_outside_quotes(prefix@)[2]);
    if !is_at_number(tokens[0].as_str()) {
        return false;
    }
    if !str_equal(tokens[1].as_str(), "pcm") {
        proof {
            reveal_strlit("pcm");
        }
        assert("pcm"@ =~= pcm_word());
        return false;
    }
    proof {
        reveal_strlit("pcm");
    }
    assert("pcm"@ =~= pcm_word());
    is_quoted(tokens[2].as_str())
}

/// Where the string literal around the cursor begins: when an odd number of
/// `"` stand before the cursor, the text after the last of them and the
/// byte column just past it.
pub open spec fn open_string_prefix(p: Seq<char>) -> Option<(Seq<char>, int)> {
    if count_char(p, '"') % 2 == 0 {
        None
    } else {
        match last_index_of(p, '"') {
            Some(k) => Some((p.skip(k + 1), utf8_len(p.take(k)) + 1)),
            None => None,
        }
    }
}

/// An ASCII character at index `k` ends one byte after the encoding of
/// what comes before it.
proof fn lemma_quote_byte(s: Seq<char>, k: int, c: char)
    requires
        0 <= k < s.len(),
        s[k] == c,
        (c as u32) < 0x80,
    ensures
        utf8_len(s.take(k)) + 1 <= utf8_len(s),
{
    lemma_encode_push(s.take(k), c);
    assert(s.take(k).push(c) =~= s.take(k + 1));
    lemma_utf8_len_take(s, k + 1);
}

/// Every `"` before the last one is counted.
proof fn lemma_count_pos(s: Seq<char>, c: char)
    ensures
        count_char(s, c) > 0 ==> last_index_of(s, c) is Some,
    decreases s.len(),
{
    if s.len() > 0 {
        lemma_count_pos(s.drop_last(), c);
    }
}

/// The text typed so far inside an open string literal, and the byte column
/// where it begins.
pub fn string_prefix(line: &str, col: usize) -> (r: Option<(String, usize)>)
    ensures
        match r {
            Some((text, start)) => match line_prefix(line@, col as int) {
                Some(p) => open_string_prefix(p) == Some((text@, start as int)),
                None => false,
            },
            None => match line_prefix(line@, col as int) {
                Some(p) => open_string_prefix(p) is None,
                None => true,
            },
        },
{
    let before = prefix_before(line, col)?;
    let chars = char_vec(before);
    let mut quote_count: usize = 0;
    let mut i: usize = 0;
    assert(chars@.take(0) =~= Seq::<char>::empty());
    while i < chars.len()
        invariant
            i <= chars.len(),
            chars@ == before@,
            quote_count == count_char(chars@.take(i as int), '"'),
            quote_count <= i,
        decreases chars.len() - i,
    {
        proof {
            lemma_count_step(chars@, i as int, '"');
        }
        if chars[i] == '"' {
            quote_count = quote_count + 1;
        }
        i = i + 1;
    }
    assert(chars@.take(i as int) =~= chars@);
    if quote_count % 2 == 0 {
        return None;
    }
    proof {
        lemma_count_pos(chars@, '"');
        lemma_last_index_of(chars@, '"');
    }
    let (k, bytes) = last_char_position(&chars, '"')?;
    let prefix = string_from_chars(&chars, k + 1, chars.len());
    assert(prefix@ =~= chars@.skip(k + 1));
    proof {
        lemma_quote_byte(chars@, k as int, '"');
    }
    Some((prefix, bytes + 1))
}

/// Where the meta keyword being typed begins: just past the last `#` before
/// the cursor, or the cursor itself.
pub open spec fn meta_start(line: Seq<char>, col: usize) -> u32 {
    match line_prefix(line, col as int) {
        Some(p) => match last_index_of(p, '#') {
            Some(k) => (utf8_len(p.take(k)) + 1) as u32,
            None => col as u32,
        },
        None => col as u32,
    }
}

/// The byte column just past the last `#` before the cursor, or the
/// cursor's column when there is none.
pub fn meta_prefix_start_col(line: &str, col: usize) -> (r: u32)
    ensures
        r == meta_start(line@, col),
{
    let prefix = match prefix_before(line, col) {
        Some(text) => text,
        None => return #[verifier::truncate] (col as u32),
    };
    let chars = char_vec(prefix);
    match last_char_position(&chars, '#') {
        Some((k, bytes)) => {
            proof {
                lemma_last_index_of(chars@, '#');
                lemma_quote_byte(chars@, k as int, '#');
            }
            #[verifier::truncate] ((bytes + 1) as u32)
        },
        None => #[verifier::truncate] (col as u32),
    }
}

/// `s` with the white space outside string literals taken out.
pub open spec fn without_unquoted_space(s: Seq<char>) -> Seq<char>
    decreases s.len(),
{
    if s.len() == 0 {
        seq![]
    } else {
        let kept = without_unquoted_space(s.drop_last());
        if is_white_space(s.last()) && count_char(s.drop_last(), '"') % 2 == 0 {
            kept
        } else {
            kept.push(s.last())
        }
    }
}

/// What the tokenizer keeps while it reads.
proof fn lemma_scan_tokens(s: Seq<char>)
    ensures
        scan_tokens(s).2 == (count_char(s, '"') % 2 == 1),
        scan_tokens(s).0.flatten() + scan_tokens(s).1 == without_unquoted_space(s),
        forall|i: int| 0 <= i < scan_tokens(s).0.len() ==> #[trigger] scan_tokens(s).0[i].len() > 0,
    decreases s.len(),
{
    broadcast use vstd::seq_lib::group_seq_properties;

    if s.len() == 0 {
        assert(Seq::<Seq<char>>::empty().flatten() =~= Seq::<char>::empty());
        assert(Seq::<Seq<char>>::empty().flatten() + Seq::<char>::empty() =~= Seq::<char>::empty());
    } else {
        let prev = s.drop_last();
        lemma_scan_tokens(prev);
        let (done, cur, quoted) = scan_tokens(prev);
        let c = s.last();
        if c == '"' {
            assert(done.flatten() + cur.push(c) =~= (done.flatten() + cur).push(c));
        } else if is_white_space(c) && !quoted {
            if cur.len() > 0 {
                done.lemma_flatten_push(cur);
                assert(done.push(cur).flatten() + Seq::<char>::empty() =~= done.flatten() + cur);
                assert forall|i: int| 0 <= i < done.push(cur).len() implies #[trigger] done.push(
                    cur,
                )[i].len() > 0 by {
                    if i < done.len() {
                        assert(done.push(cur)[i] == done[i]);
                    }
                }
            }
        } else {
            assert(done.flatten() + cur.push(c) =~= (done.flatten() + cur).push(c));
        }
    }
}

/// The tokens are not empty, and together they hold all of the input but
/// the white space outside string literals, in order.
pub proof fn law_tokens_cover_input(s: Seq<char>)
    ensures
        tokens_outside_quotes(s).flatten() == without_unquoted_space(s),
        forall|i: int|
            0 <= i < tokens_outside_quotes(s).len() ==> #[trigger] tokens_outside_quotes(s)[i].len()
                > 0,
{
    broadcast use vstd::seq_lib::group_seq_properties;

    lemma_scan_tokens(s);
    let (done, cur, _quoted) = scan_tokens(s);
    if cur.len() > 0 {
        done.lemma_flatten_push(cur);
        assert forall|i: int| 0 <= i < done.push(cur).len() implies #[trigger] done.push(cur)[i].len()
            > 0 by {
            if i < done.len() {
                assert(done.push(cur)[i] == done[i]);
            }
        }
    } else {
        assert(cur =~= Seq::<char>::empty());
        assert(done.flatten() + cur =~= done.flatten());
    }
}

/// The range a metadata keyword replaces ends at the cursor and never
/// starts after it.
pub proof fn law_meta_range_within_cursor(line: Seq<char>, col: usize)
    requires
        col <= u32::MAX,
    ensures
        meta_start(line, col) <= col,
{
    if let Some(p) = line_prefix(line, col as int) {
        crate::text::lemma_line_prefix_len(line, col as int);
        lemma_last_index_of(p, '#');
        if let Some(k) = last_index_of(p, '#') {
            lemma_quote_byte(p, k, '#');
        }
    }
}

/// The index of the last white space character in `s`, if there is one.
pub open spec fn last_white_space_index(s: Seq<char>) -> Option<int>
    decreases s.len(),
{
    if s.len() == 0 {
        None
    } else if is_white_space(s.last()) {
        Some(s.len() - 1)
    } else {
        last_white_space_index(s.drop_last())
    }
}

/// Where the meta value being typed begins: just past the last white space
/// before the cursor; the cursor itself when there is no white space, or
/// when the word after it is the `#` keyword (no value typed yet).
pub open spec fn value_start(line: Seq<char>, col: usize) -> u32 {
    match line_prefix(line, col as int) {
        Some(p) => match last_white_space_index(p) {
            Some(k) => if k + 1 < p.len() && p[k + 1] == '#' {
                col as u32
            } else {
                utf8_len(p.take(k + 1)) as u32
            },
            None => col as u32,
        },
        None => col as u32,
    }
}

/// The byte column just past the last white space before the cursor, or
/// the cursor's column when there is none.
pub fn meta_value_start(line: &str, col: usize) -> (r: u32)
    ensures
        r == value_start(line@, col),
{
    let prefix = match prefix_before(line, col) {
        Some(text) => text,
        None => return #[verifier::truncate] (col as u32),
    };
    let chars = char_vec(prefix);
    let mut found: Option<(usize, usize)> = None;
    let mut bytes: usize = 0;
    let mut i: usize = 0;
    assert(chars@.take(0) =~= Seq::<char>::empty());
    while i < chars.len()
        invariant
            i <= chars.len(),
            chars@ == prefix@,
            utf8_len(chars@) == col,
            bytes == utf8_len(chars@.take(i as int)),
            match found {
                Some((k, b)) => k < i && last_white_space_index(chars@.take(i as int)) == Some(k as int)
                    && b == utf8_len(chars@.take(k + 1)),
                None => last_white_space_index(chars@.take(i as int)) is None,
            },
        decreases chars.len() - i,
    {
        proof {
            lemma_encode_push(chars@.take(i as int), chars@[i as int]);
            assert(chars@.take(i as int).push(chars@[i as int]) =~= chars@.take(i + 1));
            assert(chars@.take(i + 1).drop_last() =~= chars@.take(i as int));
            lemma_utf8_len_take(chars@, i + 1);
        }
        bytes = bytes + crate::text::utf8_width(chars[i]);
        if is_whitespace(chars[i]) {
            found = Some((i, bytes));
        }
        i = i + 1;
    }
    assert(chars@.take(i as int) =~= chars@);
    match found {
        Some((k, b)) => {
            if k + 1 < chars.len() && chars[k + 1] == '#' {
                #[verifier::truncate] (col as u32)
            } else {
                #[verifier::truncate] (b as u32)
            }
        },
        None => #[verifier::truncate] (col as u32),
    }
}

/// Reading `s` from the left as `str::split_whitespace` does: the words
/// completed so far and the word being read.
pub open spec fn scan_words(s: Seq<char>) -> (Seq<Seq<char>>, Seq<char>)
    decreases s.len(),
{
    if s.len() == 0 {
        (seq![], seq![])
    } else {
        let (done, cur) = scan_words(s.drop_last());
        if is_white_space(s.last()) {
            if cur.len() > 0 {
                (done.push(cur), seq![])
            } else {
                (done, cur)
            }
        } else {
            (done, cur.push(s.last()))
        }
    }
}

/// The words of `s`, as `str::split_whitespace` yields them.
pub open spec fn whitespace_words(s: Seq<char>) -> Seq<Seq<char>> {
    let (done, cur) = scan_words(s);
    if cur.len() > 0 {
        done.push(cur)
    } else {
        done
    }
}

proof fn lemma_scan_without_quotes(s: Seq<char>)
    requires
        count_char(s, '"') == 0,
    ensures
        scan_tokens(s) == (scan_words(s).0, scan_words(s).1, false),
    decreases s.len(),
{
    if s.len() > 0 {
        lemma_scan_without_quotes(s.drop_last());
    }
}

/// On text without quotes the tokenizer yields exactly the words of
/// `str::split_whitespace`.
pub proof fn law_tokens_without_quotes(s: Seq<char>)
    requires
        count_char(s, '"') == 0,
    ensures
        tokens_outside_quotes(s) == whitespace_words(s),
{
    lemma_scan_without_quotes(s);
}

/// A prefix of the line at a later boundary extends one at an earlier
/// boundary.
proof fn lemma_prefix_extends(line: Seq<char>, c1: int, c2: int)
    requires
        c1 <= c2,
        line_prefix(line, c1) is Some,
        line_prefix(line, c2) is Some,
    ensures
        line_prefix(line, c2)->0.len() >= line_prefix(line, c1)->0.len(),
        line_prefix(line, c2)->0.take(line_prefix(line, c1)->0.len() as int) == line_prefix(
            line,
            c1,
        )->0,
{
    broadcast use vstd::utf8::group_utf8_lib;

    let bytes = encode_utf8(line);
    let sub = bytes.subrange(0, c2);
    assert(vstd::utf8::valid_utf8(sub));
    if c1 == c2 {
        assert(line_prefix(line, c2)->0.take(line_prefix(line, c1)->0.len() as int) =~= line_prefix(line, c1)->0);
    } else {
        assert(vstd::utf8::is_char_boundary(sub, c1)) by {
            if c1 > 0 {
                vstd::utf8::is_char_boundary_iff_not_is_continuation_byte(bytes, c1);
                vstd::utf8::is_char_boundary_iff_not_is_continuation_byte(sub, c1);
            } else {
                vstd::utf8::is_char_boundary_start_end_of_seq(sub);
            }
        }
        vstd::utf8::decode_utf8_split(sub, c1);
        assert(sub.subrange(0, c1) =~= bytes.subrange(0, c1));
        let p1 = line_prefix(line, c1)->0;
        let p2 = line_prefix(line, c2)->0;
        let rest = vstd::utf8::decode_utf8(sub.subrange(c1, sub.len() as int));
        assert(p2 == p1 + rest);
        assert(p2.take(p1.len() as int) =~= p1);
    }
}

/// Once the cursor stands in a comment, moving it right on the same line
/// keeps it there.
pub proof fn law_comment_extends_right(line: Seq<char>, c1: int, c2: int)
    requires
        c1 <= c2,
        line_prefix(line, c1) matches Some(p) && has_comment(p),
        line_prefix(line, c2) is Some,
    ensures
        has_comment(line_prefix(line, c2)->0),
{
    lemma_prefix_extends(line, c1, c2);
    let p1 = line_prefix(line, c1)->0;
    let p2 = line_prefix(line, c2)->0;
    let i = choose|i: int| 0 <= i < p1.len() && #[trigger] p1[i] == ';' && !in_string_at(p1, i);
    assert(p2[i] == p1[i]) by {
        assert(p2.take(p1.len() as int)[i] == p2[i]);
    }
    assert(p2.take(i) =~= p1.take(i)) by {
        assert(p2.take(p1.len() as int) == p1);
    }
    assert(p2[i] == ';' && !in_string_at(p2, i));
}

/// One character read by the tokenizer, from state `st`.
pub open spec fn token_step(st: (Seq<Seq<char>>, Seq<char>, bool), c: char) -> (
    Seq<Seq<char>>,
    Seq<char>,
    bool,
) {
    let (done, cur, quoted) = st;
    if c == '"' {
        (done, cur.push(c), !quoted)
    } else if is_white_space(c) && !quoted {
        if cur.len() > 0 {
            (done.push(cur), seq![], quoted)
        } else {
            (done, cur, quoted)
        }
    } else {
        (done, cur.push(c), quoted)
    }
}

/// The tokenizer's state after reading `t` from state `st`.
pub open spec fn token_fold(st: (Seq<Seq<char>>, Seq<char>, bool), t: Seq<char>) -> (
    Seq<Seq<char>>,
    Seq<char>,
    bool,
)
    decreases t.len(),
{
    if t.len() == 0 {
        st
    } else {
        token_step(token_fold(st, t.drop_last()), t.last())
    }
}

/// Reading `s` then `t` is reading `t` from the state after `s`.
proof fn lemma_scan_concat(s: Seq<char>, t: Seq<char>)
    ensures
        scan_tokens(s + t) == token_fold(scan_tokens(s), t),
    decreases t.len(),
{
    if t.len() == 0 {
        assert(s + t =~= s);
    } else {
        lemma_scan_concat(s, t.drop_last());
        assert((s + t).drop_last() =~= s + t.drop_last());
        assert((s + t).last() == t.last());
    }
}

/// Characters that are neither quotes nor white space (outside a string),
/// or not quotes (inside one), extend the token being read.
proof fn lemma_fold_extends(st: (Seq<Seq<char>>, Seq<char>, bool), t: Seq<char>)
    requires
        forall|i: int|
            0 <= i < t.len() ==> #[trigger] t[i] != '"' && (st.2 || !is_white_space(t[i])),
    ensures
        token_fold(st, t) == (st.0, st.1 + t, st.2),
    decreases t.len(),
{
    if t.len() == 0 {
        assert(st.1 + t =~= st.1);
    } else {
        assert forall|i: int| 0 <= i < t.drop_last().len() implies #[trigger] t.drop_last()[i]
            != '"' && (st.2 || !is_white_space(t.drop_last()[i])) by {
            assert(t.drop_last()[i] == t[i]);
        }
        lemma_fold_extends(st, t.drop_last());
        assert(t[t.len() - 1] == t.last());
        assert((st.1 + t.drop_last()).push(t.last()) =~= st.1 + t);
    }
}

/// Each character has a UTF-8 encoding of at least one byte.
proof fn lemma_utf8_len_at_least(s: Seq<char>)
    ensures
        utf8_len(s) >= s.len(),
    decreases s.len(),
{
    if s.len() > 0 {
        lemma_utf8_len_at_least(s.drop_last());
        lemma_encode_push(s.drop_last(), s.last());
        assert(s.drop_last().push(s.last()) =~= s);
        vstd::utf8::char_is_scalar(s.last());
    }
}

/// After `@N pcm "file" ` (any number `N` of one or more digits, any file
/// name without quotes) the PCM options are offered: the tokens are the
/// instrument number, `pcm` and the quoted name.
pub proof fn law_rate_offset_after_any_definition(digits: Seq<char>, name: Seq<char>)
    requires
        digits.len() > 0,
        forall|i: int| 0 <= i < digits.len() ==> is_digit(#[trigger] digits[i]),
        forall|i: int| 0 <= i < name.len() ==> #[trigger] name[i] != '"',
    ensures
        rate_offset_context(
            seq!['@'] + digits + seq![' ', 'p', 'c', 'm', ' ', '"'] + name + seq!['"', ' '],
        ),
        tokens_outside_quotes(
            seq!['@'] + digits + seq![' ', 'p', 'c', 'm', ' ', '"'] + name + seq!['"', ' '],
        ) == seq![seq!['@'] + digits, pcm_word(), seq!['"'] + name + seq!['"']],
{
    let at = seq!['@'] + digits;
    let p1 = at + seq![' ', 'p', 'c', 'm', ' ', '"'];
    let p2 = p1 + name;
    let whole = p2 + seq!['"', ' '];
    let file = seq!['"'] + name + seq!['"'];
    let empty = Seq::<Seq<char>>::empty();
    // `@N`
    assert(scan_tokens(Seq::<char>::empty()) == (empty, Seq::<char>::empty(), false));
    assert forall|i: int| 0 <= i < at.len() implies #[trigger] at[i] != '"' && (false
        || !is_white_space(at[i])) by {
        if i > 0 {
            assert(at[i] == digits[i - 1]);
        }
    }
    lemma_scan_concat(Seq::<char>::empty(), at);
    assert(Seq::<char>::empty() + at =~= at);
    lemma_fold_extends((empty, Seq::<char>::empty(), false), at);
    assert(Seq::<char>::empty() + at =~= at);
    assert(scan_tokens(at) == (empty, at, false));
    // ` pcm "`
    let mid = seq![' ', 'p', 'c', 'm', ' ', '"'];
    lemma_scan_concat(at, mid);
    reveal_with_fuel(token_fold, 7);
    assert(mid.drop_last().drop_last().drop_last().drop_last().drop_last().drop_last()
        =~= Seq::<char>::empty());
    assert(mid.drop_last().drop_last().drop_last().drop_last().drop_last() =~= seq![' ']);
    assert(mid.drop_last().drop_last().drop_last().drop_last() =~= seq![' ', 'p']);
    assert(mid.drop_last().drop_last().drop_last() =~= seq![' ', 'p', 'c']);
    assert(mid.drop_last().drop_last() =~= seq![' ', 'p', 'c', 'm']);
    assert(mid.drop_last() =~= seq![' ', 'p', 'c', 'm', ' ']);
    assert(seq!['p'] =~= Seq::<char>::empty().push('p'));
    assert(seq!['p', 'c'] =~= seq!['p'].push('c'));
    assert(seq!['p', 'c', 'm'] =~= seq!['p', 'c'].push('m'));
    assert(token_fold((empty, at, false), mid) == (
        seq![at, pcm_word()],
        seq!['"'],
        true,
    )) by {
        assert(empty.push(at) =~= seq![at]);
        assert(seq![at].push(pcm_word()) =~= seq![at, pcm_word()]);
        assert(Seq::<char>::empty().push('"') =~= seq!['"']);
    }
    // the name, inside the string
    lemma_scan_concat(p1, name);
    lemma_fold_extends((seq![at, pcm_word()], seq!['"'], true), name);
    // `" `
    let tail = seq!['"', ' '];
    lemma_scan_concat(p2, tail);
    assert(tail.drop_last().drop_last() =~= Seq::<char>::empty());
    assert(tail.drop_last() =~= seq!['"']);
    assert((seq!['"'] + name).push('"') =~= file);
    lemma_utf8_len_at_least(file);
    assert(scan_tokens(whole) == (seq![at, pcm_word(), file], Seq::<char>::empty(), false)) by {
        assert(seq![at, pcm_word()].push(file) =~= seq![at, pcm_word(), file]);
    }
    assert(whole =~= seq!['@'] + digits + seq![' ', 'p', 'c', 'm', ' ', '"'] + name + seq!['"', ' ']);
    assert(at_number(at)) by {
        assert forall|i: int| 1 <= i < at.len() implies is_digit(#[trigger] at[i]) by {
            assert(at[i] == digits[i - 1]);
        }
    }
    assert(file[0] == '"' && file.last() == '"');
    assert(whole.last() == ' ');
}

} // verus!
