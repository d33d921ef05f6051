//! Character-level views of strings: prefixes at byte columns, character
//! vectors, whitespace, equality and lines.

use vstd::prelude::*;
use vstd::utf8::*;

verus! {

broadcast use vstd::utf8::group_utf8_lib;

/// Appends one character to a string (`String::push`).
#[verifier::external_body]
pub(crate) fn push_char(s: &mut String, c: char)
    ensures
        final(s)@ == old(s)@.push(c),
{
    s.push(c)
}

/// The characters of `s`, in order.
pub fn char_vec(s: &str) -> (v: Vec<char>)
    ensures
        v@ == s@,
{
    broadcast use vstd::string::group_string_axioms;

    let mut v: Vec<char> = Vec::new();
    for c in it: s.chars()
        invariant
            v@ == it.seq().take(it.index() as int),
    {
        v.push(c);
    }
    assert(v@ =~= s@);
    v
}

/// The string made of the characters `v[from..to]`.
pub fn string_from_chars(v: &Vec<char>, from: usize, to: usize) -> (s: String)
    requires
        from <= to <= v.len(),
    ensures
        s@ == v@.subrange(from as int, to as int),
{
    let mut s = String::new();
    let mut i = from;
    while i < to
        invariant
            from <= i <= to <= v.len(),
            s@ == v@.subrange(from as int, i as int),
        decreases to - i,
    {
        push_char(&mut s, v[i]);
        i = i + 1;
        assert(s@ =~= v@.subrange(from as int, i as int));
    }
    s
}

/// The text of `line` before byte column `col`, as `str::get(..col)`
/// gives it: present exactly when `col` falls on a character boundary of
/// the UTF-8 encoding.
pub open spec fn line_prefix(line: Seq<char>, col: int) -> Option<Seq<char>> {
    let bytes = encode_utf8(line);
    if is_char_boundary(bytes, col) {
        Some(decode_utf8(bytes.subrange(0, col)))
    } else {
        None
    }
}

/// The text of `line` from byte column `col` on, as `str::get(col..)` gives it.
pub open spec fn line_suffix(line: Seq<char>, col: int) -> Option<Seq<char>> {
    let bytes = encode_utf8(line);
    if is_char_boundary(bytes, col) {
        Some(decode_utf8(bytes.subrange(col, bytes.len() as int)))
    } else {
        None
    }
}

/// `line.get(..col)`.
pub fn prefix_before(line: &str, col: usize) -> (r: Option<&str>)
    ensures
        match r {
            Some(p) => line_prefix(line@, col as int) == Some(p@) && utf8_len(p@) == col,
            None => line_prefix(line@, col as int) is None,
        },
{
    if line.is_char_boundary(col) {
        let (head, _tail) = line.split_at(col);
        proof {
            encode_utf8_decode_utf8(head@);
        }
        Some(head)
    } else {
        None
    }
}

/// `line.get(col..)`.
pub fn suffix_from(line: &str, col: usize) -> (r: Option<&str>)
    ensures
        match r {
            Some(p) => line_suffix(line@, col as int) == Some(p@),
            None => line_suffix(line@, col as int) is None,
        },
{
    if line.is_char_boundary(col) {
        let (_head, tail) = line.split_at(col);
        proof {
            encode_utf8_decode_utf8(tail@);
        }
        Some(tail)
    } else {
        None
    }
}

/// The number of bytes of the UTF-8 encoding of `s`.
pub open spec fn utf8_len(s: Seq<char>) -> int {
    encode_utf8(s).len() as int
}

/// Encoding a concatenation encodes each part in turn.
pub proof fn lemma_encode_concat(a: Seq<char>, b: Seq<char>)
    ensures
        encode_utf8(a + b) == encode_utf8(a) + encode_utf8(b),
    decreases a.len(),
{
    if a.len() == 0 {
        assert(a + b =~= b);
        assert(encode_utf8(a) =~= Seq::<u8>::empty());
        assert(encode_utf8(a) + encode_utf8(b) =~= encode_utf8(b));
    } else {
        assert((a + b).drop_first() =~= a.drop_first() + b);
        assert((a + b)[0] == a[0]);
        lemma_encode_concat(a.drop_first(), b);
        assert(encode_utf8(a + b) =~= encode_scalar(a[0] as u32) + (encode_utf8(a.drop_first())
            + encode_utf8(b)));
    }
}

/// The encoding of `s` followed by `c` is that of `s`, then that of `c`.
pub proof fn lemma_encode_push(s: Seq<char>, c: char)
    ensures
        encode_utf8(s.push(c)) == encode_utf8(s) + encode_scalar(c as u32),
        utf8_len(s.push(c)) == utf8_len(s) + encode_scalar(c as u32).len(),
{
    lemma_encode_concat(s, seq![c]);
    assert(s + seq![c] =~= s.push(c));
    assert(seq![c].drop_first() =~= Seq::<char>::empty());
    assert(seq![c][0] == c);
    assert(encode_utf8(Seq::<char>::empty()) =~= Seq::<u8>::empty());
    assert(encode_utf8(seq![c]) == encode_scalar(c as u32) + encode_utf8(Seq::<char>::empty()));
    assert(encode_utf8(seq![c]) =~= encode_scalar(c as u32));
}

/// A prefix never has a longer encoding than the whole.
pub proof fn lemma_utf8_len_take(s: Seq<char>, k: int)
    requires
        0 <= k <= s.len(),
    ensures
        utf8_len(s.take(k)) <= utf8_len(s),
{
    lemma_encode_concat(s.take(k), s.skip(k));
    assert(s.take(k) + s.skip(k) =~= s);
}

/// `char::len_utf8`.
pub fn utf8_width(c: char) -> (n: usize)
    ensures
        n == encode_scalar(c as u32).len(),
        1 <= n <= 4,
{
    let u = c as u32;
    proof {
        char_is_scalar(c);
    }
    if u < 0x80 {
        1
    } else if u < 0x800 {
        2
    } else if u < 0x10000 {
        3
    } else {
        4
    }
}

/// The number of times `c` occurs in `s`.
pub open spec fn count_char(s: Seq<char>, c: char) -> nat
    decreases s.len(),
{
    if s.len() == 0 {
        0
    } else {
        count_char(s.drop_last(), c) + if s.last() == c {
            1nat
        } else {
            0nat
        }
    }
}

/// The index of the last `c` in `s`, if `s` holds one.
pub open spec fn last_index_of(s: Seq<char>, c: char) -> Option<int>
    decreases s.len(),
{
    if s.len() == 0 {
        None
    } else if s.last() == c {
        Some(s.len() - 1)
    } else {
        last_index_of(s.drop_last(), c)
    }
}

/// What `last_index_of` finds: the last `c`.
pub proof fn lemma_last_index_of(s: Seq<char>, c: char)
    ensures
        match last_index_of(s, c) {
            Some(k) => 0 <= k < s.len() && s[k] == c && forall|j: int|
                k < j < s.len() ==> s[j] != c,
            None => forall|j: int| 0 <= j < s.len() ==> s[j] != c,
        },
    decreases s.len(),
{
    if s.len() > 0 {
        lemma_last_index_of(s.drop_last(), c);
        assert(forall|j: int| 0 <= j < s.len() - 1 ==> s.drop_last()[j] == s[j]);
    }
}

/// The last `c` in `v`: its index among the characters, and its byte
/// offset in the UTF-8 encoding (what `str::rfind` returns).
pub fn last_char_position(v: &Vec<char>, c: char) -> (r: Option<(usize, usize)>)
    requires
        utf8_len(v@) <= usize::MAX,
    ensures
        match r {
            Some((k, b)) => last_index_of(v@, c) == Some(k as int) && b == utf8_len(
                v@.take(k as int),
            ),
            None => last_index_of(v@, c) is None,
        },
{
    let mut found: Option<(usize, usize)> = None;
    let mut bytes: usize = 0;
    let mut i: usize = 0;
    assert(v@.take(0) =~= Seq::<char>::empty());
    while i < v.len()
        invariant
            i <= v.len(),
            utf8_len(v@) <= usize::MAX,
            bytes == utf8_len(v@.take(i as int)),
            match found {
                Some((k, b)) => last_index_of(v@.take(i as int), c) == Some(k as int) && b
                    == utf8_len(v@.take(k as int)),
                None => last_index_of(v@.take(i as int), c) is None,
            },
        decreases v.len() - i,
    {
        proof {
            lemma_encode_push(v@.take(i as int), v@[i as int]);
            assert(v@.take(i as int).push(v@[i as int]) =~= v@.take(i + 1));
            assert(v@.take(i + 1).drop_last() =~= v@.take(i as int));
            lemma_utf8_len_take(v@, i + 1);
        }
        if v[i] == c {
            found = Some((i, bytes));
        }
        bytes = bytes + utf8_width(v[i]);
        i = i + 1;
    }
    assert(v@.take(i as int) =~= v@);
    found
}

/// The characters with the Unicode `White_Space` property, which is what
/// `char::is_whitespace` tests.
pub open spec fn is_white_space(c: char) -> bool {
    ||| ('\u{9}' <= c && c <= '\u{d}')
    ||| c == ' '
    ||| c == '\u{85}'
    ||| c == '\u{a0}'
    ||| c == '\u{1680}'
    ||| ('\u{2000}' <= c && c <= '\u{200a}')
    ||| c == '\u{2028}'
    ||| c == '\u{2029}'
    ||| c == '\u{202f}'
    ||| c == '\u{205f}'
    ||| c == '\u{3000}'
}

/// `char::is_whitespace`.
pub fn is_whitespace(c: char) -> (r: bool)
    ensures
        r == is_white_space(c),
{
    ('\u{9}' <= c && c <= '\u{d}') || c == ' ' || c == '\u{85}' || c == '\u{a0}' || c
        == '\u{1680}' || ('\u{2000}' <= c && c <= '\u{200a}') || c == '\u{2028}' || c
        == '\u{2029}' || c == '\u{202f}' || c == '\u{205f}' || c == '\u{3000}'
}

/// `char::is_ascii_digit`.
pub open spec fn is_digit(c: char) -> bool {
    '0' <= c && c <= '9'
}

/// `s` without its leading white space, as `str::trim_start` gives it.
pub open spec fn trim_start(s: Seq<char>) -> Seq<char>
    decreases s.len(),
{
    if s.len() > 0 && is_white_space(s[0]) {
        trim_start(s.drop_first())
    } else {
        s
    }
}

/// `s` without its trailing white space, as `str::trim_end` gives it.
pub open spec fn trim_end(s: Seq<char>) -> Seq<char>
    decreases s.len(),
{
    if s.len() > 0 && is_white_space(s.last()) {
        trim_end(s.drop_last())
    } else {
        s
    }
}

/// The index in `v` where `trim_start(v@)` begins.
pub fn leading_white_space(v: &Vec<char>) -> (n: usize)
    ensures
        n <= v.len(),
        v@.skip(n as int) == trim_start(v@),
{
    let mut i: usize = 0;
    assert(v@.skip(0) =~= v@);
    while i < v.len() && is_whitespace(v[i])
        invariant
            i <= v.len(),
            trim_start(v@.skip(i as int)) == trim_start(v@),
        decreases v.len() - i,
    {
        assert(v@.skip(i as int).drop_first() =~= v@.skip(i + 1));
        i = i + 1;
    }
    proof {
        lemma_trim_start_stops(v@.skip(i as int));
    }
    i
}

proof fn lemma_trim_start_stops(s: Seq<char>)
    requires
        s.len() == 0 || !is_white_space(s[0]),
    ensures
        trim_start(s) == s,
{
}

/// Whether two strings hold the same characters.
pub fn str_equal(a: &str, b: &str) -> (r: bool)
    ensures
        r == (a@ == b@),
{
    let va = char_vec(a);
    let vb = char_vec(b);
    if va.len() != vb.len() {
        return false;
    }
    let mut i: usize = 0;
    while i < va.len()
        invariant
            va.len() == vb.len(),
            i <= va.len(),
            va@ == a@,
            vb@ == b@,
            forall|j: int| 0 <= j < i ==> va@[j] == vb@[j],
        decreases va.len() - i,
    {
        if va[i] != vb[i] {
            return false;
        }
        i = i + 1;
    }
    assert(a@ =~= b@);
    true
}

/// A line with one trailing carriage return taken off, if it has one.
pub open spec fn strip_cr(line: Seq<char>) -> Seq<char> {
    if line.len() > 0 && line.last() == '\r' {
        line.drop_last()
    } else {
        line
    }
}

/// Reading `s` from the left: the lines that a `'\n'` has ended so far, and
/// the text since the last `'\n'`.
pub open spec fn scan_lines(s: Seq<char>) -> (Seq<Seq<char>>, Seq<char>)
    decreases s.len(),
{
    if s.len() == 0 {
        (seq![], seq![])
    } else {
        let (done, cur) = scan_lines(s.drop_last());
        if s.last() == '\n' {
            (done.push(strip_cr(cur)), seq![])
        } else {
            (done, cur.push(s.last()))
        }
    }
}

/// The lines of `s`, as `str::lines` gives them: split at `"\n"` or
/// `"\r\n"`, where a final line ending adds no empty line.
pub open spec fn text_lines(s: Seq<char>) -> Seq<Seq<char>> {
    let (done, cur) = scan_lines(s);
    if cur.len() > 0 {
        done.push(cur)
    } else {
        done
    }
}

/// The character sequences held by a sequence of character vectors.
pub open spec fn char_views(v: Seq<Vec<char>>) -> Seq<Seq<char>> {
    v.map_values(|l: Vec<char>| l@)
}

/// The line of `text` at `line_index`, if there is one (the `line_at` of
/// the language server).
pub fn line_at(text: &str, line_index: u32) -> (r: Option<String>)
    ensures
        match r {
            Some(l) => line_index < text_lines(text@).len() && l@ == text_lines(
                text@,
            )[line_index as int],
            None => line_index >= text_lines(text@).len(),
        },
{
    let chars = char_vec(text);
    let mut lines: Vec<Vec<char>> = Vec::new();
    let mut cur: Vec<char> = Vec::new();
    let mut i: usize = 0;
    while i < chars.len()
        invariant
            i <= chars.len(),
            chars@ == text@,
            (char_views(lines@), cur@) == scan_lines(chars@.take(i as int)),
        decreases chars.len() - i,
    {
        let c = chars[i];
        assert(chars@.take(i + 1).drop_last() =~= chars@.take(i as int));
        if c == '\n' {
            let ghost prev_lines = char_views(lines@);
            let ghost prev_cur = cur@;
            if cur.len() > 0 && cur[cur.len() - 1] == '\r' {
                cur.pop();
                assert(cur@ =~= prev_cur.drop_last());
            }
            assert(cur@ == strip_cr(prev_cur));
            let done = cur;
            lines.push(done);
            cur = Vec::new();
            assert(char_views(lines@) =~= prev_lines.push(strip_cr(prev_cur)));
        } else {
            cur.push(c);
        }
        i = i + 1;
    }
    assert(chars@.take(i as int) =~= text@);
    if cur.len() > 0 {
        let ghost prev_lines = char_views(lines@);
        let ghost last = cur@;
        lines.push(cur);
        assert(char_views(lines@) =~= prev_lines.push(last));
    }
    let index = line_index as usize;
    if index < lines.len() {
        let l = &lines[index];
        assert(l@ == char_views(lines@)[index as int]);
        Some(string_from_chars(l, 0, l.len()))
    } else {
        None
    }
}

/// Whether `s` holds no `'\n'`.
pub open spec fn no_newline(s: Seq<char>) -> bool {
    forall|i: int| 0 <= i < s.len() ==> #[trigger] s[i] != '\n'
}

proof fn lemma_scan_lines_no_newline(s: Seq<char>)
    ensures
        no_newline(scan_lines(s).1),
        forall|i: int| 0 <= i < scan_lines(s).0.len() ==> no_newline(#[trigger] scan_lines(s).0[i]),
    decreases s.len(),
{
    if s.len() > 0 {
        lemma_scan_lines_no_newline(s.drop_last());
        let (done, cur) = scan_lines(s.drop_last());
        if s.last() == '\n' {
            let l = strip_cr(cur);
            assert(no_newline(l)) by {
                if cur.len() > 0 && cur.last() == '\r' {
                    assert forall|i: int| 0 <= i < l.len() implies #[trigger] l[i] != '\n' by {
                        assert(l[i] == cur[i]);
                    }
                }
            }
            assert forall|i: int| 0 <= i < done.push(l).len() implies no_newline(
                #[trigger] done.push(l)[i],
            ) by {
                if i < done.len() {
                    assert(done.push(l)[i] == done[i]);
                }
            }
        } else {
            assert forall|i: int| 0 <= i < cur.push(s.last()).len() implies #[trigger] cur.push(
                s.last(),
            )[i] != '\n' by {
                if i < cur.len() {
                    assert(cur.push(s.last())[i] == cur[i]);
                }
            }
        }
    }
}

/// No line of a text holds a line feed.
pub proof fn law_lines_hold_no_newline(s: Seq<char>)
    ensures
        forall|i: int| 0 <= i < text_lines(s).len() ==> no_newline(#[trigger] text_lines(s)[i]),
{
    lemma_scan_lines_no_newline(s);
    let (done, cur) = scan_lines(s);
    if cur.len() > 0 {
        assert forall|i: int| 0 <= i < done.push(cur).len() implies no_newline(
            #[trigger] done.push(cur)[i],
        ) by {
            if i < done.len() {
                assert(done.push(cur)[i] == done[i]);
            }
        }
    }
}

/// The prefix of a line before a byte column is as long as that column.
pub proof fn lemma_line_prefix_len(line: Seq<char>, col: int)
    requires
        line_prefix(line, col) is Some,
    ensures
        utf8_len(line_prefix(line, col)->0) == col,
{
    let bytes = encode_utf8(line);
    let sub = bytes.subrange(0, col);
    assert(valid_utf8(sub));
    assert(encode_utf8(decode_utf8(sub)) == sub);
}

} // verus!
