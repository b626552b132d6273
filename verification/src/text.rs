//! Text as the editor holds it: a `String`, addressed by byte offsets into
//! its UTF-8 encoding.

use crate::highlight::{plain_run, spans_from, spans_of, Token};
use crate::recognize::{
    cancelled_marker, completed_marker, empty_marker, lemma_match_in_bounds, lemma_match_shape,
    open_marker, style_at,
};
use crate::tasks::{
    cycled, fresh_task, last_occurrence, lemma_last_occurrence, lemma_line_start, line_start,
    replace_task_for_cursor, splice,
};
use vstd::prelude::*;
use vstd::string::StrSliceExecFns;
use vstd::utf8::{
    encode_utf8, encode_utf8_valid_utf8, is_char_boundary,
    is_char_boundary_iff_not_is_continuation_byte, is_char_boundary_start_end_of_seq,
    pop_first_scalar, valid_first_scalar, valid_utf8, valid_utf8_concat, valid_utf8_split,
};

verus! {

/// Every byte is an ASCII character.
pub open spec fn all_ascii(s: Seq<u8>) -> bool {
    forall|i: int| 0 <= i < s.len() ==> #[trigger] s[i] <= 0x7f
}

/// ASCII text is valid UTF-8.
pub proof fn lemma_ascii_valid(s: Seq<u8>)
    requires
        all_ascii(s),
    ensures
        valid_utf8(s),
    decreases s.len(),
{
    if s.len() > 0 {
        let b = s[0];
        assert(b & 0x7f <= 0x7f) by (bit_vector);
        assert(valid_first_scalar(s));
        let rest = pop_first_scalar(s);
        assert(rest =~= s.subrange(1, s.len() as int));
        assert forall|i: int| 0 <= i < rest.len() implies #[trigger] rest[i] <= 0x7f by {
            assert(rest[i] == s[i + 1]);
        }
        lemma_ascii_valid(rest);
    }
}

/// Valid text that begins with `n` ASCII bytes stays valid without them.
pub proof fn lemma_skip_ascii(s: Seq<u8>, n: int)
    requires
        valid_utf8(s),
        0 <= n <= s.len(),
        forall|i: int| 0 <= i < n ==> #[trigger] s[i] <= 0x7f,
    ensures
        valid_utf8(s.subrange(n, s.len() as int)),
    decreases n,
{
    if n == 0 {
        assert(s.subrange(0, s.len() as int) =~= s);
    } else {
        let first = s[0];
        let rest = pop_first_scalar(s);
        assert(rest =~= s.subrange(1, s.len() as int));
        assert forall|i: int| 0 <= i < n - 1 implies #[trigger] rest[i] <= 0x7f by {
            assert(rest[i] == s[i + 1]);
        }
        lemma_skip_ascii(rest, n - 1);
        assert(rest.subrange(n - 1, rest.len() as int) =~= s.subrange(n, s.len() as int));
    }
}

/// Valid text can be cut in front of any ASCII byte: both parts are valid.
pub proof fn lemma_cut_before_ascii(s: Seq<u8>, k: int)
    requires
        valid_utf8(s),
        0 <= k < s.len(),
        s[k] <= 0x7f,
    ensures
        valid_utf8(s.subrange(0, k)),
        valid_utf8(s.subrange(k, s.len() as int)),
{
    is_char_boundary_iff_not_is_continuation_byte(s, k);
    valid_utf8_split(s, k);
}

/// Valid text can be cut behind any ASCII byte: both parts are valid.
pub proof fn lemma_cut_after_ascii(s: Seq<u8>, k: int)
    requires
        valid_utf8(s),
        0 < k <= s.len(),
        s[k - 1] <= 0x7f,
    ensures
        valid_utf8(s.subrange(0, k)),
        valid_utf8(s.subrange(k, s.len() as int)),
{
    lemma_cut_before_ascii(s, k - 1);
    let tail = s.subrange(k - 1, s.len() as int);
    assert(tail[0] == s[k - 1]);
    lemma_skip_ascii(tail, 1);
    assert(tail.subrange(1, tail.len() as int) =~= s.subrange(k, s.len() as int));
    let one = seq![s[k - 1]];
    lemma_ascii_valid(one);
    valid_utf8_concat(s.subrange(0, k - 1), one);
    assert(s.subrange(0, k - 1) + one =~= s.subrange(0, k));
}

/// Replacing ASCII bytes of valid text by ASCII bytes leaves it valid.
pub proof fn lemma_splice_ascii(s: Seq<u8>, at: int, removed: int, inserted: Seq<u8>)
    requires
        valid_utf8(s),
        0 <= at,
        0 < removed,
        at + removed <= s.len(),
        forall|i: int| at <= i < at + removed ==> #[trigger] s[i] <= 0x7f,
        all_ascii(inserted),
    ensures
        valid_utf8(splice(s, at, removed, inserted)),
{
    lemma_cut_before_ascii(s, at);
    let tail = s.subrange(at, s.len() as int);
    assert forall|i: int| 0 <= i < removed implies #[trigger] tail[i] <= 0x7f by {
        assert(tail[i] == s[at + i]);
    }
    lemma_skip_ascii(tail, removed);
    assert(tail.subrange(removed, tail.len() as int) =~= s.subrange(
        at + removed,
        s.len() as int,
    ));
    lemma_ascii_valid(inserted);
    valid_utf8_concat(s.subrange(0, at), inserted);
    valid_utf8_concat(s.subrange(0, at) + inserted, s.subrange(at + removed, s.len() as int));
}

/// Putting ASCII bytes in front of a line of valid text leaves it valid.
pub proof fn lemma_insert_at_line_start(s: Seq<u8>, cursor: int, inserted: Seq<u8>)
    requires
        valid_utf8(s),
        0 <= cursor <= s.len(),
        all_ascii(inserted),
    ensures
        valid_utf8(splice(s, line_start(s, cursor), 0, inserted)),
{
    let at = line_start(s, cursor);
    lemma_line_start(s, cursor);
    if at == 0 {
        assert(s.subrange(0, 0) =~= Seq::<u8>::empty());
        assert(s.subrange(0, s.len() as int) =~= s);
        lemma_ascii_valid(s.subrange(0, 0));
    } else {
        lemma_cut_after_ascii(s, at);
    }
    lemma_ascii_valid(inserted);
    valid_utf8_concat(s.subrange(0, at), inserted);
    valid_utf8_concat(s.subrange(0, at) + inserted, s.subrange(at, s.len() as int));
}

/// Replacing the last occurrence of an ASCII marker on the line of the cursor
/// by ASCII bytes leaves valid text valid.
pub proof fn lemma_replace_marker(s: Seq<u8>, cursor: int, find: Seq<u8>, replace: Seq<u8>)
    requires
        valid_utf8(s),
        0 <= cursor <= s.len(),
        find.len() > 0,
        all_ascii(find),
        all_ascii(replace),
    ensures
        last_occurrence(s, find, line_start(s, cursor), cursor) matches Some(k) ==> valid_utf8(
            splice(s, k, find.len() as int, replace),
        ),
{
    let from = line_start(s, cursor);
    lemma_line_start(s, cursor);
    lemma_last_occurrence(s, find, from, cursor);
    if let Some(k) = last_occurrence(s, find, from, cursor) {
        assert forall|i: int| k <= i < k + find.len() implies #[trigger] s[i] <= 0x7f by {
            assert(s[k + (i - k)] == find[i - k]);
        }
        lemma_splice_ascii(s, k, find.len() as int, replace);
    }
}

/// Cycling a task leaves valid UTF-8 valid.
pub proof fn lemma_cycled_valid(s: Seq<u8>, cursor: int)
    requires
        valid_utf8(s),
        0 <= cursor <= s.len(),
    ensures
        valid_utf8(cycled(s, cursor)),
{
    lemma_replace_marker(s, cursor, cancelled_marker(), completed_marker());
    lemma_replace_marker(s, cursor, completed_marker(), cancelled_marker());
    lemma_replace_marker(s, cursor, empty_marker(), open_marker());
    lemma_replace_marker(s, cursor, open_marker(), completed_marker());
    lemma_insert_at_line_start(s, cursor, fresh_task());
}

/// Makes a `String` of bytes.
///
/// Calls `String::from_utf8`, which accepts exactly the valid UTF-8 and
/// returns a string whose encoding is the bytes it was given.
#[verifier::external_body]
pub(crate) fn string_from_utf8(bytes: Vec<u8>) -> (text: Option<String>)
    ensures
        text is Some <==> valid_utf8(bytes@),
        text matches Some(t) ==> encode_utf8(t@) == bytes@,
{
    String::from_utf8(bytes).ok()
}

/// The string that ASCII bytes spell.
pub fn ascii_string(bytes: Vec<u8>) -> (text: String)
    requires
        all_ascii(bytes@),
    ensures
        encode_utf8(text@) == bytes@,
{
    proof {
        lemma_ascii_valid(bytes@);
    }
    match string_from_utf8(bytes) {
        Some(text) => text,
        None => String::new(),
    }
}

/// The byte sequences that a list of strings encodes to.
pub open spec fn encodings(texts: Seq<String>) -> Seq<Seq<u8>> {
    Seq::new(texts.len(), |i: int| encode_utf8(texts[i]@))
}

/// Cycles the task on the line of the cursor, which stands `cursor_offset`
/// bytes into the buffer.
pub fn cycle(buffer: &mut String, cursor_offset: usize)
    requires
        cursor_offset <= encode_utf8(old(buffer)@).len(),
    ensures
        encode_utf8(final(buffer)@) == cycled(encode_utf8(old(buffer)@), cursor_offset as int),
{
    let mut bytes: Vec<u8> = buffer.as_str().as_bytes_vec();
    proof {
        encode_utf8_valid_utf8(buffer@);
        lemma_cycled_valid(bytes@, cursor_offset as int);
    }
    replace_task_for_cursor(&mut bytes, cursor_offset);
    match string_from_utf8(bytes) {
        Some(next) => {
            *buffer = next;
        },
        None => {},
    }
}

/// The first `chars` characters of a text; the whole text where it has no
/// more.
pub open spec fn first_chars(text: Seq<char>, chars: int) -> Seq<char> {
    if chars < text.len() {
        text.subrange(0, chars)
    } else {
        text
    }
}

/// The encoding of a text is the encoding of its first `k` characters
/// followed by the encoding of the rest.
pub proof fn lemma_encode_split(text: Seq<char>, k: int)
    requires
        0 <= k <= text.len(),
    ensures
        encode_utf8(text) == encode_utf8(text.subrange(0, k)) + encode_utf8(
            text.subrange(k, text.len() as int),
        ),
    decreases k,
{
    if k == 0 {
        assert(text.subrange(0, 0) =~= Seq::<char>::empty());
        assert(text.subrange(0, text.len() as int) =~= text);
        assert(encode_utf8(text) =~= encode_utf8(text.subrange(0, 0)) + encode_utf8(text));
    } else {
        let rest = text.drop_first();
        let head = text.subrange(0, k);
        lemma_encode_split(rest, k - 1);
        assert(head.drop_first() =~= rest.subrange(0, k - 1));
        assert(text.subrange(k, text.len() as int) =~= rest.subrange(k - 1, rest.len() as int));
        assert(head[0] == text[0]);
        assert(encode_utf8(text) =~= encode_utf8(head) + encode_utf8(
            text.subrange(k, text.len() as int),
        ));
    }
}

/// The byte offset at which the character with index `chars` begins: the
/// length of the encoding of the characters before it. An index at or beyond
/// the end of the text gives the length of the text in bytes.
pub fn byte_offset(text: &str, chars: usize) -> (offset: usize)
    ensures
        offset == encode_utf8(first_chars(text@, chars as int)).len(),
        offset <= encode_utf8(text@).len(),
        encode_utf8(text@).subrange(0, offset as int) == encode_utf8(
            first_chars(text@, chars as int),
        ),
{
    let n: usize = text.unicode_len();
    if chars < n {
        proof {
            lemma_encode_split(text@, chars as int);
        }
        let head = text.substring_char(0, chars);
        let offset: usize = head.as_bytes().len();
        assert(encode_utf8(text@).subrange(0, offset as int) =~= encode_utf8(head@));
        offset
    } else {
        let offset: usize = text.as_bytes().len();
        assert(encode_utf8(text@).subrange(0, offset as int) =~= encode_utf8(text@));
        offset
    }
}

/// Both ends of every token are character boundaries of the text.
pub open spec fn on_boundaries(s: Seq<u8>, ts: Seq<Token>) -> bool {
    forall|i: int|
        0 <= i < ts.len() ==> is_char_boundary(s, (#[trigger] ts[i]).start) && is_char_boundary(
            s,
            ts[i].end,
        )
}

/// In valid text a character begins behind every ASCII byte, unless the text
/// ends there.
pub proof fn lemma_boundary_after_ascii(s: Seq<u8>, k: int)
    requires
        valid_utf8(s),
        0 < k <= s.len(),
        s[k - 1] <= 0x7f,
    ensures
        is_char_boundary(s, k),
{
    if k == s.len() {
        is_char_boundary_start_end_of_seq(s);
    } else {
        lemma_cut_after_ascii(s, k);
        let rest = s.subrange(k, s.len() as int);
        assert(rest[0] == s[k]);
        assert(valid_first_scalar(rest));
        is_char_boundary_iff_not_is_continuation_byte(s, k);
    }
}

/// In valid text every match of a recognizer begins and ends on a character
/// boundary.
pub proof fn lemma_match_on_boundaries(s: Seq<u8>, at: int)
    requires
        valid_utf8(s),
        0 <= at <= s.len(),
    ensures
        style_at(s, at) matches Some(m) ==> is_char_boundary(s, at) && is_char_boundary(
            s,
            at + m.len,
        ),
{
    lemma_match_shape(s, at);
    lemma_match_in_bounds(s, at);
    if let Some(m) = style_at(s, at) {
        let end = at + m.len;
        is_char_boundary_iff_not_is_continuation_byte(s, at);
        if s[end - 1] <= 0x7f {
            lemma_boundary_after_ascii(s, end);
        } else if end == s.len() {
            is_char_boundary_start_end_of_seq(s);
        } else {
            is_char_boundary_iff_not_is_continuation_byte(s, end);
        }
    }
}

/// In valid text the spans emitted from a scan position lie on character
/// boundaries, where the pending plain run began on one.
pub proof fn lemma_spans_from_on_boundaries(s: Seq<u8>, at: int, pending: int)
    requires
        valid_utf8(s),
        0 <= pending <= at <= s.len(),
        is_char_boundary(s, pending),
    ensures
        on_boundaries(s, spans_from(s, at, pending)),
    decreases s.len() - at,
{
    is_char_boundary_start_end_of_seq(s);
    if at >= s.len() {
    } else {
        match style_at(s, at) {
            Some(m) => {
                lemma_match_in_bounds(s, at);
                lemma_match_on_boundaries(s, at);
                let found = Token { kind: m.kind, start: at, end: at + m.len };
                let head = plain_run(pending, at).push(found);
                let rest = spans_from(s, at + m.len, at + m.len);
                lemma_spans_from_on_boundaries(s, at + m.len, at + m.len);
                let all = head + rest;
                assert(spans_from(s, at, pending) == all);
                assert forall|i: int| 0 <= i < all.len() implies is_char_boundary(
                    s,
                    (#[trigger] all[i]).start,
                ) && is_char_boundary(s, all[i].end) by {
                    if i < head.len() {
                        assert(all[i] == head[i]);
                    } else {
                        assert(all[i] == rest[i - head.len()]);
                    }
                }
            },
            None => {
                lemma_spans_from_on_boundaries(s, at + 1, pending);
            },
        }
    }
}

/// The spans of a text never cut a character: both ends of every span are
/// character boundaries.
pub proof fn lemma_spans_on_boundaries(s: Seq<u8>)
    requires
        valid_utf8(s),
    ensures
        on_boundaries(s, spans_of(s)),
{
    is_char_boundary_start_end_of_seq(s);
    lemma_spans_from_on_boundaries(s, 0, 0);
}

} // verus!
