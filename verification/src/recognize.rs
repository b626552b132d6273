//! The markup constructs and their recognizers.
//!
//! A recognizer looks at the text from one position on and either consumes a
//! whole construct or does not match. Each exists twice: as a spec function
//! on a sequence of bytes, and as the function that computes it.

use crate::scan::{
    alphanumerics_end, backtick_at, blanks_end, find_backtick, find_line_break, find_whitespace,
    has_pattern, hashes_end, is_alphanumeric, is_blank, is_line_break, lemma_scan, line_break_at,
    occurs_at, skip_alphanumerics, skip_blanks, skip_hashes, whitespace_at, whitespace_from,
    BACKTICK, CLOSE_BRACKET, COLON, HASH, LINE_FEED, LOWER_X, OPEN_BRACKET, SLASH, SPACE,
};
use vstd::prelude::*;

verus! {

/// What a span of text is.
#[derive(Copy, Clone, Debug, PartialEq, Eq, Structural)]
pub enum SpanKind {
    /// Text outside every construct.
    Plain,
    /// A header line, with the number of `#` that introduce it.
    Header { hashes: usize },
    /// A task still to do: `[ ]` or `[]`.
    OpenTask,
    /// A task given up: `[x]`.
    CancelledTask,
    /// A task done: `[/]`.
    CompletedTask,
    /// Text between two backticks.
    Code,
    /// A scheme, `://` and what follows up to the next white space.
    Link,
}

/// A successful recognition: the construct and the number of bytes it takes.
pub struct Match {
    pub kind: SpanKind,
    pub len: int,
}

/// What a recognizer hands back on a match.
#[derive(Copy, Clone, Debug, PartialEq, Eq, Structural)]
pub struct Style {
    pub look: SpanKind,
    pub len: usize,
}

impl View for Style {
    type V = Match;

    open spec fn view(&self) -> Match {
        Match { kind: self.look, len: self.len as int }
    }
}

/// The outcome computed agrees with the outcome specified.
pub open spec fn agrees(found: Option<Style>, expected: Option<Match>) -> bool {
    match found {
        Some(style) => expected == Some(style@),
        None => expected is None,
    }
}

/// `[ ]`
pub open spec fn open_marker() -> Seq<u8> {
    seq![OPEN_BRACKET, SPACE, CLOSE_BRACKET]
}

/// `[]`
pub open spec fn empty_marker() -> Seq<u8> {
    seq![OPEN_BRACKET, CLOSE_BRACKET]
}

/// `[x]`
pub open spec fn cancelled_marker() -> Seq<u8> {
    seq![OPEN_BRACKET, LOWER_X, CLOSE_BRACKET]
}

/// `[/]`
pub open spec fn completed_marker() -> Seq<u8> {
    seq![OPEN_BRACKET, SLASH, CLOSE_BRACKET]
}

/// `://`
pub open spec fn scheme_separator() -> Seq<u8> {
    seq![COLON, SLASH, SLASH]
}

/// One past the line feed that ends the line, when the first line break at or
/// after `from` is a line feed. A carriage return there, or the end of the
/// text, leaves the line unterminated.
pub open spec fn line_end(s: Seq<u8>, from: int) -> Option<int> {
    let k = line_break_at(s, from);
    if k < s.len() && s[k] == LINE_FEED {
        Some(k + 1)
    } else {
        None
    }
}

/// Header: blanks, one or more `#`, the rest of the line, a line feed.
pub open spec fn header_at(s: Seq<u8>, at: int) -> Option<Match> {
    let a = blanks_end(s, at);
    let b = hashes_end(s, a);
    if b > a {
        match line_end(s, b) {
            Some(e) => Some(Match { kind: SpanKind::Header { hashes: (b - a) as usize }, len: e - at }),
            None => None,
        }
    } else {
        None
    }
}

/// Task line: blanks, the marker, the rest of the line, a line feed.
pub open spec fn task_at(s: Seq<u8>, at: int, marker: Seq<u8>, kind: SpanKind) -> Option<Match> {
    let a = blanks_end(s, at);
    if occurs_at(s, marker, a) {
        match line_end(s, a + marker.len()) {
            Some(e) => Some(Match { kind, len: e - at }),
            None => None,
        }
    } else {
        None
    }
}

/// Open task: a task line with `[ ]` or `[]`.
pub open spec fn open_task_at(s: Seq<u8>, at: int) -> Option<Match> {
    match task_at(s, at, open_marker(), SpanKind::OpenTask) {
        Some(m) => Some(m),
        None => task_at(s, at, empty_marker(), SpanKind::OpenTask),
    }
}

/// Cancelled task: a task line with `[x]`.
pub open spec fn cancelled_task_at(s: Seq<u8>, at: int) -> Option<Match> {
    task_at(s, at, cancelled_marker(), SpanKind::CancelledTask)
}

/// Completed task: a task line with `[/]`.
pub open spec fn completed_task_at(s: Seq<u8>, at: int) -> Option<Match> {
    task_at(s, at, completed_marker(), SpanKind::CompletedTask)
}

/// Inline code: a backtick, bytes without a backtick, a backtick.
pub open spec fn code_at(s: Seq<u8>, at: int) -> Option<Match> {
    if 0 <= at < s.len() && s[at] == BACKTICK {
        let close = backtick_at(s, at + 1);
        if close < s.len() {
            Some(Match { kind: SpanKind::Code, len: close + 1 - at })
        } else {
            None
        }
    } else {
        None
    }
}

/// Hyperlink: one or more ASCII letters or digits, `://`, then one or more
/// characters up to the next white space or the end of the text.
pub open spec fn hyperlink_at(s: Seq<u8>, at: int) -> Option<Match> {
    let a = alphanumerics_end(s, at);
    if a > at && occurs_at(s, scheme_separator(), a) {
        let e = whitespace_from(s, a + 3);
        if e > a + 3 {
            Some(Match { kind: SpanKind::Link, len: e - at })
        } else {
            None
        }
    } else {
        None
    }
}

/// The left outcome if it is a match, else the right one.
pub open spec fn or_else(left: Option<Match>, right: Option<Match>) -> Option<Match> {
    if left is Some {
        left
    } else {
        right
    }
}

/// The construct that begins at `at`: the first recognizer that matches, in
/// the order header, open task, cancelled task, completed task, inline code,
/// hyperlink.
pub open spec fn style_at(s: Seq<u8>, at: int) -> Option<Match> {
    or_else(
        header_at(s, at),
        or_else(
            open_task_at(s, at),
            or_else(
                cancelled_task_at(s, at),
                or_else(completed_task_at(s, at), or_else(code_at(s, at), hyperlink_at(s, at))),
            ),
        ),
    )
}

/// Every match consumes at least one byte and stays inside the text.
pub proof fn lemma_match_in_bounds(s: Seq<u8>, at: int)
    requires
        0 <= at <= s.len(),
    ensures
        style_at(s, at) matches Some(m) ==> 0 < m.len && at + m.len <= s.len(),
{
    let len = s.len() as int;
    let a = blanks_end(s, at);
    lemma_scan(len, at, |k: int| !is_blank(s[k]));
    let b = hashes_end(s, a);
    lemma_scan(len, a, |k: int| s[k] != HASH);
    lemma_scan(len, b, |k: int| is_line_break(s[k]));
    if a + 3 <= len {
        lemma_scan(len, a + 3, |k: int| is_line_break(s[k]));
    }
    if a + 2 <= len {
        lemma_scan(len, a + 2, |k: int| is_line_break(s[k]));
    }
    if at + 1 <= len {
        lemma_scan(len, at + 1, |k: int| s[k] == BACKTICK);
    }
    let c = alphanumerics_end(s, at);
    lemma_scan(len, at, |k: int| !is_alphanumeric(s[k]));
    if c + 3 <= len {
        lemma_scan(len, c + 3, |k: int| whitespace_at(s, k));
    }
}

/// Every match begins with an ASCII byte, and ends behind an ASCII byte, at
/// the end of the text, or in front of a white-space character.
pub proof fn lemma_match_shape(s: Seq<u8>, at: int)
    requires
        0 <= at <= s.len(),
    ensures
        style_at(s, at) matches Some(m) ==> {
            &&& at < s.len()
            &&& s[at] <= 0x7f
            &&& (s[at + m.len - 1] <= 0x7f || at + m.len == s.len() || whitespace_at(
                s,
                at + m.len,
            ))
        },
{
    let len = s.len() as int;
    lemma_match_in_bounds(s, at);
    let a = blanks_end(s, at);
    lemma_scan(len, at, |k: int| !is_blank(s[k]));
    let b = hashes_end(s, a);
    lemma_scan(len, a, |k: int| s[k] != HASH);
    lemma_scan(len, b, |k: int| is_line_break(s[k]));
    if a + 3 <= len {
        lemma_scan(len, a + 3, |k: int| is_line_break(s[k]));
    }
    if a + 2 <= len {
        lemma_scan(len, a + 2, |k: int| is_line_break(s[k]));
    }
    if at + 1 <= len {
        lemma_scan(len, at + 1, |k: int| s[k] == BACKTICK);
    }
    let c = alphanumerics_end(s, at);
    lemma_scan(len, at, |k: int| !is_alphanumeric(s[k]));
    if c + 3 <= len {
        lemma_scan(len, c + 3, |k: int| whitespace_at(s, k));
    }
    if a > at {
        assert(is_blank(s[at]));
    }
    if occurs_at(s, open_marker(), a) {
        assert(s[a + 0] == open_marker()[0]);
    }
    if occurs_at(s, empty_marker(), a) {
        assert(s[a + 0] == empty_marker()[0]);
    }
    if occurs_at(s, cancelled_marker(), a) {
        assert(s[a + 0] == cancelled_marker()[0]);
    }
    if occurs_at(s, completed_marker(), a) {
        assert(s[a + 0] == completed_marker()[0]);
    }
    if c > at {
        assert(is_alphanumeric(s[at]));
    }
}

/// The end of the line that `from` lies on, if a line feed ends it.
pub fn end_of_line(text: &[u8], from: usize) -> (end: Option<usize>)
    requires
        from <= text@.len(),
    ensures
        match end {
            Some(e) => line_end(text@, from as int) == Some(e as int) && from < e <= text@.len(),
            None => line_end(text@, from as int) is None,
        },
{
    let k: usize = find_line_break(text, from);
    if k < text.len() && text[k] == LINE_FEED {
        Some(k + 1)
    } else {
        None
    }
}

/// Recognizes a header at `at`.
pub fn header(text: &[u8], at: usize) -> (found: Option<Style>)
    requires
        at <= text@.len(),
    ensures
        agrees(found, header_at(text@, at as int)),
{
    let a: usize = skip_blanks(text, at);
    let b: usize = skip_hashes(text, a);
    if b > a {
        match end_of_line(text, b) {
            Some(e) => Some(Style { look: SpanKind::Header { hashes: b - a }, len: e - at }),
            None => None,
        }
    } else {
        None
    }
}

/// Recognizes a task line with the given marker at `at`.
pub fn task(text: &[u8], at: usize, marker: &[u8], look: SpanKind) -> (found: Option<Style>)
    requires
        at <= text@.len(),
    ensures
        agrees(found, task_at(text@, at as int, marker@, look)),
{
    let a: usize = skip_blanks(text, at);
    if has_pattern(text, marker, a) {
        match end_of_line(text, a + marker.len()) {
            Some(e) => Some(Style { look, len: e - at }),
            None => None,
        }
    } else {
        None
    }
}

/// Recognizes an open task at `at`.
pub fn open_task(text: &[u8], at: usize) -> (found: Option<Style>)
    requires
        at <= text@.len(),
    ensures
        agrees(found, open_task_at(text@, at as int)),
{
    let spaced: [u8; 3] = [OPEN_BRACKET, SPACE, CLOSE_BRACKET];
    let bare: [u8; 2] = [OPEN_BRACKET, CLOSE_BRACKET];
    assert(spaced@ =~= open_marker());
    assert(bare@ =~= empty_marker());
    match task(text, at, spaced.as_slice(), SpanKind::OpenTask) {
        Some(style) => Some(style),
        None => task(text, at, bare.as_slice(), SpanKind::OpenTask),
    }
}

/// Recognizes a cancelled task at `at`.
pub fn cancelled_task(text: &[u8], at: usize) -> (found: Option<Style>)
    requires
        at <= text@.len(),
    ensures
        agrees(found, cancelled_task_at(text@, at as int)),
{
    let marker: [u8; 3] = [OPEN_BRACKET, LOWER_X, CLOSE_BRACKET];
    assert(marker@ =~= cancelled_marker());
    task(text, at, marker.as_slice(), SpanKind::CancelledTask)
}

/// Recognizes a completed task at `at`.
pub fn completed_task(text: &[u8], at: usize) -> (found: Option<Style>)
    requires
        at <= text@.len(),
    ensures
        agrees(found, completed_task_at(text@, at as int)),
{
    let marker: [u8; 3] = [OPEN_BRACKET, SLASH, CLOSE_BRACKET];
    assert(marker@ =~= completed_marker());
    task(text, at, marker.as_slice(), SpanKind::CompletedTask)
}

/// Recognizes inline code at `at`.
pub fn code(text: &[u8], at: usize) -> (found: Option<Style>)
    requires
        at <= text@.len(),
    ensures
        agrees(found, code_at(text@, at as int)),
{
    if at < text.len() && text[at] == BACKTICK {
        let close: usize = find_backtick(text, at + 1);
        if close < text.len() {
            Some(Style { look: SpanKind::Code, len: close + 1 - at })
        } else {
            None
        }
    } else {
        None
    }
}

/// Recognizes a hyperlink at `at`.
pub fn hyperlink(text: &[u8], at: usize) -> (found: Option<Style>)
    requires
        at <= text@.len(),
    ensures
        agrees(found, hyperlink_at(text@, at as int)),
{
    let separator: [u8; 3] = [COLON, SLASH, SLASH];
    assert(separator@ =~= scheme_separator());
    let a: usize = skip_alphanumerics(text, at);
    if a > at && has_pattern(text, separator.as_slice(), a) {
        let e: usize = find_whitespace(text, a + 3);
        if e > a + 3 {
            Some(Style { look: SpanKind::Link, len: e - at })
        } else {
            None
        }
    } else {
        None
    }
}

/// Recognizes the construct that begins at `at`, trying the recognizers in
/// their fixed order.
pub fn style(text: &[u8], at: usize) -> (found: Option<Style>)
    requires
        at <= text@.len(),
    ensures
        agrees(found, style_at(text@, at as int)),
        found matches Some(st) ==> 0 < st.len && at + st.len <= text@.len(),
{
    proof {
        lemma_match_in_bounds(text@, at as int);
    }
    if let Some(st) = header(text, at) {
        return Some(st);
    }
    if let Some(st) = open_task(text, at) {
        return Some(st);
    }
    if let Some(st) = cancelled_task(text, at) {
        return Some(st);
    }
    if let Some(st) = completed_task(text, at) {
        return Some(st);
    }
    if let Some(st) = code(text, at) {
        return Some(st);
    }
    hyperlink(text, at)
}

} // verus!
