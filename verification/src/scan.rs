//! Left-to-right scans over bytes, shared by the recognizers.

use vstd::prelude::*;

verus! {

/// Horizontal tab.
pub const TAB: u8 = 0x09;

/// Line feed.
pub const LINE_FEED: u8 = 0x0a;

/// Carriage return.
pub const CARRIAGE_RETURN: u8 = 0x0d;

/// Space.
pub const SPACE: u8 = 0x20;

/// `#`
pub const HASH: u8 = 0x23;

/// `/`
pub const SLASH: u8 = 0x2f;

/// `:`
pub const COLON: u8 = 0x3a;

/// `[`
pub const OPEN_BRACKET: u8 = 0x5b;

/// `]`
pub const CLOSE_BRACKET: u8 = 0x5d;

/// The backtick.
pub const BACKTICK: u8 = 0x60;

/// `x`
pub const LOWER_X: u8 = 0x78;

/// The first position at or after `from` at which `stop` holds, or `len`
/// when it holds nowhere before the end.
pub open spec fn scan(len: int, from: int, stop: spec_fn(int) -> bool) -> int
    decreases len - from,
{
    if from >= len || stop(from) {
        from
    } else {
        scan(len, from + 1, stop)
    }
}

/// `scan` lands on the first stop: nothing before it stops, and it stops
/// there unless the input ran out.
pub proof fn lemma_scan(len: int, from: int, stop: spec_fn(int) -> bool)
    requires
        from <= len,
    ensures
        from <= scan(len, from, stop) <= len,
        forall|k: int| from <= k < scan(len, from, stop) ==> !#[trigger] stop(k),
        scan(len, from, stop) < len ==> stop(scan(len, from, stop)),
    decreases len - from,
{
    if from >= len || stop(from) {
    } else {
        lemma_scan(len, from + 1, stop);
    }
}

/// Space or tab.
pub open spec fn is_blank(b: u8) -> bool {
    b == SPACE || b == TAB
}

/// Line feed or carriage return.
pub open spec fn is_line_break(b: u8) -> bool {
    b == LINE_FEED || b == CARRIAGE_RETURN
}

/// ASCII letter or digit.
pub open spec fn is_alphanumeric(b: u8) -> bool {
    (0x30 <= b <= 0x39) || (0x61 <= b <= 0x7a) || (0x41 <= b <= 0x5a)
}

/// End of the run of blanks that starts at `from`.
pub open spec fn blanks_end(s: Seq<u8>, from: int) -> int {
    scan(s.len() as int, from, |k: int| !is_blank(s[k]))
}

/// End of the run of `#` that starts at `from`.
pub open spec fn hashes_end(s: Seq<u8>, from: int) -> int {
    scan(s.len() as int, from, |k: int| s[k] != HASH)
}

/// End of the run of ASCII letters and digits that starts at `from`.
pub open spec fn alphanumerics_end(s: Seq<u8>, from: int) -> int {
    scan(s.len() as int, from, |k: int| !is_alphanumeric(s[k]))
}

/// Position of the first line break at or after `from`, or the length.
pub open spec fn line_break_at(s: Seq<u8>, from: int) -> int {
    scan(s.len() as int, from, |k: int| is_line_break(s[k]))
}

/// Position of the first backtick at or after `from`, or the length.
pub open spec fn backtick_at(s: Seq<u8>, from: int) -> int {
    scan(s.len() as int, from, |k: int| s[k] == BACKTICK)
}

/// Skips the blanks that start at `from`.
pub fn skip_blanks(text: &[u8], from: usize) -> (end: usize)
    requires
        from <= text@.len(),
    ensures
        end == blanks_end(text@, from as int),
        from <= end <= text@.len(),
{
    let mut j: usize = from;
    while j < text.len() && (text[j] == SPACE || text[j] == TAB)
        invariant
            from <= j <= text@.len(),
            blanks_end(text@, from as int) == blanks_end(text@, j as int),
        decreases text@.len() - j,
    {
        j += 1;
    }
    j
}

/// Skips the `#` that start at `from`.
pub fn skip_hashes(text: &[u8], from: usize) -> (end: usize)
    requires
        from <= text@.len(),
    ensures
        end == hashes_end(text@, from as int),
        from <= end <= text@.len(),
{
    let mut j: usize = from;
    while j < text.len() && text[j] == HASH
        invariant
            from <= j <= text@.len(),
            hashes_end(text@, from as int) == hashes_end(text@, j as int),
        decreases text@.len() - j,
    {
        j += 1;
    }
    j
}

/// Whether a byte is an ASCII letter or digit.
pub fn is_alphanumeric_byte(b: u8) -> (r: bool)
    ensures
        r == is_alphanumeric(b),
{
    (0x30 <= b && b <= 0x39) || (0x61 <= b && b <= 0x7a) || (0x41 <= b && b <= 0x5a)
}

/// Skips the ASCII letters and digits that start at `from`.
pub fn skip_alphanumerics(text: &[u8], from: usize) -> (end: usize)
    requires
        from <= text@.len(),
    ensures
        end == alphanumerics_end(text@, from as int),
        from <= end <= text@.len(),
{
    let mut j: usize = from;
    while j < text.len() && is_alphanumeric_byte(text[j])
        invariant
            from <= j <= text@.len(),
            alphanumerics_end(text@, from as int) == alphanumerics_end(text@, j as int),
        decreases text@.len() - j,
    {
        j += 1;
    }
    j
}

/// Finds the first line break at or after `from`.
pub fn find_line_break(text: &[u8], from: usize) -> (end: usize)
    requires
        from <= text@.len(),
    ensures
        end == line_break_at(text@, from as int),
        from <= end <= text@.len(),
{
    let mut j: usize = from;
    while j < text.len() && !(text[j] == LINE_FEED || text[j] == CARRIAGE_RETURN)
        invariant
            from <= j <= text@.len(),
            line_break_at(text@, from as int) == line_break_at(text@, j as int),
        decreases text@.len() - j,
    {
        j += 1;
    }
    j
}

/// Finds the first backtick at or after `from`.
pub fn find_backtick(text: &[u8], from: usize) -> (end: usize)
    requires
        from <= text@.len(),
    ensures
        end == backtick_at(text@, from as int),
        from <= end <= text@.len(),
{
    let mut j: usize = from;
    while j < text.len() && text[j] != BACKTICK
        invariant
            from <= j <= text@.len(),
            backtick_at(text@, from as int) == backtick_at(text@, j as int),
        decreases text@.len() - j,
    {
        j += 1;
    }
    j
}

/// A white-space character begins at position `i`.
///
/// The characters are those with the Unicode property White_Space, each in
/// its UTF-8 encoding: U+0009 to U+000D, U+0020, U+0085, U+00A0, U+1680,
/// U+2000 to U+200A, U+2028, U+2029, U+202F, U+205F and U+3000.
pub open spec fn whitespace_at(s: Seq<u8>, i: int) -> bool {
    &&& 0 <= i < s.len()
    &&& {
        ||| 0x09 <= s[i] <= 0x0d
        ||| s[i] == 0x20
        ||| i + 1 < s.len() && s[i] == 0xc2 && (s[i + 1] == 0x85 || s[i + 1] == 0xa0)
        ||| i + 2 < s.len() && s[i] == 0xe1 && s[i + 1] == 0x9a && s[i + 2] == 0x80
        ||| i + 2 < s.len() && s[i] == 0xe2 && s[i + 1] == 0x80 && (0x80 <= s[i + 2] <= 0x8a
            || s[i + 2] == 0xa8 || s[i + 2] == 0xa9 || s[i + 2] == 0xaf)
        ||| i + 2 < s.len() && s[i] == 0xe2 && s[i + 1] == 0x81 && s[i + 2] == 0x9f
        ||| i + 2 < s.len() && s[i] == 0xe3 && s[i + 1] == 0x80 && s[i + 2] == 0x80
    }
}

/// Position of the first white-space character at or after `from`, or the
/// length.
pub open spec fn whitespace_from(s: Seq<u8>, from: int) -> int {
    scan(s.len() as int, from, |k: int| whitespace_at(s, k))
}

/// Whether a white-space character begins at position `i`.
pub fn is_whitespace_at(text: &[u8], i: usize) -> (r: bool)
    requires
        i < text@.len(),
    ensures
        r == whitespace_at(text@, i as int),
{
    let n: usize = text.len();
    let b0: u8 = text[i];
    if (0x09 <= b0 && b0 <= 0x0d) || b0 == 0x20 {
        return true;
    }
    if n - i < 2 {
        return false;
    }
    let b1: u8 = text[i + 1];
    if b0 == 0xc2 {
        return b1 == 0x85 || b1 == 0xa0;
    }
    if n - i < 3 {
        return false;
    }
    let b2: u8 = text[i + 2];
    if b0 == 0xe1 {
        b1 == 0x9a && b2 == 0x80
    } else if b0 == 0xe2 {
        (b1 == 0x80 && ((0x80 <= b2 && b2 <= 0x8a) || b2 == 0xa8 || b2 == 0xa9 || b2 == 0xaf))
            || (b1 == 0x81 && b2 == 0x9f)
    } else if b0 == 0xe3 {
        b1 == 0x80 && b2 == 0x80
    } else {
        false
    }
}

/// Finds the first white-space character at or after `from`.
pub fn find_whitespace(text: &[u8], from: usize) -> (end: usize)
    requires
        from <= text@.len(),
    ensures
        end == whitespace_from(text@, from as int),
        from <= end <= text@.len(),
{
    let mut j: usize = from;
    while j < text.len() && !is_whitespace_at(text, j)
        invariant
            from <= j <= text@.len(),
            whitespace_from(text@, from as int) == whitespace_from(text@, j as int),
        decreases text@.len() - j,
    {
        j += 1;
    }
    j
}

/// The bytes of `pattern` stand in `s` from position `at` on.
pub open spec fn occurs_at(s: Seq<u8>, pattern: Seq<u8>, at: int) -> bool {
    &&& 0 <= at
    &&& at + pattern.len() <= s.len()
    &&& forall|k: int| 0 <= k < pattern.len() ==> #[trigger] s[at + k] == pattern[k]
}

/// Whether the bytes of `pattern` stand in the text from position `at` on.
pub fn has_pattern(text: &[u8], pattern: &[u8], at: usize) -> (r: bool)
    ensures
        r == occurs_at(text@, pattern@, at as int),
        r ==> at + pattern@.len() <= usize::MAX,
{
    if at > text.len() || text.len() - at < pattern.len() {
        return false;
    }
    let mut k: usize = 0;
    while k < pattern.len()
        invariant
            k <= pattern.len(),
            at + pattern.len() <= text.len(),
            forall|j: int| 0 <= j < k ==> #[trigger] text@[at + j] == pattern@[j],
        decreases pattern@.len() - k,
    {
        if text[at + k] != pattern[k] {
            return false;
        }
        k += 1;
    }
    true
}

} // verus!
