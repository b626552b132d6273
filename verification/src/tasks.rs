//! Cycling the status of the task on the line of the cursor.

use crate::recognize::{cancelled_marker, completed_marker, empty_marker, open_marker};
use crate::scan::{
    has_pattern, occurs_at, CLOSE_BRACKET, LINE_FEED, LOWER_X, OPEN_BRACKET, SLASH, SPACE,
};
use vstd::prelude::*;

verus! {

/// Where the line that holds position `cursor` begins: behind the last line
/// feed before the cursor, or at 0 when there is none.
pub open spec fn line_start(s: Seq<u8>, cursor: int) -> int
    decreases cursor,
{
    if cursor <= 0 {
        0
    } else if s[cursor - 1] == LINE_FEED {
        cursor
    } else {
        line_start(s, cursor - 1)
    }
}

/// Where `pattern` last occurs wholly inside `from..to`; `None` when it
/// occurs nowhere there.
pub open spec fn last_occurrence(s: Seq<u8>, pattern: Seq<u8>, from: int, to: int) -> Option<int>
    decreases to - from - pattern.len() + 1,
{
    if to - from < pattern.len() {
        None
    } else if occurs_at(s, pattern, to - pattern.len()) {
        Some(to - pattern.len())
    } else {
        last_occurrence(s, pattern, from, to - 1)
    }
}

/// `s` with the `removed` bytes at `at` replaced by `inserted`.
pub open spec fn splice(s: Seq<u8>, at: int, removed: int, inserted: Seq<u8>) -> Seq<u8> {
    s.subrange(0, at) + inserted + s.subrange(at + removed, s.len() as int)
}

/// `s` with the last occurrence of `find` in `from..to` replaced, if there is
/// one.
pub open spec fn replaced_last(
    s: Seq<u8>,
    from: int,
    to: int,
    find: Seq<u8>,
    replace: Seq<u8>,
) -> Option<Seq<u8>> {
    match last_occurrence(s, find, from, to) {
        Some(k) => Some(splice(s, k, find.len() as int, replace)),
        None => None,
    }
}

/// What is put in front of a line that holds no marker.
pub open spec fn fresh_task() -> Seq<u8> {
    seq![OPEN_BRACKET, SPACE, CLOSE_BRACKET, SPACE]
}

/// The text after one cycle with the cursor at `cursor`.
///
/// On the line up to the cursor, the last `[x]` becomes `[/]`; if there is
/// none, the last `[/]` becomes `[x]`; else the last `[]` becomes `[ ]`; else
/// the last `[ ]` becomes `[/]`. A line with none of them gets `[ ] ` put
/// in front of it.
pub open spec fn cycled(s: Seq<u8>, cursor: int) -> Seq<u8> {
    let from = line_start(s, cursor);
    if let Some(t) = replaced_last(s, from, cursor, cancelled_marker(), completed_marker()) {
        t
    } else if let Some(t) = replaced_last(s, from, cursor, completed_marker(), cancelled_marker()) {
        t
    } else if let Some(t) = replaced_last(s, from, cursor, empty_marker(), open_marker()) {
        t
    } else if let Some(t) = replaced_last(s, from, cursor, open_marker(), completed_marker()) {
        t
    } else {
        splice(s, from, 0, fresh_task())
    }
}

/// What `last_occurrence` finds is an occurrence inside the range with no
/// occurrence behind it; where it finds nothing there is none.
pub proof fn lemma_last_occurrence(s: Seq<u8>, pattern: Seq<u8>, from: int, to: int)
    requires
        0 <= from,
        to <= s.len(),
    ensures
        match last_occurrence(s, pattern, from, to) {
            Some(k) => {
                &&& from <= k
                &&& k + pattern.len() <= to
                &&& occurs_at(s, pattern, k)
                &&& forall|j: int| k < j && j + pattern.len() <= to ==> !occurs_at(s, pattern, j)
            },
            None => forall|j: int|
                from <= j && j + pattern.len() <= to ==> !occurs_at(s, pattern, j),
        },
    decreases to - from - pattern.len() + 1,
{
    if to - from < pattern.len() {
    } else if occurs_at(s, pattern, to - pattern.len()) {
    } else {
        lemma_last_occurrence(s, pattern, from, to - 1);
    }
}

/// The start of a line lies at or before the cursor, behind a line feed or
/// at 0, and no line feed stands between it and the cursor.
pub proof fn lemma_line_start(s: Seq<u8>, cursor: int)
    requires
        0 <= cursor <= s.len(),
    ensures
        0 <= line_start(s, cursor) <= cursor,
        line_start(s, cursor) > 0 ==> s[line_start(s, cursor) - 1] == LINE_FEED,
        forall|j: int| line_start(s, cursor) <= j < cursor ==> s[j] != LINE_FEED,
    decreases cursor,
{
    if cursor > 0 && s[cursor - 1] != LINE_FEED {
        lemma_line_start(s, cursor - 1);
    }
}

/// A replacement on the line of the cursor touches nothing before the start
/// of that line and nothing from the cursor on.
pub proof fn lemma_replacement_is_local(
    s: Seq<u8>,
    cursor: int,
    find: Seq<u8>,
    replace: Seq<u8>,
)
    requires
        0 <= cursor <= s.len(),
    ensures
        replaced_last(s, line_start(s, cursor), cursor, find, replace) matches Some(t) ==> {
            &&& t.len() == s.len() - find.len() + replace.len()
            &&& t.subrange(0, line_start(s, cursor)) == s.subrange(0, line_start(s, cursor))
            &&& t.subrange(cursor - find.len() + replace.len(), t.len() as int) == s.subrange(
                cursor,
                s.len() as int,
            )
        },
{
    let from = line_start(s, cursor);
    lemma_line_start(s, cursor);
    lemma_last_occurrence(s, find, from, cursor);
    if let Some(k) = last_occurrence(s, find, from, cursor) {
        let t = splice(s, k, find.len() as int, replace);
        assert(t.subrange(0, from) =~= s.subrange(0, from));
        assert(t.subrange(cursor - find.len() + replace.len(), t.len() as int) =~= s.subrange(
            cursor,
            s.len() as int,
        ));
    }
}

/// A cycle changes only the line of the cursor, and of it only the part
/// before the cursor: the text before the start of the line and the text
/// from the cursor on stay as they were, and nothing gets shorter.
pub proof fn lemma_cycle_keeps_other_lines(s: Seq<u8>, cursor: int)
    requires
        0 <= cursor <= s.len(),
    ensures
        cycled(s, cursor).len() >= s.len(),
        cycled(s, cursor).subrange(0, line_start(s, cursor)) == s.subrange(
            0,
            line_start(s, cursor),
        ),
        cycled(s, cursor).subrange(
            cursor + cycled(s, cursor).len() - s.len(),
            cycled(s, cursor).len() as int,
        ) == s.subrange(cursor, s.len() as int),
{
    let from = line_start(s, cursor);
    lemma_line_start(s, cursor);
    lemma_replacement_is_local(s, cursor, cancelled_marker(), completed_marker());
    lemma_replacement_is_local(s, cursor, completed_marker(), cancelled_marker());
    lemma_replacement_is_local(s, cursor, empty_marker(), open_marker());
    lemma_replacement_is_local(s, cursor, open_marker(), completed_marker());
    let t = splice(s, from, 0, fresh_task());
    assert(t.subrange(0, from) =~= s.subrange(0, from));
    assert(t.subrange(cursor + 4, t.len() as int) =~= s.subrange(cursor, s.len() as int));
}

/// A line that holds none of the four markers before the cursor gets `[ ] `
/// put in front of it, and nothing else changes.
pub proof fn lemma_cycle_markerless(s: Seq<u8>, cursor: int)
    requires
        0 <= cursor <= s.len(),
        forall|j: int|
            line_start(s, cursor) <= j < cursor ==> !occurs_at(s, cancelled_marker(), j)
                && !occurs_at(s, completed_marker(), j) && !occurs_at(s, empty_marker(), j)
                && !occurs_at(s, open_marker(), j),
    ensures
        cycled(s, cursor) == s.subrange(0, line_start(s, cursor)) + fresh_task() + s.subrange(
            line_start(s, cursor),
            s.len() as int,
        ),
{
    let from = line_start(s, cursor);
    lemma_line_start(s, cursor);
    lemma_last_occurrence(s, cancelled_marker(), from, cursor);
    lemma_last_occurrence(s, completed_marker(), from, cursor);
    lemma_last_occurrence(s, empty_marker(), from, cursor);
    lemma_last_occurrence(s, open_marker(), from, cursor);
}

/// `pattern` occurs nowhere wholly inside `from..to`.
pub open spec fn absent(s: Seq<u8>, pattern: Seq<u8>, from: int, to: int) -> bool {
    forall|j: int| from <= j && j + pattern.len() <= to ==> !occurs_at(s, pattern, j)
}

/// `pattern` occurs wholly inside `from..to` at `at` and nowhere else.
pub open spec fn only_at(s: Seq<u8>, pattern: Seq<u8>, from: int, to: int, at: int) -> bool {
    &&& from <= at
    &&& at + pattern.len() <= to
    &&& occurs_at(s, pattern, at)
    &&& forall|j: int|
        from <= j && j + pattern.len() <= to && j != at ==> !occurs_at(s, pattern, j)
}

/// What occurs nowhere is not found; what occurs at one place only is found
/// there.
pub proof fn lemma_found_where_it_is(s: Seq<u8>, pattern: Seq<u8>, from: int, to: int, at: int)
    requires
        0 <= from,
        to <= s.len(),
    ensures
        absent(s, pattern, from, to) ==> last_occurrence(s, pattern, from, to) is None,
        only_at(s, pattern, from, to, at) ==> last_occurrence(s, pattern, from, to) == Some(at),
{
    lemma_last_occurrence(s, pattern, from, to);
}

/// Two texts with line feeds at the same places before the cursor have the
/// line of the cursor start at the same place.
pub proof fn lemma_same_line_start(s: Seq<u8>, t: Seq<u8>, cursor: int)
    requires
        0 <= cursor <= s.len(),
        s.len() == t.len(),
        forall|i: int| 0 <= i < cursor ==> (s[i] == LINE_FEED) == (t[i] == LINE_FEED),
    ensures
        line_start(s, cursor) == line_start(t, cursor),
    decreases cursor,
{
    if cursor > 0 && s[cursor - 1] != LINE_FEED {
        lemma_same_line_start(s, t, cursor - 1);
    }
}

/// A marker: `[`, one byte, `]`.
pub open spec fn marker(inner: u8) -> Seq<u8> {
    seq![OPEN_BRACKET, inner, CLOSE_BRACKET]
}

/// Where a line holds the marker of `inner` once and that of `other` not at
/// all, changing the one into the other leaves it with the marker of `other`
/// once, at the same place, and that of `inner` not at all.
pub proof fn lemma_marker_changed(
    s: Seq<u8>,
    from: int,
    to: int,
    at: int,
    inner: u8,
    other: u8,
)
    requires
        0 <= from,
        to <= s.len(),
        inner != other,
        inner != OPEN_BRACKET && inner != CLOSE_BRACKET,
        other != OPEN_BRACKET && other != CLOSE_BRACKET,
        only_at(s, marker(inner), from, to, at),
        absent(s, marker(other), from, to),
    ensures
        splice(s, at, 3, marker(other)) == s.update(at + 1, other),
        only_at(s.update(at + 1, other), marker(other), from, to, at),
        absent(s.update(at + 1, other), marker(inner), from, to),
{
    let t = s.update(at + 1, other);
    let old_marker = marker(inner);
    let new_marker = marker(other);
    assert(s[at + 0] == old_marker[0] && s[at + 1] == old_marker[1] && s[at + 2] == old_marker[2]);
    assert(splice(s, at, 3, new_marker) =~= t);
    assert(occurs_at(t, new_marker, at)) by {
        assert forall|k: int| 0 <= k < new_marker.len() implies #[trigger] t[at + k]
            == new_marker[k] by {
            if k == 0 {
                assert(t[at + 0] == s[at + 0]);
            } else if k == 2 {
                assert(t[at + 2] == s[at + 2]);
            }
        }
    }
    assert forall|j: int| from <= j && j + 3 <= to && j != at implies !occurs_at(
        t,
        new_marker,
        j,
    ) by {
        if occurs_at(t, new_marker, j) {
            assert(t[j + 0] == new_marker[0] && t[j + 1] == new_marker[1] && t[j + 2]
                == new_marker[2]);
            if j == at - 1 {
            } else if j == at + 1 {
            } else {
                assert(occurs_at(s, new_marker, j)) by {
                    assert forall|k: int| 0 <= k < new_marker.len() implies #[trigger] s[j + k]
                        == new_marker[k] by {
                        assert(s[j + k] == t[j + k]);
                    }
                }
            }
        }
    }
    assert forall|j: int| from <= j && j + 3 <= to implies !occurs_at(t, old_marker, j) by {
        if occurs_at(t, old_marker, j) {
            assert(t[j + 0] == old_marker[0] && t[j + 1] == old_marker[1] && t[j + 2]
                == old_marker[2]);
            if j == at {
            } else if j == at - 1 {
            } else if j == at + 1 {
            } else {
                assert(occurs_at(s, old_marker, j)) by {
                    assert forall|k: int| 0 <= k < old_marker.len() implies #[trigger] s[j + k]
                        == old_marker[k] by {
                        assert(s[j + k] == t[j + k]);
                    }
                }
            }
        }
    }
}

/// Oscillation: on a line that holds, before the cursor, one `[x]` and no
/// `[/]`, a cycle makes the `[x]` a `[/]` and a second cycle gives the text
/// back; likewise with one `[/]` and no `[x]`. The task never passes through
/// the open state.
pub proof fn lemma_cycle_oscillates(s: Seq<u8>, cursor: int, at: int)
    requires
        0 <= cursor <= s.len(),
        ({
            ||| only_at(s, cancelled_marker(), line_start(s, cursor), cursor, at) && absent(
                s,
                completed_marker(),
                line_start(s, cursor),
                cursor,
            )
            ||| only_at(s, completed_marker(), line_start(s, cursor), cursor, at) && absent(
                s,
                cancelled_marker(),
                line_start(s, cursor),
                cursor,
            )
        }),
    ensures
        cycled(s, cursor) == s.update(
            at + 1,
            if s[at + 1] == LOWER_X {
                SLASH
            } else {
                LOWER_X
            },
        ),
        cycled(cycled(s, cursor), cursor) == s,
{
    let from = line_start(s, cursor);
    lemma_line_start(s, cursor);
    assert(cancelled_marker() =~= marker(LOWER_X));
    assert(completed_marker() =~= marker(SLASH));
    let was_cancelled = only_at(s, cancelled_marker(), from, cursor, at);
    let inner = if was_cancelled {
        LOWER_X
    } else {
        SLASH
    };
    let other = if was_cancelled {
        SLASH
    } else {
        LOWER_X
    };
    assert(s[at + 1] == marker(inner)[1]);
    let t = s.update(at + 1, other);
    lemma_marker_changed(s, from, cursor, at, inner, other);
    lemma_found_where_it_is(s, marker(inner), from, cursor, at);
    lemma_found_where_it_is(s, marker(other), from, cursor, at);
    assert(cycled(s, cursor) == t);
    lemma_same_line_start(s, t, cursor);
    lemma_marker_changed(t, from, cursor, at, other, inner);
    lemma_found_where_it_is(t, marker(other), from, cursor, at);
    lemma_found_where_it_is(t, marker(inner), from, cursor, at);
    assert(t.update(at + 1, inner) =~= s);
}

/// Finds the start of the line that holds `cursor`.
pub fn start_of_line(text: &[u8], cursor: usize) -> (start: usize)
    requires
        cursor <= text@.len(),
    ensures
        start == line_start(text@, cursor as int),
        start <= cursor,
{
    let mut j: usize = cursor;
    while j > 0 && text[j - 1] != LINE_FEED
        invariant
            j <= cursor <= text@.len(),
            line_start(text@, cursor as int) == line_start(text@, j as int),
        decreases j,
    {
        j -= 1;
    }
    j
}

/// Finds the last occurrence of `pattern` inside `from..to`.
pub fn find_last(text: &[u8], pattern: &[u8], from: usize, to: usize) -> (found: Option<usize>)
    requires
        from <= to <= text@.len(),
    ensures
        match found {
            Some(k) => last_occurrence(text@, pattern@, from as int, to as int) == Some(k as int)
                && from <= k && k + pattern@.len() <= to,
            None => last_occurrence(text@, pattern@, from as int, to as int) is None,
        },
{
    let mut end: usize = to;
    while end - from >= pattern.len()
        invariant
            from <= end <= to <= text@.len(),
            last_occurrence(text@, pattern@, from as int, to as int) == last_occurrence(
                text@,
                pattern@,
                from as int,
                end as int,
            ),
        decreases end - from,
    {
        if has_pattern(text, pattern, end - pattern.len()) {
            return Some(end - pattern.len());
        }
        assert(pattern@.len() > 0);
        end -= 1;
    }
    None
}

/// Builds the text with `removed` bytes at `at` replaced by `inserted`.
pub fn spliced(text: &[u8], at: usize, removed: usize, inserted: &[u8]) -> (out: Vec<u8>)
    requires
        at + removed <= text.len(),
    ensures
        out@ == splice(text@, at as int, removed as int, inserted@),
{
    let mut out: Vec<u8> = Vec::new();
    let mut i: usize = 0;
    while i < at
        invariant
            i <= at <= text@.len(),
            out@ == text@.subrange(0, i as int),
        decreases at - i,
    {
        out.push(text[i]);
        assert(out@ =~= text@.subrange(0, i + 1));
        i += 1;
    }
    let mut k: usize = 0;
    while k < inserted.len()
        invariant
            k <= inserted@.len(),
            at <= text@.len(),
            out@ == text@.subrange(0, at as int) + inserted@.subrange(0, k as int),
        decreases inserted@.len() - k,
    {
        out.push(inserted[k]);
        assert(out@ =~= text@.subrange(0, at as int) + inserted@.subrange(0, k + 1));
        k += 1;
    }
    assert(inserted@.subrange(0, inserted@.len() as int) =~= inserted@);
    let mut j: usize = at + removed;
    while j < text.len()
        invariant
            at + removed <= j <= text.len(),
            out@ == text@.subrange(0, at as int) + inserted@ + text@.subrange(
                at + removed,
                j as int,
            ),
        decreases text@.len() - j,
    {
        out.push(text[j]);
        assert(out@ =~= text@.subrange(0, at as int) + inserted@ + text@.subrange(
            at + removed,
            j + 1,
        ));
        j += 1;
    }
    out
}

/// Replaces the last occurrence of `find` on the line of `start_pos`, before
/// that position. Says whether there was one.
pub fn replace_on_current_line(
    buffer: &mut Vec<u8>,
    start_pos: usize,
    find: &[u8],
    replace: &[u8],
) -> (changed: bool)
    requires
        start_pos <= old(buffer)@.len(),
    ensures
        match replaced_last(
            old(buffer)@,
            line_start(old(buffer)@, start_pos as int),
            start_pos as int,
            find@,
            replace@,
        ) {
            Some(t) => changed && final(buffer)@ == t,
            None => !changed && final(buffer)@ == old(buffer)@,
        },
{
    let search_start: usize = start_of_line(buffer.as_slice(), start_pos);
    match find_last(buffer.as_slice(), find, search_start, start_pos) {
        Some(i) => {
            let next = spliced(buffer.as_slice(), i, find.len(), replace);
            *buffer = next;
            true
        },
        None => false,
    }
}

/// Cycles the task on the line of the cursor.
pub fn replace_task_for_cursor(buffer: &mut Vec<u8>, cursor_pos: usize)
    requires
        cursor_pos <= old(buffer)@.len(),
    ensures
        final(buffer)@ == cycled(old(buffer)@, cursor_pos as int),
{
    let open: [u8; 3] = [OPEN_BRACKET, SPACE, CLOSE_BRACKET];
    let empty: [u8; 2] = [OPEN_BRACKET, CLOSE_BRACKET];
    let cancelled: [u8; 3] = [OPEN_BRACKET, LOWER_X, CLOSE_BRACKET];
    let completed: [u8; 3] = [OPEN_BRACKET, SLASH, CLOSE_BRACKET];
    let fresh: [u8; 4] = [OPEN_BRACKET, SPACE, CLOSE_BRACKET, SPACE];
    assert(open@ =~= open_marker());
    assert(empty@ =~= empty_marker());
    assert(cancelled@ =~= cancelled_marker());
    assert(completed@ =~= completed_marker());
    assert(fresh@ =~= fresh_task());
    let mut changed = replace_on_current_line(
        buffer,
        cursor_pos,
        cancelled.as_slice(),
        completed.as_slice(),
    );
    if !changed {
        changed =
        replace_on_current_line(buffer, cursor_pos, completed.as_slice(), cancelled.as_slice());
    }
    if !changed {
        changed = replace_on_current_line(buffer, cursor_pos, empty.as_slice(), open.as_slice());
    }
    if !changed {
        changed =
        replace_on_current_line(buffer, cursor_pos, open.as_slice(), completed.as_slice());
    }
    if !changed {
        let start: usize = start_of_line(buffer.as_slice(), cursor_pos);
        let next = spliced(buffer.as_slice(), start, 0, fresh.as_slice());
        *buffer = next;
    }
}

} // verus!
