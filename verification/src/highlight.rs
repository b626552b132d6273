//! The tokenizer: one pass over the text that partitions it into spans.

use crate::recognize::{lemma_match_in_bounds, style, style_at, SpanKind};
use crate::text::{lemma_spans_on_boundaries, on_boundaries};
use vstd::prelude::*;
use vstd::slice::slice_to_vec;
use vstd::string::StringSliceAdditionalSpecFns;
use vstd::utf8::encode_utf8_valid_utf8;

verus! {

/// A span in ghost code: a kind and the byte range
/// `start..end`.
pub struct Token {
    pub kind: SpanKind,
    pub start: int,
    pub end: int,
}

/// A contiguous byte range of the text with the kind of construct it holds.
#[derive(Copy, Clone, Debug, PartialEq, Eq, Structural)]
pub struct Span {
    pub kind: SpanKind,
    pub start: usize,
    pub end: usize,
}

impl View for Span {
    type V = Token;

    open spec fn view(&self) -> Token {
        Token { kind: self.kind, start: self.start as int, end: self.end as int }
    }
}

/// The tokens that a list of spans stands for.
pub open spec fn tokens(spans: Seq<Span>) -> Seq<Token> {
    Seq::new(spans.len(), |i: int| spans[i]@)
}

/// The plain text from `from` to `to` as a list: one token, or none when the
/// range is empty.
pub open spec fn plain_run(from: int, to: int) -> Seq<Token> {
    if from < to {
        seq![Token { kind: SpanKind::Plain, start: from, end: to }]
    } else {
        Seq::empty()
    }
}

/// The spans of the text from `pending` on, when the scan stands at `at` and
/// the bytes from `pending` to `at` began no construct.
///
/// Where a construct begins at `at`, the plain run before it and the
/// construct are emitted and the scan goes on behind it; else the scan moves
/// on by one byte. At the end of the text the pending plain run is emitted.
pub open spec fn spans_from(s: Seq<u8>, at: int, pending: int) -> Seq<Token>
    decreases s.len() - at,
{
    if at < 0 || at >= s.len() {
        plain_run(pending, s.len() as int)
    } else {
        match style_at(s, at) {
            Some(m) => {
                proof {
                    lemma_match_in_bounds(s, at);
                }
                plain_run(pending, at).push(Token { kind: m.kind, start: at, end: at + m.len })
                    + spans_from(s, at + m.len, at + m.len)
            },
            None => spans_from(s, at + 1, pending),
        }
    }
}

/// The spans of a whole text.
pub open spec fn spans_of(s: Seq<u8>) -> Seq<Token> {
    spans_from(s, 0, 0)
}

/// The tokens follow one another without gap or overlap from `from` to `to`,
/// in order, and none is empty.
pub open spec fn tiles(ts: Seq<Token>, from: int, to: int) -> bool {
    &&& forall|i: int| 0 <= i < ts.len() ==> (#[trigger] ts[i]).start < ts[i].end
    &&& forall|i: int| 0 <= i < ts.len() - 1 ==> (#[trigger] ts[i]).end == ts[i + 1].start
    &&& if ts.len() == 0 {
        from == to
    } else {
        ts[0].start == from && ts[ts.len() - 1].end == to
    }
}

/// The sum of the lengths of the tokens.
pub open spec fn total_len(ts: Seq<Token>) -> int
    decreases ts.len(),
{
    if ts.len() == 0 {
        0
    } else {
        ts[0].end - ts[0].start + total_len(ts.drop_first())
    }
}

/// Tokens that tile a range have lengths that sum to the length of the range.
pub proof fn lemma_tiling_total(ts: Seq<Token>, from: int, to: int)
    requires
        tiles(ts, from, to),
    ensures
        total_len(ts) == to - from,
    decreases ts.len(),
{
    if ts.len() > 0 {
        let rest = ts.drop_first();
        assert forall|i: int| 0 <= i < rest.len() implies (#[trigger] rest[i]).start
            < rest[i].end by {
            assert(rest[i] == ts[i + 1]);
        }
        assert forall|i: int| 0 <= i < rest.len() - 1 implies (#[trigger] rest[i]).end == rest[i
            + 1].start by {
            assert(rest[i] == ts[i + 1]);
            assert(rest[i + 1] == ts[i + 2]);
        }
        if rest.len() == 0 {
        } else {
            assert(rest[0] == ts[1]);
            assert(rest[rest.len() - 1] == ts[ts.len() - 1]);
        }
        lemma_tiling_total(rest, ts[0].end, to);
    }
}

/// Two tilings of adjacent ranges make a tiling of the whole.
pub proof fn lemma_tiles_concat(a: Seq<Token>, b: Seq<Token>, from: int, mid: int, to: int)
    requires
        tiles(a, from, mid),
        tiles(b, mid, to),
    ensures
        tiles(a + b, from, to),
{
    let c = a + b;
    assert forall|i: int| 0 <= i < c.len() implies (#[trigger] c[i]).start < c[i].end by {
        if i < a.len() {
            assert(c[i] == a[i]);
        } else {
            assert(c[i] == b[i - a.len()]);
        }
    }
    assert forall|i: int| 0 <= i < c.len() - 1 implies (#[trigger] c[i]).end == c[i
        + 1].start by {
        if i + 1 < a.len() {
            assert(c[i] == a[i]);
            assert(c[i + 1] == a[i + 1]);
        } else if i < a.len() {
            assert(c[i] == a[i]);
            assert(c[i + 1] == b[0]);
        } else {
            assert(c[i] == b[i - a.len()]);
            assert(c[i + 1] == b[i - a.len() + 1]);
        }
    }
    if c.len() > 0 {
        if a.len() > 0 {
            assert(c[0] == a[0]);
        } else {
            assert(c[0] == b[0]);
        }
        if b.len() > 0 {
            assert(c[c.len() - 1] == b[b.len() - 1]);
        } else {
            assert(c[c.len() - 1] == a[a.len() - 1]);
        }
    }
}

/// The spans emitted from a scan position tile the text from the start of
/// the pending plain run to its end.
pub proof fn lemma_spans_tile(s: Seq<u8>, at: int, pending: int)
    requires
        0 <= pending <= at <= s.len(),
    ensures
        tiles(spans_from(s, at, pending), pending, s.len() as int),
    decreases s.len() - at,
{
    if at >= s.len() {
    } else {
        match style_at(s, at) {
            Some(m) => {
                lemma_match_in_bounds(s, at);
                let head = plain_run(pending, at).push(
                    Token { kind: m.kind, start: at, end: at + m.len },
                );
                lemma_spans_tile(s, at + m.len, at + m.len);
                lemma_tiles_concat(
                    head,
                    spans_from(s, at + m.len, at + m.len),
                    pending,
                    at + m.len,
                    s.len() as int,
                );
            },
            None => {
                lemma_spans_tile(s, at + 1, pending);
            },
        }
    }
}

/// Coverage: the spans of a text follow one another from its first byte to
/// its last without gap or overlap, and their lengths sum to its length.
pub proof fn lemma_spans_cover(s: Seq<u8>)
    ensures
        tiles(spans_of(s), 0, s.len() as int),
        total_len(spans_of(s)) == s.len(),
{
    lemma_spans_tile(s, 0, 0);
    lemma_tiling_total(spans_of(s), 0, s.len() as int);
}

/// Adding a span to a list adds its token to the tokens of the list.
pub proof fn lemma_tokens_push(spans: Seq<Span>, span: Span)
    ensures
        tokens(spans.push(span)) == tokens(spans).push(span@),
{
    assert(tokens(spans.push(span)) =~= tokens(spans).push(span@));
}

/// Partitions the text into spans.
///
/// The result is the list that `spans_of` describes; it tiles the text, and
/// the lengths of its spans sum to the length of the text.
pub fn parse(text: &[u8]) -> (spans: Vec<Span>)
    ensures
        tokens(spans@) == spans_of(text@),
        tiles(tokens(spans@), 0, text@.len() as int),
        total_len(tokens(spans@)) == text@.len(),
{
    let mut out: Vec<Span> = Vec::new();
    let mut at: usize = 0;
    let mut pending: usize = 0;
    assert(tokens(out@) + spans_from(text@, 0, 0) =~= spans_of(text@));
    while at < text.len()
        invariant
            pending <= at <= text.len(),
            tokens(out@) + spans_from(text@, at as int, pending as int) == spans_of(text@),
        decreases text.len() - at,
    {
        match style(text, at) {
            Some(st) => {
                let ghost before = tokens(out@);
                let ghost rest = spans_from(text@, at + st.len, at + st.len);
                let ghost found = Token { kind: st.look, start: at as int, end: at + st.len };
                assert(spans_from(text@, at as int, pending as int) == plain_run(
                    pending as int,
                    at as int,
                ).push(found) + rest);
                if pending < at {
                    let plain = Span { kind: SpanKind::Plain, start: pending, end: at };
                    proof {
                        lemma_tokens_push(out@, plain);
                    }
                    out.push(plain);
                }
                assert(tokens(out@) =~= before + plain_run(pending as int, at as int));
                let span = Span { kind: st.look, start: at, end: at + st.len };
                proof {
                    lemma_tokens_push(out@, span);
                }
                out.push(span);
                assert(tokens(out@) + rest =~= before + (plain_run(pending as int, at as int).push(
                    found,
                ) + rest));
                at = at + st.len;
                pending = at;
            },
            None => {
                at = at + 1;
            },
        }
    }
    if pending < text.len() {
        let plain = Span { kind: SpanKind::Plain, start: pending, end: text.len() };
        proof {
            lemma_tokens_push(out@, plain);
        }
        out.push(plain);
    }
    assert(tokens(out@) =~= spans_of(text@));
    proof {
        lemma_spans_cover(text@);
    }
    out
}

/// The spans of a text, by byte offsets into its UTF-8 encoding. No span
/// cuts a character.
pub fn highlight(text: &str) -> (spans: Vec<Span>)
    ensures
        tokens(spans@) == spans_of(text.spec_bytes()),
        tiles(tokens(spans@), 0, text.spec_bytes().len() as int),
        total_len(tokens(spans@)) == text.spec_bytes().len(),
        on_boundaries(text.spec_bytes(), tokens(spans@)),
{
    proof {
        encode_utf8_valid_utf8(text@);
        lemma_spans_on_boundaries(text.spec_bytes());
    }
    parse(text.as_bytes())
}

/// What a cache in state `cache` serves for `text`: what it holds, or, when
/// it is empty, the spans of the text.
pub open spec fn served(cache: Option<Seq<Token>>, text: Seq<u8>) -> Seq<Token> {
    match cache {
        Some(held) => held,
        None => spans_of(text),
    }
}

/// A one-slot cache in front of the tokenizer.
///
/// It keeps the last list it computed and serves it until it is cleared.
/// Whoever edits the text clears the cache.
#[derive(Debug)]
pub struct CachedLayoutJobBuilder {
    cached: Option<Vec<Span>>,
}

impl View for CachedLayoutJobBuilder {
    type V = Option<Seq<Token>>;

    closed spec fn view(&self) -> Option<Seq<Token>> {
        match self.cached {
            Some(held) => Some(tokens(held@)),
            None => None,
        }
    }
}

impl Default for CachedLayoutJobBuilder {
    /// An empty cache.
    fn default() -> (cache: Self)
        ensures
            cache@ is None,
    {
        CachedLayoutJobBuilder { cached: None }
    }
}

impl CachedLayoutJobBuilder {
    /// Empties the cache, so that the next call tokenizes anew.
    pub fn clear(&mut self)
        ensures
            final(self)@ is None,
    {
        self.cached = None
    }

    /// The spans to draw `text` with. Where `touched` says that the text may
    /// have changed, they are computed anew; else the cache serves them.
    pub fn layout(&mut self, text: &str, touched: bool) -> (spans: Vec<Span>)
        ensures
            tokens(spans@) == laid_out(old(self)@, text.spec_bytes(), touched),
            final(self)@ == Some(tokens(spans@)),
    {
        if touched {
            self.clear();
        }
        self.highlight(text)
    }

    /// The spans of `text` as first computed since the cache was last empty.
    pub fn highlight(&mut self, text: &str) -> (spans: Vec<Span>)
        ensures
            tokens(spans@) == served(old(self)@, text.spec_bytes()),
            final(self)@ == Some(tokens(spans@)),
    {
        match &self.cached {
            Some(held) => slice_to_vec(held.as_slice()),
            None => {
                let fresh = highlight(text);
                self.cached = Some(slice_to_vec(fresh.as_slice()));
                fresh
            },
        }
    }
}

/// What a cache in state `cache` lays `text` out as: the spans of the text
/// where the text counts as touched, else what the cache serves.
pub open spec fn laid_out(cache: Option<Seq<Token>>, text: Seq<u8>, touched: bool) -> Seq<Token> {
    if touched {
        spans_of(text)
    } else {
        served(cache, text)
    }
}

/// While the text counts as touched every layout is that of the text it is
/// given, whatever the cache held: no layout is served for a text it was not
/// made from.
pub proof fn lemma_layout_follows_edits(
    cache: Option<Seq<Token>>,
    before: Seq<u8>,
    after: Seq<u8>,
)
    ensures
        laid_out(cache, before, true) == spans_of(before),
        laid_out(Some(laid_out(cache, before, true)), after, true) == spans_of(after),
{
}

/// Between two clearings the cache answers alike: a second call, whatever
/// text it is given, returns what the first returned.
pub proof fn lemma_highlight_idempotent(
    cache: Option<Seq<Token>>,
    first: Seq<u8>,
    second: Seq<u8>,
)
    ensures
        served(Some(served(cache, first)), second) == served(cache, first),
{
}

/// After a clearing the cache serves the spans of the text it is given.
pub proof fn lemma_highlight_after_clear(text: Seq<u8>)
    ensures
        served(None, text) == spans_of(text),
{
}

/// The first hyperlink among the tokens that the position `offset` lies in or
/// at an end of.
pub open spec fn first_link(ts: Seq<Token>, offset: int) -> Option<Token>
    decreases ts.len(),
{
    if ts.len() == 0 {
        None
    } else if ts[0].kind == SpanKind::Link && ts[0].start <= offset <= ts[0].end {
        Some(ts[0])
    } else {
        first_link(ts.drop_first(), offset)
    }
}

/// The hyperlink of the text that the byte offset lies in, if it lies in one.
pub fn link_at(text: &str, offset: usize) -> (link: Option<Span>)
    ensures
        match link {
            Some(span) => first_link(spans_of(text.spec_bytes()), offset as int) == Some(span@),
            None => first_link(spans_of(text.spec_bytes()), offset as int) is None,
        },
{
    let spans = highlight(text);
    let ghost all = tokens(spans@);
    let mut i: usize = 0;
    assert(all.subrange(0, all.len() as int) =~= all);
    while i < spans.len()
        invariant
            i <= spans.len(),
            all == tokens(spans@),
            all == spans_of(text.spec_bytes()),
            first_link(all, offset as int) == first_link(
                all.subrange(i as int, all.len() as int),
                offset as int,
            ),
        decreases spans.len() - i,
    {
        let span = spans[i];
        let ghost rest = all.subrange(i as int, all.len() as int);
        assert(rest[0] == span@);
        assert(rest.drop_first() =~= all.subrange(i + 1, all.len() as int));
        let is_link = match span.kind {
            SpanKind::Link => true,
            _ => false,
        };
        if is_link && span.start <= offset && offset <= span.end {
            return Some(span);
        }
        i += 1;
    }
    assert(all.subrange(i as int, all.len() as int).len() == 0);
    None
}

} // verus!
