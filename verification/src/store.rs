//! Resolving today's buffer: load it if it exists, else seed it from the
//! nearest earlier day within a bounded window.
//!
//! The store itself lives outside this library. The search is therefore a
//! small machine: it names a day, is told whether that day's buffer exists,
//! and names the next day or the outcome.

use crate::calendar::{lemma_pred_valid, BufferId, Date, MIN_YEAR};
use crate::index::{dates, holds};
use vstd::prelude::*;

verus! {

/// How many days back the search for a buffer to inherit goes.
pub const FALLBACK_DAYS: u32 = 14;

/// Why the store could not do what was asked.
#[derive(Copy, Clone, Debug, PartialEq, Eq, Structural)]
pub enum StoreError {
    /// No buffer is stored for the day.
    NotFound,
    /// The store refused access.
    PermissionDenied,
    /// Any other failure of the store.
    Other,
}

/// How today's buffer comes about.
#[derive(Copy, Clone, Debug, PartialEq, Eq, Structural)]
pub enum Resolution {
    /// Today's buffer is stored: load it.
    Existing,
    /// Today's buffer is not stored: copy the buffer of the given day.
    Inherit(BufferId),
    /// Neither today's buffer nor one of the days before is stored: start
    /// empty.
    Empty,
}

/// `Resolution` over dates.
pub enum Resolved {
    Existing,
    Inherit(Date),
    Empty,
}

impl View for Resolution {
    type V = Resolved;

    open spec fn view(&self) -> Resolved {
        match self {
            Resolution::Existing => Resolved::Existing,
            Resolution::Inherit(id) => Resolved::Inherit(id@),
            Resolution::Empty => Resolved::Empty,
        }
    }
}

/// The nearest stored day among those `n` to `FALLBACK_DAYS` days before
/// `today`. The way back ends where the calendar does.
pub open spec fn nearest_stored(today: Date, stored: Set<Date>, n: nat) -> Option<Date>
    decreases FALLBACK_DAYS + 1 - n,
{
    if n > FALLBACK_DAYS || !today.days_before(n).valid() {
        None
    } else if stored.contains(today.days_before(n)) {
        Some(today.days_before(n))
    } else {
        nearest_stored(today, stored, n + 1)
    }
}

/// How today's buffer comes about, given the days whose buffers are stored.
pub open spec fn resolution(today: Date, stored: Set<Date>) -> Resolved {
    if stored.contains(today) {
        Resolved::Existing
    } else {
        match nearest_stored(today, stored, 1) {
            Some(day) => Resolved::Inherit(day),
            None => Resolved::Empty,
        }
    }
}

/// The search in ghost code: the day it started from, the day
/// it asks about, and how many days back that day lies.
pub struct Search {
    pub today: Date,
    pub asked: Date,
    pub back: nat,
}

/// What the search does next.
pub enum Move {
    /// It asks whether the buffer of this day is stored.
    Ask(Date),
    /// It has ended with this outcome.
    Done(Resolved),
}

/// One move of the search on being told whether the day it asked about is
/// stored.
pub open spec fn step(s: Search, exists: bool) -> (Search, Move) {
    if exists {
        if s.back == 0 {
            (s, Move::Done(Resolved::Existing))
        } else {
            (s, Move::Done(Resolved::Inherit(s.asked)))
        }
    } else if s.back >= FALLBACK_DAYS || s.asked.is_first() {
        (s, Move::Done(Resolved::Empty))
    } else {
        (
            Search { today: s.today, asked: s.asked.pred(), back: s.back + 1 },
            Move::Ask(s.asked.pred()),
        )
    }
}

/// Where the search ends when every question is answered from `stored`.
pub open spec fn outcome(s: Search, stored: Set<Date>) -> Resolved
    decreases FALLBACK_DAYS - s.back,
{
    match step(s, stored.contains(s.asked)) {
        (_, Move::Done(r)) => r,
        (next, Move::Ask(_)) => if s.back < FALLBACK_DAYS {
            outcome(next, stored)
        } else {
            Resolved::Empty
        },
    }
}

/// The search at its start: it asks about today.
pub open spec fn start_of(today: Date) -> Search {
    Search { today, asked: today, back: 0 }
}

/// Going back one more day is going back and then taking the day before.
pub proof fn lemma_days_before_step(d: Date, n: nat)
    ensures
        d.days_before(n + 1) == d.days_before(n).pred(),
    decreases n,
{
    if n > 0 {
        lemma_days_before_step(d.pred(), (n - 1) as nat);
    } else {
        assert(d.days_before(1) == d.pred().days_before(0));
    }
}

/// Going back `a` days and then `b` days is going back `a + b` days.
pub proof fn lemma_days_before_add(d: Date, a: nat, b: nat)
    ensures
        d.days_before(a).days_before(b) == d.days_before(a + b),
    decreases a,
{
    if a > 0 {
        lemma_days_before_add(d.pred(), (a - 1) as nat, b);
    }
}

/// Before the first representable date there are no valid dates.
pub proof fn lemma_nothing_before_first(d: Date, n: nat)
    requires
        d.year < MIN_YEAR,
    ensures
        !d.days_before(n).valid(),
    decreases n,
{
    if n > 0 {
        lemma_nothing_before_first(d.pred(), (n - 1) as nat);
    }
}

/// On the way back from a valid day to a valid day every day is valid.
pub proof fn lemma_valid_on_the_way(today: Date, n: nat, k: nat)
    requires
        today.valid(),
        today.days_before(n).valid(),
        k <= n,
    ensures
        today.days_before(k).valid(),
    decreases k,
{
    if k > 0 {
        lemma_valid_on_the_way(today, n, (k - 1) as nat);
        let before = today.days_before((k - 1) as nat);
        lemma_days_before_step(today, (k - 1) as nat);
        if before.is_first() {
            lemma_days_before_add(today, k, (n - k) as nat);
            lemma_nothing_before_first(today.days_before(k), (n - k) as nat);
        } else {
            lemma_pred_valid(before);
        }
    }
}

/// From any day it asks about, the search ends where the nearest stored day
/// from there on says.
proof fn lemma_search_from(s: Search, stored: Set<Date>)
    requires
        1 <= s.back <= FALLBACK_DAYS,
        s.asked == s.today.days_before(s.back),
        s.asked.valid(),
    ensures
        outcome(s, stored) == match nearest_stored(s.today, stored, s.back) {
            Some(day) => Resolved::Inherit(day),
            None => Resolved::Empty,
        },
    decreases FALLBACK_DAYS - s.back,
{
    if stored.contains(s.asked) {
    } else if s.back >= FALLBACK_DAYS {
        assert(nearest_stored(s.today, stored, s.back + 1) is None);
    } else if s.asked.is_first() {
        lemma_days_before_step(s.today, s.back);
        assert(nearest_stored(s.today, stored, s.back + 1) is None);
    } else {
        let next = step(s, false).0;
        lemma_days_before_step(s.today, s.back);
        lemma_pred_valid(s.asked);
        lemma_search_from(next, stored);
        assert(outcome(s, stored) == outcome(next, stored));
    }
}

/// The search, answered truthfully, ends in the resolution: today's buffer
/// if it is stored, else the nearest stored day of the fourteen before, else
/// nothing.
pub proof fn lemma_search_resolves(today: Date, stored: Set<Date>)
    requires
        today.valid(),
    ensures
        outcome(start_of(today), stored) == resolution(today, stored),
{
    let s = start_of(today);
    lemma_days_before_step(today, 0);
    if stored.contains(today) {
    } else if today.is_first() {
        assert(nearest_stored(today, stored, 1) is None);
    } else {
        let next = step(s, false).0;
        lemma_pred_valid(today);
        lemma_search_from(next, stored);
        assert(outcome(s, stored) == outcome(next, stored));
    }
}

/// The nearest stored day is the first stored one on the way back: where the
/// buffer `n` days back is stored and none nearer is, nor today's, today's
/// buffer is inherited from it.
pub proof fn lemma_inherits_nearest(today: Date, stored: Set<Date>, n: nat)
    requires
        today.valid(),
        1 <= n <= FALLBACK_DAYS,
        today.days_before(n).valid(),
        stored.contains(today.days_before(n)),
        forall|k: nat| k < n ==> !stored.contains(#[trigger] today.days_before(k)),
    ensures
        resolution(today, stored) == Resolved::Inherit(today.days_before(n)),
{
    assert(today.days_before(0) == today);
    lemma_nearest_from(today, stored, n, 1);
}

/// Scanning back from `from` finds the stored day `n` days back when no day
/// between is stored.
proof fn lemma_nearest_from(today: Date, stored: Set<Date>, n: nat, from: nat)
    requires
        today.valid(),
        from <= n <= FALLBACK_DAYS,
        today.days_before(n).valid(),
        stored.contains(today.days_before(n)),
        forall|k: nat| k < n ==> !stored.contains(#[trigger] today.days_before(k)),
    ensures
        nearest_stored(today, stored, from) == Some(today.days_before(n)),
    decreases n - from,
{
    if from < n {
        lemma_valid_on_the_way(today, n, from);
        lemma_nearest_from(today, stored, n, from + 1);
    }
}

/// Where no buffer is stored for today nor for any of the fourteen days
/// before, today starts empty.
pub proof fn lemma_empty_without_source(today: Date, stored: Set<Date>)
    requires
        forall|k: nat| k <= FALLBACK_DAYS ==> !stored.contains(#[trigger] today.days_before(k)),
    ensures
        resolution(today, stored) == Resolved::Empty,
{
    assert(today.days_before(0) == today);
    lemma_none_from(today, stored, 1);
}

/// Scanning back from anywhere finds nothing where nothing is stored.
proof fn lemma_none_from(today: Date, stored: Set<Date>, from: nat)
    requires
        forall|k: nat| k <= FALLBACK_DAYS ==> !stored.contains(#[trigger] today.days_before(k)),
    ensures
        nearest_stored(today, stored, from) is None,
    decreases FALLBACK_DAYS + 1 - from,
{
    if from <= FALLBACK_DAYS {
        lemma_none_from(today, stored, from + 1);
    }
}

/// What the search does next, with identifiers.
#[derive(Copy, Clone, Debug, PartialEq, Eq, Structural)]
pub enum Step {
    /// Tell the search whether the buffer of this day is stored.
    Ask(BufferId),
    /// The search has ended with this outcome.
    Done(Resolution),
}

impl View for Step {
    type V = Move;

    open spec fn view(&self) -> Move {
        match self {
            Step::Ask(id) => Move::Ask(id@),
            Step::Done(r) => Move::Done(r@),
        }
    }
}

/// The search for today's buffer.
#[derive(Copy, Clone, Debug)]
pub struct Fallback {
    today: BufferId,
    asked: BufferId,
    back: u32,
}

impl View for Fallback {
    type V = Search;

    closed spec fn view(&self) -> Search {
        Search { today: self.today@, asked: self.asked@, back: self.back as nat }
    }
}

impl Fallback {
    /// Starts the search. Its first question is about today.
    pub fn begin(today: BufferId) -> (search: Fallback)
        ensures
            search@ == start_of(today@),
    {
        Fallback { today, asked: today, back: 0 }
    }

    /// The day the search is asking about.
    pub fn asked(&self) -> (id: BufferId)
        ensures
            id@ == self@.asked,
    {
        self.asked
    }

    /// Takes the answer to the question asked and makes the next move.
    pub fn answer(&mut self, exists: bool) -> (next: Step)
        ensures
            (final(self)@, next@) == step(old(self)@, exists),
    {
        if exists {
            if self.back == 0 {
                Step::Done(Resolution::Existing)
            } else {
                Step::Done(Resolution::Inherit(self.asked))
            }
        } else if self.back >= FALLBACK_DAYS {
            Step::Done(Resolution::Empty)
        } else {
            match self.asked.checked_prev() {
                Some(day) => {
                    self.asked = day;
                    self.back = self.back + 1;
                    Step::Ask(day)
                },
                None => Step::Done(Resolution::Empty),
            }
        }
    }
}

/// Resolves today's buffer against the identifiers of the stored buffers.
pub fn resolve(today: BufferId, stored: &Vec<BufferId>) -> (r: Resolution)
    ensures
        r@ == resolution(today@, dates(stored@).to_set()),
{
    let ghost set = dates(stored@).to_set();
    let mut search = Fallback::begin(today);
    proof {
        use_type_invariant(&today);
        lemma_search_resolves(today@, set);
    }
    loop
        invariant
            set == dates(stored@).to_set(),
            search@.back <= FALLBACK_DAYS,
            outcome(search@, set) == resolution(today@, set),
        decreases FALLBACK_DAYS - search@.back,
    {
        let asked = search.asked();
        let exists = holds(stored, &asked);
        assert(exists == set.contains(search@.asked));
        match search.answer(exists) {
            Step::Done(r) => {
                return r;
            },
            Step::Ask(_) => {},
        }
    }
}

} // verus!
