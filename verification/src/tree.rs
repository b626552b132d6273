//! The stored days laid out for display: by year, then by month, the days of
//! a month in ascending order.

use crate::calendar::{BufferId, Date};
use crate::index::dates;
use vstd::prelude::*;

verus! {

/// The short name of a month; `???` for a number that is none.
pub open spec fn month_name(m: int) -> Seq<char> {
    if m == 1 {
        "Jan"@
    } else if m == 2 {
        "Feb"@
    } else if m == 3 {
        "Mar"@
    } else if m == 4 {
        "Apr"@
    } else if m == 5 {
        "May"@
    } else if m == 6 {
        "Jun"@
    } else if m == 7 {
        "Jul"@
    } else if m == 8 {
        "Aug"@
    } else if m == 9 {
        "Sep"@
    } else if m == 10 {
        "Oct"@
    } else if m == 11 {
        "Now"@
    } else if m == 12 {
        "Dec"@
    } else {
        "???"@
    }
}

/// The short name of a month.
pub fn month_to_name(m: u32) -> (name: &'static str)
    ensures
        name@ == month_name(m as int),
{
    match m {
        1 => "Jan",
        2 => "Feb",
        3 => "Mar",
        4 => "Apr",
        5 => "May",
        6 => "Jun",
        7 => "Jul",
        8 => "Aug",
        9 => "Sep",
        10 => "Oct",
        11 => "Now",
        12 => "Dec",
        _ => "???",
    }
}

/// Each date comes before all that follow it.
pub open spec fn ascending(s: Seq<Date>) -> bool {
    forall|i: int, j: int| 0 <= i < j < s.len() ==> (#[trigger] s[i]).before(#[trigger] s[j])
}

/// Puts an identifier into an ascending list, unless it is there already.
pub fn insert_sorted(list: &mut Vec<BufferId>, id: BufferId)
    requires
        ascending(dates(old(list)@)),
    ensures
        ascending(dates(final(list)@)),
        forall|d: Date|
            dates(final(list)@).contains(d) <==> dates(old(list)@).contains(d) || d == id@,
{
    let ghost before = dates(list@);
    let mut p: usize = 0;
    while p < list.len() && list[p].is_before(&id)
        invariant
            p <= list.len(),
            dates(list@) == before,
            forall|k: int| 0 <= k < p ==> (#[trigger] before[k]).before(id@),
        decreases list.len() - p,
    {
        assert(before[p as int] == list@[p as int]@);
        p += 1;
    }
    if p < list.len() && list[p].same_day(&id) {
        assert(before[p as int] == id@);
        return ;
    }
    assert(p < list.len() ==> before[p as int] == list@[p as int]@);
    list.insert(p, id);
    let ghost after = dates(list@);
    assert(after =~= before.insert(p as int, id@));
    assert forall|i: int, j: int| 0 <= i < j < after.len() implies (#[trigger] after[i]).before(
        #[trigger] after[j],
    ) by {
        if j < p {
            assert(after[i] == before[i] && after[j] == before[j]);
        } else if j == p {
            assert(after[i] == before[i]);
        } else if i < p {
            assert(after[i] == before[i] && after[j] == before[j - 1]);
        } else if i == p {
            assert(after[j] == before[j - 1]);
            assert(before[p as int].before(before[j - 1]) || j - 1 == p);
        } else {
            assert(after[i] == before[i - 1] && after[j] == before[j - 1]);
        }
    }
    assert forall|d: Date| after.contains(d) <==> before.contains(d) || d == id@ by {
        if after.contains(d) {
            let k = choose|k: int| 0 <= k < after.len() && after[k] == d;
            if k < p {
                assert(before[k] == d);
            } else if k > p {
                assert(before[k - 1] == d);
            }
        }
        if before.contains(d) {
            let k = choose|k: int| 0 <= k < before.len() && before[k] == d;
            if k < p {
                assert(after[k] == d);
            } else {
                assert(after[k + 1] == d);
            }
        }
        if d == id@ {
            assert(after[p as int] == d);
        }
    }
}

/// Each number is smaller than all that follow it.
pub open spec fn increasing_years(s: Seq<i32>) -> bool {
    forall|i: int, j: int| 0 <= i < j < s.len() ==> #[trigger] s[i] < #[trigger] s[j]
}

/// Each number is smaller than all that follow it.
pub open spec fn increasing_months(s: Seq<u32>) -> bool {
    forall|i: int, j: int| 0 <= i < j < s.len() ==> #[trigger] s[i] < #[trigger] s[j]
}

/// The stored days in ascending order, each once.
#[derive(Debug)]
pub struct NoteTree {
    days: Vec<BufferId>,
}

impl View for NoteTree {
    type V = Seq<Date>;

    closed spec fn view(&self) -> Seq<Date> {
        dates(self.days@)
    }
}

impl NoteTree {
    /// The days of a tree are in ascending order.
    #[verifier::type_invariant]
    pub open spec fn well_formed(self) -> bool {
        ascending(self@)
    }

    /// Lays out the days of an index, in whatever order it holds them.
    pub fn new(index: &Vec<BufferId>) -> (tree: NoteTree)
        ensures
            ascending(tree@),
            forall|d: Date| tree@.contains(d) <==> dates(index@).contains(d),
    {
        let mut days: Vec<BufferId> = Vec::new();
        let mut i: usize = 0;
        while i < index.len()
            invariant
                i <= index.len(),
                ascending(dates(days@)),
                forall|d: Date|
                    dates(days@).contains(d) <==> exists|k: int|
                        0 <= k < i && #[trigger] dates(index@)[k] == d,
            decreases index.len() - i,
        {
            let ghost held = dates(days@);
            insert_sorted(&mut days, index[i]);
            assert(dates(index@)[i as int] == index@[i as int]@);
            assert forall|d: Date|
                dates(days@).contains(d) <==> exists|k: int|
                    0 <= k < i + 1 && #[trigger] dates(index@)[k] == d by {
                if held.contains(d) {
                    let k = choose|k: int| 0 <= k < i && #[trigger] dates(index@)[k] == d;
                    assert(0 <= k < i + 1 && dates(index@)[k] == d);
                }
                if exists|k: int| 0 <= k < i + 1 && #[trigger] dates(index@)[k] == d {
                    let k = choose|k: int| 0 <= k < i + 1 && #[trigger] dates(index@)[k] == d;
                    if k < i {
                        assert(held.contains(d));
                    }
                }
            }
            i += 1;
        }
        NoteTree { days }
    }

    /// All the days, in ascending order.
    pub fn days(&self) -> (all: Vec<BufferId>)
        ensures
            dates(all@) == self@,
    {
        vstd::slice::slice_to_vec(self.days.as_slice())
    }

    /// The years that hold a day, in ascending order, each once.
    pub fn years(&self) -> (ys: Vec<i32>)
        ensures
            increasing_years(ys@),
            forall|y: i32|
                ys@.contains(y) <==> exists|k: int|
                    0 <= k < self@.len() && (#[trigger] self@[k]).year == y,
    {
        proof {
            use_type_invariant(self);
        }
        let mut ys: Vec<i32> = Vec::new();
        let mut i: usize = 0;
        while i < self.days.len()
            invariant
                i <= self.days.len(),
                ascending(self@),
                self@ == dates(self.days@),
                increasing_years(ys@),
                forall|y: i32|
                    ys@.contains(y) <==> exists|k: int|
                        0 <= k < i && (#[trigger] self@[k]).year == y,
                i > 0 ==> ys@.len() > 0 && ys@[ys@.len() - 1] == self@[i - 1].year,
            decreases self.days.len() - i,
        {
            let y: i32 = self.days[i].year();
            let ghost held = ys@;
            assert(self@[i as int].year == y);
            if i == 0 || ys[ys.len() - 1] != y {
                proof {
                    if i > 0 {
                        assert(self@[i - 1].before(self@[i as int]));
                    }
                }
                ys.push(y);
                assert(ys@[ys@.len() - 1] == y);
                assert forall|a: int, b: int| 0 <= a < b < ys@.len() implies #[trigger] ys@[a]
                    < #[trigger] ys@[b] by {
                    assert(ys@[a] == held[a]);
                    if b < held.len() {
                        assert(ys@[b] == held[b]);
                    } else {
                        assert(held.contains(held[a]));
                        assert(held[a] <= held[held.len() - 1]);
                    }
                }
            }
            assert forall|z: i32|
                ys@.contains(z) <==> exists|k: int|
                    0 <= k < i + 1 && (#[trigger] self@[k]).year == z by {
                if held.contains(z) {
                    let k = choose|k: int| 0 <= k < i && (#[trigger] self@[k]).year == z;
                    assert(0 <= k < i + 1 && self@[k].year == z);
                    let h = choose|h: int| 0 <= h < held.len() && held[h] == z;
                    assert(ys@[h] == z);
                }
                if ys@.contains(z) && !held.contains(z) {
                    let h = choose|h: int| 0 <= h < ys@.len() && ys@[h] == z;
                    if h < held.len() {
                        assert(held[h] == z);
                    }
                    assert(self@[i as int].year == z);
                }
                if exists|k: int| 0 <= k < i + 1 && (#[trigger] self@[k]).year == z {
                    let k = choose|k: int| 0 <= k < i + 1 && (#[trigger] self@[k]).year == z;
                    if k < i {
                        assert(held.contains(z));
                        let h = choose|h: int| 0 <= h < held.len() && held[h] == z;
                        assert(ys@[h] == z);
                    } else {
                        assert(ys@[ys@.len() - 1] == z);
                    }
                }
            }
            i += 1;
        }
        ys
    }

    /// The months of a year that hold a day, in ascending order, each once.
    pub fn months_of(&self, year: i32) -> (ms: Vec<u32>)
        ensures
            increasing_months(ms@),
            forall|m: u32|
                ms@.contains(m) <==> exists|k: int|
                    0 <= k < self@.len() && (#[trigger] self@[k]).year == year && self@[k].month
                        == m,
    {
        proof {
            use_type_invariant(self);
        }
        let mut ms: Vec<u32> = Vec::new();
        let mut i: usize = 0;
        while i < self.days.len()
            invariant
                i <= self.days.len(),
                ascending(self@),
                self@ == dates(self.days@),
                increasing_months(ms@),
                forall|m: u32|
                    ms@.contains(m) <==> exists|k: int|
                        0 <= k < i && (#[trigger] self@[k]).year == year && self@[k].month == m,
            decreases self.days.len() - i,
        {
            let ghost held = ms@;
            let ghost here = self@[i as int];
            if self.days[i].year() == year {
                let m: u32 = self.days[i].month();
                assert(here.year == year && here.month == m);
                if ms.len() == 0 || ms[ms.len() - 1] != m {
                    ms.push(m);
                    assert(ms@[ms@.len() - 1] == m);
                    assert forall|a: int, b: int| 0 <= a < b < ms@.len() implies #[trigger] ms@[a]
                        < #[trigger] ms@[b] by {
                        assert(ms@[a] == held[a]);
                        if b < held.len() {
                            assert(ms@[b] == held[b]);
                        } else {
                            let last = held[held.len() - 1];
                            assert(held.contains(last));
                            let k = choose|k: int|
                                0 <= k < i && (#[trigger] self@[k]).year == year && self@[k].month
                                    == last;
                            assert(self@[k].before(here));
                            assert(held[a] <= last);
                        }
                    }
                }
            }
            assert forall|z: u32|
                ms@.contains(z) <==> exists|k: int|
                    0 <= k < i + 1 && (#[trigger] self@[k]).year == year && self@[k].month
                        == z by {
                if held.contains(z) {
                    let k = choose|k: int|
                        0 <= k < i && (#[trigger] self@[k]).year == year && self@[k].month == z;
                    assert(0 <= k < i + 1 && self@[k].year == year && self@[k].month == z);
                    let h = choose|h: int| 0 <= h < held.len() && held[h] == z;
                    assert(ms@[h] == z);
                }
                if ms@.contains(z) && !held.contains(z) {
                    let h = choose|h: int| 0 <= h < ms@.len() && ms@[h] == z;
                    if h < held.len() {
                        assert(held[h] == z);
                    }
                    assert(here.year == year && here.month == z);
                }
                if exists|k: int|
                    0 <= k < i + 1 && (#[trigger] self@[k]).year == year && self@[k].month == z {
                    let k = choose|k: int|
                        0 <= k < i + 1 && (#[trigger] self@[k]).year == year && self@[k].month
                            == z;
                    if k < i {
                        assert(held.contains(z));
                        let h = choose|h: int| 0 <= h < held.len() && held[h] == z;
                        assert(ms@[h] == z);
                    } else {
                        assert(ms@[ms@.len() - 1] == z);
                    }
                }
            }
            i += 1;
        }
        ms
    }

    /// The days of a month of a year, in ascending order.
    pub fn days_of(&self, year: i32, month: u32) -> (ds: Vec<BufferId>)
        ensures
            ascending(dates(ds@)),
            forall|d: Date|
                dates(ds@).contains(d) <==> self@.contains(d) && d.year == year && d.month
                    == month,
    {
        proof {
            use_type_invariant(self);
        }
        let mut ds: Vec<BufferId> = Vec::new();
        let mut i: usize = 0;
        while i < self.days.len()
            invariant
                i <= self.days.len(),
                ascending(self@),
                self@ == dates(self.days@),
                ascending(dates(ds@)),
                forall|d: Date|
                    dates(ds@).contains(d) <==> d.year == year && d.month == month && exists|
                        k: int,
                    | 0 <= k < i && #[trigger] self@[k] == d,
            decreases self.days.len() - i,
        {
            let ghost held = dates(ds@);
            let ghost here = self@[i as int];
            let id: BufferId = self.days[i];
            assert(id@ == here);
            if id.year() == year && id.month() == month {
                ds.push(id);
                let ghost now = dates(ds@);
                assert(now =~= held.push(here));
                assert forall|a: int, b: int| 0 <= a < b < now.len() implies (#[trigger] now[a]).before(
                    #[trigger] now[b],
                ) by {
                    assert(now[a] == held[a]);
                    if b < held.len() {
                        assert(now[b] == held[b]);
                    } else {
                        assert(held.contains(held[a]));
                        let k = choose|k: int| 0 <= k < i && #[trigger] self@[k] == held[a];
                        assert(self@[k].before(here));
                    }
                }
            }
            let ghost now = dates(ds@);
            assert forall|d: Date|
                now.contains(d) <==> d.year == year && d.month == month && exists|k: int|
                    0 <= k < i + 1 && #[trigger] self@[k] == d by {
                if held.contains(d) {
                    let k = choose|k: int| 0 <= k < i && #[trigger] self@[k] == d;
                    assert(0 <= k < i + 1 && self@[k] == d);
                    let h = choose|h: int| 0 <= h < held.len() && held[h] == d;
                    assert(now[h] == d);
                }
                if now.contains(d) && !held.contains(d) {
                    let h = choose|h: int| 0 <= h < now.len() && now[h] == d;
                    if h < held.len() {
                        assert(held[h] == d);
                    }
                    assert(here == d);
                }
                if d.year == year && d.month == month && exists|k: int|
                    0 <= k < i + 1 && #[trigger] self@[k] == d {
                    let k = choose|k: int| 0 <= k < i + 1 && #[trigger] self@[k] == d;
                    if k < i {
                        assert(held.contains(d));
                        let h = choose|h: int| 0 <= h < held.len() && held[h] == d;
                        assert(now[h] == d);
                    } else {
                        assert(now[now.len() - 1] == d);
                    }
                }
            }
            i += 1;
        }
        ds
    }
}

} // verus!
