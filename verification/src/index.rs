//! The index: the identifiers of the buffers that exist, rebuilt from the
//! paths of the files in the store.

use crate::calendar::{path_of, BufferId, Date};
use crate::number::{
    lemma_i32_round_trip, lemma_u32_round_trip, parse_i32, parse_u32, parsed_i32, parsed_u32,
};
use crate::text::encodings;
use vstd::prelude::*;

verus! {

/// The date that a path names: its last three segments, read as year, month
/// and day, where all three are numbers and make a date that exists.
pub open spec fn entry_of(path: Seq<Seq<u8>>) -> Option<Date> {
    if path.len() < 3 {
        None
    } else {
        let n = path.len() as int;
        match (parsed_i32(path[n - 3]), parsed_u32(path[n - 2]), parsed_u32(path[n - 1])) {
            (Some(year), Some(month), Some(day)) => {
                let date = Date { year: year as int, month: month as int, day: day as int };
                if date.valid() {
                    Some(date)
                } else {
                    None
                }
            },
            _ => None,
        }
    }
}

/// The dates that a list of paths names, each once, in the order in which
/// they first appear.
#[verifier::opaque]
pub open spec fn index_of(paths: Seq<Seq<Seq<u8>>>) -> Seq<Date>
    decreases paths.len(),
{
    if paths.len() == 0 {
        Seq::empty()
    } else {
        let earlier = index_of(paths.drop_last());
        match entry_of(paths.last()) {
            Some(date) => if earlier.contains(date) {
                earlier
            } else {
                earlier.push(date)
            },
            None => earlier,
        }
    }
}

/// The dates of a list of identifiers.
pub open spec fn dates(ids: Seq<BufferId>) -> Seq<Date> {
    Seq::new(ids.len(), |i: int| ids[i]@)
}

/// The paths of a list, each as the encodings of its segments.
pub open spec fn path_encodings(paths: Seq<Vec<String>>) -> Seq<Seq<Seq<u8>>> {
    Seq::new(paths.len(), |i: int| encodings(paths[i]@))
}

/// The path under which a buffer is stored names the buffer: reading a
/// written path gives the date back.
pub proof fn lemma_path_names_its_date(d: Date)
    requires
        d.valid(),
    ensures
        entry_of(path_of(d)) == Some(d),
{
    lemma_i32_round_trip(d.year as i32);
    lemma_u32_round_trip(d.month as u32);
    lemma_u32_round_trip(d.day as u32);
}

/// Two days never share a path.
pub proof fn lemma_paths_differ(a: Date, b: Date)
    requires
        a.valid(),
        b.valid(),
        path_of(a) == path_of(b),
    ensures
        a == b,
{
    lemma_path_names_its_date(a);
    lemma_path_names_its_date(b);
}

/// The index holds exactly the dates that some path names: each is valid,
/// none occurs twice, and no date that a path names is missing.
pub proof fn lemma_index_exact(paths: Seq<Seq<Seq<u8>>>)
    ensures
        index_of(paths).no_duplicates(),
        forall|d: Date| #[trigger]
            index_of(paths).contains(d) <==> exists|i: int|
                0 <= i < paths.len() && entry_of(#[trigger] paths[i]) == Some(d),
        forall|k: int| 0 <= k < index_of(paths).len() ==> (#[trigger] index_of(paths)[k]).valid(),
    decreases paths.len(),
{
    reveal(index_of);
    if paths.len() > 0 {
        let front = paths.drop_last();
        let earlier = index_of(front);
        let here = index_of(paths);
        lemma_index_exact(front);
        assert forall|d: Date| #[trigger]
            here.contains(d) <==> exists|i: int|
                0 <= i < paths.len() && entry_of(#[trigger] paths[i]) == Some(d) by {
            if here.contains(d) {
                if earlier.contains(d) {
                    let i = choose|i: int|
                        0 <= i < front.len() && entry_of(#[trigger] front[i]) == Some(d);
                    assert(paths[i] == front[i]);
                } else {
                    let k = choose|k: int| 0 <= k < here.len() && here[k] == d;
                    if k < earlier.len() {
                        assert(earlier[k] == d);
                    }
                    assert(entry_of(paths[paths.len() - 1]) == Some(d));
                }
            }
            if exists|i: int| 0 <= i < paths.len() && entry_of(#[trigger] paths[i]) == Some(d) {
                let i = choose|i: int|
                    0 <= i < paths.len() && entry_of(#[trigger] paths[i]) == Some(d);
                if i < front.len() {
                    assert(front[i] == paths[i]);
                    assert(earlier.contains(d));
                    let k = choose|k: int| 0 <= k < earlier.len() && earlier[k] == d;
                    assert(here[k] == d);
                } else {
                    if earlier.contains(d) {
                    } else {
                        assert(here[here.len() - 1] == d);
                    }
                }
            }
        }
    }
}

/// Reads the date that a path names.
pub fn index_entry(path: &Vec<String>) -> (id: Option<BufferId>)
    ensures
        match id {
            Some(b) => entry_of(encodings(path@)) == Some(b@),
            None => entry_of(encodings(path@)) is None,
        },
{
    let n: usize = path.len();
    if n < 3 {
        return None;
    }
    let year = parse_i32(path[n - 3].as_str().as_bytes());
    let month = parse_u32(path[n - 2].as_str().as_bytes());
    let day = parse_u32(path[n - 1].as_str().as_bytes());
    match (year, month, day) {
        (Some(y), Some(m), Some(d)) => BufferId::new(y, m, d),
        _ => None,
    }
}

/// Whether the list holds an identifier of the given day.
pub fn holds(index: &Vec<BufferId>, id: &BufferId) -> (found: bool)
    ensures
        found == dates(index@).contains(id@),
{
    let mut i: usize = 0;
    while i < index.len()
        invariant
            i <= index.len(),
            forall|k: int| 0 <= k < i ==> dates(index@)[k] != id@,
        decreases index.len() - i,
    {
        if index[i].same_day(id) {
            assert(dates(index@)[i as int] == id@);
            return true;
        }
        i += 1;
    }
    false
}

/// The index of the first `i + 1` paths, from the index of the first `i`.
pub proof fn lemma_index_step(paths: Seq<Seq<Seq<u8>>>, i: int)
    requires
        0 <= i < paths.len(),
    ensures
        index_of(paths.subrange(0, i + 1)) == match entry_of(paths[i]) {
            Some(date) => if index_of(paths.subrange(0, i)).contains(date) {
                index_of(paths.subrange(0, i))
            } else {
                index_of(paths.subrange(0, i)).push(date)
            },
            None => index_of(paths.subrange(0, i)),
        },
{
    reveal(index_of);
    let seen = paths.subrange(0, i + 1);
    assert(seen.drop_last() =~= paths.subrange(0, i));
    assert(seen.last() == paths[i]);
}

/// No paths, no index.
pub proof fn lemma_index_of_nothing()
    ensures
        index_of(Seq::empty()) == Seq::<Date>::empty(),
{
    reveal(index_of);
}

/// Adds the date that a path names to an index, unless it names none or the
/// index holds it already.
pub fn add_entry(index: &mut Vec<BufferId>, path: &Vec<String>)
    ensures
        dates(final(index)@) == match entry_of(encodings(path@)) {
            Some(date) => if dates(old(index)@).contains(date) {
                dates(old(index)@)
            } else {
                dates(old(index)@).push(date)
            },
            None => dates(old(index)@),
        },
{
    match index_entry(path) {
        Some(id) => {
            if !holds(index, &id) {
                index.push(id);
                assert(dates(index@) =~= dates(old(index)@).push(id@));
            }
        },
        None => {},
    }
}

/// Rebuilds the index from the paths of the files in the store.
///
/// A path whose last three segments do not name a date is passed over.
pub fn rebuild_index(paths: &Vec<Vec<String>>) -> (index: Vec<BufferId>)
    ensures
        dates(index@) == index_of(path_encodings(paths@)),
{
    let mut index: Vec<BufferId> = Vec::new();
    let mut i: usize = 0;
    let ghost all = path_encodings(paths@);
    proof {
        lemma_index_of_nothing();
        assert(all.subrange(0, 0) =~= Seq::<Seq<Seq<u8>>>::empty());
        assert(dates(index@) =~= Seq::<Date>::empty());
    }
    while i < paths.len()
        invariant
            i <= paths.len(),
            all.len() == paths.len(),
            all == path_encodings(paths@),
            dates(index@) == index_of(all.subrange(0, i as int)),
        decreases paths.len() - i,
    {
        proof {
            lemma_index_step(all, i as int);
            assert(all[i as int] == encodings(paths@[i as int]@));
        }
        add_entry(&mut index, &paths[i]);
        i += 1;
    }
    assert(all.subrange(0, all.len() as int) =~= all);
    index
}

} // verus!
