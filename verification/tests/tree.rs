use sunrise::calendar::BufferId;
use sunrise::tree::{insert_sorted, month_to_name, NoteTree};

fn id(y: i32, m: u32, d: u32) -> BufferId {
    BufferId::new(y, m, d).unwrap()
}

#[test]
fn months_have_their_names() {
    let names = ["Jan", "Feb", "Mar", "Apr", "May", "Jun", "Jul", "Aug", "Sep", "Oct", "Now", "Dec"];
    for (i, name) in names.iter().enumerate() {
        assert_eq!(month_to_name(i as u32 + 1), *name);
    }
    assert_eq!(month_to_name(0), "???");
    assert_eq!(month_to_name(13), "???");
    assert_eq!(month_to_name(u32::MAX), "???");
}

#[test]
fn tree_sorts_whatever_order_it_is_given() {
    let index = vec![id(2024, 3, 8), id(2023, 12, 31), id(2024, 3, 7), id(2024, 1, 15), id(2024, 3, 8)];
    let tree = NoteTree::new(&index);
    assert_eq!(
        tree.days(),
        vec![id(2023, 12, 31), id(2024, 1, 15), id(2024, 3, 7), id(2024, 3, 8)]
    );
}

#[test]
fn tree_groups_by_year_and_month() {
    let index = vec![
        id(2024, 3, 8),
        id(2023, 12, 31),
        id(2024, 3, 7),
        id(2024, 1, 15),
        id(2022, 3, 9),
        id(2024, 3, 1),
    ];
    let tree = NoteTree::new(&index);
    assert_eq!(tree.years(), vec![2022, 2023, 2024]);
    assert_eq!(tree.months_of(2024), vec![1, 3]);
    assert_eq!(tree.months_of(2023), vec![12]);
    assert_eq!(tree.months_of(2022), vec![3]);
    assert_eq!(tree.months_of(2021), Vec::<u32>::new());
    assert_eq!(tree.days_of(2024, 3), vec![id(2024, 3, 1), id(2024, 3, 7), id(2024, 3, 8)]);
    assert_eq!(tree.days_of(2022, 3), vec![id(2022, 3, 9)]);
    assert_eq!(tree.days_of(2024, 2), Vec::<BufferId>::new());
    assert_eq!(tree.days_of(2025, 3), Vec::<BufferId>::new());
}

#[test]
fn empty_index_gives_an_empty_tree() {
    let tree = NoteTree::new(&Vec::new());
    assert_eq!(tree.days(), Vec::<BufferId>::new());
    assert_eq!(tree.years(), Vec::<i32>::new());
}

#[test]
fn every_day_shows_once_under_its_year_and_month() {
    let mut index = Vec::new();
    let mut day = id(2024, 3, 10);
    for i in 0..200 {
        if i % 3 != 1 {
            index.push(day);
        }
        if i % 7 == 0 {
            index.push(day);
        }
        day = day.prev();
    }
    index.reverse();
    index.rotate_left(37);
    let tree = NoteTree::new(&index);
    let mut shown = Vec::new();
    for y in tree.years() {
        for m in tree.months_of(y) {
            for d in tree.days_of(y, m) {
                assert_eq!((d.year(), d.month()), (y, m));
                shown.push(d);
            }
        }
    }
    let mut expected = index.clone();
    expected.sort();
    expected.dedup();
    assert_eq!(shown, expected);
    assert_eq!(tree.days(), expected);
}

#[test]
fn sorted_insertion_keeps_order_and_skips_what_is_there() {
    let mut list = Vec::new();
    for day in [id(2024, 1, 3), id(2024, 1, 1), id(2024, 1, 2), id(2024, 1, 1), id(2023, 5, 5)] {
        insert_sorted(&mut list, day);
    }
    assert_eq!(list, vec![id(2023, 5, 5), id(2024, 1, 1), id(2024, 1, 2), id(2024, 1, 3)]);
}
