use sunrise::calendar::BufferId;
use sunrise::index::{add_entry, holds, index_entry, rebuild_index};

fn id(y: i32, m: u32, d: u32) -> BufferId {
    BufferId::new(y, m, d).unwrap()
}

fn path(text: &str) -> Vec<String> {
    text.split('/').map(|s| s.to_string()).collect()
}

#[test]
fn index_keeps_only_paths_that_name_a_date() {
    let paths = vec![path("2024/3/7"), path("2024/13/2"), path("2024/3/abc")];
    assert_eq!(rebuild_index(&paths), vec![id(2024, 3, 7)]);
}

#[test]
fn only_the_last_three_segments_count() {
    assert_eq!(index_entry(&path("home/me/data/sunrise/2024/3/7")), Some(id(2024, 3, 7)));
    assert_eq!(index_entry(&path("abc/2024/3/7")), Some(id(2024, 3, 7)));
    assert_eq!(index_entry(&path("2024/3/7/x")), None);
    assert_eq!(index_entry(&path("1999/2024/3/31")), Some(id(2024, 3, 31)));
}

#[test]
fn short_paths_name_nothing() {
    assert_eq!(index_entry(&path("3/7")), None);
    assert_eq!(index_entry(&path("7")), None);
    assert_eq!(index_entry(&Vec::new()), None);
}

#[test]
fn segments_must_be_numbers_of_a_date() {
    assert_eq!(index_entry(&path("2024/2/30")), None);
    assert_eq!(index_entry(&path("2023/2/29")), None);
    assert_eq!(index_entry(&path("2024/2/29")), Some(id(2024, 2, 29)));
    assert_eq!(index_entry(&path("2024/0/1")), None);
    assert_eq!(index_entry(&path("2024/1/0")), None);
    assert_eq!(index_entry(&path("2024/-1/1")), None);
    assert_eq!(index_entry(&path("2024//1")), None);
    assert_eq!(index_entry(&path("2024/1/1.txt")), None);
    assert_eq!(index_entry(&path("x2024/1/1")), None);
    assert_eq!(index_entry(&path("999999/1/1")), None);
    assert_eq!(index_entry(&path("99999999999/1/1")), None);
    assert_eq!(index_entry(&path("2024/4294967297/1")), None);
}

#[test]
fn padded_and_signed_segments_are_read_as_numbers() {
    assert_eq!(index_entry(&path("2024/03/07")), Some(id(2024, 3, 7)));
    assert_eq!(index_entry(&path("+2024/+3/+7")), Some(id(2024, 3, 7)));
    assert_eq!(index_entry(&path("-5/1/10")), Some(id(-5, 1, 10)));
}

#[test]
fn a_written_path_names_its_day() {
    let days = [id(2024, 3, 7), id(2024, 12, 31), id(-5, 1, 10), id(0, 2, 29), id(262142, 12, 31)];
    for day in days {
        assert_eq!(index_entry(&day.filepath()), Some(day));
        let mut below_root = path("var/data");
        below_root.extend(day.filepath());
        assert_eq!(index_entry(&below_root), Some(day));
    }
}

#[test]
fn each_day_is_indexed_once_in_order_of_appearance() {
    let paths = vec![
        path("2024/3/8"),
        path("2024/03/08"),
        path("junk"),
        path("2023/1/1"),
        path("2024/3/8"),
        path("a/2023/1/1"),
        path("2024/3/7"),
    ];
    assert_eq!(rebuild_index(&paths), vec![id(2024, 3, 8), id(2023, 1, 1), id(2024, 3, 7)]);
}

#[test]
fn no_paths_no_index() {
    assert_eq!(rebuild_index(&Vec::new()), Vec::new());
    assert_eq!(rebuild_index(&vec![path("a/b/c"), path("x")]), Vec::new());
}

#[test]
fn entries_are_added_unless_held() {
    let mut index = vec![id(2024, 1, 1)];
    add_entry(&mut index, &path("2024/1/2"));
    assert_eq!(index, vec![id(2024, 1, 1), id(2024, 1, 2)]);
    add_entry(&mut index, &path("2024/1/1"));
    assert_eq!(index, vec![id(2024, 1, 1), id(2024, 1, 2)]);
    add_entry(&mut index, &path("2024/1/32"));
    assert_eq!(index, vec![id(2024, 1, 1), id(2024, 1, 2)]);
    assert!(holds(&index, &id(2024, 1, 2)));
    assert!(!holds(&index, &id(2024, 1, 3)));
}
