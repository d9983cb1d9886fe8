use todo_list::date::Date;
use todo_list::sort::lists_before;
use todo_list::sort::order;
use todo_list::sort::SortMode;
use todo_list::task::Task;

fn day(year: i32, month: u32, day: u32) -> Date {
    Date::new(year, month, day).unwrap()
}

fn task(id: u32, date: Date, subject: &str) -> Task {
    Task::new(id, date, String::from(subject), String::new())
}

fn ids(tasks: &[Task]) -> Vec<u32> {
    tasks.iter().map(|t| t.id()).collect()
}

fn dated() -> Vec<Task> {
    vec![
        task(1, day(2024, 1, 10), "a"),
        task(2, day(2024, 3, 5), "b"),
        task(3, day(2024, 1, 10), "c"),
    ]
}

fn named() -> Vec<Task> {
    vec![
        task(1, day(2024, 1, 1), "banana"),
        task(2, day(2024, 1, 1), "apple"),
        task(3, day(2024, 1, 1), "apple"),
    ]
}

#[test]
fn oldest_puts_equal_dates_by_id() {
    assert_eq!(ids(&order(dated(), SortMode::Oldest)), vec![1, 3, 2]);
}

#[test]
fn newest_is_oldest_backwards() {
    let oldest = ids(&order(dated(), SortMode::Oldest));
    let newest = ids(&order(dated(), SortMode::Newest));
    assert_eq!(newest, vec![2, 3, 1]);
    let mut turned = oldest.clone();
    turned.reverse();
    assert_eq!(newest, turned);
}

#[test]
fn subject_puts_equal_subjects_by_id() {
    assert_eq!(ids(&order(named(), SortMode::Subject)), vec![2, 3, 1]);
}

#[test]
fn id_order_is_ascending() {
    let tasks = vec![
        task(7, day(2024, 1, 1), "a"),
        task(2, day(2025, 1, 1), "b"),
        task(5, day(2023, 1, 1), "c"),
        task(0, day(2022, 1, 1), "d"),
    ];
    assert_eq!(ids(&order(tasks, SortMode::Id)), vec![0, 2, 5, 7]);
}

#[test]
fn order_does_not_depend_on_how_the_records_come() {
    let one = vec![
        task(3, day(2024, 1, 10), "pear"),
        task(1, day(2024, 1, 10), "fig"),
        task(2, day(2024, 3, 5), "fig"),
        task(0, day(2023, 12, 31), "plum"),
    ];
    let mut other = one.clone();
    other.reverse();
    for mode in [SortMode::Oldest, SortMode::Newest, SortMode::Subject, SortMode::Id] {
        assert_eq!(order(one.clone(), mode), order(other.clone(), mode));
    }
    assert_eq!(ids(&order(one.clone(), SortMode::Oldest)), vec![0, 1, 3, 2]);
    assert_eq!(ids(&order(one.clone(), SortMode::Newest)), vec![2, 3, 1, 0]);
    assert_eq!(ids(&order(one.clone(), SortMode::Subject)), vec![1, 2, 3, 0]);
    assert_eq!(ids(&order(one, SortMode::Id)), vec![0, 1, 2, 3]);
}

#[test]
fn order_keeps_every_record() {
    let tasks = vec![
        task(4, day(2024, 1, 10), "x"),
        task(4, day(2024, 1, 10), "x"),
        task(1, day(2024, 1, 9), "y"),
    ];
    let sorted = order(tasks.clone(), SortMode::Oldest);
    assert_eq!(sorted.len(), 3);
    assert_eq!(ids(&sorted), vec![1, 4, 4]);
    for t in &tasks {
        assert!(sorted.contains(t));
    }
}

#[test]
fn order_of_nothing_and_of_one() {
    for mode in [SortMode::Oldest, SortMode::Newest, SortMode::Subject, SortMode::Id] {
        assert!(order(Vec::new(), mode).is_empty());
        let one = vec![task(9, day(2024, 1, 1), "only")];
        assert_eq!(order(one.clone(), mode), one);
    }
}

#[test]
fn dates_are_compared_by_year_month_day() {
    let tasks = vec![
        task(0, day(2024, 2, 1), ""),
        task(1, day(2024, 1, 31), ""),
        task(2, day(2023, 12, 31), ""),
        task(3, day(2024, 1, 2), ""),
        task(4, day(-1, 12, 31), ""),
    ];
    assert_eq!(ids(&order(tasks.clone(), SortMode::Oldest)), vec![4, 2, 3, 1, 0]);
    assert_eq!(ids(&order(tasks, SortMode::Newest)), vec![0, 1, 3, 2, 4]);
}

#[test]
fn subjects_are_compared_as_strings() {
    let tasks = vec![
        task(0, day(2024, 1, 1), "b"),
        task(1, day(2024, 1, 1), "ab"),
        task(2, day(2024, 1, 1), "a"),
        task(3, day(2024, 1, 1), ""),
        task(4, day(2024, 1, 1), "B"),
        task(5, day(2024, 1, 1), "\u{e9}"),
    ];
    assert_eq!(ids(&order(tasks, SortMode::Subject)), vec![3, 4, 2, 1, 0, 5]);
}

#[test]
fn lists_before_breaks_ties_by_id() {
    let a = task(1, day(2024, 1, 10), "apple");
    let b = task(3, day(2024, 1, 10), "apple");
    let c = task(2, day(2024, 3, 5), "banana");
    assert!(lists_before(SortMode::Oldest, &a, &b));
    assert!(!lists_before(SortMode::Oldest, &b, &a));
    assert!(lists_before(SortMode::Oldest, &b, &c));
    assert!(lists_before(SortMode::Newest, &b, &a));
    assert!(!lists_before(SortMode::Newest, &a, &b));
    assert!(lists_before(SortMode::Newest, &c, &b));
    assert!(lists_before(SortMode::Subject, &a, &b));
    assert!(!lists_before(SortMode::Subject, &b, &a));
    assert!(lists_before(SortMode::Subject, &b, &c));
    assert!(!lists_before(SortMode::Subject, &c, &a));
    assert!(lists_before(SortMode::Id, &a, &c));
    assert!(lists_before(SortMode::Id, &c, &b));
    assert!(!lists_before(SortMode::Id, &b, &c));
    for mode in [SortMode::Oldest, SortMode::Newest, SortMode::Subject, SortMode::Id] {
        assert!(lists_before(mode, &a, &a));
    }
}
