use std::collections::HashMap;

use todo_list::date::Date;
use todo_list::session::Action;
use todo_list::session::Event;
use todo_list::session::Loaded;
use todo_list::session::MenuChoice;
use todo_list::session::Session;
use todo_list::session::SortChoice;
use todo_list::session::StartupError;
use todo_list::snapshot::Snapshot;
use todo_list::sort::SortMode;
use todo_list::task::Task;

fn day(year: i32, month: u32, day: u32) -> Date {
    Date::new(year, month, day).unwrap()
}

fn entered(date: Date, subject: &str, body: &str) -> Event {
    Event::Entered { date, subject: String::from(subject), body: String::from(body) }
}

fn saved(action: Action) -> Snapshot {
    match action {
        Action::Save(snapshot) => snapshot,
        other => panic!("not saved: {:?}", other),
    }
}

fn shown(action: Action) -> Vec<u32> {
    match action {
        Action::Show(records) => records.iter().map(|t| t.id()).collect(),
        other => panic!("not shown: {:?}", other),
    }
}

fn filled() -> Session {
    let mut session = Session::new();
    session.step(entered(day(2024, 1, 10), "banana", "yellow"));
    session.step(entered(day(2024, 3, 5), "apple", "red"));
    session.step(entered(day(2024, 1, 10), "apple", "green"));
    session
}

#[test]
fn first_start_is_empty_with_id_order() {
    let session = Session::new();
    assert!(session.repo().is_empty());
    assert_eq!(session.repo().next_id(), 0);
    assert_eq!(session.mode(), SortMode::Id);
}

#[test]
fn start_without_snapshot_is_a_first_start() {
    let session = Session::start(Loaded::Missing).ok().unwrap();
    assert!(session.repo().is_empty());
    assert_eq!(session.repo().next_id(), 0);
    assert_eq!(session.mode(), SortMode::Id);
    assert_eq!(
        session.snapshot(),
        Snapshot::new(HashMap::new(), Vec::new(), 0, SortMode::Id)
    );
}

#[test]
fn start_on_what_cannot_be_read_fails() {
    assert_eq!(Session::start(Loaded::Corrupt).err(), Some(StartupError::Corrupt));
}

#[test]
fn start_on_a_snapshot_that_does_not_fit_fails() {
    let mut tasks = HashMap::new();
    tasks.insert(0, Task::new(0, day(2024, 1, 1), String::from("x"), String::from("y")));
    let snapshot = Snapshot::new(tasks, vec![0, 1], 2, SortMode::Id);
    assert_eq!(
        Session::start(Loaded::Found(snapshot)).err(),
        Some(StartupError::Inconsistent)
    );
    let spent = Snapshot::new(HashMap::new(), vec![3], 4, SortMode::Oldest);
    assert!(Session::restore(spent).is_none());
}

#[test]
fn start_on_a_snapshot_restores_it() {
    let mut tasks = HashMap::new();
    tasks.insert(4, Task::new(4, day(2024, 1, 1), String::from("x"), String::from("y")));
    let snapshot = Snapshot::new(tasks.clone(), vec![4], 9, SortMode::Subject);
    let session = Session::start(Loaded::Found(snapshot)).ok().unwrap();
    assert_eq!(session.mode(), SortMode::Subject);
    assert_eq!(session.repo().ids(), vec![4]);
    assert_eq!(session.repo().next_id(), 9);
    assert_eq!(session.repo().records(), tasks);
    assert_eq!(session.snapshot(), Snapshot::new(tasks, vec![4], 9, SortMode::Subject));
}

#[test]
fn snapshot_restores_to_the_same_session() {
    let mut session = filled();
    session.step(Event::Picked(1));
    session.step(Event::Sorted(SortChoice::Mode(SortMode::Newest)));
    let restored = Session::restore(session.snapshot()).unwrap();
    assert_eq!(restored.snapshot(), session.snapshot());
    assert_eq!(restored.mode(), SortMode::Newest);
    assert_eq!(restored.repo().ids(), vec![0, 2]);
    assert_eq!(restored.repo().next_id(), 3);
    assert_eq!(restored.repo().list(), session.repo().list());
    assert_eq!(restored.listing(), session.listing());
}

#[test]
fn menu_add_asks_for_the_task() {
    let mut session = Session::new();
    assert_eq!(session.step(Event::Chose(MenuChoice::Add)), Action::AskTask);
    assert!(session.repo().is_empty());
}

#[test]
fn entered_task_is_added_and_saved() {
    let mut session = Session::new();
    let snapshot = saved(session.step(entered(day(2024, 1, 1), "x", "y")));
    assert_eq!(snapshot.order, vec![0]);
    assert_eq!(snapshot.next_id, 1);
    assert_eq!(snapshot.mode, SortMode::Id);
    let expected = Task::new(0, day(2024, 1, 1), String::from("x"), String::from("y"));
    assert_eq!(snapshot.tasks.len(), 1);
    assert_eq!(snapshot.tasks.get(&0), Some(&expected));
    assert_eq!(session.repo().get(0), Some(&expected));
    assert_eq!(session.snapshot(), snapshot);
}

#[test]
fn entered_task_may_have_an_empty_body() {
    let mut session = Session::new();
    let snapshot = saved(session.step(entered(day(2024, 1, 1), "x", "")));
    assert_eq!(snapshot.tasks.get(&0).unwrap().body(), "");
}

#[test]
fn entered_task_without_subject_is_asked_for_again() {
    let mut session = filled();
    let before = session.snapshot();
    assert_eq!(session.step(entered(day(2024, 1, 1), "", "y")), Action::AskTask);
    assert_eq!(session.snapshot(), before);
    assert_eq!(session.repo().next_id(), 3);
}

#[test]
fn menu_remove_on_an_empty_repository_does_nothing() {
    let mut session = Session::new();
    assert_eq!(session.step(Event::Chose(MenuChoice::Remove)), Action::AskMenu);
    assert!(session.repo().is_empty());
    assert_eq!(session.repo().next_id(), 0);
}

#[test]
fn menu_list_on_an_empty_repository_does_nothing() {
    let mut session = Session::new();
    assert_eq!(session.step(Event::Chose(MenuChoice::List)), Action::AskMenu);
    assert!(session.repo().is_empty());
    assert_eq!(session.repo().next_id(), 0);
}

#[test]
fn emptied_repository_guards_like_a_new_one() {
    let mut session = Session::new();
    session.step(entered(day(2024, 1, 1), "x", "y"));
    session.step(Event::Picked(0));
    let before = session.snapshot();
    assert_eq!(session.step(Event::Chose(MenuChoice::Remove)), Action::AskMenu);
    assert_eq!(session.step(Event::Chose(MenuChoice::List)), Action::AskMenu);
    assert_eq!(session.snapshot(), before);
    assert_eq!(session.repo().next_id(), 1);
}

#[test]
fn menu_remove_offers_the_ids_in_order() {
    let mut session = filled();
    session.step(Event::Picked(1));
    let before = session.snapshot();
    assert_eq!(session.step(Event::Chose(MenuChoice::Remove)), Action::AskRemoval(vec![0, 2]));
    assert_eq!(session.snapshot(), before);
}

#[test]
fn picked_id_is_removed_and_saved() {
    let mut session = filled();
    let snapshot = saved(session.step(Event::Picked(0)));
    assert_eq!(snapshot.order, vec![1, 2]);
    assert_eq!(snapshot.next_id, 3);
    assert!(!snapshot.tasks.contains_key(&0));
    assert_eq!(snapshot.tasks.len(), 2);
    assert_eq!(session.snapshot(), snapshot);
}

#[test]
fn picked_id_that_is_absent_is_saved_unchanged() {
    let mut session = filled();
    let before = session.snapshot();
    assert_eq!(saved(session.step(Event::Picked(9))), before);
    assert_eq!(session.snapshot(), before);
}

#[test]
fn menu_list_shows_by_the_active_mode() {
    let mut session = filled();
    assert_eq!(shown(session.step(Event::Chose(MenuChoice::List))), vec![0, 1, 2]);
    session.step(Event::Sorted(SortChoice::Mode(SortMode::Oldest)));
    assert_eq!(shown(session.step(Event::Chose(MenuChoice::List))), vec![0, 2, 1]);
    session.step(Event::Sorted(SortChoice::Mode(SortMode::Newest)));
    assert_eq!(shown(session.step(Event::Chose(MenuChoice::List))), vec![1, 2, 0]);
    session.step(Event::Sorted(SortChoice::Mode(SortMode::Subject)));
    assert_eq!(shown(session.step(Event::Chose(MenuChoice::List))), vec![1, 2, 0]);
    session.step(Event::Sorted(SortChoice::Mode(SortMode::Id)));
    assert_eq!(shown(session.step(Event::Chose(MenuChoice::List))), vec![0, 1, 2]);
}

#[test]
fn menu_list_changes_nothing() {
    let mut session = filled();
    session.step(Event::Sorted(SortChoice::Mode(SortMode::Subject)));
    let before = session.snapshot();
    session.step(Event::Chose(MenuChoice::List));
    assert_eq!(session.snapshot(), before);
    assert_eq!(session.repo().ids(), vec![0, 1, 2]);
}

#[test]
fn menu_sort_shows_the_sort_menu() {
    let mut session = filled();
    assert_eq!(session.step(Event::Chose(MenuChoice::Sort)), Action::AskSort);
    let mut empty = Session::new();
    assert_eq!(empty.step(Event::Chose(MenuChoice::Sort)), Action::AskSort);
}

#[test]
fn sort_mode_is_set_and_saved() {
    let mut session = filled();
    for mode in [SortMode::Oldest, SortMode::Newest, SortMode::Subject, SortMode::Id] {
        let snapshot = saved(session.step(Event::Sorted(SortChoice::Mode(mode))));
        assert_eq!(snapshot.mode, mode);
        assert_eq!(snapshot.order, vec![0, 1, 2]);
        assert_eq!(snapshot.next_id, 3);
        assert_eq!(session.mode(), mode);
    }
}

#[test]
fn sort_back_changes_and_saves_nothing() {
    let mut session = filled();
    session.step(Event::Sorted(SortChoice::Mode(SortMode::Newest)));
    let before = session.snapshot();
    assert_eq!(session.step(Event::Sorted(SortChoice::Back)), Action::AskMenu);
    assert_eq!(session.snapshot(), before);
    assert_eq!(session.mode(), SortMode::Newest);
}

#[test]
fn menu_exit_ends_the_session() {
    let mut session = filled();
    let before = session.snapshot();
    assert_eq!(session.step(Event::Chose(MenuChoice::Exit)), Action::Quit);
    assert_eq!(session.snapshot(), before);
}

#[test]
fn cancelled_prompt_ends_the_session() {
    let mut session = filled();
    let before = session.snapshot();
    assert_eq!(session.step(Event::Cancelled), Action::Abort);
    assert_eq!(session.snapshot(), before);
}

#[test]
fn add_remove_list_and_restart() {
    let mut session = Session::start(Loaded::Missing).ok().unwrap();
    assert_eq!(session.step(Event::Chose(MenuChoice::Add)), Action::AskTask);
    let first = saved(session.step(entered(day(2024, 1, 1), "x", "y")));
    assert_eq!(first.order, vec![0]);
    assert_eq!(session.step(Event::Chose(MenuChoice::Add)), Action::AskTask);
    let second = saved(session.step(entered(day(2024, 2, 2), "b", "c")));
    assert_eq!(second.order, vec![0, 1]);
    assert_eq!(session.step(Event::Chose(MenuChoice::Remove)), Action::AskRemoval(vec![0, 1]));
    let written = saved(session.step(Event::Picked(0)));
    let task_b = Task::new(1, day(2024, 2, 2), String::from("b"), String::from("c"));
    match session.step(Event::Chose(MenuChoice::List)) {
        Action::Show(records) => {
            assert_eq!(records, vec![task_b.clone()]);
            assert_eq!(records[0].render(), "ID: 1\nDate: 2024-02-02\nSubject: b\nBody: c\n");
        }
        other => panic!("not shown: {:?}", other),
    }
    assert_eq!(session.step(Event::Chose(MenuChoice::Exit)), Action::Quit);

    let mut again = Session::start(Loaded::Found(written)).ok().unwrap();
    assert_eq!(again.repo().ids(), vec![1]);
    assert_eq!(again.repo().next_id(), 2);
    assert_eq!(again.mode(), SortMode::Id);
    assert_eq!(again.repo().list(), vec![task_b]);
    assert_eq!(again.snapshot(), session.snapshot());
    let third = saved(again.step(entered(day(2024, 3, 3), "d", "e")));
    assert_eq!(third.order, vec![1, 2]);
}

#[test]
fn room_ends_with_the_last_id() {
    let last = Snapshot::new(HashMap::new(), Vec::new(), u32::MAX, SortMode::Id);
    let full = Session::restore(last).unwrap();
    assert!(!full.has_room_for(&entered(day(2024, 1, 1), "x", "y")));
    assert!(full.has_room_for(&entered(day(2024, 1, 1), "", "y")));
    assert!(full.has_room_for(&Event::Chose(MenuChoice::Add)));
    assert!(full.has_room_for(&Event::Picked(0)));

    let nearly = Snapshot::new(HashMap::new(), Vec::new(), u32::MAX - 1, SortMode::Id);
    let mut session = Session::restore(nearly).unwrap();
    assert!(session.has_room_for(&entered(day(2024, 1, 1), "x", "y")));
    let snapshot = saved(session.step(entered(day(2024, 1, 1), "x", "y")));
    assert_eq!(snapshot.order, vec![u32::MAX - 1]);
    assert_eq!(snapshot.next_id, u32::MAX);
    assert!(!session.has_room_for(&entered(day(2024, 1, 1), "x", "y")));
}
