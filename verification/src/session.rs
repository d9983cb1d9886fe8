//! The interactive session: the repository, the active sort mode, and what
//! the session does with each answer of the user.
//!
//! The session decides; it neither asks nor prints nor writes. Whoever runs
//! it performs the action that a step returns and hands the next event back.

use vstd::prelude::*;

use crate::date::Date;
use crate::date::DateModel;
use crate::repo::lemma_add_wf;
use crate::repo::lemma_remove_wf;
use crate::repo::RepoModel;
use crate::repo::Repository;
use crate::snapshot::Snapshot;
use crate::snapshot::SnapshotModel;
use crate::sort::distinct_ids;
use crate::sort::in_order;
use crate::sort::lemma_distinct_ids_permuted;
use crate::sort::lemma_order_unique;
use crate::sort::order;
use crate::sort::SortMode;
use crate::task::models;
use crate::task::Task;
use crate::task::TaskModel;

verus! {

/// An entry of the top-level menu.
#[derive(Clone, Copy, Debug, PartialEq, Eq, Structural)]
pub enum MenuChoice {
    Add,
    Remove,
    List,
    Sort,
    Exit,
}

/// An entry of the sort menu.
#[derive(Clone, Copy, Debug, PartialEq, Eq, Structural)]
pub enum SortChoice {
    /// List in this order from now on.
    Mode(SortMode),
    /// Leave the order as it is.
    Back,
}

/// What the user answered.
#[derive(Debug, PartialEq, Eq)]
pub enum Event {
    /// An entry of the top-level menu was chosen.
    Chose(MenuChoice),
    /// The date, subject and body of a new task were entered.
    Entered { date: Date, subject: String, body: String },
    /// The id of the task to remove was picked.
    Picked(u32),
    /// An entry of the sort menu was chosen.
    Sorted(SortChoice),
    /// A prompt was cancelled, or failed.
    Cancelled,
}

/// What an event holds.
pub enum EventModel {
    Chose(MenuChoice),
    Entered { date: DateModel, subject: Seq<char>, body: Seq<char> },
    Picked(u32),
    Sorted(SortChoice),
    Cancelled,
}

impl View for Event {
    type V = EventModel;

    open spec fn view(&self) -> EventModel {
        match *self {
            Event::Chose(choice) => EventModel::Chose(choice),
            Event::Entered { date, subject, body } => EventModel::Entered {
                date: date@,
                subject: subject@,
                body: body@,
            },
            Event::Picked(id) => EventModel::Picked(id),
            Event::Sorted(choice) => EventModel::Sorted(choice),
            Event::Cancelled => EventModel::Cancelled,
        }
    }
}

/// What is to be done next.
#[derive(Debug, PartialEq, Eq)]
pub enum Action {
    /// Show the top-level menu.
    AskMenu,
    /// Ask for the date, the subject and the body of a new task.
    AskTask,
    /// Ask which of these ids to remove.
    AskRemoval(Vec<u32>),
    /// Show the sort menu.
    AskSort,
    /// Print these records, in this order, then show the top-level menu.
    Show(Vec<Task>),
    /// Write this snapshot, then show the top-level menu.
    Save(Snapshot),
    /// End the session: the user asked for it.
    Quit,
    /// End the session: a prompt was cancelled.
    Abort,
}

/// What an action holds.
pub enum ActionModel {
    AskMenu,
    AskTask,
    AskRemoval(Seq<u32>),
    AskSort,
    Show(Seq<TaskModel>),
    Save(SnapshotModel),
    Quit,
    Abort,
}

impl View for Action {
    type V = ActionModel;

    open spec fn view(&self) -> ActionModel {
        match *self {
            Action::AskMenu => ActionModel::AskMenu,
            Action::AskTask => ActionModel::AskTask,
            Action::AskRemoval(ids) => ActionModel::AskRemoval(ids@),
            Action::AskSort => ActionModel::AskSort,
            Action::Show(records) => ActionModel::Show(models(records@)),
            Action::Save(snapshot) => ActionModel::Save(snapshot@),
            Action::Quit => ActionModel::Quit,
            Action::Abort => ActionModel::Abort,
        }
    }
}

/// What was found where the snapshot is kept.
#[derive(Debug, PartialEq, Eq)]
pub enum Loaded {
    /// Nothing: no snapshot was ever written.
    Missing,
    /// Something that could not be read as a snapshot.
    Corrupt,
    /// This snapshot.
    Found(Snapshot),
}

/// Why a session could not start.
#[derive(Clone, Copy, Debug, PartialEq, Eq, Structural)]
pub enum StartupError {
    /// What was found could not be read as a snapshot.
    Corrupt,
    /// The snapshot that was found describes no repository: its ids and its
    /// records do not fit together.
    Inconsistent,
}

/// What a session holds.
pub struct SessionModel {
    pub repo: RepoModel,
    pub mode: SortMode,
}

impl SessionModel {
    /// The invariant of a session, which is that of its repository.
    pub open spec fn wf(self) -> bool {
        self.repo.wf()
    }

    /// The session of a first start: no records, first id 0, listings by
    /// id.
    pub open spec fn fresh() -> SessionModel {
        SessionModel { repo: RepoModel::empty(), mode: SortMode::Id }
    }

    /// The snapshot of the session.
    pub open spec fn captured(self) -> SnapshotModel {
        SnapshotModel {
            tasks: self.repo.tasks,
            order: self.repo.order,
            next_id: self.repo.next_id,
            mode: self.mode,
        }
    }

    /// The session that a snapshot describes, if it is valid.
    pub open spec fn restored(snapshot: SnapshotModel) -> Option<SessionModel> {
        if snapshot.is_valid() {
            Some(SessionModel { repo: snapshot.repo(), mode: snapshot.mode })
        } else {
            None
        }
    }

    /// Whether the event changes what is persisted: a task with a subject
    /// was entered, an id to remove was picked, or a sort mode was chosen.
    pub open spec fn saves(event: EventModel) -> bool {
        match event {
            EventModel::Entered { subject, .. } => subject.len() > 0,
            EventModel::Picked(_) => true,
            EventModel::Sorted(SortChoice::Mode(_)) => true,
            _ => false,
        }
    }

    /// The session after the event.
    pub open spec fn after(self, event: EventModel) -> SessionModel {
        match event {
            EventModel::Entered { date, subject, body } => if subject.len() > 0 {
                SessionModel { repo: self.repo.add(date, subject, body), mode: self.mode }
            } else {
                self
            },
            EventModel::Picked(id) => SessionModel { repo: self.repo.remove(id), mode: self.mode },
            EventModel::Sorted(SortChoice::Mode(mode)) => SessionModel { repo: self.repo, mode },
            _ => self,
        }
    }

    /// Whether `shown` is the listing of the session: the records of the
    /// repository, each once, in the order of the active sort mode.
    pub open spec fn lists(self, shown: Seq<TaskModel>) -> bool {
        in_order(self.mode, shown) && shown.to_multiset() == self.repo.listing().to_multiset()
    }

    /// Whether `action` is what the session does on the event.
    pub open spec fn answers(self, event: EventModel, action: ActionModel) -> bool {
        match event {
            EventModel::Chose(MenuChoice::Add) => action == ActionModel::AskTask,
            EventModel::Chose(MenuChoice::Remove) => if self.repo.order.len() == 0 {
                action == ActionModel::AskMenu
            } else {
                action == ActionModel::AskRemoval(self.repo.order)
            },
            EventModel::Chose(MenuChoice::List) => if self.repo.order.len() == 0 {
                action == ActionModel::AskMenu
            } else {
                action matches ActionModel::Show(shown) && self.lists(shown)
            },
            EventModel::Chose(MenuChoice::Sort) => action == ActionModel::AskSort,
            EventModel::Chose(MenuChoice::Exit) => action == ActionModel::Quit,
            EventModel::Entered { subject, .. } => if subject.len() > 0 {
                action == ActionModel::Save(self.after(event).captured())
            } else {
                action == ActionModel::AskTask
            },
            EventModel::Picked(_) => action == ActionModel::Save(self.after(event).captured()),
            EventModel::Sorted(SortChoice::Mode(_)) => action == ActionModel::Save(
                self.after(event).captured(),
            ),
            EventModel::Sorted(SortChoice::Back) => action == ActionModel::AskMenu,
            EventModel::Cancelled => action == ActionModel::Abort,
        }
    }

    /// Whether the session has an id for the task that the event adds, if it
    /// adds one.
    pub open spec fn has_room_for(self, event: EventModel) -> bool {
        event matches EventModel::Entered { subject, .. } && subject.len() > 0 ==> self.repo.next_id
            < u32::MAX
    }
}

/// The repository and the active sort mode of one run of the program.
pub struct Session {
    repo: Repository,
    mode: SortMode,
}

impl View for Session {
    type V = SessionModel;

    closed spec fn view(&self) -> SessionModel {
        SessionModel { repo: self.repo@, mode: self.mode }
    }
}

impl Session {
    /// Whether the session meets its invariant. Every session that this
    /// module hands out does.
    pub open spec fn wf(&self) -> bool {
        self@.wf()
    }

    /// The session of a first start.
    pub fn new() -> (session: Session)
        ensures
            session@ == SessionModel::fresh(),
            session.wf(),
    {
        Session { repo: Repository::new(), mode: SortMode::Id }
    }

    /// The session that the snapshot describes, if the snapshot is valid.
    pub fn restore(snapshot: Snapshot) -> (made: Option<Session>)
        ensures
            made is Some <==> snapshot@.is_valid(),
            made matches Some(session) ==> Some(session@) == SessionModel::restored(snapshot@)
                && session.wf(),
    {
        let Snapshot { tasks, order, next_id, mode } = snapshot;
        match Repository::from_parts(tasks, order, next_id) {
            Some(repo) => Some(Session { repo, mode }),
            None => None,
        }
    }

    /// The session to start with, given what was found where the snapshot
    /// is kept. Where nothing was found the session is fresh. What could
    /// not be read, or describes no repository, is an error: the session
    /// does not start empty in place of what was found.
    pub fn start(loaded: Loaded) -> (started: Result<Session, StartupError>)
        ensures
            match loaded {
                Loaded::Missing => started matches Ok(session) && session@
                    == SessionModel::fresh(),
                Loaded::Corrupt => started matches Err(error) && error == StartupError::Corrupt,
                Loaded::Found(snapshot) => match SessionModel::restored(snapshot@) {
                    Some(described) => started matches Ok(session) && session@ == described,
                    None => started matches Err(error) && error == StartupError::Inconsistent,
                },
            },
            started matches Ok(session) ==> session.wf(),
    {
        match loaded {
            Loaded::Missing => Ok(Session::new()),
            Loaded::Corrupt => Err(StartupError::Corrupt),
            Loaded::Found(snapshot) => match Session::restore(snapshot) {
                Some(session) => Ok(session),
                None => Err(StartupError::Inconsistent),
            },
        }
    }

    /// The repository.
    pub fn repo(&self) -> (repo: &Repository)
        ensures
            repo@ == self@.repo,
    {
        &self.repo
    }

    /// The active sort mode.
    pub fn mode(&self) -> (mode: SortMode)
        ensures
            mode == self@.mode,
    {
        self.mode
    }

    /// The snapshot of the session: all of its state, to be persisted.
    pub fn snapshot(&self) -> (snapshot: Snapshot)
        requires
            self.wf(),
        ensures
            snapshot@ == self@.captured(),
    {
        Snapshot::new(self.repo.records(), self.repo.ids(), self.repo.next_id(), self.mode)
    }

    /// The records of the repository in the order of the active sort mode.
    pub fn listing(&self) -> (shown: Vec<Task>)
        requires
            self.wf(),
        ensures
            self@.lists(models(shown@)),
    {
        order(self.repo.list(), self.mode)
    }

    /// Whether the session has an id for the task that the event adds, if it
    /// adds one. Every id below the greatest number can be given out, each
    /// once.
    pub fn has_room_for(&self, event: &Event) -> (room: bool)
        ensures
            room == self@.has_room_for(event@),
    {
        match event {
            Event::Entered { subject, .. } => subject.as_str().is_empty() || self.repo.next_id()
                < u32::MAX,
            _ => true,
        }
    }

    /// Takes the next event and returns what is to be done.
    ///
    /// - A menu entry: `Add` asks for the task, `Sort` shows the sort menu,
    ///   `Exit` ends the session. `Remove` asks which id to remove and `List`
    ///   shows the listing; on an empty repository both only show the menu
    ///   again.
    /// - A task: it is added and the session is saved. A task without a
    ///   subject is not added: the task is asked for again.
    /// - An id to remove: its record is removed, if there is one, and the
    ///   session is saved either way.
    /// - A sort mode: it becomes the active one and the session is saved.
    ///   `Back` changes nothing and saves nothing.
    /// - A cancelled prompt ends the session.
    ///
    /// Nothing but a task, an id to remove and a sort mode changes the
    /// session. A task can only be added while an id is left for it.
    pub fn step(&mut self, event: Event) -> (action: Action)
        requires
            old(self).wf(),
            old(self)@.has_room_for(event@),
        ensures
            final(self)@ == old(self)@.after(event@),
            old(self)@.answers(event@, action@),
            final(self).wf(),
    {
        match event {
            Event::Chose(MenuChoice::Add) => Action::AskTask,
            Event::Chose(MenuChoice::Remove) => {
                if self.repo.is_empty() {
                    Action::AskMenu
                } else {
                    Action::AskRemoval(self.repo.ids())
                }
            },
            Event::Chose(MenuChoice::List) => {
                if self.repo.is_empty() {
                    Action::AskMenu
                } else {
                    Action::Show(self.listing())
                }
            },
            Event::Chose(MenuChoice::Sort) => Action::AskSort,
            Event::Chose(MenuChoice::Exit) => Action::Quit,
            Event::Entered { date, subject, body } => {
                if subject.as_str().is_empty() {
                    Action::AskTask
                } else {
                    self.repo.add(date, subject, body);
                    Action::Save(self.snapshot())
                }
            },
            Event::Picked(id) => {
                self.repo.remove(id);
                Action::Save(self.snapshot())
            },
            Event::Sorted(SortChoice::Mode(mode)) => {
                self.mode = mode;
                Action::Save(self.snapshot())
            },
            Event::Sorted(SortChoice::Back) => Action::AskMenu,
            Event::Cancelled => Action::Abort,
        }
    }
}

/// Every event leaves a session with its invariant, and its next id no
/// smaller than before.
pub proof fn lemma_after_wf(session: SessionModel, event: EventModel)
    requires
        session.wf(),
        session.has_room_for(event),
    ensures
        session.after(event).wf(),
        session.after(event).repo.next_id >= session.repo.next_id,
{
    match event {
        EventModel::Entered { date, subject, body } => {
            if subject.len() > 0 {
                lemma_add_wf(session.repo, date, subject, body);
            }
        },
        EventModel::Picked(id) => {
            lemma_remove_wf(session.repo, id);
        },
        _ => {},
    }
}

/// On an empty repository the menu entries `Remove` and `List` change
/// nothing and lead back to the menu, and an id picked for removal changes
/// nothing either.
pub proof fn lemma_empty_guards(session: SessionModel, id: u32)
    requires
        session.wf(),
        session.repo.order.len() == 0,
    ensures
        session.after(EventModel::Chose(MenuChoice::Remove)) == session,
        session.after(EventModel::Chose(MenuChoice::List)) == session,
        session.answers(EventModel::Chose(MenuChoice::Remove), ActionModel::AskMenu),
        session.answers(EventModel::Chose(MenuChoice::List), ActionModel::AskMenu),
        session.after(EventModel::Picked(id)) == session,
{
    assert(!session.repo.order.contains(id));
    lemma_remove_wf(session.repo, id);
}

/// The records of a repository have different ids, and the order in which
/// they were added is the order of their ids.
pub proof fn lemma_added_in_id_order(repo: RepoModel)
    requires
        repo.wf(),
    ensures
        distinct_ids(repo.listing()),
        in_order(SortMode::Id, repo.listing()),
{
    let listing = repo.listing();
    assert forall|i: int, j: int| 0 <= i < j < listing.len() implies listing[i].id
        < listing[j].id by {
        assert(repo.order.contains(repo.order[i]) && repo.order.contains(repo.order[j]));
        assert(repo.tasks.contains_key(repo.order[i]) && repo.tasks.contains_key(repo.order[j]));
        assert(repo.order[i] < repo.order[j]);
    }
}

/// A session has one listing only: the action that shows it is determined.
pub proof fn lemma_listing_unique(session: SessionModel, a: Seq<TaskModel>, b: Seq<TaskModel>)
    requires
        session.wf(),
        session.lists(a),
        session.lists(b),
    ensures
        a == b,
{
    lemma_added_in_id_order(session.repo);
    lemma_distinct_ids_permuted(session.repo.listing(), a);
    lemma_order_unique(session.mode, a, b);
}

/// Listed by id, the records stand in the order in which they were added.
pub proof fn lemma_listing_by_id(session: SessionModel, shown: Seq<TaskModel>)
    requires
        session.wf(),
        session.mode == SortMode::Id,
        session.lists(shown),
    ensures
        shown == session.repo.listing(),
{
    lemma_added_in_id_order(session.repo);
    lemma_listing_unique(session, shown, session.repo.listing());
}

/// What is restored from the snapshot of a session is that session.
pub proof fn lemma_restore_of_snapshot(session: SessionModel)
    requires
        session.wf(),
    ensures
        SessionModel::restored(session.captured()) == Some(session),
{
}

/// The snapshot of what is restored from a valid snapshot is that snapshot.
pub proof fn lemma_snapshot_of_restored(snapshot: SnapshotModel)
    requires
        snapshot.is_valid(),
    ensures
        SessionModel::restored(snapshot) matches Some(session) && session.captured() == snapshot,
{
}

} // verus!
