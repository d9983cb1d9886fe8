//! The task repository: the records by id, the ids in the order in which the
//! tasks were added, and the id that the next task will get.

use std::collections::HashMap;
use vstd::prelude::*;

use crate::date::Date;
use crate::date::DateModel;
use crate::task::models;
use crate::task::Task;
use crate::task::TaskModel;

verus! {

broadcast use vstd::std_specs::hash::group_hash_axioms;

/// What a repository holds.
pub struct RepoModel {
    /// The records, each under its id.
    pub tasks: Map<u32, TaskModel>,
    /// The ids of the records, in the order in which they were added.
    pub order: Seq<u32>,
    /// The id that the next record gets.
    pub next_id: nat,
}

/// What each record of a map holds, under the same key.
pub open spec fn task_models(tasks: Map<u32, Task>) -> Map<u32, TaskModel> {
    Map::new(|id: u32| tasks.contains_key(id), |id: u32| tasks[id]@)
}

/// Whether each id of the sequence is smaller than all that follow it.
pub open spec fn increasing(ids: Seq<u32>) -> bool {
    forall|i: int, j: int| 0 <= i < j < ids.len() ==> ids[i] < ids[j]
}

/// The ids of the sequence other than `id`, in the same order.
pub open spec fn without(ids: Seq<u32>, id: u32) -> Seq<u32> {
    ids.filter(|other: u32| other != id)
}

impl RepoModel {
    /// The invariant of a repository: the ids in the sequence are the keys
    /// of the records, every record has the id that it is kept under, ids
    /// stand in the order in which they were given out, and the next id is
    /// greater than all of them.
    pub open spec fn wf(self) -> bool {
        &&& forall|id: u32| self.tasks.contains_key(id) <==> self.order.contains(id)
        &&& forall|id: u32| #[trigger]
            self.tasks.contains_key(id) ==> self.tasks[id].id == id && id < self.next_id
        &&& increasing(self.order)
        &&& self.next_id <= u32::MAX
    }

    /// The repository without records, whose first id will be 0.
    pub open spec fn empty() -> RepoModel {
        RepoModel { tasks: Map::empty(), order: Seq::empty(), next_id: 0 }
    }

    /// The repository after a task was added: the record stands under the
    /// next id, at the end of the sequence, and the next id is one more.
    pub open spec fn add(self, date: DateModel, subject: Seq<char>, body: Seq<char>) -> RepoModel {
        let id = self.next_id as u32;
        RepoModel {
            tasks: self.tasks.insert(id, TaskModel { id, date, subject, body }),
            order: self.order.push(id),
            next_id: self.next_id + 1,
        }
    }

    /// The repository after the record under `id` was removed, if there was
    /// one. The next id stays.
    pub open spec fn remove(self, id: u32) -> RepoModel {
        RepoModel {
            tasks: self.tasks.remove(id),
            order: without(self.order, id),
            next_id: self.next_id,
        }
    }

    /// The records in the order in which they were added.
    pub open spec fn listing(self) -> Seq<TaskModel> {
        self.order.map_values(|id: u32| self.tasks[id])
    }
}

/// What is left of an increasing sequence without `id`: the other ids, still
/// increasing.
pub proof fn lemma_without(ids: Seq<u32>, id: u32)
    requires
        increasing(ids),
    ensures
        increasing(without(ids, id)),
        forall|other: u32| without(ids, id).contains(other) <==> ids.contains(other) && other != id,
        !ids.contains(id) ==> without(ids, id) == ids,
    decreases ids.len(),
{
    reveal(Seq::filter);
    let rest = without(ids, id);
    if ids.len() > 0 {
        let front = ids.drop_last();
        let last = ids.last();
        lemma_without(front, id);
        let kept = without(front, id);
        assert(rest == if last != id {
            kept.push(last)
        } else {
            kept
        });
        assert forall|other: u32| rest.contains(other) <==> ids.contains(other) && other
            != id by {
            if rest.contains(other) {
                let k = choose|k: int| 0 <= k < rest.len() && rest[k] == other;
                if k < kept.len() {
                    assert(kept[k] == other);
                    assert(kept.contains(other));
                    assert(front.contains(other));
                    let m = choose|m: int| 0 <= m < front.len() && front[m] == other;
                    assert(ids[m] == other);
                } else {
                    assert(ids[ids.len() - 1] == other);
                }
            }
            if ids.contains(other) && other != id {
                let m = choose|m: int| 0 <= m < ids.len() && ids[m] == other;
                if m < front.len() {
                    assert(front[m] == other);
                    assert(front.contains(other));
                    let k = choose|k: int| 0 <= k < kept.len() && kept[k] == other;
                    assert(rest[k] == other);
                } else {
                    assert(rest[rest.len() - 1] == other);
                }
            }
        }
        assert forall|i: int, j: int| 0 <= i < j < rest.len() implies rest[i] < rest[j] by {
            if j < kept.len() {
                assert(kept[i] < kept[j]);
            } else {
                let low = kept[i];
                assert(kept.contains(low));
                assert(front.contains(low));
                let m = choose|m: int| 0 <= m < front.len() && front[m] == low;
                assert(ids[m] == low);
                assert(ids[m] < ids[ids.len() - 1]);
            }
        }
        if !ids.contains(id) {
            assert(!front.contains(id)) by {
                if front.contains(id) {
                    let m = choose|m: int| 0 <= m < front.len() && front[m] == id;
                    assert(ids[m] == id);
                }
            }
            assert(ids[ids.len() - 1] == last);
            assert(rest =~= ids);
        }
    }
}

/// The empty repository meets the invariant.
pub proof fn lemma_empty_wf()
    ensures
        RepoModel::empty().wf(),
{
}

/// Adding a task keeps the invariant, as long as there is an id left to give.
pub proof fn lemma_add_wf(repo: RepoModel, date: DateModel, subject: Seq<char>, body: Seq<char>)
    requires
        repo.wf(),
        repo.next_id < u32::MAX,
    ensures
        repo.add(date, subject, body).wf(),
{
    let id = repo.next_id as u32;
    let after = repo.add(date, subject, body);
    assert forall|other: u32| after.tasks.contains_key(other) <==> after.order.contains(other) by {
        if after.order.contains(other) {
            let k = choose|k: int| 0 <= k < after.order.len() && after.order[k] == other;
            if k < repo.order.len() {
                assert(repo.order[k] == other);
                assert(repo.order.contains(other));
            }
        }
        if after.tasks.contains_key(other) {
            if other == id {
                assert(after.order[after.order.len() - 1] == id);
            } else {
                assert(repo.order.contains(other));
                let k = choose|k: int| 0 <= k < repo.order.len() && repo.order[k] == other;
                assert(after.order[k] == other);
            }
        }
    }
    assert forall|i: int, j: int| 0 <= i < j < after.order.len() implies after.order[i]
        < after.order[j] by {
        if j == repo.order.len() {
            assert(repo.order.contains(repo.order[i]));
            assert(repo.tasks.contains_key(repo.order[i]));
        } else {
            assert(repo.order[i] < repo.order[j]);
        }
    }
}

/// Removing a record keeps the invariant.
pub proof fn lemma_remove_wf(repo: RepoModel, id: u32)
    requires
        repo.wf(),
    ensures
        repo.remove(id).wf(),
        !repo.tasks.contains_key(id) ==> repo.remove(id) == repo,
{
    lemma_without(repo.order, id);
    let after = repo.remove(id);
    assert forall|other: u32| after.tasks.contains_key(other) <==> after.order.contains(other) by {
        assert(repo.tasks.contains_key(other) <==> repo.order.contains(other));
    }
    if !repo.tasks.contains_key(id) {
        assert(!repo.order.contains(id));
        assert(after.tasks =~= repo.tasks);
    }
}

/// One change to a repository.
pub enum Change {
    /// A task with this date, subject and body is added.
    Add { date: DateModel, subject: Seq<char>, body: Seq<char> },
    /// The record under this id is removed, if there is one.
    Remove { id: u32 },
}

impl RepoModel {
    /// The repository after one change.
    pub open spec fn apply(self, change: Change) -> RepoModel {
        match change {
            Change::Add { date, subject, body } => self.add(date, subject, body),
            Change::Remove { id } => self.remove(id),
        }
    }

    /// The repository after the changes, made one after the other.
    pub open spec fn run(self, changes: Seq<Change>) -> RepoModel
        decreases changes.len(),
    {
        if changes.len() == 0 {
            self
        } else {
            self.run(changes.drop_last()).apply(changes.last())
        }
    }
}

/// The number of tasks that the changes add.
pub open spec fn additions(changes: Seq<Change>) -> nat
    decreases changes.len(),
{
    if changes.len() == 0 {
        0
    } else if changes.last() is Add {
        additions(changes.drop_last()) + 1
    } else {
        additions(changes.drop_last())
    }
}

/// The first changes of a sequence add no more tasks than more of them do.
pub proof fn lemma_additions_grow(changes: Seq<Change>, sooner: int, later: int)
    requires
        0 <= sooner <= later <= changes.len(),
    ensures
        additions(changes.take(sooner)) <= additions(changes.take(later)),
        additions(changes.take(later)) <= additions(changes),
    decreases changes.len() - sooner, changes.len() - later,
{
    assert(changes.take(changes.len() as int) =~= changes);
    if later < changes.len() {
        lemma_additions_grow(changes, later, changes.len() as int);
    }
    if sooner < later {
        lemma_additions_grow(changes, sooner + 1, later);
        assert(changes.take(sooner + 1).drop_last() =~= changes.take(sooner));
    }
}

/// Whatever is added and removed, in whatever order, the repository keeps
/// its invariant, and its next id has grown by the number of tasks added.
/// There must be an id left for each task that is added.
pub proof fn lemma_run(repo: RepoModel, changes: Seq<Change>)
    requires
        repo.wf(),
        repo.next_id + additions(changes) <= u32::MAX,
    ensures
        repo.run(changes).wf(),
        repo.run(changes).next_id == repo.next_id + additions(changes),
    decreases changes.len(),
{
    if changes.len() > 0 {
        let before = repo.run(changes.drop_last());
        lemma_run(repo, changes.drop_last());
        match changes.last() {
            Change::Add { date, subject, body } => lemma_add_wf(before, date, subject, body),
            Change::Remove { id } => lemma_remove_wf(before, id),
        }
    }
}

/// The next id never falls: after more of the same changes it is no smaller
/// than after fewer.
pub proof fn lemma_next_id_never_falls(
    repo: RepoModel,
    changes: Seq<Change>,
    sooner: int,
    later: int,
)
    requires
        repo.wf(),
        repo.next_id + additions(changes) <= u32::MAX,
        0 <= sooner <= later <= changes.len(),
    ensures
        repo.run(changes.take(sooner)).next_id <= repo.run(changes.take(later)).next_id,
{
    lemma_additions_grow(changes, sooner, later);
    lemma_run(repo, changes.take(sooner));
    lemma_run(repo, changes.take(later));
}

/// No id is given out twice, and none comes back after its record was
/// removed: the id that a task gets when it is added is under no record of
/// any earlier state, and differs from the id given to any task added before
/// it.
pub proof fn lemma_ids_never_reused(repo: RepoModel, changes: Seq<Change>, sooner: int, later: int)
    requires
        repo.wf(),
        repo.next_id + additions(changes) <= u32::MAX,
        0 <= sooner <= later < changes.len(),
        changes[later] is Add,
    ensures
        ({
            let given = repo.run(changes.take(later)).next_id as u32;
            &&& repo.run(changes.take(later + 1)).tasks.contains_key(given)
            &&& !repo.run(changes.take(sooner)).tasks.contains_key(given)
            &&& sooner < later && changes[sooner] is Add ==> repo.run(
                changes.take(sooner),
            ).next_id as u32 != given
        }),
{
    lemma_additions_grow(changes, sooner, later);
    lemma_additions_grow(changes, later, later + 1);
    lemma_run(repo, changes.take(sooner));
    lemma_run(repo, changes.take(later));
    assert(changes.take(later + 1).drop_last() =~= changes.take(later));
    assert(changes.take(later + 1).last() == changes[later]);
    if sooner < later {
        lemma_additions_grow(changes, sooner + 1, later);
        assert(changes.take(sooner + 1).drop_last() =~= changes.take(sooner));
        assert(changes.take(sooner + 1).last() == changes[sooner]);
    }
}

/// Where every id of an increasing sequence is a key of a finite map, the ids
/// are all the keys exactly when there are as many keys as ids.
proof fn lemma_keys_counted(keys: Set<u32>, ids: Seq<u32>)
    requires
        keys.finite(),
        increasing(ids),
        forall|i: int| 0 <= i < ids.len() ==> keys.contains(#[trigger] ids[i]),
    ensures
        keys.len() == ids.len() <==> (forall|id: u32| keys.contains(id) <==> ids.contains(id)),
{
    let listed = ids.to_set();
    vstd::seq_lib::seq_to_set_is_finite(ids);
    assert(ids.no_duplicates());
    ids.unique_seq_to_set();
    assert(listed.subset_of(keys));
    if keys.len() == ids.len() {
        vstd::set_lib::lemma_subset_equality(listed, keys);
        assert forall|id: u32| keys.contains(id) <==> ids.contains(id) by {
            assert(listed.contains(id) <==> ids.contains(id));
        }
    }
    if forall|id: u32| keys.contains(id) <==> ids.contains(id) {
        assert(listed =~= keys);
    }
}

/// The task repository.
pub struct Repository {
    tasks: HashMap<u32, Task>,
    order: Vec<u32>,
    next_id: u32,
}

impl View for Repository {
    type V = RepoModel;

    closed spec fn view(&self) -> RepoModel {
        RepoModel {
            tasks: task_models(self.tasks@),
            order: self.order@,
            next_id: self.next_id as nat,
        }
    }
}

impl Repository {
    /// Whether the repository meets its invariant. Every repository that
    /// this module hands out does.
    pub open spec fn wf(&self) -> bool {
        self@.wf()
    }

    /// The repository without records. Its first id will be 0.
    pub fn new() -> (repo: Repository)
        ensures
            repo@ == RepoModel::empty(),
            repo.wf(),
    {
        let repo = Repository { tasks: HashMap::new(), order: Vec::new(), next_id: 0 };
        assert(repo@.tasks =~= Map::empty());
        repo
    }

    /// The repository that holds these records, ids and next id, if the three
    /// meet the invariant of a repository together.
    pub fn from_parts(tasks: HashMap<u32, Task>, order: Vec<u32>, next_id: u32) -> (made: Option<
        Repository,
    >)
        ensures
            made is Some <==> (RepoModel {
                tasks: task_models(tasks@),
                order: order@,
                next_id: next_id as nat,
            }).wf(),
            made matches Some(repo) ==> repo@ == (RepoModel {
                tasks: task_models(tasks@),
                order: order@,
                next_id: next_id as nat,
            }),
    {
        let ghost parts = RepoModel {
            tasks: task_models(tasks@),
            order: order@,
            next_id: next_id as nat,
        };
        let mut i: usize = 0;
        while i < order.len()
            invariant
                i <= order@.len(),
                parts == (RepoModel {
                    tasks: task_models(tasks@),
                    order: order@,
                    next_id: next_id as nat,
                }),
                increasing(order@.take(i as int)),
                forall|k: int|
                    0 <= k < i ==> {
                        &&& tasks@.contains_key(#[trigger] order@[k])
                        &&& tasks@[order@[k]]@.id == order@[k]
                        &&& order@[k] < next_id
                    },
            decreases order@.len() - i,
        {
            let id = order[i];
            assert(parts.order.contains(id));
            if i > 0 && order[i - 1] >= id {
                return None;
            }
            match tasks.get(&id) {
                None => {
                    assert(!parts.tasks.contains_key(id));
                    return None;
                },
                Some(task) => {
                    assert(parts.tasks.contains_key(id) && parts.tasks[id] == task@);
                    if task.id() != id || id >= next_id {
                        return None;
                    }
                },
            }
            proof {
                let grown = order@.take(i + 1);
                assert forall|a: int, b: int| 0 <= a < b < grown.len() implies grown[a]
                    < grown[b] by {
                    if b == i && a < i - 1 {
                        assert(order@.take(i as int)[a] < order@.take(i as int)[i - 1]);
                    } else if b < i {
                        assert(order@.take(i as int)[a] < order@.take(i as int)[b]);
                    }
                }
            }
            i += 1;
        }
        proof {
            assert(order@.take(i as int) =~= order@);
            assert(parts.tasks.dom() =~= tasks@.dom());
            lemma_keys_counted(tasks@.dom(), order@);
        }
        if tasks.len() != order.len() {
            return None;
        }
        proof {
            assert forall|id: u32| #[trigger]
                parts.tasks.contains_key(id) implies parts.tasks[id].id == id && id
                < parts.next_id by {
                assert(order@.contains(id));
                let k = choose|k: int| 0 <= k < order@.len() && order@[k] == id;
                assert(tasks@.contains_key(order@[k]));
            }
        }
        Some(Repository { tasks, order, next_id })
    }

    /// A copy of the records, each under its id.
    pub fn records(&self) -> (copy: HashMap<u32, Task>)
        requires
            self.wf(),
        ensures
            task_models(copy@) == self@.tasks,
    {
        let mut copy: HashMap<u32, Task> = HashMap::new();
        let mut i: usize = 0;
        while i < self.order.len()
            invariant
                self.wf(),
                i <= self.order@.len(),
                forall|id: u32|
                    copy@.contains_key(id) <==> self.order@.take(i as int).contains(id),
                forall|id: u32| #[trigger]
                    copy@.contains_key(id) ==> self.tasks@.contains_key(id) && copy@[id]@
                        == self.tasks@[id]@,
            decreases self.order@.len() - i,
        {
            let id = self.order[i];
            let ghost held = copy@;
            assert(self@.order.contains(id));
            assert(self@.tasks.contains_key(id));
            let task = self.tasks.get(&id).unwrap().clone();
            copy.insert(id, task);
            proof {
                let seen = self.order@.take(i as int);
                let grown = self.order@.take(i + 1);
                assert(grown =~= seen.push(id));
                assert forall|other: u32| copy@.contains_key(other) <==> grown.contains(
                    other,
                ) by {
                    if grown.contains(other) {
                        let k = choose|k: int| 0 <= k < grown.len() && grown[k] == other;
                        if k < seen.len() {
                            assert(seen[k] == other);
                            assert(seen.contains(other));
                        }
                    }
                    if held.contains_key(other) {
                        assert(seen.contains(other));
                        let k = choose|k: int| 0 <= k < seen.len() && seen[k] == other;
                        assert(grown[k] == other);
                    }
                    if other == id {
                        assert(grown[i as int] == id);
                    }
                }
            }
            i += 1;
        }
        proof {
            assert(self.order@.take(i as int) =~= self.order@);
            assert(task_models(copy@) =~= self@.tasks);
        }
        copy
    }

    /// Adds a task and returns the id that it got: the next id, which then
    /// grows by one.
    pub fn add(&mut self, date: Date, subject: String, body: String) -> (id: u32)
        requires
            old(self).wf(),
            old(self)@.next_id < u32::MAX,
        ensures
            final(self)@ == old(self)@.add(date@, subject@, body@),
            id == old(self)@.next_id,
            final(self).wf(),
    {
        let id = self.next_id;
        let task = Task::new(id, date, subject, body);
        self.tasks.insert(id, task);
        self.order.push(id);
        self.next_id = id + 1;
        proof {
            assert(self@.tasks =~= old(self)@.add(date@, subject@, body@).tasks);
            lemma_add_wf(old(self)@, date@, subject@, body@);
        }
        id
    }

    /// Removes the record under `id` and says whether there was one. Where
    /// there was none, nothing changes.
    pub fn remove(&mut self, id: u32) -> (found: bool)
        requires
            old(self).wf(),
        ensures
            final(self)@ == old(self)@.remove(id),
            found == old(self)@.tasks.contains_key(id),
            !found ==> final(self)@ == old(self)@,
            final(self).wf(),
    {
        let found = self.tasks.remove(&id).is_some();
        let mut kept: Vec<u32> = Vec::new();
        let mut i: usize = 0;
        proof {
            reveal(Seq::filter);
            assert(self.order@.take(0) =~= Seq::<u32>::empty());
        }
        while i < self.order.len()
            invariant
                i <= self.order@.len(),
                kept@ == without(self.order@.take(i as int), id),
            decreases self.order@.len() - i,
        {
            let other = self.order[i];
            proof {
                reveal(Seq::filter);
                let next = self.order@.take(i + 1);
                assert(next.drop_last() =~= self.order@.take(i as int));
                assert(next.last() == other);
            }
            if other != id {
                kept.push(other);
            }
            i += 1;
        }
        proof {
            assert(self.order@.take(i as int) =~= self.order@);
        }
        self.order = kept;
        proof {
            assert(self@.tasks =~= old(self)@.remove(id).tasks);
            lemma_remove_wf(old(self)@, id);
        }
        found
    }

    /// Whether the repository has no records.
    pub fn is_empty(&self) -> (empty: bool)
        requires
            self.wf(),
        ensures
            empty == (self@.order.len() == 0),
            empty == (self@.tasks.dom() =~= Set::<u32>::empty()),
    {
        proof {
            if self@.order.len() > 0 {
                assert(self@.order.contains(self@.order[0]));
                assert(self@.tasks.dom().contains(self@.order[0]));
            } else {
                assert forall|id: u32| !self@.tasks.dom().contains(id) by {
                    assert(!self@.order.contains(id));
                }
            }
        }
        self.order.len() == 0
    }

    /// The number of records.
    pub fn len(&self) -> (count: usize)
        ensures
            count == self@.order.len(),
    {
        self.order.len()
    }

    /// The ids of the records, in the order in which the tasks were added.
    pub fn ids(&self) -> (ids: Vec<u32>)
        ensures
            ids@ == self@.order,
    {
        self.order.clone()
    }

    /// The id that the next task gets.
    pub fn next_id(&self) -> (next: u32)
        ensures
            next == self@.next_id,
    {
        self.next_id
    }

    /// The record under `id`, if there is one.
    pub fn get(&self, id: u32) -> (found: Option<&Task>)
        ensures
            found is Some <==> self@.tasks.contains_key(id),
            found matches Some(task) ==> task@ == self@.tasks[id],
    {
        self.tasks.get(&id)
    }

    /// All records, in the order in which the tasks were added.
    pub fn list(&self) -> (records: Vec<Task>)
        requires
            self.wf(),
        ensures
            models(records@) == self@.listing(),
    {
        let mut records: Vec<Task> = Vec::new();
        let mut i: usize = 0;
        while i < self.order.len()
            invariant
                self.wf(),
                i <= self.order@.len(),
                models(records@) == self@.listing().take(i as int),
            decreases self.order@.len() - i,
        {
            let id = self.order[i];
            let ghost listed = records@;
            assert(self@.order.contains(id));
            assert(self@.tasks.contains_key(id));
            let found = self.tasks.get(&id);
            let task = found.unwrap().clone();
            assert(task@ == self@.listing()[i as int]);
            records.push(task);
            proof {
                assert(records@ == listed.push(task));
                assert(models(records@) =~= models(listed).push(task@));
                assert(models(records@) =~= self@.listing().take(i + 1));
            }
            i += 1;
        }
        proof {
            assert(self@.listing().take(i as int) =~= self@.listing());
        }
        records
    }
}

} // verus!
