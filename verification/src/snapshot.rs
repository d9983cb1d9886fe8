//! The snapshot: all that is persisted, as one value.

use std::collections::HashMap;
use vstd::prelude::*;

use crate::repo::task_models;
use crate::repo::RepoModel;
use crate::sort::SortMode;
use crate::task::Task;
use crate::task::TaskModel;

verus! {

/// What a snapshot holds.
pub struct SnapshotModel {
    /// The records, each under its id.
    pub tasks: Map<u32, TaskModel>,
    /// The ids of the records, in the order in which the tasks were added.
    pub order: Seq<u32>,
    /// The id that the next task gets.
    pub next_id: nat,
    /// The order in which listings show the tasks.
    pub mode: SortMode,
}

impl SnapshotModel {
    /// The repository that the snapshot describes.
    pub open spec fn repo(self) -> RepoModel {
        RepoModel { tasks: self.tasks, order: self.order, next_id: self.next_id }
    }

    /// Whether the snapshot describes a repository that meets its invariant.
    pub open spec fn is_valid(self) -> bool {
        self.repo().wf()
    }
}

/// The persisted state: the records, their ids in order, the next id and the
/// sort mode. It is written and read as a whole.
///
/// A snapshot is plain data: it holds whatever it was made with, and only a
/// valid one can be restored.
#[derive(Debug, PartialEq, Eq)]
pub struct Snapshot {
    pub tasks: HashMap<u32, Task>,
    pub order: Vec<u32>,
    pub next_id: u32,
    pub mode: SortMode,
}

impl View for Snapshot {
    type V = SnapshotModel;

    open spec fn view(&self) -> SnapshotModel {
        SnapshotModel {
            tasks: task_models(self.tasks@),
            order: self.order@,
            next_id: self.next_id as nat,
            mode: self.mode,
        }
    }
}

impl Snapshot {
    /// The snapshot of these four.
    pub fn new(tasks: HashMap<u32, Task>, order: Vec<u32>, next_id: u32, mode: SortMode) -> (made:
        Snapshot)
        ensures
            made.tasks == tasks,
            made.order == order,
            made.next_id == next_id,
            made.mode == mode,
    {
        Snapshot { tasks, order, next_id, mode }
    }
}

} // verus!
