//! The orders in which tasks can be listed.
//!
//! Every order is total on records with different ids: where the date or the
//! subject of two records is the same, the id decides, the smaller id first
//! (the greater first in `Newest`, which is `Oldest` turned round).

use vstd::multiset::Multiset;
use vstd::prelude::*;

use crate::task::models;
use crate::task::Task;
use crate::task::TaskModel;
use crate::text::lemma_text_le_antisymmetric;
use crate::text::lemma_text_le_total;
use crate::text::lemma_text_le_transitive;
use crate::text::text_le;
use crate::text::text_precedes;

verus! {

/// The order in which a listing shows the tasks.
#[derive(Clone, Copy, Debug, PartialEq, Eq, Structural)]
pub enum SortMode {
    /// By date, the earliest first.
    Oldest,
    /// By date, the latest first.
    Newest,
    /// By subject, in the order of strings.
    Subject,
    /// By id, which is the order in which the tasks were added.
    Id,
}

/// `a` is listed no later than `b` by date: it has the earlier date, or the
/// same date and no greater id.
pub open spec fn by_date(a: TaskModel, b: TaskModel) -> bool {
    a.date.before(b.date) || (a.date == b.date && a.id <= b.id)
}

/// `a` is listed no later than `b` by subject: its subject comes first in the
/// order of strings, or the subjects are the same and its id is no greater.
pub open spec fn by_subject(a: TaskModel, b: TaskModel) -> bool {
    if a.subject == b.subject {
        a.id <= b.id
    } else {
        text_le(a.subject, b.subject)
    }
}

/// Whether `mode` lists `a` no later than `b`.
pub open spec fn precedes(mode: SortMode, a: TaskModel, b: TaskModel) -> bool {
    match mode {
        SortMode::Oldest => by_date(a, b),
        SortMode::Newest => by_date(b, a),
        SortMode::Subject => by_subject(a, b),
        SortMode::Id => a.id <= b.id,
    }
}

/// Whether `tasks` stand in the order of `mode`: each is listed no later than
/// all that follow it.
pub open spec fn in_order(mode: SortMode, tasks: Seq<TaskModel>) -> bool {
    forall|i: int, j: int| 0 <= i < j < tasks.len() ==> precedes(mode, tasks[i], tasks[j])
}

/// Of two records one is listed no later than the other.
pub proof fn lemma_precedes_total(mode: SortMode, a: TaskModel, b: TaskModel)
    ensures
        precedes(mode, a, b) || precedes(mode, b, a),
{
    lemma_text_le_total(a.subject, b.subject);
}

/// Listing no later is transitive.
pub proof fn lemma_precedes_transitive(mode: SortMode, a: TaskModel, b: TaskModel, c: TaskModel)
    requires
        precedes(mode, a, b),
        precedes(mode, b, c),
    ensures
        precedes(mode, a, c),
{
    if mode == SortMode::Subject {
        if a.subject == b.subject || b.subject == c.subject {
        } else {
            lemma_text_le_transitive(a.subject, b.subject, c.subject);
            if a.subject == c.subject {
                lemma_text_le_antisymmetric(a.subject, b.subject);
            }
        }
    }
}

/// Two records of which each is listed no later than the other have the same
/// id.
pub proof fn lemma_precedes_both_ways(mode: SortMode, a: TaskModel, b: TaskModel)
    requires
        precedes(mode, a, b),
        precedes(mode, b, a),
    ensures
        a.id == b.id,
{
    if mode == SortMode::Subject && a.subject != b.subject {
        lemma_text_le_antisymmetric(a.subject, b.subject);
    }
}

/// A sequence is in `Newest` order exactly when, read backwards, it is in
/// `Oldest` order.
pub proof fn lemma_newest_is_oldest_reversed(tasks: Seq<TaskModel>)
    ensures
        in_order(SortMode::Newest, tasks) <==> in_order(SortMode::Oldest, tasks.reverse()),
{
    let back = tasks.reverse();
    let n = tasks.len() as int;
    if in_order(SortMode::Newest, tasks) {
        assert forall|i: int, j: int| 0 <= i < j < back.len() implies precedes(
            SortMode::Oldest,
            back[i],
            back[j],
        ) by {
            assert(precedes(SortMode::Newest, tasks[n - 1 - j], tasks[n - 1 - i]));
        }
    }
    if in_order(SortMode::Oldest, back) {
        assert forall|i: int, j: int| 0 <= i < j < tasks.len() implies precedes(
            SortMode::Newest,
            tasks[i],
            tasks[j],
        ) by {
            assert(precedes(SortMode::Oldest, back[n - 1 - j], back[n - 1 - i]));
        }
    }
}

/// Whether no two records of the sequence have the same id.
pub open spec fn distinct_ids(tasks: Seq<TaskModel>) -> bool {
    forall|i: int, j: int| 0 <= i < j < tasks.len() ==> tasks[i].id != tasks[j].id
}

/// Whether the ids of the records differ is the same for two sequences of the
/// same records.
pub proof fn lemma_distinct_ids_permuted(a: Seq<TaskModel>, b: Seq<TaskModel>)
    requires
        distinct_ids(a),
        a.to_multiset() == b.to_multiset(),
    ensures
        distinct_ids(b),
{
    assert(a.no_duplicates());
    a.lemma_multiset_has_no_duplicates();
    b.lemma_multiset_has_no_duplicates_conv();
    assert forall|i: int, j: int| 0 <= i < j < b.len() implies b[i].id != b[j].id by {
        assert(b.contains(b[i]) && b.contains(b[j]));
        vstd::seq_lib::to_multiset_contains(a, b[i]);
        vstd::seq_lib::to_multiset_contains(b, b[i]);
        vstd::seq_lib::to_multiset_contains(a, b[j]);
        vstd::seq_lib::to_multiset_contains(b, b[j]);
        let p = choose|p: int| 0 <= p < a.len() && a[p] == b[i];
        let q = choose|q: int| 0 <= q < a.len() && a[q] == b[j];
        assert(b[i] != b[j]);
        if p < q {
            assert(a[p].id != a[q].id);
        } else if q < p {
            assert(a[q].id != a[p].id);
        }
    }
}

/// Records with different ids have one order only: two sequences of the same
/// records that both stand in the order of `mode` are the same sequence.
pub proof fn lemma_order_unique(mode: SortMode, a: Seq<TaskModel>, b: Seq<TaskModel>)
    requires
        in_order(mode, a),
        in_order(mode, b),
        distinct_ids(a),
        a.to_multiset() == b.to_multiset(),
    ensures
        a == b,
    decreases a.len(),
{
    broadcast use vstd::seq_lib::group_to_multiset_ensures;

    assert(a.len() == b.len()) by {
        vstd::seq_lib::to_multiset_len(a);
        vstd::seq_lib::to_multiset_len(b);
    }
    if a.len() == 0 {
        assert(a =~= b);
    } else {
        let x = a[0];
        let y = b[0];
        assert(b.contains(y));
        assert(a.contains(x));
        assert(a.contains(y)) by {
            vstd::seq_lib::to_multiset_contains(a, y);
            vstd::seq_lib::to_multiset_contains(b, y);
        }
        assert(b.contains(x)) by {
            vstd::seq_lib::to_multiset_contains(a, x);
            vstd::seq_lib::to_multiset_contains(b, x);
        }
        let k = choose|k: int| 0 <= k < a.len() && a[k] == y;
        let m = choose|m: int| 0 <= m < b.len() && b[m] == x;
        if k != 0 {
            assert(precedes(mode, a[0], a[k]));
            if m != 0 {
                assert(precedes(mode, b[0], b[m]));
                lemma_precedes_both_ways(mode, x, y);
            }
            assert(a[0].id != a[k].id);
        }
        assert(x == y);
        let front = a.drop_first();
        let back = b.drop_first();
        assert(front =~= a.remove(0));
        assert(back =~= b.remove(0));
        vstd::seq_lib::to_multiset_remove(a, 0);
        vstd::seq_lib::to_multiset_remove(b, 0);
        assert forall|i: int, j: int| 0 <= i < j < front.len() implies precedes(
            mode,
            front[i],
            front[j],
        ) by {
            assert(precedes(mode, a[i + 1], a[j + 1]));
        }
        assert forall|i: int, j: int| 0 <= i < j < back.len() implies precedes(
            mode,
            back[i],
            back[j],
        ) by {
            assert(precedes(mode, b[i + 1], b[j + 1]));
        }
        assert forall|i: int, j: int| 0 <= i < j < front.len() implies front[i].id
            != front[j].id by {
            assert(a[i + 1].id != a[j + 1].id);
        }
        lemma_order_unique(mode, front, back);
        assert(a =~= seq![x] + front);
        assert(b =~= seq![y] + back);
    }
}

/// The listing by newest date is the listing by oldest date read backwards,
/// for records with different ids.
pub proof fn lemma_newest_reverses_oldest(oldest: Seq<TaskModel>, newest: Seq<TaskModel>)
    requires
        in_order(SortMode::Oldest, oldest),
        in_order(SortMode::Newest, newest),
        distinct_ids(oldest),
        oldest.to_multiset() == newest.to_multiset(),
    ensures
        newest == oldest.reverse(),
{
    lemma_newest_is_oldest_reversed(newest);
    newest.lemma_reverse_to_multiset();
    lemma_order_unique(SortMode::Oldest, oldest, newest.reverse());
    assert(newest =~= newest.reverse().reverse());
}

/// Whether `mode` lists `a` no later than `b`.
pub fn lists_before(mode: SortMode, a: &Task, b: &Task) -> (first: bool)
    ensures
        first == precedes(mode, a@, b@),
{
    match mode {
        SortMode::Oldest => dated_before(a, b),
        SortMode::Newest => dated_before(b, a),
        SortMode::Subject => {
            let forth = text_precedes(a.subject(), b.subject());
            let back = text_precedes(b.subject(), a.subject());
            proof {
                lemma_text_le_total(a@.subject, b@.subject);
                if forth && back {
                    lemma_text_le_antisymmetric(a@.subject, b@.subject);
                }
            }
            if forth && back {
                a.id() <= b.id()
            } else {
                forth
            }
        },
        SortMode::Id => a.id() <= b.id(),
    }
}

/// Whether `a` has the earlier date, or the same date and no greater id.
fn dated_before(a: &Task, b: &Task) -> (first: bool)
    ensures
        first == by_date(a@, b@),
{
    let x = a.date();
    let y = b.date();
    if x.is_before(&y) {
        true
    } else if y.is_before(&x) {
        false
    } else {
        a.id() <= b.id()
    }
}

/// The index at which `task` enters `sorted` so that the order is kept: the
/// first whose record is listed later than `task`, or the length.
fn place_for(sorted: &Vec<Task>, task: &Task, mode: SortMode) -> (at: usize)
    requires
        in_order(mode, models(sorted@)),
    ensures
        at <= sorted@.len(),
        in_order(mode, models(sorted@.insert(at as int, *task))),
{
    let mut at: usize = 0;
    while at < sorted.len() && lists_before(mode, &sorted[at], task)
        invariant
            at <= sorted@.len(),
            forall|k: int| 0 <= k < at ==> precedes(mode, #[trigger] sorted@[k]@, task@),
        decreases sorted@.len() - at,
    {
        at += 1;
    }
    proof {
        let before = models(sorted@);
        let after = models(sorted@.insert(at as int, *task));
        assert forall|i: int, j: int| 0 <= i < j < after.len() implies precedes(
            mode,
            after[i],
            after[j],
        ) by {
            if j < at {
                assert(precedes(mode, before[i], before[j]));
            } else if j == at {
                assert(after[i] == sorted@[i]@);
            } else if i < at {
                assert(precedes(mode, before[i], before[j - 1]));
            } else if i == at {
                lemma_precedes_total(mode, sorted@[at as int]@, task@);
                if j - 1 > at {
                    assert(precedes(mode, before[at as int], before[j - 1]));
                    lemma_precedes_transitive(mode, task@, before[at as int], before[j - 1]);
                }
            } else {
                assert(precedes(mode, before[i - 1], before[j - 1]));
            }
        }
    }
    at
}

/// The records in the order of `mode`.
///
/// The result holds what `records` holds, each record as often, and stands
/// in the order of `mode`.
pub fn order(records: Vec<Task>, mode: SortMode) -> (sorted: Vec<Task>)
    ensures
        models(sorted@).to_multiset() == models(records@).to_multiset(),
        in_order(mode, models(sorted@)),
{
    let mut rest = records;
    let mut sorted: Vec<Task> = Vec::new();
    proof {
        assert(models(sorted@).to_multiset() =~= Multiset::<TaskModel>::empty()) by {
            models(sorted@).to_multiset_ensures();
        }
        assert(models(sorted@).to_multiset().add(models(rest@).to_multiset()) =~= models(
            records@,
        ).to_multiset());
    }
    while rest.len() > 0
        invariant
            in_order(mode, models(sorted@)),
            models(sorted@).to_multiset().add(models(rest@).to_multiset()) == models(
                records@,
            ).to_multiset(),
        decreases rest@.len(),
    {
        let ghost before = rest@;
        let ghost held = sorted@;
        let task = rest.pop().unwrap();
        let at = place_for(&sorted, &task, mode);
        sorted.insert(at, task);
        proof {
            assert(models(before) =~= models(rest@).push(task@));
            assert(models(sorted@) =~= models(held).insert(at as int, task@));
            vstd::seq_lib::to_multiset_build(models(rest@), task@);
            vstd::seq_lib::to_multiset_insert(models(held), at as int, task@);
            assert(models(sorted@).to_multiset().add(models(rest@).to_multiset()) =~= models(
                held,
            ).to_multiset().add(models(before).to_multiset()));
        }
    }
    proof {
        assert(models(rest@).to_multiset() =~= Multiset::<TaskModel>::empty()) by {
            models(rest@).to_multiset_ensures();
        }
        assert(models(sorted@).to_multiset() =~= models(records@).to_multiset());
    }
    sorted
}

} // verus!
