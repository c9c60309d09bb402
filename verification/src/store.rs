//! The in-memory relational store holding the label and task tables, and the
//! mathematical description of every operation the repositories perform on
//! it.
//!
//! The store hands out row ids from a per-table counter, so rows stand in the
//! order of their ids, which is insertion order. Both tables keep that order;
//! the listings that need another order sort on the way out.

use vstd::prelude::*;
use crate::models::label::{Label, LabelV};
use crate::models::task::{Task, TaskV};

verus! {

/// Position of an optional row id in the id order; absent ids come first.
pub open spec fn oid(o: Option<i32>) -> int {
    match o {
        Option::Some(i) => i as int,
        Option::None => -1,
    }
}

/// The first element satisfying the predicate, if any.
pub open spec fn find_first<T>(s: Seq<T>, p: spec_fn(T) -> bool) -> Option<T>
    decreases s.len(),
{
    if s.len() == 0 {
        None
    } else if p(s[0]) {
        Some(s[0])
    } else {
        find_first(s.drop_first(), p)
    }
}

/// The sequence with the first element satisfying the predicate taken out.
pub open spec fn remove_first<T>(s: Seq<T>, p: spec_fn(T) -> bool) -> Seq<T>
    decreases s.len(),
{
    if s.len() == 0 {
        s
    } else if p(s[0]) {
        s.drop_first()
    } else {
        seq![s[0]] + remove_first(s.drop_first(), p)
    }
}

pub proof fn lemma_find_first_none<T>(s: Seq<T>, p: spec_fn(T) -> bool)
    requires
        forall|i: int| 0 <= i < s.len() ==> !p(#[trigger] s[i]),
    ensures
        find_first(s, p) is None,
    decreases s.len(),
{
    if s.len() > 0 {
        lemma_find_first_none(s.drop_first(), p);
    }
}

pub proof fn lemma_find_first_at<T>(s: Seq<T>, p: spec_fn(T) -> bool, j: int)
    requires
        0 <= j < s.len(),
        p(s[j]),
        forall|i: int| 0 <= i < j ==> !p(#[trigger] s[i]),
    ensures
        find_first(s, p) == Some(s[j]),
    decreases s.len(),
{
    if j > 0 {
        lemma_find_first_at(s.drop_first(), p, j - 1);
    }
}

/// Finding succeeds exactly when some element satisfies the predicate.
pub proof fn lemma_find_first_exists<T>(s: Seq<T>, p: spec_fn(T) -> bool)
    ensures
        (find_first(s, p) is Some) == exists|i: int| 0 <= i < s.len() && p(#[trigger] s[i]),
    decreases s.len(),
{
    if s.len() > 0 {
        lemma_find_first_exists(s.drop_first(), p);
        if p(s[0]) {
            assert(0 <= 0 < s.len() && p(s[0]));
        } else if find_first(s, p) is Some {
            let i = choose|i: int|
                0 <= i < s.drop_first().len() && p(#[trigger] s.drop_first()[i]);
            assert(s[i + 1] == s.drop_first()[i]);
            assert(0 <= i + 1 < s.len() && p(s[i + 1]));
        } else {
            assert forall|i: int| 0 <= i < s.len() implies !p(#[trigger] s[i]) by {
                if i > 0 {
                    assert(s.drop_first()[i - 1] == s[i]);
                }
            }
        }
    }
}

pub proof fn lemma_remove_first_none<T>(s: Seq<T>, p: spec_fn(T) -> bool)
    requires
        forall|i: int| 0 <= i < s.len() ==> !p(#[trigger] s[i]),
    ensures
        remove_first(s, p) == s,
    decreases s.len(),
{
    if s.len() > 0 {
        lemma_remove_first_none(s.drop_first(), p);
        assert(seq![s[0]] + s.drop_first() =~= s);
    }
}

pub proof fn lemma_remove_first_at<T>(s: Seq<T>, p: spec_fn(T) -> bool, j: int)
    requires
        0 <= j < s.len(),
        p(s[j]),
        forall|i: int| 0 <= i < j ==> !p(#[trigger] s[i]),
    ensures
        remove_first(s, p) == s.remove(j),
    decreases s.len(),
{
    if j == 0 {
        assert(s.drop_first() =~= s.remove(0));
    } else {
        lemma_remove_first_at(s.drop_first(), p, j - 1);
        assert(seq![s[0]] + s.drop_first().remove(j - 1) =~= s.remove(j));
    }
}

/// Values of a sequence of label rows.
pub open spec fn labels_v(s: Seq<Label>) -> Seq<LabelV> {
    s.map_values(|l: Label| l@)
}

/// Values of a sequence of task rows.
pub open spec fn tasks_v(s: Seq<Task>) -> Seq<TaskV> {
    s.map_values(|t: Task| t@)
}

/// Mathematical value of the whole store.
#[verifier::ext_equal]
pub struct StoreV {
    pub labels: Seq<LabelV>,
    pub tasks: Seq<TaskV>,
    pub next_label_id: i32,
    pub next_task_id: i32,
}

/// Every row has an id at least 1 and below the table's counter, and rows
/// stand in strictly increasing id order: insertion order equals id order.
pub open spec fn wf(s: StoreV) -> bool {
    &&& 1 <= s.next_label_id
    &&& 1 <= s.next_task_id
    &&& forall|i: int| 0 <= i < s.labels.len() ==> 1 <= oid(#[trigger] s.labels[i].id)
        < s.next_label_id
    &&& forall|i: int, j: int|
        #![trigger s.labels[i], s.labels[j]]
        0 <= i < j < s.labels.len() ==> oid(s.labels[i].id) < oid(s.labels[j].id)
    &&& forall|i: int| 0 <= i < s.tasks.len() ==> 1 <= oid(#[trigger] s.tasks[i].id)
        < s.next_task_id
    &&& forall|i: int, j: int|
        #![trigger s.tasks[i], s.tasks[j]]
        0 <= i < j < s.tasks.len() ==> oid(s.tasks[i].id) < oid(s.tasks[j].id)
}

/// The store handle. It is constructed at startup and passed to every
/// repository operation; there is no ambient global state.
pub struct Store {
    pub labels: Vec<Label>,
    pub tasks: Vec<Task>,
    pub next_label_id: i32,
    pub next_task_id: i32,
}

impl View for Store {
    type V = StoreV;

    open spec fn view(&self) -> StoreV {
        StoreV {
            labels: labels_v(self.labels@),
            tasks: tasks_v(self.tasks@),
            next_label_id: self.next_label_id,
            next_task_id: self.next_task_id,
        }
    }
}

/// The store before anything was inserted.
pub open spec fn empty_store() -> StoreV {
    StoreV { labels: Seq::empty(), tasks: Seq::empty(), next_label_id: 1, next_task_id: 1 }
}

impl Store {
    pub open spec fn inv(&self) -> bool {
        wf(self@)
    }

    /// An empty store with both id counters at 1.
    pub fn new() -> (s: Store)
        ensures
            s.inv(),
            s@ == empty_store(),
    {
        let s = Store { labels: Vec::new(), tasks: Vec::new(), next_label_id: 1, next_task_id: 1 };
        proof {
            assert(labels_v(s.labels@) =~= empty_store().labels);
            assert(tasks_v(s.tasks@) =~= empty_store().tasks);
            assert(s@ =~= empty_store());
        }
        s
    }
}

/// Whether a label with this id is present.
pub open spec fn label_with_id(id: i32) -> spec_fn(LabelV) -> bool {
    |l: LabelV| l.id == Some(id)
}

/// Whether a task with this id is present.
pub open spec fn task_with_id(id: i32) -> spec_fn(TaskV) -> bool {
    |t: TaskV| t.id == Some(id)
}

/// Whether a task references this label id.
pub open spec fn task_labeled(id: i32) -> spec_fn(TaskV) -> bool {
    |t: TaskV| t.label_id == Some(id)
}

pub open spec fn spec_label_by_id(s: StoreV, id: i32) -> Option<LabelV> {
    find_first(s.labels, label_with_id(id))
}

pub open spec fn label_exists(s: StoreV, id: i32) -> bool {
    spec_label_by_id(s, id) is Some
}

pub open spec fn spec_task_by_id(s: StoreV, id: i32) -> Option<TaskV> {
    find_first(s.tasks, task_with_id(id))
}

pub open spec fn task_exists(s: StoreV, id: i32) -> bool {
    spec_task_by_id(s, id) is Some
}

/// Insertion fails only once the table's id counter is exhausted.
pub open spec fn can_insert_label(s: StoreV) -> bool {
    s.next_label_id < i32::MAX
}

pub open spec fn can_insert_task(s: StoreV) -> bool {
    s.next_task_id < i32::MAX
}

/// The label row a successful insert creates.
pub open spec fn spec_new_label(s: StoreV, name: Seq<char>, color: Seq<char>) -> LabelV {
    LabelV { id: Some(s.next_label_id), name: name, color_hex: color }
}

pub open spec fn spec_insert_label(s: StoreV, name: Seq<char>, color: Seq<char>) -> StoreV {
    StoreV {
        labels: s.labels.push(spec_new_label(s, name, color)),
        next_label_id: (s.next_label_id + 1) as i32,
        ..s
    }
}

/// The task row a successful insert creates: empty description, no label,
/// and the given timestamp text.
pub open spec fn spec_new_task(s: StoreV, name: Seq<char>, now: Seq<char>) -> TaskV {
    TaskV {
        id: Some(s.next_task_id),
        name: name,
        description: Seq::empty(),
        updated_at: now,
        label_id: None,
    }
}

pub open spec fn spec_insert_task(s: StoreV, name: Seq<char>, now: Seq<char>) -> StoreV {
    StoreV {
        tasks: s.tasks.push(spec_new_task(s, name, now)),
        next_task_id: (s.next_task_id + 1) as i32,
        ..s
    }
}

/// Rewrite of one label row by id: new name and color, same id.
pub open spec fn label_update_fn(id: i32, name: Seq<char>, color: Seq<char>) -> spec_fn(
    LabelV,
) -> LabelV {
    |l: LabelV|
        if l.id == Some(id) {
            LabelV { id: l.id, name: name, color_hex: color }
        } else {
            l
        }
}

/// Updating a label rewrites the name and color of every row with that id
/// and touches nothing else.
pub open spec fn spec_update_label(s: StoreV, id: i32, name: Seq<char>, color: Seq<char>) -> StoreV {
    StoreV { labels: s.labels.map_values(label_update_fn(id, name, color)), ..s }
}

/// Updating a task rewrites name, description and label reference of every
/// row with that id; the `updated_at` timestamp is deliberately left alone.
/// Rewrite of one task row by id: new name, description and label
/// reference; id and timestamp kept.
pub open spec fn task_update_fn(
    id: i32,
    name: Seq<char>,
    description: Seq<char>,
    label_id: Option<i32>,
) -> spec_fn(TaskV) -> TaskV {
    |t: TaskV|
        if t.id == Some(id) {
            TaskV {
                id: t.id,
                name: name,
                description: description,
                updated_at: t.updated_at,
                label_id: label_id,
            }
        } else {
            t
        }
}

pub open spec fn spec_update_task(
    s: StoreV,
    id: i32,
    name: Seq<char>,
    description: Seq<char>,
    label_id: Option<i32>,
) -> StoreV {
    StoreV { tasks: s.tasks.map_values(task_update_fn(id, name, description, label_id)), ..s }
}

/// Rewrite of one task row by id: only the timestamp changes.
pub open spec fn task_touch_fn(id: i32, now: Seq<char>) -> spec_fn(TaskV) -> TaskV {
    |t: TaskV|
        if t.id == Some(id) {
            TaskV {
                id: t.id,
                name: t.name,
                description: t.description,
                updated_at: now,
                label_id: t.label_id,
            }
        } else {
            t
        }
}

/// Touching a task rewrites only its `updated_at` timestamp.
pub open spec fn spec_touch_task(s: StoreV, id: i32, now: Seq<char>) -> StoreV {
    StoreV { tasks: s.tasks.map_values(task_touch_fn(id, now)), ..s }
}

pub open spec fn spec_delete_label(s: StoreV, id: i32) -> StoreV {
    StoreV { labels: remove_first(s.labels, label_with_id(id)), ..s }
}

pub open spec fn spec_delete_task(s: StoreV, id: i32) -> StoreV {
    StoreV { tasks: remove_first(s.tasks, task_with_id(id)), ..s }
}

} // verus!
