//! The task entity: a trackable to-do item with a name, a description, a
//! last-worked-on timestamp kept as text, and an optional label reference.

use vstd::prelude::*;
use vstd::relations::sorted_by;
use crate::store::{
    Store, StoreV, can_insert_task, label_exists, lemma_find_first_at, lemma_find_first_exists,
    lemma_find_first_none, lemma_remove_first_at, lemma_remove_first_none, oid, spec_delete_task,
    spec_insert_task, spec_new_task, spec_task_by_id, spec_touch_task, spec_update_task,
    task_exists, task_labeled, task_touch_fn, task_update_fn, task_with_id, tasks_v,
};
use crate::strutil::str_lt;

verus! {

/// A row of the task table. `id` is absent until the store assigns one.
/// `label_id` is a weak reference to a label's id: a lookup key, not
/// ownership.
#[derive(Debug)]
pub struct Task {
    pub id: Option<i32>,
    pub name: String,
    pub description: String,
    pub updated_at: String,
    pub label_id: Option<i32>,
}

/// Mathematical value of a task row.
pub struct TaskV {
    pub id: Option<i32>,
    pub name: Seq<char>,
    pub description: Seq<char>,
    pub updated_at: Seq<char>,
    pub label_id: Option<i32>,
}

impl View for Task {
    type V = TaskV;

    open spec fn view(&self) -> TaskV {
        TaskV {
            id: self.id,
            name: self.name@,
            description: self.description@,
            updated_at: self.updated_at@,
            label_id: self.label_id,
        }
    }
}

/// The single field of the new-task form.
#[derive(Debug)]
pub struct TaskName {
    pub name: String,
}

/// The fields of the task edit form. The `updated_at` field is carried by
/// the form but the edit action leaves the stored timestamp alone.
#[derive(Debug)]
pub struct TaskUpdate {
    pub name: String,
    pub description: String,
    pub updated_at: String,
    pub label_id: Option<i32>,
}

impl Task {
    /// A fresh copy of the row with the same value.
    pub fn duplicate(&self) -> (r: Task)
        ensures
            r@ == self@,
    {
        Task {
            id: self.id,
            name: self.name.clone(),
            description: self.description.clone(),
            updated_at: self.updated_at.clone(),
            label_id: self.label_id,
        }
    }
}

/// The two listing orders of tasks.
#[derive(Clone, Copy)]
pub enum TaskOrd {
    /// Oldest `updated_at` first, so long-neglected tasks surface on top.
    ByUpdated,
    /// By name, for the label-filtered listing.
    ByName,
}

/// Listing order of tasks under the given key, ties broken by id.
pub open spec fn task_le(k: TaskOrd, a: TaskV, b: TaskV) -> bool {
    match k {
        TaskOrd::ByUpdated => str_lt(a.updated_at, b.updated_at) || (a.updated_at == b.updated_at
            && oid(a.id) <= oid(b.id)),
        TaskOrd::ByName => str_lt(a.name, b.name) || (a.name == b.name && oid(a.id) <= oid(
            b.id,
        )),
    }
}

/// The listing order as a closed-over relation, for `sorted_by`.
pub open spec fn task_le_fn(k: TaskOrd) -> spec_fn(TaskV, TaskV) -> bool {
    |a: TaskV, b: TaskV| task_le(k, a, b)
}

pub proof fn lemma_task_le_total(k: TaskOrd, a: TaskV, b: TaskV)
    ensures
        task_le(k, a, b) || task_le(k, b, a),
{
    match k {
        TaskOrd::ByUpdated => {
            if !str_lt(a.updated_at, b.updated_at) && !str_lt(b.updated_at, a.updated_at) {
                crate::strutil::lemma_str_lt_connected(a.updated_at, b.updated_at);
            }
        },
        TaskOrd::ByName => {
            if !str_lt(a.name, b.name) && !str_lt(b.name, a.name) {
                crate::strutil::lemma_str_lt_connected(a.name, b.name);
            }
        },
    }
}

/// Rows ordered both ways under one key carry the same id position.
pub proof fn lemma_task_le_antisym(k: TaskOrd, a: TaskV, b: TaskV)
    requires
        task_le(k, a, b),
        task_le(k, b, a),
    ensures
        oid(a.id) == oid(b.id),
{
    let ka = match k {
        TaskOrd::ByUpdated => a.updated_at,
        TaskOrd::ByName => a.name,
    };
    let kb = match k {
        TaskOrd::ByUpdated => b.updated_at,
        TaskOrd::ByName => b.name,
    };
    crate::strutil::lemma_str_lt_irrefl(ka);
    crate::strutil::lemma_str_lt_irrefl(kb);
    if str_lt(ka, kb) {
        crate::strutil::lemma_str_lt_asym(ka, kb);
    }
}

pub proof fn lemma_task_le_trans(k: TaskOrd, a: TaskV, b: TaskV, c: TaskV)
    requires
        task_le(k, a, b),
        task_le(k, b, c),
    ensures
        task_le(k, a, c),
{
    match k {
        TaskOrd::ByUpdated => {
            if str_lt(a.updated_at, b.updated_at) && str_lt(b.updated_at, c.updated_at) {
                crate::strutil::lemma_str_lt_trans(a.updated_at, b.updated_at, c.updated_at);
            }
        },
        TaskOrd::ByName => {
            if str_lt(a.name, b.name) && str_lt(b.name, c.name) {
                crate::strutil::lemma_str_lt_trans(a.name, b.name, c.name);
            }
        },
    }
}

/// Decides the listing order of two task rows under the given key.
fn task_le_exec(k: TaskOrd, a: &Task, b: &Task) -> (r: bool)
    ensures
        r == task_le(k, a@, b@),
{
    let (ka, kb) = match k {
        TaskOrd::ByUpdated => (&a.updated_at, &b.updated_at),
        TaskOrd::ByName => (&a.name, &b.name),
    };
    if crate::strutil::str_lt_exec(ka.as_str(), kb.as_str()) {
        true
    } else if *ka == *kb {
        let ia: i32 = match a.id {
            Some(v) => v,
            None => -1,
        };
        let ib: i32 = match b.id {
            Some(v) => v,
            None => -1,
        };
        ia <= ib
    } else {
        false
    }
}

/// Inserts a row into a vector ordered under the given key, keeping it
/// ordered.
fn insert_task_sorted(out: &mut Vec<Task>, t: Task, k: TaskOrd)
    requires
        sorted_by(tasks_v(old(out)@), task_le_fn(k)),
    ensures
        final(out)@.len() == old(out)@.len() + 1,
        sorted_by(tasks_v(final(out)@), task_le_fn(k)),
        tasks_v(final(out)@).to_multiset() == tasks_v(old(out)@).to_multiset().insert(t@),
{
    let ghost t_v = t@;
    let ghost old_v = tasks_v(out@);
    let mut j: usize = 0;
    while j < out.len() && task_le_exec(k, &out[j], &t)
        invariant
            j <= out@.len(),
            forall|kk: int| 0 <= kk < j ==> task_le(k, #[trigger] tasks_v(out@)[kk], t_v),
        decreases out@.len() - j,
    {
        j = j + 1;
    }
    let ghost jj = j as int;
    proof {
        if jj < old_v.len() {
            assert(!task_le(k, old_v[jj], t_v));
            lemma_task_le_total(k, old_v[jj], t_v);
        }
    }
    out.insert(j, t);
    proof {
        let new_v = tasks_v(out@);
        assert(new_v =~= old_v.insert(jj, t_v));
        vstd::seq_lib::to_multiset_insert(old_v, jj, t_v);
        assert forall|x: int, y: int| 0 <= x < y < new_v.len() implies task_le_fn(k)(
            new_v[x],
            new_v[y],
        ) by {
            if x < jj && y < jj {
                assert(new_v[x] == old_v[x] && new_v[y] == old_v[y]);
            } else if x < jj && y == jj {
                assert(new_v[x] == old_v[x]);
            } else if x < jj && y > jj {
                assert(new_v[x] == old_v[x] && new_v[y] == old_v[y - 1]);
            } else if x == jj && y > jj {
                assert(new_v[y] == old_v[y - 1]);
                if y - 1 > jj {
                    assert(task_le_fn(k)(old_v[jj], old_v[y - 1]));
                    lemma_task_le_trans(k, t_v, old_v[jj], old_v[y - 1]);
                }
            } else {
                assert(x > jj && y > jj);
                assert(new_v[x] == old_v[x - 1] && new_v[y] == old_v[y - 1]);
            }
        }
    }
}

/// Index of the first task row with the given id.
fn task_index(rows: &Vec<Task>, id: i32) -> (r: Option<usize>)
    ensures
        match r {
            Some(j) => j < rows@.len() && tasks_v(rows@)[j as int].id == Some(id) && forall|
                k: int,
            | 0 <= k < j ==> (#[trigger] tasks_v(rows@)[k]).id != Some(id),
            None => forall|k: int|
                0 <= k < rows@.len() ==> (#[trigger] tasks_v(rows@)[k]).id != Some(id),
        },
{
    let mut i: usize = 0;
    while i < rows.len()
        invariant
            i <= rows@.len(),
            forall|k: int| 0 <= k < i ==> (#[trigger] tasks_v(rows@)[k]).id != Some(id),
        decreases rows@.len() - i,
    {
        let hit = match rows[i].id {
            Some(v) => v == id,
            None => false,
        };
        if hit {
            return Some(i);
        }
        i = i + 1;
    }
    None
}

impl Task {
    /// All tasks, ordered by `updated_at` ascending, ties by id: the tasks
    /// not worked on for the longest time come first. Exactly the rows of
    /// the task table; an empty table gives an empty list.
    pub fn all(store: &Store) -> (r: Vec<Task>)
        ensures
            r@.len() == store@.tasks.len(),
            tasks_v(r@).to_multiset() == store@.tasks.to_multiset(),
            sorted_by(tasks_v(r@), task_le_fn(TaskOrd::ByUpdated)),
    {
        broadcast use vstd::seq_lib::group_to_multiset_ensures;

        let rows = &store.tasks;
        let ghost all_v = tasks_v(rows@);
        let mut out: Vec<Task> = Vec::new();
        proof {
            assert(tasks_v(out@) =~= Seq::<TaskV>::empty());
            assert(all_v.take(0) =~= Seq::<TaskV>::empty());
        }
        let mut i: usize = 0;
        while i < rows.len()
            invariant
                i <= rows@.len(),
                out@.len() == i,
                sorted_by(tasks_v(out@), task_le_fn(TaskOrd::ByUpdated)),
                tasks_v(out@).to_multiset() == all_v.take(i as int).to_multiset(),
            decreases rows@.len() - i,
        {
            let t = rows[i].duplicate();
            proof {
                assert(all_v.take(i + 1) =~= all_v.take(i as int).push(all_v[i as int]));
            }
            insert_task_sorted(&mut out, t, TaskOrd::ByUpdated);
            i = i + 1;
        }
        proof {
            assert(all_v.take(rows@.len() as int) =~= all_v);
        }
        out
    }

    /// All tasks in the order the table keeps them, which under the store
    /// invariant is ascending id order: exact insertion order.
    pub fn all_by_id(store: &Store) -> (r: Vec<Task>)
        ensures
            tasks_v(r@) == store@.tasks,
    {
        let rows = &store.tasks;
        let mut out: Vec<Task> = Vec::new();
        let mut i: usize = 0;
        while i < rows.len()
            invariant
                i <= rows@.len(),
                out@.len() == i,
                tasks_v(out@) == store@.tasks.take(i as int),
            decreases rows@.len() - i,
        {
            out.push(rows[i].duplicate());
            proof {
                assert(tasks_v(out@) =~= store@.tasks.take(i + 1));
            }
            i = i + 1;
        }
        proof {
            assert(store@.tasks.take(rows@.len() as int) =~= store@.tasks);
        }
        out
    }

    /// The task with the given id, or nothing when no row matches.
    pub fn task_by_id(id: i32, store: &Store) -> (r: Option<Task>)
        ensures
            match r {
                Some(t) => spec_task_by_id(store@, id) == Some(t@),
                None => spec_task_by_id(store@, id) is None,
            },
    {
        match task_index(&store.tasks, id) {
            Some(j) => {
                let t = store.tasks[j].duplicate();
                proof {
                    lemma_find_first_at(store@.tasks, task_with_id(id), j as int);
                }
                Some(t)
            },
            None => {
                proof {
                    lemma_find_first_none(store@.tasks, task_with_id(id));
                }
                None
            },
        }
    }

    /// The tasks referencing the given label, ordered by name, ties by id.
    /// The label is resolved first: filtering by a label that does not
    /// exist is an error, not an empty list.
    pub fn tasks_by_label(label_id: i32, store: &Store) -> (r: Option<Vec<Task>>)
        ensures
            match r {
                Some(ts) => label_exists(store@, label_id) && ts@.len() == store@.tasks.filter(
                    task_labeled(label_id),
                ).len() && tasks_v(ts@).to_multiset() == store@.tasks.filter(
                    task_labeled(label_id),
                ).to_multiset() && sorted_by(tasks_v(ts@), task_le_fn(TaskOrd::ByName)),
                None => !label_exists(store@, label_id),
            },
    {
        broadcast use vstd::seq_lib::group_to_multiset_ensures;

        if crate::models::label::Label::label_by_id(label_id, store).is_none() {
            return None;
        }
        let ghost p = task_labeled(label_id);
        let rows = &store.tasks;
        let ghost all_v = tasks_v(rows@);
        let mut out: Vec<Task> = Vec::new();
        proof {
            assert(tasks_v(out@) =~= Seq::<TaskV>::empty());
            assert(all_v.take(0) =~= Seq::<TaskV>::empty());
            assert(all_v.take(0).filter(p) =~= Seq::<TaskV>::empty());
        }
        let mut i: usize = 0;
        while i < rows.len()
            invariant
                i <= rows@.len(),
                out@.len() == all_v.take(i as int).filter(p).len(),
                sorted_by(tasks_v(out@), task_le_fn(TaskOrd::ByName)),
                tasks_v(out@).to_multiset() == all_v.take(i as int).filter(p).to_multiset(),
            decreases rows@.len() - i,
        {
            let hit = match rows[i].label_id {
                Some(v) => v == label_id,
                None => false,
            };
            proof {
                let pre = all_v.take(i as int);
                let post = all_v.take(i + 1);
                assert(post.drop_last() =~= pre);
                assert(post.last() == all_v[i as int]);
                reveal_with_fuel(Seq::filter, 2);
                if hit {
                    assert(post.filter(p) =~= pre.filter(p).push(all_v[i as int]));
                } else {
                    assert(post.filter(p) =~= pre.filter(p));
                }
            }
            if hit {
                insert_task_sorted(&mut out, rows[i].duplicate(), TaskOrd::ByName);
            }
            i = i + 1;
        }
        proof {
            assert(all_v.take(rows@.len() as int) =~= all_v);
        }
        Some(out)
    }

    /// Appends a fresh task row with the next free id and the given
    /// timestamp text: empty description, no label. Fails only when the id
    /// counter is exhausted; checking the name is the caller's
    /// responsibility.
    pub fn insert_at(task_name: TaskName, at: String, store: &mut Store) -> (r: Option<Task>)
        requires
            old(store).inv(),
        ensures
            final(store).inv(),
            match r {
                Some(t) => can_insert_task(old(store)@) && t@ == spec_new_task(
                    old(store)@,
                    task_name.name@,
                    at@,
                ) && final(store)@ == spec_insert_task(old(store)@, task_name.name@, at@),
                None => !can_insert_task(old(store)@) && final(store)@ == old(store)@,
            },
    {
        if store.next_task_id == i32::MAX {
            return None;
        }
        let id = store.next_task_id;
        let t = Task {
            id: Some(id),
            name: task_name.name,
            description: String::new(),
            updated_at: at,
            label_id: None,
        };
        let ret = t.duplicate();
        let ghost t_v = t@;
        store.tasks.push(t);
        store.next_task_id = id + 1;
        proof {
            let pre = old(store)@;
            assert(tasks_v(store.tasks@) =~= pre.tasks.push(t_v));
            assert(t_v =~= spec_new_task(pre, task_name.name@, at@));
            assert(store@ =~= spec_insert_task(pre, task_name.name@, at@));
            assert forall|i: int, j: int|
                #![trigger store@.tasks[i], store@.tasks[j]]
                0 <= i < j < store@.tasks.len() implies oid(store@.tasks[i].id) < oid(
                store@.tasks[j].id,
            ) by {
                if j < pre.tasks.len() {
                    assert(oid(pre.tasks[i].id) < oid(pre.tasks[j].id));
                }
            }
        }
        Some(ret)
    }

    /// Inserts a task timestamped with the current local time. The clock
    /// text is not pinned, but it is at least as long as a full
    /// date-and-time stamp, which no body that skips the write can
    /// guarantee of an arbitrary stored row.
    pub fn insert(task_name: TaskName, store: &mut Store) -> (r: Option<Task>)
        requires
            old(store).inv(),
        ensures
            final(store).inv(),
            match r {
                Some(t) => can_insert_task(old(store)@) && (exists|now: Seq<char>|
                    now.len() >= 19 && t@ == spec_new_task(old(store)@, task_name.name@, now)
                        && final(store)@ == spec_insert_task(old(store)@, task_name.name@, now)),
                None => !can_insert_task(old(store)@) && final(store)@ == old(store)@,
            },
    {
        let ghost pre = old(store)@;
        let ghost name_v = task_name.name@;
        let at = crate::time::now_timestamp();
        let ghost at_v = at@;
        let r = Self::insert_at(task_name, at, store);
        proof {
            if r is Some {
                let t = r->Some_0;
                assert(at_v.len() >= 19 && t@ == spec_new_task(pre, name_v, at_v) && store@
                    == spec_insert_task(pre, name_v, at_v));
            }
        }
        r
    }

    /// Inserts a task dated far in the past, so that it sorts before
    /// freshly touched tasks.
    pub fn insert_with_old_date(dummy_name: &str, store: &mut Store) -> (r: Option<Task>)
        requires
            old(store).inv(),
        ensures
            final(store).inv(),
            match r {
                Some(t) => can_insert_task(old(store)@) && t@ == spec_new_task(
                    old(store)@,
                    dummy_name@,
                    "2000-01-01"@,
                ) && final(store)@ == spec_insert_task(old(store)@, dummy_name@, "2000-01-01"@),
                None => !can_insert_task(old(store)@) && final(store)@ == old(store)@,
            },
    {
        let name = String::from_str(dummy_name);
        let at = String::from_str("2000-01-01");
        Self::insert_at(TaskName { name }, at, store)
    }

    /// Rewrites name, description and label reference of the task with the
    /// given id. The `updated_at` timestamp is deliberately untouched:
    /// editing a task is not working on it. Reports whether such a row
    /// existed; a missing row changes nothing.
    pub fn update(id: i32, task: TaskUpdate, store: &mut Store) -> (r: bool)
        requires
            old(store).inv(),
        ensures
            final(store).inv(),
            final(store)@ == spec_update_task(
                old(store)@,
                id,
                task.name@,
                task.description@,
                task.label_id,
            ),
            r == task_exists(old(store)@, id),
    {
        let ghost pre = old(store)@;
        let ghost f = task_update_fn(id, task.name@, task.description@, task.label_id);
        let mut out: Vec<Task> = Vec::new();
        let mut found = false;
        let mut i: usize = 0;
        proof {
            assert(tasks_v(out@) =~= pre.tasks.take(0).map_values(f));
        }
        while i < store.tasks.len()
            invariant
                i <= store.tasks@.len(),
                out@.len() == i,
                tasks_v(out@) == pre.tasks.take(i as int).map_values(f),
                found == exists|k: int| 0 <= k < i && (#[trigger] pre.tasks[k]).id == Some(id),
            decreases store.tasks@.len() - i,
        {
            let row = &store.tasks[i];
            let hit = match row.id {
                Some(v) => v == id,
                None => false,
            };
            let next = if hit {
                found = true;
                Task {
                    id: row.id,
                    name: task.name.clone(),
                    description: task.description.clone(),
                    updated_at: row.updated_at.clone(),
                    label_id: task.label_id,
                }
            } else {
                row.duplicate()
            };
            out.push(next);
            proof {
                assert(pre.tasks[i as int] == store.tasks@[i as int]@);
                if hit {
                    assert(pre.tasks[i as int].id == Some(id));
                    assert(next@ == f(pre.tasks[i as int]));
                } else {
                    assert(next@ == pre.tasks[i as int]);
                    assert(f(pre.tasks[i as int]) == pre.tasks[i as int]);
                }
                assert(next@ == f(pre.tasks[i as int]));
                let prev = pre.tasks.take(i as int).map_values(f);
                let cur = pre.tasks.take(i + 1).map_values(f);
                assert forall|k: int| 0 <= k < out@.len() implies tasks_v(out@)[k] == cur[k] by {
                    if k < i {
                        assert(tasks_v(out@)[k] == prev[k]);
                        assert(pre.tasks.take(i as int)[k] == pre.tasks.take(i + 1)[k]);
                    } else {
                        assert(tasks_v(out@)[k] == next@);
                        assert(pre.tasks.take(i + 1)[k] == pre.tasks[i as int]);
                    }
                }
                assert(tasks_v(out@) =~= pre.tasks.take(i + 1).map_values(f));
            }
            i = i + 1;
        }
        proof {
            assert(pre.tasks.take(store.tasks@.len() as int) =~= pre.tasks);
        }
        store.tasks = out;
        proof {
            assert(store@ =~= spec_update_task(pre, id, task.name@, task.description@,
            task.label_id));
            lemma_find_first_exists(pre.tasks, task_with_id(id));
            assert forall|i2: int| 0 <= i2 < store@.tasks.len() implies (
            #[trigger] store@.tasks[i2]).id == pre.tasks[i2].id by {
                assert(store@.tasks[i2] == f(pre.tasks[i2]));
            }
        }
        found
    }

    /// Sets only the `updated_at` timestamp of the task with the given id
    /// to the given text. Reports whether such a row existed; a missing row
    /// changes nothing.
    pub fn touch_at(id: i32, at: String, store: &mut Store) -> (r: bool)
        requires
            old(store).inv(),
        ensures
            final(store).inv(),
            final(store)@ == spec_touch_task(old(store)@, id, at@),
            r == task_exists(old(store)@, id),
    {
        let ghost pre = old(store)@;
        let ghost f = task_touch_fn(id, at@);
        let mut out: Vec<Task> = Vec::new();
        let mut found = false;
        let mut i: usize = 0;
        proof {
            assert(tasks_v(out@) =~= pre.tasks.take(0).map_values(f));
        }
        while i < store.tasks.len()
            invariant
                i <= store.tasks@.len(),
                out@.len() == i,
                tasks_v(out@) == pre.tasks.take(i as int).map_values(f),
                found == exists|k: int| 0 <= k < i && (#[trigger] pre.tasks[k]).id == Some(id),
            decreases store.tasks@.len() - i,
        {
            let row = &store.tasks[i];
            let hit = match row.id {
                Some(v) => v == id,
                None => false,
            };
            let next = if hit {
                found = true;
                Task {
                    id: row.id,
                    name: row.name.clone(),
                    description: row.description.clone(),
                    updated_at: at.clone(),
                    label_id: row.label_id,
                }
            } else {
                row.duplicate()
            };
            out.push(next);
            proof {
                assert(pre.tasks[i as int] == store.tasks@[i as int]@);
                if hit {
                    assert(pre.tasks[i as int].id == Some(id));
                    assert(next@ == f(pre.tasks[i as int]));
                } else {
                    assert(next@ == pre.tasks[i as int]);
                    assert(f(pre.tasks[i as int]) == pre.tasks[i as int]);
                }
                assert(next@ == f(pre.tasks[i as int]));
                let prev = pre.tasks.take(i as int).map_values(f);
                let cur = pre.tasks.take(i + 1).map_values(f);
                assert forall|k: int| 0 <= k < out@.len() implies tasks_v(out@)[k] == cur[k] by {
                    if k < i {
                        assert(tasks_v(out@)[k] == prev[k]);
                        assert(pre.tasks.take(i as int)[k] == pre.tasks.take(i + 1)[k]);
                    } else {
                        assert(tasks_v(out@)[k] == next@);
                        assert(pre.tasks.take(i + 1)[k] == pre.tasks[i as int]);
                    }
                }
                assert(tasks_v(out@) =~= pre.tasks.take(i + 1).map_values(f));
            }
            i = i + 1;
        }
        proof {
            assert(pre.tasks.take(store.tasks@.len() as int) =~= pre.tasks);
        }
        store.tasks = out;
        proof {
            assert(store@ =~= spec_touch_task(pre, id, at@));
            lemma_find_first_exists(pre.tasks, task_with_id(id));
            assert forall|i2: int| 0 <= i2 < store@.tasks.len() implies (
            #[trigger] store@.tasks[i2]).id == pre.tasks[i2].id by {
                assert(store@.tasks[i2] == f(pre.tasks[i2]));
            }
        }
        found
    }

    /// Sets the `updated_at` timestamp of the task with the given id to the
    /// current local time and touches nothing else: the one action that
    /// means "I worked on this today". The clock text is not pinned, but
    /// it is at least as long as a full date-and-time stamp, which no body
    /// that skips the write can guarantee of an arbitrary stored row.
    pub fn update_to_today(id: i32, store: &mut Store) -> (r: bool)
        requires
            old(store).inv(),
        ensures
            final(store).inv(),
            r == task_exists(old(store)@, id),
            exists|now: Seq<char>|
                now.len() >= 19 && final(store)@ == spec_touch_task(old(store)@, id, now),
    {
        let ghost pre = old(store)@;
        let at = crate::time::now_timestamp();
        let ghost at_v = at@;
        let r = Self::touch_at(id, at, store);
        proof {
            assert(at_v.len() >= 19 && store@ == spec_touch_task(pre, id, at_v));
        }
        r
    }

    /// Removes the task with the given id. Reports whether such a row
    /// existed; a missing row changes nothing.
    pub fn delete_with_id(id: i32, store: &mut Store) -> (r: bool)
        requires
            old(store).inv(),
        ensures
            final(store).inv(),
            final(store)@ == spec_delete_task(old(store)@, id),
            r == task_exists(old(store)@, id),
    {
        let ghost pre = old(store)@;
        match task_index(&store.tasks, id) {
            Some(j) => {
                store.tasks.remove(j);
                proof {
                    lemma_find_first_at(pre.tasks, task_with_id(id), j as int);
                    lemma_remove_first_at(pre.tasks, task_with_id(id), j as int);
                    assert(tasks_v(store.tasks@) =~= pre.tasks.remove(j as int));
                    assert(store@ =~= spec_delete_task(pre, id));
                }
                true
            },
            None => {
                proof {
                    lemma_find_first_none(pre.tasks, task_with_id(id));
                    lemma_remove_first_none(pre.tasks, task_with_id(id));
                    assert(store@ =~= spec_delete_task(pre, id));
                }
                false
            },
        }
    }

    /// Empties the task table; the label table and both id counters stay.
    pub fn delete_all(store: &mut Store) -> (r: bool)
        requires
            old(store).inv(),
        ensures
            final(store).inv(),
            r,
            final(store)@ == (StoreV { tasks: Seq::empty(), ..old(store)@ }),
    {
        store.tasks = Vec::new();
        proof {
            assert(store@ =~= (StoreV { tasks: Seq::empty(), ..old(store)@ }));
        }
        true
    }
}

} // verus!
