//! The laws that tie the repository operations together, proved over the
//! store's mathematical model.

use vstd::prelude::*;
use vstd::relations::sorted_by;
use crate::models::label::{LabelV, label_le_fn, lemma_label_le_antisym};
use crate::models::task::{TaskOrd, TaskV, lemma_task_le_antisym, task_le_fn};
use crate::store::{
    StoreV, can_insert_label, can_insert_task, label_with_id, lemma_find_first_at, oid,
    spec_insert_label, spec_insert_task, spec_label_by_id, spec_new_label, spec_new_task,
    spec_touch_task, spec_update_task, task_touch_fn, task_update_fn, wf,
};

verus! {

/// Inserting a task preserves the store invariant.
pub proof fn lemma_insert_task_wf(s: StoreV, name: Seq<char>, now: Seq<char>)
    requires
        wf(s),
        can_insert_task(s),
    ensures
        wf(spec_insert_task(s, name, now)),
{
    let s2 = spec_insert_task(s, name, now);
    assert forall|i: int, j: int|
        #![trigger s2.tasks[i], s2.tasks[j]]
        0 <= i < j < s2.tasks.len() implies oid(s2.tasks[i].id) < oid(s2.tasks[j].id) by {
        if j < s.tasks.len() {
            assert(oid(s.tasks[i].id) < oid(s.tasks[j].id));
        } else {
            assert(oid(s.tasks[i].id) < s.next_task_id);
        }
    }
}

/// Inserting a label preserves the store invariant.
pub proof fn lemma_insert_label_wf(s: StoreV, name: Seq<char>, color: Seq<char>)
    requires
        wf(s),
        can_insert_label(s),
    ensures
        wf(spec_insert_label(s, name, color)),
{
    let s2 = spec_insert_label(s, name, color);
    assert forall|i: int, j: int|
        #![trigger s2.labels[i], s2.labels[j]]
        0 <= i < j < s2.labels.len() implies oid(s2.labels[i].id) < oid(s2.labels[j].id) by {
        if j < s.labels.len() {
            assert(oid(s.labels[i].id) < oid(s.labels[j].id));
        } else {
            assert(oid(s.labels[i].id) < s.next_label_id);
        }
    }
}

/// Inserting a task with a (non-empty) name and then listing the tasks in
/// any order shows exactly one task with the fresh id, and that task
/// carries the given name, an empty description, no label reference, and
/// the insertion timestamp. `listed` stands for any listing of the new
/// store's task table, tied to it by the permutation clause that the
/// listing operations ensure.
pub proof fn lemma_insert_then_list_has_new_task(
    s: StoreV,
    name: Seq<char>,
    now: Seq<char>,
    listed: Seq<TaskV>,
)
    requires
        wf(s),
        name.len() > 0,
        can_insert_task(s),
        listed.to_multiset() == spec_insert_task(s, name, now).tasks.to_multiset(),
    ensures
        wf(spec_insert_task(s, name, now)),
        listed.to_multiset().count(spec_new_task(s, name, now)) == 1,
        forall|i: int|
            0 <= i < listed.len() && (#[trigger] listed[i]).id == Some(s.next_task_id)
                ==> listed[i] == spec_new_task(s, name, now),
        spec_new_task(s, name, now).name == name,
        spec_new_task(s, name, now).description == Seq::<char>::empty(),
        spec_new_task(s, name, now).label_id is None,
        spec_new_task(s, name, now).updated_at == now,
{
    broadcast use vstd::seq_lib::group_to_multiset_ensures;

    lemma_insert_task_wf(s, name, now);
    let t = spec_new_task(s, name, now);
    assert(!s.tasks.contains(t)) by {
        if s.tasks.contains(t) {
            let i = choose|i: int| 0 <= i < s.tasks.len() && s.tasks[i] == t;
            assert(oid(s.tasks[i].id) < s.next_task_id);
        }
    }
    assert(s.tasks.to_multiset().count(t) == 0);
    assert(s.tasks.push(t).to_multiset() =~= s.tasks.to_multiset().insert(t));
    assert forall|i: int|
        0 <= i < listed.len() && (#[trigger] listed[i]).id == Some(s.next_task_id) implies listed[i]
        == t by {
        let x = listed[i];
        assert(listed.contains(x));
        assert(listed.to_multiset().count(x) > 0);
        if x != t {
            assert(s.tasks.to_multiset().count(x) > 0);
            assert(s.tasks.contains(x));
            let j = choose|j: int| 0 <= j < s.tasks.len() && s.tasks[j] == x;
            assert(oid(s.tasks[j].id) < s.next_task_id);
        }
    }
}

/// Editing a task rewrites no row's `updated_at` and no row's id,
/// whatever values they held.
pub proof fn lemma_update_keeps_updated_at(
    s: StoreV,
    id: i32,
    name: Seq<char>,
    description: Seq<char>,
    label_id: Option<i32>,
)
    ensures
        spec_update_task(s, id, name, description, label_id).tasks.len() == s.tasks.len(),
        forall|i: int|
            0 <= i < s.tasks.len() ==> (#[trigger] spec_update_task(
                s,
                id,
                name,
                description,
                label_id,
            ).tasks[i]).updated_at == s.tasks[i].updated_at && spec_update_task(
                s,
                id,
                name,
                description,
                label_id,
            ).tasks[i].id == s.tasks[i].id,
{
    let f = task_update_fn(id, name, description, label_id);
    let s2 = spec_update_task(s, id, name, description, label_id);
    assert forall|i: int|
        0 <= i < s.tasks.len() implies (#[trigger] s2.tasks[i]).updated_at == s.tasks[i].updated_at
        && s2.tasks[i].id == s.tasks[i].id by {
        assert(s2.tasks[i] == f(s.tasks[i]));
    }
}

/// Touching a task sets `updated_at` of the row with that id and leaves
/// every other field, and every other row, alone.
pub proof fn lemma_touch_changes_only_updated_at(s: StoreV, id: i32, now: Seq<char>)
    ensures
        spec_touch_task(s, id, now).tasks.len() == s.tasks.len(),
        forall|i: int|
            0 <= i < s.tasks.len() ==> {
                let t2 = #[trigger] spec_touch_task(s, id, now).tasks[i];
                t2.id == s.tasks[i].id && t2.name == s.tasks[i].name && t2.description
                    == s.tasks[i].description && t2.label_id == s.tasks[i].label_id
            },
        forall|i: int|
            0 <= i < s.tasks.len() && (#[trigger] s.tasks[i]).id == Some(id)
                ==> spec_touch_task(s, id, now).tasks[i].updated_at == now,
        forall|i: int|
            0 <= i < s.tasks.len() && (#[trigger] s.tasks[i]).id != Some(id)
                ==> spec_touch_task(s, id, now).tasks[i].updated_at == s.tasks[i].updated_at,
{
    let f = task_touch_fn(id, now);
    let s2 = spec_touch_task(s, id, now);
    assert forall|i: int| 0 <= i < s.tasks.len() implies #[trigger] s2.tasks[i] == f(
        s.tasks[i],
    ) by {}
}

/// Inserting a label and reading it back by the freshly assigned id gives
/// a label with exactly the inserted name and color.
pub proof fn lemma_label_insert_round_trip(s: StoreV, name: Seq<char>, color: Seq<char>)
    requires
        wf(s),
        can_insert_label(s),
    ensures
        wf(spec_insert_label(s, name, color)),
        spec_label_by_id(spec_insert_label(s, name, color), s.next_label_id) == Some(
            spec_new_label(s, name, color),
        ),
        spec_new_label(s, name, color).id == Some(s.next_label_id),
        spec_new_label(s, name, color).name == name,
        spec_new_label(s, name, color).color_hex == color,
{
    lemma_insert_label_wf(s, name, color);
    let s2 = spec_insert_label(s, name, color);
    let n = s.labels.len() as int;
    assert(s2.labels[n] == spec_new_label(s, name, color));
    assert forall|i: int| 0 <= i < n implies !(label_with_id(s.next_label_id)(
        #[trigger] s2.labels[i],
    )) by {
        assert(s2.labels[i] == s.labels[i]);
        assert(oid(s.labels[i].id) < s.next_label_id);
    }
    lemma_find_first_at(s2.labels, label_with_id(s.next_label_id), n);
}

/// The store after inserting a batch of tasks one after another.
pub open spec fn spec_insert_tasks(s: StoreV, names: Seq<Seq<char>>, nows: Seq<Seq<char>>) -> StoreV
    recommends
        nows.len() == names.len(),
    decreases names.len(),
{
    if names.len() == 0 {
        s
    } else {
        spec_insert_tasks(
            spec_insert_task(s, names[0], nows[0]),
            names.drop_first(),
            nows.drop_first(),
        )
    }
}

/// Inserting tasks one after another appends them to the id-ordered table
/// in exact insertion order: the listing by id returns the old rows
/// unchanged and then the new tasks, in the order they were inserted,
/// with consecutive ids.
pub proof fn lemma_sequential_inserts_keep_order(
    s: StoreV,
    names: Seq<Seq<char>>,
    nows: Seq<Seq<char>>,
)
    requires
        wf(s),
        nows.len() == names.len(),
        s.next_task_id + names.len() <= i32::MAX,
    ensures
        wf(spec_insert_tasks(s, names, nows)),
        spec_insert_tasks(s, names, nows).tasks.len() == s.tasks.len() + names.len(),
        forall|k: int|
            0 <= k < s.tasks.len() ==> #[trigger] spec_insert_tasks(s, names, nows).tasks[k]
                == s.tasks[k],
        forall|k: int|
            0 <= k < names.len() ==> (#[trigger] spec_insert_tasks(s, names, nows).tasks[s.tasks.len()
                + k]).name == names[k] && spec_insert_tasks(s, names, nows).tasks[s.tasks.len()
                + k].id == Some((s.next_task_id + k) as i32),
    decreases names.len(),
{
    if names.len() > 0 {
        let s1 = spec_insert_task(s, names[0], nows[0]);
        lemma_insert_task_wf(s, names[0], nows[0]);
        lemma_sequential_inserts_keep_order(s1, names.drop_first(), nows.drop_first());
        let sf = spec_insert_tasks(s, names, nows);
        assert(sf == spec_insert_tasks(s1, names.drop_first(), nows.drop_first()));
        assert forall|k: int| 0 <= k < names.len() implies (#[trigger] sf.tasks[s.tasks.len()
            + k]).name == names[k] && sf.tasks[s.tasks.len() + k].id == Some(
            (s.next_task_id + k) as i32,
        ) by {
            if k == 0 {
                assert(sf.tasks[s.tasks.len() as int] == s1.tasks[s.tasks.len() as int]);
                assert(s1.tasks[s.tasks.len() as int] == spec_new_task(s, names[0], nows[0]));
            } else {
                assert(sf.tasks[s1.tasks.len() + (k - 1)].name == names.drop_first()[k - 1]);
                assert(sf.tasks[s1.tasks.len() + (k - 1)].id == Some(
                    (s1.next_task_id + (k - 1)) as i32,
                ));
                assert(names.drop_first()[k - 1] == names[k]);
            }
        }
    }
}

/// The task listing contracts pin the result: two sequences both ordered
/// under one key, holding the same rows, with no id position occurring
/// twice, are the same sequence.
pub proof fn lemma_sorted_task_listing_unique(k: TaskOrd, a: Seq<TaskV>, b: Seq<TaskV>)
    requires
        sorted_by(a, task_le_fn(k)),
        sorted_by(b, task_le_fn(k)),
        a.to_multiset() == b.to_multiset(),
        forall|i: int, j: int|
            #![trigger a[i], a[j]]
            0 <= i < j < a.len() ==> oid(a[i].id) != oid(a[j].id),
    ensures
        a == b,
    decreases a.len(),
{
    broadcast use vstd::seq_lib::group_to_multiset_ensures;

    assert(a.len() == a.to_multiset().len());
    assert(b.len() == b.to_multiset().len());
    assert(a.len() == b.len());
    if a.len() == 0 {
        assert(a =~= b);
    } else {
        assert(a.contains(a[0]));
        assert(a.to_multiset().count(a[0]) > 0);
        assert(b.to_multiset().count(a[0]) > 0);
        assert(b.contains(a[0]));
        let m = choose|m: int| 0 <= m < b.len() && b[m] == a[0];
        assert(b.contains(b[0]));
        assert(b.to_multiset().count(b[0]) > 0);
        assert(a.to_multiset().count(b[0]) > 0);
        assert(a.contains(b[0]));
        let n = choose|n: int| 0 <= n < a.len() && a[n] == b[0];
        if a[0] != b[0] {
            assert(m != 0 && n != 0);
            assert(task_le_fn(k)(b[0], b[m]));
            assert(task_le_fn(k)(a[0], a[n]));
            lemma_task_le_antisym(k, a[0], b[0]);
            assert(oid(a[0].id) != oid(a[n].id));
            assert(false);
        }
        let a1 = a.drop_first();
        let b1 = b.drop_first();
        assert(a.remove(0) =~= a1);
        assert(b.remove(0) =~= b1);
        assert(a1.to_multiset() =~= a.to_multiset().remove(a[0]));
        assert(b1.to_multiset() =~= b.to_multiset().remove(b[0]));
        assert(sorted_by(a1, task_le_fn(k))) by {
            assert forall|i: int, j: int| 0 <= i < j < a1.len() implies task_le_fn(k)(
                a1[i],
                a1[j],
            ) by {
                assert(a1[i] == a[i + 1] && a1[j] == a[j + 1]);
            }
        }
        assert(sorted_by(b1, task_le_fn(k))) by {
            assert forall|i: int, j: int| 0 <= i < j < b1.len() implies task_le_fn(k)(
                b1[i],
                b1[j],
            ) by {
                assert(b1[i] == b[i + 1] && b1[j] == b[j + 1]);
            }
        }
        assert forall|i: int, j: int|
            #![trigger a1[i], a1[j]]
            0 <= i < j < a1.len() implies oid(a1[i].id) != oid(a1[j].id) by {
            assert(a1[i] == a[i + 1] && a1[j] == a[j + 1]);
        }
        lemma_sorted_task_listing_unique(k, a1, b1);
        assert(a =~= b) by {
            assert forall|i: int| 0 <= i < a.len() implies a[i] == b[i] by {
                if i > 0 {
                    assert(a[i] == a1[i - 1] && b[i] == b1[i - 1]);
                }
            }
        }
    }
}

/// The label listing contract pins the result in the same way.
pub proof fn lemma_sorted_label_listing_unique(a: Seq<LabelV>, b: Seq<LabelV>)
    requires
        sorted_by(a, label_le_fn()),
        sorted_by(b, label_le_fn()),
        a.to_multiset() == b.to_multiset(),
        forall|i: int, j: int|
            #![trigger a[i], a[j]]
            0 <= i < j < a.len() ==> oid(a[i].id) != oid(a[j].id),
    ensures
        a == b,
    decreases a.len(),
{
    broadcast use vstd::seq_lib::group_to_multiset_ensures;

    assert(a.len() == a.to_multiset().len());
    assert(b.len() == b.to_multiset().len());
    assert(a.len() == b.len());
    if a.len() == 0 {
        assert(a =~= b);
    } else {
        assert(a.contains(a[0]));
        assert(a.to_multiset().count(a[0]) > 0);
        assert(b.to_multiset().count(a[0]) > 0);
        assert(b.contains(a[0]));
        let m = choose|m: int| 0 <= m < b.len() && b[m] == a[0];
        assert(b.contains(b[0]));
        assert(b.to_multiset().count(b[0]) > 0);
        assert(a.to_multiset().count(b[0]) > 0);
        assert(a.contains(b[0]));
        let n = choose|n: int| 0 <= n < a.len() && a[n] == b[0];
        if a[0] != b[0] {
            assert(m != 0 && n != 0);
            assert(label_le_fn()(b[0], b[m]));
            assert(label_le_fn()(a[0], a[n]));
            lemma_label_le_antisym(a[0], b[0]);
            assert(oid(a[0].id) != oid(a[n].id));
            assert(false);
        }
        let a1 = a.drop_first();
        let b1 = b.drop_first();
        assert(a.remove(0) =~= a1);
        assert(b.remove(0) =~= b1);
        assert(a1.to_multiset() =~= a.to_multiset().remove(a[0]));
        assert(b1.to_multiset() =~= b.to_multiset().remove(b[0]));
        assert(sorted_by(a1, label_le_fn())) by {
            assert forall|i: int, j: int| 0 <= i < j < a1.len() implies label_le_fn()(
                a1[i],
                a1[j],
            ) by {
                assert(a1[i] == a[i + 1] && a1[j] == a[j + 1]);
            }
        }
        assert(sorted_by(b1, label_le_fn())) by {
            assert forall|i: int, j: int| 0 <= i < j < b1.len() implies label_le_fn()(
                b1[i],
                b1[j],
            ) by {
                assert(b1[i] == b[i + 1] && b1[j] == b[j + 1]);
            }
        }
        assert forall|i: int, j: int|
            #![trigger a1[i], a1[j]]
            0 <= i < j < a1.len() implies oid(a1[i].id) != oid(a1[j].id) by {
            assert(a1[i] == a[i + 1] && a1[j] == a[j + 1]);
        }
        lemma_sorted_label_listing_unique(a1, b1);
        assert(a =~= b) by {
            assert forall|i: int| 0 <= i < a.len() implies a[i] == b[i] by {
                if i > 0 {
                    assert(a[i] == a1[i - 1] && b[i] == b1[i - 1]);
                }
            }
        }
    }
}

} // verus!
