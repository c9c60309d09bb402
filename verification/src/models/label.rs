//! The label entity: a named, colored tag, independently managed.

use vstd::prelude::*;
use vstd::relations::sorted_by;
use crate::store::{
    Store, can_insert_label, label_exists, label_with_id, labels_v, lemma_find_first_at,
    lemma_find_first_exists, lemma_find_first_none, lemma_remove_first_at,
    lemma_remove_first_none, oid, spec_delete_label, spec_insert_label, spec_label_by_id,
    spec_new_label, spec_update_label, label_update_fn, StoreV,
};
use crate::strutil::str_lt;

verus! {

/// A row of the label table. `id` is absent until the store assigns one.
#[derive(Debug)]
pub struct Label {
    pub id: Option<i32>,
    pub name: String,
    pub color_hex: String,
}

/// Mathematical value of a label row.
pub struct LabelV {
    pub id: Option<i32>,
    pub name: Seq<char>,
    pub color_hex: Seq<char>,
}

impl View for Label {
    type V = LabelV;

    open spec fn view(&self) -> LabelV {
        LabelV { id: self.id, name: self.name@, color_hex: self.color_hex@ }
    }
}

/// The fields a label form carries.
#[derive(Debug)]
pub struct LabelForm {
    pub name: String,
    pub color: String,
}

impl Label {
    /// A fresh copy of the row with the same value.
    pub fn duplicate(&self) -> (r: Label)
        ensures
            r@ == self@,
    {
        Label { id: self.id, name: self.name.clone(), color_hex: self.color_hex.clone() }
    }
}

/// Listing order of labels: by name, ties by id.
pub open spec fn label_le(a: LabelV, b: LabelV) -> bool {
    str_lt(a.name, b.name) || (a.name == b.name && oid(a.id) <= oid(b.id))
}

/// The listing order as a closed-over relation, for `sorted_by`.
pub open spec fn label_le_fn() -> spec_fn(LabelV, LabelV) -> bool {
    |a: LabelV, b: LabelV| label_le(a, b)
}

pub proof fn lemma_label_le_total(a: LabelV, b: LabelV)
    ensures
        label_le(a, b) || label_le(b, a),
{
    if !str_lt(a.name, b.name) && !str_lt(b.name, a.name) {
        crate::strutil::lemma_str_lt_connected(a.name, b.name);
    }
}

/// Rows ordered both ways carry the same id position.
pub proof fn lemma_label_le_antisym(a: LabelV, b: LabelV)
    requires
        label_le(a, b),
        label_le(b, a),
    ensures
        oid(a.id) == oid(b.id),
{
    crate::strutil::lemma_str_lt_irrefl(a.name);
    crate::strutil::lemma_str_lt_irrefl(b.name);
    if str_lt(a.name, b.name) {
        crate::strutil::lemma_str_lt_asym(a.name, b.name);
    }
}

pub proof fn lemma_label_le_trans(a: LabelV, b: LabelV, c: LabelV)
    requires
        label_le(a, b),
        label_le(b, c),
    ensures
        label_le(a, c),
{
    if str_lt(a.name, b.name) && str_lt(b.name, c.name) {
        crate::strutil::lemma_str_lt_trans(a.name, b.name, c.name);
    }
}

/// Decides the listing order of two label rows.
fn label_le_exec(a: &Label, b: &Label) -> (r: bool)
    ensures
        r == label_le(a@, b@),
{
    if crate::strutil::str_lt_exec(a.name.as_str(), b.name.as_str()) {
        true
    } else if a.name == b.name {
        let ia: i32 = match a.id {
            Some(v) => v,
            None => -1,
        };
        let ib: i32 = match b.id {
            Some(v) => v,
            None => -1,
        };
        ia <= ib
    } else {
        false
    }
}

/// Inserts a row into a name-ordered vector, keeping it ordered.
fn insert_label_sorted(out: &mut Vec<Label>, l: Label)
    requires
        sorted_by(labels_v(old(out)@), label_le_fn()),
    ensures
        final(out)@.len() == old(out)@.len() + 1,
        sorted_by(labels_v(final(out)@), label_le_fn()),
        labels_v(final(out)@).to_multiset() == labels_v(old(out)@).to_multiset().insert(l@),
{
    let ghost l_v = l@;
    let ghost old_v = labels_v(out@);
    let mut j: usize = 0;
    while j < out.len() && label_le_exec(&out[j], &l)
        invariant
            j <= out@.len(),
            forall|k: int| 0 <= k < j ==> label_le(#[trigger] labels_v(out@)[k], l_v),
        decreases out@.len() - j,
    {
        j = j + 1;
    }
    let ghost jj = j as int;
    proof {
        if jj < old_v.len() {
            assert(!label_le(old_v[jj], l_v));
            lemma_label_le_total(old_v[jj], l_v);
        }
    }
    out.insert(j, l);
    proof {
        let new_v = labels_v(out@);
        assert(new_v =~= old_v.insert(jj, l_v));
        vstd::seq_lib::to_multiset_insert(old_v, jj, l_v);
        assert forall|x: int, y: int| 0 <= x < y < new_v.len() implies label_le_fn()(
            new_v[x],
            new_v[y],
        ) by {
            if x < jj && y < jj {
                assert(new_v[x] == old_v[x] && new_v[y] == old_v[y]);
            } else if x < jj && y == jj {
                assert(new_v[x] == old_v[x]);
            } else if x < jj && y > jj {
                assert(new_v[x] == old_v[x] && new_v[y] == old_v[y - 1]);
            } else if x == jj && y > jj {
                assert(new_v[y] == old_v[y - 1]);
                if y - 1 > jj {
                    assert(label_le_fn()(old_v[jj], old_v[y - 1]));
                    lemma_label_le_trans(l_v, old_v[jj], old_v[y - 1]);
                }
            } else {
                assert(x > jj && y > jj);
                assert(new_v[x] == old_v[x - 1] && new_v[y] == old_v[y - 1]);
            }
        }
    }
}

/// Index of the first label row with the given id.
fn label_index(rows: &Vec<Label>, id: i32) -> (r: Option<usize>)
    ensures
        match r {
            Some(j) => j < rows@.len() && labels_v(rows@)[j as int].id == Some(id) && forall|
                k: int,
            | 0 <= k < j ==> (#[trigger] labels_v(rows@)[k]).id != Some(id),
            None => forall|k: int|
                0 <= k < rows@.len() ==> (#[trigger] labels_v(rows@)[k]).id != Some(id),
        },
{
    let mut i: usize = 0;
    while i < rows.len()
        invariant
            i <= rows@.len(),
            forall|k: int| 0 <= k < i ==> (#[trigger] labels_v(rows@)[k]).id != Some(id),
        decreases rows@.len() - i,
    {
        let hit = match rows[i].id {
            Some(v) => v == id,
            None => false,
        };
        if hit {
            return Some(i);
        }
        i = i + 1;
    }
    None
}

impl Label {
    /// All labels, ordered by name ascending, ties by id: exactly the rows
    /// of the label table. Empty table gives an empty list, never an error.
    pub fn all(store: &Store) -> (r: Vec<Label>)
        ensures
            r@.len() == store@.labels.len(),
            labels_v(r@).to_multiset() == store@.labels.to_multiset(),
            sorted_by(labels_v(r@), label_le_fn()),
    {
        broadcast use vstd::seq_lib::group_to_multiset_ensures;

        let rows = &store.labels;
        let ghost all_v = labels_v(rows@);
        let mut out: Vec<Label> = Vec::new();
        proof {
            assert(labels_v(out@) =~= Seq::<LabelV>::empty());
            assert(all_v.take(0) =~= Seq::<LabelV>::empty());
        }
        let mut i: usize = 0;
        while i < rows.len()
            invariant
                i <= rows@.len(),
                all_v == labels_v(rows@),
                out@.len() == i,
                sorted_by(labels_v(out@), label_le_fn()),
                labels_v(out@).to_multiset() == all_v.take(i as int).to_multiset(),
            decreases rows@.len() - i,
        {
            let l = rows[i].duplicate();
            proof {
                assert(all_v.take(i + 1) =~= all_v.take(i as int).push(all_v[i as int]));
            }
            insert_label_sorted(&mut out, l);
            i = i + 1;
        }
        proof {
            assert(all_v.take(rows@.len() as int) =~= all_v);
        }
        out
    }

    /// The label with the given id, or nothing when no row matches.
    pub fn label_by_id(id: i32, store: &Store) -> (r: Option<Label>)
        ensures
            match r {
                Some(l) => spec_label_by_id(store@, id) == Some(l@),
                None => spec_label_by_id(store@, id) is None,
            },
    {
        let rows = &store.labels;
        let mut i: usize = 0;
        while i < rows.len()
            invariant
                i <= rows@.len(),
                forall|k: int| 0 <= k < i ==> (#[trigger] labels_v(rows@)[k]).id != Some(id),
            decreases rows@.len() - i,
        {
            let hit = match rows[i].id {
                Some(v) => v == id,
                None => false,
            };
            if hit {
                let l = rows[i].duplicate();
                proof {
                    lemma_find_first_at(store@.labels, label_with_id(id), i as int);
                }
                return Some(l);
            }
            i = i + 1;
        }
        proof {
            lemma_find_first_none(store@.labels, label_with_id(id));
        }
        None
    }

    /// Appends a fresh label row with the next free id. Fails only when the
    /// id counter is exhausted; checking the form fields is the caller's
    /// responsibility.
    pub fn insert(label_info: LabelForm, store: &mut Store) -> (r: Option<Label>)
        requires
            old(store).inv(),
        ensures
            final(store).inv(),
            match r {
                Some(l) => can_insert_label(old(store)@) && l@ == spec_new_label(
                    old(store)@,
                    label_info.name@,
                    label_info.color@,
                ) && final(store)@ == spec_insert_label(
                    old(store)@,
                    label_info.name@,
                    label_info.color@,
                ),
                None => !can_insert_label(old(store)@) && final(store)@ == old(store)@,
            },
    {
        if store.next_label_id == i32::MAX {
            return None;
        }
        let id = store.next_label_id;
        let l = Label { id: Some(id), name: label_info.name, color_hex: label_info.color };
        let ret = l.duplicate();
        let ghost l_v = l@;
        store.labels.push(l);
        store.next_label_id = id + 1;
        proof {
            let pre = old(store)@;
            assert(labels_v(store.labels@) =~= pre.labels.push(l_v));
            assert(store@ =~= spec_insert_label(pre, label_info.name@, label_info.color@));
            assert forall|i: int, j: int|
                #![trigger store@.labels[i], store@.labels[j]]
                0 <= i < j < store@.labels.len() implies oid(store@.labels[i].id) < oid(
                store@.labels[j].id,
            ) by {
                if j < pre.labels.len() {
                    assert(oid(pre.labels[i].id) < oid(pre.labels[j].id));
                }
            }
        }
        Some(ret)
    }

    /// Rewrites the name and color of the label with the given id. Reports
    /// whether such a row existed; a missing row changes nothing.
    pub fn update(id: i32, label: LabelForm, store: &mut Store) -> (r: bool)
        requires
            old(store).inv(),
        ensures
            final(store).inv(),
            final(store)@ == spec_update_label(old(store)@, id, label.name@, label.color@),
            r == label_exists(old(store)@, id),
    {
        let ghost pre = old(store)@;
        let ghost f = label_update_fn(id, label.name@, label.color@);
        let mut out: Vec<Label> = Vec::new();
        let mut found = false;
        let mut i: usize = 0;
        proof {
            assert(labels_v(out@) =~= pre.labels.take(0).map_values(f));
        }
        while i < store.labels.len()
            invariant
                i <= store.labels@.len(),
                out@.len() == i,
                labels_v(out@) == pre.labels.take(i as int).map_values(f),
                found == exists|k: int|
                    0 <= k < i && (#[trigger] pre.labels[k]).id == Some(id),
            decreases store.labels@.len() - i,
        {
            let row = &store.labels[i];
            let hit = match row.id {
                Some(v) => v == id,
                None => false,
            };
            let next = if hit {
                found = true;
                Label { id: row.id, name: label.name.clone(), color_hex: label.color.clone() }
            } else {
                row.duplicate()
            };
            out.push(next);
            proof {
                assert(pre.labels[i as int] == store.labels@[i as int]@);
                if hit {
                    assert(pre.labels[i as int].id == Some(id));
                    assert(next@ == f(pre.labels[i as int]));
                } else {
                    assert(next@ == pre.labels[i as int]);
                    assert(f(pre.labels[i as int]) == pre.labels[i as int]);
                }
                assert(next@ == f(pre.labels[i as int]));
                let prev = pre.labels.take(i as int).map_values(f);
                let cur = pre.labels.take(i + 1).map_values(f);
                assert forall|k: int| 0 <= k < out@.len() implies labels_v(out@)[k] == cur[k] by {
                    if k < i {
                        assert(labels_v(out@)[k] == prev[k]);
                        assert(pre.labels.take(i as int)[k] == pre.labels.take(i + 1)[k]);
                    } else {
                        assert(labels_v(out@)[k] == next@);
                        assert(pre.labels.take(i + 1)[k] == pre.labels[i as int]);
                    }
                }
                assert(labels_v(out@) =~= pre.labels.take(i + 1).map_values(f));
            }
            i = i + 1;
        }
        proof {
            assert(pre.labels.take(store.labels@.len() as int) =~= pre.labels);
        }
        store.labels = out;
        proof {
            assert(store@ =~= spec_update_label(pre, id, label.name@, label.color@));
            lemma_find_first_exists(pre.labels, label_with_id(id));
            assert forall|i2: int| 0 <= i2 < store@.labels.len() implies (
            #[trigger] store@.labels[i2]).id == pre.labels[i2].id by {
                assert(store@.labels[i2] == f(pre.labels[i2]));
            }
        }
        found
    }

    /// Removes the label with the given id. Reports whether such a row
    /// existed; a missing row changes nothing.
    pub fn delete_with_id(id: i32, store: &mut Store) -> (r: bool)
        requires
            old(store).inv(),
        ensures
            final(store).inv(),
            final(store)@ == spec_delete_label(old(store)@, id),
            r == label_exists(old(store)@, id),
    {
        let ghost pre = old(store)@;
        match label_index(&store.labels, id) {
            Some(j) => {
                store.labels.remove(j);
                proof {
                    lemma_find_first_at(pre.labels, label_with_id(id), j as int);
                    lemma_remove_first_at(pre.labels, label_with_id(id), j as int);
                    assert(labels_v(store.labels@) =~= pre.labels.remove(j as int));
                    assert(store@ =~= spec_delete_label(pre, id));
                }
                true
            },
            None => {
                proof {
                    lemma_find_first_none(pre.labels, label_with_id(id));
                    lemma_remove_first_none(pre.labels, label_with_id(id));
                    assert(store@ =~= spec_delete_label(pre, id));
                }
                false
            },
        }
    }

    /// Empties the label table; the task table and both id counters stay.
    pub fn delete_all(store: &mut Store) -> (r: bool)
        requires
            old(store).inv(),
        ensures
            final(store).inv(),
            r,
            final(store)@ == (StoreV { labels: Seq::empty(), ..old(store)@ }),
    {
        store.labels = Vec::new();
        proof {
            assert(store@ =~= (StoreV { labels: Seq::empty(), ..old(store)@ }));
        }
        true
    }
}

} // verus!
