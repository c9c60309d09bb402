//! The task routes: validation, repository orchestration and the data bag
//! each task page needs. Validation runs strictly before any mutation, and
//! only the first failing rule is ever surfaced.

use vstd::prelude::*;
use vstd::relations::sorted_by;
use crate::form::{parse_task_name, parse_task_update, spec_form_value, spec_label_id_field};
use crate::models::label::{Label, label_le_fn};
use crate::models::task::{Task, TaskOrd, task_le_fn};
use crate::respond::{FlashRedirect, MsgKind, PostResponse};
use crate::store::{
    Store, can_insert_task, label_exists, labels_v, spec_delete_task, spec_insert_task,
    spec_task_by_id, spec_touch_task, spec_update_task, task_exists, task_labeled, tasks_v,
};
use crate::strutil::dec_int;

verus! {

/// The path of a task's own page.
pub open spec fn task_url(id: i32) -> Seq<char> {
    "/"@ + dec_int(id as int)
}

fn task_url_exec(id: i32) -> (r: String)
    ensures
        r@ == task_url(id),
{
    let mut s = String::from_str("/");
    s.append(crate::strutil::i32_to_string(id).as_str());
    s
}

/// The data bag of the task index page: every task, every label, and an
/// optional carried message.
#[derive(Debug)]
pub struct IndexContext {
    pub msg: Option<(String, String)>,
    pub tasks: Vec<Task>,
    pub labels: Vec<Label>,
}

/// Whether the listings of an index context are exactly the store's rows
/// in their page order: tasks oldest-first, labels by name.
pub open spec fn index_lists_ok(c: IndexContext, s: crate::store::StoreV) -> bool {
    &&& c.tasks@.len() == s.tasks.len()
    &&& tasks_v(c.tasks@).to_multiset() == s.tasks.to_multiset()
    &&& sorted_by(tasks_v(c.tasks@), task_le_fn(TaskOrd::ByUpdated))
    &&& c.labels@.len() == s.labels.len()
    &&& labels_v(c.labels@).to_multiset() == s.labels.to_multiset()
    &&& sorted_by(labels_v(c.labels@), label_le_fn())
}

impl IndexContext {
    /// The index page data with an inline warning, for a failed delete.
    pub fn err(store: &Store, msg: &str) -> (r: IndexContext)
        ensures
            r.msg matches Some(m) && m.0@ == "warning"@ && m.1@ == msg@,
            index_lists_ok(r, store@),
    {
        IndexContext {
            msg: Some((String::from_str("warning"), String::from_str(msg))),
            tasks: Task::all(store),
            labels: Label::all(store),
        }
    }

    /// The index page data, with a carried message threaded through
    /// verbatim.
    pub fn raw(store: &Store, msg: Option<(String, String)>) -> (r: IndexContext)
        ensures
            r.msg == msg,
            index_lists_ok(r, store@),
    {
        IndexContext { msg, tasks: Task::all(store), labels: Label::all(store) }
    }
}

/// The data bag of a task's detail page: the task, every label for the
/// label picker, and an optional carried message.
#[derive(Debug)]
pub struct SingleContext {
    pub msg: Option<(String, String)>,
    pub task: Task,
    pub labels: Vec<Label>,
}

impl SingleContext {
    /// The detail page data for one task, or nothing when the id matches
    /// no task.
    pub fn raw(id: i32, store: &Store, msg: Option<(String, String)>) -> (r: Option<
        SingleContext,
    >)
        ensures
            match r {
                Some(c) => {
                    &&& spec_task_by_id(store@, id) == Some(c.task@)
                    &&& c.msg == msg
                    &&& c.labels@.len() == store@.labels.len()
                    &&& labels_v(c.labels@).to_multiset() == store@.labels.to_multiset()
                    &&& sorted_by(labels_v(c.labels@), label_le_fn())
                },
                None => !task_exists(store@, id),
            },
    {
        match Task::task_by_id(id, store) {
            Some(task) => Some(SingleContext { msg, task, labels: Label::all(store) }),
            None => None,
        }
    }
}

/// The data bag of the label-filtered task listing.
#[derive(Debug)]
pub struct ByLabelContext {
    pub tasks: Vec<Task>,
    pub label: Label,
}

impl ByLabelContext {
    /// The filtered listing for one label, or nothing when the id matches
    /// no label.
    pub fn raw(label_id: i32, store: &Store) -> (r: Option<ByLabelContext>)
        ensures
            match r {
                Some(c) => {
                    &&& crate::store::spec_label_by_id(store@, label_id) == Some(c.label@)
                    &&& c.tasks@.len() == store@.tasks.filter(task_labeled(label_id)).len()
                    &&& tasks_v(c.tasks@).to_multiset() == store@.tasks.filter(
                        task_labeled(label_id),
                    ).to_multiset()
                    &&& sorted_by(tasks_v(c.tasks@), task_le_fn(TaskOrd::ByName))
                },
                None => !label_exists(store@, label_id),
            },
    {
        let tasks = match Task::tasks_by_label(label_id, store) {
            Some(ts) => ts,
            None => {
                return None;
            },
        };
        match Label::label_by_id(label_id, store) {
            Some(label) => Some(ByLabelContext { tasks, label }),
            None => None,
        }
    }
}

/// Creates a task from the new-task form. A body without a `name` field,
/// or one whose fields the form decoder rejects (see [`crate::form`]), is
/// unprocessable; an empty name only warns; otherwise the task is
/// inserted with the current time.
pub fn new(body: &str, store: &mut Store) -> (r: PostResponse)
    requires
        old(store).inv(),
    ensures
        final(store).inv(),
        match r {
            PostResponse::Unprocessable => spec_form_value(body@, "name"@) is None && final(store)@ == old(store)@,
            PostResponse::Redirect(f) => {
                &&& spec_form_value(body@, "name"@) is Some
                &&& f.target@ == "/"@
                &&& {
                    let name = spec_form_value(body@, "name"@)->Some_0;
                    if name.len() == 0 {
                        f.kind is Warning && f.message@ == "Please input task name."@ && final(store)@ == old(store)@
                    } else if can_insert_task(old(store)@) {
                        f.kind is Success && f.message@ == "New task added."@ && (exists|
                            now: Seq<char>,
                        |
                            now.len() >= 19 && final(store)@ == spec_insert_task(
                                old(store)@,
                                name,
                                now,
                            ))
                    } else {
                        f.kind is Warning && f.message@ == "The server failed."@ && final(store)@
                            == old(store)@
                    }
                }
            },
        },
{
    let form = match parse_task_name(body) {
        Some(f) => f,
        None => {
            return PostResponse::Unprocessable;
        },
    };
    if form.name.as_str().is_empty() {
        return PostResponse::Redirect(
            FlashRedirect {
                target: String::from_str("/"),
                kind: MsgKind::Warning,
                message: String::from_str("Please input task name."),
            },
        );
    }
    let ghost name_v = form.name@;
    match Task::insert(form, store) {
        Some(_) => PostResponse::Redirect(
            FlashRedirect {
                target: String::from_str("/"),
                kind: MsgKind::Success,
                message: String::from_str("New task added."),
            },
        ),
        None => PostResponse::Redirect(
            FlashRedirect {
                target: String::from_str("/"),
                kind: MsgKind::Warning,
                message: String::from_str("The server failed."),
            },
        ),
    }
}

/// Renders the task index: all tasks and labels, with the carried flash
/// message, if any, threaded through verbatim.
pub fn index(msg: Option<(String, String)>, store: &Store) -> (r: IndexContext)
    ensures
        r.msg == msg,
        index_lists_ok(r, store@),
{
    IndexContext::raw(store, msg)
}

/// Renders the listing of tasks carrying the given label, or nothing when
/// the label does not exist.
pub fn by_label(id: i32, store: &Store) -> (r: Option<ByLabelContext>)
    ensures
        r is Some == label_exists(store@, id),
        r matches Some(c) ==> {
            &&& crate::store::spec_label_by_id(store@, id) == Some(c.label@)
            &&& tasks_v(c.tasks@).to_multiset() == store@.tasks.filter(
                task_labeled(id),
            ).to_multiset()
            &&& sorted_by(tasks_v(c.tasks@), task_le_fn(TaskOrd::ByName))
        },
{
    ByLabelContext::raw(id, store)
}

/// Marks a task as worked on today: its `updated_at` becomes the current
/// time and nothing else changes. The clock text is not pinned, but it is
/// at least as long as a full date-and-time stamp, which no body that
/// skips the write can guarantee of an arbitrary stored row.
pub fn update_date(id: i32, store: &mut Store) -> (r: FlashRedirect)
    requires
        old(store).inv(),
    ensures
        final(store).inv(),
        r.target@ == "/"@,
        exists|now: Seq<char>|
            now.len() >= 19 && final(store)@ == spec_touch_task(old(store)@, id, now),
        task_exists(old(store)@, id) ==> r.kind is Success && r.message@
            == "\"Last updated\" date is updated to today."@,
        !task_exists(old(store)@, id) ==> r.kind is Warning && r.message@ == "The server failed."@
            && final(store)@ == old(store)@,
{
    let ghost pre = old(store)@;
    let ok = Task::update_to_today(id, store);
    proof {
        if !task_exists(pre, id) {
            let now = choose|now: Seq<char>|
                now.len() >= 19 && store@ == spec_touch_task(pre, id, now);
            crate::store::lemma_find_first_exists(pre.tasks, crate::store::task_with_id(id));
            assert(spec_touch_task(pre, id, now).tasks =~= pre.tasks) by {
                assert forall|k: int| 0 <= k < pre.tasks.len() implies pre.tasks.map_values(
                    crate::store::task_touch_fn(id, now),
                )[k] == pre.tasks[k] by {
                    assert((#[trigger] pre.tasks[k]).id != Some(id));
                }
            }
            assert(store@ =~= pre);
        }
    }
    if ok {
        FlashRedirect {
            target: String::from_str("/"),
            kind: MsgKind::Success,
            message: String::from_str("\"Last updated\" date is updated to today."),
        }
    } else {
        FlashRedirect {
            target: String::from_str("/"),
            kind: MsgKind::Warning,
            message: String::from_str("The server failed."),
        }
    }
}

/// Renders a task's detail and edit page, or nothing when the id matches
/// no task.
pub fn edit(id: i32, msg: Option<(String, String)>, store: &Store) -> (r: Option<SingleContext>)
    ensures
        r is Some == task_exists(store@, id),
        r matches Some(c) ==> spec_task_by_id(store@, id) == Some(c.task@) && c.msg == msg,
{
    SingleContext::raw(id, store, msg)
}

/// Edits a task from its detail form. A body missing a required field, or
/// one the form decoder rejects (see [`crate::form`]), is unprocessable;
/// an empty name only warns; otherwise name, description and label
/// reference are rewritten while `updated_at` stays.
pub fn update(id: i32, body: &str, store: &mut Store) -> (r: PostResponse)
    requires
        old(store).inv(),
    ensures
        final(store).inv(),
        match r {
            PostResponse::Unprocessable => (spec_form_value(body@, "name"@) is None
                || spec_form_value(body@, "description"@) is None || spec_form_value(
                body@,
                "updated_at"@,
            ) is None) && final(store)@ == old(store)@,
            PostResponse::Redirect(f) => {
                &&& spec_form_value(body@, "name"@) is Some
                &&& spec_form_value(body@, "description"@) is Some
                &&& spec_form_value(body@, "updated_at"@) is Some
                &&& f.target@ == task_url(id)
                &&& {
                    let name = spec_form_value(body@, "name"@)->Some_0;
                    let description = spec_form_value(body@, "description"@)->Some_0;
                    if name.len() == 0 {
                        f.kind is Warning && f.message@ == "Please input task name."@ && final(store)@ == old(store)@
                    } else {
                        &&& final(store)@ == spec_update_task(
                            old(store)@,
                            id,
                            name,
                            description,
                            spec_label_id_field(body@),
                        )
                        &&& task_exists(old(store)@, id) ==> f.kind is Success && f.message@
                            == "Your task was updated."@
                        &&& !task_exists(old(store)@, id) ==> f.kind is Warning && f.message@
                            == "The server failed."@
                    }
                }
            },
        },
{
    let form = match parse_task_update(body) {
        Some(f) => f,
        None => {
            return PostResponse::Unprocessable;
        },
    };
    let target = task_url_exec(id);
    if form.name.as_str().is_empty() {
        return PostResponse::Redirect(
            FlashRedirect {
                target,
                kind: MsgKind::Warning,
                message: String::from_str("Please input task name."),
            },
        );
    }
    if Task::update(id, form, store) {
        PostResponse::Redirect(
            FlashRedirect {
                target,
                kind: MsgKind::Success,
                message: String::from_str("Your task was updated."),
            },
        )
    } else {
        PostResponse::Redirect(
            FlashRedirect {
                target,
                kind: MsgKind::Warning,
                message: String::from_str("The server failed."),
            },
        )
    }
}

/// Renders a task's delete confirmation page, or nothing when the id
/// matches no task.
pub fn confirm(id: i32, store: &Store) -> (r: Option<SingleContext>)
    ensures
        r is Some == task_exists(store@, id),
        r matches Some(c) ==> spec_task_by_id(store@, id) == Some(c.task@) && c.msg is None,
{
    SingleContext::raw(id, store, None)
}

/// Deletes a task. When no row matches, the index page is rendered again
/// with an inline error instead of redirecting.
pub fn delete(id: i32, store: &mut Store) -> (r: Result<FlashRedirect, IndexContext>)
    requires
        old(store).inv(),
    ensures
        final(store).inv(),
        final(store)@ == spec_delete_task(old(store)@, id),
        match r {
            Ok(f) => task_exists(old(store)@, id) && f.target@ == "/"@ && f.kind is Success
                && f.message@ == "Your task was deleted."@,
            Err(c) => !task_exists(old(store)@, id) && (c.msg matches Some(m) && m.0@
                == "warning"@ && m.1@ == "Couldn't delete task."@) && index_lists_ok(
                c,
                final(store)@,
            ),
        },
{
    if Task::delete_with_id(id, store) {
        Ok(
            FlashRedirect {
                target: String::from_str("/"),
                kind: MsgKind::Success,
                message: String::from_str("Your task was deleted."),
            },
        )
    } else {
        Err(IndexContext::err(store, "Couldn't delete task."))
    }
}

} // verus!
