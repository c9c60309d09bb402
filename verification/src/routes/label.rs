//! The label routes: validation, repository orchestration and the data bag
//! each label page needs. Validation runs strictly before any mutation,
//! and only the first failing rule is ever surfaced.

use vstd::prelude::*;
use vstd::relations::sorted_by;
use crate::form::{is_valid_color, parse_label_form, spec_form_value, valid_color};
use crate::models::label::{Label, LabelForm, label_le_fn};
use crate::respond::{FlashRedirect, MsgKind, PostResponse};
use crate::store::{
    Store, StoreV, can_insert_label, label_exists, labels_v, spec_delete_label,
    spec_insert_label, spec_label_by_id, spec_update_label,
};
use crate::strutil::dec_int;

verus! {

/// The path of a label's edit page.
pub open spec fn label_edit_url(id: i32) -> Seq<char> {
    "/label/"@ + dec_int(id as int) + "/edit"@
}

fn label_edit_url_exec(id: i32) -> (r: String)
    ensures
        r@ == label_edit_url(id),
{
    let mut s = String::from_str("/label/");
    s.append(crate::strutil::i32_to_string(id).as_str());
    s.append("/edit");
    s
}

/// The data bag of the label index page.
#[derive(Debug)]
pub struct IndexContext {
    pub msg: Option<(String, String)>,
    pub labels: Vec<Label>,
}

/// Whether the label listing of a context is exactly the store's label
/// table in name order.
pub open spec fn label_lists_ok(c: IndexContext, s: StoreV) -> bool {
    &&& c.labels@.len() == s.labels.len()
    &&& labels_v(c.labels@).to_multiset() == s.labels.to_multiset()
    &&& sorted_by(labels_v(c.labels@), label_le_fn())
}

impl IndexContext {
    /// The label index data with an inline warning, for a failed delete.
    pub fn err(store: &Store, msg: &str) -> (r: IndexContext)
        ensures
            r.msg matches Some(m) && m.0@ == "warning"@ && m.1@ == msg@,
            label_lists_ok(r, store@),
    {
        IndexContext {
            msg: Some((String::from_str("warning"), String::from_str(msg))),
            labels: Label::all(store),
        }
    }

    /// The label index data, with a carried message threaded through
    /// verbatim.
    pub fn raw(store: &Store, msg: Option<(String, String)>) -> (r: IndexContext)
        ensures
            r.msg == msg,
            label_lists_ok(r, store@),
    {
        IndexContext { msg, labels: Label::all(store) }
    }
}

/// The data bag of a label's delete confirmation page.
#[derive(Debug)]
pub struct SingleContext {
    pub label: Label,
}

impl SingleContext {
    /// The confirmation page data for one label, or nothing when the id
    /// matches no label.
    pub fn raw(id: i32, store: &Store) -> (r: Option<SingleContext>)
        ensures
            match r {
                Some(c) => spec_label_by_id(store@, id) == Some(c.label@),
                None => !label_exists(store@, id),
            },
    {
        match Label::label_by_id(id, store) {
            Some(label) => Some(SingleContext { label }),
            None => None,
        }
    }
}

/// The data bag of a label's edit page.
#[derive(Debug)]
pub struct UpdateContext {
    pub msg: Option<(String, String)>,
    pub label: Label,
}

impl UpdateContext {
    /// The edit page data for one label, or nothing when the id matches no
    /// label.
    pub fn raw(id: i32, store: &Store, msg: Option<(String, String)>) -> (r: Option<
        UpdateContext,
    >)
        ensures
            match r {
                Some(c) => spec_label_by_id(store@, id) == Some(c.label@) && c.msg == msg,
                None => !label_exists(store@, id),
            },
    {
        match Label::label_by_id(id, store) {
            Some(label) => Some(UpdateContext { msg, label }),
            None => None,
        }
    }
}

/// The checks shared by creating and updating a label: a name must be
/// given, and the color must end in `#` and six hex digits. At most one
/// warning text comes back, the first rule that fails.
fn check_label_form(form: &LabelForm) -> (r: Option<&'static str>)
    ensures
        match r {
            Some(m) => (form.name@.len() == 0 && m@ == "Please input label name."@) || (
            form.name@.len() > 0 && !valid_color(form.color@) && m@
                == "Please input label color with hex format."@),
            None => form.name@.len() > 0 && valid_color(form.color@),
        },
{
    if form.name.as_str().is_empty() {
        Some("Please input label name.")
    } else if form.color.as_str().is_empty() || !is_valid_color(form.color.as_str()) {
        Some("Please input label color with hex format.")
    } else {
        None
    }
}

/// Creates a label from the new-label form. A body without both fields,
/// or one the form decoder rejects (see [`crate::form`]), is
/// unprocessable; an empty name or a color not in hex format only warns;
/// otherwise the label is inserted.
pub fn new(body: &str, store: &mut Store) -> (r: PostResponse)
    requires
        old(store).inv(),
    ensures
        final(store).inv(),
        match r {
            PostResponse::Unprocessable => (spec_form_value(body@, "name"@) is None
                || spec_form_value(body@, "color"@) is None) && final(store)@ == old(store)@,
            PostResponse::Redirect(f) => {
                &&& spec_form_value(body@, "name"@) is Some
                &&& spec_form_value(body@, "color"@) is Some
                &&& f.target@ == "/label"@
                &&& {
                    let name = spec_form_value(body@, "name"@)->Some_0;
                    let color = spec_form_value(body@, "color"@)->Some_0;
                    if name.len() == 0 {
                        f.kind is Warning && f.message@ == "Please input label name."@ && final(store)@ == old(store)@
                    } else if !valid_color(color) {
                        f.kind is Warning && f.message@
                            == "Please input label color with hex format."@ && final(store)@
                            == old(store)@
                    } else if can_insert_label(old(store)@) {
                        f.kind is Success && f.message@ == "New label added."@ && final(store)@
                            == spec_insert_label(old(store)@, name, color)
                    } else {
                        f.kind is Warning && f.message@ == "The server failed."@ && final(store)@
                            == old(store)@
                    }
                }
            },
        },
{
    let form = match parse_label_form(body) {
        Some(f) => f,
        None => {
            return PostResponse::Unprocessable;
        },
    };
    if let Some(warning) = check_label_form(&form) {
        return PostResponse::Redirect(
            FlashRedirect {
                target: String::from_str("/label"),
                kind: MsgKind::Warning,
                message: String::from_str(warning),
            },
        );
    }
    match Label::insert(form, store) {
        Some(_) => PostResponse::Redirect(
            FlashRedirect {
                target: String::from_str("/label"),
                kind: MsgKind::Success,
                message: String::from_str("New label added."),
            },
        ),
        None => PostResponse::Redirect(
            FlashRedirect {
                target: String::from_str("/label"),
                kind: MsgKind::Warning,
                message: String::from_str("The server failed."),
            },
        ),
    }
}

/// Renders the label index, with the carried flash message, if any,
/// threaded through verbatim.
pub fn index(msg: Option<(String, String)>, store: &Store) -> (r: IndexContext)
    ensures
        r.msg == msg,
        label_lists_ok(r, store@),
{
    IndexContext::raw(store, msg)
}

/// Edits a label from its edit form, with the same checks as creation,
/// including the decoder's (see [`crate::form`]).
pub fn update(id: i32, body: &str, store: &mut Store) -> (r: PostResponse)
    requires
        old(store).inv(),
    ensures
        final(store).inv(),
        match r {
            PostResponse::Unprocessable => (spec_form_value(body@, "name"@) is None
                || spec_form_value(body@, "color"@) is None) && final(store)@ == old(store)@,
            PostResponse::Redirect(f) => {
                &&& spec_form_value(body@, "name"@) is Some
                &&& spec_form_value(body@, "color"@) is Some
                &&& f.target@ == label_edit_url(id)
                &&& {
                    let name = spec_form_value(body@, "name"@)->Some_0;
                    let color = spec_form_value(body@, "color"@)->Some_0;
                    if name.len() == 0 {
                        f.kind is Warning && f.message@ == "Please input label name."@ && final(store)@ == old(store)@
                    } else if !valid_color(color) {
                        f.kind is Warning && f.message@
                            == "Please input label color with hex format."@ && final(store)@
                            == old(store)@
                    } else {
                        &&& final(store)@ == spec_update_label(old(store)@, id, name, color)
                        &&& label_exists(old(store)@, id) ==> f.kind is Success && f.message@
                            == "Label is updated."@
                        &&& !label_exists(old(store)@, id) ==> f.kind is Warning && f.message@
                            == "The server failed."@
                    }
                }
            },
        },
{
    let form = match parse_label_form(body) {
        Some(f) => f,
        None => {
            return PostResponse::Unprocessable;
        },
    };
    let target = label_edit_url_exec(id);
    if let Some(warning) = check_label_form(&form) {
        return PostResponse::Redirect(
            FlashRedirect { target, kind: MsgKind::Warning, message: String::from_str(warning) },
        );
    }
    if Label::update(id, form, store) {
        PostResponse::Redirect(
            FlashRedirect {
                target,
                kind: MsgKind::Success,
                message: String::from_str("Label is updated."),
            },
        )
    } else {
        PostResponse::Redirect(
            FlashRedirect {
                target,
                kind: MsgKind::Warning,
                message: String::from_str("The server failed."),
            },
        )
    }
}

/// Renders a label's edit page, or nothing when the id matches no label.
pub fn edit(id: i32, msg: Option<(String, String)>, store: &Store) -> (r: Option<UpdateContext>)
    ensures
        r is Some == label_exists(store@, id),
        r matches Some(c) ==> spec_label_by_id(store@, id) == Some(c.label@) && c.msg == msg,
{
    UpdateContext::raw(id, store, msg)
}

/// Renders a label's delete confirmation page, or nothing when the id
/// matches no label.
pub fn confirm(id: i32, store: &Store) -> (r: Option<SingleContext>)
    ensures
        r is Some == label_exists(store@, id),
        r matches Some(c) ==> spec_label_by_id(store@, id) == Some(c.label@),
{
    SingleContext::raw(id, store)
}

/// Deletes a label. When no row matches, the label index page is rendered
/// again with an inline error instead of redirecting. Tasks referencing
/// the deleted label keep their dangling reference; the reference is a
/// lookup key, not ownership.
pub fn delete(id: i32, store: &mut Store) -> (r: Result<FlashRedirect, IndexContext>)
    requires
        old(store).inv(),
    ensures
        final(store).inv(),
        final(store)@ == spec_delete_label(old(store)@, id),
        match r {
            Ok(f) => label_exists(old(store)@, id) && f.target@ == "/label"@ && f.kind is Success
                && f.message@ == "Your label was deleted."@,
            Err(c) => !label_exists(old(store)@, id) && (c.msg matches Some(m) && m.0@
                == "warning"@ && m.1@ == "Couldn't delete label."@) && label_lists_ok(
                c,
                final(store)@,
            ),
        },
{
    if Label::delete_with_id(id, store) {
        Ok(
            FlashRedirect {
                target: String::from_str("/label"),
                kind: MsgKind::Success,
                message: String::from_str("Your label was deleted."),
            },
        )
    } else {
        Err(IndexContext::err(store, "Couldn't delete label."))
    }
}

} // verus!
