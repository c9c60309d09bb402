//! The route handlers: the scenarios the HTTP surface promises, driven
//! through the handler functions with raw form bodies.

use chrono::{Local, NaiveDate, NaiveDateTime};
use tasktrack::models::label::Label;
use tasktrack::models::task::Task;
use tasktrack::respond::{MsgKind, PostResponse};
use tasktrack::routes;
use tasktrack::store::Store;

fn insert_label_by_post(store: &mut Store, name: &str, color: &str) -> PostResponse {
    routes::label::new(&format!("name={}&color={}", name, color), store)
}

fn insert_task_by_post(
    store: &mut Store,
    name: &str,
    description: &str,
    updated_at: &str,
) -> PostResponse {
    routes::task::new(
        &format!("name={}&description={}&updated_at={}", name, description, updated_at),
        store,
    )
}

fn flash_of(r: PostResponse) -> tasktrack::respond::FlashRedirect {
    match r {
        PostResponse::Redirect(f) => f,
        PostResponse::Unprocessable => panic!("expected a redirect, got unprocessable"),
    }
}

#[test]
fn invalid_task_form_submission_shows_warnings() {
    let mut store = Store::new();

    // A POST without a form at all is unprocessable, with no flash.
    let res = routes::task::new("", &mut store);
    assert!(matches!(res, PostResponse::Unprocessable));

    // A form with an empty name redirects with a warning flash.
    let res = insert_task_by_post(&mut store, "", "", "");
    let f = flash_of(res);
    assert!(matches!(f.kind, MsgKind::Warning));
    assert_eq!(f.kind.text(), "warning");
}

#[test]
fn invalid_label_form_submission_shows_warnings() {
    let mut store = Store::new();

    // A POST without a form at all is unprocessable, with no flash.
    let res = routes::label::new("", &mut store);
    assert!(matches!(res, PostResponse::Unprocessable));

    // A form without a name field is unprocessable.
    let res = routes::label::new("color=#123456", &mut store);
    assert!(matches!(res, PostResponse::Unprocessable));

    // A form without a color field is unprocessable.
    let res = routes::label::new("name=mylabel", &mut store);
    assert!(matches!(res, PostResponse::Unprocessable));

    // A form with an empty name redirects with a warning flash.
    let f = flash_of(routes::label::new("name=&color=#ff00ff", &mut store));
    assert!(matches!(f.kind, MsgKind::Warning));
    assert_eq!(f.kind.text(), "warning");

    // A form with an empty color redirects with a warning flash.
    let f = flash_of(routes::label::new("name=mylabel&color=", &mut store));
    assert!(matches!(f.kind, MsgKind::Warning));

    // A form with an invalid color redirects with a warning flash.
    let f = flash_of(routes::label::new("name=mylabel&color=red", &mut store));
    assert!(matches!(f.kind, MsgKind::Warning));

    // A color code of seven digits redirects with a warning flash.
    let f = flash_of(insert_label_by_post(&mut store, "mylabel", "#1234567"));
    assert!(matches!(f.kind, MsgKind::Warning));

    // A color code of five digits redirects with a warning flash.
    let f = flash_of(insert_label_by_post(&mut store, "mylabel", "#12345"));
    assert!(matches!(f.kind, MsgKind::Warning));

    // None of the submissions above created a row.
    assert_eq!(Label::all(&store).len(), 0);
}

#[test]
fn invalid_task_update_form_submission_shows_warnings() {
    let mut store = Store::new();
    insert_task_by_post(&mut store, "detailformtest", "", "");
    let inserted_id = Task::all(&store)[0].id.unwrap();

    // A POST without a form at all is unprocessable, with no flash.
    let res = routes::task::update(inserted_id, "", &mut store);
    assert!(matches!(res, PostResponse::Unprocessable));

    // A form without a name field is unprocessable.
    let res = routes::task::update(inserted_id, "description=hello", &mut store);
    assert!(matches!(res, PostResponse::Unprocessable));

    // A form with an empty name redirects with a warning flash.
    let res = routes::task::update(
        inserted_id,
        "name=&description=hello&updated_at=2020-04-28",
        &mut store,
    );
    let f = flash_of(res);
    assert!(matches!(f.kind, MsgKind::Warning));
    assert_eq!(f.kind.text(), "warning");
}

#[test]
fn task_insertion_and_deletion_updates_db_and_ui() {
    let mut store = Store::new();
    let init_tasks = Task::all(&store);

    insert_task_by_post(&mut store, "test task", "", "");
    let time_posted_ndt = Local::now().naive_local();

    let new_tasks = Task::all(&store);
    assert_eq!(new_tasks.len(), init_tasks.len() + 1);
    assert_eq!(new_tasks[0].name, "test task");
    assert_eq!(new_tasks[0].description, "");
    assert!(
        time_posted_ndt
            - NaiveDateTime::parse_from_str(&new_tasks[0].updated_at, "%Y-%m-%d %H:%M:%S%.f")
                .unwrap()
            < chrono::Duration::seconds(5)
    );
    assert_eq!(new_tasks[0].label_id, None);

    let id = new_tasks[0].id.unwrap();
    routes::task::delete(id, &mut store).expect("delete should redirect");

    let final_tasks = Task::all(&store);
    assert_eq!(final_tasks.len(), init_tasks.len());
    if !final_tasks.is_empty() {
        assert_ne!(final_tasks[0].name, "test task");
    }
}

#[test]
fn label_insertion_and_deletion_updates_db_and_ui() {
    let mut store = Store::new();
    let init_labels = Label::all(&store);

    insert_label_by_post(&mut store, "test label", "#ababab");

    let new_labels = Label::all(&store);
    assert_eq!(new_labels.len(), init_labels.len() + 1);
    assert_eq!(new_labels[0].name, "test label");
    assert_eq!(new_labels[0].color_hex, "#ababab");

    let id = new_labels[0].id.unwrap();
    routes::label::delete(id, &mut store).expect("delete should redirect");

    let final_labels = Label::all(&store);
    assert_eq!(final_labels.len(), init_labels.len());
    if !final_labels.is_empty() {
        assert_ne!(final_labels[0].name, "test label");
    }
}

#[test]
fn inserting_multiple_tasks_preserves_insertion_order() {
    const TEST_RECORD_NUM: usize = 100;

    let mut store = Store::new();
    let mut inserted_names = Vec::new();
    for i in 0..TEST_RECORD_NUM {
        let name = format!("zw{:04}q", i);
        insert_task_by_post(&mut store, &name, "", "");
        inserted_names.push(name);
    }
    let tasks = Task::all_by_id(&store);
    assert_eq!(tasks.len(), TEST_RECORD_NUM);
    for i in 0..TEST_RECORD_NUM {
        assert_eq!(tasks[i].name, inserted_names[i]);
    }
}

#[test]
fn label_list_displays_created_labels() {
    let mut store = Store::new();
    let name = "qz7label";

    let page = routes::label::index(None, &store);
    assert!(!page.labels.iter().any(|l| l.name == name));

    insert_label_by_post(&mut store, name, "#ababab");

    let page = routes::label::index(None, &store);
    assert!(page.labels.iter().any(|l| l.name == name));
}

#[test]
fn tasks_filtered_by_label_are_displayed_correctly() {
    let mut store = Store::new();
    let task_names = ["blue7aa", "green3b", "red99cc"];
    let mut task_ids = Vec::new();
    for name in task_names {
        insert_task_by_post(&mut store, name, "", "");
        let inserted_id = Task::all(&store).last().unwrap().id.unwrap();
        task_ids.push(inserted_id);
    }

    insert_label_by_post(&mut store, "newlabel", "#eeeeee");
    let inserted_label_id = Label::all(&store)[0].id.unwrap();

    let dt = Local::now().naive_local().to_string();
    for i in 0..2 {
        let form_data = format!(
            "name={}&description=&updated_at={}&label_id={}",
            task_names[i], dt, inserted_label_id
        );
        routes::task::update(task_ids[i], &form_data, &mut store);
    }

    let page = routes::task::by_label(inserted_label_id, &store).expect("label page");
    let shown: Vec<&str> = page.tasks.iter().map(|t| t.name.as_str()).collect();
    assert!(shown.contains(&task_names[0]));
    assert!(shown.contains(&task_names[1]));
    assert!(!shown.contains(&task_names[2]));
}

#[test]
fn updating_task_date_sets_to_today() {
    let mut store = Store::new();
    let t = Task::insert_with_old_date("datetest", &mut store);
    assert!(t.is_some());

    let new_tasks = Task::all(&store);
    let today_ndt = Local::now().naive_local();
    let new_task_nd = NaiveDate::parse_from_str(&new_tasks[0].updated_at, "%Y-%m-%d").unwrap();
    assert_ne!(new_task_nd, today_ndt.date());

    let inserted_id = new_tasks[0].id.unwrap();
    let res = routes::task::update_date(inserted_id, &mut store);
    let final_tasks = Task::all(&store);
    let final_task_ndt =
        NaiveDateTime::parse_from_str(&final_tasks[0].updated_at, "%Y-%m-%d %H:%M:%S%.f").unwrap();
    assert!(matches!(res.kind, MsgKind::Success));
    assert_eq!(res.kind.text(), "success");
    assert_eq!(final_task_ndt.date(), today_ndt.date());
}

#[test]
fn updating_task_fields_persists_changes() {
    let mut store = Store::new();
    let task_name = "updatetasktest";
    let t = Task::insert_with_old_date(task_name, &mut store);
    assert!(t.is_some());

    insert_label_by_post(&mut store, "newlabel", "#eeeeee");

    let inserted_id = Task::all(&store)[0].id.unwrap();
    let inserted_label_id = Label::all(&store)[0].id.unwrap();
    let task_description = "newdescription";
    let dt = Local::now().naive_local().to_string();
    let form_data = format!(
        "name={}&description={}&updated_at={}&label_id={}",
        task_name, task_description, dt, inserted_label_id
    );
    let res = routes::task::update(inserted_id, &form_data, &mut store);
    let f = flash_of(res);
    assert!(matches!(f.kind, MsgKind::Success));
    assert_eq!(f.kind.text(), "success");

    let updated_task = Task::task_by_id(inserted_id, &store).unwrap();
    assert_eq!(updated_task.name, task_name);
    assert_eq!(updated_task.description, task_description);
    // Editing deliberately never rewrites the last-worked-on timestamp.
    assert_eq!(updated_task.updated_at, "2000-01-01");
    assert_eq!(updated_task.label_id, Some(inserted_label_id));

    // An empty label field clears the reference.
    let form_data = format!(
        "name={}&description={}&updated_at={}&label_id=",
        task_name, task_description, dt
    );
    let res = routes::task::update(inserted_id, &form_data, &mut store);
    let f = flash_of(res);
    assert!(matches!(f.kind, MsgKind::Success));

    let updated_task = Task::task_by_id(inserted_id, &store).unwrap();
    assert_eq!(updated_task.label_id, None);
}

#[test]
fn updating_label_fields_persists_changes() {
    let mut store = Store::new();
    insert_label_by_post(&mut store, "newlabel", "#eeeeee");
    let inserted_id = Label::all(&store)[0].id.unwrap();

    let new_name = "newnewlabel";
    let new_color = "#5566ff";
    let form_data = format!("name={}&color={}", new_name, new_color);
    let res = routes::label::update(inserted_id, &form_data, &mut store);
    let f = flash_of(res);
    assert!(matches!(f.kind, MsgKind::Success));
    assert_eq!(f.kind.text(), "success");

    let updated_label = Label::label_by_id(inserted_id, &store).unwrap();
    assert_eq!(updated_label.name, new_name);
    assert_eq!(updated_label.color_hex, new_color);
}

#[test]
fn label_creation_warns_on_color_format_with_exact_message() {
    let mut store = Store::new();
    let f = flash_of(routes::label::new("name=mylabel&color=red", &mut store));
    assert!(matches!(f.kind, MsgKind::Warning));
    assert_eq!(f.message, "Please input label color with hex format.");
    assert_eq!(f.target, "/label");
    let f = flash_of(routes::label::new("name=mylabel&color=#1234567", &mut store));
    assert_eq!(f.message, "Please input label color with hex format.");
    assert_eq!(Label::all(&store).len(), 0);
}

#[test]
fn task_creation_success_and_failure_messages() {
    let mut store = Store::new();
    let f = flash_of(routes::task::new("name=test+task", &mut store));
    assert!(matches!(f.kind, MsgKind::Success));
    assert_eq!(f.message, "New task added.");
    assert_eq!(f.target, "/");
    assert_eq!(Task::all(&store)[0].name, "test task");

    let f = flash_of(routes::task::new("name=", &mut store));
    assert!(matches!(f.kind, MsgKind::Warning));
    assert_eq!(f.message, "Please input task name.");
}

#[test]
fn exhausted_id_counter_reports_server_failure() {
    let mut store = Store::new();
    store.next_task_id = i32::MAX;
    let f = flash_of(routes::task::new("name=late", &mut store));
    assert!(matches!(f.kind, MsgKind::Warning));
    assert_eq!(f.message, "The server failed.");
    assert_eq!(Task::all(&store).len(), 0);
}

#[test]
fn deleting_missing_rows_renders_inline_errors() {
    let mut store = Store::new();
    match routes::task::delete(4, &mut store) {
        Ok(_) => panic!("delete of a missing task must not redirect"),
        Err(page) => {
            let (kind, text) = page.msg.unwrap();
            assert_eq!(kind, "warning");
            assert_eq!(text, "Couldn't delete task.");
        }
    }
    match routes::label::delete(4, &mut store) {
        Ok(_) => panic!("delete of a missing label must not redirect"),
        Err(page) => {
            let (kind, text) = page.msg.unwrap();
            assert_eq!(kind, "warning");
            assert_eq!(text, "Couldn't delete label.");
        }
    }
}

#[test]
fn update_targets_point_back_at_the_edited_row() {
    let mut store = Store::new();
    insert_task_by_post(&mut store, "t", "", "");
    let tid = Task::all(&store)[0].id.unwrap();
    let f = flash_of(routes::task::update(
        tid,
        "name=t&description=&updated_at=",
        &mut store,
    ));
    assert_eq!(f.target, format!("/{}", tid));

    insert_label_by_post(&mut store, "l", "#aabbcc");
    let lid = Label::all(&store)[0].id.unwrap();
    let f = flash_of(routes::label::update(lid, "name=l&color=#aabbcc", &mut store));
    assert_eq!(f.target, format!("/label/{}/edit", lid));
}

#[test]
fn update_date_on_missing_task_warns() {
    let mut store = Store::new();
    let f = routes::task::update_date(3, &mut store);
    assert!(matches!(f.kind, MsgKind::Warning));
    assert_eq!(f.message, "The server failed.");
}

#[test]
fn detail_pages_resolve_only_existing_rows() {
    let mut store = Store::new();
    assert!(routes::task::edit(1, None, &store).is_none());
    assert!(routes::task::confirm(1, &store).is_none());
    assert!(routes::label::edit(1, None, &store).is_none());
    assert!(routes::label::confirm(1, &store).is_none());
    assert!(routes::task::by_label(1, &store).is_none());

    insert_task_by_post(&mut store, "here", "", "");
    insert_label_by_post(&mut store, "tag", "#aabbcc");
    let tid = Task::all(&store)[0].id.unwrap();
    let lid = Label::all(&store)[0].id.unwrap();
    let page = routes::task::edit(tid, Some(("success".to_string(), "hi".to_string())), &store)
        .expect("task page");
    assert_eq!(page.task.name, "here");
    assert_eq!(page.msg, Some(("success".to_string(), "hi".to_string())));
    assert_eq!(page.labels.len(), 1);
    assert!(routes::label::edit(lid, None, &store).is_some());
    assert!(routes::label::confirm(lid, &store).is_some());
    assert!(routes::task::by_label(lid, &store).is_some());
}

#[test]
fn index_threads_messages_through_verbatim() {
    let store = Store::new();
    let page = routes::task::index(
        Some(("warning".to_string(), "beware".to_string())),
        &store,
    );
    assert_eq!(page.msg, Some(("warning".to_string(), "beware".to_string())));
    assert!(page.tasks.is_empty());
    assert!(page.labels.is_empty());
    let page = routes::label::index(None, &store);
    assert_eq!(page.msg, None);
    assert!(page.labels.is_empty());
}
