//! The repositories against a fresh store: ordering, round trips, and the
//! fields each operation touches.

use chrono::{Local, NaiveDateTime};
use tasktrack::models::label::{Label, LabelForm};
use tasktrack::models::task::{Task, TaskName, TaskUpdate};
use tasktrack::store::Store;

#[test]
fn label_round_trip_by_fresh_id() {
    let mut store = Store::new();
    let form = LabelForm { name: "X".to_string(), color: "#aabbcc".to_string() };
    let inserted = Label::insert(form, &mut store).expect("insert failed");
    let id = inserted.id.expect("no id assigned");
    let got = Label::label_by_id(id, &store).expect("label not found");
    assert_eq!(got.name, "X");
    assert_eq!(got.color_hex, "#aabbcc");
    assert_eq!(got.id, Some(id));
}

#[test]
fn labels_list_in_name_order() {
    let mut store = Store::new();
    for (name, color) in [("pear", "#000001"), ("apple", "#000002"), ("mango", "#000003")] {
        Label::insert(
            LabelForm { name: name.to_string(), color: color.to_string() },
            &mut store,
        )
        .unwrap();
    }
    let names: Vec<String> = Label::all(&store).into_iter().map(|l| l.name).collect();
    assert_eq!(names, vec!["apple".to_string(), "mango".to_string(), "pear".to_string()]);
}

#[test]
fn equal_label_names_keep_id_order() {
    let mut store = Store::new();
    for color in ["#000001", "#000002", "#000003"] {
        Label::insert(
            LabelForm { name: "same".to_string(), color: color.to_string() },
            &mut store,
        )
        .unwrap();
    }
    let colors: Vec<String> = Label::all(&store).into_iter().map(|l| l.color_hex).collect();
    assert_eq!(
        colors,
        vec!["#000001".to_string(), "#000002".to_string(), "#000003".to_string()]
    );
}

#[test]
fn fresh_task_has_default_fields_and_recent_time() {
    let mut store = Store::new();
    let t = Task::insert(TaskName { name: "n".to_string() }, &mut store).expect("insert");
    assert_eq!(t.name, "n");
    assert_eq!(t.description, "");
    assert_eq!(t.label_id, None);
    let stamped = NaiveDateTime::parse_from_str(&t.updated_at, "%Y-%m-%d %H:%M:%S%.f").unwrap();
    let now = Local::now().naive_local();
    assert!(now - stamped < chrono::Duration::seconds(5));
}

#[test]
fn tasks_list_oldest_first() {
    let mut store = Store::new();
    Task::insert(TaskName { name: "recent".to_string() }, &mut store).unwrap();
    Task::insert_with_old_date("ancient", &mut store).unwrap();
    let names: Vec<String> = Task::all(&store).into_iter().map(|t| t.name).collect();
    assert_eq!(names, vec!["ancient".to_string(), "recent".to_string()]);
}

#[test]
fn task_update_changes_fields_but_not_updated_at() {
    let mut store = Store::new();
    Task::insert_with_old_date("before", &mut store).unwrap();
    let id = Task::all(&store)[0].id.unwrap();
    let ok = Task::update(
        id,
        TaskUpdate {
            name: "after".to_string(),
            description: "notes".to_string(),
            updated_at: "2024-12-31".to_string(),
            label_id: Some(9),
        },
        &mut store,
    );
    assert!(ok);
    let t = Task::task_by_id(id, &store).unwrap();
    assert_eq!(t.name, "after");
    assert_eq!(t.description, "notes");
    assert_eq!(t.label_id, Some(9));
    // The edit action never rewrites the last-worked-on timestamp.
    assert_eq!(t.updated_at, "2000-01-01");
}

#[test]
fn touch_changes_only_updated_at() {
    let mut store = Store::new();
    Task::insert_with_old_date("steady", &mut store).unwrap();
    let all = Task::all(&store);
    let id = all[0].id.unwrap();
    let (bname, bdesc, bupd, blid) = (
        all[0].name.clone(),
        all[0].description.clone(),
        all[0].updated_at.clone(),
        all[0].label_id,
    );
    assert!(Task::update_to_today(id, &mut store));
    let t = Task::task_by_id(id, &store).unwrap();
    assert_eq!(t.name, bname);
    assert_eq!(t.description, bdesc);
    assert_eq!(t.label_id, blid);
    assert_ne!(t.updated_at, bupd);
    let stamped = NaiveDateTime::parse_from_str(&t.updated_at, "%Y-%m-%d %H:%M:%S%.f").unwrap();
    assert_eq!(stamped.date(), Local::now().naive_local().date());
}

#[test]
fn filtering_by_missing_label_is_an_error() {
    let mut store = Store::new();
    Task::insert(TaskName { name: "loose".to_string() }, &mut store).unwrap();
    assert!(Task::tasks_by_label(1, &store).is_none());
}

#[test]
fn filtering_returns_exactly_the_referencing_tasks_by_name() {
    let mut store = Store::new();
    let label =
        Label::insert(LabelForm { name: "l".to_string(), color: "#aabbcc".to_string() }, &mut store)
            .unwrap();
    let lid = label.id.unwrap();
    for name in ["zeta", "alpha", "mid"] {
        let t = Task::insert(TaskName { name: name.to_string() }, &mut store).unwrap();
        if name != "mid" {
            let id = t.id.unwrap();
            Task::update(
                id,
                TaskUpdate {
                    name: name.to_string(),
                    description: String::new(),
                    updated_at: String::new(),
                    label_id: Some(lid),
                },
                &mut store,
            );
        }
    }
    let names: Vec<String> = Task::tasks_by_label(lid, &store)
        .unwrap()
        .into_iter()
        .map(|t| t.name)
        .collect();
    assert_eq!(names, vec!["alpha".to_string(), "zeta".to_string()]);
}

#[test]
fn update_and_delete_report_missing_rows() {
    let mut store = Store::new();
    assert!(!Task::update(
        5,
        TaskUpdate {
            name: "x".to_string(),
            description: String::new(),
            updated_at: String::new(),
            label_id: None,
        },
        &mut store,
    ));
    assert!(!Task::delete_with_id(5, &mut store));
    assert!(!Label::update(
        5,
        LabelForm { name: "x".to_string(), color: "#123456".to_string() },
        &mut store,
    ));
    assert!(!Label::delete_with_id(5, &mut store));
}

#[test]
fn deleting_a_label_leaves_referencing_tasks_dangling() {
    // The label reference is a lookup key, not ownership: deleting the
    // label neither clears nor cascades; the filter route then errors.
    let mut store = Store::new();
    let label =
        Label::insert(LabelForm { name: "l".to_string(), color: "#aabbcc".to_string() }, &mut store)
            .unwrap();
    let lid = label.id.unwrap();
    let t = Task::insert(TaskName { name: "t".to_string() }, &mut store).unwrap();
    let tid = t.id.unwrap();
    Task::update(
        tid,
        TaskUpdate {
            name: "t".to_string(),
            description: String::new(),
            updated_at: String::new(),
            label_id: Some(lid),
        },
        &mut store,
    );
    assert!(Label::delete_with_id(lid, &mut store));
    let t = Task::task_by_id(tid, &store).unwrap();
    assert_eq!(t.label_id, Some(lid));
    assert!(Label::label_by_id(lid, &store).is_none());
    assert!(Task::tasks_by_label(lid, &store).is_none());
}

#[test]
fn delete_all_empties_one_table_only() {
    let mut store = Store::new();
    Task::insert(TaskName { name: "t".to_string() }, &mut store).unwrap();
    Label::insert(LabelForm { name: "l".to_string(), color: "#aabbcc".to_string() }, &mut store)
        .unwrap();
    assert!(Task::delete_all(&mut store));
    assert_eq!(Task::all(&store).len(), 0);
    assert_eq!(Label::all(&store).len(), 1);
    assert!(Label::delete_all(&mut store));
    assert_eq!(Label::all(&store).len(), 0);
}
