use tasklist::store::TodoApp;
use tasklist::task::{Task, TaskStatus};

fn store_of(items: &[(&str, TaskStatus)]) -> TodoApp {
    let mut app = TodoApp::new();
    for (d, s) in items {
        app.tasks.push(Task::new(d.to_string(), *s, None));
    }
    app
}

fn descriptions(app: &TodoApp) -> Vec<String> {
    app.tasks.iter().map(|t| t.description.clone()).collect()
}

fn statuses(app: &TodoApp) -> Vec<TaskStatus> {
    app.tasks.iter().map(|t| t.status).collect()
}

#[test]
fn plain_description_adds_one_task() {
    for d in ["Buy milk", "a: b", "x; y", "no separators", "a:b;c"] {
        let mut app = TodoApp::new();
        app.add_task(d.to_string(), None, None);
        assert_eq!(descriptions(&app), vec![d.to_string()]);
        assert_eq!(app.tasks[0].status, TaskStatus::Undone);
        assert!(app.tasks[0].created_at.is_some());
    }
}

#[test]
fn empty_description_adds_nothing() {
    let mut app = store_of(&[("a", TaskStatus::Undone)]);
    app.add_task(String::new(), Some(TaskStatus::Undone), Some(0));
    assert_eq!(descriptions(&app), vec!["a"]);
}

#[test]
fn compound_description_adds_three_tasks() {
    let mut app = store_of(&[("first", TaskStatus::Undone), ("later", TaskStatus::Done)]);
    app.add_task("Groceries: milk; eggs; bread".to_string(), None, None);
    assert_eq!(
        descriptions(&app),
        vec!["first", "Groceries: milk", "Groceries: eggs", "Groceries: bread", "later"]
    );
    assert_eq!(
        statuses(&app),
        vec![
            TaskStatus::Undone,
            TaskStatus::Undone,
            TaskStatus::Undone,
            TaskStatus::Undone,
            TaskStatus::Done
        ]
    );
}

#[test]
fn compound_items_are_trimmed() {
    let mut app = TodoApp::new();
    app.add_task("  Trip :  pack\t;  book ; go".to_string(), None, None);
    assert_eq!(descriptions(&app), vec!["Trip: pack", "Trip: book", "Trip: go"]);
}

#[test]
fn compound_keeps_empty_items() {
    let mut app = TodoApp::new();
    app.add_task("L: a; ; b;".to_string(), None, None);
    assert_eq!(descriptions(&app), vec!["L: a", "L: ", "L: b", "L: "]);
}

#[test]
fn pending_reference_inserts_after_it_as_pending() {
    let mut app = store_of(&[
        ("a", TaskStatus::Undone),
        ("b", TaskStatus::Pending),
        ("c", TaskStatus::Pending),
    ]);
    app.add_task("new".to_string(), Some(TaskStatus::Pending), Some(1));
    assert_eq!(descriptions(&app), vec!["a", "b", "new", "c"]);
    assert_eq!(app.tasks[2].status, TaskStatus::Pending);
}

#[test]
fn undone_reference_inserts_after_it_as_undone() {
    let mut app = store_of(&[("a", TaskStatus::Undone), ("b", TaskStatus::Undone)]);
    app.add_task("n: x; y".to_string(), Some(TaskStatus::Undone), Some(0));
    assert_eq!(descriptions(&app), vec!["a", "n: x", "n: y", "b"]);
    assert_eq!(app.tasks[1].status, TaskStatus::Undone);
}

#[test]
fn done_reference_inserts_after_last_undone() {
    let mut app = store_of(&[
        ("a", TaskStatus::Undone),
        ("b", TaskStatus::Pending),
        ("c", TaskStatus::Undone),
        ("d", TaskStatus::Done),
    ]);
    app.add_task("new".to_string(), Some(TaskStatus::Done), Some(3));
    assert_eq!(descriptions(&app), vec!["a", "b", "c", "new", "d"]);
    assert_eq!(app.tasks[3].status, TaskStatus::Undone);
}

#[test]
fn no_undone_task_inserts_at_front() {
    let mut app = store_of(&[("p", TaskStatus::Pending), ("d", TaskStatus::Done)]);
    app.add_task("new".to_string(), None, None);
    assert_eq!(descriptions(&app), vec!["new", "p", "d"]);
}

#[test]
fn add_task_at_keeps_given_time() {
    let mut app = TodoApp::new();
    let t = tasklist::task::Timestamp { secs: 1_700_000_000, nanos: 5, offset_secs: 3600 };
    app.add_task_at("x: a; b".to_string(), None, None, Some(t));
    assert_eq!(app.tasks.len(), 2);
    assert_eq!(app.tasks[0].created_at, Some(t));
    assert_eq!(app.tasks[1].created_at, Some(t));
}

#[test]
fn add_task_stamps_current_time() {
    let mut app = TodoApp::new();
    app.add_task("x".to_string(), None, None);
    let t = app.tasks[0].created_at.unwrap();
    assert!(t.secs > 1_600_000_000);
    assert!(t.nanos < 2_000_000_000);
}

fn rank(s: TaskStatus) -> u8 {
    match s {
        TaskStatus::Undone => 0,
        TaskStatus::Pending => 1,
        TaskStatus::Done => 2,
    }
}

#[test]
fn toggles_then_reorder_group_by_status_stably() {
    let mut app = store_of(&[
        ("d1", TaskStatus::Done),
        ("u1", TaskStatus::Undone),
        ("p1", TaskStatus::Pending),
        ("u2", TaskStatus::Undone),
        ("d2", TaskStatus::Done),
        ("p2", TaskStatus::Pending),
    ]);
    app.reorder_tasks();
    assert_eq!(descriptions(&app), vec!["u1", "u2", "p1", "p2", "d1", "d2"]);
    // u1 becomes done; it was first, so it leads the done group.
    app.toggle_task(0);
    assert_eq!(descriptions(&app), vec!["u2", "p1", "p2", "u1", "d1", "d2"]);
    // d2 becomes pending and joins the end of the pending group.
    app.toggle_pending(5);
    assert_eq!(descriptions(&app), vec!["u2", "p1", "p2", "d2", "u1", "d1"]);
    // p1 goes back to undone.
    app.toggle_pending(1);
    assert_eq!(descriptions(&app), vec!["u2", "p1", "p2", "d2", "u1", "d1"]);
    app.reorder_tasks();
    let st = statuses(&app);
    for i in 0..st.len() {
        for j in i + 1..st.len() {
            assert!(rank(st[i]) <= rank(st[j]));
        }
    }
    assert_eq!(
        st,
        vec![
            TaskStatus::Undone,
            TaskStatus::Undone,
            TaskStatus::Pending,
            TaskStatus::Pending,
            TaskStatus::Done,
            TaskStatus::Done
        ]
    );
}

#[test]
fn toggle_done_twice_returns_undone() {
    let mut app = store_of(&[("a", TaskStatus::Undone), ("b", TaskStatus::Undone)]);
    app.toggle_task(0);
    assert_eq!(descriptions(&app), vec!["b", "a"]);
    assert_eq!(app.tasks[1].status, TaskStatus::Done);
    let i = app.index_of_description(&"a".to_string()).unwrap();
    app.toggle_task(i);
    assert_eq!(app.tasks[app.index_of_description(&"a".to_string()).unwrap()].status, TaskStatus::Undone);
    assert_eq!(TaskStatus::Undone.toggle_done(), TaskStatus::Done);
    assert_eq!(TaskStatus::Done.toggle_done(), TaskStatus::Undone);
    assert_eq!(TaskStatus::Pending.toggle_done(), TaskStatus::Undone);
}

#[test]
fn toggle_pending_transitions() {
    assert_eq!(TaskStatus::Undone.toggle_pending(), TaskStatus::Pending);
    assert_eq!(TaskStatus::Pending.toggle_pending(), TaskStatus::Undone);
    assert_eq!(TaskStatus::Done.toggle_pending(), TaskStatus::Pending);
    let mut app = store_of(&[("a", TaskStatus::Pending)]);
    app.toggle_task(0);
    assert_eq!(app.tasks[0].status, TaskStatus::Undone);
}

#[test]
fn toggles_out_of_bounds_change_nothing() {
    let mut app = store_of(&[("b", TaskStatus::Done), ("a", TaskStatus::Undone)]);
    app.toggle_task(2);
    app.toggle_pending(7);
    assert_eq!(descriptions(&app), vec!["b", "a"]);
    assert_eq!(statuses(&app), vec![TaskStatus::Done, TaskStatus::Undone]);
}

#[test]
fn completion_counts_exclude_pending() {
    assert_eq!(TodoApp::new().completion_counts(), (0, 0));
    let only_pending = store_of(&[("a", TaskStatus::Pending), ("b", TaskStatus::Pending)]);
    assert_eq!(only_pending.completion_counts(), (0, 0));
    let all_done = store_of(&[("a", TaskStatus::Done), ("b", TaskStatus::Pending), ("c", TaskStatus::Done)]);
    assert_eq!(all_done.completion_counts(), (2, 0));
    let half = store_of(&[
        ("a", TaskStatus::Pending),
        ("b", TaskStatus::Done),
        ("c", TaskStatus::Pending),
        ("d", TaskStatus::Undone),
    ]);
    assert_eq!(half.completion_counts(), (1, 1));
}

#[test]
fn empty_filter_returns_everything() {
    let app = store_of(&[
        ("x", TaskStatus::Done),
        ("y", TaskStatus::Undone),
        ("x", TaskStatus::Pending),
    ]);
    let r = app.filter_tasks("");
    assert_eq!(r.len(), 3);
    let ds: Vec<String> = r.iter().map(|t| t.description.clone()).collect();
    assert_eq!(ds, vec!["x", "y", "x"]);
    assert_eq!(r[0].status, TaskStatus::Done);
    assert_eq!(r[2].status, TaskStatus::Pending);
}

#[test]
fn filter_is_case_sensitive_substring() {
    let app = store_of(&[
        ("Buy milk", TaskStatus::Undone),
        ("buy bread", TaskStatus::Undone),
        ("Call mum", TaskStatus::Done),
        ("milkshake", TaskStatus::Pending),
    ]);
    let ds: Vec<String> = app.filter_tasks("milk").iter().map(|t| t.description.clone()).collect();
    assert_eq!(ds, vec!["Buy milk", "milkshake"]);
    let ds: Vec<String> = app.filter_tasks("Buy").iter().map(|t| t.description.clone()).collect();
    assert_eq!(ds, vec!["Buy milk"]);
    assert!(app.filter_tasks("tea").is_empty());
    assert_eq!(app.tasks.len(), 4);
}

#[test]
fn delete_out_of_bounds_changes_nothing() {
    let mut app = store_of(&[("a", TaskStatus::Undone), ("b", TaskStatus::Done)]);
    app.delete_task(2);
    app.delete_task(usize::MAX);
    assert_eq!(descriptions(&app), vec!["a", "b"]);
    app.delete_task(0);
    assert_eq!(descriptions(&app), vec!["b"]);
}

#[test]
fn remove_completed_keeps_order_of_rest() {
    let mut app = store_of(&[
        ("t0", TaskStatus::Undone),
        ("t1", TaskStatus::Done),
        ("t2", TaskStatus::Pending),
        ("t3", TaskStatus::Done),
        ("t4", TaskStatus::Undone),
    ]);
    app.remove_done_tasks();
    assert_eq!(descriptions(&app), vec!["t0", "t2", "t4"]);
    assert_eq!(statuses(&app), vec![TaskStatus::Undone, TaskStatus::Pending, TaskStatus::Undone]);
}

#[test]
fn edit_keeps_status_and_ignores_bad_index() {
    let mut app = store_of(&[("a", TaskStatus::Pending), ("b", TaskStatus::Done)]);
    app.edit_task(1, "bee".to_string());
    app.edit_task(5, "none".to_string());
    assert_eq!(descriptions(&app), vec!["a", "bee"]);
    assert_eq!(statuses(&app), vec![TaskStatus::Pending, TaskStatus::Done]);
}

#[test]
fn duplicate_descriptions_resolve_to_first() {
    let app = store_of(&[
        ("other", TaskStatus::Undone),
        ("same", TaskStatus::Pending),
        ("same", TaskStatus::Done),
    ]);
    assert_eq!(app.index_of_description(&"same".to_string()), Some(1));
    assert_eq!(app.index_of_description(&"missing".to_string()), None);
}

#[test]
fn filtered_selection_resolves_to_collection_position() {
    let app = store_of(&[
        ("walk dog", TaskStatus::Undone),
        ("buy milk", TaskStatus::Undone),
        ("feed dog", TaskStatus::Pending),
        ("buy milk", TaskStatus::Done),
    ]);
    assert_eq!(app.resolve_filtered("dog", 0), Some(0));
    assert_eq!(app.resolve_filtered("dog", 1), Some(2));
    assert_eq!(app.resolve_filtered("dog", 2), None);
    // The second "buy milk" shares its description with the first, which wins.
    assert_eq!(app.resolve_filtered("milk", 1), Some(1));
    assert_eq!(app.resolve_filtered("", 3), Some(1));
    assert_eq!(app.resolve_filtered("cat", 0), None);
}
