use todo_service::http::Body;
use todo_service::todos::CreateTodo;
use todo_service::todos::Todo;
use todo_service::todos::TodoStore;

fn buy_milk() -> CreateTodo {
    CreateTodo { title: "Buy milk".to_string(), description: None }
}

#[test]
fn create_then_list_includes_new_todo() {
    let mut store = TodoStore::new();
    let req = CreateTodo {
        title: "Water plants".to_string(),
        description: Some("the ones on the balcony".to_string()),
    };
    let id = store.insert(&req);
    assert_eq!(id, 1);
    let listed = store.select_all();
    assert!(listed.iter().any(|t| {
        t.id == 1
            && t.title == "Water plants"
            && t.description.as_deref() == Some("the ones on the balcony")
            && t.status == "New"
    }));
}

#[test]
fn create_reply_has_created_status_and_echoes_fields() {
    let mut store = TodoStore::new();
    let req = buy_milk();
    let id = store.insert(&req);
    let reply = Todo::create_new_todo(&req, Ok(id));
    assert_eq!(reply.status, 201);
    match reply.body {
        Body::TodoItem(t) => {
            assert_eq!(t.id, 1);
            assert_eq!(t.title, "Buy milk");
            assert_eq!(t.description, None);
            assert_eq!(t.status, "New");
        }
        _ => panic!("expected a todo body"),
    }
}

#[test]
fn create_reply_narrows_an_oversized_insert_id() {
    let req = buy_milk();
    let reply = Todo::create_new_todo(&req, Ok((1u64 << 32) + 1));
    match reply.body {
        Body::TodoItem(t) => assert_eq!(t.id, 1),
        _ => panic!("expected a todo body"),
    }
}

#[test]
fn mark_completed_sets_status_unconditionally() {
    let mut store = TodoStore::new();
    store.insert(&buy_milk());
    let affected = store.mark_completed(1);
    assert_eq!(affected, 1);
    let listed = store.select_all();
    assert_eq!(listed.len(), 1);
    assert_eq!(listed[0].status, "Completed");
    let again = store.mark_completed(1);
    assert_eq!(again, 1);
    assert_eq!(store.select_all()[0].status, "Completed");
}

#[test]
fn mark_nonexistent_reports_the_same_status_as_existing() {
    let mut store = TodoStore::new();
    store.insert(&buy_milk());
    let affected_existing = store.mark_completed(1);
    let affected_missing = store.mark_completed(999);
    assert_eq!(affected_existing, 1);
    assert_eq!(affected_missing, 0);
    let st_existing = Todo::mark_todo_completed(Ok(affected_existing));
    let st_missing = Todo::mark_todo_completed(Ok(affected_missing));
    assert_eq!(st_existing, st_missing);
    assert_eq!(st_missing, 200);
}

#[test]
fn delete_then_list_never_includes_the_id() {
    let mut store = TodoStore::new();
    store.insert(&buy_milk());
    store.insert(&CreateTodo { title: "Second".to_string(), description: None });
    let affected = store.delete(1);
    assert_eq!(affected, 1);
    let listed = store.select_all();
    assert!(listed.iter().all(|t| t.id != 1));
    assert_eq!(listed.len(), 1);
    assert_eq!(listed[0].id, 2);
}

#[test]
fn delete_twice_reports_success_both_times() {
    let mut store = TodoStore::new();
    store.insert(&buy_milk());
    let first = store.delete(1);
    let second = store.delete(1);
    assert_eq!(first, 1);
    assert_eq!(second, 0);
    assert_eq!(Todo::delete_todo(Ok(first)), 200);
    assert_eq!(Todo::delete_todo(Ok(second)), 200);
    assert!(store.select_all().is_empty());
}

#[test]
fn list_reply_carries_all_rows() {
    let mut store = TodoStore::new();
    store.insert(&buy_milk());
    store.insert(&CreateTodo { title: "Second".to_string(), description: None });
    let reply = Todo::get_all_todos(Ok(store.select_all()));
    assert_eq!(reply.status, 200);
    match reply.body {
        Body::TodoList(ts) => {
            assert_eq!(ts.len(), 2);
            assert_eq!(ts[0].id, 1);
            assert_eq!(ts[1].id, 2);
        }
        _ => panic!("expected a todo list body"),
    }
}

#[test]
fn storage_errors_surface_as_server_error_with_raw_text() {
    let reply = Todo::get_all_todos(Err("connection reset".to_string()));
    assert_eq!(reply.status, 500);
    match reply.body {
        Body::Text(t) => assert_eq!(t, "connection reset"),
        _ => panic!("expected a text body"),
    }
    let reply = Todo::create_new_todo(&buy_milk(), Err("duplicate key".to_string()));
    assert_eq!(reply.status, 500);
    match reply.body {
        Body::Text(t) => assert_eq!(t, "duplicate key"),
        _ => panic!("expected a text body"),
    }
    assert_eq!(Todo::mark_todo_completed(Err("gone".to_string())), 500);
    assert_eq!(Todo::delete_todo(Err("gone".to_string())), 500);
}

#[test]
fn full_todo_lifecycle_scenario() {
    let mut store = TodoStore::new();

    let req = buy_milk();
    let id = store.insert(&req);
    let created = Todo::create_new_todo(&req, Ok(id));
    assert_eq!(created.status, 201);
    let n = match created.body {
        Body::TodoItem(t) => {
            assert_eq!(t.title, "Buy milk");
            assert_eq!(t.description, None);
            assert_eq!(t.status, "New");
            t.id
        }
        _ => panic!("expected a todo body"),
    };

    let affected = store.mark_completed(n);
    assert_eq!(Todo::mark_todo_completed(Ok(affected)), 200);

    let listed = store.select_all();
    assert!(listed.iter().any(|t| t.id == n && t.status == "Completed"));

    let affected = store.delete(n);
    assert_eq!(Todo::delete_todo(Ok(affected)), 200);

    let listed = store.select_all();
    assert!(listed.iter().all(|t| t.id != n));
}
