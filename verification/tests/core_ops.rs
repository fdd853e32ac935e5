use semidone::commands::{
    clear_all_data, create_task, delete_task, export_data, get_data_dir_path, get_settings,
    get_task_stats, get_tasks, import_data, update_settings, update_task,
};
use semidone::models::{
    ApiResponse, Attachment, CreateTaskRequest, Priority, Settings, Task, Theme,
    UpdateTaskRequest,
};
use semidone::storage::{LoadedDoc, Storage, StorageError};

fn empty_store() -> Storage {
    Storage::from_home("/tmp/home".to_string())
}

fn plain_request(title: &str, priority: Option<&str>) -> CreateTaskRequest {
    CreateTaskRequest {
        title: title.to_string(),
        description: None,
        priority: priority.map(|p| p.to_string()),
        due_date: None,
        attachments: None,
    }
}

fn no_op_update() -> UpdateTaskRequest {
    UpdateTaskRequest {
        title: None,
        description: None,
        completed: None,
        priority: None,
        due_date: None,
        attachments: None,
    }
}

#[test]
fn priority_codec() {
    assert_eq!(Priority::High.to_string(), "high");
    assert_eq!(Priority::Medium.to_string(), "medium");
    assert_eq!(Priority::Low.to_string(), "low");
    assert_eq!(Priority::from_string("high"), Priority::High);
    assert_eq!(Priority::from_string("medium"), Priority::Medium);
    assert_eq!(Priority::from_string("low"), Priority::Low);
    assert_eq!(Priority::from_string("urgent"), Priority::Medium);
    assert_eq!(Priority::from_string(""), Priority::Medium);
}

#[test]
fn theme_codec() {
    assert_eq!(Theme::Light.to_string(), "light");
    assert_eq!(Theme::Pink.to_string(), "pink");
    assert_eq!(Theme::from_string("light"), Theme::Light);
    assert_eq!(Theme::from_string("pink"), Theme::Pink);
    assert_eq!(Theme::from_string("dark"), Theme::Light);
}

#[test]
fn task_new_defaults() {
    let t = Task::new("write report".to_string(), None, None, None, None);
    assert!(!t.completed);
    assert_eq!(t.priority, Priority::Medium);
    assert_eq!(t.created_at, t.updated_at);
    assert!(!t.id.is_empty());
    assert_eq!(t.title, "write report");
    assert!(t.description.is_none());
    assert!(t.due_date.is_none());
    assert!(t.attachments.is_none());
}

#[test]
fn create_tasks_have_distinct_ids() {
    let mut store = empty_store();
    let n = 25;
    for i in 0..n {
        let r = create_task(&mut store, plain_request(&format!("task {}", i), None));
        assert!(r.success);
    }
    let tasks = store.load_tasks();
    assert_eq!(tasks.len(), n);
    for i in 0..n {
        for j in (i + 1)..n {
            assert_ne!(tasks[i].id, tasks[j].id);
        }
    }
}

#[test]
fn create_task_decodes_priority() {
    let mut store = empty_store();
    let r = create_task(&mut store, plain_request("a", Some("high")));
    assert_eq!(r.data.unwrap().priority, Priority::High);
    let r = create_task(&mut store, plain_request("b", Some("nonsense")));
    assert_eq!(r.data.unwrap().priority, Priority::Medium);
    let r = create_task(&mut store, plain_request("c", None));
    assert_eq!(r.data.unwrap().priority, Priority::Medium);
}

#[test]
fn partial_update_changes_only_completed() {
    let mut store = empty_store();
    let created = create_task(
        &mut store,
        CreateTaskRequest {
            title: "buy milk".to_string(),
            description: Some("two liters".to_string()),
            priority: Some("high".to_string()),
            due_date: Some("2026-01-01".to_string()),
            attachments: None,
        },
    )
    .data
    .unwrap();

    let mut updates = no_op_update();
    updates.completed = Some(true);
    let r = update_task(&mut store, created.id.clone(), updates);
    assert!(r.success);
    let updated = r.data.unwrap().expect("task should be found");

    assert!(updated.completed);
    assert_eq!(updated.id, created.id);
    assert_eq!(updated.title, created.title);
    assert_eq!(updated.description, created.description);
    assert_eq!(updated.priority, created.priority);
    assert_eq!(updated.due_date, created.due_date);
    assert_eq!(updated.created_at, created.created_at);
    assert_eq!(updated.attachments, created.attachments);

    let tasks = store.load_tasks();
    assert_eq!(tasks.len(), 1);
    assert!(tasks[0].completed);
    assert_eq!(tasks[0].title, "buy milk");
}

#[test]
fn update_replaces_present_fields() {
    let mut store = empty_store();
    let created = create_task(&mut store, plain_request("old title", Some("low"))).data.unwrap();
    let updates = UpdateTaskRequest {
        title: Some("new title".to_string()),
        description: Some("added".to_string()),
        completed: None,
        priority: Some("high".to_string()),
        due_date: Some("2026-02-02".to_string()),
        attachments: None,
    };
    let updated = update_task(&mut store, created.id.clone(), updates).data.unwrap().unwrap();
    assert_eq!(updated.title, "new title");
    assert_eq!(updated.description, Some("added".to_string()));
    assert_eq!(updated.priority, Priority::High);
    assert_eq!(updated.due_date, Some("2026-02-02".to_string()));
    assert!(!updated.completed);
    assert_eq!(updated.created_at, created.created_at);
}

#[test]
fn update_not_found_leaves_store_unchanged() {
    let mut store = empty_store();
    create_task(&mut store, plain_request("keep me", None));
    let before = store.load_tasks();

    let r = update_task(&mut store, "nonexistent-id".to_string(), no_op_update());
    assert!(r.success);
    assert!(r.error.is_none());
    assert_eq!(r.data, Some(None));

    let after = store.load_tasks();
    assert_eq!(before, after);
}

#[test]
fn delete_idempotence() {
    let mut store = empty_store();
    let created = create_task(&mut store, plain_request("to delete", None)).data.unwrap();
    create_task(&mut store, plain_request("to keep", None));
    let len_before = store.load_tasks().len();

    let first = store.delete_task(&created.id);
    assert!(first);
    assert_eq!(store.load_tasks().len(), len_before - 1);

    let second = store.delete_task(&created.id);
    assert!(!second);
    assert_eq!(store.load_tasks().len(), len_before - 1);
}

#[test]
fn delete_command_envelopes() {
    let mut store = empty_store();
    let created = create_task(&mut store, plain_request("ephemeral", None)).data.unwrap();
    let r = delete_task(&mut store, created.id.clone());
    assert!(r.success);
    assert_eq!(r.data, Some(true));
    let r = delete_task(&mut store, created.id);
    assert!(!r.success);
    assert!(r.data.is_none());
    assert_eq!(r.error, Some("待办不存在".to_string()));
}

#[test]
fn corruption_tolerance_yields_empty_collection() {
    let from_malformed = semidone::storage::tasks_from_disk(LoadedDoc::Malformed);
    assert!(from_malformed.is_empty());
    let from_missing = semidone::storage::tasks_from_disk(LoadedDoc::Missing);
    assert!(from_missing.is_empty());
    let parsed = semidone::storage::tasks_from_disk(LoadedDoc::Parsed(vec![Task::new(
        "kept".to_string(),
        None,
        None,
        None,
        None,
    )]));
    assert_eq!(parsed.len(), 1);
    assert_eq!(parsed[0].title, "kept");
}

#[test]
fn stats_scenario() {
    let mut store = empty_store();
    let created = create_task(&mut store, plain_request("one", Some("high"))).data.unwrap();
    let mut done = no_op_update();
    done.completed = Some(true);
    update_task(&mut store, created.id, done);
    create_task(&mut store, plain_request("two", Some("medium")));
    create_task(&mut store, plain_request("three", Some("low")));

    let stats = get_task_stats(&store).data.unwrap();
    assert_eq!(stats.total, 3);
    assert_eq!(stats.completed, 1);
    assert_eq!(stats.pending, 2);
    assert_eq!(stats.high_priority, 1);
    assert_eq!(stats.medium_priority, 1);
    assert_eq!(stats.low_priority, 1);
}

#[test]
fn stats_of_empty_collection() {
    let store = empty_store();
    let stats = get_task_stats(&store).data.unwrap();
    assert_eq!(stats.total, 0);
    assert_eq!(stats.completed, 0);
    assert_eq!(stats.pending, 0);
    assert_eq!(stats.high_priority, 0);
    assert_eq!(stats.medium_priority, 0);
    assert_eq!(stats.low_priority, 0);
}

#[test]
fn settings_default_fill() {
    let (settings, persist) = semidone::storage::settings_from_disk(LoadedDoc::Missing);
    assert!(persist);
    assert_eq!(settings.theme, "light");
    assert!(settings.notifications);
    assert!(settings.auto_save);
    assert!(!settings.is_pinned);
    assert!(!settings.is_collapsed);
    assert!(settings.username.is_none());
    assert!(settings.avatar.is_none());

    let (settings, persist) = semidone::storage::settings_from_disk(LoadedDoc::Malformed);
    assert!(!persist);
    assert_eq!(settings.theme, "light");

    let stored = Settings {
        theme: "pink".to_string(),
        notifications: false,
        auto_save: false,
        is_pinned: true,
        is_collapsed: true,
        username: Some("ada".to_string()),
        avatar: None,
    };
    let (settings, persist) = semidone::storage::settings_from_disk(LoadedDoc::Parsed(stored));
    assert!(!persist);
    assert_eq!(settings.theme, "pink");
    assert!(!settings.notifications);
    assert_eq!(settings.username, Some("ada".to_string()));
}

#[test]
fn settings_round_trip_in_store() {
    let mut store = empty_store();
    let new_settings = Settings {
        theme: "pink".to_string(),
        notifications: false,
        auto_save: true,
        is_pinned: true,
        is_collapsed: false,
        username: Some("grace".to_string()),
        avatar: Some("cat.png".to_string()),
    };
    let r = update_settings(&mut store, new_settings);
    assert!(r.success);
    let echoed = r.data.unwrap();
    assert_eq!(echoed.theme, "pink");
    let loaded = get_settings(&store).data.unwrap();
    assert_eq!(loaded, echoed);
}

#[test]
fn save_then_load_yields_equal_collection() {
    let mut store = empty_store();
    let tasks = vec![
        Task::new("alpha".to_string(), Some("first".to_string()), Some(Priority::High), None, None),
        Task::new(
            "beta".to_string(),
            None,
            Some(Priority::Low),
            Some("2026-03-03".to_string()),
            Some(vec![Attachment {
                id: "att-1".to_string(),
                name: "notes.txt".to_string(),
                size: 12,
                file_type: "text/plain".to_string(),
                data: "aGVsbG8=".to_string(),
                created_at: "2026-01-01T00:00:00+00:00".to_string(),
            }]),
        ),
    ];
    store.save_tasks(tasks.clone());
    let loaded = store.load_tasks();
    assert_eq!(loaded, tasks);
}

#[test]
fn import_and_clear() {
    let mut store = empty_store();
    create_task(&mut store, plain_request("before import", None));

    let imported = vec![Task::new("imported".to_string(), None, None, None, None)];
    let r = import_data(&mut store, Ok(imported.clone()));
    assert!(r.success);
    assert_eq!(r.data, Some(true));
    assert_eq!(store.load_tasks(), imported);

    let r = import_data(&mut store, Err("bad input".to_string()));
    assert!(!r.success);
    assert_eq!(r.error, Some("解析数据失败: bad input".to_string()));
    assert_eq!(store.load_tasks(), imported);

    let r = clear_all_data(&mut store);
    assert!(r.success);
    assert!(store.load_tasks().is_empty());
}

#[test]
fn data_dir_resolution() {
    let store = Storage::from_home("/home/ada".to_string());
    assert_eq!(store.get_data_dir_path(), "/home/ada/.todo-app");
    let r = get_data_dir_path(&store);
    assert!(r.success);
    assert_eq!(r.data, Some("/home/ada/.todo-app".to_string()));
}

#[test]
fn storage_error_messages() {
    assert_eq!(StorageError::DirectoryResolution.message(), "无法获取用户主目录");
    assert_eq!(StorageError::Io("disk full".to_string()).message(), "disk full");
}

#[test]
fn envelope_shapes() {
    let ok: ApiResponse<u32> = ApiResponse::success(7);
    assert!(ok.success);
    assert_eq!(ok.data, Some(7));
    assert!(ok.error.is_none());

    let err: ApiResponse<u32> = ApiResponse::error("boom".to_string());
    assert!(!err.success);
    assert!(err.data.is_none());
    assert_eq!(err.error, Some("boom".to_string()));
}

#[test]
fn get_tasks_returns_collection_in_order() {
    let mut store = empty_store();
    create_task(&mut store, plain_request("first", None));
    create_task(&mut store, plain_request("second", None));
    let r = get_tasks(&store);
    assert!(r.success);
    let tasks = r.data.unwrap();
    assert_eq!(tasks.len(), 2);
    assert_eq!(tasks[0].title, "first");
    assert_eq!(tasks[1].title, "second");
}

#[test]
fn export_of_empty_collection() {
    let store = empty_store();
    let r = export_data(&store);
    assert!(r.success);
    assert_eq!(r.data, Some("[]".to_string()));
}
