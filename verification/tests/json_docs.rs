use semidone::json::{settings_from_json, settings_to_json, tasks_from_json, tasks_to_json};
use semidone::models::{Attachment, Priority, Settings, Task};

fn task(id: &str, title: &str) -> Task {
    Task {
        id: id.to_string(),
        title: title.to_string(),
        description: None,
        completed: false,
        priority: Priority::Medium,
        due_date: None,
        created_at: "2026-01-01T00:00:00+00:00".to_string(),
        updated_at: "2026-01-01T00:00:00+00:00".to_string(),
        attachments: None,
    }
}

#[test]
fn tasks_document_exact_text() {
    let t = Task {
        id: "t1".to_string(),
        title: "hello".to_string(),
        description: Some("world".to_string()),
        completed: true,
        priority: Priority::High,
        due_date: None,
        created_at: "c".to_string(),
        updated_at: "u".to_string(),
        attachments: None,
    };
    let json = tasks_to_json(&vec![t]);
    assert_eq!(
        json,
        "[{\"id\":\"t1\",\"title\":\"hello\",\"description\":\"world\",\"completed\":true,\
         \"priority\":\"high\",\"due_date\":null,\"created_at\":\"c\",\"updated_at\":\"u\"}]"
    );
}

#[test]
fn tasks_document_escapes_strings() {
    let mut t = task("t2", "say \"hi\" \\ twice\nplease");
    t.due_date = Some("2026-02-02".to_string());
    let json = tasks_to_json(&vec![t]);
    assert!(json.contains("say \\\"hi\\\" \\\\ twice\\u000aplease"));
    assert!(json.contains("\"due_date\":\"2026-02-02\""));
}

#[test]
fn tasks_document_with_attachments() {
    let mut t = task("t3", "with file");
    t.attachments = Some(vec![Attachment {
        id: "a1".to_string(),
        name: "notes.txt".to_string(),
        size: 42,
        file_type: "text/plain".to_string(),
        data: "aGVsbG8=".to_string(),
        created_at: "c".to_string(),
    }]);
    let json = tasks_to_json(&vec![t]);
    assert!(json.contains(
        "\"attachments\":[{\"id\":\"a1\",\"name\":\"notes.txt\",\"size\":42,\
         \"type\":\"text/plain\",\"data\":\"aGVsbG8=\",\"created_at\":\"c\"}]"
    ));
}

#[test]
fn tasks_document_omits_absent_attachments() {
    let json = tasks_to_json(&vec![task("t4", "bare")]);
    assert!(!json.contains("attachments"));
}

#[test]
fn tasks_document_parses_back_with_equal_fields() {
    let mut first = task("id-1", "round \"trip\" \\ test\n");
    first.description = Some("desc".to_string());
    first.completed = true;
    first.priority = Priority::Low;
    let mut second = task("id-2", "plain");
    second.attachments = Some(vec![Attachment {
        id: "a9".to_string(),
        name: "img".to_string(),
        size: 9007199254740993,
        file_type: "image/png".to_string(),
        data: "xyz".to_string(),
        created_at: "c9".to_string(),
    }]);
    let originals = vec![first, second];
    let json = tasks_to_json(&originals);

    let value: serde_json::Value = serde_json::from_str(&json).expect("writer must emit JSON");
    let arr = value.as_array().expect("document is an array");
    assert_eq!(arr.len(), 2);

    assert_eq!(arr[0]["id"].as_str(), Some("id-1"));
    assert_eq!(arr[0]["title"].as_str(), Some("round \"trip\" \\ test\n"));
    assert_eq!(arr[0]["description"].as_str(), Some("desc"));
    assert_eq!(arr[0]["completed"].as_bool(), Some(true));
    assert_eq!(arr[0]["priority"].as_str(), Some("low"));
    assert!(arr[0]["due_date"].is_null());
    assert_eq!(arr[0]["created_at"].as_str(), Some("2026-01-01T00:00:00+00:00"));
    assert!(arr[0].get("attachments").is_none());

    assert_eq!(arr[1]["id"].as_str(), Some("id-2"));
    let atts = arr[1]["attachments"].as_array().expect("attachments present");
    assert_eq!(atts.len(), 1);
    assert_eq!(atts[0]["id"].as_str(), Some("a9"));
    assert_eq!(atts[0]["size"].as_u64(), Some(9007199254740993));
    assert_eq!(atts[0]["type"].as_str(), Some("image/png"));
}

#[test]
fn tasks_document_full_round_trip() {
    let mut first = task("id-1", "escape \"this\" \\ and\nthat \u{7} end");
    first.description = Some("多行\n描述".to_string());
    first.completed = true;
    first.priority = Priority::High;
    first.due_date = Some("2026-05-05".to_string());
    let mut second = task("id-2", "with attachments");
    second.attachments = Some(vec![
        Attachment {
            id: "a1".to_string(),
            name: "first file".to_string(),
            size: 0,
            file_type: "text/plain".to_string(),
            data: "AAAA".to_string(),
            created_at: "c1".to_string(),
        },
        Attachment {
            id: "a2".to_string(),
            name: "second \"file\"".to_string(),
            size: u64::MAX,
            file_type: "application/octet-stream".to_string(),
            data: "BBBB".to_string(),
            created_at: "c2".to_string(),
        },
    ]);
    let third = task("id-3", "plain");
    let originals = vec![first, second, third];

    let json = tasks_to_json(&originals);
    let reparsed = tasks_from_json(&json).expect("reader must accept the writer's text");
    assert_eq!(reparsed, originals);

    let empty = tasks_from_json(&tasks_to_json(&Vec::new())).expect("empty round trip");
    assert!(empty.is_empty());
}

#[test]
fn reader_is_strict() {
    assert!(tasks_from_json("").is_none());
    assert!(tasks_from_json("not json at all").is_none());
    assert!(tasks_from_json("{\"theme\":\"light\"}").is_none());
    assert!(tasks_from_json("[]").map_or(false, |v| v.is_empty()));
    assert!(tasks_from_json("[] ").is_none());
    assert!(tasks_from_json("[ ]").is_none());
    // Another writer's layout (spaces after colons) is not the canonical text.
    assert!(tasks_from_json("[{\"id\": \"t\"}]").is_none());
}

#[test]
fn settings_document_exact_text() {
    let json = settings_to_json(&Settings::default());
    assert_eq!(
        json,
        "{\"theme\":\"light\",\"notifications\":true,\"autoSave\":true,\
         \"isPinned\":false,\"isCollapsed\":false}"
    );
}

#[test]
fn settings_document_with_optional_fields() {
    let s = Settings {
        theme: "pink".to_string(),
        notifications: false,
        auto_save: false,
        is_pinned: true,
        is_collapsed: true,
        username: Some("ada".to_string()),
        avatar: Some("a.png".to_string()),
    };
    let json = settings_to_json(&s);
    assert_eq!(
        json,
        "{\"theme\":\"pink\",\"notifications\":false,\"autoSave\":false,\
         \"isPinned\":true,\"isCollapsed\":true,\"username\":\"ada\",\"avatar\":\"a.png\"}"
    );
    let value: serde_json::Value = serde_json::from_str(&json).expect("writer must emit JSON");
    assert_eq!(value["username"].as_str(), Some("ada"));
    assert_eq!(value["isPinned"].as_bool(), Some(true));
}

#[test]
fn settings_document_round_trip() {
    let originals = Settings {
        theme: "pink".to_string(),
        notifications: true,
        auto_save: false,
        is_pinned: false,
        is_collapsed: true,
        username: Some("林黛玉".to_string()),
        avatar: None,
    };
    let reparsed = settings_from_json(&settings_to_json(&originals))
        .expect("reader must accept the writer's text");
    assert_eq!(reparsed, originals);

    let defaults = settings_from_json(&settings_to_json(&Settings::default()))
        .expect("defaults round trip");
    assert_eq!(defaults, Settings::default());

    assert!(settings_from_json("").is_none());
    assert!(settings_from_json("{}").is_none());
    assert!(settings_from_json("[]").is_none());
}
