//! Request gateway: wraps every store operation in the uniform
//! `{success, data, error}` envelope. Internal errors never cross this
//! boundary as structured values — they are flattened into a user-facing
//! message string.
//!
//! The embedding program serializes access to the shared store (one
//! exclusive lock around each call here) and persists the documents after
//! every mutating call.

use vstd::prelude::*;
use vstd::string::StringExecFns;
use crate::models::{
    ApiResponse, CreateTaskRequest, Priority, Settings, Task, TaskStats, TaskView,
    UpdateTaskRequest, created_from,
};
use crate::storage::{Storage, contains_id, remove_id, stats_correct, update_applied};

verus! {

/// The full task collection, insertion order as stored.
pub fn get_tasks(storage: &Storage) -> (r: ApiResponse<Vec<Task>>)
    ensures
        r.success,
        r.error is None,
        (match r.data {
            Some(ts) => ts.deep_view() == storage@.tasks,
            None => false,
        }),
{
    ApiResponse::success(storage.load_tasks())
}

/// Creates a task from the request and appends it to the collection.
pub fn create_task(storage: &mut Storage, request: CreateTaskRequest) -> (r: ApiResponse<Task>)
    ensures
        r.success,
        r.error is None,
        (match r.data {
            Some(t) => created_from(t@, request@) && final(storage)@.tasks == old(
                storage,
            )@.tasks.push(t@),
            None => false,
        }),
        final(storage)@.settings == old(storage)@.settings,
        final(storage)@.data_dir == old(storage)@.data_dir,
{
    let CreateTaskRequest { title, description, priority, due_date, attachments } = request;
    let p = match &priority {
        Some(ps) => Priority::from_string(ps.as_str()),
        None => Priority::Medium,
    };
    let task = Task::new(title, description, Some(p), due_date, attachments);
    let created = storage.add_task(task);
    ApiResponse::success(created)
}

/// Applies a partial update to the task with this id. A missing id is a
/// normal outcome: the envelope succeeds carrying `None` and the store is
/// left untouched.
pub fn update_task(storage: &mut Storage, id: String, updates: UpdateTaskRequest) -> (r:
    ApiResponse<Option<Task>>)
    ensures
        r.success,
        r.error is None,
        (match r.data {
            Some(opt) => match opt {
                Some(t) => update_applied(
                    old(storage)@.tasks,
                    final(storage)@.tasks,
                    id@,
                    updates@,
                    t@,
                ),
                None => final(storage)@ == old(storage)@ && !contains_id(
                    old(storage)@.tasks,
                    id@,
                ),
            },
            None => false,
        }),
        final(storage)@.settings == old(storage)@.settings,
        final(storage)@.data_dir == old(storage)@.data_dir,
{
    let result = storage.update_task(id.as_str(), &updates);
    ApiResponse::success(result)
}

/// Deletes the task with this id. Deleting an absent id leaves the
/// collection as it was; the store reports that as a normal outcome (a
/// false boolean), and this UI-facing boundary deliberately renders it as
/// an error envelope with a message, so the user sees why nothing changed.
pub fn delete_task(storage: &mut Storage, id: String) -> (r: ApiResponse<bool>)
    ensures
        final(storage)@.tasks == remove_id(old(storage)@.tasks, id@),
        final(storage)@.settings == old(storage)@.settings,
        final(storage)@.data_dir == old(storage)@.data_dir,
        contains_id(old(storage)@.tasks, id@) ==> r.success && r.data == Some(true) && r.error
            is None,
        !contains_id(old(storage)@.tasks, id@) ==> !r.success && r.data is None && (match r.error {
            Some(m) => m@ == "待办不存在"@,
            None => false,
        }),
{
    let deleted = storage.delete_task(id.as_str());
    if deleted {
        ApiResponse::success(true)
    } else {
        ApiResponse::error("待办不存在".to_string())
    }
}

/// The statistics of the current collection.
pub fn get_task_stats(storage: &Storage) -> (r: ApiResponse<TaskStats>)
    ensures
        r.success,
        r.error is None,
        (match r.data {
            Some(st) => stats_correct(storage@.tasks, st),
            None => false,
        }),
{
    let tasks = storage.load_tasks();
    let stats = storage.get_task_stats(&tasks);
    ApiResponse::success(stats)
}

/// The current settings document.
pub fn get_settings(storage: &Storage) -> (r: ApiResponse<Settings>)
    ensures
        r.success,
        r.error is None,
        (match r.data {
            Some(s) => s@ == storage@.settings,
            None => false,
        }),
{
    ApiResponse::success(storage.load_settings())
}

/// Replaces the settings document wholesale and echoes it back.
pub fn update_settings(storage: &mut Storage, settings: Settings) -> (r: ApiResponse<Settings>)
    ensures
        final(storage)@.settings == settings@,
        final(storage)@.tasks == old(storage)@.tasks,
        final(storage)@.data_dir == old(storage)@.data_dir,
        r.success,
        r.error is None,
        (match r.data {
            Some(s) => s@ == settings@,
            None => false,
        }),
{
    let stored = settings.clone();
    storage.save_settings(stored);
    ApiResponse::success(settings)
}

/// The whole task collection rendered as its JSON document text.
pub fn export_data(storage: &Storage) -> (r: ApiResponse<String>)
    ensures
        r.success,
        r.error is None,
        (match r.data {
            Some(j) => j@ == crate::json::json_of_tasks(storage@.tasks),
            None => false,
        }),
{
    let tasks = storage.load_tasks();
    ApiResponse::success(crate::json::tasks_to_json(&tasks))
}

/// Replaces the whole task collection with an imported one. `parsed` is the
/// outcome of decoding the caller-supplied text: a decoding failure (with
/// its error text) leaves the store untouched and is reported in the
/// envelope.
pub fn import_data(storage: &mut Storage, parsed: Result<Vec<Task>, String>) -> (r: ApiResponse<
    bool,
>)
    ensures
        (match parsed {
            Ok(ts) => {
                &&& final(storage)@.tasks == ts.deep_view()
                &&& r.success
                &&& r.data == Some(true)
                &&& r.error is None
            },
            Err(e) => {
                &&& final(storage)@ == old(storage)@
                &&& !r.success
                &&& r.data is None
                &&& (match r.error {
                    Some(m) => m@ == "解析数据失败: "@ + e@,
                    None => false,
                })
            },
        }),
        final(storage)@.settings == old(storage)@.settings,
        final(storage)@.data_dir == old(storage)@.data_dir,
{
    match parsed {
        Ok(ts) => {
            storage.save_tasks(ts);
            ApiResponse::success(true)
        },
        Err(e) => {
            let mut m = "解析数据失败: ".to_string();
            m.append(e.as_str());
            ApiResponse::error(m)
        },
    }
}

/// Empties the task collection.
pub fn clear_all_data(storage: &mut Storage) -> (r: ApiResponse<bool>)
    ensures
        final(storage)@.tasks == Seq::<TaskView>::empty(),
        final(storage)@.settings == old(storage)@.settings,
        final(storage)@.data_dir == old(storage)@.data_dir,
        r.success,
        r.data == Some(true),
        r.error is None,
{
    let empty: Vec<Task> = Vec::new();
    proof {
        assert(empty.deep_view() =~= Seq::<TaskView>::empty());
    }
    storage.save_tasks(empty);
    ApiResponse::success(true)
}

/// The absolute path of the data directory.
pub fn get_data_dir_path(storage: &Storage) -> (r: ApiResponse<String>)
    ensures
        r.success,
        r.error is None,
        (match r.data {
            Some(p) => p@ == storage@.data_dir,
            None => false,
        }),
{
    ApiResponse::success(storage.get_data_dir_path())
}

} // verus!
