//! The document store: holds the two in-memory documents (the task
//! collection and the settings object) together with the resolved data
//! directory, and implements the read-modify-write task operations.
//!
//! Reading and writing the documents on disk is the embedding program's
//! job: it hydrates the store from what it read (through the lenient-read
//! policy functions here) and persists the documents the store hands back.

use vstd::prelude::*;
use vstd::string::StringExecFns;
use crate::models::{
    Priority, Settings, SettingsView, Task, TaskStats, TaskView, UpdateTaskRequest,
    applies_update, clone_attachments, is_default_settings, same_but_updated_at, str_eq,
};

verus! {

/// The collection invariant: no two tasks carry the same id.
pub open spec fn ids_unique(s: Seq<TaskView>) -> bool {
    forall|i: int, j: int| #![trigger s[i], s[j]] 0 <= i < j < s.len() ==> s[i].id != s[j].id
}

/// True when some task in `s` carries this id.
pub open spec fn contains_id(s: Seq<TaskView>, id: Seq<char>) -> bool {
    exists|i: int| 0 <= i < s.len() && #[trigger] s[i].id == id
}

/// The collection with every task of this id removed, order kept.
pub open spec fn remove_id(s: Seq<TaskView>, id: Seq<char>) -> Seq<TaskView>
    decreases s.len(),
{
    if s.len() == 0 {
        Seq::<TaskView>::empty()
    } else {
        let rest = remove_id(s.drop_last(), id);
        if s.last().id == id {
            rest
        } else {
            rest.push(s.last())
        }
    }
}

/// How many tasks in `s` are completed.
pub open spec fn count_completed(s: Seq<TaskView>) -> nat
    decreases s.len(),
{
    if s.len() == 0 {
        0
    } else {
        count_completed(s.drop_last()) + if s.last().completed {
            1nat
        } else {
            0nat
        }
    }
}

/// How many tasks in `s` carry this priority.
pub open spec fn count_priority(s: Seq<TaskView>, p: Priority) -> nat
    decreases s.len(),
{
    if s.len() == 0 {
        0
    } else {
        count_priority(s.drop_last(), p) + if s.last().priority == p {
            1nat
        } else {
            0nat
        }
    }
}

/// True when `after` is `before` with the partial update `u` applied to the
/// first task carrying `id`, that task's new value being `t`.
pub open spec fn update_applied(
    before: Seq<TaskView>,
    after: Seq<TaskView>,
    id: Seq<char>,
    u: crate::models::UpdateTaskRequestView,
    t: TaskView,
) -> bool {
    exists|i: int|
        {
            &&& 0 <= i < before.len()
            &&& (#[trigger] before[i]).id == id
            &&& forall|j: int| 0 <= j < i ==> before[j].id != id
            &&& applies_update(before[i], u, t)
            &&& after == before.update(i, t)
        }
}

/// True when `st` holds exactly the counts of `s`.
pub open spec fn stats_correct(s: Seq<TaskView>, st: TaskStats) -> bool {
    &&& st.total == s.len()
    &&& st.completed == count_completed(s)
    &&& st.pending == s.len() - count_completed(s)
    &&& st.high_priority == count_priority(s, Priority::High)
    &&& st.medium_priority == count_priority(s, Priority::Medium)
    &&& st.low_priority == count_priority(s, Priority::Low)
}

/// Splitting off the last element splits `contains_id`.
pub proof fn lemma_contains_id_step(s: Seq<TaskView>, id: Seq<char>)
    requires
        s.len() > 0,
    ensures
        contains_id(s, id) == (contains_id(s.drop_last(), id) || s.last().id == id),
{
    if contains_id(s, id) {
        let i = choose|i: int| 0 <= i < s.len() && #[trigger] s[i].id == id;
        if i < s.len() - 1 {
            assert(s.drop_last()[i].id == id);
        }
    }
    if contains_id(s.drop_last(), id) {
        let i = choose|i: int| 0 <= i < s.drop_last().len() && #[trigger] s.drop_last()[i].id == id;
        assert(s[i].id == id);
    }
}

/// What a document read from disk looked like: absent, present but not a
/// valid document, or parsed.
pub enum LoadedDoc<T> {
    Missing,
    Malformed,
    Parsed(T),
}

/// Lenient-read policy for the tasks document: a missing or malformed file
/// yields the empty collection instead of an error. This deliberately
/// prioritizes availability over strict validation; it can silently drop
/// data if the file was merely transiently truncated.
pub fn tasks_from_disk(doc: LoadedDoc<Vec<Task>>) -> (r: Vec<Task>)
    ensures
        (match doc {
            LoadedDoc::Parsed(ts) => r.deep_view() == ts.deep_view(),
            _ => r.deep_view() == Seq::<TaskView>::empty(),
        }),
{
    match doc {
        LoadedDoc::Parsed(ts) => ts,
        _ => {
            let r: Vec<Task> = Vec::new();
            proof {
                assert(r.deep_view() =~= Seq::<TaskView>::empty());
            }
            r
        },
    }
}

/// Lenient-read policy for the settings document. A missing file yields the
/// defaults, and the second component is true: the caller must persist them
/// at once. A malformed file yields the defaults in memory only (the file
/// is not rewritten); a parsed document is taken as is.
pub fn settings_from_disk(doc: LoadedDoc<Settings>) -> (r: (Settings, bool))
    ensures
        (match doc {
            LoadedDoc::Parsed(s) => r.0@ == s@ && !r.1,
            LoadedDoc::Missing => is_default_settings(r.0@) && r.1,
            LoadedDoc::Malformed => is_default_settings(r.0@) && !r.1,
        }),
{
    match doc {
        LoadedDoc::Parsed(s) => (s, false),
        LoadedDoc::Missing => (Settings::default(), true),
        LoadedDoc::Malformed => (Settings::default(), false),
    }
}

/// An error of the store itself.
pub enum StorageError {
    /// The platform cannot report a home directory; fatal at startup.
    DirectoryResolution,
    /// A read or write on a document failed; carries the OS error text.
    Io(String),
}

impl StorageError {
    pub fn message(&self) -> (r: String)
        ensures
            (match self {
                StorageError::DirectoryResolution => r@ == "无法获取用户主目录"@,
                StorageError::Io(m) => r@ == m@,
            }),
    {
        match self {
            StorageError::DirectoryResolution => "无法获取用户主目录".to_string(),
            StorageError::Io(m) => m.clone(),
        }
    }
}

/// Relies on dirs::home_dir: the platform's home directory, if it can be
/// resolved. Nothing is promised of its value.
#[verifier::external_body]
fn home_dir_string() -> Option<String> {
    dirs::home_dir().map(|p| p.to_string_lossy().to_string())
}

pub(crate) fn clone_tasks(v: &Vec<Task>) -> (r: Vec<Task>)
    ensures
        r.deep_view() == v.deep_view(),
{
    let mut r: Vec<Task> = Vec::new();
    let mut i: usize = 0;
    while i < v.len()
        invariant
            i <= v.len(),
            r.deep_view() =~= v.deep_view().subrange(0, i as int),
        decreases v.len() - i,
    {
        let ghost prev = r.deep_view();
        let c = v[i].clone();
        r.push(c);
        proof {
            assert(r@.last() == c);
            assert(r.deep_view() =~= prev.push(c@));
            assert(r.deep_view() =~= v.deep_view().subrange(0, (i + 1) as int));
        }
        i = i + 1;
    }
    proof {
        assert(r.deep_view() =~= v.deep_view());
    }
    r
}

/// The in-memory document store.
pub struct Storage {
    pub data_dir: String,
    pub tasks: Vec<Task>,
    pub settings: Settings,
}

/// The mathematical value of the store.
pub ghost struct StorageView {
    pub data_dir: Seq<char>,
    pub tasks: Seq<TaskView>,
    pub settings: SettingsView,
}

impl View for Storage {
    type V = StorageView;

    open spec fn view(&self) -> StorageView {
        StorageView {
            data_dir: self.data_dir@,
            tasks: self.tasks.deep_view(),
            settings: self.settings@,
        }
    }
}

impl Storage {
    /// A store over the data directory `<home>/.todo-app`, with an empty
    /// task collection and the default settings; the caller hydrates the
    /// documents from disk afterwards.
    pub fn from_home(home: String) -> (s: Storage)
        ensures
            s@.data_dir == home@ + "/.todo-app"@,
            s@.tasks == Seq::<TaskView>::empty(),
            is_default_settings(s@.settings),
    {
        let mut dir = home;
        dir.append("/.todo-app");
        let tasks: Vec<Task> = Vec::new();
        proof {
            assert(tasks.deep_view() =~= Seq::<TaskView>::empty());
        }
        Storage { data_dir: dir, tasks, settings: Settings::default() }
    }

    /// Resolves the per-user data directory and constructs the store; fails
    /// exactly when the platform reports no home directory.
    pub fn new() -> (r: Result<Storage, StorageError>)
        ensures
            (match r {
                Ok(s) => {
                    &&& s@.tasks == Seq::<TaskView>::empty()
                    &&& is_default_settings(s@.settings)
                    &&& exists|h: Seq<char>| s@.data_dir == h + "/.todo-app"@
                },
                Err(e) => e is DirectoryResolution,
            }),
    {
        match home_dir_string() {
            Some(home) => {
                let ghost h = home@;
                let s = Storage::from_home(home);
                proof {
                    assert(s@.data_dir == h + "/.todo-app"@);
                }
                Ok(s)
            },
            None => Err(StorageError::DirectoryResolution),
        }
    }

    /// The data directory as text.
    pub fn get_data_dir_path(&self) -> (r: String)
        ensures
            r@ == self@.data_dir,
    {
        self.data_dir.clone()
    }

    /// The current task collection, insertion order kept.
    pub fn load_tasks(&self) -> (r: Vec<Task>)
        ensures
            r.deep_view() == self@.tasks,
    {
        clone_tasks(&self.tasks)
    }

    /// Replaces the whole task collection.
    pub fn save_tasks(&mut self, tasks: Vec<Task>)
        ensures
            final(self)@.tasks == tasks.deep_view(),
            final(self)@.settings == old(self)@.settings,
            final(self)@.data_dir == old(self)@.data_dir,
    {
        self.tasks = tasks;
    }

    /// The current settings document.
    pub fn load_settings(&self) -> (r: Settings)
        ensures
            r@ == self@.settings,
    {
        self.settings.clone()
    }

    /// Replaces the settings document wholesale.
    pub fn save_settings(&mut self, settings: Settings)
        ensures
            final(self)@.settings == settings@,
            final(self)@.tasks == old(self)@.tasks,
            final(self)@.data_dir == old(self)@.data_dir,
    {
        self.settings = settings;
    }

    /// Counts by completion and by priority bucket; pure aggregation over an
    /// already-loaded collection.
    pub fn get_task_stats(&self, tasks: &Vec<Task>) -> (r: TaskStats)
        ensures
            stats_correct(tasks.deep_view(), r),
    {
        let ghost dv = tasks.deep_view();
        let total = tasks.len();
        let mut completed: usize = 0;
        let mut high: usize = 0;
        let mut medium: usize = 0;
        let mut low: usize = 0;
        let mut i: usize = 0;
        while i < total
            invariant
                i <= total,
                total == dv.len(),
                dv == tasks.deep_view(),
                completed <= i,
                high <= i,
                medium <= i,
                low <= i,
                completed == count_completed(dv.subrange(0, i as int)),
                high == count_priority(dv.subrange(0, i as int), Priority::High),
                medium == count_priority(dv.subrange(0, i as int), Priority::Medium),
                low == count_priority(dv.subrange(0, i as int), Priority::Low),
            decreases total - i,
        {
            proof {
                assert(dv.subrange(0, (i + 1) as int).drop_last() =~= dv.subrange(0, i as int));
                assert(dv.subrange(0, (i + 1) as int).last() == dv[i as int]);
            }
            if tasks[i].completed {
                completed = completed + 1;
            }
            match tasks[i].priority {
                Priority::High => {
                    high = high + 1;
                },
                Priority::Medium => {
                    medium = medium + 1;
                },
                Priority::Low => {
                    low = low + 1;
                },
            }
            i = i + 1;
        }
        proof {
            assert(dv.subrange(0, total as int) =~= dv);
        }
        TaskStats {
            total,
            completed,
            pending: total - completed,
            high_priority: high,
            medium_priority: medium,
            low_priority: low,
        }
    }

    /// Appends a task (with its `updated_at` refreshed) to the collection
    /// and returns the task as stored.
    pub fn add_task(&mut self, task: Task) -> (r: Task)
        ensures
            same_but_updated_at(task@, r@),
            final(self)@.tasks == old(self)@.tasks.push(r@),
            final(self)@.settings == old(self)@.settings,
            final(self)@.data_dir == old(self)@.data_dir,
    {
        let ghost prev = self.tasks.deep_view();
        let mut task = task;
        task.update();
        let r = task.clone();
        self.tasks.push(task);
        proof {
            assert(self.tasks.deep_view() =~= prev.push(r@));
        }
        r
    }

    /// Locates the first task with this id and applies the partial update:
    /// each field present in `updates` replaces the task's field, absent
    /// fields stay, and `updated_at` is refreshed. Returns the updated task,
    /// or `None` — leaving the store untouched — when no task carries the
    /// id (a normal outcome, not an error).
    pub fn update_task(&mut self, id: &str, updates: &UpdateTaskRequest) -> (r: Option<Task>)
        ensures
            r is Some <==> contains_id(old(self)@.tasks, id@),
            (match r {
                Some(t) => update_applied(old(self)@.tasks, final(self)@.tasks, id@, updates@, t@),
                None => final(self)@ == old(self)@,
            }),
            final(self)@.settings == old(self)@.settings,
            final(self)@.data_dir == old(self)@.data_dir,
    {
        let ghost prev = self.tasks.deep_view();
        let n = self.tasks.len();
        let mut i: usize = 0;
        while i < n
            invariant
                i <= n,
                n == self.tasks@.len(),
                *self == *old(self),
                prev == self.tasks.deep_view(),
                forall|j: int| 0 <= j < i ==> prev[j].id != id@,
            decreases n - i,
        {
            if str_eq(self.tasks[i].id.as_str(), id) {
                let mut t = self.tasks[i].clone();
                match &updates.title {
                    Some(x) => {
                        t.title = x.clone();
                    },
                    None => {},
                }
                match &updates.description {
                    Some(x) => {
                        t.description = Some(x.clone());
                    },
                    None => {},
                }
                match updates.completed {
                    Some(c) => {
                        t.completed = c;
                    },
                    None => {},
                }
                match &updates.priority {
                    Some(p) => {
                        t.priority = Priority::from_string(p.as_str());
                    },
                    None => {},
                }
                match &updates.due_date {
                    Some(d) => {
                        t.due_date = Some(d.clone());
                    },
                    None => {},
                }
                match &updates.attachments {
                    Some(a) => {
                        t.attachments = Some(clone_attachments(a));
                    },
                    None => {},
                }
                t.update();
                let result = t.clone();
                proof {
                    assert(applies_update(prev[i as int], updates@, t@));
                }
                self.tasks[i] = t;
                proof {
                    assert(self.tasks.deep_view() =~= prev.update(i as int, result@));
                    assert(contains_id(prev, id@));
                    assert(update_applied(prev, self.tasks.deep_view(), id@, updates@, result@));
                }
                return Some(result);
            }
            i = i + 1;
        }
        proof {
            assert(!contains_id(prev, id@));
        }
        None
    }

    /// Removes every task with this id (at most one, given the uniqueness
    /// invariant) and reports whether anything was removed.
    pub fn delete_task(&mut self, id: &str) -> (r: bool)
        ensures
            final(self)@.tasks == remove_id(old(self)@.tasks, id@),
            r == contains_id(old(self)@.tasks, id@),
            final(self)@.settings == old(self)@.settings,
            final(self)@.data_dir == old(self)@.data_dir,
    {
        let ghost prev = self.tasks.deep_view();
        let n = self.tasks.len();
        let mut kept: Vec<Task> = Vec::new();
        let mut removed = false;
        let mut i: usize = 0;
        proof {
            assert(kept.deep_view() =~= remove_id(prev.subrange(0, 0), id@));
        }
        while i < n
            invariant
                i <= n,
                n == self.tasks@.len(),
                *self == *old(self),
                prev == self.tasks.deep_view(),
                kept.deep_view() =~= remove_id(prev.subrange(0, i as int), id@),
                removed == contains_id(prev.subrange(0, i as int), id@),
            decreases n - i,
        {
            proof {
                assert(prev.subrange(0, (i + 1) as int).drop_last() =~= prev.subrange(0, i as int));
                assert(prev.subrange(0, (i + 1) as int).last() == prev[i as int]);
                lemma_contains_id_step(prev.subrange(0, (i + 1) as int), id@);
            }
            if str_eq(self.tasks[i].id.as_str(), id) {
                removed = true;
            } else {
                let ghost kept_prev = kept.deep_view();
                let c = self.tasks[i].clone();
                kept.push(c);
                proof {
                    assert(kept.deep_view() =~= kept_prev.push(c@));
                }
            }
            i = i + 1;
        }
        proof {
            assert(prev.subrange(0, n as int) =~= prev);
        }
        self.tasks = kept;
        removed
    }
}

} // verus!
