//! Domain model: tasks, attachments, settings, statistics, the
//! priority/theme string codecs, and the response envelope.
//!
//! Every data type has a mathematical view (a ghost struct over `Seq<char>`
//! and plain values); all contracts in this crate speak of those views.

use vstd::prelude::*;

verus! {

/// A file attachment owned by exactly one task; it has no independent
/// lifecycle.
#[derive(Debug, PartialEq)]
pub struct Attachment {
    pub id: String,
    pub name: String,
    pub size: u64,
    pub file_type: String,
    pub data: String,
    pub created_at: String,
}

/// The mathematical value of an `Attachment`.
pub ghost struct AttachmentView {
    pub id: Seq<char>,
    pub name: Seq<char>,
    pub size: u64,
    pub file_type: Seq<char>,
    pub data: Seq<char>,
    pub created_at: Seq<char>,
}

impl View for Attachment {
    type V = AttachmentView;

    open spec fn view(&self) -> AttachmentView {
        AttachmentView {
            id: self.id@,
            name: self.name@,
            size: self.size,
            file_type: self.file_type@,
            data: self.data@,
            created_at: self.created_at@,
        }
    }
}

impl DeepView for Attachment {
    type V = AttachmentView;

    open spec fn deep_view(&self) -> AttachmentView {
        self.view()
    }
}

impl Clone for Attachment {
    fn clone(&self) -> (res: Self)
        ensures
            res@ == self@,
    {
        Attachment {
            id: self.id.clone(),
            name: self.name.clone(),
            size: self.size,
            file_type: self.file_type.clone(),
            data: self.data.clone(),
            created_at: self.created_at.clone(),
        }
    }
}

/// Task priority, persisted as one of the strings "high", "medium", "low".
#[derive(Debug, Clone, Copy, PartialEq, Eq, Structural)]
pub enum Priority {
    High,
    Medium,
    Low,
}

/// The string a priority is encoded as.
pub open spec fn priority_label(p: Priority) -> Seq<char> {
    match p {
        Priority::High => "high"@,
        Priority::Medium => "medium"@,
        Priority::Low => "low"@,
    }
}

/// The priority a string decodes to. Unrecognized strings fall back to
/// `Medium`: decoding never fails (a forward-compatibility policy, not an
/// error path).
pub open spec fn priority_of_label(s: Seq<char>) -> Priority {
    if s == "high"@ {
        Priority::High
    } else if s == "medium"@ {
        Priority::Medium
    } else if s == "low"@ {
        Priority::Low
    } else {
        Priority::Medium
    }
}

/// Relies on str's `PartialEq`: true exactly when the two strings hold the
/// same characters.
#[verifier::external_body]
pub(crate) fn str_eq(a: &str, b: &str) -> (r: bool)
    ensures
        r == (a@ == b@),
{
    a == b
}

impl Priority {
    pub fn to_string(&self) -> (r: String)
        ensures
            r@ == priority_label(*self),
    {
        match self {
            Priority::High => "high".to_string(),
            Priority::Medium => "medium".to_string(),
            Priority::Low => "low".to_string(),
        }
    }

    pub fn from_string(s: &str) -> (r: Self)
        ensures
            r == priority_of_label(s@),
    {
        if str_eq(s, "high") {
            Priority::High
        } else if str_eq(s, "medium") {
            Priority::Medium
        } else if str_eq(s, "low") {
            Priority::Low
        } else {
            Priority::Medium
        }
    }
}

/// UI theme, persisted as one of the strings "light", "pink".
#[derive(Debug, Clone, Copy, PartialEq, Eq, Structural)]
pub enum Theme {
    Light,
    Pink,
}

/// The string a theme is encoded as.
pub open spec fn theme_label(t: Theme) -> Seq<char> {
    match t {
        Theme::Light => "light"@,
        Theme::Pink => "pink"@,
    }
}

/// The theme a string decodes to; unrecognized strings fall back to `Light`.
pub open spec fn theme_of_label(s: Seq<char>) -> Theme {
    if s == "light"@ {
        Theme::Light
    } else if s == "pink"@ {
        Theme::Pink
    } else {
        Theme::Light
    }
}

impl Theme {
    pub fn to_string(&self) -> (r: String)
        ensures
            r@ == theme_label(*self),
    {
        match self {
            Theme::Light => "light".to_string(),
            Theme::Pink => "pink".to_string(),
        }
    }

    pub fn from_string(s: &str) -> (r: Self)
        ensures
            r == theme_of_label(s@),
    {
        if str_eq(s, "light") {
            Theme::Light
        } else if str_eq(s, "pink") {
            Theme::Pink
        } else {
            Theme::Light
        }
    }
}

/// A to-do item. Its `id` is unique within a collection; `created_at` never
/// changes after construction, and `updated_at` is refreshed by `update` on
/// every mutation.
#[derive(Debug, PartialEq)]
pub struct Task {
    pub id: String,
    pub title: String,
    pub description: Option<String>,
    pub completed: bool,
    pub priority: Priority,
    pub due_date: Option<String>,
    pub created_at: String,
    pub updated_at: String,
    pub attachments: Option<Vec<Attachment>>,
}

/// The mathematical value of a `Task`.
pub ghost struct TaskView {
    pub id: Seq<char>,
    pub title: Seq<char>,
    pub description: Option<Seq<char>>,
    pub completed: bool,
    pub priority: Priority,
    pub due_date: Option<Seq<char>>,
    pub created_at: Seq<char>,
    pub updated_at: Seq<char>,
    pub attachments: Option<Seq<AttachmentView>>,
}

impl View for Task {
    type V = TaskView;

    open spec fn view(&self) -> TaskView {
        TaskView {
            id: self.id@,
            title: self.title@,
            description: match self.description {
                Some(d) => Some(d@),
                None => None,
            },
            completed: self.completed,
            priority: self.priority,
            due_date: match self.due_date {
                Some(d) => Some(d@),
                None => None,
            },
            created_at: self.created_at@,
            updated_at: self.updated_at@,
            attachments: match self.attachments {
                Some(a) => Some(a.deep_view()),
                None => None,
            },
        }
    }
}

impl DeepView for Task {
    type V = TaskView;

    open spec fn deep_view(&self) -> TaskView {
        self.view()
    }
}

/// Relies on uuid's `Uuid::new_v4` and its `Display`: a freshly drawn random
/// identifier rendered as text. Nothing is promised of its value.
#[verifier::external_body]
fn fresh_task_id() -> String {
    uuid::Uuid::new_v4().to_string()
}

/// Relies on chrono's `Utc::now` and `to_rfc3339`: the current time rendered
/// as text. Nothing is promised of its value.
#[verifier::external_body]
fn now_rfc3339() -> String {
    chrono::Utc::now().to_rfc3339()
}

pub(crate) fn clone_attachments(v: &Vec<Attachment>) -> (r: Vec<Attachment>)
    ensures
        r.deep_view() == v.deep_view(),
{
    let mut r: Vec<Attachment> = Vec::new();
    let mut i: usize = 0;
    while i < v.len()
        invariant
            i <= v.len(),
            r.deep_view() =~= v.deep_view().subrange(0, i as int),
        decreases v.len() - i,
    {
        let ghost prev = r.deep_view();
        let c = v[i].clone();
        r.push(c);
        proof {
            assert(r@.last() == c);
            assert(r.deep_view() =~= prev.push(c@));
            assert(r.deep_view() =~= v.deep_view().subrange(0, (i + 1) as int));
        }
        i = i + 1;
    }
    proof {
        assert(r.deep_view() =~= v.deep_view());
    }
    r
}

impl Clone for Task {
    fn clone(&self) -> (res: Self)
        ensures
            res@ == self@,
    {
        Task {
            id: self.id.clone(),
            title: self.title.clone(),
            description: match &self.description {
                Some(d) => Some(d.clone()),
                None => None,
            },
            completed: self.completed,
            priority: self.priority,
            due_date: match &self.due_date {
                Some(d) => Some(d.clone()),
                None => None,
            },
            created_at: self.created_at.clone(),
            updated_at: self.updated_at.clone(),
            attachments: match &self.attachments {
                Some(a) => Some(clone_attachments(a)),
                None => None,
            },
        }
    }
}

/// True when `after` is `before` with `updated_at` refreshed: every other
/// field is unchanged.
pub open spec fn same_but_updated_at(before: TaskView, after: TaskView) -> bool {
    &&& after.id == before.id
    &&& after.title == before.title
    &&& after.description == before.description
    &&& after.completed == before.completed
    &&& after.priority == before.priority
    &&& after.due_date == before.due_date
    &&& after.created_at == before.created_at
    &&& after.attachments == before.attachments
}

impl Task {
    /// Constructs a task with a freshly drawn identifier and both timestamps
    /// set to the same current instant. A missing priority defaults to
    /// `Medium`.
    pub fn new(
        title: String,
        description: Option<String>,
        priority: Option<Priority>,
        due_date: Option<String>,
        attachments: Option<Vec<Attachment>>,
    ) -> (t: Task)
        ensures
            t@.title == title@,
            t@.description == (match description {
                Some(d) => Some(d@),
                None => None::<Seq<char>>,
            }),
            !t@.completed,
            t@.priority == (match priority {
                Some(p) => p,
                None => Priority::Medium,
            }),
            t@.due_date == (match due_date {
                Some(d) => Some(d@),
                None => None::<Seq<char>>,
            }),
            t@.attachments == (match attachments {
                Some(a) => Some(a.deep_view()),
                None => None::<Seq<AttachmentView>>,
            }),
            t@.created_at == t@.updated_at,
    {
        let now = now_rfc3339();
        Task {
            id: fresh_task_id(),
            title,
            description,
            completed: false,
            priority: match priority {
                Some(p) => p,
                None => Priority::Medium,
            },
            due_date,
            created_at: now.clone(),
            updated_at: now,
            attachments,
        }
    }

    /// The single mutation primitive: refreshes `updated_at` to the current
    /// time and leaves every other field untouched.
    pub fn update(&mut self)
        ensures
            same_but_updated_at(old(self)@, final(self)@),
    {
        self.updated_at = now_rfc3339();
    }
}

/// The singleton settings document.
#[derive(Debug, PartialEq)]
pub struct Settings {
    pub theme: String,
    pub notifications: bool,
    pub auto_save: bool,
    pub is_pinned: bool,
    pub is_collapsed: bool,
    pub username: Option<String>,
    pub avatar: Option<String>,
}

/// The mathematical value of a `Settings` document.
pub ghost struct SettingsView {
    pub theme: Seq<char>,
    pub notifications: bool,
    pub auto_save: bool,
    pub is_pinned: bool,
    pub is_collapsed: bool,
    pub username: Option<Seq<char>>,
    pub avatar: Option<Seq<char>>,
}

impl View for Settings {
    type V = SettingsView;

    open spec fn view(&self) -> SettingsView {
        SettingsView {
            theme: self.theme@,
            notifications: self.notifications,
            auto_save: self.auto_save,
            is_pinned: self.is_pinned,
            is_collapsed: self.is_collapsed,
            username: match self.username {
                Some(u) => Some(u@),
                None => None,
            },
            avatar: match self.avatar {
                Some(a) => Some(a@),
                None => None,
            },
        }
    }
}

/// The documented defaults: used on first access and as the fallback when
/// the stored settings document is unreadable.
pub open spec fn is_default_settings(s: SettingsView) -> bool {
    &&& s.theme == "light"@
    &&& s.notifications
    &&& s.auto_save
    &&& !s.is_pinned
    &&& !s.is_collapsed
    &&& s.username is None
    &&& s.avatar is None
}

impl Clone for Settings {
    fn clone(&self) -> (res: Self)
        ensures
            res@ == self@,
    {
        Settings {
            theme: self.theme.clone(),
            notifications: self.notifications,
            auto_save: self.auto_save,
            is_pinned: self.is_pinned,
            is_collapsed: self.is_collapsed,
            username: match &self.username {
                Some(u) => Some(u.clone()),
                None => None,
            },
            avatar: match &self.avatar {
                Some(a) => Some(a.clone()),
                None => None,
            },
        }
    }
}

impl Default for Settings {
    fn default() -> (s: Settings)
        ensures
            is_default_settings(s@),
    {
        Settings {
            theme: "light".to_string(),
            notifications: true,
            auto_save: true,
            is_pinned: false,
            is_collapsed: false,
            username: None,
            avatar: None,
        }
    }
}

/// The request to create a task; the priority arrives as a string and is
/// decoded with the fallback-to-`Medium` policy.
#[derive(Debug)]
pub struct CreateTaskRequest {
    pub title: String,
    pub description: Option<String>,
    pub priority: Option<String>,
    pub due_date: Option<String>,
    pub attachments: Option<Vec<Attachment>>,
}

/// The mathematical value of a `CreateTaskRequest`.
pub ghost struct CreateTaskRequestView {
    pub title: Seq<char>,
    pub description: Option<Seq<char>>,
    pub priority: Option<Seq<char>>,
    pub due_date: Option<Seq<char>>,
    pub attachments: Option<Seq<AttachmentView>>,
}

impl View for CreateTaskRequest {
    type V = CreateTaskRequestView;

    open spec fn view(&self) -> CreateTaskRequestView {
        CreateTaskRequestView {
            title: self.title@,
            description: match self.description {
                Some(d) => Some(d@),
                None => None,
            },
            priority: match self.priority {
                Some(p) => Some(p@),
                None => None,
            },
            due_date: match self.due_date {
                Some(d) => Some(d@),
                None => None,
            },
            attachments: match self.attachments {
                Some(a) => Some(a.deep_view()),
                None => None,
            },
        }
    }
}

/// True when the task `t` is what creating a task from `req` yields: the
/// fields are taken over, completion starts false, and a missing or
/// unrecognized priority string falls back to `Medium`. The identifier and
/// the timestamps are freshly drawn and therefore unconstrained.
pub open spec fn created_from(t: TaskView, req: CreateTaskRequestView) -> bool {
    &&& t.title == req.title
    &&& t.description == req.description
    &&& !t.completed
    &&& t.priority == (match req.priority {
        Some(p) => priority_of_label(p),
        None => Priority::Medium,
    })
    &&& t.due_date == req.due_date
    &&& t.attachments == req.attachments
}

/// A partial update: every field is independently optional, and an absent
/// field means "leave unchanged".
#[derive(Debug)]
pub struct UpdateTaskRequest {
    pub title: Option<String>,
    pub description: Option<String>,
    pub completed: Option<bool>,
    pub priority: Option<String>,
    pub due_date: Option<String>,
    pub attachments: Option<Vec<Attachment>>,
}

/// The mathematical value of an `UpdateTaskRequest`.
pub ghost struct UpdateTaskRequestView {
    pub title: Option<Seq<char>>,
    pub description: Option<Seq<char>>,
    pub completed: Option<bool>,
    pub priority: Option<Seq<char>>,
    pub due_date: Option<Seq<char>>,
    pub attachments: Option<Seq<AttachmentView>>,
}

impl View for UpdateTaskRequest {
    type V = UpdateTaskRequestView;

    open spec fn view(&self) -> UpdateTaskRequestView {
        UpdateTaskRequestView {
            title: match self.title {
                Some(t) => Some(t@),
                None => None,
            },
            description: match self.description {
                Some(d) => Some(d@),
                None => None,
            },
            completed: self.completed,
            priority: match self.priority {
                Some(p) => Some(p@),
                None => None,
            },
            due_date: match self.due_date {
                Some(d) => Some(d@),
                None => None,
            },
            attachments: match self.attachments {
                Some(a) => Some(a.deep_view()),
                None => None,
            },
        }
    }
}

/// True when `after` is `before` with exactly the fields present in `u`
/// replaced (and `id` and `created_at` kept). `updated_at` is deliberately
/// unconstrained: the mutation refreshes it to the current time.
pub open spec fn applies_update(
    before: TaskView,
    u: UpdateTaskRequestView,
    after: TaskView,
) -> bool {
    &&& after.id == before.id
    &&& after.title == (match u.title {
        Some(t) => t,
        None => before.title,
    })
    &&& after.description == (match u.description {
        Some(d) => Some(d),
        None => before.description,
    })
    &&& after.completed == (match u.completed {
        Some(c) => c,
        None => before.completed,
    })
    &&& after.priority == (match u.priority {
        Some(p) => priority_of_label(p),
        None => before.priority,
    })
    &&& after.due_date == (match u.due_date {
        Some(d) => Some(d),
        None => before.due_date,
    })
    &&& after.attachments == (match u.attachments {
        Some(a) => Some(a),
        None => before.attachments,
    })
    &&& after.created_at == before.created_at
}

/// Derived statistics over a task collection; never persisted.
#[derive(Debug, PartialEq, Eq, Structural)]
pub struct TaskStats {
    pub total: usize,
    pub completed: usize,
    pub pending: usize,
    pub high_priority: usize,
    pub medium_priority: usize,
    pub low_priority: usize,
}

/// The uniform envelope every gateway operation returns.
#[derive(Debug)]
pub struct ApiResponse<T> {
    pub success: bool,
    pub data: Option<T>,
    pub error: Option<String>,
}

impl<T> ApiResponse<T> {
    pub fn success(data: T) -> (r: Self)
        ensures
            r.success,
            r.data == Some(data),
            r.error is None,
    {
        ApiResponse { success: true, data: Some(data), error: None }
    }

    pub fn error(message: String) -> (r: Self)
        ensures
            !r.success,
            r.data is None,
            r.error == Some(message),
    {
        ApiResponse { success: false, data: None, error: Some(message) }
    }
}

} // verus!
