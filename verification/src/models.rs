//! The records the store keeps and the inputs that create and change them.
//!
//! Each executable type has a view, its mathematical value, in which text is
//! a `Seq<char>` and an identifier an `int`. Contracts elsewhere in the crate
//! are stated over these views.

use vstd::prelude::*;

verus! {

/// The text of an optional string.
pub open spec fn opt_text(o: Option<String>) -> Option<Seq<char>> {
    match o {
        Some(s) => Some(s@),
        None => None,
    }
}

/// The value of an optional identifier.
pub open spec fn opt_id(o: Option<i64>) -> Option<int> {
    match o {
        Some(i) => Some(i as int),
        None => None,
    }
}

/// Copies an optional string.
pub fn clone_opt_text(o: &Option<String>) -> (out: Option<String>)
    ensures
        out == *o,
{
    match o {
        Some(s) => Some(s.clone()),
        None => None,
    }
}

/// One broken rule of an input.
#[derive(Debug)]
pub enum ModelValidationError {
    /// A rule on the form of a value is broken; the text says which.
    Invalid(String),
    /// A field that must not be empty is empty.
    Required { field: String },
    /// A field holds more characters than `max`.
    TooLong { field: String, max: usize },
}

/// The value of a [`ModelValidationError`].
pub enum ModelValidationErrorView {
    Invalid(Seq<char>),
    Required { field: Seq<char> },
    TooLong { field: Seq<char>, max: nat },
}

impl View for ModelValidationError {
    type V = ModelValidationErrorView;

    open spec fn view(&self) -> ModelValidationErrorView {
        match self {
            ModelValidationError::Invalid(reason) => ModelValidationErrorView::Invalid(reason@),
            ModelValidationError::Required { field } => ModelValidationErrorView::Required {
                field: field@,
            },
            ModelValidationError::TooLong { field, max } => ModelValidationErrorView::TooLong {
                field: field@,
                max: *max as nat,
            },
        }
    }
}

impl DeepView for ModelValidationError {
    type V = ModelValidationErrorView;

    open spec fn deep_view(&self) -> ModelValidationErrorView {
        self@
    }
}

/// A task as stored.
#[derive(Debug)]
pub struct Task {
    pub id: i64,
    pub title: String,
    pub description: Option<String>,
    pub completed: bool,
    pub priority: String,
    pub category_id: Option<i64>,
    pub due_date: Option<String>,
    pub created_at: String,
    pub updated_at: String,
}

/// The value of a [`Task`].
pub struct TaskView {
    pub id: int,
    pub title: Seq<char>,
    pub description: Option<Seq<char>>,
    pub completed: bool,
    pub priority: Seq<char>,
    pub category_id: Option<int>,
    pub due_date: Option<Seq<char>>,
    pub created_at: Seq<char>,
    pub updated_at: Seq<char>,
}

impl View for Task {
    type V = TaskView;

    open spec fn view(&self) -> TaskView {
        TaskView {
            id: self.id as int,
            title: self.title@,
            description: opt_text(self.description),
            completed: self.completed,
            priority: self.priority@,
            category_id: opt_id(self.category_id),
            due_date: opt_text(self.due_date),
            created_at: self.created_at@,
            updated_at: self.updated_at@,
        }
    }
}

impl DeepView for Task {
    type V = TaskView;

    open spec fn deep_view(&self) -> TaskView {
        self@
    }
}

impl Clone for Task {
    fn clone(&self) -> (out: Self)
        ensures
            out == *self,
    {
        Task {
            id: self.id,
            title: self.title.clone(),
            description: clone_opt_text(&self.description),
            completed: self.completed,
            priority: self.priority.clone(),
            category_id: self.category_id,
            due_date: clone_opt_text(&self.due_date),
            created_at: self.created_at.clone(),
            updated_at: self.updated_at.clone(),
        }
    }
}

/// What a caller supplies to create a task. The store assigns the
/// identifier and both timestamps.
#[derive(Debug)]
pub struct CreateTaskInput {
    pub title: String,
    pub description: Option<String>,
    pub priority: Option<String>,
    pub category_id: Option<i64>,
    pub due_date: Option<String>,
}

/// The value of a [`CreateTaskInput`].
pub struct CreateTaskInputView {
    pub title: Seq<char>,
    pub description: Option<Seq<char>>,
    pub priority: Option<Seq<char>>,
    pub category_id: Option<int>,
    pub due_date: Option<Seq<char>>,
}

impl View for CreateTaskInput {
    type V = CreateTaskInputView;

    open spec fn view(&self) -> CreateTaskInputView {
        CreateTaskInputView {
            title: self.title@,
            description: opt_text(self.description),
            priority: opt_text(self.priority),
            category_id: opt_id(self.category_id),
            due_date: opt_text(self.due_date),
        }
    }
}

/// A partial change to the task `id`: a field that is `None` is left as it
/// is stored.
#[derive(Debug)]
pub struct UpdateTaskInput {
    pub id: i64,
    pub title: Option<String>,
    pub description: Option<String>,
    pub completed: Option<bool>,
    pub priority: Option<String>,
    pub category_id: Option<i64>,
    pub due_date: Option<String>,
}

/// The value of an [`UpdateTaskInput`].
pub struct UpdateTaskInputView {
    pub id: int,
    pub title: Option<Seq<char>>,
    pub description: Option<Seq<char>>,
    pub completed: Option<bool>,
    pub priority: Option<Seq<char>>,
    pub category_id: Option<int>,
    pub due_date: Option<Seq<char>>,
}

impl View for UpdateTaskInput {
    type V = UpdateTaskInputView;

    open spec fn view(&self) -> UpdateTaskInputView {
        UpdateTaskInputView {
            id: self.id as int,
            title: opt_text(self.title),
            description: opt_text(self.description),
            completed: self.completed,
            priority: opt_text(self.priority),
            category_id: opt_id(self.category_id),
            due_date: opt_text(self.due_date),
        }
    }
}

/// A category as stored.
#[derive(Debug)]
pub struct Category {
    pub id: i64,
    pub name: String,
    pub color: String,
    pub created_at: String,
}

/// The value of a [`Category`].
pub struct CategoryView {
    pub id: int,
    pub name: Seq<char>,
    pub color: Seq<char>,
    pub created_at: Seq<char>,
}

impl View for Category {
    type V = CategoryView;

    open spec fn view(&self) -> CategoryView {
        CategoryView {
            id: self.id as int,
            name: self.name@,
            color: self.color@,
            created_at: self.created_at@,
        }
    }
}

impl DeepView for Category {
    type V = CategoryView;

    open spec fn deep_view(&self) -> CategoryView {
        self@
    }
}

impl Clone for Category {
    fn clone(&self) -> (out: Self)
        ensures
            out == *self,
    {
        Category {
            id: self.id,
            name: self.name.clone(),
            color: self.color.clone(),
            created_at: self.created_at.clone(),
        }
    }
}

/// What a caller supplies to create a category.
#[derive(Debug)]
pub struct CreateCategoryInput {
    pub name: String,
    pub color: Option<String>,
}

/// The value of a [`CreateCategoryInput`].
pub struct CreateCategoryInputView {
    pub name: Seq<char>,
    pub color: Option<Seq<char>>,
}

impl View for CreateCategoryInput {
    type V = CreateCategoryInputView;

    open spec fn view(&self) -> CreateCategoryInputView {
        CreateCategoryInputView { name: self.name@, color: opt_text(self.color) }
    }
}

/// A tag. Tags are part of the schema; the store only keeps the links
/// between tasks and tags.
#[derive(Debug)]
pub struct Tag {
    pub id: i64,
    pub name: String,
    pub created_at: String,
}

/// The value of a [`Tag`].
pub struct TagView {
    pub id: int,
    pub name: Seq<char>,
    pub created_at: Seq<char>,
}

impl View for Tag {
    type V = TagView;

    open spec fn view(&self) -> TagView {
        TagView { id: self.id as int, name: self.name@, created_at: self.created_at@ }
    }
}

impl Clone for Tag {
    fn clone(&self) -> (out: Self)
        ensures
            out == *self,
    {
        Tag { id: self.id, name: self.name.clone(), created_at: self.created_at.clone() }
    }
}

/// Criteria for listing tasks. Every criterion that is present must hold.
///
/// `due_date_before` and `due_date_after` travel with the other fields but
/// the store does not filter on them.
#[derive(Debug)]
pub struct TaskFilters {
    pub completed: Option<bool>,
    pub priority: Option<String>,
    pub category_id: Option<i64>,
    pub search: Option<String>,
    pub due_date_before: Option<String>,
    pub due_date_after: Option<String>,
}

/// The value of a [`TaskFilters`].
pub struct TaskFiltersView {
    pub completed: Option<bool>,
    pub priority: Option<Seq<char>>,
    pub category_id: Option<int>,
    pub search: Option<Seq<char>>,
    pub due_date_before: Option<Seq<char>>,
    pub due_date_after: Option<Seq<char>>,
}

impl View for TaskFilters {
    type V = TaskFiltersView;

    open spec fn view(&self) -> TaskFiltersView {
        TaskFiltersView {
            completed: self.completed,
            priority: opt_text(self.priority),
            category_id: opt_id(self.category_id),
            search: opt_text(self.search),
            due_date_before: opt_text(self.due_date_before),
            due_date_after: opt_text(self.due_date_after),
        }
    }
}

impl DeepView for TaskFilters {
    type V = TaskFiltersView;

    open spec fn deep_view(&self) -> TaskFiltersView {
        self@
    }
}

/// One key of the settings mapping with its value.
#[derive(Debug)]
pub struct AppSetting {
    pub key: String,
    pub value: String,
    pub updated_at: String,
}

/// The value of an [`AppSetting`].
pub struct AppSettingView {
    pub key: Seq<char>,
    pub value: Seq<char>,
    pub updated_at: Seq<char>,
}

impl View for AppSetting {
    type V = AppSettingView;

    open spec fn view(&self) -> AppSettingView {
        AppSettingView { key: self.key@, value: self.value@, updated_at: self.updated_at@ }
    }
}

impl DeepView for AppSetting {
    type V = AppSettingView;

    open spec fn deep_view(&self) -> AppSettingView {
        self@
    }
}

impl Clone for AppSetting {
    fn clone(&self) -> (out: Self)
        ensures
            out == *self,
    {
        AppSetting {
            key: self.key.clone(),
            value: self.value.clone(),
            updated_at: self.updated_at.clone(),
        }
    }
}

} // verus!
