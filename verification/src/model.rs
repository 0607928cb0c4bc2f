//! The store as a mathematical value, and every operation as a function on
//! that value.
//!
//! Tasks and categories are kept in the order in which they were created;
//! identifiers grow along that order and are never handed out twice.

use crate::error::{StoreErrorView, StoreFault};
use crate::models::{
    AppSettingView, CategoryView, CreateCategoryInputView, CreateTaskInputView, TaskFiltersView,
    TaskView, UpdateTaskInputView,
};
use crate::seqs::ordered;
use crate::text::{is_substring, text_le};
use crate::validation::{description_ok, due_date_ok, is_hex_color, is_priority, name_ok, title_ok};
use vstd::prelude::*;

verus! {

/// The largest identifier the store can hold.
pub const ID_MAX: i64 = 0x7fff_ffff_ffff_ffff;

/// One link between a task and a tag.
#[derive(Debug, Clone, Copy, PartialEq, Eq, Structural)]
pub struct TaskTag {
    pub task_id: i64,
    pub tag_id: i64,
}

/// The priority a task gets when its input names none.
pub open spec fn default_priority() -> Seq<char> {
    "medium"@
}

/// The colour a category gets when its input names none.
pub open spec fn default_color() -> Seq<char> {
    "#F97316"@
}

/// The name of the category that a clear leaves in place.
pub open spec fn protected_name() -> Seq<char> {
    "General"@
}

/// A stored task meets the rules of its fields.
pub open spec fn task_valid(t: TaskView) -> bool {
    &&& title_ok(t.title)
    &&& description_ok(t.description)
    &&& is_priority(t.priority)
    &&& due_date_ok(t.due_date)
}

/// A stored category meets the rules of its fields.
pub open spec fn category_valid(c: CategoryView) -> bool {
    &&& name_ok(c.name)
    &&& is_hex_color(c.color)
}

/// Whether a task meets every criterion that the store filters on:
/// completion, priority, category and search. The two bounds on the due
/// date take no part.
pub open spec fn task_matches(t: TaskView, f: TaskFiltersView) -> bool {
    &&& (f.completed matches Some(c) ==> t.completed == c)
    &&& (f.priority matches Some(p) ==> t.priority == p)
    &&& (f.category_id matches Some(c) ==> t.category_id == Some(c))
    &&& (f.search matches Some(s) ==> (is_substring(s, t.title) || (t.description matches Some(d)
        && is_substring(s, d))))
}

/// The test that `filters` stands for; no filters admit every task.
pub open spec fn matching(filters: Option<TaskFiltersView>) -> spec_fn(TaskView) -> bool {
    |t: TaskView|
        match filters {
            Some(f) => task_matches(t, f),
            None => true,
        }
}

/// The test "is not the task `id`".
pub open spec fn task_other_than(id: int) -> spec_fn(TaskView) -> bool {
    |t: TaskView| t.id != id
}

/// The test "is not a link of the task `id`".
pub open spec fn link_other_than(id: int) -> spec_fn(TaskTag) -> bool {
    |l: TaskTag| l.task_id != id
}

/// The test "is not the category `id`".
pub open spec fn category_other_than(id: int) -> spec_fn(CategoryView) -> bool {
    |c: CategoryView| c.id != id
}

/// The test "bears the protected name".
pub open spec fn is_protected() -> spec_fn(CategoryView) -> bool {
    |c: CategoryView| c.name == protected_name()
}

/// A task with its category reference cleared if it points to `id`.
pub open spec fn unlinked(t: TaskView, id: int) -> TaskView {
    if t.category_id == Some(id) {
        TaskView { category_id: None, ..t }
    } else {
        t
    }
}

/// A stored task after a partial change at the time `now`.
pub open spec fn apply_update(t: TaskView, u: UpdateTaskInputView, now: Seq<char>) -> TaskView {
    TaskView {
        id: t.id,
        title: match u.title {
            Some(x) => x,
            None => t.title,
        },
        description: match u.description {
            Some(x) => Some(x),
            None => t.description,
        },
        completed: match u.completed {
            Some(x) => x,
            None => t.completed,
        },
        priority: match u.priority {
            Some(x) => x,
            None => t.priority,
        },
        category_id: match u.category_id {
            Some(x) => Some(x),
            None => t.category_id,
        },
        due_date: match u.due_date {
            Some(x) => Some(x),
            None => t.due_date,
        },
        created_at: t.created_at,
        updated_at: now,
    }
}

/// The order in which categories are listed: by name, by code point, and
/// among equal names the one created first.
pub open spec fn by_name() -> spec_fn(CategoryView, CategoryView) -> bool {
    |a: CategoryView, b: CategoryView|
        text_le(a.name, b.name) && (a.name == b.name ==> a.id <= b.id)
}

/// The order in which tasks are listed: latest `created_at` first, the
/// times compared as text, and among equal times the task created last
/// first.
pub open spec fn newest_task_first() -> spec_fn(TaskView, TaskView) -> bool {
    |a: TaskView, b: TaskView|
        text_le(b.created_at, a.created_at) && (a.created_at == b.created_at ==> a.id >= b.id)
}

/// The value of the store.
pub struct DatabaseView {
    /// The tasks, oldest first.
    pub tasks: Seq<TaskView>,
    /// The categories, oldest first.
    pub categories: Seq<CategoryView>,
    /// The settings, in the order in which their keys were first written.
    pub settings: Seq<AppSettingView>,
    /// The links between tasks and tags.
    pub task_tags: Seq<TaskTag>,
    /// The identifier that the next task gets.
    pub next_task_id: int,
    /// The identifier that the next category gets.
    pub next_category_id: int,
}

impl DatabaseView {
    /// The store that holds nothing and has assigned no identifier.
    pub open spec fn empty() -> DatabaseView {
        DatabaseView {
            tasks: Seq::empty(),
            categories: Seq::empty(),
            settings: Seq::empty(),
            task_tags: Seq::empty(),
            next_task_id: 1,
            next_category_id: 1,
        }
    }

    /// The store that holds the given rows, the next identifiers being
    /// those after the last task and the last category.
    pub open spec fn loaded(
        tasks: Seq<TaskView>,
        categories: Seq<CategoryView>,
        settings: Seq<AppSettingView>,
        task_tags: Seq<TaskTag>,
    ) -> DatabaseView {
        DatabaseView {
            tasks,
            categories,
            settings,
            task_tags,
            next_task_id: if tasks.len() == 0 {
                1
            } else {
                tasks.last().id + 1
            },
            next_category_id: if categories.len() == 0 {
                1
            } else {
                categories.last().id + 1
            },
        }
    }

    /// Whether a task with this identifier is stored.
    pub open spec fn has_task(self, id: int) -> bool {
        exists|i: int| 0 <= i < self.tasks.len() && (#[trigger] self.tasks[i]).id == id
    }

    /// Whether a category with this identifier is stored.
    pub open spec fn has_category(self, id: int) -> bool {
        exists|i: int| 0 <= i < self.categories.len() && (#[trigger] self.categories[i]).id == id
    }

    /// Whether a setting with this key is stored.
    pub open spec fn has_setting(self, key: Seq<char>) -> bool {
        exists|i: int| 0 <= i < self.settings.len() && (#[trigger] self.settings[i]).key == key
    }

    /// Where the task `id` stands, if it is stored.
    pub open spec fn task_position(self, id: int) -> int {
        choose|i: int| 0 <= i < self.tasks.len() && (#[trigger] self.tasks[i]).id == id
    }

    /// Where the setting `key` stands, if it is stored.
    pub open spec fn setting_position(self, key: Seq<char>) -> int {
        choose|i: int| 0 <= i < self.settings.len() && (#[trigger] self.settings[i]).key == key
    }

    /// The task `id`, if it is stored.
    pub open spec fn find_task(self, id: int) -> Option<TaskView> {
        if self.has_task(id) {
            Some(self.tasks[self.task_position(id)])
        } else {
            None
        }
    }

    /// The value under `key`, if the key is stored.
    pub open spec fn get_setting(self, key: Seq<char>) -> Option<Seq<char>> {
        if self.has_setting(key) {
            Some(self.settings[self.setting_position(key)].value)
        } else {
            None
        }
    }

    /// The stored tasks that meet `filters`, in the order of the store.
    pub open spec fn matching_tasks(self, filters: Option<TaskFiltersView>) -> Seq<TaskView> {
        self.tasks.filter(matching(filters))
    }

    /// Whether `listing` holds exactly the stored tasks that meet
    /// `filters`, each once, latest `created_at` first.
    pub open spec fn is_task_listing(
        self,
        filters: Option<TaskFiltersView>,
        listing: Seq<TaskView>,
    ) -> bool {
        &&& ordered(listing, newest_task_first())
        &&& listing.to_multiset() == self.matching_tasks(filters).to_multiset()
    }

    /// Whether `listing` holds exactly the stored categories, ordered by
    /// name.
    pub open spec fn is_category_listing(self, listing: Seq<CategoryView>) -> bool {
        &&& ordered(listing, by_name())
        &&& listing.to_multiset() == self.categories.to_multiset()
    }

    /// Identifiers of tasks are positive, below the next one, and grow along
    /// the order of creation.
    pub open spec fn task_ids_ok(self) -> bool {
        &&& 1 <= self.next_task_id <= ID_MAX
        &&& forall|i: int|
            0 <= i < self.tasks.len() ==> 1 <= (#[trigger] self.tasks[i]).id < self.next_task_id
        &&& forall|i: int, j: int|
            0 <= i < j < self.tasks.len() ==> (#[trigger] self.tasks[i]).id < (
            #[trigger] self.tasks[j]).id
    }

    /// Identifiers of categories are positive, below the next one, and grow
    /// along the order of creation.
    pub open spec fn category_ids_ok(self) -> bool {
        &&& 1 <= self.next_category_id <= ID_MAX
        &&& forall|i: int|
            0 <= i < self.categories.len() ==> 1 <= (#[trigger] self.categories[i]).id
                < self.next_category_id
        &&& forall|i: int, j: int|
            0 <= i < j < self.categories.len() ==> (#[trigger] self.categories[i]).id < (
            #[trigger] self.categories[j]).id
    }

    /// Every stored record meets the rules of its fields.
    pub open spec fn records_valid(self) -> bool {
        &&& forall|i: int| 0 <= i < self.tasks.len() ==> task_valid(#[trigger] self.tasks[i])
        &&& forall|i: int|
            0 <= i < self.categories.len() ==> category_valid(#[trigger] self.categories[i])
    }

    /// The category that `t` names, if it names one, is stored.
    pub open spec fn category_known(self, t: TaskView) -> bool {
        t.category_id is Some ==> self.has_category(t.category_id->0)
    }

    /// Every category that a task names is stored, and so is every task that
    /// a link names.
    pub open spec fn references_ok(self) -> bool {
        &&& forall|i: int| 0 <= i < self.tasks.len() ==> self.category_known(#[trigger] self.tasks[i])
        &&& forall|i: int|
            0 <= i < self.task_tags.len() ==> self.has_task(
                (#[trigger] self.task_tags[i]).task_id as int,
            )
    }

    /// No key is stored twice.
    pub open spec fn keys_unique(self) -> bool {
        forall|i: int, j: int|
            0 <= i < j < self.settings.len() ==> (#[trigger] self.settings[i]).key != (
            #[trigger] self.settings[j]).key
    }

    /// The invariant of the store.
    pub open spec fn wf(self) -> bool {
        &&& self.task_ids_ok()
        &&& self.category_ids_ok()
        &&& self.records_valid()
        &&& self.references_ok()
        &&& self.keys_unique()
    }

    /// Why a task input is turned down, if it is.
    pub open spec fn create_task_rejection(self, input: CreateTaskInputView) -> Option<
        StoreErrorView,
    > {
        if !input.is_valid() {
            Some(StoreErrorView::Validation(input.violations()))
        } else if input.category_id is Some && !self.has_category(input.category_id->0) {
            Some(StoreErrorView::StoreFailure(StoreFault::UnknownCategory))
        } else if self.next_task_id >= ID_MAX {
            Some(StoreErrorView::StoreFailure(StoreFault::IdentifiersExhausted))
        } else {
            None
        }
    }

    /// The task that an accepted input creates at the time `now`.
    pub open spec fn new_task(self, input: CreateTaskInputView, now: Seq<char>) -> TaskView {
        TaskView {
            id: self.next_task_id,
            title: input.title,
            description: input.description,
            completed: false,
            priority: match input.priority {
                Some(p) => p,
                None => default_priority(),
            },
            category_id: input.category_id,
            due_date: input.due_date,
            created_at: now,
            updated_at: now,
        }
    }

    /// The store after an accepted task input.
    pub open spec fn create_task(self, input: CreateTaskInputView, now: Seq<char>) -> DatabaseView {
        DatabaseView {
            tasks: self.tasks.push(self.new_task(input, now)),
            next_task_id: self.next_task_id + 1,
            ..self
        }
    }

    /// Why a partial change is turned down, if it is.
    pub open spec fn update_task_rejection(self, input: UpdateTaskInputView) -> Option<
        StoreErrorView,
    > {
        if !input.is_valid() {
            Some(StoreErrorView::Validation(input.violations()))
        } else if !self.has_task(input.id) {
            Some(StoreErrorView::NotFound)
        } else if input.category_id is Some && !self.has_category(input.category_id->0) {
            Some(StoreErrorView::StoreFailure(StoreFault::UnknownCategory))
        } else {
            None
        }
    }

    /// The task that an accepted partial change leaves.
    pub open spec fn updated_task(self, input: UpdateTaskInputView, now: Seq<char>) -> TaskView {
        apply_update(self.tasks[self.task_position(input.id)], input, now)
    }

    /// The store after an accepted partial change.
    pub open spec fn update_task(self, input: UpdateTaskInputView, now: Seq<char>) -> DatabaseView {
        DatabaseView {
            tasks: self.tasks.update(self.task_position(input.id), self.updated_task(input, now)),
            ..self
        }
    }

    /// The store without the task `id` and without its links.
    pub open spec fn delete_task(self, id: int) -> DatabaseView {
        DatabaseView {
            tasks: self.tasks.filter(task_other_than(id)),
            task_tags: self.task_tags.filter(link_other_than(id)),
            ..self
        }
    }

    /// Why a category input is turned down, if it is.
    pub open spec fn create_category_rejection(self, input: CreateCategoryInputView) -> Option<
        StoreErrorView,
    > {
        if !input.is_valid() {
            Some(StoreErrorView::Validation(input.violations()))
        } else if self.next_category_id >= ID_MAX {
            Some(StoreErrorView::StoreFailure(StoreFault::IdentifiersExhausted))
        } else {
            None
        }
    }

    /// The category that an accepted input creates at the time `now`.
    pub open spec fn new_category(self, input: CreateCategoryInputView, now: Seq<char>)
        -> CategoryView {
        CategoryView {
            id: self.next_category_id,
            name: input.name,
            color: match input.color {
                Some(c) => c,
                None => default_color(),
            },
            created_at: now,
        }
    }

    /// The store after an accepted category input.
    pub open spec fn create_category(self, input: CreateCategoryInputView, now: Seq<char>)
        -> DatabaseView {
        DatabaseView {
            categories: self.categories.push(self.new_category(input, now)),
            next_category_id: self.next_category_id + 1,
            ..self
        }
    }

    /// The store without the category `id`, every task that named it naming
    /// none.
    pub open spec fn delete_category(self, id: int) -> DatabaseView {
        DatabaseView {
            tasks: self.tasks.map_values(|t: TaskView| unlinked(t, id)),
            categories: self.categories.filter(category_other_than(id)),
            ..self
        }
    }

    /// The store with `value` under `key`, written at the time `now`: in
    /// place where the key is stored, at the end where it is not.
    pub open spec fn set_setting(self, key: Seq<char>, value: Seq<char>, now: Seq<char>)
        -> DatabaseView {
        let entry = AppSettingView { key, value, updated_at: now };
        DatabaseView {
            settings: if self.has_setting(key) {
                self.settings.update(self.setting_position(key), entry)
            } else {
                self.settings.push(entry)
            },
            ..self
        }
    }

    /// The store with no task, link or setting, and with only the
    /// categories that bear the protected name.
    pub open spec fn clear_all_data(self) -> DatabaseView {
        DatabaseView {
            tasks: Seq::empty(),
            task_tags: Seq::empty(),
            settings: Seq::empty(),
            categories: self.categories.filter(is_protected()),
            ..self
        }
    }
}

} // verus!
