//! The rows of the store and the operations on them.
//!
//! Every operation here expects rows that meet the invariant of the store
//! and leaves rows that meet it; [`crate::database::Database`] wraps them
//! so that callers never see rows that do not.

use crate::error::{StoreError, StoreFault};
use crate::invariants::{
    lemma_clear_wf, lemma_create_category_wf, lemma_create_task_wf, lemma_delete_category_wf,
    lemma_delete_task_tasks, lemma_empty_wf, lemma_set_setting_wf, lemma_setting_position,
    lemma_task_position, lemma_update_task_wf,
};
use crate::model::{
    by_name, category_other_than, category_valid, is_protected, link_other_than, matching,
    newest_task_first, task_matches, task_other_than, task_valid, unlinked, DatabaseView, TaskTag,
    ID_MAX,
};
use crate::models::{
    clone_opt_text, opt_text, AppSetting, Category, CategoryView, CreateCategoryInput,
    CreateTaskInput, Task, TaskFilters, TaskView, UpdateTaskInput,
};
use crate::seqs::{
    lemma_filter_empty, lemma_filter_step, lemma_insert_ordered, ordered, transitive,
};
use crate::text::{
    contains_text, lemma_text_le_antisymmetric, lemma_text_le_transitive, same_text,
    text_at_or_before, text_le,
};
use crate::validation::{category_fields_valid, task_fields_valid};
use vstd::prelude::*;
use vstd::seq_lib::{to_multiset_build, to_multiset_insert};
use vstd::string::*;

verus! {

/// The tables of the store.
pub struct Rows {
    pub tasks: Vec<Task>,
    pub categories: Vec<Category>,
    pub settings: Vec<AppSetting>,
    pub task_tags: Vec<TaskTag>,
    pub next_task_id: i64,
    pub next_category_id: i64,
}

impl View for Rows {
    type V = DatabaseView;

    open spec fn view(&self) -> DatabaseView {
        DatabaseView {
            tasks: self.tasks.deep_view(),
            categories: self.categories.deep_view(),
            settings: self.settings.deep_view(),
            task_tags: self.task_tags@,
            next_task_id: self.next_task_id as int,
            next_category_id: self.next_category_id as int,
        }
    }
}

/// The order by name is transitive.
pub proof fn lemma_by_name_transitive()
    ensures
        transitive(by_name()),
{
    let le = by_name();
    assert forall|a: CategoryView, b: CategoryView, c: CategoryView|
        #[trigger] le(a, b) && #[trigger] le(b, c) implies le(a, c) by {
        lemma_text_le_transitive(a.name, b.name, c.name);
        if a.name == c.name {
            lemma_text_le_antisymmetric(a.name, b.name);
        }
    }
}

/// Whether `a` is listed at or before `b`. Of two categories that differ
/// in name or identifier exactly one is listed before the other.
pub fn goes_before(a: &Category, b: &Category) -> (yes: bool)
    ensures
        yes == by_name()(a@, b@),
        !yes ==> by_name()(b@, a@),
{
    if !text_at_or_before(a.name.as_str(), b.name.as_str()) {
        false
    } else if same_text(a.name.as_str(), b.name.as_str()) {
        a.id <= b.id
    } else {
        proof {
            if text_le(b@.name, a@.name) {
                lemma_text_le_antisymmetric(a@.name, b@.name);
            }
        }
        true
    }
}

/// The order of the task listing is transitive.
pub proof fn lemma_newest_task_first_transitive()
    ensures
        transitive(newest_task_first()),
{
    let le = newest_task_first();
    assert forall|a: TaskView, b: TaskView, c: TaskView|
        #[trigger] le(a, b) && #[trigger] le(b, c) implies le(a, c) by {
        lemma_text_le_transitive(c.created_at, b.created_at, a.created_at);
        if a.created_at == c.created_at {
            lemma_text_le_antisymmetric(a.created_at, b.created_at);
        }
    }
}

/// Whether `a` is listed at or before `b`. Of two tasks that differ in
/// `created_at` or identifier exactly one is listed before the other.
pub fn task_goes_before(a: &Task, b: &Task) -> (yes: bool)
    ensures
        yes == newest_task_first()(a@, b@),
        !yes ==> newest_task_first()(b@, a@),
{
    if !text_at_or_before(b.created_at.as_str(), a.created_at.as_str()) {
        proof {
            if a@.created_at == b@.created_at {
                assert(a@.created_at =~= a@.created_at.subrange(0, a@.created_at.len() as int));
            }
        }
        false
    } else if same_text(a.created_at.as_str(), b.created_at.as_str()) {
        proof {
            assert(a@.created_at =~= a@.created_at.subrange(0, a@.created_at.len() as int));
        }
        a.id >= b.id
    } else {
        proof {
            if text_le(a@.created_at, b@.created_at) {
                lemma_text_le_antisymmetric(a@.created_at, b@.created_at);
            }
        }
        true
    }
}

/// Whether a task meets every criterion that is present.
pub fn task_meets(task: &Task, filters: &TaskFilters) -> (hit: bool)
    ensures
        hit == task_matches(task@, filters@),
{
    let by_completed = match filters.completed {
        Some(c) => task.completed == c,
        None => true,
    };
    if !by_completed {
        return false;
    }
    let by_priority = match &filters.priority {
        Some(p) => same_text(task.priority.as_str(), p.as_str()),
        None => true,
    };
    if !by_priority {
        return false;
    }
    let by_category = match filters.category_id {
        Some(c) => match task.category_id {
            Some(d) => c == d,
            None => false,
        },
        None => true,
    };
    if !by_category {
        return false;
    }
    match &filters.search {
        Some(s) => {
            if contains_text(task.title.as_str(), s.as_str()) {
                true
            } else {
                match &task.description {
                    Some(d) => contains_text(d.as_str(), s.as_str()),
                    None => false,
                }
            }
        },
        None => true,
    }
}

impl Rows {
    /// Rows that hold nothing.
    pub fn empty() -> (rows: Rows)
        ensures
            rows@ == DatabaseView::empty(),
            rows@.wf(),
    {
        let rows = Rows {
            tasks: Vec::new(),
            categories: Vec::new(),
            settings: Vec::new(),
            task_tags: Vec::new(),
            next_task_id: 1,
            next_category_id: 1,
        };
        proof {
            lemma_empty_wf();
            assert(rows.tasks.deep_view() =~= Seq::empty());
            assert(rows.categories.deep_view() =~= Seq::empty());
            assert(rows.settings.deep_view() =~= Seq::empty());
            assert(rows.task_tags@ =~= Seq::empty());
        }
        rows
    }

    /// A copy of the rows.
    pub fn duplicate(&self) -> (copy: Rows)
        ensures
            copy@ == self@,
    {
        let tasks = self.tasks.clone();
        let categories = self.categories.clone();
        let settings = self.settings.clone();
        let task_tags = self.task_tags.clone();
        proof {
            assert(tasks@ =~= self.tasks@);
            assert(categories@ =~= self.categories@);
            assert(settings@ =~= self.settings@);
            assert(task_tags@ =~= self.task_tags@);
        }
        Rows {
            tasks,
            categories,
            settings,
            task_tags,
            next_task_id: self.next_task_id,
            next_category_id: self.next_category_id,
        }
    }

    /// Where the task `id` stands.
    pub fn task_index(&self, id: i64) -> (at: Option<usize>)
        requires
            self@.wf(),
        ensures
            at is Some <==> self@.has_task(id as int),
            at matches Some(i) ==> i < self.tasks.len() && self.tasks[i as int].id == id
                && self@.task_position(id as int) == i,
    {
        let mut i: usize = 0;
        while i < self.tasks.len()
            invariant
                i <= self.tasks.len(),
                self@.wf(),
                forall|k: int| 0 <= k < i ==> self.tasks[k].id != id,
            decreases self.tasks.len() - i,
        {
            if self.tasks[i].id == id {
                proof {
                    assert(self@.tasks[i as int].id == id);
                    lemma_task_position(self@, i as int);
                }
                return Some(i);
            }
            i = i + 1;
        }
        proof {
            if self@.has_task(id as int) {
                let k = choose|k: int|
                    0 <= k < self@.tasks.len() && (#[trigger] self@.tasks[k]).id == id as int;
                assert(self.tasks[k].id == id);
            }
        }
        None
    }

    /// Whether the category `id` is stored.
    pub fn has_category(&self, id: i64) -> (found: bool)
        ensures
            found == self@.has_category(id as int),
    {
        let mut i: usize = 0;
        while i < self.categories.len()
            invariant
                i <= self.categories.len(),
                forall|k: int| 0 <= k < i ==> self.categories[k].id != id,
            decreases self.categories.len() - i,
        {
            if self.categories[i].id == id {
                proof {
                    assert(self@.categories[i as int].id == id);
                }
                return true;
            }
            i = i + 1;
        }
        proof {
            if self@.has_category(id as int) {
                let k = choose|k: int|
                    0 <= k < self@.categories.len() && (#[trigger] self@.categories[k]).id
                        == id as int;
                assert(self.categories[k].id == id);
            }
        }
        false
    }

    /// Where the setting `key` stands.
    pub fn setting_index(&self, key: &str) -> (at: Option<usize>)
        requires
            self@.wf(),
        ensures
            at is Some <==> self@.has_setting(key@),
            at matches Some(i) ==> i < self.settings.len() && self.settings[i as int].key@ == key@
                && self@.setting_position(key@) == i,
    {
        let mut i: usize = 0;
        while i < self.settings.len()
            invariant
                i <= self.settings.len(),
                self@.wf(),
                forall|k: int| 0 <= k < i ==> self.settings[k].key@ != key@,
            decreases self.settings.len() - i,
        {
            if same_text(self.settings[i].key.as_str(), key) {
                proof {
                    assert(self@.settings[i as int].key == key@);
                    lemma_setting_position(self@, i as int);
                }
                return Some(i);
            }
            i = i + 1;
        }
        proof {
            if self@.has_setting(key@) {
                let k = choose|k: int|
                    0 <= k < self@.settings.len() && (#[trigger] self@.settings[k]).key == key@;
                assert(self.settings[k].key@ == key@);
            }
        }
        None
    }

    /// The task `id`, if it is stored.
    pub fn get_task(&self, id: i64) -> (found: Option<Task>)
        requires
            self@.wf(),
        ensures
            found.deep_view() == self@.find_task(id as int),
    {
        match self.task_index(id) {
            Some(i) => Some(self.tasks[i].clone()),
            None => None,
        }
    }

    /// The tasks that meet `filters`, latest `created_at` first.
    pub fn get_tasks(&self, filters: &Option<TaskFilters>) -> (found: Vec<Task>)
        ensures
            self@.is_task_listing(filters.deep_view(), found.deep_view()),
    {
        let ghost le = newest_task_first();
        let ghost test = matching(filters.deep_view());
        let ghost all = self@.tasks;
        let mut found: Vec<Task> = Vec::new();
        let mut i: usize = 0;
        proof {
            assert(found.deep_view() =~= Seq::empty());
            assert(all.take(0) =~= Seq::empty());
            lemma_filter_empty(test);
            lemma_newest_task_first_transitive();
        }
        while i < self.tasks.len()
            invariant
                i <= self.tasks.len(),
                all == self@.tasks,
                le == newest_task_first(),
                test == matching(filters.deep_view()),
                transitive(le),
                ordered(found.deep_view(), le),
                found.deep_view().to_multiset() == all.take(i as int).filter(test).to_multiset(),
            decreases self.tasks.len() - i,
        {
            let task = &self.tasks[i];
            let hit = match filters {
                Some(f) => task_meets(task, f),
                None => true,
            };
            proof {
                assert(all[i as int] == task@);
                assert(all.take(i as int + 1) =~= all.take(i as int).push(task@));
                lemma_filter_step(all.take(i as int), task@, test);
                assert(hit == test(task@));
            }
            if hit {
                let entry = task.clone();
                let ghost so_far = found.deep_view();
                let mut p: usize = found.len();
                let mut settled = false;
                while p > 0 && !settled
                    invariant
                        p <= found.len(),
                        found.deep_view() == so_far,
                        settled ==> p > 0 && le(so_far[p - 1], entry@),
                        forall|k: int| p <= k < so_far.len() ==> le(entry@, #[trigger] so_far[k]),
                        le == newest_task_first(),
                    decreases
                            (if settled {
                                0int
                            } else {
                                p + 1
                            }),
                {
                    if task_goes_before(&found[p - 1], &entry) {
                        settled = true;
                    } else {
                        p = p - 1;
                    }
                }
                proof {
                    to_multiset_build(all.take(i as int).filter(test), entry@);
                    to_multiset_insert(so_far, p as int, entry@);
                    lemma_insert_ordered(so_far, le, p as int, entry@);
                }
                found.insert(p, entry);
                proof {
                    assert(found.deep_view() =~= so_far.insert(p as int, all[i as int]));
                }
            }
            i = i + 1;
        }
        proof {
            assert(all.take(i as int) =~= all);
        }
        found
    }

    /// Creates a task at the time `now`, or says why not.
    pub fn create_task_at(&mut self, input: CreateTaskInput, now: String) -> (r: Result<
        Task,
        StoreError,
    >)
        requires
            old(self)@.wf(),
        ensures
            final(self)@.wf(),
            r is Err <==> old(self)@.create_task_rejection(input@) is Some,
            r matches Err(e) ==> Some(e@) == old(self)@.create_task_rejection(input@) && final(self)@ == old(self)@,
            r matches Ok(task) ==> task@ == old(self)@.new_task(input@, now@) && final(self)@
                == old(self)@.create_task(input@, now@),
    {
        match input.validate() {
            Err(errors) => {
                return Err(StoreError::Validation(errors));
            },
            Ok(()) => {},
        }
        match input.category_id {
            Some(c) => {
                if !self.has_category(c) {
                    return Err(StoreError::StoreFailure(StoreFault::UnknownCategory));
                }
            },
            None => {},
        }
        if self.next_task_id >= ID_MAX {
            return Err(StoreError::StoreFailure(StoreFault::IdentifiersExhausted));
        }
        let ghost before = self@;
        let ghost wanted = input@;
        let id = self.next_task_id;
        let priority = match input.priority {
            Some(p) => p,
            None => String::from_str("medium"),
        };
        let task = Task {
            id,
            title: input.title,
            description: input.description,
            completed: false,
            priority,
            category_id: input.category_id,
            due_date: input.due_date,
            created_at: now.clone(),
            updated_at: now,
        };
        let out = task.clone();
        proof {
            assert(task@ == before.new_task(wanted, now@));
            lemma_create_task_wf(before, wanted, now@);
        }
        self.next_task_id = id + 1;
        self.tasks.push(task);
        proof {
            assert(self.tasks.deep_view() =~= before.tasks.push(out@));
            assert(self@ == before.create_task(wanted, now@));
        }
        Ok(out)
    }

    /// Applies a partial change at the time `now`, or says why not.
    pub fn update_task_at(&mut self, input: UpdateTaskInput, now: String) -> (r: Result<
        Task,
        StoreError,
    >)
        requires
            old(self)@.wf(),
        ensures
            final(self)@.wf(),
            r is Err <==> old(self)@.update_task_rejection(input@) is Some,
            r matches Err(e) ==> Some(e@) == old(self)@.update_task_rejection(input@) && final(self)@ == old(self)@,
            r matches Ok(task) ==> task@ == old(self)@.updated_task(input@, now@) && final(self)@
                == old(self)@.update_task(input@, now@),
    {
        match input.validate() {
            Err(errors) => {
                return Err(StoreError::Validation(errors));
            },
            Ok(()) => {},
        }
        let at = match self.task_index(input.id) {
            Some(i) => i,
            None => {
                return Err(StoreError::NotFound);
            },
        };
        match input.category_id {
            Some(c) => {
                if !self.has_category(c) {
                    return Err(StoreError::StoreFailure(StoreFault::UnknownCategory));
                }
            },
            None => {},
        }
        let ghost before = self@;
        let ghost wanted = input@;
        let current = &self.tasks[at];
        let task = Task {
            id: current.id,
            title: match input.title {
                Some(t) => t,
                None => current.title.clone(),
            },
            description: match input.description {
                Some(d) => Some(d),
                None => clone_opt_text(&current.description),
            },
            completed: match input.completed {
                Some(c) => c,
                None => current.completed,
            },
            priority: match input.priority {
                Some(p) => p,
                None => current.priority.clone(),
            },
            category_id: match input.category_id {
                Some(c) => Some(c),
                None => current.category_id,
            },
            due_date: match input.due_date {
                Some(d) => Some(d),
                None => clone_opt_text(&current.due_date),
            },
            created_at: current.created_at.clone(),
            updated_at: now,
        };
        let out = task.clone();
        proof {
            assert(before.tasks[at as int] == current@);
            assert(task@ == before.updated_task(wanted, now@));
            lemma_update_task_wf(before, wanted, now@);
        }
        self.tasks.set(at, task);
        proof {
            assert(self.tasks.deep_view() =~= before.tasks.update(at as int, out@));
            assert(self@ == before.update_task(wanted, now@));
        }
        Ok(out)
    }

    /// Removes the task `id` and its links. A task that is not stored is
    /// not an error.
    pub fn delete_task(&mut self, id: i64)
        requires
            old(self)@.wf(),
        ensures
            final(self)@.wf(),
            final(self)@ == old(self)@.delete_task(id as int),
    {
        let ghost before = self@;
        let ghost keep = task_other_than(id as int);
        let ghost keep_link = link_other_than(id as int);
        let mut tasks: Vec<Task> = Vec::new();
        let mut i: usize = 0;
        proof {
            lemma_filter_empty(keep);
            assert(before.tasks.take(0) =~= Seq::empty());
            assert(tasks.deep_view() =~= Seq::empty());
        }
        while i < self.tasks.len()
            invariant
                i <= self.tasks.len(),
                self@ == before,
                keep == task_other_than(id as int),
                tasks.deep_view() == before.tasks.take(i as int).filter(keep),
            decreases self.tasks.len() - i,
        {
            let task = &self.tasks[i];
            let ghost so_far = tasks.deep_view();
            proof {
                assert(before.tasks[i as int] == task@);
                assert(before.tasks.take(i as int + 1) =~= before.tasks.take(i as int).push(task@));
                lemma_filter_step(before.tasks.take(i as int), task@, keep);
            }
            if task.id != id {
                tasks.push(task.clone());
                proof {
                    assert(tasks.deep_view() =~= so_far.push(task@));
                }
            }
            i = i + 1;
        }
        let mut links: Vec<TaskTag> = Vec::new();
        let mut k: usize = 0;
        proof {
            assert(before.tasks.take(i as int) =~= before.tasks);
            lemma_filter_empty(keep_link);
            assert(before.task_tags.take(0) =~= Seq::empty());
        }
        while k < self.task_tags.len()
            invariant
                k <= self.task_tags.len(),
                self@ == before,
                keep_link == link_other_than(id as int),
                links@ == before.task_tags.take(k as int).filter(keep_link),
            decreases self.task_tags.len() - k,
        {
            let link = self.task_tags[k];
            proof {
                assert(before.task_tags.take(k as int + 1) =~= before.task_tags.take(
                    k as int,
                ).push(link));
                lemma_filter_step(before.task_tags.take(k as int), link, keep_link);
            }
            if link.task_id != id {
                links.push(link);
            }
            k = k + 1;
        }
        proof {
            assert(before.task_tags.take(k as int) =~= before.task_tags);
            lemma_delete_task_tasks(before, id as int);
        }
        self.tasks = tasks;
        self.task_tags = links;
    }

    /// Creates a category at the time `now`, or says why not.
    pub fn create_category_at(&mut self, input: CreateCategoryInput, now: String) -> (r: Result<
        Category,
        StoreError,
    >)
        requires
            old(self)@.wf(),
        ensures
            final(self)@.wf(),
            r is Err <==> old(self)@.create_category_rejection(input@) is Some,
            r matches Err(e) ==> Some(e@) == old(self)@.create_category_rejection(input@) && final(self)@ == old(self)@,
            r matches Ok(category) ==> category@ == old(self)@.new_category(input@, now@) && final(self)@ == old(self)@.create_category(input@, now@),
    {
        match input.validate() {
            Err(errors) => {
                return Err(StoreError::Validation(errors));
            },
            Ok(()) => {},
        }
        if self.next_category_id >= ID_MAX {
            return Err(StoreError::StoreFailure(StoreFault::IdentifiersExhausted));
        }
        let ghost before = self@;
        let ghost wanted = input@;
        let id = self.next_category_id;
        let color = match input.color {
            Some(c) => c,
            None => String::from_str("#F97316"),
        };
        let category = Category { id, name: input.name, color, created_at: now };
        let out = category.clone();
        proof {
            assert(category@ == before.new_category(wanted, now@));
            lemma_create_category_wf(before, wanted, now@);
        }
        self.next_category_id = id + 1;
        self.categories.push(category);
        proof {
            assert(self.categories.deep_view() =~= before.categories.push(out@));
            assert(self@ == before.create_category(wanted, now@));
        }
        Ok(out)
    }

    /// Removes the category `id`; every task that named it names none
    /// after. A category that is not stored is not an error.
    pub fn delete_category(&mut self, id: i64)
        requires
            old(self)@.wf(),
        ensures
            final(self)@.wf(),
            final(self)@ == old(self)@.delete_category(id as int),
    {
        let ghost before = self@;
        let ghost keep = category_other_than(id as int);
        let mut tasks: Vec<Task> = Vec::new();
        let mut i: usize = 0;
        while i < self.tasks.len()
            invariant
                i <= self.tasks.len(),
                self@ == before,
                tasks.len() == i,
                forall|k: int| 0 <= k < i ==> (#[trigger] tasks[k])@ == unlinked(
                    before.tasks[k],
                    id as int,
                ),
            decreases self.tasks.len() - i,
        {
            let mut task = self.tasks[i].clone();
            proof {
                assert(before.tasks[i as int] == task@);
            }
            match task.category_id {
                Some(c) => {
                    if c == id {
                        task.category_id = None;
                    }
                },
                None => {},
            }
            tasks.push(task);
            i = i + 1;
        }
        let mut categories: Vec<Category> = Vec::new();
        let mut k: usize = 0;
        proof {
            lemma_filter_empty(keep);
            assert(before.categories.take(0) =~= Seq::empty());
            assert(categories.deep_view() =~= Seq::empty());
        }
        while k < self.categories.len()
            invariant
                k <= self.categories.len(),
                self@ == before,
                keep == category_other_than(id as int),
                categories.deep_view() == before.categories.take(k as int).filter(keep),
            decreases self.categories.len() - k,
        {
            let category = &self.categories[k];
            let ghost so_far = categories.deep_view();
            proof {
                assert(before.categories[k as int] == category@);
                assert(before.categories.take(k as int + 1) =~= before.categories.take(
                    k as int,
                ).push(category@));
                lemma_filter_step(before.categories.take(k as int), category@, keep);
            }
            if category.id != id {
                categories.push(category.clone());
                proof {
                    assert(categories.deep_view() =~= so_far.push(category@));
                }
            }
            k = k + 1;
        }
        proof {
            assert(before.categories.take(k as int) =~= before.categories);
            assert(tasks.deep_view() =~= before.tasks.map_values(
                |t: crate::models::TaskView| unlinked(t, id as int),
            ));
            lemma_delete_category_wf(before, id as int);
        }
        self.tasks = tasks;
        self.categories = categories;
    }

    /// The categories, ordered by name.
    pub fn get_categories(&self) -> (found: Vec<Category>)
        ensures
            self@.is_category_listing(found.deep_view()),
    {
        let ghost le = by_name();
        let ghost all = self@.categories;
        let mut found: Vec<Category> = Vec::new();
        let mut i: usize = 0;
        proof {
            assert(found.deep_view() =~= Seq::empty());
            assert(all.take(0) =~= Seq::empty());
            lemma_by_name_transitive();
        }
        while i < self.categories.len()
            invariant
                i <= self.categories.len(),
                all == self@.categories,
                le == by_name(),
                transitive(le),
                ordered(found.deep_view(), le),
                found.deep_view().to_multiset() == all.take(i as int).to_multiset(),
            decreases self.categories.len() - i,
        {
            let category = self.categories[i].clone();
            let ghost so_far = found.deep_view();
            let mut p: usize = found.len();
            let mut settled = false;
            while p > 0 && !settled
                invariant
                    p <= found.len(),
                    found.deep_view() == so_far,
                    settled ==> p > 0 && le(so_far[p - 1], category@),
                    forall|k: int| p <= k < so_far.len() ==> le(category@, #[trigger] so_far[k]),
                    le == by_name(),
                decreases
                        (if settled {
                            0int
                        } else {
                            p + 1
                        }),
            {
                if goes_before(&found[p - 1], &category) {
                    settled = true;
                } else {
                    p = p - 1;
                }
            }
            proof {
                assert(all[i as int] == category@);
                assert(all.take(i as int + 1) =~= all.take(i as int).push(category@));
                to_multiset_build(all.take(i as int), category@);
                to_multiset_insert(so_far, p as int, category@);
                lemma_insert_ordered(so_far, le, p as int, category@);
            }
            found.insert(p, category);
            proof {
                assert(found.deep_view() =~= so_far.insert(p as int, all[i as int]));
            }
            i = i + 1;
        }
        proof {
            assert(all.take(i as int) =~= all);
        }
        found
    }

    /// The value under `key`, if the key is stored.
    pub fn get_setting(&self, key: &str) -> (value: Option<String>)
        requires
            self@.wf(),
        ensures
            opt_text(value) == self@.get_setting(key@),
    {
        match self.setting_index(key) {
            Some(i) => Some(self.settings[i].value.clone()),
            None => None,
        }
    }

    /// Writes `value` under `key` at the time `now`.
    pub fn set_setting_at(&mut self, key: &str, value: &str, now: String)
        requires
            old(self)@.wf(),
        ensures
            final(self)@.wf(),
            final(self)@ == old(self)@.set_setting(key@, value@, now@),
    {
        let ghost before = self@;
        let entry = AppSetting {
            key: String::from_str(key),
            value: String::from_str(value),
            updated_at: now,
        };
        let ghost written = entry@;
        proof {
            lemma_set_setting_wf(before, key@, value@, now@);
        }
        match self.setting_index(key) {
            Some(i) => {
                self.settings.set(i, entry);
                proof {
                    assert(self.settings.deep_view() =~= before.settings.update(i as int, written));
                }
            },
            None => {
                self.settings.push(entry);
                proof {
                    assert(self.settings.deep_view() =~= before.settings.push(written));
                }
            },
        }
    }

    /// Every setting, in the order in which the keys were first written.
    pub fn get_all_settings(&self) -> (all: Vec<AppSetting>)
        ensures
            all.deep_view() == self@.settings,
    {
        let mut all: Vec<AppSetting> = Vec::new();
        let mut i: usize = 0;
        while i < self.settings.len()
            invariant
                i <= self.settings.len(),
                all.len() == i,
                forall|k: int| 0 <= k < i ==> (#[trigger] all[k])@ == self@.settings[k],
            decreases self.settings.len() - i,
        {
            all.push(self.settings[i].clone());
            i = i + 1;
        }
        proof {
            assert(all.deep_view() =~= self@.settings);
        }
        all
    }

    /// Removes every task, link and setting, and every category but those
    /// that bear the protected name.
    pub fn clear_all_data(&mut self)
        requires
            old(self)@.wf(),
        ensures
            final(self)@.wf(),
            final(self)@ == old(self)@.clear_all_data(),
    {
        let ghost before = self@;
        let ghost keep = is_protected();
        let mut categories: Vec<Category> = Vec::new();
        let mut k: usize = 0;
        proof {
            lemma_filter_empty(keep);
            assert(before.categories.take(0) =~= Seq::empty());
            assert(categories.deep_view() =~= Seq::empty());
        }
        while k < self.categories.len()
            invariant
                k <= self.categories.len(),
                self@ == before,
                keep == is_protected(),
                categories.deep_view() == before.categories.take(k as int).filter(keep),
            decreases self.categories.len() - k,
        {
            let category = &self.categories[k];
            let ghost so_far = categories.deep_view();
            proof {
                assert(before.categories[k as int] == category@);
                assert(before.categories.take(k as int + 1) =~= before.categories.take(
                    k as int,
                ).push(category@));
                lemma_filter_step(before.categories.take(k as int), category@, keep);
            }
            if same_text(category.name.as_str(), "General") {
                categories.push(category.clone());
                proof {
                    assert(categories.deep_view() =~= so_far.push(category@));
                }
            }
            k = k + 1;
        }
        proof {
            assert(before.categories.take(k as int) =~= before.categories);
            lemma_clear_wf(before);
        }
        self.tasks = Vec::new();
        self.task_tags = Vec::new();
        self.settings = Vec::new();
        self.categories = categories;
        proof {
            assert(self.tasks.deep_view() =~= Seq::empty());
            assert(self.settings.deep_view() =~= Seq::empty());
            assert(self.task_tags@ =~= Seq::empty());
        }
    }

    /// Whether the identifiers of the tasks are in order and in range.
    pub fn task_ids_in_order(&self) -> (ok: bool)
        ensures
            ok == self@.task_ids_ok(),
    {
        if self.next_task_id < 1 || self.next_task_id > ID_MAX {
            return false;
        }
        let mut i: usize = 0;
        while i < self.tasks.len()
            invariant
                i <= self.tasks.len(),
                forall|k: int| 0 <= k < i ==> 1 <= (#[trigger] self@.tasks[k]).id < self@.next_task_id,
                forall|a: int, b: int|
                    0 <= a < b < i ==> (#[trigger] self@.tasks[a]).id < (#[trigger] self@.tasks[b]).id,
            decreases self.tasks.len() - i,
        {
            let id = self.tasks[i].id;
            proof {
                assert(self@.tasks[i as int].id == id);
            }
            if id < 1 || id >= self.next_task_id {
                return false;
            }
            if i > 0 {
                let previous = self.tasks[i - 1].id;
                proof {
                    assert(self@.tasks[i as int - 1].id == previous);
                }
                if previous >= id {
                    return false;
                }
                proof {
                    assert forall|a: int| 0 <= a < i implies (#[trigger] self@.tasks[a]).id < id by {
                        if a < i - 1 {
                            assert(self@.tasks[a].id < self@.tasks[i as int - 1].id);
                        }
                    }
                }
            }
            i = i + 1;
        }
        true
    }

    /// Whether the identifiers of the categories are in order and in range.
    pub fn category_ids_in_order(&self) -> (ok: bool)
        ensures
            ok == self@.category_ids_ok(),
    {
        if self.next_category_id < 1 || self.next_category_id > ID_MAX {
            return false;
        }
        let mut i: usize = 0;
        while i < self.categories.len()
            invariant
                i <= self.categories.len(),
                forall|k: int|
                    0 <= k < i ==> 1 <= (#[trigger] self@.categories[k]).id
                        < self@.next_category_id,
                forall|a: int, b: int|
                    0 <= a < b < i ==> (#[trigger] self@.categories[a]).id < (
                    #[trigger] self@.categories[b]).id,
            decreases self.categories.len() - i,
        {
            let id = self.categories[i].id;
            proof {
                assert(self@.categories[i as int].id == id);
            }
            if id < 1 || id >= self.next_category_id {
                return false;
            }
            if i > 0 {
                let previous = self.categories[i - 1].id;
                proof {
                    assert(self@.categories[i as int - 1].id == previous);
                }
                if previous >= id {
                    return false;
                }
                proof {
                    assert forall|a: int| 0 <= a < i implies (#[trigger] self@.categories[a]).id
                        < id by {
                        if a < i - 1 {
                            assert(self@.categories[a].id < self@.categories[i as int - 1].id);
                        }
                    }
                }
            }
            i = i + 1;
        }
        true
    }

    /// Whether every record meets the rules of its fields.
    pub fn records_are_valid(&self) -> (ok: bool)
        ensures
            ok == self@.records_valid(),
    {
        let mut i: usize = 0;
        while i < self.tasks.len()
            invariant
                i <= self.tasks.len(),
                forall|k: int| 0 <= k < i ==> task_valid(#[trigger] self@.tasks[k]),
            decreases self.tasks.len() - i,
        {
            let t = &self.tasks[i];
            proof {
                assert(self@.tasks[i as int] == t@);
            }
            if !task_fields_valid(t.title.as_str(), &t.description, t.priority.as_str(), &t.due_date) {
                return false;
            }
            i = i + 1;
        }
        let mut k: usize = 0;
        while k < self.categories.len()
            invariant
                k <= self.categories.len(),
                forall|j: int| 0 <= j < self@.tasks.len() ==> task_valid(#[trigger] self@.tasks[j]),
                forall|j: int| 0 <= j < k ==> category_valid(#[trigger] self@.categories[j]),
            decreases self.categories.len() - k,
        {
            let c = &self.categories[k];
            proof {
                assert(self@.categories[k as int] == c@);
            }
            if !category_fields_valid(c.name.as_str(), c.color.as_str()) {
                return false;
            }
            k = k + 1;
        }
        true
    }

    /// Whether a task with the identifier `id` is stored.
    pub fn holds_task(&self, id: i64) -> (found: bool)
        ensures
            found == self@.has_task(id as int),
    {
        let mut i: usize = 0;
        while i < self.tasks.len()
            invariant
                i <= self.tasks.len(),
                forall|k: int| 0 <= k < i ==> self.tasks[k].id != id,
            decreases self.tasks.len() - i,
        {
            if self.tasks[i].id == id {
                proof {
                    assert(self@.tasks[i as int].id == id);
                }
                return true;
            }
            i = i + 1;
        }
        proof {
            if self@.has_task(id as int) {
                let k = choose|k: int|
                    0 <= k < self@.tasks.len() && (#[trigger] self@.tasks[k]).id == id as int;
                assert(self.tasks[k].id == id);
            }
        }
        false
    }

    /// Whether every category that a task names and every task that a
    /// link names is stored.
    pub fn references_hold(&self) -> (ok: bool)
        ensures
            ok == self@.references_ok(),
    {
        let mut i: usize = 0;
        while i < self.tasks.len()
            invariant
                i <= self.tasks.len(),
                forall|k: int| 0 <= k < i ==> self@.category_known(#[trigger] self@.tasks[k]),
            decreases self.tasks.len() - i,
        {
            let t = &self.tasks[i];
            proof {
                assert(self@.tasks[i as int] == t@);
            }
            match t.category_id {
                Some(c) => {
                    if !self.has_category(c) {
                        return false;
                    }
                },
                None => {},
            }
            i = i + 1;
        }
        let mut k: usize = 0;
        while k < self.task_tags.len()
            invariant
                k <= self.task_tags.len(),
                forall|j: int|
                    0 <= j < self@.tasks.len() ==> self@.category_known(#[trigger] self@.tasks[j]),
                forall|j: int|
                    0 <= j < k ==> self@.has_task((#[trigger] self@.task_tags[j]).task_id as int),
            decreases self.task_tags.len() - k,
        {
            let link = self.task_tags[k];
            proof {
                assert(self@.task_tags[k as int] == link);
            }
            if !self.holds_task(link.task_id) {
                return false;
            }
            k = k + 1;
        }
        true
    }

    /// Whether no key is stored twice.
    pub fn keys_are_unique(&self) -> (ok: bool)
        ensures
            ok == self@.keys_unique(),
    {
        let mut j: usize = 0;
        while j < self.settings.len()
            invariant
                j <= self.settings.len(),
                forall|a: int, b: int|
                    0 <= a < b < j ==> (#[trigger] self@.settings[a]).key != (
                    #[trigger] self@.settings[b]).key,
            decreases self.settings.len() - j,
        {
            let mut i: usize = 0;
            while i < j
                invariant
                    i <= j,
                    j < self.settings.len(),
                    forall|a: int|
                        0 <= a < i ==> (#[trigger] self@.settings[a]).key
                            != self@.settings[j as int].key,
                decreases j - i,
            {
                if same_text(self.settings[i].key.as_str(), self.settings[j].key.as_str()) {
                    proof {
                        assert(self@.settings[i as int].key == self@.settings[j as int].key);
                    }
                    return false;
                }
                i = i + 1;
            }
            j = j + 1;
        }
        true
    }

    /// Whether the rows meet the invariant of the store.
    pub fn is_consistent(&self) -> (ok: bool)
        ensures
            ok == self@.wf(),
    {
        self.task_ids_in_order() && self.category_ids_in_order() && self.records_are_valid()
            && self.references_hold() && self.keys_are_unique()
    }

    /// The store that holds the given rows, or the fault that they do not
    /// fit together: tasks and categories must come in the order of their
    /// identifiers.
    pub fn from_parts(
        tasks: Vec<Task>,
        categories: Vec<Category>,
        settings: Vec<AppSetting>,
        task_tags: Vec<TaskTag>,
    ) -> (r: Result<Rows, StoreError>)
        ensures
            r is Ok <==> DatabaseView::loaded(
                tasks.deep_view(),
                categories.deep_view(),
                settings.deep_view(),
                task_tags@,
            ).wf(),
            r matches Ok(rows) ==> rows@ == DatabaseView::loaded(
                tasks.deep_view(),
                categories.deep_view(),
                settings.deep_view(),
                task_tags@,
            ),
            r matches Err(e) ==> e@ == crate::error::StoreErrorView::StoreFailure(
                StoreFault::InconsistentRows,
            ),
    {
        let ghost wanted = DatabaseView::loaded(
            tasks.deep_view(),
            categories.deep_view(),
            settings.deep_view(),
            task_tags@,
        );
        let next_task_id = if tasks.len() == 0 {
            1
        } else {
            let last = tasks[tasks.len() - 1].id;
            proof {
                assert(wanted.tasks.last().id == last);
            }
            if last >= ID_MAX {
                proof {
                    assert(!wanted.task_ids_ok());
                }
                return Err(StoreError::StoreFailure(StoreFault::InconsistentRows));
            }
            last + 1
        };
        let next_category_id = if categories.len() == 0 {
            1
        } else {
            let last = categories[categories.len() - 1].id;
            proof {
                assert(wanted.categories.last().id == last);
            }
            if last >= ID_MAX {
                proof {
                    assert(!wanted.category_ids_ok());
                }
                return Err(StoreError::StoreFailure(StoreFault::InconsistentRows));
            }
            last + 1
        };
        let rows = Rows { tasks, categories, settings, task_tags, next_task_id, next_category_id };
        proof {
            assert(rows@ == wanted);
        }
        if rows.is_consistent() {
            Ok(rows)
        } else {
            Err(StoreError::StoreFailure(StoreFault::InconsistentRows))
        }
    }

    /// The links between tasks and tags.
    pub fn get_task_tags(&self) -> (links: Vec<TaskTag>)
        ensures
            links@ == self@.task_tags,
    {
        let links = self.task_tags.clone();
        proof {
            assert(links@ =~= self.task_tags@);
        }
        links
    }
}

} // verus!
