//! The store: tasks, categories, settings and the links between tasks and
//! tags, held in memory.
//!
//! A [`Database`] always meets the invariant [`DatabaseView::wf`]: no
//! operation can be observed half done. An operation that is turned down
//! leaves the store as it was. The operations that stamp a time come in two
//! forms: one that reads the clock, and one, named `*_at`, that takes the
//! time from its caller.

use crate::clock;
use crate::error::{clock_failure, StoreError, StoreFault};
use crate::model::{default_priority, DatabaseView, TaskTag};
use crate::models::{
    opt_text, AppSetting, Category, CreateCategoryInput, CreateTaskInput, Task, TaskFilters,
    UpdateTaskInput,
};
use crate::restore::restore_outcome;
use crate::rows::Rows;
use vstd::prelude::*;

verus! {

/// The store.
pub struct Database {
    rows: Rows,
}

impl View for Database {
    type V = DatabaseView;

    closed spec fn view(&self) -> DatabaseView {
        self.rows@
    }
}

impl Database {
    #[verifier::type_invariant]
    spec fn well_formed(self) -> bool {
        self.rows@.wf()
    }

    /// A store that holds nothing and has assigned no identifier.
    pub fn new() -> (db: Database)
        ensures
            db@ == DatabaseView::empty(),
            db@.wf(),
    {
        Database { rows: Rows::empty() }
    }

    /// The rows of the store.
    pub(crate) fn rows(&self) -> (rows: &Rows)
        ensures
            rows@ == self@,
            rows@.wf(),
    {
        proof {
            use_type_invariant(self);
        }
        &self.rows
    }

    /// The tasks that meet every criterion of `filters`, each once, the
    /// latest `created_at` first, the times compared as text; among tasks
    /// with one `created_at` the one created last comes first. `None` lists
    /// every task.
    pub fn get_tasks(&self, filters: Option<TaskFilters>) -> (r: Result<Vec<Task>, StoreError>)
        ensures
            self@.wf(),
            r matches Ok(found) && self@.is_task_listing(filters.deep_view(), found.deep_view()),
    {
        proof {
            use_type_invariant(self);
        }
        Ok(self.rows.get_tasks(&filters))
    }

    /// The task `id`, or `None` if the store holds none.
    pub fn get_task(&self, id: i64) -> (r: Result<Option<Task>, StoreError>)
        ensures
            self@.wf(),
            r matches Ok(found) && found.deep_view() == self@.find_task(id as int),
    {
        proof {
            use_type_invariant(self);
        }
        Ok(self.rows.get_task(id))
    }

    /// Creates a task, stamped with the time `now`.
    ///
    /// The input is turned down, and the store left as it was, if it breaks
    /// a rule, names a category that is not stored, or no identifier is
    /// left. Otherwise the task gets the next identifier, is not completed,
    /// has the priority `medium` unless the input names one, and both its
    /// timestamps are `now`.
    pub fn create_task_at(&mut self, input: CreateTaskInput, now: String) -> (r: Result<
        Task,
        StoreError,
    >)
        ensures
            old(self)@.wf(),
            final(self)@.wf(),
            r is Err <==> old(self)@.create_task_rejection(input@) is Some,
            r matches Err(e) ==> Some(e@) == old(self)@.create_task_rejection(input@) && final(self)@
                == old(self)@,
            r matches Ok(task) ==> task@ == old(self)@.new_task(input@, now@) && final(self)@
                == old(self)@.create_task(input@, now@),
    {
        proof {
            use_type_invariant(&*self);
        }
        let mut rows = Rows::empty();
        core::mem::swap(&mut self.rows, &mut rows);
        let r = rows.create_task_at(input, now);
        core::mem::swap(&mut self.rows, &mut rows);
        r
    }

    /// Creates a task, stamped with the time the clock shows. Where the
    /// clock cannot be read nothing is created.
    pub fn create_task(&mut self, input: CreateTaskInput) -> (r: Result<Task, StoreError>)
        ensures
            old(self)@.wf(),
            final(self)@.wf(),
            old(self)@.create_task_rejection(input@) is Some ==> r is Err,
            r matches Err(e) ==> final(self)@ == old(self)@ && (e@ == clock_failure() || Some(e@)
                == old(self)@.create_task_rejection(input@)),
            r matches Ok(task) ==> {
                &&& task@ == old(self)@.new_task(input@, task@.created_at)
                &&& final(self)@ == old(self)@.create_task(input@, task@.created_at)
                &&& !task@.completed
                &&& task@.priority == (match input@.priority {
                    Some(p) => p,
                    None => default_priority(),
                })
                &&& task@.created_at == task@.updated_at
            },
    {
        proof {
            use_type_invariant(&*self);
        }
        match clock::now() {
            Some(now) => self.create_task_at(input, now.rfc3339),
            None => Err(StoreError::StoreFailure(StoreFault::ClockUnavailable)),
        }
    }

    /// Applies a partial change to the task `input.id`, stamped with the
    /// time `now`.
    ///
    /// The change is turned down, and the store left as it was, if a field
    /// that is present breaks its rule, the task is not stored, or the
    /// change names a category that is not stored. Otherwise every field
    /// that is present replaces the stored one, every other field stays,
    /// and `updated_at` becomes `now`.
    pub fn update_task_at(&mut self, input: UpdateTaskInput, now: String) -> (r: Result<
        Task,
        StoreError,
    >)
        ensures
            old(self)@.wf(),
            final(self)@.wf(),
            r is Err <==> old(self)@.update_task_rejection(input@) is Some,
            r matches Err(e) ==> Some(e@) == old(self)@.update_task_rejection(input@) && final(self)@
                == old(self)@,
            r matches Ok(task) ==> task@ == old(self)@.updated_task(input@, now@) && final(self)@
                == old(self)@.update_task(input@, now@),
    {
        proof {
            use_type_invariant(&*self);
        }
        let mut rows = Rows::empty();
        core::mem::swap(&mut self.rows, &mut rows);
        let r = rows.update_task_at(input, now);
        core::mem::swap(&mut self.rows, &mut rows);
        r
    }

    /// Applies a partial change, stamped with the time the clock shows.
    /// Where the clock cannot be read nothing is changed.
    pub fn update_task(&mut self, input: UpdateTaskInput) -> (r: Result<Task, StoreError>)
        ensures
            old(self)@.wf(),
            final(self)@.wf(),
            old(self)@.update_task_rejection(input@) is Some ==> r is Err,
            r matches Err(e) ==> final(self)@ == old(self)@ && (e@ == clock_failure() || Some(e@)
                == old(self)@.update_task_rejection(input@)),
            r matches Ok(task) ==> task@ == old(self)@.updated_task(input@, task@.updated_at)
                && final(self)@ == old(self)@.update_task(input@, task@.updated_at),
    {
        proof {
            use_type_invariant(&*self);
        }
        match clock::now() {
            Some(now) => self.update_task_at(input, now.rfc3339),
            None => Err(StoreError::StoreFailure(StoreFault::ClockUnavailable)),
        }
    }

    /// Removes the task `id` together with its links to tags. Removing a
    /// task that is not stored changes nothing and is no error.
    pub fn delete_task(&mut self, id: i64) -> (r: Result<(), StoreError>)
        ensures
            old(self)@.wf(),
            final(self)@.wf(),
            r is Ok,
            final(self)@ == old(self)@.delete_task(id as int),
    {
        proof {
            use_type_invariant(&*self);
        }
        let mut rows = Rows::empty();
        core::mem::swap(&mut self.rows, &mut rows);
        rows.delete_task(id);
        core::mem::swap(&mut self.rows, &mut rows);
        Ok(())
    }

    /// The categories, ordered by name.
    pub fn get_categories(&self) -> (r: Result<Vec<Category>, StoreError>)
        ensures
            self@.wf(),
            r matches Ok(found) && self@.is_category_listing(found.deep_view()),
    {
        proof {
            use_type_invariant(self);
        }
        Ok(self.rows.get_categories())
    }

    /// Creates a category, stamped with the time `now`.
    ///
    /// The input is turned down, and the store left as it was, if it breaks
    /// a rule or no identifier is left. Otherwise the category gets the
    /// next identifier and the colour `#F97316` unless the input names one.
    pub fn create_category_at(&mut self, input: CreateCategoryInput, now: String) -> (r: Result<
        Category,
        StoreError,
    >)
        ensures
            old(self)@.wf(),
            final(self)@.wf(),
            r is Err <==> old(self)@.create_category_rejection(input@) is Some,
            r matches Err(e) ==> Some(e@) == old(self)@.create_category_rejection(input@) && final(
                self)@ == old(self)@,
            r matches Ok(category) ==> category@ == old(self)@.new_category(input@, now@) && final(
                self)@ == old(self)@.create_category(input@, now@),
    {
        proof {
            use_type_invariant(&*self);
        }
        let mut rows = Rows::empty();
        core::mem::swap(&mut self.rows, &mut rows);
        let r = rows.create_category_at(input, now);
        core::mem::swap(&mut self.rows, &mut rows);
        r
    }

    /// Creates a category, stamped with the time the clock shows. Where
    /// the clock cannot be read nothing is created.
    pub fn create_category(&mut self, input: CreateCategoryInput) -> (r: Result<
        Category,
        StoreError,
    >)
        ensures
            old(self)@.wf(),
            final(self)@.wf(),
            old(self)@.create_category_rejection(input@) is Some ==> r is Err,
            r matches Err(e) ==> final(self)@ == old(self)@ && (e@ == clock_failure() || Some(e@)
                == old(self)@.create_category_rejection(input@)),
            r matches Ok(category) ==> category@ == old(self)@.new_category(
                input@,
                category@.created_at,
            ) && final(self)@ == old(self)@.create_category(input@, category@.created_at),
    {
        proof {
            use_type_invariant(&*self);
        }
        match clock::now() {
            Some(now) => self.create_category_at(input, now.rfc3339),
            None => Err(StoreError::StoreFailure(StoreFault::ClockUnavailable)),
        }
    }

    /// Removes the category `id`. Every task that named it names no
    /// category after; no task is removed. Removing a category that is not
    /// stored changes nothing and is no error.
    pub fn delete_category(&mut self, id: i64) -> (r: Result<(), StoreError>)
        ensures
            old(self)@.wf(),
            final(self)@.wf(),
            r is Ok,
            final(self)@ == old(self)@.delete_category(id as int),
    {
        proof {
            use_type_invariant(&*self);
        }
        let mut rows = Rows::empty();
        core::mem::swap(&mut self.rows, &mut rows);
        rows.delete_category(id);
        core::mem::swap(&mut self.rows, &mut rows);
        Ok(())
    }

    /// The value under `key`, or `None` if the key is not stored.
    pub fn get_setting(&self, key: &str) -> (r: Result<Option<String>, StoreError>)
        ensures
            self@.wf(),
            r matches Ok(value) && opt_text(value) == self@.get_setting(key@),
    {
        proof {
            use_type_invariant(self);
        }
        Ok(self.rows.get_setting(key))
    }

    /// Writes `value` under `key`, stamped with the time `now`: over the
    /// stored value if the key is stored, as a new setting if it is not.
    pub fn set_setting_at(&mut self, key: &str, value: &str, now: String) -> (r: Result<
        (),
        StoreError,
    >)
        ensures
            old(self)@.wf(),
            final(self)@.wf(),
            r is Ok,
            final(self)@ == old(self)@.set_setting(key@, value@, now@),
    {
        proof {
            use_type_invariant(&*self);
        }
        let mut rows = Rows::empty();
        core::mem::swap(&mut self.rows, &mut rows);
        rows.set_setting_at(key, value, now);
        core::mem::swap(&mut self.rows, &mut rows);
        Ok(())
    }

    /// Writes `value` under `key`, stamped with the time the clock shows.
    /// Where the clock cannot be read nothing is written.
    pub fn set_setting(&mut self, key: &str, value: &str) -> (r: Result<(), StoreError>)
        ensures
            old(self)@.wf(),
            final(self)@.wf(),
            r matches Err(e) ==> e@ == clock_failure() && final(self)@ == old(self)@,
            r is Ok ==> exists|now: Seq<char>|
                final(self)@ == old(self)@.set_setting(key@, value@, now),
    {
        proof {
            use_type_invariant(&*self);
        }
        match clock::now() {
            Some(now) => {
                let ghost stamp = now.rfc3339@;
                let r = self.set_setting_at(key, value, now.rfc3339);
                proof {
                    assert(self@ == old(self)@.set_setting(key@, value@, stamp));
                }
                r
            },
            None => Err(StoreError::StoreFailure(StoreFault::ClockUnavailable)),
        }
    }

    /// Every setting, in the order in which the keys were first written.
    pub fn get_all_settings(&self) -> (r: Result<Vec<AppSetting>, StoreError>)
        ensures
            self@.wf(),
            r matches Ok(all) && all.deep_view() == self@.settings,
    {
        proof {
            use_type_invariant(self);
        }
        Ok(self.rows.get_all_settings())
    }

    /// Removes every task, every link between tasks and tags, every
    /// setting, and every category but those named `General`, all at once.
    pub fn clear_all_data(&mut self) -> (r: Result<(), StoreError>)
        ensures
            old(self)@.wf(),
            final(self)@.wf(),
            r is Ok,
            final(self)@ == old(self)@.clear_all_data(),
    {
        proof {
            use_type_invariant(&*self);
        }
        let mut rows = Rows::empty();
        core::mem::swap(&mut self.rows, &mut rows);
        rows.clear_all_data();
        core::mem::swap(&mut self.rows, &mut rows);
        Ok(())
    }

    /// Puts the records of a snapshot back at the time `now`: clears the
    /// store, then creates the categories, the tasks and the settings anew,
    /// in that order and each in the order given. A task names the new
    /// category of the category it named in the snapshot, and is marked
    /// completed if it was.
    ///
    /// If any record is turned down the store is left as it was.
    pub fn restore_at(
        &mut self,
        categories: &Vec<Category>,
        tasks: &Vec<Task>,
        settings: &Vec<AppSetting>,
        now: &String,
    ) -> (r: Result<(), StoreError>)
        ensures
            old(self)@.wf(),
            final(self)@.wf(),
            match restore_outcome(
                old(self)@,
                categories.deep_view(),
                tasks.deep_view(),
                settings.deep_view(),
                now@,
            ) {
                Ok(restored) => r is Ok && final(self)@ == restored,
                Err(e) => r matches Err(x) && x@ == e && final(self)@ == old(self)@,
            },
    {
        proof {
            use_type_invariant(&*self);
        }
        let mut rows = Rows::empty();
        core::mem::swap(&mut self.rows, &mut rows);
        let r = crate::restore::restore_at(&mut rows, categories, tasks, settings, now);
        core::mem::swap(&mut self.rows, &mut rows);
        r
    }
}

impl Database {
    /// The store that holds the given rows, or the fault that the rows do
    /// not fit together.
    ///
    /// The rows fit if tasks and categories come in the order of their
    /// identifiers, every record meets the rules of its fields, every
    /// category that a task names and every task that a link names is
    /// among the rows, and no key occurs twice. The next identifiers are
    /// those after the last task and after the last category.
    pub fn load(
        tasks: Vec<Task>,
        categories: Vec<Category>,
        settings: Vec<AppSetting>,
        task_tags: Vec<TaskTag>,
    ) -> (r: Result<Database, StoreError>)
        ensures
            r is Ok <==> DatabaseView::loaded(
                tasks.deep_view(),
                categories.deep_view(),
                settings.deep_view(),
                task_tags@,
            ).wf(),
            r matches Ok(db) ==> db@ == DatabaseView::loaded(
                tasks.deep_view(),
                categories.deep_view(),
                settings.deep_view(),
                task_tags@,
            ),
            r matches Err(e) ==> e@ == crate::error::StoreErrorView::StoreFailure(
                crate::error::StoreFault::InconsistentRows,
            ),
    {
        match Rows::from_parts(tasks, categories, settings, task_tags) {
            Ok(rows) => Ok(Database { rows }),
            Err(e) => Err(e),
        }
    }

    /// The links between tasks and tags.
    pub fn get_task_tags(&self) -> (r: Result<Vec<TaskTag>, StoreError>)
        ensures
            self@.wf(),
            r matches Ok(links) && links@ == self@.task_tags,
    {
        proof {
            use_type_invariant(self);
        }
        Ok(self.rows.get_task_tags())
    }
}

impl Clone for Database {
    fn clone(&self) -> (copy: Self)
        ensures
            copy@ == self@,
    {
        proof {
            use_type_invariant(self);
        }
        Database { rows: self.rows.duplicate() }
    }
}

} // verus!
