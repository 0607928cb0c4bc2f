//! Putting a snapshot back: the store is cleared, then the categories, the
//! tasks and the settings of the snapshot are created anew, in that order.
//!
//! The store assigns fresh identifiers, so the category that a task of the
//! snapshot names is looked up among the categories of the snapshot and the
//! task is given the identifier that this category received. A restore
//! either goes through as a whole or leaves the store as it was.

use crate::error::{StoreError, StoreErrorView, StoreFault};
use crate::model::DatabaseView;
use crate::models::{
    clone_opt_text, AppSetting, AppSettingView, Category, CategoryView, CreateCategoryInput,
    CreateCategoryInputView, CreateTaskInput, CreateTaskInputView, Task, TaskView, UpdateTaskInput,
    UpdateTaskInputView,
};
use crate::rows::Rows;
use vstd::prelude::*;

verus! {

/// The new identifier of the first pair whose old identifier is `id`.
pub open spec fn remapped(pairs: Seq<(int, int)>, id: int) -> Option<int>
    decreases pairs.len(),
{
    if pairs.len() == 0 {
        None
    } else if pairs[0].0 == id {
        Some(pairs[0].1)
    } else {
        remapped(pairs.drop_first(), id)
    }
}

/// The input that creates a category of a snapshot anew.
pub open spec fn category_input(c: CategoryView) -> CreateCategoryInputView {
    CreateCategoryInputView { name: c.name, color: Some(c.color) }
}

/// The input that creates a task of a snapshot anew, its category being
/// the new one of the category it named.
pub open spec fn task_input(t: TaskView, pairs: Seq<(int, int)>) -> CreateTaskInputView {
    CreateTaskInputView {
        title: t.title,
        description: t.description,
        priority: Some(t.priority),
        category_id: match t.category_id {
            Some(c) => remapped(pairs, c),
            None => None,
        },
        due_date: t.due_date,
    }
}

/// The change that marks the task `id` completed and touches nothing else.
pub open spec fn complete_only(id: int) -> UpdateTaskInputView {
    UpdateTaskInputView {
        id,
        title: None,
        description: None,
        completed: Some(true),
        priority: None,
        category_id: None,
        due_date: None,
    }
}

/// The store after the categories were created anew, with the pairs of old
/// and new identifiers; or why one of them was turned down.
pub open spec fn replay_categories(
    db: DatabaseView,
    categories: Seq<CategoryView>,
    now: Seq<char>,
    pairs: Seq<(int, int)>,
) -> Result<(DatabaseView, Seq<(int, int)>), StoreErrorView>
    decreases categories.len(),
{
    if categories.len() == 0 {
        Ok((db, pairs))
    } else {
        let c = categories[0];
        match db.create_category_rejection(category_input(c)) {
            Some(e) => Err(e),
            None => replay_categories(
                db.create_category(category_input(c), now),
                categories.drop_first(),
                now,
                pairs.push((c.id, db.next_category_id)),
            ),
        }
    }
}

/// The store after one task of a snapshot was created anew, or why it was
/// turned down.
pub open spec fn replay_task(db: DatabaseView, t: TaskView, now: Seq<char>, pairs: Seq<(int, int)>)
    -> Result<DatabaseView, StoreErrorView> {
    if t.category_id is Some && remapped(pairs, t.category_id->0) is None {
        Err(StoreErrorView::StoreFailure(StoreFault::UnknownCategory))
    } else {
        match db.create_task_rejection(task_input(t, pairs)) {
            Some(e) => Err(e),
            None => {
                let created = db.create_task(task_input(t, pairs), now);
                if t.completed {
                    Ok(created.update_task(complete_only(db.next_task_id), now))
                } else {
                    Ok(created)
                }
            },
        }
    }
}

/// The store after the tasks were created anew, or why one of them was
/// turned down.
pub open spec fn replay_tasks(
    db: DatabaseView,
    tasks: Seq<TaskView>,
    now: Seq<char>,
    pairs: Seq<(int, int)>,
) -> Result<DatabaseView, StoreErrorView>
    decreases tasks.len(),
{
    if tasks.len() == 0 {
        Ok(db)
    } else {
        match replay_task(db, tasks[0], now, pairs) {
            Err(e) => Err(e),
            Ok(next) => replay_tasks(next, tasks.drop_first(), now, pairs),
        }
    }
}

/// The store after the settings were written anew.
pub open spec fn replay_settings(db: DatabaseView, settings: Seq<AppSettingView>, now: Seq<char>)
    -> DatabaseView
    decreases settings.len(),
{
    if settings.len() == 0 {
        db
    } else {
        replay_settings(
            db.set_setting(settings[0].key, settings[0].value, now),
            settings.drop_first(),
            now,
        )
    }
}

/// The store after a snapshot was put back at the time `now`, or why the
/// snapshot was turned down.
pub open spec fn restore_outcome(
    db: DatabaseView,
    categories: Seq<CategoryView>,
    tasks: Seq<TaskView>,
    settings: Seq<AppSettingView>,
    now: Seq<char>,
) -> Result<DatabaseView, StoreErrorView> {
    match replay_categories(db.clear_all_data(), categories, now, Seq::empty()) {
        Err(e) => Err(e),
        Ok((with_categories, pairs)) => match replay_tasks(with_categories, tasks, now, pairs) {
            Err(e) => Err(e),
            Ok(with_tasks) => Ok(replay_settings(with_tasks, settings, now)),
        },
    }
}

/// The pairs as mathematical integers.
pub open spec fn pairs_view(pairs: Seq<(i64, i64)>) -> Seq<(int, int)> {
    pairs.map_values(|p: (i64, i64)| (p.0 as int, p.1 as int))
}

/// The new identifier of the first pair whose old identifier is `id`.
pub fn lookup(pairs: &Vec<(i64, i64)>, id: i64) -> (found: Option<i64>)
    ensures
        crate::models::opt_id(found) == remapped(pairs_view(pairs@), id as int),
{
    let ghost all = pairs_view(pairs@);
    let mut i: usize = 0;
    proof {
        assert(all.skip(0) =~= all);
    }
    while i < pairs.len()
        invariant
            i <= pairs.len(),
            all == pairs_view(pairs@),
            remapped(all, id as int) == remapped(all.skip(i as int), id as int),
        decreases pairs.len() - i,
    {
        let pair = pairs[i];
        proof {
            assert(all.skip(i as int)[0] == (pair.0 as int, pair.1 as int));
            assert(all.skip(i as int).drop_first() =~= all.skip(i as int + 1));
        }
        if pair.0 == id {
            return Some(pair.1);
        }
        i = i + 1;
    }
    None
}

/// An unset change to the task `id` that marks it completed.
fn completion_of(id: i64) -> (input: UpdateTaskInput)
    ensures
        input@ == complete_only(id as int),
{
    UpdateTaskInput {
        id,
        title: None,
        description: None,
        completed: Some(true),
        priority: None,
        category_id: None,
        due_date: None,
    }
}

/// Creates one task of a snapshot anew.
pub(crate) fn restore_task(rows: &mut Rows, task: &Task, pairs: &Vec<(i64, i64)>, now: &String) -> (r:
    Result<(), StoreError>)
    requires
        old(rows)@.wf(),
    ensures
        final(rows)@.wf(),
        match replay_task(old(rows)@, task@, now@, pairs_view(pairs@)) {
            Ok(next) => r is Ok && final(rows)@ == next,
            Err(e) => r matches Err(x) && x@ == e,
        },
{
    let category_id = match task.category_id {
        Some(c) => match lookup(pairs, c) {
            Some(fresh) => Some(fresh),
            None => {
                return Err(StoreError::StoreFailure(StoreFault::UnknownCategory));
            },
        },
        None => None,
    };
    let input = CreateTaskInput {
        title: task.title.clone(),
        description: clone_opt_text(&task.description),
        priority: Some(task.priority.clone()),
        category_id,
        due_date: clone_opt_text(&task.due_date),
    };
    let ghost before = rows@;
    let ghost wanted = input@;
    proof {
        assert(wanted == task_input(task@, pairs_view(pairs@)));
    }
    let created = match rows.create_task_at(input, now.clone()) {
        Ok(created) => created,
        Err(e) => {
            return Err(e);
        },
    };
    if task.completed {
        let change = completion_of(created.id);
        proof {
            let mid = before.create_task(wanted, now@);
            assert(mid.tasks[before.tasks.len() as int].id == created.id);
            assert(mid.has_task(created.id as int));
            assert(mid.update_task_rejection(change@) is None);
        }
        match rows.update_task_at(change, now.clone()) {
            Ok(_) => {},
            Err(e) => {
                return Err(e);
            },
        }
    }
    Ok(())
}

/// Puts a snapshot back into `rows` at the time `now`, or leaves `rows`
/// as they were and says why.
#[verifier::loop_isolation(false)]
pub(crate) fn restore_at(
    rows: &mut Rows,
    categories: &Vec<Category>,
    tasks: &Vec<Task>,
    settings: &Vec<AppSetting>,
    now: &String,
) -> (r: Result<(), StoreError>)
    requires
        old(rows)@.wf(),
    ensures
        final(rows)@.wf(),
        match restore_outcome(
            old(rows)@,
            categories.deep_view(),
            tasks.deep_view(),
            settings.deep_view(),
            now@,
        ) {
            Ok(restored) => r is Ok && final(rows)@ == restored,
            Err(e) => r matches Err(x) && x@ == e && final(rows)@ == old(rows)@,
        },
{
    let ghost cats = categories.deep_view();
    let ghost todo = tasks.deep_view();
    let ghost keys = settings.deep_view();
    let mut work = rows.duplicate();
    work.clear_all_data();
    let ghost cleared = work@;
    let mut pairs: Vec<(i64, i64)> = Vec::new();
    let mut i: usize = 0;
    proof {
        assert(cats.skip(0) =~= cats);
        assert(pairs_view(pairs@) =~= Seq::empty());
    }
    while i < categories.len()
        invariant
            i <= categories.len(),
            cats == categories.deep_view(),
            work@.wf(),
            replay_categories(cleared, cats, now@, Seq::empty()) == replay_categories(
                work@,
                cats.skip(i as int),
                now@,
                pairs_view(pairs@),
            ),
        decreases categories.len() - i,
    {
        let category = &categories[i];
        let input = CreateCategoryInput {
            name: category.name.clone(),
            color: Some(category.color.clone()),
        };
        let ghost known = pairs_view(pairs@);
        proof {
            assert(cats.skip(i as int)[0] == category@);
            assert(cats.skip(i as int).drop_first() =~= cats.skip(i as int + 1));
            assert(input@ == category_input(category@));
        }
        let fresh = work.next_category_id;
        match work.create_category_at(input, now.clone()) {
            Ok(_) => {},
            Err(e) => {
                return Err(e);
            },
        }
        pairs.push((category.id, fresh));
        proof {
            assert(pairs_view(pairs@) =~= known.push((category@.id, fresh as int)));
        }
        i = i + 1;
    }
    let ghost with_categories = work@;
    let mut j: usize = 0;
    proof {
        assert(cats.skip(i as int) =~= Seq::empty());
        assert(todo.skip(0) =~= todo);
    }
    while j < tasks.len()
        invariant
            j <= tasks.len(),
            todo == tasks.deep_view(),
            work@.wf(),
            replay_tasks(with_categories, todo, now@, pairs_view(pairs@)) == replay_tasks(
                work@,
                todo.skip(j as int),
                now@,
                pairs_view(pairs@),
            ),
        decreases tasks.len() - j,
    {
        let task = &tasks[j];
        proof {
            assert(todo.skip(j as int)[0] == task@);
            assert(todo.skip(j as int).drop_first() =~= todo.skip(j as int + 1));
        }
        match restore_task(&mut work, task, &pairs, now) {
            Ok(()) => {},
            Err(e) => {
                return Err(e);
            },
        }
        j = j + 1;
    }
    let ghost with_tasks = work@;
    let mut k: usize = 0;
    proof {
        assert(todo.skip(j as int) =~= Seq::empty());
        assert(keys.skip(0) =~= keys);
    }
    while k < settings.len()
        invariant
            k <= settings.len(),
            keys == settings.deep_view(),
            work@.wf(),
            replay_settings(with_tasks, keys, now@) == replay_settings(
                work@,
                keys.skip(k as int),
                now@,
            ),
        decreases settings.len() - k,
    {
        let setting = &settings[k];
        proof {
            assert(keys.skip(k as int)[0] == setting@);
            assert(keys.skip(k as int).drop_first() =~= keys.skip(k as int + 1));
        }
        work.set_setting_at(setting.key.as_str(), setting.value.as_str(), now.clone());
        k = k + 1;
    }
    proof {
        assert(keys.skip(k as int) =~= Seq::empty());
    }
    *rows = work;
    Ok(())
}

} // verus!
