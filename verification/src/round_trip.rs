//! A snapshot that is put back reproduces what it holds.

use crate::invariants::{
    lemma_clear_wf, lemma_create_category_wf, lemma_create_task_wf, lemma_set_setting_wf,
    lemma_task_position, lemma_update_task_wf,
};
use crate::model::{category_valid, matching, task_valid, DatabaseView, ID_MAX};
use crate::models::{AppSettingView, CategoryView, TaskView};
use crate::restore::{
    category_input, complete_only, remapped, replay_categories, replay_settings, replay_task,
    replay_tasks, restore_outcome, task_input,
};
use crate::seqs::lemma_filter_all;
use vstd::prelude::*;

verus! {

/// Whether `restored` is `saved` as a restore leaves it: the fields that a
/// snapshot carries over are the same.
pub open spec fn same_content(saved: TaskView, restored: TaskView) -> bool {
    &&& restored.title == saved.title
    &&& restored.description == saved.description
    &&& restored.priority == saved.priority
    &&& restored.due_date == saved.due_date
    &&& restored.completed == saved.completed
    &&& (restored.category_id is Some <==> saved.category_id is Some)
}

/// Every identifier that `pairs` maps is mapped to a category of `db`.
pub open spec fn links_ok(db: DatabaseView, pairs: Seq<(int, int)>) -> bool {
    forall|c: int| (#[trigger] remapped(pairs, c)) is Some ==> db.has_category(remapped(pairs, c)->0)
}

/// One more pair changes the mapping only where there was none.
pub proof fn lemma_remapped_push(pairs: Seq<(int, int)>, a: int, b: int, c: int)
    ensures
        remapped(pairs.push((a, b)), c) == if remapped(pairs, c) is Some {
            remapped(pairs, c)
        } else if a == c {
            Some(b)
        } else {
            None
        },
    decreases pairs.len(),
{
    let more = pairs.push((a, b));
    if pairs.len() == 0 {
        assert(more.drop_first() =~= Seq::<(int, int)>::empty());
    } else {
        assert(more[0] == pairs[0]);
        assert(more.drop_first() =~= pairs.drop_first().push((a, b)));
        if pairs[0].0 != c {
            lemma_remapped_push(pairs.drop_first(), a, b, c);
        }
    }
}

/// Valid categories are all created anew while identifiers last; nothing
/// but the categories changes, and every category of the snapshot is
/// mapped to a category of the store.
pub proof fn lemma_replay_categories(
    db: DatabaseView,
    categories: Seq<CategoryView>,
    now: Seq<char>,
    pairs: Seq<(int, int)>,
)
    requires
        db.wf(),
        forall|i: int| 0 <= i < categories.len() ==> category_valid(#[trigger] categories[i]),
        db.next_category_id + categories.len() <= ID_MAX,
        links_ok(db, pairs),
    ensures
        replay_categories(db, categories, now, pairs) is Ok,
        ({
            let (after, known) = replay_categories(db, categories, now, pairs)->Ok_0;
            &&& after.wf()
            &&& after.tasks == db.tasks
            &&& after.settings == db.settings
            &&& after.task_tags == db.task_tags
            &&& after.next_task_id == db.next_task_id
            &&& after.categories.len() == db.categories.len() + categories.len()
            &&& links_ok(after, known)
            &&& forall|c: int| (#[trigger] remapped(pairs, c)) is Some ==> remapped(known, c)
                == remapped(pairs, c)
            &&& forall|i: int|
                0 <= i < categories.len() ==> remapped(known, (#[trigger] categories[i]).id) is Some
        }),
    decreases categories.len(),
{
    if categories.len() > 0 {
        let c = categories[0];
        let input = category_input(c);
        assert(category_valid(c));
        assert(input.is_valid());
        assert(db.create_category_rejection(input) is None);
        let next = db.create_category(input, now);
        lemma_create_category_wf(db, input, now);
        let more = pairs.push((c.id, db.next_category_id));
        let rest = categories.drop_first();
        assert(next.categories[db.categories.len() as int].id == db.next_category_id);
        assert(next.has_category(db.next_category_id));
        assert forall|x: int| (#[trigger] remapped(more, x)) is Some implies next.has_category(
            remapped(more, x)->0,
        ) by {
            lemma_remapped_push(pairs, c.id, db.next_category_id, x);
            if remapped(pairs, x) is Some {
                let old_id = remapped(pairs, x)->0;
                assert(db.has_category(old_id));
                let q = choose|q: int|
                    0 <= q < db.categories.len() && (#[trigger] db.categories[q]).id == old_id;
                assert(next.categories[q].id == old_id);
            }
        }
        assert forall|i: int| 0 <= i < rest.len() implies category_valid(#[trigger] rest[i]) by {
            assert(rest[i] == categories[i + 1]);
        }
        lemma_replay_categories(next, rest, now, more);
        let (after, known) = replay_categories(next, rest, now, more)->Ok_0;
        assert forall|x: int| (#[trigger] remapped(pairs, x)) is Some implies remapped(known, x)
            == remapped(pairs, x) by {
            lemma_remapped_push(pairs, c.id, db.next_category_id, x);
            assert(remapped(more, x) is Some);
        }
        assert forall|i: int| 0 <= i < categories.len() implies remapped(
            known,
            (#[trigger] categories[i]).id,
        ) is Some by {
            if i == 0 {
                lemma_remapped_push(pairs, c.id, db.next_category_id, c.id);
                assert(remapped(more, c.id) is Some);
            } else {
                assert(rest[i - 1] == categories[i]);
            }
        }
    }
}

/// One valid task whose category is mapped is created anew while
/// identifiers last; it is added at the end and carries the content of the
/// task of the snapshot.
pub proof fn lemma_replay_task(db: DatabaseView, t: TaskView, now: Seq<char>, pairs: Seq<(int, int)>)
    requires
        db.wf(),
        task_valid(t),
        t.category_id is Some ==> remapped(pairs, t.category_id->0) is Some,
        links_ok(db, pairs),
        db.next_task_id < ID_MAX,
    ensures
        replay_task(db, t, now, pairs) is Ok,
        ({
            let after = replay_task(db, t, now, pairs)->Ok_0;
            &&& after.wf()
            &&& after.categories == db.categories
            &&& after.settings == db.settings
            &&& after.next_task_id == db.next_task_id + 1
            &&& after.tasks.len() == db.tasks.len() + 1
            &&& after.tasks.take(db.tasks.len() as int) == db.tasks
            &&& same_content(t, after.tasks[db.tasks.len() as int])
        }),
{
    let input = task_input(t, pairs);
    assert(input.is_valid());
    if t.category_id is Some {
        assert(db.has_category(remapped(pairs, t.category_id->0)->0));
    }
    assert(db.create_task_rejection(input) is None);
    let created = db.create_task(input, now);
    lemma_create_task_wf(db, input, now);
    let at = db.tasks.len() as int;
    assert(created.tasks.take(at) =~= db.tasks);
    if t.completed {
        let change = complete_only(db.next_task_id);
        assert(created.tasks[at].id == db.next_task_id);
        lemma_task_position(created, at);
        assert(change.is_valid());
        assert(created.update_task_rejection(change) is None);
        lemma_update_task_wf(created, change, now);
        let after = created.update_task(change, now);
        assert(after.tasks.take(at) =~= db.tasks);
    }
}

/// Valid tasks whose categories are mapped are all created anew while
/// identifiers last, in the order of the snapshot, each with the content of
/// its task of the snapshot.
pub proof fn lemma_replay_tasks(
    db: DatabaseView,
    tasks: Seq<TaskView>,
    now: Seq<char>,
    pairs: Seq<(int, int)>,
)
    requires
        db.wf(),
        forall|i: int| 0 <= i < tasks.len() ==> task_valid(#[trigger] tasks[i]),
        forall|i: int|
            0 <= i < tasks.len() ==> ((#[trigger] tasks[i]).category_id is Some ==> remapped(
                pairs,
                tasks[i].category_id->0,
            ) is Some),
        links_ok(db, pairs),
        db.next_task_id + tasks.len() <= ID_MAX,
    ensures
        replay_tasks(db, tasks, now, pairs) is Ok,
        ({
            let after = replay_tasks(db, tasks, now, pairs)->Ok_0;
            &&& after.wf()
            &&& after.categories == db.categories
            &&& after.settings == db.settings
            &&& after.tasks.len() == db.tasks.len() + tasks.len()
            &&& after.tasks.take(db.tasks.len() as int) == db.tasks
            &&& forall|i: int|
                0 <= i < tasks.len() ==> same_content(
                    #[trigger] tasks[i],
                    after.tasks[db.tasks.len() + i],
                )
        }),
    decreases tasks.len(),
{
    if tasks.len() == 0 {
        assert(db.tasks.take(db.tasks.len() as int) =~= db.tasks);
    } else {
        let t = tasks[0];
        assert(task_valid(t));
        lemma_replay_task(db, t, now, pairs);
        let next = replay_task(db, t, now, pairs)->Ok_0;
        let rest = tasks.drop_first();
        assert(next.categories == db.categories);
        assert(links_ok(next, pairs));
        assert forall|i: int| 0 <= i < rest.len() implies task_valid(#[trigger] rest[i]) && (
        rest[i].category_id is Some ==> remapped(pairs, rest[i].category_id->0) is Some) by {
            assert(rest[i] == tasks[i + 1]);
        }
        lemma_replay_tasks(next, rest, now, pairs);
        let after = replay_tasks(next, rest, now, pairs)->Ok_0;
        let n = db.tasks.len() as int;
        assert(after.tasks.take(n) =~= db.tasks) by {
            assert(after.tasks.take(n + 1) == next.tasks);
            assert(next.tasks.take(n) == db.tasks);
            assert forall|k: int| 0 <= k < n implies after.tasks[k] == db.tasks[k] by {
                assert(after.tasks.take(n + 1)[k] == next.tasks[k]);
                assert(next.tasks.take(n)[k] == db.tasks[k]);
            }
        }
        assert forall|i: int| 0 <= i < tasks.len() implies same_content(
            #[trigger] tasks[i],
            after.tasks[n + i],
        ) by {
            if i == 0 {
                assert(after.tasks.take(n + 1)[n] == next.tasks[n]);
            } else {
                assert(rest[i - 1] == tasks[i]);
                assert(same_content(rest[i - 1], after.tasks[next.tasks.len() + (i - 1)]));
            }
        }
    }
}

/// No key of `settings` is stored in `db`.
pub open spec fn keys_fresh(db: DatabaseView, settings: Seq<AppSettingView>) -> bool {
    forall|i: int| 0 <= i < settings.len() ==> !db.has_setting((#[trigger] settings[i]).key)
}

/// No key occurs twice in `settings`.
pub open spec fn keys_distinct(settings: Seq<AppSettingView>) -> bool {
    forall|i: int, j: int|
        0 <= i < j < settings.len() ==> (#[trigger] settings[i]).key != (#[trigger] settings[j]).key
}

/// Settings with distinct keys that the store does not hold are all added,
/// in the order of the snapshot, each with its value.
pub proof fn lemma_replay_settings(db: DatabaseView, settings: Seq<AppSettingView>, now: Seq<char>)
    requires
        db.wf(),
        keys_distinct(settings),
        keys_fresh(db, settings),
    ensures
        replay_settings(db, settings, now).wf(),
        replay_settings(db, settings, now).tasks == db.tasks,
        replay_settings(db, settings, now).categories == db.categories,
        replay_settings(db, settings, now).settings.len() == db.settings.len() + settings.len(),
        forall|i: int|
            0 <= i < db.settings.len() ==> replay_settings(db, settings, now).settings[i]
                == #[trigger] db.settings[i],
        forall|i: int|
            0 <= i < settings.len() ==> {
                &&& replay_settings(db, settings, now).settings[db.settings.len() + i].key == (
                #[trigger] settings[i]).key
                &&& replay_settings(db, settings, now).settings[db.settings.len() + i].value
                    == settings[i].value
            },
    decreases settings.len(),
{
    if settings.len() > 0 {
        let s = settings[0];
        let next = db.set_setting(s.key, s.value, now);
        lemma_set_setting_wf(db, s.key, s.value, now);
        let rest = settings.drop_first();
        assert(!db.has_setting(s.key));
        let n = db.settings.len() as int;
        assert(next.settings[n].key == s.key);
        assert forall|i: int| 0 <= i < rest.len() implies !next.has_setting(
            (#[trigger] rest[i]).key,
        ) by {
            assert(rest[i] == settings[i + 1]);
            assert(!db.has_setting(settings[i + 1].key));
            if next.has_setting(rest[i].key) {
                let q = choose|q: int|
                    0 <= q < next.settings.len() && (#[trigger] next.settings[q]).key
                        == rest[i].key;
                if q < n {
                    assert(next.settings[q] == db.settings[q]);
                    assert(db.settings[q].key == rest[i].key);
                } else {
                    assert(settings[0].key != settings[i + 1].key);
                }
            }
        }
        assert forall|i: int, j: int| 0 <= i < j < rest.len() implies (#[trigger] rest[i]).key != (
        #[trigger] rest[j]).key by {
            assert(rest[i] == settings[i + 1] && rest[j] == settings[j + 1]);
        }
        lemma_replay_settings(next, rest, now);
        let after = replay_settings(next, rest, now);
        assert forall|i: int| 0 <= i < db.settings.len() implies after.settings[i]
            == #[trigger] db.settings[i] by {
            assert(after.settings[i] == next.settings[i]);
        }
        assert forall|i: int| 0 <= i < settings.len() implies after.settings[n + i].key == (
        #[trigger] settings[i]).key && after.settings[n + i].value == settings[i].value by {
            if i == 0 {
                assert(after.settings[n] == next.settings[n]);
            } else {
                assert(rest[i - 1] == settings[i]);
                assert(after.settings[next.settings.len() + (i - 1)].key == rest[i - 1].key);
            }
        }
    }
}

/// Round trip: a snapshot of a store, put back into any store that has
/// identifiers left, is accepted, and afterwards the store holds as many
/// tasks and settings as the snapshot, as many categories as the snapshot
/// beside those that the clear left in place, and the task at each place
/// has the title, description, priority, due date and completion of the
/// task at that place in the snapshot.
pub proof fn law_round_trip(
    source: DatabaseView,
    target: DatabaseView,
    categories: Seq<CategoryView>,
    tasks: Seq<TaskView>,
    now: Seq<char>,
)
    requires
        source.wf(),
        target.wf(),
        source.is_category_listing(categories),
        source.is_task_listing(None, tasks),
        target.next_category_id + source.categories.len() <= ID_MAX,
        target.next_task_id + source.tasks.len() <= ID_MAX,
    ensures
        restore_outcome(target, categories, tasks, source.settings, now) is Ok,
        ({
            let restored = restore_outcome(target, categories, tasks, source.settings, now)->Ok_0;
            &&& restored.wf()
            &&& tasks.len() == source.tasks.len()
            &&& categories.len() == source.categories.len()
            &&& restored.tasks.len() == tasks.len()
            &&& restored.settings.len() == source.settings.len()
            &&& restored.categories.len() == target.clear_all_data().categories.len()
                + categories.len()
            &&& forall|i: int|
                0 <= i < tasks.len() ==> same_content(#[trigger] tasks[i], restored.tasks[i])
            &&& forall|i: int|
                0 <= i < source.settings.len() ==> {
                    &&& restored.settings[i].key == (#[trigger] source.settings[i]).key
                    &&& restored.settings[i].value == source.settings[i].value
                }
        }),
{
    let cleared = target.clear_all_data();
    lemma_clear_wf(target);
    lemma_filter_all(source.tasks, matching(None));
    assert(source.matching_tasks(None) == source.tasks);
    tasks.to_multiset_ensures();
    source.tasks.to_multiset_ensures();
    assert(tasks.len() == source.tasks.len());
    categories.to_multiset_ensures();
    source.categories.to_multiset_ensures();
    assert(categories.len() == source.categories.len());
    assert forall|i: int| 0 <= i < categories.len() implies category_valid(
        #[trigger] categories[i],
    ) by {
        assert(categories.contains(categories[i]));
        assert(categories.to_multiset().count(categories[i]) > 0);
        assert(source.categories.contains(categories[i]));
        let q = choose|q: int| 0 <= q < source.categories.len() && source.categories[q]
            == categories[i];
        assert(category_valid(source.categories[q]));
    }
    let none: Seq<(int, int)> = Seq::empty();
    assert(links_ok(cleared, none));
    lemma_replay_categories(cleared, categories, now, none);
    let (with_categories, pairs) = replay_categories(cleared, categories, now, none)->Ok_0;
    assert forall|i: int| 0 <= i < tasks.len() implies task_valid(#[trigger] tasks[i]) && (
    tasks[i].category_id is Some ==> remapped(pairs, tasks[i].category_id->0) is Some) by {
        assert(tasks.contains(tasks[i]));
        assert(tasks.to_multiset().count(tasks[i]) > 0);
        assert(source.tasks.contains(tasks[i]));
        let at = choose|at: int| 0 <= at < source.tasks.len() && source.tasks[at] == tasks[i];
        let t = source.tasks[at];
        assert(task_valid(t));
        assert(source.category_known(t));
        if t.category_id is Some {
            let c = t.category_id->0;
            let q = choose|q: int|
                0 <= q < source.categories.len() && (#[trigger] source.categories[q]).id == c;
            assert(source.categories.contains(source.categories[q]));
            assert(source.categories.to_multiset().count(source.categories[q]) > 0);
            assert(categories.contains(source.categories[q]));
            let k = choose|k: int| 0 <= k < categories.len() && categories[k]
                == source.categories[q];
            assert(remapped(pairs, categories[k].id) is Some);
        }
    }
    lemma_replay_tasks(with_categories, tasks, now, pairs);
    let with_tasks = replay_tasks(with_categories, tasks, now, pairs)->Ok_0;
    assert(keys_distinct(source.settings));
    assert(keys_fresh(with_tasks, source.settings)) by {
        assert(with_tasks.settings == cleared.settings);
        assert forall|i: int| 0 <= i < source.settings.len() implies !with_tasks.has_setting(
            (#[trigger] source.settings[i]).key,
        ) by {}
    }
    lemma_replay_settings(with_tasks, source.settings, now);
    let restored = replay_settings(with_tasks, source.settings, now);
    assert forall|i: int| 0 <= i < tasks.len() implies same_content(
        #[trigger] tasks[i],
        restored.tasks[i],
    ) by {
        assert(same_content(tasks[i], with_tasks.tasks[with_categories.tasks.len() + i]));
    }
}

} // verus!
