//! What holds of the store whatever it contains: laws that relate several
//! operations, stated over the store's value and proved from the
//! definitions of the operations.

use crate::invariants::{
    lemma_clear_wf, lemma_create_task_wf, lemma_delete_category_wf, lemma_delete_task_tasks,
    lemma_set_setting_wf, lemma_setting_position, lemma_task_position, lemma_update_task_wf,
};
use crate::model::{
    default_priority, is_protected, link_other_than, matching, newest_task_first, protected_name,
    task_matches, unlinked, DatabaseView, TaskTag,
};
use crate::models::{
    AppSettingView, CategoryView, CreateTaskInputView, TaskFiltersView, TaskView,
    UpdateTaskInputView,
};
use crate::restore::complete_only;
use crate::seqs::{
    lemma_filter_empty, lemma_filter_members, lemma_filter_ordered, lemma_filter_same_elements,
    lemma_filter_step,
};
use crate::text::{is_substring, text_le};
use vstd::prelude::*;

verus! {

/// `a` sorts strictly before `b`.
pub open spec fn text_lt(a: Seq<char>, b: Seq<char>) -> bool {
    text_le(a, b) && a != b
}

/// The criteria of `f` and of `g` together, where no criterion is present
/// in both.
pub open spec fn both(f: TaskFiltersView, g: TaskFiltersView) -> TaskFiltersView {
    TaskFiltersView {
        completed: if f.completed is Some {
            f.completed
        } else {
            g.completed
        },
        priority: if f.priority is Some {
            f.priority
        } else {
            g.priority
        },
        category_id: if f.category_id is Some {
            f.category_id
        } else {
            g.category_id
        },
        search: if f.search is Some {
            f.search
        } else {
            g.search
        },
        due_date_before: if f.due_date_before is Some {
            f.due_date_before
        } else {
            g.due_date_before
        },
        due_date_after: if f.due_date_after is Some {
            f.due_date_after
        } else {
            g.due_date_after
        },
    }
}

/// No criterion is present in both `f` and `g`.
pub open spec fn independent(f: TaskFiltersView, g: TaskFiltersView) -> bool {
    &&& (f.completed is None || g.completed is None)
    &&& (f.priority is None || g.priority is None)
    &&& (f.category_id is None || g.category_id is None)
    &&& (f.search is None || g.search is None)
}

/// Filtering twice is filtering once by both tests.
pub proof fn lemma_filter_twice<A>(s: Seq<A>, p: spec_fn(A) -> bool, q: spec_fn(A) -> bool, pq: spec_fn(A) -> bool)
    requires
        forall|x: A| #[trigger] pq(x) == (p(x) && q(x)),
    ensures
        s.filter(p).filter(q) == s.filter(pq),
    decreases s.len(),
{
    if s.len() == 0 {
        lemma_filter_empty(p);
        lemma_filter_empty(q);
        lemma_filter_empty(pq);
        assert(s =~= Seq::empty());
    } else {
        let r = s.drop_last();
        let x = s.last();
        assert(s =~= r.push(x));
        lemma_filter_twice(r, p, q, pq);
        lemma_filter_step(r, x, p);
        lemma_filter_step(r, x, pq);
        assert(pq(x) == (p(x) && q(x)));
        if p(x) {
            lemma_filter_step(r.filter(p), x, q);
        }
    }
}

/// A task that is created is not completed, has the priority of its input
/// or `medium`, bears one time as both timestamps, and can be read back
/// from the store as it was returned.
pub proof fn law_created_task(db: DatabaseView, input: CreateTaskInputView, now: Seq<char>)
    requires
        db.wf(),
        db.create_task_rejection(input) is None,
    ensures
        !db.new_task(input, now).completed,
        db.new_task(input, now).priority == (match input.priority {
            Some(p) => p,
            None => default_priority(),
        }),
        db.new_task(input, now).created_at == db.new_task(input, now).updated_at,
        db.create_task(input, now).wf(),
        db.create_task(input, now).find_task(db.next_task_id) == Some(db.new_task(input, now)),
        !db.has_task(db.next_task_id),
{
    let after = db.create_task(input, now);
    lemma_create_task_wf(db, input, now);
    let at = db.tasks.len() as int;
    assert(after.tasks[at] == db.new_task(input, now));
    lemma_task_position(after, at);
    if db.has_task(db.next_task_id) {
        let q = choose|q: int| 0 <= q < db.tasks.len() && (#[trigger] db.tasks[q]).id == db.next_task_id;
        assert(db.tasks[q].id < db.next_task_id);
    }
}

/// Marking a stored task completed, and nothing else, leaves every other
/// field as it was but `updated_at`, which becomes the time of the change;
/// where that time sorts after the old one, `updated_at` has grown.
pub proof fn law_complete_only(db: DatabaseView, id: int, now: Seq<char>)
    requires
        db.wf(),
        db.has_task(id),
    ensures
        db.update_task_rejection(complete_only(id)) is None,
        db.update_task(complete_only(id), now).wf(),
        db.update_task(complete_only(id), now).find_task(id) == Some(
            TaskView { completed: true, updated_at: now, ..db.find_task(id)->0 },
        ),
        text_lt(db.find_task(id)->0.updated_at, now) ==> text_lt(
            db.find_task(id)->0.updated_at,
            db.update_task(complete_only(id), now).find_task(id)->0.updated_at,
        ),
{
    let change = complete_only(id);
    let after = db.update_task(change, now);
    assert(change.is_valid());
    lemma_update_task_wf(db, change, now);
    let p = db.task_position(id);
    assert(after.tasks[p].id == id);
    lemma_task_position(after, p);
}

/// A task created and then marked completed is the created task with
/// `completed` set and `updated_at` moved to the time of the change.
pub proof fn law_create_then_complete(
    db: DatabaseView,
    input: CreateTaskInputView,
    created_at: Seq<char>,
    completed_at: Seq<char>,
)
    requires
        db.wf(),
        db.create_task_rejection(input) is None,
    ensures
        db.create_task(input, created_at).update_task_rejection(complete_only(db.next_task_id))
            is None,
        db.create_task(input, created_at).updated_task(complete_only(db.next_task_id), completed_at)
            == (TaskView {
            completed: true,
            updated_at: completed_at,
            ..db.new_task(input, created_at)
        }),
        text_lt(created_at, completed_at) ==> text_lt(
            db.new_task(input, created_at).updated_at,
            db.create_task(input, created_at).updated_task(
                complete_only(db.next_task_id),
                completed_at,
            ).updated_at,
        ),
{
    law_created_task(db, input, created_at);
    let mid = db.create_task(input, created_at);
    let at = db.tasks.len() as int;
    assert(mid.tasks[at] == db.new_task(input, created_at));
    lemma_task_position(mid, at);
    assert(complete_only(db.next_task_id).is_valid());
}

/// A change never moves the time of creation nor the identifier.
pub proof fn law_created_at_is_kept(db: DatabaseView, input: UpdateTaskInputView, now: Seq<char>)
    requires
        db.wf(),
        db.update_task_rejection(input) is None,
    ensures
        db.updated_task(input, now).created_at == db.find_task(input.id)->0.created_at,
        db.updated_task(input, now).id == input.id,
        db.updated_task(input, now).updated_at == now,
{
    lemma_update_task_wf(db, input, now);
}

/// Deleting a category deletes no task: the tasks that named it are kept
/// and name no category, every other task is kept as it is, and the
/// category is gone.
pub proof fn law_delete_category_keeps_tasks(db: DatabaseView, category: int, i: int)
    requires
        db.wf(),
        0 <= i < db.tasks.len(),
    ensures
        db.delete_category(category).wf(),
        db.delete_category(category).tasks.len() == db.tasks.len(),
        !db.delete_category(category).has_category(category),
        db.delete_category(category).find_task(db.tasks[i].id) == Some(
            unlinked(db.tasks[i], category),
        ),
        db.tasks[i].category_id == Some(category) ==> db.delete_category(category).find_task(
            db.tasks[i].id,
        ) == Some(TaskView { category_id: None, ..db.tasks[i] }),
        db.tasks[i].category_id != Some(category) ==> db.delete_category(category).find_task(
            db.tasks[i].id,
        ) == Some(db.tasks[i]),
{
    let after = db.delete_category(category);
    lemma_delete_category_wf(db, category);
    assert(after.tasks[i] == unlinked(db.tasks[i], category));
    lemma_task_position(after, i);
}

/// Deleting a task removes the task and every link that names it, and
/// nothing else: every other task is still stored, and the links left are
/// exactly those of other tasks.
pub proof fn law_delete_task_removes_links(db: DatabaseView, id: int)
    requires
        db.wf(),
    ensures
        db.delete_task(id).wf(),
        !db.delete_task(id).has_task(id),
        forall|other: int| other != id ==> (db.delete_task(id).has_task(other) <==> db.has_task(other)),
        forall|l: TaskTag|
            db.delete_task(id).task_tags.contains(l) <==> (db.task_tags.contains(l) && l.task_id
                != id),
{
    lemma_delete_task_tasks(db, id);
    let after = db.delete_task(id);
    lemma_filter_members(db.task_tags, link_other_than(id));
    assert forall|l: TaskTag| after.task_tags.contains(l) <==> (db.task_tags.contains(l)
        && l.task_id != id) by {
        if after.task_tags.contains(l) {
            let k = choose|k: int| 0 <= k < after.task_tags.len() && after.task_tags[k] == l;
            assert(link_other_than(id)(after.task_tags[k]));
            assert(db.task_tags.contains(after.task_tags[k]));
        }
        if db.task_tags.contains(l) && l.task_id != id {
            let k = choose|k: int| 0 <= k < db.task_tags.len() && db.task_tags[k] == l;
            assert(link_other_than(id)(db.task_tags[k]));
            assert(after.task_tags.contains(db.task_tags[k]));
        }
    }
}

/// After a clear no task is listed, whatever the filters, no setting is
/// left, and the categories are exactly the stored ones that bear the
/// protected name.
pub proof fn law_clear_leaves_protected(db: DatabaseView, filters: Option<TaskFiltersView>)
    requires
        db.wf(),
    ensures
        db.clear_all_data().wf(),
        forall|listing: Seq<TaskView>|
            #[trigger] db.clear_all_data().is_task_listing(filters, listing) ==> listing
                == Seq::<TaskView>::empty(),
        db.clear_all_data().settings == Seq::<AppSettingView>::empty(),
        forall|c: CategoryView|
            db.clear_all_data().categories.contains(c) <==> (db.categories.contains(c) && c.name
                == protected_name()),
        forall|listing: Seq<CategoryView>, i: int|
            db.clear_all_data().is_category_listing(listing) && 0 <= i < listing.len() ==> (
            #[trigger] listing[i]).name == protected_name() && db.categories.contains(listing[i]),
{
    let after = db.clear_all_data();
    lemma_clear_wf(db);
    lemma_filter_empty(matching(filters));
    assert forall|listing: Seq<TaskView>| #[trigger]
        after.is_task_listing(filters, listing) implies listing == Seq::<TaskView>::empty() by {
        listing.to_multiset_ensures();
        Seq::<TaskView>::empty().to_multiset_ensures();
        assert(listing.to_multiset().len() == 0);
        assert(listing =~= Seq::<TaskView>::empty());
    }
    lemma_filter_members(db.categories, is_protected());
    assert forall|c: CategoryView| after.categories.contains(c) <==> (db.categories.contains(c)
        && c.name == protected_name()) by {
        if after.categories.contains(c) {
            let k = choose|k: int| 0 <= k < after.categories.len() && after.categories[k] == c;
            assert(is_protected()(after.categories[k]));
            assert(db.categories.contains(after.categories[k]));
        }
        if db.categories.contains(c) && c.name == protected_name() {
            let k = choose|k: int| 0 <= k < db.categories.len() && db.categories[k] == c;
            assert(is_protected()(db.categories[k]));
            assert(after.categories.contains(db.categories[k]));
        }
    }
    assert forall|listing: Seq<CategoryView>, i: int|
        after.is_category_listing(listing) && 0 <= i < listing.len() implies (
    #[trigger] listing[i]).name == protected_name() && db.categories.contains(listing[i]) by {
        listing.to_multiset_ensures();
        after.categories.to_multiset_ensures();
        assert(listing.contains(listing[i]));
        assert(listing.to_multiset().count(listing[i]) > 0);
        assert(after.categories.to_multiset().count(listing[i]) > 0);
        assert(after.categories.contains(listing[i]));
    }
}

/// A task is listed exactly if it is stored and meets the filters, and as
/// many tasks are listed as are stored and meet them.
pub proof fn law_listed_iff_matching(
    db: DatabaseView,
    filters: Option<TaskFiltersView>,
    listing: Seq<TaskView>,
    t: TaskView,
)
    requires
        db.is_task_listing(filters, listing),
    ensures
        listing.contains(t) <==> (db.tasks.contains(t) && matching(filters)(t)),
        listing.len() == db.matching_tasks(filters).len(),
{
    let kept = db.matching_tasks(filters);
    lemma_filter_members(db.tasks, matching(filters));
    listing.to_multiset_ensures();
    kept.to_multiset_ensures();
    if listing.contains(t) {
        assert(listing.to_multiset().count(t) > 0);
        assert(kept.to_multiset().count(t) > 0);
        assert(kept.contains(t));
        let k = choose|k: int| 0 <= k < kept.len() && kept[k] == t;
        assert(matching(filters)(kept[k]) && db.tasks.contains(kept[k]));
    }
    if db.tasks.contains(t) && matching(filters)(t) {
        let j = choose|j: int| 0 <= j < db.tasks.len() && db.tasks[j] == t;
        assert(kept.contains(db.tasks[j]));
        assert(kept.to_multiset().count(t) > 0);
        assert(listing.to_multiset().count(t) > 0);
        assert(listing.contains(t));
    }
}

/// A listing is ordered by `created_at`: no task stands before one with a
/// later `created_at`.
pub proof fn law_listing_is_by_created_at(
    db: DatabaseView,
    filters: Option<TaskFiltersView>,
    listing: Seq<TaskView>,
    i: int,
    j: int,
)
    requires
        db.is_task_listing(filters, listing),
        0 <= i < j < listing.len(),
    ensures
        text_le(listing[j].created_at, listing[i].created_at),
        listing[i].created_at == listing[j].created_at ==> listing[i].id >= listing[j].id,
{
}

/// Filters are conjunctive: of the listing by one set of criteria, the
/// tasks that also meet a second, independent set are the listing by both
/// together, in the same order.
pub proof fn law_filters_conjunctive(
    db: DatabaseView,
    f: TaskFiltersView,
    g: TaskFiltersView,
    listing: Seq<TaskView>,
)
    requires
        independent(f, g),
        db.is_task_listing(Some(f), listing),
    ensures
        db.is_task_listing(Some(both(f, g)), listing.filter(matching(Some(g)))),
        forall|t: TaskView| task_matches(t, both(f, g)) <==> task_matches(t, f) && task_matches(t, g),
{
    let p = matching(Some(f));
    let q = matching(Some(g));
    let pq = matching(Some(both(f, g)));
    assert forall|t: TaskView| task_matches(t, both(f, g)) <==> task_matches(t, f) && task_matches(
        t,
        g,
    ) by {}
    assert forall|t: TaskView| #[trigger] pq(t) == (p(t) && q(t)) by {
        assert(task_matches(t, both(f, g)) <==> task_matches(t, f) && task_matches(t, g));
    }
    lemma_filter_twice(db.tasks, p, q, pq);
    lemma_filter_same_elements(listing, db.tasks.filter(p), q);
    lemma_filter_ordered(listing, q, newest_task_first());
}

/// A search is a substring test on the title and on the description.
pub proof fn law_search_is_substring(t: TaskView, term: Seq<char>)
    ensures
        task_matches(
            t,
            TaskFiltersView {
                completed: None,
                priority: None,
                category_id: None,
                search: Some(term),
                due_date_before: None,
                due_date_after: None,
            },
        ) <==> (is_substring(term, t.title) || (t.description is Some && is_substring(
            term,
            t.description->0,
        ))),
{
}

/// Identifiers are not handed out twice: deleting a task does not free its
/// identifier, and the next task created gets one above every identifier
/// the store has held.
pub proof fn law_identifiers_not_reused(
    db: DatabaseView,
    id: int,
    input: CreateTaskInputView,
    now: Seq<char>,
)
    requires
        db.wf(),
        db.has_task(id),
    ensures
        db.delete_task(id).next_task_id == db.next_task_id,
        db.delete_task(id).new_task(input, now).id > id,
        forall|i: int|
            0 <= i < db.tasks.len() ==> (#[trigger] db.tasks[i]).id < db.delete_task(id).new_task(
                input,
                now,
            ).id,
{
    let q = choose|q: int| 0 <= q < db.tasks.len() && (#[trigger] db.tasks[q]).id == id;
    assert(db.tasks[q].id < db.next_task_id);
}

/// Writing a setting twice is writing it once: no key is stored twice, and
/// the key reads back the value written.
pub proof fn law_upsert(db: DatabaseView, key: Seq<char>, value: Seq<char>, now: Seq<char>)
    requires
        db.wf(),
    ensures
        db.set_setting(key, value, now).wf(),
        db.set_setting(key, value, now).get_setting(key) == Some(value),
        db.set_setting(key, value, now).set_setting(key, value, now) == db.set_setting(
            key,
            value,
            now,
        ),
        db.set_setting(key, value, now).settings.len() == if db.has_setting(key) {
            db.settings.len()
        } else {
            db.settings.len() + 1
        },
{
    let once = db.set_setting(key, value, now);
    lemma_set_setting_wf(db, key, value, now);
    let entry = AppSettingView { key, value, updated_at: now };
    let p = if db.has_setting(key) {
        db.setting_position(key)
    } else {
        db.settings.len() as int
    };
    if db.has_setting(key) {
        assert(0 <= p < db.settings.len() && db.settings[p].key == key);
    }
    assert(once.settings[p] == entry);
    lemma_setting_position(once, p);
    assert(once.settings.update(p, entry) =~= once.settings);
}

} // verus!
