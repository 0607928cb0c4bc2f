//! Every operation on the store keeps the invariant of the store.

use crate::model::{
    apply_update, category_other_than, is_protected, link_other_than, task_other_than, task_valid,
    unlinked, DatabaseView,
};
use crate::models::{
    AppSettingView, CreateCategoryInputView, CreateTaskInputView, UpdateTaskInputView,
};
use crate::seqs::{in_order, lemma_filter_members, lemma_filter_order};
use crate::validation::{is_hex_color, is_priority};
use vstd::prelude::*;

verus! {

/// The default priority is one of the closed set.
pub proof fn lemma_default_priority()
    ensures
        is_priority(crate::model::default_priority()),
{
}

/// The default colour is a hex colour.
pub proof fn lemma_default_color()
    ensures
        is_hex_color(crate::model::default_color()),
{
    reveal_strlit("#F97316");
    let c = crate::model::default_color();
    assert(c.len() == 7);
    assert(c[0] == '#');
    assert(c[1] == 'F' && c[2] == '9' && c[3] == '7' && c[4] == '3' && c[5] == '1' && c[6] == '6');
    assert forall|i: int| 1 <= i < 7 implies crate::validation::is_hex_digit(#[trigger] c[i]) by {
        if i == 1 {
        } else if i == 2 {
        } else if i == 3 {
        } else if i == 4 {
        } else if i == 5 {
        } else {
        }
    }
}

/// In a well-formed store an identifier names at most one task.
pub proof fn lemma_task_position(db: DatabaseView, i: int)
    requires
        db.task_ids_ok(),
        0 <= i < db.tasks.len(),
    ensures
        db.has_task(db.tasks[i].id),
        db.task_position(db.tasks[i].id) == i,
        db.find_task(db.tasks[i].id) == Some(db.tasks[i]),
{
    let id = db.tasks[i].id;
    let p = db.task_position(id);
    assert(0 <= p < db.tasks.len() && db.tasks[p].id == id);
    if p < i {
        assert(db.tasks[p].id < db.tasks[i].id);
    } else if i < p {
        assert(db.tasks[i].id < db.tasks[p].id);
    }
}

/// In a well-formed store a key names at most one setting.
pub proof fn lemma_setting_position(db: DatabaseView, i: int)
    requires
        db.keys_unique(),
        0 <= i < db.settings.len(),
    ensures
        db.has_setting(db.settings[i].key),
        db.setting_position(db.settings[i].key) == i,
        db.get_setting(db.settings[i].key) == Some(db.settings[i].value),
{
    let key = db.settings[i].key;
    let p = db.setting_position(key);
    assert(0 <= p < db.settings.len() && db.settings[p].key == key);
    if p < i {
        assert(db.settings[p].key != db.settings[i].key);
    } else if i < p {
        assert(db.settings[i].key != db.settings[p].key);
    }
}

/// The empty store is well formed.
pub proof fn lemma_empty_wf()
    ensures
        DatabaseView::empty().wf(),
{
}

/// Creating an accepted task keeps the invariant.
pub proof fn lemma_create_task_wf(db: DatabaseView, input: CreateTaskInputView, now: Seq<char>)
    requires
        db.wf(),
        db.create_task_rejection(input) is None,
    ensures
        db.create_task(input, now).wf(),
{
    let after = db.create_task(input, now);
    assert(after.categories == db.categories);
    let t = db.new_task(input, now);
    lemma_default_priority();
    assert(task_valid(t));
    assert forall|i: int| 0 <= i < after.tasks.len() implies after.category_known(
        #[trigger] after.tasks[i],
    ) by {
        if i < db.tasks.len() {
            assert(after.tasks[i] == db.tasks[i]);
        }
    }
    assert forall|i: int| 0 <= i < after.task_tags.len() implies after.has_task(
        (#[trigger] after.task_tags[i]).task_id as int,
    ) by {
        let id = db.task_tags[i].task_id as int;
        assert(db.has_task(id));
        let p = choose|p: int| 0 <= p < db.tasks.len() && (#[trigger] db.tasks[p]).id == id;
        assert(after.tasks[p].id == id);
    }
}

/// An accepted partial change keeps the invariant.
pub proof fn lemma_update_task_wf(db: DatabaseView, input: UpdateTaskInputView, now: Seq<char>)
    requires
        db.wf(),
        db.update_task_rejection(input) is None,
    ensures
        db.update_task(input, now).wf(),
        0 <= db.task_position(input.id) < db.tasks.len(),
        db.tasks[db.task_position(input.id)].id == input.id,
{
    let after = db.update_task(input, now);
    assert(after.categories == db.categories);
    let p = db.task_position(input.id);
    assert(0 <= p < db.tasks.len() && db.tasks[p].id == input.id);
    let t = apply_update(db.tasks[p], input, now);
    assert(task_valid(db.tasks[p]));
    assert(task_valid(t));
    assert forall|i: int| 0 <= i < after.tasks.len() implies after.category_known(
        #[trigger] after.tasks[i],
    ) by {
        if i != p {
            assert(after.tasks[i] == db.tasks[i]);
        } else {
            assert(db.category_known(db.tasks[p]));
        }
    }
    assert forall|i: int| 0 <= i < after.task_tags.len() implies after.has_task(
        (#[trigger] after.task_tags[i]).task_id as int,
    ) by {
        let id = db.task_tags[i].task_id as int;
        assert(db.has_task(id));
        let q = choose|q: int| 0 <= q < db.tasks.len() && (#[trigger] db.tasks[q]).id == id;
        assert(after.tasks[q].id == id);
    }
    assert forall|i: int, j: int| 0 <= i < j < after.tasks.len() implies (
    #[trigger] after.tasks[i]).id < (#[trigger] after.tasks[j]).id by {
        assert(after.tasks[i].id == db.tasks[i].id);
        assert(after.tasks[j].id == db.tasks[j].id);
    }
    assert forall|i: int| 0 <= i < after.tasks.len() implies 1 <= (#[trigger] after.tasks[i]).id
        < after.next_task_id by {
        assert(after.tasks[i].id == db.tasks[i].id);
    }
    assert forall|i: int| 0 <= i < after.tasks.len() implies task_valid(
        #[trigger] after.tasks[i],
    ) by {
        if i != p {
            assert(after.tasks[i] == db.tasks[i]);
        }
    }
}

/// What is left of the tasks once the task `id` is taken out.
pub proof fn lemma_delete_task_tasks(db: DatabaseView, id: int)
    requires
        db.wf(),
    ensures
        db.delete_task(id).wf(),
        !db.delete_task(id).has_task(id),
        forall|other: int| other != id ==> (db.delete_task(id).has_task(other) <==> db.has_task(other)),
{
    let after = db.delete_task(id);
    assert(after.categories == db.categories);
    let keep = task_other_than(id);
    lemma_filter_members(db.tasks, keep);
    lemma_filter_order(db.tasks, keep);
    lemma_filter_members(db.task_tags, link_other_than(id));
    assert forall|i: int| 0 <= i < after.tasks.len() implies 1 <= (#[trigger] after.tasks[i]).id
        < after.next_task_id && task_valid(after.tasks[i]) && after.category_known(after.tasks[i]) by {
        let t = after.tasks[i];
        assert(db.tasks.contains(t));
        let q = choose|q: int| 0 <= q < db.tasks.len() && db.tasks[q] == t;
        assert(db.tasks[q] == t);
    }
    assert forall|i: int, j: int| 0 <= i < j < after.tasks.len() implies (
    #[trigger] after.tasks[i]).id < (#[trigger] after.tasks[j]).id by {
        assert(in_order(db.tasks, after.tasks[i], after.tasks[j]));
        let (a, b) = choose|a: int, b: int|
            0 <= a < b < db.tasks.len() && db.tasks[a] == after.tasks[i] && db.tasks[b]
                == after.tasks[j];
        assert(db.tasks[a].id < db.tasks[b].id);
    }
    assert forall|other: int| other != id implies (after.has_task(other) <==> db.has_task(
        other,
    )) by {
        if db.has_task(other) {
            let q = choose|q: int| 0 <= q < db.tasks.len() && (#[trigger] db.tasks[q]).id == other;
            assert(keep(db.tasks[q]));
            assert(after.tasks.contains(db.tasks[q]));
            let r = choose|r: int| 0 <= r < after.tasks.len() && after.tasks[r] == db.tasks[q];
            assert(after.tasks[r].id == other);
        }
        if after.has_task(other) {
            let r = choose|r: int|
                0 <= r < after.tasks.len() && (#[trigger] after.tasks[r]).id == other;
            assert(db.tasks.contains(after.tasks[r]));
            let q = choose|q: int| 0 <= q < db.tasks.len() && db.tasks[q] == after.tasks[r];
            assert(db.tasks[q].id == other);
        }
    }
    assert(!after.has_task(id)) by {
        if after.has_task(id) {
            let r = choose|r: int| 0 <= r < after.tasks.len() && (#[trigger] after.tasks[r]).id == id;
            assert(keep(after.tasks[r]));
        }
    }
    assert forall|i: int| 0 <= i < after.task_tags.len() implies after.has_task(
        (#[trigger] after.task_tags[i]).task_id as int,
    ) by {
        let l = after.task_tags[i];
        assert(link_other_than(id)(l));
        assert(db.task_tags.contains(l));
        let q = choose|q: int| 0 <= q < db.task_tags.len() && db.task_tags[q] == l;
        assert(db.has_task(db.task_tags[q].task_id as int));
    }
}

/// Creating an accepted category keeps the invariant.
pub proof fn lemma_create_category_wf(
    db: DatabaseView,
    input: CreateCategoryInputView,
    now: Seq<char>,
)
    requires
        db.wf(),
        db.create_category_rejection(input) is None,
    ensures
        db.create_category(input, now).wf(),
{
    let after = db.create_category(input, now);
    assert(after.tasks == db.tasks);
    lemma_default_color();
    assert forall|i: int| 0 <= i < after.tasks.len() implies after.category_known(
        #[trigger] after.tasks[i],
    ) by {
        if let Some(c) = db.tasks[i].category_id {
            assert(db.has_category(c));
            let q = choose|q: int|
                0 <= q < db.categories.len() && (#[trigger] db.categories[q]).id == c;
            assert(after.categories[q].id == c);
        }
    }
    assert forall|i: int| 0 <= i < after.task_tags.len() implies after.has_task(
        (#[trigger] after.task_tags[i]).task_id as int,
    ) by {
        assert(db.has_task(db.task_tags[i].task_id as int));
    }
}

/// Deleting a category keeps the invariant, and no task names it after.
pub proof fn lemma_delete_category_wf(db: DatabaseView, id: int)
    requires
        db.wf(),
    ensures
        db.delete_category(id).wf(),
        !db.delete_category(id).has_category(id),
        db.delete_category(id).tasks.len() == db.tasks.len(),
        forall|i: int|
            0 <= i < db.tasks.len() ==> (#[trigger] db.delete_category(id).tasks[i]) == unlinked(
                db.tasks[i],
                id,
            ),
{
    let after = db.delete_category(id);
    let keep = category_other_than(id);
    lemma_filter_members(db.categories, keep);
    lemma_filter_order(db.categories, keep);
    assert forall|i: int| 0 <= i < after.categories.len() implies 1 <= (
    #[trigger] after.categories[i]).id < after.next_category_id && crate::model::category_valid(
        after.categories[i],
    ) by {
        let c = after.categories[i];
        assert(db.categories.contains(c));
        let q = choose|q: int| 0 <= q < db.categories.len() && db.categories[q] == c;
        assert(db.categories[q] == c);
    }
    assert forall|i: int, j: int| 0 <= i < j < after.categories.len() implies (
    #[trigger] after.categories[i]).id < (#[trigger] after.categories[j]).id by {
        assert(in_order(db.categories, after.categories[i], after.categories[j]));
        let (a, b) = choose|a: int, b: int|
            0 <= a < b < db.categories.len() && db.categories[a] == after.categories[i]
                && db.categories[b] == after.categories[j];
        assert(db.categories[a].id < db.categories[b].id);
    }
    assert(!after.has_category(id)) by {
        if after.has_category(id) {
            let r = choose|r: int|
                0 <= r < after.categories.len() && (#[trigger] after.categories[r]).id == id;
            assert(keep(after.categories[r]));
        }
    }
    assert forall|i: int| 0 <= i < after.tasks.len() implies after.category_known(
        #[trigger] after.tasks[i],
    ) by {
        assert(after.tasks[i] == unlinked(db.tasks[i], id));
        if let Some(c) = after.tasks[i].category_id {
            assert(c != id);
            assert(db.tasks[i].category_id == Some(c));
            assert(db.has_category(c));
            let q = choose|q: int|
                0 <= q < db.categories.len() && (#[trigger] db.categories[q]).id == c;
            assert(keep(db.categories[q]));
            assert(after.categories.contains(db.categories[q]));
            let r = choose|r: int|
                0 <= r < after.categories.len() && after.categories[r] == db.categories[q];
            assert(after.categories[r].id == c);
        }
    }
    assert forall|i: int| 0 <= i < after.tasks.len() implies 1 <= (#[trigger] after.tasks[i]).id
        < after.next_task_id && task_valid(after.tasks[i]) by {
        assert(after.tasks[i] == unlinked(db.tasks[i], id));
        assert(task_valid(db.tasks[i]));
    }
    assert forall|i: int, j: int| 0 <= i < j < after.tasks.len() implies (
    #[trigger] after.tasks[i]).id < (#[trigger] after.tasks[j]).id by {
        assert(after.tasks[i] == unlinked(db.tasks[i], id));
        assert(after.tasks[j] == unlinked(db.tasks[j], id));
        assert(db.tasks[i].id < db.tasks[j].id);
    }
    assert forall|i: int| 0 <= i < after.task_tags.len() implies after.has_task(
        (#[trigger] after.task_tags[i]).task_id as int,
    ) by {
        let t = db.task_tags[i].task_id as int;
        assert(db.has_task(t));
        let q = choose|q: int| 0 <= q < db.tasks.len() && (#[trigger] db.tasks[q]).id == t;
        assert(after.tasks[q] == unlinked(db.tasks[q], id));
        assert(after.tasks[q].id == t);
    }
}

/// Writing a setting keeps the invariant, and the key then reads back the
/// value written.
pub proof fn lemma_set_setting_wf(
    db: DatabaseView,
    key: Seq<char>,
    value: Seq<char>,
    now: Seq<char>,
)
    requires
        db.wf(),
    ensures
        db.set_setting(key, value, now).wf(),
        db.set_setting(key, value, now).get_setting(key) == Some(value),
{
    let after = db.set_setting(key, value, now);
    assert(after.tasks == db.tasks);
    assert(after.categories == db.categories);
    let entry = AppSettingView { key, value, updated_at: now };
    if db.has_setting(key) {
        let p = db.setting_position(key);
        assert(0 <= p < db.settings.len() && db.settings[p].key == key);
        assert forall|i: int, j: int| 0 <= i < j < after.settings.len() implies (
        #[trigger] after.settings[i]).key != (#[trigger] after.settings[j]).key by {
            assert(after.settings[i].key == db.settings[i].key);
            assert(after.settings[j].key == db.settings[j].key);
        }
        assert(after.settings[p] == entry);
        lemma_setting_position(after, p);
    } else {
        let p = db.settings.len() as int;
        assert forall|i: int, j: int| 0 <= i < j < after.settings.len() implies (
        #[trigger] after.settings[i]).key != (#[trigger] after.settings[j]).key by {
            if j == p {
                assert(after.settings[i] == db.settings[i]);
                assert(db.settings[i].key != key);
            } else {
                assert(after.settings[i] == db.settings[i]);
                assert(after.settings[j] == db.settings[j]);
            }
        }
        assert(after.settings[p] == entry);
        lemma_setting_position(after, p);
    }
    assert forall|i: int| 0 <= i < after.task_tags.len() implies after.has_task(
        (#[trigger] after.task_tags[i]).task_id as int,
    ) by {
        assert(db.has_task(db.task_tags[i].task_id as int));
    }
    assert forall|i: int| 0 <= i < after.tasks.len() implies after.category_known(
        #[trigger] after.tasks[i],
    ) by {
        if let Some(c) = db.tasks[i].category_id {
            assert(db.has_category(c));
        }
    }
}

/// Clearing keeps the invariant and leaves exactly the protected
/// categories.
pub proof fn lemma_clear_wf(db: DatabaseView)
    requires
        db.wf(),
    ensures
        db.clear_all_data().wf(),
        forall|i: int|
            0 <= i < db.clear_all_data().categories.len() ==> (
            #[trigger] db.clear_all_data().categories[i]).name == crate::model::protected_name(),
{
    let after = db.clear_all_data();
    let keep = is_protected();
    lemma_filter_members(db.categories, keep);
    lemma_filter_order(db.categories, keep);
    assert forall|i: int| 0 <= i < after.categories.len() implies 1 <= (
    #[trigger] after.categories[i]).id < after.next_category_id && crate::model::category_valid(
        after.categories[i],
    ) && after.categories[i].name == crate::model::protected_name() by {
        let c = after.categories[i];
        assert(keep(c));
        assert(db.categories.contains(c));
        let q = choose|q: int| 0 <= q < db.categories.len() && db.categories[q] == c;
        assert(db.categories[q] == c);
    }
    assert forall|i: int, j: int| 0 <= i < j < after.categories.len() implies (
    #[trigger] after.categories[i]).id < (#[trigger] after.categories[j]).id by {
        assert(in_order(db.categories, after.categories[i], after.categories[j]));
        let (a, b) = choose|a: int, b: int|
            0 <= a < b < db.categories.len() && db.categories[a] == after.categories[i]
                && db.categories[b] == after.categories[j];
        assert(db.categories[a].id < db.categories[b].id);
    }
}

} // verus!
