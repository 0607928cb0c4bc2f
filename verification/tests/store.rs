use yuflow::database::Database;
use yuflow::error::{StoreError, StoreFault};
use yuflow::model::TaskTag;
use yuflow::models::{
    AppSetting, Category, CreateCategoryInput, CreateTaskInput, Task, TaskFilters, UpdateTaskInput,
};

fn task_input(title: &str, priority: Option<&str>) -> CreateTaskInput {
    CreateTaskInput {
        title: title.to_string(),
        description: None,
        priority: priority.map(|p| p.to_string()),
        category_id: None,
        due_date: None,
    }
}

fn no_filters() -> TaskFilters {
    TaskFilters {
        completed: None,
        priority: None,
        category_id: None,
        search: None,
        due_date_before: None,
        due_date_after: None,
    }
}

fn only_completed(id: i64) -> UpdateTaskInput {
    UpdateTaskInput {
        id,
        title: None,
        description: None,
        completed: Some(true),
        priority: None,
        category_id: None,
        due_date: None,
    }
}

fn stored_task(id: i64, title: &str, category_id: Option<i64>) -> Task {
    Task {
        id,
        title: title.to_string(),
        description: None,
        completed: false,
        priority: "low".to_string(),
        category_id,
        due_date: None,
        created_at: "2024-01-01T00:00:00+00:00".to_string(),
        updated_at: "2024-01-01T00:00:00+00:00".to_string(),
    }
}

fn stored_category(id: i64, name: &str) -> Category {
    Category {
        id,
        name: name.to_string(),
        color: "#112233".to_string(),
        created_at: "2024-01-01T00:00:00+00:00".to_string(),
    }
}

#[test]
fn test_create_and_get_task() {
    let mut db = Database::new();

    let task_input = CreateTaskInput {
        title: "Test Task".to_string(),
        description: Some("Test Description".to_string()),
        priority: Some("high".to_string()),
        category_id: None,
        due_date: None,
    };

    assert!(task_input.validate().is_ok());

    let created_task = db.create_task(task_input).expect("Failed to create task");

    assert_eq!(created_task.title, "Test Task");
    assert_eq!(created_task.description, Some("Test Description".to_string()));
    assert_eq!(created_task.priority, "high");
    assert!(!created_task.completed);

    let retrieved_task = db
        .get_task(created_task.id)
        .expect("Failed to get task")
        .expect("Task not found");

    assert_eq!(retrieved_task.id, created_task.id);
    assert_eq!(retrieved_task.title, created_task.title);
}

#[test]
fn test_update_task() {
    let mut db = Database::new();

    let task_input = CreateTaskInput {
        title: "Original Title".to_string(),
        description: None,
        priority: Some("low".to_string()),
        category_id: None,
        due_date: None,
    };

    let created_task = db.create_task(task_input).expect("Failed to create task");

    let update_input = UpdateTaskInput {
        id: created_task.id,
        title: Some("Updated Title".to_string()),
        description: Some("New Description".to_string()),
        completed: Some(true),
        priority: Some("high".to_string()),
        category_id: None,
        due_date: None,
    };

    let updated_task = db.update_task(update_input).expect("Failed to update task");

    assert_eq!(updated_task.title, "Updated Title");
    assert_eq!(updated_task.description, Some("New Description".to_string()));
    assert_eq!(updated_task.priority, "high");
    assert!(updated_task.completed);
}

#[test]
fn test_delete_task() {
    let mut db = Database::new();

    let task_input = CreateTaskInput {
        title: "Task to Delete".to_string(),
        description: None,
        priority: Some("medium".to_string()),
        category_id: None,
        due_date: None,
    };

    let created_task = db.create_task(task_input).expect("Failed to create task");

    db.delete_task(created_task.id).expect("Failed to delete task");

    let retrieved_task = db.get_task(created_task.id).expect("Failed to query task");

    assert!(retrieved_task.is_none());
}

#[test]
fn test_create_and_get_category() {
    let mut db = Database::new();

    let category_input = CreateCategoryInput {
        name: "Work".to_string(),
        color: Some("#FF5733".to_string()),
    };

    assert!(category_input.validate().is_ok());

    let created_category = db
        .create_category(category_input)
        .expect("Failed to create category");

    assert_eq!(created_category.name, "Work");
    assert_eq!(created_category.color, "#FF5733");

    let categories = db.get_categories().expect("Failed to get categories");

    assert!(categories.iter().any(|c| c.name == "Work"));
}

#[test]
fn test_task_filters() {
    let mut db = Database::new();

    let task1 = CreateTaskInput {
        title: "High Priority Task".to_string(),
        description: None,
        priority: Some("high".to_string()),
        category_id: None,
        due_date: None,
    };

    let task2 = CreateTaskInput {
        title: "Low Priority Task".to_string(),
        description: None,
        priority: Some("low".to_string()),
        category_id: None,
        due_date: None,
    };

    let created_task1 = db.create_task(task1).expect("Failed to create task1");
    let _created_task2 = db.create_task(task2).expect("Failed to create task2");

    db.update_task(UpdateTaskInput {
        id: created_task1.id,
        title: None,
        description: None,
        completed: Some(true),
        priority: None,
        category_id: None,
        due_date: None,
    })
    .expect("Failed to update task1");

    let completed_filter = TaskFilters {
        completed: Some(true),
        priority: None,
        category_id: None,
        search: None,
        due_date_before: None,
        due_date_after: None,
    };

    let completed_tasks = db
        .get_tasks(Some(completed_filter))
        .expect("Failed to get completed tasks");

    assert_eq!(completed_tasks.len(), 1);
    assert_eq!(completed_tasks[0].title, "High Priority Task");

    let priority_filter = TaskFilters {
        completed: None,
        priority: Some("low".to_string()),
        category_id: None,
        search: None,
        due_date_before: None,
        due_date_after: None,
    };

    let low_priority_tasks = db
        .get_tasks(Some(priority_filter))
        .expect("Failed to get low priority tasks");

    assert_eq!(low_priority_tasks.len(), 1);
    assert_eq!(low_priority_tasks[0].title, "Low Priority Task");
}

#[test]
fn test_settings() {
    let mut db = Database::new();

    db.set_setting("theme", "dark").expect("Failed to set setting");

    let value = db.get_setting("theme").expect("Failed to get setting");

    assert_eq!(value, Some("dark".to_string()));

    let missing = db
        .get_setting("nonexistent")
        .expect("Failed to query missing setting");

    assert!(missing.is_none());

    db.set_setting("theme", "light").expect("Failed to update setting");

    let updated_value = db.get_setting("theme").expect("Failed to get updated setting");

    assert_eq!(updated_value, Some("light".to_string()));
}

#[test]
fn test_search_functionality() {
    let mut db = Database::new();

    let task1 = CreateTaskInput {
        title: "Learn Rust Programming".to_string(),
        description: Some("Study Rust language fundamentals".to_string()),
        priority: Some("high".to_string()),
        category_id: None,
        due_date: None,
    };

    let task2 = CreateTaskInput {
        title: "Buy Groceries".to_string(),
        description: Some("Milk, bread, and fruits".to_string()),
        priority: Some("medium".to_string()),
        category_id: None,
        due_date: None,
    };

    db.create_task(task1).expect("Failed to create task1");
    db.create_task(task2).expect("Failed to create task2");

    let search_filter = TaskFilters {
        completed: None,
        priority: None,
        category_id: None,
        search: Some("Rust".to_string()),
        due_date_before: None,
        due_date_after: None,
    };

    let search_results = db.get_tasks(Some(search_filter)).expect("Failed to search tasks");

    assert_eq!(search_results.len(), 1);
    assert_eq!(search_results[0].title, "Learn Rust Programming");

    let desc_search_filter = TaskFilters {
        completed: None,
        priority: None,
        category_id: None,
        search: Some("Milk".to_string()),
        due_date_before: None,
        due_date_after: None,
    };

    let desc_results = db
        .get_tasks(Some(desc_search_filter))
        .expect("Failed to search by description");

    assert_eq!(desc_results.len(), 1);
    assert_eq!(desc_results[0].title, "Buy Groceries");
}

#[test]
fn created_task_has_defaults_and_one_timestamp() {
    let mut db = Database::new();
    let task = db
        .create_task_at(task_input("Write report", None), "2024-03-01T08:00:00+00:00".to_string())
        .unwrap();
    assert_eq!(task.id, 1);
    assert!(!task.completed);
    assert_eq!(task.priority, "medium");
    assert_eq!(task.created_at, "2024-03-01T08:00:00+00:00");
    assert_eq!(task.updated_at, "2024-03-01T08:00:00+00:00");
    assert_eq!(task.category_id, None);

    let explicit = db.create_task(task_input("Second", Some("low"))).unwrap();
    assert_eq!(explicit.id, 2);
    assert_eq!(explicit.priority, "low");
    assert_eq!(explicit.created_at, explicit.updated_at);
}

#[test]
fn clock_stamps_parse_as_rfc3339() {
    let mut db = Database::new();
    let task = db.create_task(task_input("Now", None)).unwrap();
    assert!(yuflow::validation::validate_date_format(&task.created_at).is_ok());
    assert!(task.created_at.ends_with("+00:00"));
}

#[test]
fn completing_changes_only_completion_and_update_time() {
    let mut db = Database::new();
    let created = db
        .create_task_at(
            CreateTaskInput {
                title: "Pay rent".to_string(),
                description: Some("before the 3rd".to_string()),
                priority: Some("high".to_string()),
                category_id: None,
                due_date: Some("2024-04-03T00:00:00Z".to_string()),
            },
            "2024-04-01T09:00:00+00:00".to_string(),
        )
        .unwrap();
    let updated = db
        .update_task_at(only_completed(created.id), "2024-04-02T10:00:00+00:00".to_string())
        .unwrap();
    assert!(updated.completed);
    assert_eq!(updated.id, created.id);
    assert_eq!(updated.title, created.title);
    assert_eq!(updated.description, created.description);
    assert_eq!(updated.priority, created.priority);
    assert_eq!(updated.category_id, created.category_id);
    assert_eq!(updated.due_date, created.due_date);
    assert_eq!(updated.created_at, created.created_at);
    assert_eq!(updated.updated_at, "2024-04-02T10:00:00+00:00");
    assert!(updated.updated_at > created.updated_at);

    let read_back = db.get_task(created.id).unwrap().unwrap();
    assert!(read_back.completed);
    assert_eq!(read_back.updated_at, "2024-04-02T10:00:00+00:00");
}

#[test]
fn update_of_a_missing_task_is_not_found() {
    let mut db = Database::new();
    db.create_task(task_input("Only", None)).unwrap();
    let r = db.update_task(only_completed(42));
    assert!(matches!(r, Err(StoreError::NotFound)));
    assert!(!db.get_task(1).unwrap().unwrap().completed);
}

#[test]
fn invalid_update_is_rejected_before_lookup() {
    let mut db = Database::new();
    let r = db.update_task(UpdateTaskInput {
        id: 99,
        title: Some(String::new()),
        description: None,
        completed: None,
        priority: Some("urgent".to_string()),
        category_id: None,
        due_date: None,
    });
    match r {
        Err(StoreError::Validation(errors)) => assert_eq!(errors.len(), 2),
        other => panic!("unexpected {:?}", other),
    }
}

#[test]
fn invalid_create_leaves_store_unchanged() {
    let mut db = Database::new();
    let r = db.create_task(task_input("", Some("high")));
    assert!(matches!(r, Err(StoreError::Validation(_))));
    assert!(db.get_tasks(None).unwrap().is_empty());
    let ok = db.create_task(task_input("first", None)).unwrap();
    assert_eq!(ok.id, 1);
}

#[test]
fn task_with_unknown_category_is_rejected() {
    let mut db = Database::new();
    let r = db.create_task(CreateTaskInput {
        title: "Orphan".to_string(),
        description: None,
        priority: None,
        category_id: Some(7),
        due_date: None,
    });
    assert!(matches!(r, Err(StoreError::StoreFailure(StoreFault::UnknownCategory))));

    let made = db.create_task(task_input("Plain", None)).unwrap();
    let moved = db.update_task(UpdateTaskInput {
        id: made.id,
        title: None,
        description: None,
        completed: None,
        priority: None,
        category_id: Some(7),
        due_date: None,
    });
    assert!(matches!(moved, Err(StoreError::StoreFailure(StoreFault::UnknownCategory))));
}

#[test]
fn deleting_a_category_unsets_it_on_tasks_and_keeps_them() {
    let mut db = Database::new();
    let work = db
        .create_category(CreateCategoryInput { name: "Work".to_string(), color: None })
        .unwrap();
    let home = db
        .create_category(CreateCategoryInput { name: "Home".to_string(), color: None })
        .unwrap();
    assert_eq!(work.color, "#F97316");
    let at_work = db
        .create_task(CreateTaskInput {
            title: "Review".to_string(),
            description: None,
            priority: None,
            category_id: Some(work.id),
            due_date: None,
        })
        .unwrap();
    let at_home = db
        .create_task(CreateTaskInput {
            title: "Clean".to_string(),
            description: None,
            priority: None,
            category_id: Some(home.id),
            due_date: None,
        })
        .unwrap();

    db.delete_category(work.id).unwrap();

    let first = db.get_task(at_work.id).unwrap().unwrap();
    assert_eq!(first.category_id, None);
    assert_eq!(first.title, "Review");
    assert_eq!(first.updated_at, at_work.updated_at);
    let second = db.get_task(at_home.id).unwrap().unwrap();
    assert_eq!(second.category_id, Some(home.id));
    let names: Vec<String> = db.get_categories().unwrap().into_iter().map(|c| c.name).collect();
    assert_eq!(names, vec!["Home".to_string()]);
    assert_eq!(db.get_tasks(None).unwrap().len(), 2);
}

#[test]
fn clear_keeps_only_the_general_category() {
    let mut db = Database::new();
    db.create_category(CreateCategoryInput { name: "General".to_string(), color: None }).unwrap();
    let work = db
        .create_category(CreateCategoryInput { name: "Work".to_string(), color: None })
        .unwrap();
    db.create_task(CreateTaskInput {
        title: "Review".to_string(),
        description: None,
        priority: None,
        category_id: Some(work.id),
        due_date: None,
    })
    .unwrap();
    db.set_setting("theme", "dark").unwrap();

    db.clear_all_data().unwrap();

    assert!(db.get_tasks(None).unwrap().is_empty());
    assert!(db.get_tasks(Some(no_filters())).unwrap().is_empty());
    assert!(db.get_all_settings().unwrap().is_empty());
    let left = db.get_categories().unwrap();
    assert_eq!(left.len(), 1);
    assert_eq!(left[0].name, "General");
    assert_eq!(left[0].id, 1);

    let mut bare = Database::new();
    bare.create_category(CreateCategoryInput { name: "Work".to_string(), color: None }).unwrap();
    bare.clear_all_data().unwrap();
    assert!(bare.get_categories().unwrap().is_empty());
}

#[test]
fn identifiers_are_not_reused_after_delete_or_clear() {
    let mut db = Database::new();
    let a = db.create_task(task_input("a", None)).unwrap();
    let b = db.create_task(task_input("b", None)).unwrap();
    assert_eq!((a.id, b.id), (1, 2));
    db.delete_task(b.id).unwrap();
    let c = db.create_task(task_input("c", None)).unwrap();
    assert_eq!(c.id, 3);
    db.clear_all_data().unwrap();
    let d = db.create_task(task_input("d", None)).unwrap();
    assert_eq!(d.id, 4);
}

#[test]
fn filters_are_conjunctive() {
    let mut db = Database::new();
    let specs = [("high done", "high", true), ("high open", "high", false), ("low done", "low", true), ("low open", "low", false)];
    for (title, priority, done) in specs {
        let t = db.create_task(task_input(title, Some(priority))).unwrap();
        if done {
            db.update_task(only_completed(t.id)).unwrap();
        }
    }
    let done: Vec<String> = db
        .get_tasks(Some(TaskFilters { completed: Some(true), ..no_filters() }))
        .unwrap()
        .into_iter()
        .map(|t| t.title)
        .collect();
    assert_eq!(done, vec!["low done".to_string(), "high done".to_string()]);

    let low_done: Vec<String> = db
        .get_tasks(Some(TaskFilters {
            completed: Some(true),
            priority: Some("low".to_string()),
            ..no_filters()
        }))
        .unwrap()
        .into_iter()
        .map(|t| t.title)
        .collect();
    assert_eq!(low_done, vec!["low done".to_string()]);

    let all: Vec<String> =
        db.get_tasks(None).unwrap().into_iter().map(|t| t.title).collect();
    assert_eq!(
        all,
        vec![
            "low open".to_string(),
            "low done".to_string(),
            "high open".to_string(),
            "high done".to_string()
        ]
    );
}

#[test]
fn due_date_filters_are_carried_but_not_applied() {
    let mut db = Database::new();
    db.create_task(task_input("a", None)).unwrap();
    let found = db
        .get_tasks(Some(TaskFilters {
            due_date_before: Some("1999-01-01T00:00:00Z".to_string()),
            ..no_filters()
        }))
        .unwrap();
    assert_eq!(found.len(), 1);
}

#[test]
fn search_is_case_sensitive_and_empty_term_matches_all() {
    let mut db = Database::new();
    db.create_task(task_input("Learn Rust Programming", None)).unwrap();
    db.create_task(task_input("Buy Groceries", None)).unwrap();
    let lower = db
        .get_tasks(Some(TaskFilters { search: Some("rust".to_string()), ..no_filters() }))
        .unwrap();
    assert!(lower.is_empty());
    let every = db
        .get_tasks(Some(TaskFilters { search: Some(String::new()), ..no_filters() }))
        .unwrap();
    assert_eq!(every.len(), 2);
}

#[test]
fn category_scenario_lists_exactly_its_task() {
    let mut db = Database::new();
    let work = db
        .create_category(CreateCategoryInput {
            name: "Work".to_string(),
            color: Some("#FF5733".to_string()),
        })
        .unwrap();
    db.create_task(task_input("Unrelated", None)).unwrap();
    let review = db
        .create_task(CreateTaskInput {
            title: "Review PR".to_string(),
            description: None,
            priority: Some("high".to_string()),
            category_id: Some(work.id),
            due_date: None,
        })
        .unwrap();
    let found = db
        .get_tasks(Some(TaskFilters { category_id: Some(work.id), ..no_filters() }))
        .unwrap();
    assert_eq!(found.len(), 1);
    assert_eq!(found[0].id, review.id);
    assert_eq!(found[0].title, "Review PR");
    assert_eq!(found[0].priority, "high");
}

#[test]
fn categories_are_listed_by_name() {
    let mut db = Database::new();
    for name in ["pear", "Apple", "apple", "Banana", "app"] {
        db.create_category(CreateCategoryInput { name: name.to_string(), color: None }).unwrap();
    }
    let names: Vec<String> = db.get_categories().unwrap().into_iter().map(|c| c.name).collect();
    assert_eq!(names, vec!["Apple", "Banana", "app", "apple", "pear"]);

    db.create_category(CreateCategoryInput { name: "app".to_string(), color: None }).unwrap();
    db.create_category(CreateCategoryInput { name: "Apple".to_string(), color: None }).unwrap();
    let listed: Vec<(String, i64)> =
        db.get_categories().unwrap().into_iter().map(|c| (c.name, c.id)).collect();
    let expected: Vec<(String, i64)> =
        [("Apple", 2), ("Apple", 7), ("Banana", 4), ("app", 5), ("app", 6), ("apple", 3), ("pear", 1)]
            .into_iter()
            .map(|(n, i)| (n.to_string(), i))
            .collect();
    assert_eq!(listed, expected);
}

#[test]
fn settings_keep_one_entry_per_key() {
    let mut db = Database::new();
    db.set_setting_at("theme", "dark", "t1".to_string()).unwrap();
    db.set_setting_at("lang", "en", "t2".to_string()).unwrap();
    db.set_setting_at("theme", "light", "t3".to_string()).unwrap();
    let all = db.get_all_settings().unwrap();
    assert_eq!(all.len(), 2);
    assert_eq!((all[0].key.as_str(), all[0].value.as_str(), all[0].updated_at.as_str()), ("theme", "light", "t3"));
    assert_eq!((all[1].key.as_str(), all[1].value.as_str(), all[1].updated_at.as_str()), ("lang", "en", "t2"));
}

#[test]
fn deleting_a_task_removes_its_links() {
    let tasks = vec![stored_task(1, "a", None), stored_task(2, "b", None)];
    let links = vec![
        TaskTag { task_id: 1, tag_id: 10 },
        TaskTag { task_id: 2, tag_id: 10 },
        TaskTag { task_id: 1, tag_id: 11 },
    ];
    let mut db = Database::load(tasks, Vec::new(), Vec::new(), links).unwrap();
    db.delete_task(1).unwrap();
    assert_eq!(db.get_task_tags().unwrap(), vec![TaskTag { task_id: 2, tag_id: 10 }]);
    assert!(db.get_task(1).unwrap().is_none());
    assert!(db.get_task(2).unwrap().is_some());
    db.delete_task(77).unwrap();
    assert_eq!(db.get_tasks(None).unwrap().len(), 1);
}

#[test]
fn load_accepts_consistent_rows_and_continues_identifiers() {
    let tasks = vec![stored_task(3, "a", Some(5)), stored_task(9, "b", None)];
    let categories = vec![stored_category(5, "Work")];
    let settings = vec![AppSetting {
        key: "theme".to_string(),
        value: "dark".to_string(),
        updated_at: "2024-01-01T00:00:00+00:00".to_string(),
    }];
    let mut db = Database::load(tasks, categories, settings, Vec::new()).unwrap();
    assert_eq!(db.get_setting("theme").unwrap(), Some("dark".to_string()));
    let next = db.create_task(task_input("c", None)).unwrap();
    assert_eq!(next.id, 10);
    let cat = db
        .create_category(CreateCategoryInput { name: "Home".to_string(), color: None })
        .unwrap();
    assert_eq!(cat.id, 6);
}

#[test]
fn load_rejects_rows_that_do_not_fit() {
    let out_of_order = Database::load(
        vec![stored_task(2, "a", None), stored_task(1, "b", None)],
        Vec::new(),
        Vec::new(),
        Vec::new(),
    );
    assert!(matches!(out_of_order, Err(StoreError::StoreFailure(StoreFault::InconsistentRows))));

    let dangling = Database::load(vec![stored_task(1, "a", Some(4))], Vec::new(), Vec::new(), Vec::new());
    assert!(dangling.is_err());

    let mut bad = stored_task(1, "a", None);
    bad.priority = "urgent".to_string();
    assert!(Database::load(vec![bad], Vec::new(), Vec::new(), Vec::new()).is_err());

    let twice = vec![
        AppSetting { key: "k".to_string(), value: "1".to_string(), updated_at: "t".to_string() },
        AppSetting { key: "k".to_string(), value: "2".to_string(), updated_at: "t".to_string() },
    ];
    assert!(Database::load(Vec::new(), Vec::new(), twice, Vec::new()).is_err());

    let orphan_link = Database::load(
        vec![stored_task(1, "a", None)],
        Vec::new(),
        Vec::new(),
        vec![TaskTag { task_id: 2, tag_id: 1 }],
    );
    assert!(orphan_link.is_err());

    assert!(Database::load(vec![stored_task(0, "a", None)], Vec::new(), Vec::new(), Vec::new()).is_err());
    assert!(Database::load(vec![stored_task(i64::MAX, "a", None)], Vec::new(), Vec::new(), Vec::new()).is_err());
}

#[test]
fn identifiers_run_out_at_the_limit() {
    let mut db = Database::load(
        vec![stored_task(i64::MAX - 1, "last", None)],
        vec![stored_category(i64::MAX - 1, "Last")],
        Vec::new(),
        Vec::new(),
    )
    .unwrap();
    let t = db.create_task(task_input("one more", None));
    assert!(matches!(t, Err(StoreError::StoreFailure(StoreFault::IdentifiersExhausted))));
    let c = db.create_category(CreateCategoryInput { name: "More".to_string(), color: None });
    assert!(matches!(c, Err(StoreError::StoreFailure(StoreFault::IdentifiersExhausted))));
    assert_eq!(db.get_tasks(None).unwrap().len(), 1);
}

#[test]
fn a_copy_of_the_store_is_independent() {
    let mut db = Database::new();
    db.create_task(task_input("a", None)).unwrap();
    let mut copy = db.clone();
    copy.create_task(task_input("b", None)).unwrap();
    assert_eq!(db.get_tasks(None).unwrap().len(), 1);
    assert_eq!(copy.get_tasks(None).unwrap().len(), 2);
}

#[test]
fn errors_are_described_in_words() {
    let mut db = Database::new();
    let invalid = db.create_task(task_input("", Some("urgent"))).unwrap_err();
    assert_eq!(
        invalid.message(),
        "Validation error: Field 'title' is required; Validation failed: Priority must be 'low', 'medium', or 'high'"
    );
    assert_eq!(StoreError::NotFound.message(), "Not found");
    assert_eq!(
        StoreError::StoreFailure(StoreFault::UnknownCategory).message(),
        "Store failure: the category does not exist"
    );
    assert_eq!(
        StoreFault::IdentifiersExhausted.message(),
        "Store failure: no identifier is left"
    );
    assert_eq!(
        StoreFault::InconsistentRows.message(),
        "Store failure: the rows do not fit together"
    );
    assert_eq!(StoreFault::ClockUnavailable.message(), "Store failure: the clock cannot be read");
}

#[test]
fn tasks_are_listed_by_created_at_not_by_order_of_creation() {
    let mut db = Database::new();
    let stamps = [
        "2024-03-01T08:00:00+00:00",
        "2024-01-01T08:00:00+00:00",
        "2024-02-01T08:00:00+00:00",
        "2024-01-01T08:00:00+00:00",
        "2024-03-01T08:00:00.500+00:00",
    ];
    for (i, stamp) in stamps.iter().enumerate() {
        db.create_task_at(task_input(&format!("t{}", i + 1), Some("low")), stamp.to_string())
            .unwrap();
    }
    let listed: Vec<(i64, String)> =
        db.get_tasks(None).unwrap().into_iter().map(|t| (t.id, t.created_at)).collect();
    let ids: Vec<i64> = listed.iter().map(|(id, _)| *id).collect();
    assert_eq!(ids, vec![5, 1, 3, 4, 2]);
    assert!(listed.windows(2).all(|w| w[0].1 >= w[1].1));

    let low: Vec<i64> = db
        .get_tasks(Some(TaskFilters { priority: Some("low".to_string()), ..no_filters() }))
        .unwrap()
        .into_iter()
        .map(|t| t.id)
        .collect();
    assert_eq!(low, vec![5, 1, 3, 4, 2]);

    let loaded = Database::load(
        vec![
            Task { created_at: "2024-05-01T00:00:00+00:00".to_string(), ..stored_task(1, "late", None) },
            Task { created_at: "2024-04-01T00:00:00+00:00".to_string(), ..stored_task(2, "early", None) },
        ],
        Vec::new(),
        Vec::new(),
        Vec::new(),
    )
    .unwrap();
    let titles: Vec<String> =
        loaded.get_tasks(None).unwrap().into_iter().map(|t| t.title).collect();
    assert_eq!(titles, vec!["late".to_string(), "early".to_string()]);
}
