use std::path::PathBuf;
use yuflow::backup::{
    backup_file_name, candidate_name, describe_file, free_backup_name, has_backup_name,
    position_of, stamp_in_name, time_in_stamp, BackupData, BackupFile, BackupManager,
};
use yuflow::clock::Timestamp;
use yuflow::database::Database;
use yuflow::error::{StoreError, StoreFault};
use yuflow::models::{
    AppSetting, Category, CreateCategoryInput, CreateTaskInput, Task, UpdateTaskInput,
};

fn manager() -> BackupManager {
    BackupManager::new(PathBuf::from("/data/backups"))
}

fn file(name: &str, modified_secs: u64, counts: Option<(usize, usize)>) -> BackupFile {
    BackupFile { filename: name.to_string(), size_bytes: 120, modified_secs, counts }
}

fn populated() -> Database {
    let mut db = Database::new();
    let work = db
        .create_category_at(
            CreateCategoryInput { name: "Work".to_string(), color: Some("#FF5733".to_string()) },
            "2024-01-01T00:00:00+00:00".to_string(),
        )
        .unwrap();
    let home = db
        .create_category_at(
            CreateCategoryInput { name: "Home".to_string(), color: None },
            "2024-01-01T00:00:01+00:00".to_string(),
        )
        .unwrap();
    let review = db
        .create_task_at(
            CreateTaskInput {
                title: "Review PR".to_string(),
                description: Some("the big one".to_string()),
                priority: Some("high".to_string()),
                category_id: Some(work.id),
                due_date: Some("2024-02-01T12:00:00Z".to_string()),
            },
            "2024-01-02T00:00:00+00:00".to_string(),
        )
        .unwrap();
    db.create_task_at(
        CreateTaskInput {
            title: "Clean".to_string(),
            description: None,
            priority: None,
            category_id: Some(home.id),
            due_date: None,
        },
        "2024-01-03T00:00:00+00:00".to_string(),
    )
    .unwrap();
    db.create_task_at(
        CreateTaskInput {
            title: "Idle".to_string(),
            description: None,
            priority: Some("low".to_string()),
            category_id: None,
            due_date: None,
        },
        "2024-01-04T00:00:00+00:00".to_string(),
    )
    .unwrap();
    db.update_task_at(
        UpdateTaskInput {
            id: review.id,
            title: None,
            description: None,
            completed: Some(true),
            priority: None,
            category_id: None,
            due_date: None,
        },
        "2024-01-05T00:00:00+00:00".to_string(),
    )
    .unwrap();
    db.set_setting_at("theme", "dark", "2024-01-06T00:00:00+00:00".to_string()).unwrap();
    db.set_setting_at("lang", "en", "2024-01-06T00:00:01+00:00".to_string()).unwrap();
    db
}

fn stamp() -> Timestamp {
    Timestamp {
        rfc3339: "2024-01-15T10:30:00+00:00".to_string(),
        stamp: "20240115_103000".to_string(),
    }
}

#[test]
fn manager_keeps_its_directory() {
    let m = manager();
    assert_eq!(m.get_backup_dir(), &PathBuf::from("/data/backups"));
}

#[test]
fn file_names_embed_the_stamp() {
    assert_eq!(backup_file_name("20240115_103000"), "yuflow_backup_20240115_103000.json");
    assert_eq!(backup_file_name(""), "yuflow_backup_.json");
    assert!(has_backup_name("yuflow_backup_20240115_103000.json"));
    assert!(has_backup_name("yuflow_backup_.json"));
    assert!(!has_backup_name("yuflow_backup_20240115_103000.txt"));
    assert!(!has_backup_name("backup_20240115_103000.json"));
    assert!(!has_backup_name("yuflow_backup.json"));
    assert_eq!(
        stamp_in_name("yuflow_backup_20240115_103000.json"),
        Some("20240115_103000".to_string())
    );
    assert_eq!(stamp_in_name("yuflow_backup_.json"), Some(String::new()));
    assert_eq!(stamp_in_name("yuflow_backup.json"), None);
    assert_eq!(stamp_in_name("notes.txt"), None);
}

#[test]
fn snapshot_holds_the_whole_store() {
    let db = populated();
    let (name, data) = manager().create_backup_at(&db, stamp(), &Vec::new());
    assert_eq!(name, "yuflow_backup_20240115_103000.json");
    assert_eq!(data.version, "1.0.0");
    assert_eq!(data.created_at, "2024-01-15T10:30:00+00:00");
    let titles: Vec<&str> = data.tasks.iter().map(|t| t.title.as_str()).collect();
    assert_eq!(titles, vec!["Idle", "Clean", "Review PR"]);
    let names: Vec<&str> = data.categories.iter().map(|c| c.name.as_str()).collect();
    assert_eq!(names, vec!["Home", "Work"]);
    let keys: Vec<&str> = data.settings.iter().map(|s| s.key.as_str()).collect();
    assert_eq!(keys, vec!["theme", "lang"]);

    let meta = manager().backup_metadata(name, &data, 2048);
    assert_eq!(meta.filename, "yuflow_backup_20240115_103000.json");
    assert_eq!(meta.created_at, "2024-01-15T10:30:00+00:00");
    assert_eq!(meta.size_bytes, 2048);
    assert_eq!(meta.task_count, 3);
    assert_eq!(meta.category_count, 2);
}

#[test]
fn snapshot_from_the_clock_is_named_by_the_second() {
    let db = populated();
    let (name, data) = manager().create_backup(&db, &Vec::new()).unwrap();
    assert!(has_backup_name(&name));
    let inner = stamp_in_name(&name).unwrap();
    assert_eq!(inner.len(), 15);
    assert_eq!(&inner[8..9], "_");
    assert!(inner.chars().enumerate().all(|(i, c)| i == 8 || c.is_ascii_digit()));
    assert!(yuflow::validation::validate_date_format(&data.created_at).is_ok());
    let listed = manager().list_backups(&vec![file(&name, 0, None)]);
    assert_eq!(listed[0].created_at[..19], data.created_at[..19]);
}

#[test]
fn round_trip_reproduces_the_snapshot() {
    let source = populated();
    let (_, data) = manager().create_backup_at(&source, stamp(), &Vec::new());

    let mut target = Database::new();
    target.create_task(CreateTaskInput {
        title: "to be wiped".to_string(),
        description: None,
        priority: None,
        category_id: None,
        due_date: None,
    })
    .unwrap();
    manager()
        .restore_backup_at(&data, &mut target, &"2024-02-01T00:00:00+00:00".to_string())
        .unwrap();

    let (_, again) = manager().create_backup_at(&target, stamp(), &Vec::new());
    assert_eq!(again.tasks.len(), 3);
    assert_eq!(again.categories.len(), 2);
    assert_eq!(again.settings.len(), 2);

    let restored = target.get_tasks(None).unwrap();
    let by_title = |title: &str| restored.iter().find(|t| t.title == title).unwrap();
    for original in &data.tasks {
        let r = by_title(&original.title);
        assert_eq!(r.description, original.description);
        assert_eq!(r.priority, original.priority);
        assert_eq!(r.due_date, original.due_date);
        assert_eq!(r.completed, original.completed);
        assert_eq!(r.created_at, "2024-02-01T00:00:00+00:00");
    }
    assert!(by_title("Review PR").completed);
    assert!(!by_title("Clean").completed);

    let categories = target.get_categories().unwrap();
    let id_of = |name: &str| categories.iter().find(|c| c.name == name).unwrap().id;
    assert_eq!(by_title("Review PR").category_id, Some(id_of("Work")));
    assert_eq!(by_title("Clean").category_id, Some(id_of("Home")));
    assert_eq!(by_title("Idle").category_id, None);
    assert_eq!(categories.iter().find(|c| c.name == "Work").unwrap().color, "#FF5733");

    assert_eq!(target.get_setting("theme").unwrap(), Some("dark".to_string()));
    assert_eq!(target.get_setting("lang").unwrap(), Some("en".to_string()));
    let ids: Vec<i64> = restored.iter().map(|t| t.id).collect();
    assert_eq!(ids, vec![4, 3, 2]);
}

#[test]
fn restore_from_the_clock_puts_the_records_back() {
    let source = populated();
    let (_, data) = manager().create_backup_at(&source, stamp(), &Vec::new());
    let mut target = Database::new();
    manager().restore_backup(&data, &mut target).unwrap();
    assert_eq!(target.get_tasks(None).unwrap().len(), 3);
    assert_eq!(target.get_categories().unwrap().len(), 2);
}

#[test]
fn restore_keeps_the_protected_category_and_adds_the_snapshot() {
    let mut source = Database::new();
    source.create_category(CreateCategoryInput { name: "General".to_string(), color: None }).unwrap();
    let (_, data) = manager().create_backup_at(&source, stamp(), &Vec::new());
    manager().restore_backup(&data, &mut source).unwrap();
    let names: Vec<String> =
        source.get_categories().unwrap().into_iter().map(|c| c.name).collect();
    assert_eq!(names, vec!["General".to_string(), "General".to_string()]);
}

#[test]
fn a_snapshot_that_is_turned_down_leaves_the_store_as_it_was() {
    let mut target = populated();
    let bad = BackupData {
        version: "1.0.0".to_string(),
        created_at: "2024-01-15T10:30:00+00:00".to_string(),
        tasks: vec![
            Task {
                id: 1,
                title: "fine".to_string(),
                description: None,
                completed: false,
                priority: "low".to_string(),
                category_id: None,
                due_date: None,
                created_at: "x".to_string(),
                updated_at: "x".to_string(),
            },
            Task {
                id: 2,
                title: "broken".to_string(),
                description: None,
                completed: false,
                priority: "urgent".to_string(),
                category_id: None,
                due_date: None,
                created_at: "x".to_string(),
                updated_at: "x".to_string(),
            },
        ],
        categories: vec![Category {
            id: 1,
            name: "New".to_string(),
            color: "#000000".to_string(),
            created_at: "x".to_string(),
        }],
        settings: vec![AppSetting {
            key: "k".to_string(),
            value: "v".to_string(),
            updated_at: "x".to_string(),
        }],
    };
    let r = manager().restore_backup(&bad, &mut target);
    assert!(matches!(r, Err(StoreError::Validation(_))));
    assert_eq!(target.get_tasks(None).unwrap().len(), 3);
    assert_eq!(target.get_categories().unwrap().len(), 2);
    assert_eq!(target.get_setting("theme").unwrap(), Some("dark".to_string()));
    assert_eq!(target.get_setting("k").unwrap(), None);

    let mut dangling = bad;
    dangling.tasks.truncate(1);
    dangling.tasks[0].category_id = Some(99);
    let r = manager().restore_backup(&dangling, &mut target);
    assert!(matches!(r, Err(StoreError::StoreFailure(StoreFault::UnknownCategory))));
    assert_eq!(target.get_tasks(None).unwrap().len(), 3);
}

#[test]
fn listing_reads_the_time_from_the_name() {
    let files = vec![
        file("yuflow_backup_20240115_103000.json", 5, Some((3, 2))),
        file("notes.txt", 6, None),
        file("yuflow_backup_20240301_000000.json", 7, None),
        file("yuflow_backup_garbage.json", 1700000000, Some((1, 1))),
        file("yuflow_backup_20231231_235959.json", 8, Some((0, 0))),
        file("other_20240115_103000.json", 9, Some((4, 4))),
    ];
    let listed = manager().list_backups(&files);
    let seen: Vec<(&str, &str, usize, usize)> = listed
        .iter()
        .map(|m| (m.filename.as_str(), m.created_at.as_str(), m.task_count, m.category_count))
        .collect();
    assert_eq!(
        seen,
        vec![
            ("yuflow_backup_20240301_000000.json", "2024-03-01T00:00:00+00:00", 0, 0),
            ("yuflow_backup_20240115_103000.json", "2024-01-15T10:30:00+00:00", 3, 2),
            ("yuflow_backup_20231231_235959.json", "2023-12-31T23:59:59+00:00", 0, 0),
            ("yuflow_backup_garbage.json", "1700000000", 1, 1),
        ]
    );
    assert!(listed.iter().all(|m| m.size_bytes == 120));
    assert!(manager().list_backups(&Vec::new()).is_empty());
}

#[test]
fn a_file_is_described_from_what_its_name_reads_as() {
    let f = file("yuflow_backup_x.json", 42, None);
    let by_time = describe_file(&f, None);
    assert_eq!(by_time.created_at, "42");
    assert_eq!((by_time.task_count, by_time.category_count), (0, 0));
    let by_name = describe_file(&f, Some("2024-01-15T10:30:00+00:00".to_string()));
    assert_eq!(by_name.created_at, "2024-01-15T10:30:00+00:00");
    assert_eq!(by_name.filename, "yuflow_backup_x.json");
    assert_eq!(by_name.size_bytes, 120);
}

#[test]
fn backups_of_one_second_get_different_names() {
    let db = populated();
    let mut taken: Vec<String> = vec!["notes.txt".to_string()];
    let mut names = Vec::new();
    for _ in 0..12 {
        let (name, _) = manager().create_backup_at(&db, stamp(), &taken);
        assert!(!taken.contains(&name));
        assert!(has_backup_name(&name));
        taken.push(name.clone());
        names.push(name);
    }
    assert_eq!(names[0], "yuflow_backup_20240115_103000.json");
    assert_eq!(names[1], "yuflow_backup_20240115_103000_1.json");
    assert_eq!(names[2], "yuflow_backup_20240115_103000_2.json");
    assert_eq!(names[10], "yuflow_backup_20240115_103000_10.json");
    assert_eq!(names[11], "yuflow_backup_20240115_103000_11.json");

    let gap = vec![
        "yuflow_backup_20240115_103000.json".to_string(),
        "yuflow_backup_20240115_103000_2.json".to_string(),
        "yuflow_backup_20240115_103000.json".to_string(),
    ];
    assert_eq!(free_backup_name("20240115_103000", &gap), "yuflow_backup_20240115_103000_1.json");
    assert_eq!(free_backup_name("20240116_103000", &gap), "yuflow_backup_20240116_103000.json");
    assert_eq!(candidate_name("s", 0), "yuflow_backup_s.json");
    assert_eq!(candidate_name("s", 120), "yuflow_backup_s_120.json");
    assert_eq!(position_of(&gap, "yuflow_backup_20240115_103000_2.json"), Some(1));
    assert_eq!(position_of(&gap, "absent"), None);
}

#[test]
fn snapshots_from_the_clock_do_not_collide() {
    let db = populated();
    let mut taken: Vec<String> = Vec::new();
    for _ in 0..5 {
        let (name, _) = manager().create_backup(&db, &taken).unwrap();
        assert!(!taken.contains(&name));
        taken.push(name);
    }
}

#[test]
fn the_time_is_read_from_a_numbered_name_too() {
    assert_eq!(time_in_stamp("20240115_103000"), "20240115_103000");
    assert_eq!(time_in_stamp("20240115_103000_1"), "20240115_103000");
    assert_eq!(time_in_stamp("20240115_103000_27"), "20240115_103000");
    assert_eq!(time_in_stamp("20240115_103000_"), "20240115_103000_");
    assert_eq!(time_in_stamp("20240115_103000_x1"), "20240115_103000_x1");
    assert_eq!(time_in_stamp("20240115_103000-1"), "20240115_103000-1");
    assert_eq!(time_in_stamp(""), "");
    assert_eq!(time_in_stamp("garbage"), "garbage");

    let files = vec![
        file("yuflow_backup_20240115_103000.json", 1, None),
        file("yuflow_backup_20240115_103000_2.json", 2, None),
        file("yuflow_backup_20240115_102959.json", 3, None),
        file("yuflow_backup_20240115_103000_1.json", 4, None),
        file("yuflow_backup_20240115_103000_10.json", 5, None),
    ];
    let listed = manager().list_backups(&files);
    let seen: Vec<(&str, &str)> =
        listed.iter().map(|m| (m.filename.as_str(), m.created_at.as_str())).collect();
    assert_eq!(
        seen,
        vec![
            ("yuflow_backup_20240115_103000_2.json", "2024-01-15T10:30:00+00:00"),
            ("yuflow_backup_20240115_103000_10.json", "2024-01-15T10:30:00+00:00"),
            ("yuflow_backup_20240115_103000_1.json", "2024-01-15T10:30:00+00:00"),
            ("yuflow_backup_20240115_103000.json", "2024-01-15T10:30:00+00:00"),
            ("yuflow_backup_20240115_102959.json", "2024-01-15T10:29:59+00:00"),
        ]
    );
}
