use yuflow::error::violations_text;
use yuflow::models::{
    CreateCategoryInput, CreateTaskInput, ModelValidationError, UpdateTaskInput,
};
use yuflow::validation::{
    date_verdict, validate_color, validate_date_format, validate_priority,
};

fn task(title: &str) -> CreateTaskInput {
    CreateTaskInput {
        title: title.to_string(),
        description: None,
        priority: None,
        category_id: None,
        due_date: None,
    }
}

#[test]
fn test_validation_errors() {
    let invalid_task = CreateTaskInput {
        title: "".to_string(),
        description: None,
        priority: Some("high".to_string()),
        category_id: None,
        due_date: None,
    };

    assert!(invalid_task.validate().is_err());

    let invalid_priority = CreateTaskInput {
        title: "Valid Title".to_string(),
        description: None,
        priority: Some("invalid".to_string()),
        category_id: None,
        due_date: None,
    };

    assert!(invalid_priority.validate().is_err());

    let invalid_category = CreateCategoryInput {
        name: "".to_string(),
        color: Some("#FF5733".to_string()),
    };

    assert!(invalid_category.validate().is_err());

    let invalid_color = CreateCategoryInput {
        name: "Valid Name".to_string(),
        color: Some("invalid-color".to_string()),
    };

    assert!(invalid_color.validate().is_err());
}

#[test]
fn title_length_is_counted_in_characters() {
    assert!(task(&"a".repeat(255)).validate().is_ok());
    assert!(task(&"é".repeat(255)).validate().is_ok());
    let too_long = task(&"a".repeat(256)).validate().unwrap_err();
    assert_eq!(too_long.len(), 1);
    match &too_long[0] {
        ModelValidationError::TooLong { field, max } => {
            assert_eq!(field, "title");
            assert_eq!(*max, 255);
        },
        other => panic!("unexpected {:?}", other),
    }
    let empty = task("").validate().unwrap_err();
    match &empty[0] {
        ModelValidationError::Required { field } => assert_eq!(field, "title"),
        other => panic!("unexpected {:?}", other),
    }
    assert!(task(" ").validate().is_ok());
}

#[test]
fn description_has_an_upper_bound_only() {
    let mut input = task("t");
    input.description = Some(String::new());
    assert!(input.validate().is_ok());
    input.description = Some("d".repeat(1000));
    assert!(input.validate().is_ok());
    input.description = Some("d".repeat(1001));
    let errors = input.validate().unwrap_err();
    match &errors[0] {
        ModelValidationError::TooLong { field, max } => {
            assert_eq!(field, "description");
            assert_eq!(*max, 1000);
        },
        other => panic!("unexpected {:?}", other),
    }
}

#[test]
fn every_broken_rule_is_reported_in_field_order() {
    let input = CreateTaskInput {
        title: String::new(),
        description: Some("d".repeat(1001)),
        priority: Some("urgent".to_string()),
        category_id: None,
        due_date: Some("tomorrow".to_string()),
    };
    let errors = input.validate().unwrap_err();
    assert_eq!(errors.len(), 4);
    assert!(matches!(&errors[0], ModelValidationError::Required { field } if field == "title"));
    assert!(matches!(&errors[1], ModelValidationError::TooLong { field, max: 1000 } if field == "description"));
    assert!(matches!(&errors[2], ModelValidationError::Invalid(m) if m == "Priority must be 'low', 'medium', or 'high'"));
    assert!(matches!(&errors[3], ModelValidationError::Invalid(m) if m == "Date must be in ISO 8601 format"));
    assert_eq!(
        violations_text(&errors),
        "Field 'title' is required; Field 'description' exceeds maximum length of 1000; Validation failed: Priority must be 'low', 'medium', or 'high'; Validation failed: Date must be in ISO 8601 format"
    );
    assert_eq!(violations_text(&Vec::new()), "");
}

#[test]
fn validation_given_takes_the_callers_word_on_the_date() {
    let mut input = task("t");
    input.due_date = Some("not a date".to_string());
    assert!(input.validate_given(true).is_ok());
    assert_eq!(input.validate_given(false).unwrap_err().len(), 1);
    assert!(input.validate().is_err());
    assert!(date_verdict(true).is_ok());
    assert!(date_verdict(false).is_err());
}

#[test]
fn priorities_are_a_closed_set() {
    for p in ["low", "medium", "high"] {
        assert!(validate_priority(p).is_ok());
    }
    for p in ["", "Low", "HIGH", "urgent", "medium ", "lo"] {
        assert!(validate_priority(p).is_err());
    }
}

#[test]
fn dates_must_be_rfc3339_with_offset() {
    for d in ["2024-01-15T10:30:00Z", "2024-01-15T10:30:00+02:00", "2024-02-29T23:59:59.123-08:00"] {
        assert!(validate_date_format(d).is_ok(), "{}", d);
    }
    for d in ["", "2024-01-15", "2024-01-15T10:30:00", "2023-02-29T00:00:00Z", "15/01/2024", "2024-13-01T00:00:00Z"] {
        assert!(validate_date_format(d).is_err(), "{}", d);
    }
}

#[test]
fn colors_are_hash_and_six_hex_digits() {
    for c in ["#FF5733", "#ff5733", "#000000", "#aBcDeF", "#F97316"] {
        assert!(validate_color(c).is_ok(), "{}", c);
    }
    for c in ["", "#", "FF5733", "#FF573", "#FF57333", "#GG5733", "invalid-color", "#FF 733", "#ÿÿÿ", "＃FF5733", "#FF573é"] {
        assert!(validate_color(c).is_err(), "{}", c);
    }
    match validate_color("red").unwrap_err() {
        ModelValidationError::Invalid(m) => {
            assert_eq!(m, "Color must be a valid hex color (e.g., #FF5733)")
        },
        other => panic!("unexpected {:?}", other),
    }
}

#[test]
fn category_names_are_bounded() {
    let ok = CreateCategoryInput { name: "n".repeat(100), color: None };
    assert!(ok.validate().is_ok());
    let long = CreateCategoryInput { name: "n".repeat(101), color: Some("nope".to_string()) };
    let errors = long.validate().unwrap_err();
    assert_eq!(errors.len(), 2);
    assert!(matches!(&errors[0], ModelValidationError::TooLong { field, max: 100 } if field == "name"));
    assert!(matches!(&errors[1], ModelValidationError::Invalid(_)));
}

#[test]
fn update_checks_only_fields_that_are_present() {
    let nothing = UpdateTaskInput {
        id: 1,
        title: None,
        description: None,
        completed: None,
        priority: None,
        category_id: None,
        due_date: None,
    };
    assert!(nothing.validate().is_ok());
    let bad = UpdateTaskInput {
        id: 1,
        title: Some("t".repeat(256)),
        description: None,
        completed: Some(false),
        priority: None,
        category_id: None,
        due_date: Some("2024-01-15".to_string()),
    };
    assert_eq!(bad.validate().unwrap_err().len(), 2);
}

#[test]
fn broken_rules_are_described_in_words() {
    assert_eq!(
        ModelValidationError::Invalid("x".to_string()).message(),
        "Validation failed: x"
    );
    assert_eq!(
        ModelValidationError::Required { field: "title".to_string() }.message(),
        "Field 'title' is required"
    );
    assert_eq!(
        ModelValidationError::TooLong { field: "title".to_string(), max: 255 }.message(),
        "Field 'title' exceeds maximum length of 255"
    );
    assert_eq!(
        ModelValidationError::TooLong { field: "f".to_string(), max: 0 }.message(),
        "Field 'f' exceeds maximum length of 0"
    );
}
