use yotion::errors::AppError;
use yotion::records::{
    prepare_code_snippet, prepare_event, prepare_note, prepare_project, prepare_task,
    prepare_task_status, prepare_tech_space, CreateCodeSnippetRequest, CreateEventRequest,
    CreateNoteRequest, CreateProjectRequest, CreateTaskRequest, CreateTechSpaceRequest,
};
use yotion::validation::{
    sanitize_optional_string, sanitize_string, str_eq, validate_date_format,
    validate_difficulty_level, validate_email, validate_language_code, validate_not_empty,
    validate_password_strength, validate_priority, validate_quality_rating, validate_status,
    validate_string_length,
};

const T: i64 = 1_700_000_000;

#[test]
fn not_empty_accepts_visible_text_only() {
    assert!(validate_not_empty("word", "Field").is_ok());
    assert!(validate_not_empty("  x  ", "Field").is_ok());
    assert!(matches!(validate_not_empty("", "Field"), Err(AppError::Validation(_))));
    assert!(matches!(validate_not_empty("   \t\n", "Field"), Err(AppError::Validation(_))));
}

#[test]
fn string_length_bounds_are_inclusive_bytes() {
    assert!(validate_string_length("abc", "Field", 1, 3).is_ok());
    assert!(validate_string_length("abc", "Field", 3, 3).is_ok());
    assert!(validate_string_length("abcd", "Field", 1, 3).is_err());
    assert!(validate_string_length("", "Field", 1, 3).is_err());
    // byte length, not character count: 'é' is two bytes
    assert!(validate_string_length("\u{e9}\u{e9}", "Field", 1, 3).is_err());
}

#[test]
fn difficulty_and_quality_domains() {
    for v in 1..=5 {
        assert!(validate_difficulty_level(v).is_ok());
        assert!(validate_quality_rating(v).is_ok());
    }
    for v in [-1, 0, 6, 100] {
        assert!(validate_difficulty_level(v).is_err());
        assert!(validate_quality_rating(v).is_err());
    }
}

#[test]
fn date_format_is_ten_bytes_of_digits_and_hyphens() {
    assert!(validate_date_format("2024-06-01").is_ok());
    assert!(validate_date_format("2024/06/01").is_err());
    assert!(validate_date_format("2024-6-1").is_err());
    assert!(validate_date_format("2024-06-011").is_err());
}

#[test]
fn status_membership() {
    let allowed = ["todo", "in_progress", "completed", "blocked"];
    assert!(validate_status("todo", &allowed).is_ok());
    assert!(validate_status("done", &allowed).is_err());
    assert!(validate_status("todo", &[]).is_err());
}

#[test]
fn sanitizers_trim_unicode_whitespace() {
    assert_eq!(sanitize_string(String::from("  keep me\t")), "keep me");
    assert_eq!(sanitize_string(String::from("\u{3000}wide\u{3000}")), "wide");
    assert_eq!(sanitize_string(String::from("   ")), "");
    assert_eq!(sanitize_string(String::from("intact")), "intact");
    assert_eq!(sanitize_optional_string(Some(String::from(" a "))), Some(String::from("a")));
    assert_eq!(sanitize_optional_string(None), None);
}

#[test]
fn language_code_shape() {
    assert!(validate_language_code("fr").is_ok());
    assert!(validate_language_code("FR").is_err());
    assert!(validate_language_code("fra").is_err());
    assert!(validate_language_code("f1").is_err());
}

#[test]
fn email_and_password_checks() {
    assert!(validate_email("a@b.c").is_ok());
    assert!(validate_email("a.b").is_err());
    assert!(validate_email("a@b").is_err());
    assert!(validate_password_strength("12345678").is_ok());
    assert!(validate_password_strength("1234567").is_err());
}

#[test]
fn priority_words() {
    for p in ["low", "medium", "high"] {
        assert!(validate_priority(p).is_ok());
    }
    assert!(validate_priority("urgent").is_err());
    assert!(validate_priority("Low").is_err());
}

#[test]
fn str_eq_compares_text() {
    assert!(str_eq("abc", "abc"));
    assert!(!str_eq("abc", "abd"));
    assert!(!str_eq("abc", "ab"));
    assert!(str_eq("", ""));
}

#[test]
fn project_preparation_validates_and_trims() {
    let req = CreateProjectRequest {
        name: String::from("  Big plan "),
        description: Some(String::from(" details ")),
        status: String::from("active"),
        priority: String::from("high"),
        start_date: Some(String::from("2024-01-01")),
        end_date: None,
    };
    let p = prepare_project(req, 7, T).unwrap();
    assert_eq!(p.id, 7);
    assert_eq!(p.name, "Big plan");
    assert_eq!(p.description, Some(String::from("details")));
    assert_eq!((p.created_at, p.updated_at), (T, T));

    let bad = CreateProjectRequest {
        name: String::from("Plan"),
        description: None,
        status: String::from("paused"),
        priority: String::from("high"),
        start_date: None,
        end_date: None,
    };
    assert!(matches!(prepare_project(bad, 8, T), Err(AppError::Validation(_))));
}

#[test]
fn task_preparation_starts_uncompleted() {
    let req = CreateTaskRequest {
        project_id: 3,
        title: String::from("Write docs"),
        description: None,
        status: String::from("todo"),
        priority: String::from("low"),
        due_date: Some(String::from("2024-12-31")),
    };
    let t = prepare_task(req, 11, T).unwrap();
    assert_eq!(t.completed_at, None);
    assert_eq!(t.project_id, 3);

    let bad_date = CreateTaskRequest {
        project_id: 3,
        title: String::from("Write docs"),
        description: None,
        status: String::from("todo"),
        priority: String::from("low"),
        due_date: Some(String::from("someday")),
    };
    assert!(prepare_task(bad_date, 12, T).is_err());
}

#[test]
fn task_status_update_stamps_completion() {
    let done = prepare_task_status("completed", T).unwrap();
    assert_eq!(done.completed_at, Some(T));
    assert_eq!(done.updated_at, T);
    let open_task = prepare_task_status("todo", T).unwrap();
    assert_eq!(open_task.completed_at, None);
    assert!(prepare_task_status("abandoned", T).is_err());
}

#[test]
fn event_and_note_preparation() {
    let ev = prepare_event(
        CreateEventRequest {
            title: String::from(" Standup "),
            description: None,
            event_date: String::from("2024-06-01"),
            start_time: Some(String::from("09:00")),
            end_time: None,
            event_type: String::from("meeting"),
            priority: String::from("medium"),
        },
        1,
        T,
    )
    .unwrap();
    assert_eq!(ev.title, "Standup");
    assert!(prepare_event(
        CreateEventRequest {
            title: String::from("x"),
            description: None,
            event_date: String::from("June first"),
            start_time: None,
            end_time: None,
            event_type: String::from("meeting"),
            priority: String::from("medium"),
        },
        2,
        T,
    )
    .is_err());

    let n = prepare_note(
        CreateNoteRequest {
            title: String::from("Idea"),
            content: String::from("keep bytes  intact "),
            note_date: String::from("2024-06-01"),
            tags: Some(String::from(" a,b ")),
        },
        3,
        T,
    )
    .unwrap();
    assert_eq!(n.content, "keep bytes  intact ");
    assert_eq!(n.tags, Some(String::from("a,b")));
}

#[test]
fn tech_space_and_snippet_preparation() {
    let ts = prepare_tech_space(
        CreateTechSpaceRequest {
            name: String::from(" Rust "),
            description: None,
            icon: String::from("gear"),
        },
        4,
        T,
    )
    .unwrap();
    assert_eq!(ts.name, "Rust");

    let sn = prepare_code_snippet(
        CreateCodeSnippetRequest {
            tech_space_id: 4,
            title: String::from("hello"),
            description: None,
            code: String::from("fn main() {}\n"),
            language: String::from("rust"),
            tags: None,
        },
        5,
        T,
    )
    .unwrap();
    assert_eq!(sn.code, "fn main() {}\n");
    assert!(prepare_code_snippet(
        CreateCodeSnippetRequest {
            tech_space_id: 4,
            title: String::from("hello"),
            description: None,
            code: String::from("   "),
            language: String::from("rust"),
            tags: None,
        },
        6,
        T,
    )
    .is_err());
}
