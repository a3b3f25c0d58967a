//! The record types the store persists, and the pure preparation step
//! of each create operation: validate the request, trim its text
//! fields, and build the finished record. Persisting the prepared
//! record is the surrounding process's concern.
//!
//! Timestamps are unix seconds; the surrounding process renders them
//! as RFC-3339 text when it persists or displays them.

use vstd::prelude::*;

use crate::errors::AppError;
use crate::scheduler::ReviewState;
use crate::validation::{
    all_spaces, is_digit_or_dash, sanitize_optional_string, sanitize_string, str_eq, trim_spec,
    validate_date_format, validate_not_empty, validate_string_length,
};

verus! {

/// A language a user studies vocabulary for.
#[derive(Debug)]
pub struct Language {
    pub id: i64,
    pub name: String,
    pub code: String,
    pub flag_emoji: String,
    pub created_at: i64,
}

impl Clone for Language {
    fn clone(&self) -> (res: Self)
        ensures
            res == *self,
    {
        Language {
            id: self.id,
            name: self.name.clone(),
            code: self.code.clone(),
            flag_emoji: self.flag_emoji.clone(),
            created_at: self.created_at,
        }
    }
}

/// One vocabulary entry; owns exactly one flashcard.
#[derive(Debug)]
pub struct Vocabulary {
    pub id: i64,
    pub language_id: i64,
    pub word: String,
    pub translation: String,
    pub pronunciation: Option<String>,
    pub example_sentence: Option<String>,
    pub difficulty_level: i32,
    pub created_at: i64,
}

/// Copy an optional text.
pub fn clone_optional_string(value: &Option<String>) -> (r: Option<String>)
    ensures
        r == *value,
{
    match value {
        Some(v) => Some(v.clone()),
        None => None,
    }
}

impl Clone for Vocabulary {
    fn clone(&self) -> (res: Self)
        ensures
            res == *self,
    {
        Vocabulary {
            id: self.id,
            language_id: self.language_id,
            word: self.word.clone(),
            translation: self.translation.clone(),
            pronunciation: clone_optional_string(&self.pronunciation),
            example_sentence: clone_optional_string(&self.example_sentence),
            difficulty_level: self.difficulty_level,
            created_at: self.created_at,
        }
    }
}

/// The scheduling record of one vocabulary entry. The ease factor is
/// held in thousandths; timestamps are unix seconds.
#[derive(Clone, Copy, Debug, PartialEq)]
pub struct Flashcard {
    pub id: i64,
    pub vocabulary_id: i64,
    pub ease_factor_milli: u32,
    pub interval_days: u32,
    pub repetitions: u32,
    pub next_review: i64,
    pub last_reviewed: Option<i64>,
    pub created_at: i64,
}

impl Flashcard {
    /// The card's scheduling triple.
    pub open spec fn state(&self) -> ReviewState {
        ReviewState {
            ease_milli: self.ease_factor_milli,
            interval_days: self.interval_days,
            repetitions: self.repetitions,
        }
    }

    /// A well-formed card carries a well-formed triple.
    pub open spec fn wf(&self) -> bool {
        self.state().wf()
    }
}

/// A grouping for code snippets.
#[derive(Debug)]
pub struct TechSpace {
    pub id: i64,
    pub name: String,
    pub description: Option<String>,
    pub icon: String,
    pub created_at: i64,
}

/// A stored piece of code with its metadata.
#[derive(Debug)]
pub struct CodeSnippet {
    pub id: i64,
    pub tech_space_id: i64,
    pub title: String,
    pub description: Option<String>,
    pub code: String,
    pub language: String,
    pub tags: Option<String>,
    pub created_at: i64,
    pub updated_at: i64,
}

/// A project that owns tasks.
#[derive(Debug)]
pub struct Project {
    pub id: i64,
    pub name: String,
    pub description: Option<String>,
    pub status: String,
    pub priority: String,
    pub start_date: Option<String>,
    pub end_date: Option<String>,
    pub created_at: i64,
    pub updated_at: i64,
}

/// A task within a project.
#[derive(Debug)]
pub struct Task {
    pub id: i64,
    pub project_id: i64,
    pub title: String,
    pub description: Option<String>,
    pub status: String,
    pub priority: String,
    pub due_date: Option<String>,
    pub completed_at: Option<i64>,
    pub created_at: i64,
    pub updated_at: i64,
}

/// A calendar event.
#[derive(Debug)]
pub struct Event {
    pub id: i64,
    pub title: String,
    pub description: Option<String>,
    pub event_date: String,
    pub start_time: Option<String>,
    pub end_time: Option<String>,
    pub event_type: String,
    pub priority: String,
    pub created_at: i64,
    pub updated_at: i64,
}

/// A dated note.
#[derive(Debug)]
pub struct Note {
    pub id: i64,
    pub title: String,
    pub content: String,
    pub note_date: String,
    pub tags: Option<String>,
    pub created_at: i64,
    pub updated_at: i64,
}

/// A vault entry for one account; email and password are sensitive
/// and held obscured at rest.
#[derive(Debug)]
pub struct PersonalAccount {
    pub id: i64,
    pub title: String,
    pub email: String,
    pub password: String,
    pub website: Option<String>,
    pub notes: Option<String>,
    pub category: String,
    pub created_at: i64,
    pub updated_at: i64,
}

impl Clone for PersonalAccount {
    fn clone(&self) -> (res: Self)
        ensures
            res == *self,
    {
        PersonalAccount {
            id: self.id,
            title: self.title.clone(),
            email: self.email.clone(),
            password: self.password.clone(),
            website: clone_optional_string(&self.website),
            notes: clone_optional_string(&self.notes),
            category: self.category.clone(),
            created_at: self.created_at,
            updated_at: self.updated_at,
        }
    }
}

/// A vault entry for one piece of personal information; its content
/// is held obscured at rest when the record is marked sensitive.
#[derive(Debug)]
pub struct PersonalInfo {
    pub id: i64,
    pub title: String,
    pub content: String,
    pub category: String,
    pub is_sensitive: bool,
    pub created_at: i64,
    pub updated_at: i64,
}

impl Clone for PersonalInfo {
    fn clone(&self) -> (res: Self)
        ensures
            res == *self,
    {
        PersonalInfo {
            id: self.id,
            title: self.title.clone(),
            content: self.content.clone(),
            category: self.category.clone(),
            is_sensitive: self.is_sensitive,
            created_at: self.created_at,
            updated_at: self.updated_at,
        }
    }
}

// Request shapes handed in by the command layer.

#[derive(Debug)]
pub struct CreateLanguageRequest {
    pub name: String,
    pub code: String,
    pub flag_emoji: String,
}

#[derive(Debug)]
pub struct CreateVocabularyRequest {
    pub language_id: i64,
    pub word: String,
    pub translation: String,
    pub pronunciation: Option<String>,
    pub example_sentence: Option<String>,
    pub difficulty_level: i32,
}

#[derive(Debug)]
pub struct CreateTechSpaceRequest {
    pub name: String,
    pub description: Option<String>,
    pub icon: String,
}

#[derive(Debug)]
pub struct CreateCodeSnippetRequest {
    pub tech_space_id: i64,
    pub title: String,
    pub description: Option<String>,
    pub code: String,
    pub language: String,
    pub tags: Option<String>,
}

#[derive(Debug)]
pub struct CreateProjectRequest {
    pub name: String,
    pub description: Option<String>,
    pub status: String,
    pub priority: String,
    pub start_date: Option<String>,
    pub end_date: Option<String>,
}

#[derive(Debug)]
pub struct CreateTaskRequest {
    pub project_id: i64,
    pub title: String,
    pub description: Option<String>,
    pub status: String,
    pub priority: String,
    pub due_date: Option<String>,
}

#[derive(Debug)]
pub struct CreateEventRequest {
    pub title: String,
    pub description: Option<String>,
    pub event_date: String,
    pub start_time: Option<String>,
    pub end_time: Option<String>,
    pub event_type: String,
    pub priority: String,
}

#[derive(Debug)]
pub struct CreateNoteRequest {
    pub title: String,
    pub content: String,
    pub note_date: String,
    pub tags: Option<String>,
}

#[derive(Debug)]
pub struct FlashcardReviewRequest {
    pub flashcard_id: i64,
    /// 0 (total failure) to 5 (perfect recall); the scheduler clamps
    /// scores outside that range.
    pub quality: i32,
}

#[derive(Debug)]
pub struct CreatePersonalAccountRequest {
    pub title: String,
    pub email: String,
    pub password: String,
    pub website: Option<String>,
    pub notes: Option<String>,
    pub category: String,
}

#[derive(Debug)]
pub struct CreatePersonalInfoRequest {
    pub title: String,
    pub content: String,
    pub category: String,
    pub is_sensitive: bool,
}

// Validity of each request, and the preparation step of each create.

/// The byte length of a text.
pub open spec fn byte_len(s: Seq<char>) -> nat {
    vstd::utf8::encode_utf8(s).len()
}

/// True when the word is one of the three priority words.
pub open spec fn priority_ok(s: Seq<char>) -> bool {
    s == "low"@ || s == "medium"@ || s == "high"@
}

/// True when the text has the ten-byte digits-and-hyphens date shape.
pub open spec fn date_format_ok(s: Seq<char>) -> bool {
    byte_len(s) == 10 && (forall|i: int| 0 <= i < s.len() ==> is_digit_or_dash(#[trigger] s[i]))
}

/// True when the word is a valid project status.
pub open spec fn project_status_ok(s: Seq<char>) -> bool {
    s == "active"@ || s == "completed"@ || s == "on_hold"@ || s == "cancelled"@
}

/// True when the word is a valid task status.
pub open spec fn task_status_ok(s: Seq<char>) -> bool {
    s == "todo"@ || s == "in_progress"@ || s == "completed"@ || s == "blocked"@
}

/// Executable test for the project status words.
pub fn project_status_valid(s: &str) -> (r: bool)
    ensures
        r == project_status_ok(s@),
{
    str_eq(s, "active") || str_eq(s, "completed") || str_eq(s, "on_hold") || str_eq(s, "cancelled")
}

/// Executable test for the task status words.
pub fn task_status_valid(s: &str) -> (r: bool)
    ensures
        r == task_status_ok(s@),
{
    str_eq(s, "todo") || str_eq(s, "in_progress") || str_eq(s, "completed") || str_eq(s, "blocked")
}

/// Executable test for the priority words.
pub fn priority_valid(s: &str) -> (r: bool)
    ensures
        r == priority_ok(s@),
{
    str_eq(s, "low") || str_eq(s, "medium") || str_eq(s, "high")
}

/// True when an optional text is absent or has the date shape.
pub open spec fn opt_date_ok(d: Option<String>) -> bool {
    match d {
        Some(s) => date_format_ok(s@),
        None => true,
    }
}

/// The trim function lifted to optional texts.
pub open spec fn opt_trim_of(v: Option<String>, t: Option<String>) -> bool {
    match v {
        Some(s) => t matches Some(ts) && ts@ == trim_spec(s@),
        None => t is None,
    }
}

/// A project request is acceptable exactly under these conditions.
pub open spec fn project_req_valid(req: CreateProjectRequest) -> bool {
    &&& !all_spaces(req.name@)
    &&& 1 <= byte_len(req.name@) <= 200
    &&& project_status_ok(req.status@)
    &&& priority_ok(req.priority@)
    &&& opt_date_ok(req.start_date)
    &&& opt_date_ok(req.end_date)
}

/// Validate a project request and build the record to persist.
pub fn prepare_project(req: CreateProjectRequest, id: i64, now: i64) -> (r: Result<
    Project,
    AppError,
>)
    ensures
        r is Ok <==> project_req_valid(req),
        r matches Err(e) ==> e is Validation,
        r matches Ok(p) ==> {
            &&& p.id == id
            &&& p.name@ == trim_spec(req.name@)
            &&& opt_trim_of(req.description, p.description)
            &&& p.status@ == trim_spec(req.status@)
            &&& p.priority@ == trim_spec(req.priority@)
            &&& p.start_date == req.start_date
            &&& p.end_date == req.end_date
            &&& p.created_at == now
            &&& p.updated_at == now
        },
{
    validate_not_empty(req.name.as_str(), "Project name")?;
    validate_string_length(req.name.as_str(), "Project name", 1, 200)?;
    if !project_status_valid(req.status.as_str()) {
        return Err(AppError::Validation(String::from_str("Status must be one of the allowed values")));
    }
    if !priority_valid(req.priority.as_str()) {
        return Err(AppError::Validation(String::from_str("Priority must be 'low', 'medium', or 'high'")));
    }
    if let Some(start_date) = &req.start_date {
        validate_date_format(start_date.as_str())?;
    }
    if let Some(end_date) = &req.end_date {
        validate_date_format(end_date.as_str())?;
    }
    Ok(
        Project {
            id,
            name: sanitize_string(req.name),
            description: sanitize_optional_string(req.description),
            status: sanitize_string(req.status),
            priority: sanitize_string(req.priority),
            start_date: req.start_date,
            end_date: req.end_date,
            created_at: now,
            updated_at: now,
        },
    )
}

/// A task request is acceptable exactly under these conditions.
pub open spec fn task_req_valid(req: CreateTaskRequest) -> bool {
    &&& !all_spaces(req.title@)
    &&& 1 <= byte_len(req.title@) <= 200
    &&& task_status_ok(req.status@)
    &&& priority_ok(req.priority@)
    &&& opt_date_ok(req.due_date)
}

/// Validate a task request and build the record to persist. A new
/// task is never completed.
pub fn prepare_task(req: CreateTaskRequest, id: i64, now: i64) -> (r: Result<Task, AppError>)
    ensures
        r is Ok <==> task_req_valid(req),
        r matches Err(e) ==> e is Validation,
        r matches Ok(t) ==> {
            &&& t.id == id
            &&& t.project_id == req.project_id
            &&& t.title@ == trim_spec(req.title@)
            &&& opt_trim_of(req.description, t.description)
            &&& t.status@ == trim_spec(req.status@)
            &&& t.priority@ == trim_spec(req.priority@)
            &&& t.due_date == req.due_date
            &&& t.completed_at is None
            &&& t.created_at == now
            &&& t.updated_at == now
        },
{
    validate_not_empty(req.title.as_str(), "Task title")?;
    validate_string_length(req.title.as_str(), "Task title", 1, 200)?;
    if !task_status_valid(req.status.as_str()) {
        return Err(AppError::Validation(String::from_str("Status must be one of the allowed values")));
    }
    if !priority_valid(req.priority.as_str()) {
        return Err(AppError::Validation(String::from_str("Priority must be 'low', 'medium', or 'high'")));
    }
    if let Some(due_date) = &req.due_date {
        validate_date_format(due_date.as_str())?;
    }
    Ok(
        Task {
            id,
            project_id: req.project_id,
            title: sanitize_string(req.title),
            description: sanitize_optional_string(req.description),
            status: sanitize_string(req.status),
            priority: sanitize_string(req.priority),
            due_date: req.due_date,
            completed_at: None,
            created_at: now,
            updated_at: now,
        },
    )
}

/// The fields a task-status update writes.
#[derive(Debug)]
pub struct TaskStatusUpdate {
    pub status: String,
    pub completed_at: Option<i64>,
    pub updated_at: i64,
}

/// Validate a status word and decide the fields of a task-status
/// update: a task is stamped completed exactly when the new status is
/// "completed".
pub fn prepare_task_status(status: &str, now: i64) -> (r: Result<TaskStatusUpdate, AppError>)
    ensures
        r is Ok <==> task_status_ok(status@),
        r matches Err(e) ==> e is Validation,
        r matches Ok(u) ==> {
            &&& u.status@ == status@
            &&& u.completed_at == (if status@ == "completed"@ {
                Some(now as i64)
            } else {
                None::<i64>
            })
            &&& u.updated_at == now
        },
{
    if !task_status_valid(status) {
        return Err(AppError::Validation(String::from_str("Status must be one of the allowed values")));
    }
    let completed_at = if str_eq(status, "completed") {
        Some(now)
    } else {
        None
    };
    Ok(TaskStatusUpdate { status: status.to_owned(), completed_at, updated_at: now })
}

/// An event request is acceptable exactly under these conditions.
pub open spec fn event_req_valid(req: CreateEventRequest) -> bool {
    &&& !all_spaces(req.title@)
    &&& 1 <= byte_len(req.title@) <= 200
    &&& date_format_ok(req.event_date@)
    &&& priority_ok(req.priority@)
}

/// Validate an event request and build the record to persist.
pub fn prepare_event(req: CreateEventRequest, id: i64, now: i64) -> (r: Result<Event, AppError>)
    ensures
        r is Ok <==> event_req_valid(req),
        r matches Err(e) ==> e is Validation,
        r matches Ok(ev) ==> {
            &&& ev.id == id
            &&& ev.title@ == trim_spec(req.title@)
            &&& opt_trim_of(req.description, ev.description)
            &&& ev.event_date == req.event_date
            &&& ev.start_time == req.start_time
            &&& ev.end_time == req.end_time
            &&& ev.event_type@ == trim_spec(req.event_type@)
            &&& ev.priority@ == trim_spec(req.priority@)
            &&& ev.created_at == now
            &&& ev.updated_at == now
        },
{
    validate_not_empty(req.title.as_str(), "Event title")?;
    validate_string_length(req.title.as_str(), "Event title", 1, 200)?;
    validate_date_format(req.event_date.as_str())?;
    if !priority_valid(req.priority.as_str()) {
        return Err(AppError::Validation(String::from_str("Priority must be 'low', 'medium', or 'high'")));
    }
    Ok(
        Event {
            id,
            title: sanitize_string(req.title),
            description: sanitize_optional_string(req.description),
            event_date: req.event_date,
            start_time: req.start_time,
            end_time: req.end_time,
            event_type: sanitize_string(req.event_type),
            priority: sanitize_string(req.priority),
            created_at: now,
            updated_at: now,
        },
    )
}

/// A note request is acceptable exactly under these conditions.
pub open spec fn note_req_valid(req: CreateNoteRequest) -> bool {
    &&& !all_spaces(req.title@)
    &&& 1 <= byte_len(req.title@) <= 200
    &&& !all_spaces(req.content@)
    &&& date_format_ok(req.note_date@)
}

/// Validate a note request and build the record to persist.
pub fn prepare_note(req: CreateNoteRequest, id: i64, now: i64) -> (r: Result<Note, AppError>)
    ensures
        r is Ok <==> note_req_valid(req),
        r matches Err(e) ==> e is Validation,
        r matches Ok(n) ==> {
            &&& n.id == id
            &&& n.title@ == trim_spec(req.title@)
            &&& n.content == req.content
            &&& n.note_date == req.note_date
            &&& opt_trim_of(req.tags, n.tags)
            &&& n.created_at == now
            &&& n.updated_at == now
        },
{
    validate_not_empty(req.title.as_str(), "Note title")?;
    validate_string_length(req.title.as_str(), "Note title", 1, 200)?;
    validate_not_empty(req.content.as_str(), "Note content")?;
    validate_date_format(req.note_date.as_str())?;
    Ok(
        Note {
            id,
            title: sanitize_string(req.title),
            content: req.content,
            note_date: req.note_date,
            tags: sanitize_optional_string(req.tags),
            created_at: now,
            updated_at: now,
        },
    )
}

/// A tech-space request is acceptable exactly under these conditions.
pub open spec fn tech_space_req_valid(req: CreateTechSpaceRequest) -> bool {
    &&& !all_spaces(req.name@)
    &&& 1 <= byte_len(req.name@) <= 100
    &&& !all_spaces(req.icon@)
}

/// Validate a tech-space request and build the record to persist.
pub fn prepare_tech_space(req: CreateTechSpaceRequest, id: i64, now: i64) -> (r: Result<
    TechSpace,
    AppError,
>)
    ensures
        r is Ok <==> tech_space_req_valid(req),
        r matches Err(e) ==> e is Validation,
        r matches Ok(t) ==> {
            &&& t.id == id
            &&& t.name@ == trim_spec(req.name@)
            &&& opt_trim_of(req.description, t.description)
            &&& t.icon@ == trim_spec(req.icon@)
            &&& t.created_at == now
        },
{
    validate_not_empty(req.name.as_str(), "Tech space name")?;
    validate_string_length(req.name.as_str(), "Tech space name", 1, 100)?;
    validate_not_empty(req.icon.as_str(), "Icon")?;
    Ok(
        TechSpace {
            id,
            name: sanitize_string(req.name),
            description: sanitize_optional_string(req.description),
            icon: sanitize_string(req.icon),
            created_at: now,
        },
    )
}

/// A code-snippet request is acceptable exactly under these
/// conditions.
pub open spec fn code_snippet_req_valid(req: CreateCodeSnippetRequest) -> bool {
    &&& !all_spaces(req.title@)
    &&& 1 <= byte_len(req.title@) <= 200
    &&& !all_spaces(req.code@)
    &&& !all_spaces(req.language@)
}

/// Validate a code-snippet request and build the record to persist.
/// The code body is kept byte for byte; only the metadata is trimmed.
pub fn prepare_code_snippet(req: CreateCodeSnippetRequest, id: i64, now: i64) -> (r: Result<
    CodeSnippet,
    AppError,
>)
    ensures
        r is Ok <==> code_snippet_req_valid(req),
        r matches Err(e) ==> e is Validation,
        r matches Ok(c) ==> {
            &&& c.id == id
            &&& c.tech_space_id == req.tech_space_id
            &&& c.title@ == trim_spec(req.title@)
            &&& opt_trim_of(req.description, c.description)
            &&& c.code == req.code
            &&& c.language@ == trim_spec(req.language@)
            &&& opt_trim_of(req.tags, c.tags)
            &&& c.created_at == now
            &&& c.updated_at == now
        },
{
    validate_not_empty(req.title.as_str(), "Title")?;
    validate_string_length(req.title.as_str(), "Title", 1, 200)?;
    validate_not_empty(req.code.as_str(), "Code")?;
    validate_not_empty(req.language.as_str(), "Language")?;
    Ok(
        CodeSnippet {
            id,
            tech_space_id: req.tech_space_id,
            title: sanitize_string(req.title),
            description: sanitize_optional_string(req.description),
            code: req.code,
            language: sanitize_string(req.language),
            tags: sanitize_optional_string(req.tags),
            created_at: now,
            updated_at: now,
        },
    )
}

/// A language request is acceptable exactly under these conditions.
pub open spec fn language_req_valid(req: CreateLanguageRequest) -> bool {
    &&& !all_spaces(req.name@)
    &&& 1 <= byte_len(req.name@) <= 50
    &&& byte_len(req.code@) == 2
    &&& (forall|i: int|
        0 <= i < req.code@.len() ==> crate::validation::is_ascii_lower(#[trigger] req.code@[i]))
    &&& !all_spaces(req.flag_emoji@)
}

/// A vocabulary request is acceptable exactly under these conditions.
pub open spec fn vocabulary_req_valid(req: CreateVocabularyRequest) -> bool {
    &&& !all_spaces(req.word@)
    &&& 1 <= byte_len(req.word@) <= 200
    &&& !all_spaces(req.translation@)
    &&& 1 <= byte_len(req.translation@) <= 500
    &&& 1 <= req.difficulty_level <= 5
}

} // verus!
