use yotion::errors::AppError;
use yotion::records::{
    CreateLanguageRequest, CreatePersonalAccountRequest, CreatePersonalInfoRequest,
    CreateVocabularyRequest,
};
use yotion::store::RecordStore;

const T: i64 = 1_700_000_000;
const DAY: i64 = 86_400;

fn store() -> RecordStore {
    RecordStore::new(String::from("yotion-secret-key-2024"))
}

fn lang_req(name: &str, code: &str) -> CreateLanguageRequest {
    CreateLanguageRequest {
        name: String::from(name),
        code: String::from(code),
        flag_emoji: String::from("flag"),
    }
}

fn vocab_req(language_id: i64, word: &str, translation: &str) -> CreateVocabularyRequest {
    CreateVocabularyRequest {
        language_id,
        word: String::from(word),
        translation: String::from(translation),
        pronunciation: None,
        example_sentence: None,
        difficulty_level: 2,
    }
}

#[test]
fn creating_vocabulary_provisions_exactly_one_flashcard() {
    let mut s = store();
    let lang = s.create_language(lang_req("French", "fr"), T).unwrap();
    let vocab = s.create_vocabulary(vocab_req(lang.id, "chat", "cat"), T).unwrap();
    assert_eq!(vocab.word, "chat");
    let due = s.get_due_flashcards(T + DAY, 20);
    assert_eq!(due.len(), 1);
    let (card, owner) = &due[0];
    assert_eq!(card.vocabulary_id, vocab.id);
    assert_eq!(owner.id, vocab.id);
    assert_eq!(card.repetitions, 0);
    assert_eq!(card.interval_days, 1);
    assert_eq!(card.ease_factor_milli, 2500);
    assert_eq!(card.next_review, T + DAY);
    assert_eq!(card.last_reviewed, None);
}

#[test]
fn failed_creation_leaves_no_rows_for_either_record() {
    let mut s = store();
    let lang = s.create_language(lang_req("French", "fr"), T).unwrap();
    // an out-of-domain difficulty is rejected as validation
    let mut bad = vocab_req(lang.id, "chien", "dog");
    bad.difficulty_level = 9;
    assert!(matches!(s.create_vocabulary(bad, T), Err(AppError::Validation(_))));
    assert!(s.get_vocabulary_by_language(lang.id).is_empty());
    assert!(s.get_due_flashcards(T + 10 * DAY, 20).is_empty());
    // an unknown language is rejected as not-found
    assert!(matches!(
        s.create_vocabulary(vocab_req(9999, "chien", "dog"), T),
        Err(AppError::NotFound(_))
    ));
    assert!(s.get_due_flashcards(T + 10 * DAY, 20).is_empty());
}

#[test]
fn vocabulary_fields_are_trimmed() {
    let mut s = store();
    let lang = s.create_language(lang_req("  French  ", "fr"), T).unwrap();
    assert_eq!(lang.name, "French");
    let vocab = s
        .create_vocabulary(vocab_req(lang.id, "  chat ", "\tcat\n"), T)
        .unwrap();
    assert_eq!(vocab.word, "chat");
    assert_eq!(vocab.translation, "cat");
}

#[test]
fn duplicate_language_is_a_validation_error() {
    let mut s = store();
    s.create_language(lang_req("French", "fr"), T).unwrap();
    assert!(matches!(
        s.create_language(lang_req("French", "xx"), T),
        Err(AppError::Validation(_))
    ));
    assert!(matches!(
        s.create_language(lang_req("Foreign", "fr"), T),
        Err(AppError::Validation(_))
    ));
    assert_eq!(s.get_languages().len(), 1);
}

#[test]
fn due_set_holds_exactly_the_due_cards_in_order() {
    let mut s = store();
    let lang = s.create_language(lang_req("French", "fr"), T).unwrap();
    // cards fall due one day after creation: due at T-3, T-1 and T+5
    let v_a = s.create_vocabulary(vocab_req(lang.id, "a", "a"), T - 3 - DAY).unwrap();
    let v_b = s.create_vocabulary(vocab_req(lang.id, "b", "b"), T - 1 - DAY).unwrap();
    let _v_c = s.create_vocabulary(vocab_req(lang.id, "c", "c"), T + 5 - DAY).unwrap();
    let due = s.get_due_flashcards(T, 20);
    assert_eq!(due.len(), 2);
    assert_eq!(due[0].1.id, v_a.id);
    assert_eq!(due[0].0.next_review, T - 3);
    assert_eq!(due[1].1.id, v_b.id);
    assert_eq!(due[1].0.next_review, T - 1);
}

#[test]
fn due_set_respects_the_limit_keeping_the_most_overdue() {
    let mut s = store();
    let lang = s.create_language(lang_req("French", "fr"), T).unwrap();
    for k in 0..5i64 {
        s.create_vocabulary(vocab_req(lang.id, &format!("w{}", k), "t"), T - 10 + k - DAY)
            .unwrap();
    }
    let due = s.get_due_flashcards(T, 3);
    assert_eq!(due.len(), 3);
    assert_eq!(due[0].0.next_review, T - 10);
    assert_eq!(due[1].0.next_review, T - 9);
    assert_eq!(due[2].0.next_review, T - 8);
}

#[test]
fn search_matches_substrings_case_insensitively() {
    let mut s = store();
    let lang = s.create_language(lang_req("French", "fr"), T).unwrap();
    s.create_vocabulary(vocab_req(lang.id, "Chateau", "castle"), T).unwrap();
    s.create_vocabulary(vocab_req(lang.id, "chien", "dog"), T).unwrap();
    let mut with_example = vocab_req(lang.id, "manger", "to eat");
    with_example.example_sentence = Some(String::from("Le CHAT mange."));
    s.create_vocabulary(with_example, T).unwrap();

    let hits = s.search_vocabulary("chat", 20);
    assert_eq!(hits.len(), 2);
    assert_eq!(hits[0].word, "Chateau");
    assert_eq!(hits[1].word, "manger");
    // the cap keeps the first matches only
    assert_eq!(s.search_vocabulary("chat", 1).len(), 1);
    // the empty query matches everything
    assert_eq!(s.search_vocabulary("", 20).len(), 3);
    assert!(s.search_vocabulary("zebra", 20).is_empty());
}

#[test]
fn due_set_with_limit_zero_is_empty() {
    let mut s = store();
    let lang = s.create_language(lang_req("French", "fr"), T).unwrap();
    s.create_vocabulary(vocab_req(lang.id, "a", "a"), T - DAY).unwrap();
    assert!(s.get_due_flashcards(T, 0).is_empty());
}

#[test]
fn review_updates_the_card_and_unknown_ids_fail() {
    let mut s = store();
    let lang = s.create_language(lang_req("French", "fr"), T).unwrap();
    let vocab = s.create_vocabulary(vocab_req(lang.id, "chat", "cat"), T - DAY).unwrap();
    let card_id = s.get_due_flashcards(T, 20)[0].0.id;
    assert!(matches!(s.review_flashcard(card_id + 100, 5, T), Err(AppError::NotFound(_))));
    s.review_flashcard(card_id, 5, T).unwrap();
    // the card moved one day out with one recorded recall
    let later = s.get_due_flashcards(T + DAY, 20);
    assert_eq!(later.len(), 1);
    let card = later[0].0;
    assert_eq!(card.id, card_id);
    assert_eq!(later[0].1.id, vocab.id);
    assert_eq!(card.repetitions, 1);
    assert_eq!(card.interval_days, 1);
    assert_eq!(card.ease_factor_milli, 2600);
    assert_eq!(card.next_review, T + DAY);
    assert_eq!(card.last_reviewed, Some(T));
}

#[test]
fn reviews_of_two_cards_leave_both_updates_in_place() {
    let mut s = store();
    let lang = s.create_language(lang_req("French", "fr"), T).unwrap();
    s.create_vocabulary(vocab_req(lang.id, "a", "a"), T - DAY).unwrap();
    s.create_vocabulary(vocab_req(lang.id, "b", "b"), T - DAY).unwrap();
    let due = s.get_due_flashcards(T, 20);
    let (id_a, id_b) = (due[0].0.id, due[1].0.id);
    // either interleaving of reviews against different cards keeps both
    s.review_flashcard(id_a, 5, T).unwrap();
    s.review_flashcard(id_b, 0, T).unwrap();
    let after = s.get_due_flashcards(T + 10 * DAY, 20);
    let a = after.iter().find(|p| p.0.id == id_a).unwrap().0;
    let b = after.iter().find(|p| p.0.id == id_b).unwrap().0;
    assert_eq!((a.repetitions, a.ease_factor_milli), (1, 2600));
    assert_eq!((b.repetitions, b.ease_factor_milli), (0, 1700));
}

#[test]
fn second_review_of_the_same_card_reads_the_updated_triple() {
    let mut s = store();
    let lang = s.create_language(lang_req("French", "fr"), T).unwrap();
    s.create_vocabulary(vocab_req(lang.id, "a", "a"), T - DAY).unwrap();
    let id = s.get_due_flashcards(T, 20)[0].0.id;
    // two back-to-back successes: no update is lost, so repetitions
    // reaches 2 and the interval jumps to six days
    s.review_flashcard(id, 5, T).unwrap();
    s.review_flashcard(id, 5, T).unwrap();
    let card = s.get_due_flashcards(T + 10 * DAY, 20)[0].0;
    assert_eq!(card.repetitions, 2);
    assert_eq!(card.interval_days, 6);
    assert_eq!(card.ease_factor_milli, 2700);
}

#[test]
fn deleting_a_language_cascades_to_vocabulary_and_cards() {
    let mut s = store();
    let fr = s.create_language(lang_req("French", "fr"), T).unwrap();
    let de = s.create_language(lang_req("German", "de"), T).unwrap();
    s.create_vocabulary(vocab_req(fr.id, "chat", "cat"), T - DAY).unwrap();
    let kept = s.create_vocabulary(vocab_req(de.id, "Katze", "cat"), T - DAY).unwrap();
    s.delete_language(fr.id).unwrap();
    assert_eq!(s.get_languages().len(), 1);
    assert!(s.get_vocabulary_by_language(fr.id).is_empty());
    assert_eq!(s.get_vocabulary_by_language(de.id).len(), 1);
    let due = s.get_due_flashcards(T, 20);
    assert_eq!(due.len(), 1);
    assert_eq!(due[0].1.id, kept.id);
}

#[test]
fn account_fields_are_plaintext_at_the_boundary() {
    let mut s = store();
    let req = CreatePersonalAccountRequest {
        title: String::from("Mail"),
        email: String::from("me@example.com"),
        password: String::from("hunter2hunter2"),
        website: Some(String::from("https://example.com")),
        notes: None,
        category: String::from("email"),
    };
    let acc = s.create_personal_account(req, T).unwrap();
    assert_eq!(acc.email, "me@example.com");
    assert_eq!(acc.password, "hunter2hunter2");
    let listed = s.get_personal_accounts();
    assert_eq!(listed.len(), 1);
    assert_eq!(listed[0].email, "me@example.com");
    assert_eq!(listed[0].password, "hunter2hunter2");
    assert_eq!(listed[0].title, "Mail");
    let by_cat = s.get_personal_accounts_by_category("email");
    assert_eq!(by_cat.len(), 1);
    assert!(s.get_personal_accounts_by_category("banking").is_empty());
}

#[test]
fn invalid_account_requests_are_rejected() {
    let mut s = store();
    let mut req = CreatePersonalAccountRequest {
        title: String::from("   "),
        email: String::from("me@example.com"),
        password: String::from("pw"),
        website: None,
        notes: None,
        category: String::from("email"),
    };
    assert!(matches!(
        s.create_personal_account(
            CreatePersonalAccountRequest { title: req.title.clone(), ..clone_acc(&req) },
            T
        ),
        Err(AppError::Validation(_))
    ));
    req.title = String::from("Mail");
    req.email = String::from("no-at-sign");
    assert!(matches!(s.create_personal_account(clone_acc(&req), T), Err(AppError::Validation(_))));
    assert!(s.get_personal_accounts().is_empty());
}

fn clone_acc(r: &CreatePersonalAccountRequest) -> CreatePersonalAccountRequest {
    CreatePersonalAccountRequest {
        title: r.title.clone(),
        email: r.email.clone(),
        password: r.password.clone(),
        website: r.website.clone(),
        notes: r.notes.clone(),
        category: r.category.clone(),
    }
}

#[test]
fn sensitive_info_round_trips_and_plain_info_passes_through() {
    let mut s = store();
    let secret = CreatePersonalInfoRequest {
        title: String::from("Passport"),
        content: String::from("P-12345678"),
        category: String::from("documents"),
        is_sensitive: true,
    };
    let open_note = CreatePersonalInfoRequest {
        title: String::from("Shoe size"),
        content: String::from("43"),
        category: String::from("misc"),
        is_sensitive: false,
    };
    s.create_personal_info(secret, T).unwrap();
    s.create_personal_info(open_note, T).unwrap();
    let infos = s.get_personal_info();
    assert_eq!(infos.len(), 2);
    assert_eq!(infos[0].content, "P-12345678");
    assert!(infos[0].is_sensitive);
    assert_eq!(infos[1].content, "43");
    let docs = s.get_personal_info_by_category("documents");
    assert_eq!(docs.len(), 1);
    assert_eq!(docs[0].content, "P-12345678");
}

#[test]
fn clock_stamped_operations_work_end_to_end() {
    let mut s = store();
    let lang = s.create_language(lang_req("French", "fr"), T).unwrap();
    let vocab = s.create_vocabulary_now(vocab_req(lang.id, "chat", "cat")).unwrap();
    assert_eq!(vocab.word, "chat");
    let due = s.get_due_flashcards_now(20);
    // the fresh card is due tomorrow, not today
    assert!(due.is_empty());
    let later = s.get_due_flashcards(yotion::clock::clamped_now() + 2 * DAY, 20);
    assert_eq!(later.len(), 1);
    let id = later[0].0.id;
    s.review_flashcard_now(id, 4).unwrap();
    assert!(matches!(s.review_flashcard_now(id + 50, 4), Err(AppError::NotFound(_))));
}
