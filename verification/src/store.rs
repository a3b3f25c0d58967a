//! The record store: owns every persisted record, creates a
//! vocabulary entry atomically with its one flashcard, answers the
//! due-card query, applies review outcomes, and routes sensitive vault
//! fields through the obfuscator so they are ciphertext at rest.
//!
//! The store is a single owned value; every operation takes it by
//! (mutable) reference and runs to completion before returning, so
//! operations are serialized by ownership and a review of one card can
//! never interleave with another operation on the same store.

use vstd::prelude::*;

use crate::errors::AppError;
use crate::obfuscator::{obscured, revealed, EncryptionService};
use crate::records::{
    byte_len, opt_trim_of, vocabulary_req_valid, language_req_valid, CreateLanguageRequest,
    CreatePersonalAccountRequest, CreatePersonalInfoRequest, CreateVocabularyRequest, Flashcard,
    Language, PersonalAccount, PersonalInfo, Vocabulary,
};
use crate::scheduler::{next_state, schedule_review, EASE_START_MILLI};
use crate::validation::{
    all_spaces, has_char, sanitize_optional_string, sanitize_string, str_eq,
    trim_spec, validate_difficulty_level, validate_email, validate_language_code,
    validate_not_empty, validate_string_length,
};

verus! {

broadcast use vstd::seq_lib::group_to_multiset_ensures;

/// Seconds in one day.
pub const SECONDS_PER_DAY: i64 = 86400;

/// The last timestamp the store accepts: the final second of the year
/// 9999, the largest instant the RFC-3339 text layout of the
/// persisted form can carry.
pub const TIMESTAMP_MAX: i64 = 253402300799;

/// The flashcard provisioned for a vocabulary entry created at `now`:
/// default ease, a one-day interval, no recalls yet, due in one day,
/// never reviewed.
pub open spec fn initial_flashcard(id: i64, vocabulary_id: i64, now: i64) -> Flashcard {
    Flashcard {
        id,
        vocabulary_id,
        ease_factor_milli: EASE_START_MILLI,
        interval_days: 1,
        repetitions: 0,
        next_review: (now + SECONDS_PER_DAY) as i64,
        last_reviewed: None,
        created_at: now,
    }
}

/// The card after one review at `now`: the scheduler's next triple,
/// due again after the new interval, stamped as just reviewed.
pub open spec fn reviewed_card(f: Flashcard, quality: int, now: int) -> Flashcard {
    let ns = next_state(f.state(), quality);
    Flashcard {
        id: f.id,
        vocabulary_id: f.vocabulary_id,
        ease_factor_milli: ns.ease_milli,
        interval_days: ns.interval_days,
        repetitions: ns.repetitions,
        next_review: (now + ns.interval_days * (SECONDS_PER_DAY as int)) as i64,
        last_reviewed: Some(now as i64),
        created_at: f.created_at,
    }
}

/// The owner of every persisted record, guarding one obfuscation
/// service and one id counter.
pub struct RecordStore {
    service: EncryptionService,
    next_id: i64,
    languages: Vec<Language>,
    vocabulary: Vec<Vocabulary>,
    flashcards: Vec<Flashcard>,
    accounts: Vec<PersonalAccount>,
    infos: Vec<PersonalInfo>,
}

impl RecordStore {
    /// The key bytes sensitive fields are obscured with.
    pub closed spec fn key_bytes(&self) -> Seq<u8> {
        self.service.key_bytes()
    }

    /// The id the next created record receives.
    pub closed spec fn spec_next_id(&self) -> int {
        self.next_id as int
    }

    /// The stored languages, in insertion order.
    pub closed spec fn languages(&self) -> Seq<Language> {
        self.languages@
    }

    /// The stored vocabulary entries, in insertion order.
    pub closed spec fn vocabulary(&self) -> Seq<Vocabulary> {
        self.vocabulary@
    }

    /// The stored flashcards, in insertion order.
    pub closed spec fn flashcards(&self) -> Seq<Flashcard> {
        self.flashcards@
    }

    /// The stored vault accounts (sensitive fields obscured), in
    /// insertion order.
    pub closed spec fn accounts(&self) -> Seq<PersonalAccount> {
        self.accounts@
    }

    /// The stored vault entries (content obscured where sensitive),
    /// in insertion order.
    pub closed spec fn infos(&self) -> Seq<PersonalInfo> {
        self.infos@
    }

    /// A language with this id exists.
    pub open spec fn has_language(&self, id: i64) -> bool {
        exists|i: int| 0 <= i < self.languages().len() && (#[trigger] self.languages()[i]).id == id
    }

    /// A language with this (trimmed) name exists.
    pub open spec fn language_name_taken(&self, name: Seq<char>) -> bool {
        exists|i: int|
            0 <= i < self.languages().len() && (#[trigger] self.languages()[i]).name@ == name
    }

    /// A language with this (trimmed) code exists.
    pub open spec fn language_code_taken(&self, code: Seq<char>) -> bool {
        exists|i: int|
            0 <= i < self.languages().len() && (#[trigger] self.languages()[i]).code@ == code
    }

    /// A vocabulary entry with this id exists.
    pub open spec fn has_vocabulary(&self, id: i64) -> bool {
        exists|i: int| 0 <= i < self.vocabulary().len() && (#[trigger] self.vocabulary()[i]).id
            == id
    }

    /// A flashcard with this id exists.
    pub open spec fn has_flashcard(&self, id: i64) -> bool {
        exists|i: int| 0 <= i < self.flashcards().len() && (#[trigger] self.flashcards()[i]).id
            == id
    }

    /// Languages carry ids below the counter, and no two share an id,
    /// a name or a code.
    pub open spec fn languages_ok(&self) -> bool {
        &&& (forall|i: int|
            0 <= i < self.languages().len() ==> 1 <= (#[trigger] self.languages()[i]).id
                < self.spec_next_id())
        &&& (forall|i: int, j: int|
            #![trigger self.languages()[i], self.languages()[j]]
            0 <= i < j < self.languages().len() ==> self.languages()[i].id
                != self.languages()[j].id && self.languages()[i].name@
                != self.languages()[j].name@ && self.languages()[i].code@
                != self.languages()[j].code@)
    }

    /// Vocabulary entries carry ids below the counter, no two share
    /// an id, and each references an existing language.
    pub open spec fn vocabulary_ok(&self) -> bool {
        &&& (forall|i: int|
            0 <= i < self.vocabulary().len() ==> 1 <= (#[trigger] self.vocabulary()[i]).id
                < self.spec_next_id())
        &&& (forall|i: int, j: int|
            #![trigger self.vocabulary()[i], self.vocabulary()[j]]
            0 <= i < j < self.vocabulary().len() ==> self.vocabulary()[i].id
                != self.vocabulary()[j].id)
        &&& (forall|i: int|
            0 <= i < self.vocabulary().len() ==> self.has_language(
                (#[trigger] self.vocabulary()[i]).language_id,
            ))
    }

    /// Flashcards carry ids below the counter, no two share an id,
    /// each is well formed, each references an existing vocabulary
    /// entry, no two reference the same entry, and every entry has
    /// its card: the vocabulary-to-flashcard ownership is one-to-one.
    pub open spec fn flashcards_ok(&self) -> bool {
        &&& (forall|i: int|
            0 <= i < self.flashcards().len() ==> 1 <= (#[trigger] self.flashcards()[i]).id
                < self.spec_next_id())
        &&& (forall|i: int| 0 <= i < self.flashcards().len() ==> (#[trigger] self.flashcards()[i]).wf())
        &&& (forall|i: int, j: int|
            #![trigger self.flashcards()[i], self.flashcards()[j]]
            0 <= i < j < self.flashcards().len() ==> self.flashcards()[i].id
                != self.flashcards()[j].id && self.flashcards()[i].vocabulary_id
                != self.flashcards()[j].vocabulary_id)
        &&& (forall|i: int|
            0 <= i < self.flashcards().len() ==> self.has_vocabulary(
                (#[trigger] self.flashcards()[i]).vocabulary_id,
            ))
        &&& (forall|i: int|
            0 <= i < self.vocabulary().len() ==> exists|j: int|
                0 <= j < self.flashcards().len() && (#[trigger] self.flashcards()[j]).vocabulary_id
                    == (#[trigger] self.vocabulary()[i]).id)
    }

    /// Vault records carry ids below the counter and no two share an
    /// id.
    pub open spec fn vault_ok(&self) -> bool {
        &&& (forall|i: int|
            0 <= i < self.accounts().len() ==> 1 <= (#[trigger] self.accounts()[i]).id
                < self.spec_next_id())
        &&& (forall|i: int, j: int|
            #![trigger self.accounts()[i], self.accounts()[j]]
            0 <= i < j < self.accounts().len() ==> self.accounts()[i].id != self.accounts()[j].id)
        &&& (forall|i: int|
            0 <= i < self.infos().len() ==> 1 <= (#[trigger] self.infos()[i]).id
                < self.spec_next_id())
        &&& (forall|i: int, j: int|
            #![trigger self.infos()[i], self.infos()[j]]
            0 <= i < j < self.infos().len() ==> self.infos()[i].id != self.infos()[j].id)
    }

    /// The store's invariant: a usable obfuscation key, a positive id
    /// counter, and consistent tables.
    pub open spec fn wf(&self) -> bool {
        &&& self.key_bytes().len() > 0
        &&& self.spec_next_id() >= 1
        &&& self.languages_ok()
        &&& self.vocabulary_ok()
        &&& self.flashcards_ok()
        &&& self.vault_ok()
    }

    /// An empty store over the given obfuscation key text.
    pub fn new(key: String) -> (s: Self)
        requires
            key@.len() > 0,
        ensures
            s.wf(),
            s.key_bytes() == vstd::utf8::encode_utf8(key@),
            s.spec_next_id() == 1,
            s.languages() == Seq::<Language>::empty(),
            s.vocabulary() == Seq::<Vocabulary>::empty(),
            s.flashcards() == Seq::<Flashcard>::empty(),
            s.accounts() == Seq::<PersonalAccount>::empty(),
            s.infos() == Seq::<PersonalInfo>::empty(),
    {
        proof {
            lemma_encode_utf8_nonempty(key@);
        }
        RecordStore {
            service: EncryptionService::new(key),
            next_id: 1,
            languages: Vec::new(),
            vocabulary: Vec::new(),
            flashcards: Vec::new(),
            accounts: Vec::new(),
            infos: Vec::new(),
        }
    }

    /// Create a language. Fails with a validation error exactly when
    /// the request's fields are out of shape or the trimmed name or
    /// code is already taken; fails with a database error only when
    /// the id space is spent.
    pub fn create_language(&mut self, req: CreateLanguageRequest, now: i64) -> (r: Result<
        Language,
        AppError,
    >)
        requires
            old(self).wf(),
        ensures
            final(self).wf(),
            final(self).key_bytes() == old(self).key_bytes(),
            r is Err ==> *final(self) == *old(self),
            r is Ok <==> language_req_valid(req) && !old(self).language_name_taken(
                trim_spec(req.name@),
            ) && !old(self).language_code_taken(trim_spec(req.code@)) && old(self).spec_next_id()
                < i64::MAX as int,
            r matches Err(e) ==> e is Validation || e is Database,
            r matches Err(e) && e is Database ==> old(self).spec_next_id() == i64::MAX as int,
            r matches Ok(lang) ==> {
                &&& lang.id == old(self).spec_next_id()
                &&& lang.name@ == trim_spec(req.name@)
                &&& lang.code@ == trim_spec(req.code@)
                &&& lang.flag_emoji@ == trim_spec(req.flag_emoji@)
                &&& lang.created_at == now
                &&& final(self).languages() == old(self).languages().push(lang)
                &&& final(self).vocabulary() == old(self).vocabulary()
                &&& final(self).flashcards() == old(self).flashcards()
                &&& final(self).accounts() == old(self).accounts()
                &&& final(self).infos() == old(self).infos()
                &&& final(self).spec_next_id() == old(self).spec_next_id() + 1
            },
    {
        validate_not_empty(req.name.as_str(), "Language name")?;
        validate_string_length(req.name.as_str(), "Language name", 1, 50)?;
        validate_language_code(req.code.as_str())?;
        validate_not_empty(req.flag_emoji.as_str(), "Flag emoji")?;

        let name = sanitize_string(req.name);
        let code = sanitize_string(req.code);
        let flag_emoji = sanitize_string(req.flag_emoji);

        if self.language_taken(&name, &code) {
            return Err(AppError::Validation(String::from_str("Language already exists")));
        }
        if self.next_id == i64::MAX {
            return Err(AppError::Database(String::from_str("id space is spent")));
        }

        let lang = Language { id: self.next_id, name, code, flag_emoji, created_at: now };
        let stored = lang.clone();
        self.languages.push(stored);
        self.next_id = self.next_id + 1;
        proof {
            let fin = self.languages@;
            let pre = old(self).languages();
            assert(fin == pre.push(lang));
            assert forall|i: int| 0 <= i < fin.len() implies 1 <= (#[trigger] fin[i]).id
                < self.next_id as int by {
                if i < pre.len() {
                    assert(fin[i] == pre[i]);
                }
            }
            assert forall|i: int, j: int|
                #![trigger fin[i], fin[j]]
                0 <= i < j < fin.len() implies fin[i].id != fin[j].id && fin[i].name@ != fin[j].name@
                && fin[i].code@ != fin[j].code@ by {
                if j < pre.len() {
                    assert(fin[i] == pre[i] && fin[j] == pre[j]);
                } else {
                    assert(fin[i] == pre[i] && fin[j] == lang);
                    assert(!old(self).language_name_taken(name@));
                    assert(!old(self).language_code_taken(code@));
                }
            }
            lemma_vocabulary_ok_stable(*old(self), *self);
            lemma_flashcards_ok_stable(*old(self), *self);
            lemma_vault_ok_stable(*old(self), *self);
        }
        Ok(lang)
    }

    /// Whether the trimmed name or code collides with a stored
    /// language.
    fn language_taken(&self, name: &String, code: &String) -> (r: bool)
        ensures
            r == (self.language_name_taken(name@) || self.language_code_taken(code@)),
    {
        let n = self.languages.len();
        let mut i: usize = 0;
        while i < n
            invariant
                i <= n,
                n == self.languages@.len(),
                forall|j: int|
                    0 <= j < i ==> (#[trigger] self.languages@[j]).name@ != name@
                        && self.languages@[j].code@ != code@,
            decreases n - i,
        {
            if str_eq(self.languages[i].name.as_str(), name.as_str()) {
                assert(self.languages()[i as int].name@ == name@);
                return true;
            }
            if str_eq(self.languages[i].code.as_str(), code.as_str()) {
                assert(self.languages()[i as int].code@ == code@);
                return true;
            }
            i = i + 1;
        }
        false
    }

    /// All languages, in insertion order.
    pub fn get_languages(&self) -> (r: Vec<Language>)
        ensures
            r@ == self.languages(),
    {
        let n = self.languages.len();
        let mut out: Vec<Language> = Vec::new();
        let mut i: usize = 0;
        while i < n
            invariant
                i <= n,
                n == self.languages@.len(),
                out@ =~= self.languages@.take(i as int),
            decreases n - i,
        {
            out.push(self.languages[i].clone());
            proof {
                assert(out@ =~= self.languages@.take(i + 1));
            }
            i = i + 1;
        }
        proof {
            assert(self.languages@.take(n as int) =~= self.languages@);
        }
        out
    }

    /// Create a vocabulary entry and, in the same operation, its one
    /// flashcard, scheduled for a first review one day out. Fails
    /// with a validation error exactly when the request is out of
    /// shape, with not-found exactly when the language id does not
    /// exist, and with a database error only when the id space is
    /// spent; on any failure the store is unchanged, so no entry can
    /// exist without its card.
    pub fn create_vocabulary(&mut self, req: CreateVocabularyRequest, now: i64) -> (r: Result<
        Vocabulary,
        AppError,
    >)
        requires
            old(self).wf(),
            0 <= now <= TIMESTAMP_MAX,
        ensures
            final(self).wf(),
            final(self).key_bytes() == old(self).key_bytes(),
            r is Err ==> *final(self) == *old(self),
            r is Ok <==> vocabulary_req_valid(req) && old(self).has_language(req.language_id)
                && old(self).spec_next_id() + 2 <= i64::MAX as int,
            r matches Err(e) ==> e is Validation || e is NotFound || e is Database,
            r matches Err(e) && e is NotFound ==> vocabulary_req_valid(req) && !old(
                self,
            ).has_language(req.language_id),
            r matches Err(e) && e is Database ==> vocabulary_req_valid(req) && old(
                self,
            ).has_language(req.language_id),
            r matches Ok(v) ==> vocabulary_created(*old(self), *final(self), req, v, now),
    {
        validate_not_empty(req.word.as_str(), "Word")?;
        validate_string_length(req.word.as_str(), "Word", 1, 200)?;
        validate_not_empty(req.translation.as_str(), "Translation")?;
        validate_string_length(req.translation.as_str(), "Translation", 1, 500)?;
        validate_difficulty_level(req.difficulty_level as i64)?;

        if !self.language_exists(req.language_id) {
            return Err(AppError::NotFound(String::from_str("Language not found")));
        }
        if self.next_id > i64::MAX - 2 {
            return Err(AppError::Database(String::from_str("id space is spent")));
        }

        let word = sanitize_string(req.word);
        let translation = sanitize_string(req.translation);
        let pronunciation = sanitize_optional_string(req.pronunciation);
        let example_sentence = sanitize_optional_string(req.example_sentence);

        let vocab_id = self.next_id;
        let card_id = self.next_id + 1;
        let vocab = Vocabulary {
            id: vocab_id,
            language_id: req.language_id,
            word,
            translation,
            pronunciation,
            example_sentence,
            difficulty_level: req.difficulty_level,
            created_at: now,
        };
        let card = Flashcard {
            id: card_id,
            vocabulary_id: vocab_id,
            ease_factor_milli: EASE_START_MILLI,
            interval_days: 1,
            repetitions: 0,
            next_review: now + SECONDS_PER_DAY,
            last_reviewed: None,
            created_at: now,
        };
        let out = vocab.clone();
        let ghost stored_vocab = vocab;
        self.vocabulary.push(vocab);
        self.flashcards.push(card);
        self.next_id = self.next_id + 2;
        proof {
            assert(card == initial_flashcard(card_id, vocab_id, now));
            let vfin = self.vocabulary@;
            let vpre = old(self).vocabulary();
            let ffin = self.flashcards@;
            let fpre = old(self).flashcards();
            assert(vfin == vpre.push(stored_vocab));
            assert(ffin == fpre.push(card));
            // languages are untouched, so every old reference still resolves
            assert forall|i: int|
                0 <= i < vfin.len() implies self.has_language(
                (#[trigger] vfin[i]).language_id,
            ) by {
                if i < vpre.len() {
                    assert(vfin[i] == vpre[i]);
                    assert(old(self).has_language(vpre[i].language_id));
                    let l = choose|k: int|
                        0 <= k < old(self).languages().len() && (#[trigger] old(self).languages()[k]).id
                            == vpre[i].language_id;
                    assert(self.languages()[l].id == vpre[i].language_id);
                } else {
                    assert(vfin[i] == stored_vocab);
                    let l = choose|k: int|
                        0 <= k < old(self).languages().len() && (#[trigger] old(self).languages()[k]).id
                            == req.language_id;
                    assert(self.languages()[l].id == req.language_id);
                }
            }
            assert forall|i: int| 0 <= i < vfin.len() implies 1 <= (#[trigger] vfin[i]).id
                < self.next_id as int by {
                if i < vpre.len() {
                    assert(vfin[i] == vpre[i]);
                }
            }
            assert forall|i: int, j: int|
                #![trigger vfin[i], vfin[j]]
                0 <= i < j < vfin.len() implies vfin[i].id != vfin[j].id by {
                if j < vpre.len() {
                    assert(vfin[i] == vpre[i] && vfin[j] == vpre[j]);
                } else {
                    assert(vfin[i] == vpre[i] && vfin[j] == stored_vocab);
                }
            }
            assert forall|i: int| 0 <= i < ffin.len() implies 1 <= (#[trigger] ffin[i]).id
                < self.next_id as int && (#[trigger] ffin[i]).wf() by {
                if i < fpre.len() {
                    assert(ffin[i] == fpre[i]);
                }
            }
            assert forall|i: int, j: int|
                #![trigger ffin[i], ffin[j]]
                0 <= i < j < ffin.len() implies ffin[i].id != ffin[j].id
                && ffin[i].vocabulary_id != ffin[j].vocabulary_id by {
                if j < fpre.len() {
                    assert(ffin[i] == fpre[i] && ffin[j] == fpre[j]);
                } else {
                    assert(ffin[i] == fpre[i] && ffin[j] == card);
                    // the new card points at the new entry, whose id no old card reaches
                    assert(old(self).has_vocabulary(fpre[i].vocabulary_id));
                }
            }
            assert forall|i: int|
                0 <= i < ffin.len() implies self.has_vocabulary(
                (#[trigger] ffin[i]).vocabulary_id,
            ) by {
                if i < fpre.len() {
                    assert(ffin[i] == fpre[i]);
                    assert(old(self).has_vocabulary(fpre[i].vocabulary_id));
                    let v = choose|k: int|
                        0 <= k < vpre.len() && (#[trigger] vpre[k]).id == fpre[i].vocabulary_id;
                    assert(self.vocabulary()[v].id == fpre[i].vocabulary_id);
                } else {
                    assert(ffin[i] == card);
                    assert(self.vocabulary()[vfin.len() - 1].id == vocab_id);
                }
            }
            assert forall|i: int|
                0 <= i < vfin.len() implies exists|j: int|
                    0 <= j < ffin.len() && (#[trigger] ffin[j]).vocabulary_id
                        == (#[trigger] vfin[i]).id by {
                if i < vpre.len() {
                    assert(vfin[i] == vpre[i]);
                    let j = choose|j: int|
                        0 <= j < fpre.len() && (#[trigger] fpre[j]).vocabulary_id == vpre[i].id;
                    assert(ffin[j].vocabulary_id == vfin[i].id);
                } else {
                    assert(ffin[ffin.len() - 1].vocabulary_id == vfin[i].id);
                }
            }
            lemma_languages_ok_stable(*old(self), *self);
            lemma_vault_ok_stable(*old(self), *self);
        }
        Ok(out)
    }

    /// Whether a language with the given id exists.
    pub fn language_exists(&self, id: i64) -> (r: bool)
        ensures
            r == self.has_language(id),
    {
        let n = self.languages.len();
        let mut i: usize = 0;
        while i < n
            invariant
                i <= n,
                n == self.languages@.len(),
                forall|j: int| 0 <= j < i ==> (#[trigger] self.languages@[j]).id != id,
            decreases n - i,
        {
            if self.languages[i].id == id {
                assert(self.languages()[i as int].id == id);
                return true;
            }
            i = i + 1;
        }
        false
    }

    /// The vocabulary entries of one language, in insertion order.
    pub fn get_vocabulary_by_language(&self, language_id: i64) -> (r: Vec<Vocabulary>)
        ensures
            r@ == self.vocabulary().filter(|v: Vocabulary| v.language_id == language_id),
    {
        let n = self.vocabulary.len();
        let mut out: Vec<Vocabulary> = Vec::new();
        let mut i: usize = 0;
        proof {
            assert(self.vocabulary@.take(0).filter(|v: Vocabulary| v.language_id == language_id)
                =~= Seq::<Vocabulary>::empty());
        }
        while i < n
            invariant
                i <= n,
                n == self.vocabulary@.len(),
                out@ == self.vocabulary@.take(i as int).filter(
                    |v: Vocabulary| v.language_id == language_id,
                ),
            decreases n - i,
        {
            proof {
                reveal_filter_step(
                    self.vocabulary@,
                    i as int,
                    |v: Vocabulary| v.language_id == language_id,
                );
            }
            if self.vocabulary[i].language_id == language_id {
                out.push(self.vocabulary[i].clone());
            }
            i = i + 1;
        }
        proof {
            assert(self.vocabulary@.take(n as int) =~= self.vocabulary@);
        }
        out
    }

    /// Apply one review to the card with the given id: read its
    /// triple, run the scheduler, and write the four updated fields
    /// back, all as one operation on the owned store. Fails with
    /// not-found exactly when no card has the id, and then changes
    /// nothing; the quality score is clamped, never rejected.
    pub fn review_flashcard(&mut self, flashcard_id: i64, quality: i64, now: i64) -> (r: Result<
        (),
        AppError,
    >)
        requires
            old(self).wf(),
            0 <= now <= TIMESTAMP_MAX,
        ensures
            final(self).wf(),
            final(self).key_bytes() == old(self).key_bytes(),
            r is Ok <==> old(self).has_flashcard(flashcard_id),
            r matches Err(e) ==> e is NotFound && *final(self) == *old(self),
            r is Ok ==> review_applied(*old(self), *final(self), flashcard_id, quality, now),
    {
        match self.find_flashcard(flashcard_id) {
            None => Err(AppError::NotFound(String::from_str("Flashcard not found"))),
            Some(i) => {
                let card = self.flashcards[i];
                let ns = schedule_review(
                    &crate::scheduler::ReviewState {
                        ease_milli: card.ease_factor_milli,
                        interval_days: card.interval_days,
                        repetitions: card.repetitions,
                    },
                    quality,
                );
                assert(ns.interval_days <= 0x7fff_ffffu32);
                let updated = Flashcard {
                    id: card.id,
                    vocabulary_id: card.vocabulary_id,
                    ease_factor_milli: ns.ease_milli,
                    interval_days: ns.interval_days,
                    repetitions: ns.repetitions,
                    next_review: now + (ns.interval_days as i64) * SECONDS_PER_DAY,
                    last_reviewed: Some(now),
                    created_at: card.created_at,
                };
                self.flashcards.set(i, updated);
                proof {
                    assert(updated == reviewed_card(
                        old(self).flashcards()[i as int],
                        quality as int,
                        now as int,
                    ));
                    let ffin = self.flashcards@;
                    let fpre = old(self).flashcards();
                    assert(ffin == fpre.update(i as int, updated));
                    assert forall|k: int|
                        0 <= k < ffin.len() implies 1 <= (#[trigger] ffin[k]).id
                        < self.next_id as int && (#[trigger] ffin[k]).wf() by {
                        if k != i {
                            assert(ffin[k] == fpre[k]);
                        }
                    }
                    assert forall|k: int, l: int|
                        #![trigger ffin[k], ffin[l]]
                        0 <= k < l < ffin.len() implies ffin[k].id != ffin[l].id
                        && ffin[k].vocabulary_id != ffin[l].vocabulary_id by {
                        if k != i {
                            assert(ffin[k] == fpre[k]);
                        }
                        if l != i {
                            assert(ffin[l] == fpre[l]);
                        }
                    }
                    assert forall|k: int|
                        0 <= k < ffin.len() implies self.has_vocabulary(
                        (#[trigger] ffin[k]).vocabulary_id,
                    ) by {
                        if k != i {
                            assert(ffin[k] == fpre[k]);
                        }
                        assert(ffin[k].vocabulary_id == fpre[k].vocabulary_id);
                        assert(old(self).has_vocabulary(fpre[k].vocabulary_id));
                        let v = choose|v: int|
                            0 <= v < old(self).vocabulary().len() && (#[trigger] old(
                                self,
                            ).vocabulary()[v]).id == fpre[k].vocabulary_id;
                        assert(self.vocabulary()[v].id == fpre[k].vocabulary_id);
                    }
                    assert forall|k: int|
                        0 <= k < self.vocabulary().len() implies exists|j: int|
                            0 <= j < ffin.len() && (#[trigger] ffin[j]).vocabulary_id
                                == (#[trigger] self.vocabulary()[k]).id by {
                        assert(self.vocabulary()[k] == old(self).vocabulary()[k]);
                        let j = choose|j: int|
                            0 <= j < fpre.len() && (#[trigger] fpre[j]).vocabulary_id == old(
                                self,
                            ).vocabulary()[k].id;
                        assert(ffin[j].vocabulary_id == self.vocabulary()[k].id);
                    }
                    lemma_languages_ok_stable(*old(self), *self);
                    lemma_vocabulary_ok_stable(*old(self), *self);
                    lemma_vault_ok_stable(*old(self), *self);
                }
                Ok(())
            },
        }
    }

    /// The position of the vocabulary entry with the given id, if any.
    fn find_vocabulary(&self, id: i64) -> (r: Option<usize>)
        ensures
            r matches Some(i) ==> 0 <= i < self.vocabulary().len() && (self.vocabulary()[i as int]).id
                == id,
            r is Some <==> self.has_vocabulary(id),
    {
        let n = self.vocabulary.len();
        let mut i: usize = 0;
        while i < n
            invariant
                i <= n,
                n == self.vocabulary@.len(),
                forall|j: int| 0 <= j < i ==> (#[trigger] self.vocabulary@[j]).id != id,
            decreases n - i,
        {
            if self.vocabulary[i].id == id {
                assert(self.vocabulary()[i as int].id == id);
                return Some(i);
            }
            i = i + 1;
        }
        None
    }

    /// All due cards joined with their owning vocabulary entries,
    /// most overdue first, capped at `limit`. A card is due when its
    /// next-review instant is at or before `now`. The result holds
    /// the `limit` earliest-due cards (all of them when fewer are
    /// due): every due card left out is due no earlier than every
    /// card returned.
    pub fn get_due_flashcards(&self, now: i64, limit: usize) -> (r: Vec<(Flashcard, Vocabulary)>)
        requires
            self.wf(),
        ensures
            due_result_ok(*self, r@, now, limit as int),
    {
        let ghost cards = self.flashcards();

        // gather the due cards
        let n = self.flashcards.len();
        let mut pool: Vec<Flashcard> = Vec::new();
        let mut i: usize = 0;
        proof {
            assert(cards.take(0).filter(|f: Flashcard| is_due(f, now)) =~= Seq::<
                Flashcard,
            >::empty()) by {
                reveal(Seq::filter);
            }
        }
        while i < n
            invariant
                i <= n,
                n == self.flashcards@.len(),
                pool@ == due_seq(self.flashcards@.take(i as int), now),
            decreases n - i,
        {
            proof {
                reveal_filter_step(self.flashcards@, i as int, |f: Flashcard| is_due(f, now));
            }
            if self.flashcards[i].next_review <= now {
                pool.push(self.flashcards[i]);
            }
            i = i + 1;
        }
        proof {
            assert(self.flashcards@.take(n as int) =~= self.flashcards@);
        }
        let ghost dues = due_seq(cards, now);
        assert(pool@ == dues);
        proof {
            lemma_due_seq_props(cards, now);
            lemma_due_seq_distinct(cards, now);
        }

        // repeatedly move the earliest-due card over, joined with its
        // owning entry
        let mut out: Vec<(Flashcard, Vocabulary)> = Vec::new();
        while out.len() < limit && pool.len() > 0
            invariant
                self.wf(),
                out@.len() <= limit,
                out_cards(out@).to_multiset().add(pool@.to_multiset()) == dues.to_multiset(),
                forall|k1: int, k2: int|
                    #![trigger out@[k1], out@[k2]]
                    0 <= k1 < k2 < out@.len() ==> out@[k1].0.next_review <= out@[k2].0.next_review
                        && out@[k1].0.id != out@[k2].0.id,
                forall|k: int, j: int|
                    #![trigger out@[k], pool@[j]]
                    0 <= k < out@.len() && 0 <= j < pool@.len() ==> out@[k].0.next_review
                        <= pool@[j].next_review && out@[k].0.id != pool@[j].id,
                forall|k: int|
                    0 <= k < out@.len() ==> self.flashcards().contains((#[trigger] out@[k]).0)
                        && is_due(out@[k].0, now) && self.vocabulary().contains(out@[k].1)
                        && out@[k].1.id == out@[k].0.vocabulary_id,
                forall|j: int|
                    0 <= j < pool@.len() ==> self.flashcards().contains(#[trigger] pool@[j])
                        && is_due(pool@[j], now),
                forall|j1: int, j2: int|
                    #![trigger pool@[j1], pool@[j2]]
                    0 <= j1 < j2 < pool@.len() ==> pool@[j1].id != pool@[j2].id,
            decreases limit - out.len(),
        {
            // the position of the earliest-due card left in the pool
            let plen = pool.len();
            let mut m: usize = 0;
            let mut j: usize = 1;
            while j < plen
                invariant
                    0 < plen == pool@.len(),
                    m < j <= plen,
                    forall|k: int|
                        0 <= k < j ==> pool@[m as int].next_review
                            <= (#[trigger] pool@[k]).next_review,
                decreases plen - j,
            {
                if pool[j].next_review < pool[m].next_review {
                    m = j;
                }
                j = j + 1;
            }
            let ghost pool_pre = pool@;
            let ghost out_pre = out@;
            let f = pool.remove(m);
            let vi = match self.find_vocabulary(f.vocabulary_id) {
                Some(vi) => vi,
                None => {
                    // unreachable: the store ties every card to its entry
                    proof {
                        assert(cards.contains(f));
                        let ci = choose|ci: int| 0 <= ci < cards.len() && cards[ci] == f;
                        assert(self.has_vocabulary(cards[ci].vocabulary_id));
                    }
                    proof {
                        assert(false);
                    }
                    return out;
                },
            };
            let v = self.vocabulary[vi].clone();
            out.push((f, v));
            proof {
                assert(self.vocabulary().contains(v)) by {
                    assert(self.vocabulary()[vi as int] == v);
                }
                assert(out_cards(out@) =~= out_cards(out_pre).push(f));
                assert(pool@ == pool_pre.remove(m as int));
                assert(out_cards(out_pre).push(f).to_multiset() =~= out_cards(
                    out_pre,
                ).to_multiset().insert(f));
                assert(pool_pre.remove(m as int).to_multiset() =~= pool_pre.to_multiset().remove(
                    pool_pre[m as int],
                ));
                assert(pool_pre.to_multiset().count(pool_pre[m as int]) > 0) by {
                    assert(pool_pre.contains(pool_pre[m as int]));
                }
                assert(out_cards(out@).to_multiset().add(pool@.to_multiset())
                    =~= out_cards(out_pre).to_multiset().add(pool_pre.to_multiset()));
                assert forall|k: int, j2: int|
                    #![trigger out@[k], pool@[j2]]
                    0 <= k < out@.len() && 0 <= j2 < pool@.len() implies out@[k].0.next_review
                    <= pool@[j2].next_review && out@[k].0.id != pool@[j2].id by {
                    if j2 < m {
                        assert(pool@[j2] == pool_pre[j2]);
                    } else {
                        assert(pool@[j2] == pool_pre[j2 + 1]);
                    }
                    if k < out_pre.len() {
                        assert(out@[k] == out_pre[k]);
                    } else {
                        assert(out@[k].0 == pool_pre[m as int]);
                    }
                }
                assert forall|k1: int, k2: int|
                    #![trigger out@[k1], out@[k2]]
                    0 <= k1 < k2 < out@.len() implies out@[k1].0.next_review
                    <= out@[k2].0.next_review && out@[k1].0.id != out@[k2].0.id by {
                    assert(out@[k1] == out_pre[k1]);
                    if k2 < out_pre.len() {
                        assert(out@[k2] == out_pre[k2]);
                    } else {
                        assert(out@[k2].0 == pool_pre[m as int]);
                    }
                }
                assert forall|j1: int, j2: int|
                    #![trigger pool@[j1], pool@[j2]]
                    0 <= j1 < j2 < pool@.len() implies pool@[j1].id != pool@[j2].id by {
                    if j1 < m {
                        assert(pool@[j1] == pool_pre[j1]);
                    } else {
                        assert(pool@[j1] == pool_pre[j1 + 1]);
                    }
                    if j2 < m {
                        assert(pool@[j2] == pool_pre[j2]);
                    } else {
                        assert(pool@[j2] == pool_pre[j2 + 1]);
                    }
                }
                assert forall|j2: int|
                    0 <= j2 < pool@.len() implies self.flashcards().contains(#[trigger] pool@[j2])
                    && is_due(pool@[j2], now) by {
                    if j2 < m {
                        assert(pool@[j2] == pool_pre[j2]);
                    } else {
                        assert(pool@[j2] == pool_pre[j2 + 1]);
                    }
                }
            }
        }
        proof {
            let oc = out_cards(out@);
            assert(oc.len() == out@.len());
            assert(oc.to_multiset().len() + pool@.to_multiset().len() == dues.to_multiset().len());
            assert(r_len_ok(out@, pool@, dues, limit as int));
            // any due card not in the result sits in the pool
            assert forall|j: int, k: int|
                #![trigger cards[j], out@[k]]
                0 <= j < cards.len() && is_due(cards[j], now) && excludes_id(out@, cards[j].id) && 0
                    <= k < out@.len() implies out@[k].0.next_review <= cards[j].next_review by {
                let x = cards[j];
                cards.lemma_filter_contains(|f: Flashcard| is_due(f, now), j);
                assert(dues.contains(x));
                assert(dues.to_multiset().count(x) > 0);
                if oc.to_multiset().count(x) > 0 {
                    assert(oc.contains(x));
                    let kk = choose|kk: int| 0 <= kk < oc.len() && oc[kk] == x;
                    assert(out@[kk].0 == x);
                    assert(false);
                }
                assert(pool@.to_multiset().count(x) > 0);
                assert(pool@.contains(x));
                let jj = choose|jj: int| 0 <= jj < pool@.len() && pool@[jj] == x;
                assert(out@[k].0.next_review <= pool@[jj].next_review);
            }
        }
        out
    }

    /// Create a vocabulary entry and its flashcard, stamped with the
    /// process clock (clamped into the store's accepted range).
    pub fn create_vocabulary_now(&mut self, req: CreateVocabularyRequest) -> (r: Result<
        Vocabulary,
        AppError,
    >)
        requires
            old(self).wf(),
        ensures
            final(self).wf(),
            final(self).key_bytes() == old(self).key_bytes(),
            r is Err ==> *final(self) == *old(self),
            r is Ok <==> vocabulary_req_valid(req) && old(self).has_language(req.language_id)
                && old(self).spec_next_id() + 2 <= i64::MAX as int,
            r matches Err(e) ==> e is Validation || e is NotFound || e is Database,
            r matches Ok(v) ==> exists|now: i64|
                #![auto]
                0 <= now <= TIMESTAMP_MAX && vocabulary_created(
                    *old(self),
                    *final(self),
                    req,
                    v,
                    now,
                ),
    {
        let now = crate::clock::clamped_now();
        match self.create_vocabulary(req, now) {
            Ok(v) => {
                proof {
                    assert(vocabulary_created(*old(self), *self, req, v, now));
                }
                Ok(v)
            },
            Err(e) => Err(e),
        }
    }

    /// Apply one review stamped with the process clock (clamped into
    /// the store's accepted range).
    pub fn review_flashcard_now(&mut self, flashcard_id: i64, quality: i64) -> (r: Result<
        (),
        AppError,
    >)
        requires
            old(self).wf(),
        ensures
            final(self).wf(),
            final(self).key_bytes() == old(self).key_bytes(),
            r is Ok <==> old(self).has_flashcard(flashcard_id),
            r matches Err(e) ==> e is NotFound && *final(self) == *old(self),
            r is Ok ==> exists|now: i64|
                #![auto]
                0 <= now <= TIMESTAMP_MAX && review_applied(
                    *old(self),
                    *final(self),
                    flashcard_id,
                    quality,
                    now,
                ),
    {
        let now = crate::clock::clamped_now();
        match self.review_flashcard(flashcard_id, quality, now) {
            Ok(u) => {
                proof {
                    assert(review_applied(*old(self), *self, flashcard_id, quality, now));
                }
                Ok(u)
            },
            Err(e) => Err(e),
        }
    }

    /// The due cards as of the process clock (clamped into the
    /// store's accepted range).
    pub fn get_due_flashcards_now(&self, limit: usize) -> (r: Vec<(Flashcard, Vocabulary)>)
        requires
            self.wf(),
        ensures
            exists|now: i64|
                #![auto]
                0 <= now <= TIMESTAMP_MAX && due_result_ok(*self, r@, now, limit as int),
    {
        let now = crate::clock::clamped_now();
        let r = self.get_due_flashcards(now, limit);
        proof {
            assert(due_result_ok(*self, r@, now, limit as int));
        }
        r
    }

    /// What a read path returns for one obscured field: the revealed
    /// plaintext, or the sentinel text when the stored value cannot
    /// be reversed (so list views stay usable).
    pub open spec fn reveal_or_sentinel(stored: Seq<char>, key: Seq<u8>) -> Seq<char> {
        match revealed(stored, key) {
            Some(p) => p,
            None => "Decryption failed"@,
        }
    }

    /// Reveal one stored field, degrading to the sentinel.
    fn reveal_field(&self, stored: &String) -> (r: String)
        requires
            self.key_bytes().len() > 0,
        ensures
            r@ == Self::reveal_or_sentinel(stored@, self.key_bytes()),
    {
        match self.service.decrypt(stored.as_str()) {
            Ok(p) => p,
            Err(_) => String::from_str("Decryption failed"),
        }
    }

    /// Create a vault account. The trimmed email and the password are
    /// obscured before they are stored; the caller receives the
    /// plaintext back. Fails with a validation error exactly when the
    /// request is out of shape, and with a database error only when
    /// the id space is spent; on failure the store is unchanged.
    pub fn create_personal_account(
        &mut self,
        req: CreatePersonalAccountRequest,
        now: i64,
    ) -> (r: Result<PersonalAccount, AppError>)
        requires
            old(self).wf(),
        ensures
            final(self).wf(),
            final(self).key_bytes() == old(self).key_bytes(),
            r is Err ==> *final(self) == *old(self),
            r is Ok <==> account_req_valid(req) && old(self).spec_next_id() < i64::MAX as int,
            r matches Err(e) ==> e is Validation || e is Database,
            r matches Err(e) && e is Database ==> account_req_valid(req),
            r matches Ok(acc) ==> {
                &&& acc.id == old(self).spec_next_id()
                &&& acc.title@ == trim_spec(req.title@)
                &&& acc.email@ == trim_spec(req.email@)
                &&& acc.password == req.password
                &&& opt_trim_of(req.website, acc.website)
                &&& opt_trim_of(req.notes, acc.notes)
                &&& acc.category@ == trim_spec(req.category@)
                &&& acc.created_at == now
                &&& acc.updated_at == now
                &&& final(self).accounts().len() == old(self).accounts().len() + 1
                &&& final(self).accounts().take(old(self).accounts().len() as int) == old(
                    self,
                ).accounts()
                &&& stored_account_ok(final(self).accounts().last(), acc, req, old(self).key_bytes())
                &&& final(self).languages() == old(self).languages()
                &&& final(self).vocabulary() == old(self).vocabulary()
                &&& final(self).flashcards() == old(self).flashcards()
                &&& final(self).infos() == old(self).infos()
                &&& final(self).spec_next_id() == old(self).spec_next_id() + 1
            },
    {
        validate_not_empty(req.title.as_str(), "Account title")?;
        validate_string_length(req.title.as_str(), "Account title", 1, 200)?;
        validate_email(req.email.as_str())?;
        validate_not_empty(req.password.as_str(), "Password")?;
        if self.next_id == i64::MAX {
            return Err(AppError::Database(String::from_str("id space is spent")));
        }

        let title = sanitize_string(req.title);
        let email = sanitize_string(req.email);
        let website = sanitize_optional_string(req.website);
        let notes = sanitize_optional_string(req.notes);
        let category = sanitize_string(req.category);

        let obscured_email = match self.service.encrypt(email.as_str()) {
            Ok(c) => c,
            Err(e) => {
                return Err(e);
            },
        };
        let obscured_password = match self.service.encrypt(req.password.as_str()) {
            Ok(c) => c,
            Err(e) => {
                return Err(e);
            },
        };

        let acc = PersonalAccount {
            id: self.next_id,
            title,
            email,
            password: req.password,
            website,
            notes,
            category,
            created_at: now,
            updated_at: now,
        };
        let stored = PersonalAccount {
            id: acc.id,
            title: acc.title.clone(),
            email: obscured_email,
            password: obscured_password,
            website: crate::records::clone_optional_string(&acc.website),
            notes: crate::records::clone_optional_string(&acc.notes),
            category: acc.category.clone(),
            created_at: now,
            updated_at: now,
        };
        self.accounts.push(stored);
        self.next_id = self.next_id + 1;
        proof {
            let fin = self.accounts@;
            let pre = old(self).accounts();
            assert(fin.take(pre.len() as int) =~= pre);
            assert forall|i: int| 0 <= i < fin.len() implies 1 <= (#[trigger] fin[i]).id
                < self.next_id as int by {
                if i < pre.len() {
                    assert(fin[i] == pre[i]);
                }
            }
            assert forall|i: int, j: int|
                #![trigger fin[i], fin[j]]
                0 <= i < j < fin.len() implies fin[i].id != fin[j].id by {
                assert(fin[i] == pre[i]);
                if j < pre.len() {
                    assert(fin[j] == pre[j]);
                }
            }
            assert forall|i: int| 0 <= i < self.infos().len() implies 1 <= (
            #[trigger] self.infos()[i]).id < self.next_id as int by {
                assert(self.infos()[i] == old(self).infos()[i]);
            }
            assert forall|i: int, j: int|
                #![trigger self.infos()[i], self.infos()[j]]
                0 <= i < j < self.infos().len() implies self.infos()[i].id != self.infos()[j].id by {
                assert(self.infos()[i] == old(self).infos()[i]);
                assert(self.infos()[j] == old(self).infos()[j]);
            }
            lemma_languages_ok_stable(*old(self), *self);
            lemma_vocabulary_ok_stable(*old(self), *self);
            lemma_flashcards_ok_stable(*old(self), *self);
        }
        Ok(acc)
    }

    /// All vault accounts with their sensitive fields revealed, in
    /// insertion order; an unreadable field degrades to the sentinel.
    pub fn get_personal_accounts(&self) -> (r: Vec<PersonalAccount>)
        requires
            self.wf(),
        ensures
            r@.len() == self.accounts().len(),
            forall|k: int|
                0 <= k < r@.len() ==> account_revealed(
                    self.accounts()[k],
                    #[trigger] r@[k],
                    self.key_bytes(),
                ),
    {
        let n = self.accounts.len();
        let mut out: Vec<PersonalAccount> = Vec::new();
        let mut i: usize = 0;
        while i < n
            invariant
                i <= n,
                n == self.accounts@.len(),
                self.key_bytes().len() > 0,
                out@.len() == i,
                forall|k: int|
                    0 <= k < i ==> account_revealed(
                        self.accounts()[k],
                        #[trigger] out@[k],
                        self.key_bytes(),
                    ),
            decreases n - i,
        {
            let a = &self.accounts[i];
            let revealed_account = PersonalAccount {
                id: a.id,
                title: a.title.clone(),
                email: self.reveal_field(&a.email),
                password: self.reveal_field(&a.password),
                website: crate::records::clone_optional_string(&a.website),
                notes: crate::records::clone_optional_string(&a.notes),
                category: a.category.clone(),
                created_at: a.created_at,
                updated_at: a.updated_at,
            };
            out.push(revealed_account);
            i = i + 1;
        }
        out
    }

    /// The vault accounts of one category, revealed as in
    /// `get_personal_accounts`, in insertion order.
    pub fn get_personal_accounts_by_category(&self, category: &str) -> (r: Vec<PersonalAccount>)
        requires
            self.wf(),
        ensures
            r@.len() == self.accounts().filter(
                |a: PersonalAccount| a.category@ == category@,
            ).len(),
            forall|k: int|
                0 <= k < r@.len() ==> account_revealed(
                    self.accounts().filter(|a: PersonalAccount| a.category@ == category@)[k],
                    #[trigger] r@[k],
                    self.key_bytes(),
                ),
    {
        let n = self.accounts.len();
        let mut out: Vec<PersonalAccount> = Vec::new();
        let mut i: usize = 0;
        proof {
            assert(self.accounts@.take(0).filter(|a: PersonalAccount| a.category@ == category@)
                =~= Seq::<PersonalAccount>::empty()) by {
                reveal(Seq::filter);
            }
        }
        while i < n
            invariant
                i <= n,
                n == self.accounts@.len(),
                self.key_bytes().len() > 0,
                out@.len() == self.accounts@.take(i as int).filter(
                    |a: PersonalAccount| a.category@ == category@,
                ).len(),
                forall|k: int|
                    0 <= k < out@.len() ==> account_revealed(
                        self.accounts@.take(i as int).filter(
                            |a: PersonalAccount| a.category@ == category@,
                        )[k],
                        #[trigger] out@[k],
                        self.key_bytes(),
                    ),
            decreases n - i,
        {
            proof {
                reveal_filter_step(
                    self.accounts@,
                    i as int,
                    |a: PersonalAccount| a.category@ == category@,
                );
            }
            let a = &self.accounts[i];
            if str_eq(a.category.as_str(), category) {
                let revealed_account = PersonalAccount {
                    id: a.id,
                    title: a.title.clone(),
                    email: self.reveal_field(&a.email),
                    password: self.reveal_field(&a.password),
                    website: crate::records::clone_optional_string(&a.website),
                    notes: crate::records::clone_optional_string(&a.notes),
                    category: a.category.clone(),
                    created_at: a.created_at,
                    updated_at: a.updated_at,
                };
                out.push(revealed_account);
            }
            i = i + 1;
        }
        proof {
            assert(self.accounts@.take(n as int) =~= self.accounts@);
        }
        out
    }

    /// Create a vault entry. Content marked sensitive is obscured
    /// before it is stored; the caller receives the plaintext back.
    /// Fails with a validation error exactly when the request is out
    /// of shape, and with a database error only when the id space is
    /// spent; on failure the store is unchanged.
    pub fn create_personal_info(
        &mut self,
        req: CreatePersonalInfoRequest,
        now: i64,
    ) -> (r: Result<PersonalInfo, AppError>)
        requires
            old(self).wf(),
        ensures
            final(self).wf(),
            final(self).key_bytes() == old(self).key_bytes(),
            r is Err ==> *final(self) == *old(self),
            r is Ok <==> info_req_valid(req) && old(self).spec_next_id() < i64::MAX as int,
            r matches Err(e) ==> e is Validation || e is Database,
            r matches Err(e) && e is Database ==> info_req_valid(req),
            r matches Ok(info) ==> {
                &&& info.id == old(self).spec_next_id()
                &&& info.title@ == trim_spec(req.title@)
                &&& info.content == req.content
                &&& info.category@ == trim_spec(req.category@)
                &&& info.is_sensitive == req.is_sensitive
                &&& info.created_at == now
                &&& info.updated_at == now
                &&& final(self).infos().len() == old(self).infos().len() + 1
                &&& final(self).infos().take(old(self).infos().len() as int) == old(self).infos()
                &&& stored_info_ok(final(self).infos().last(), info, old(self).key_bytes())
                &&& final(self).languages() == old(self).languages()
                &&& final(self).vocabulary() == old(self).vocabulary()
                &&& final(self).flashcards() == old(self).flashcards()
                &&& final(self).accounts() == old(self).accounts()
                &&& final(self).spec_next_id() == old(self).spec_next_id() + 1
            },
    {
        validate_not_empty(req.title.as_str(), "Info title")?;
        validate_string_length(req.title.as_str(), "Info title", 1, 200)?;
        validate_not_empty(req.content.as_str(), "Content")?;
        if self.next_id == i64::MAX {
            return Err(AppError::Database(String::from_str("id space is spent")));
        }

        let title = sanitize_string(req.title);
        let category = sanitize_string(req.category);

        let stored_content = if req.is_sensitive {
            match self.service.encrypt(req.content.as_str()) {
                Ok(c) => c,
                Err(e) => {
                    return Err(e);
                },
            }
        } else {
            req.content.clone()
        };

        let info = PersonalInfo {
            id: self.next_id,
            title,
            content: req.content,
            category,
            is_sensitive: req.is_sensitive,
            created_at: now,
            updated_at: now,
        };
        let stored = PersonalInfo {
            id: info.id,
            title: info.title.clone(),
            content: stored_content,
            category: info.category.clone(),
            is_sensitive: req.is_sensitive,
            created_at: now,
            updated_at: now,
        };
        self.infos.push(stored);
        self.next_id = self.next_id + 1;
        proof {
            let fin = self.infos@;
            let pre = old(self).infos();
            assert(fin.take(pre.len() as int) =~= pre);
            assert forall|i: int| 0 <= i < fin.len() implies 1 <= (#[trigger] fin[i]).id
                < self.next_id as int by {
                if i < pre.len() {
                    assert(fin[i] == pre[i]);
                }
            }
            assert forall|i: int, j: int|
                #![trigger fin[i], fin[j]]
                0 <= i < j < fin.len() implies fin[i].id != fin[j].id by {
                assert(fin[i] == pre[i]);
                if j < pre.len() {
                    assert(fin[j] == pre[j]);
                }
            }
            assert forall|i: int| 0 <= i < self.accounts().len() implies 1 <= (
            #[trigger] self.accounts()[i]).id < self.next_id as int by {
                assert(self.accounts()[i] == old(self).accounts()[i]);
            }
            assert forall|i: int, j: int|
                #![trigger self.accounts()[i], self.accounts()[j]]
                0 <= i < j < self.accounts().len() implies self.accounts()[i].id
                != self.accounts()[j].id by {
                assert(self.accounts()[i] == old(self).accounts()[i]);
                assert(self.accounts()[j] == old(self).accounts()[j]);
            }
            lemma_languages_ok_stable(*old(self), *self);
            lemma_vocabulary_ok_stable(*old(self), *self);
            lemma_flashcards_ok_stable(*old(self), *self);
        }
        Ok(info)
    }

    /// All vault entries, sensitive content revealed, in insertion
    /// order; an unreadable field degrades to the sentinel.
    pub fn get_personal_info(&self) -> (r: Vec<PersonalInfo>)
        requires
            self.wf(),
        ensures
            r@.len() == self.infos().len(),
            forall|k: int|
                0 <= k < r@.len() ==> info_revealed(
                    self.infos()[k],
                    #[trigger] r@[k],
                    self.key_bytes(),
                ),
    {
        let n = self.infos.len();
        let mut out: Vec<PersonalInfo> = Vec::new();
        let mut i: usize = 0;
        while i < n
            invariant
                i <= n,
                n == self.infos@.len(),
                self.key_bytes().len() > 0,
                out@.len() == i,
                forall|k: int|
                    0 <= k < i ==> info_revealed(
                        self.infos()[k],
                        #[trigger] out@[k],
                        self.key_bytes(),
                    ),
            decreases n - i,
        {
            out.push(self.reveal_info(i));
            i = i + 1;
        }
        out
    }

    /// The vault entries of one category, revealed as in
    /// `get_personal_info`, in insertion order.
    pub fn get_personal_info_by_category(&self, category: &str) -> (r: Vec<PersonalInfo>)
        requires
            self.wf(),
        ensures
            r@.len() == self.infos().filter(|e: PersonalInfo| e.category@ == category@).len(),
            forall|k: int|
                0 <= k < r@.len() ==> info_revealed(
                    self.infos().filter(|e: PersonalInfo| e.category@ == category@)[k],
                    #[trigger] r@[k],
                    self.key_bytes(),
                ),
    {
        let n = self.infos.len();
        let mut out: Vec<PersonalInfo> = Vec::new();
        let mut i: usize = 0;
        proof {
            assert(self.infos@.take(0).filter(|e: PersonalInfo| e.category@ == category@) =~= Seq::<
                PersonalInfo,
            >::empty()) by {
                reveal(Seq::filter);
            }
        }
        while i < n
            invariant
                i <= n,
                n == self.infos@.len(),
                self.key_bytes().len() > 0,
                out@.len() == self.infos@.take(i as int).filter(
                    |e: PersonalInfo| e.category@ == category@,
                ).len(),
                forall|k: int|
                    0 <= k < out@.len() ==> info_revealed(
                        self.infos@.take(i as int).filter(
                            |e: PersonalInfo| e.category@ == category@,
                        )[k],
                        #[trigger] out@[k],
                        self.key_bytes(),
                    ),
            decreases n - i,
        {
            proof {
                reveal_filter_step(self.infos@, i as int, |e: PersonalInfo| e.category@ == category@);
            }
            if str_eq(self.infos[i].category.as_str(), category) {
                out.push(self.reveal_info(i));
            }
            i = i + 1;
        }
        proof {
            assert(self.infos@.take(n as int) =~= self.infos@);
        }
        out
    }

    /// Reveal one stored vault entry: the content is reversed exactly
    /// when the record is marked sensitive; the store never guesses.
    fn reveal_info(&self, i: usize) -> (r: PersonalInfo)
        requires
            self.key_bytes().len() > 0,
            i < self.infos().len(),
        ensures
            info_revealed(self.infos()[i as int], r, self.key_bytes()),
    {
        let e = &self.infos[i];
        let content = if e.is_sensitive {
            self.reveal_field(&e.content)
        } else {
            e.content.clone()
        };
        PersonalInfo {
            id: e.id,
            title: e.title.clone(),
            content,
            category: e.category.clone(),
            is_sensitive: e.is_sensitive,
            created_at: e.created_at,
            updated_at: e.updated_at,
        }
    }

    /// The vocabulary entries whose word, translation or example
    /// sentence holds the query as a substring (ASCII
    /// case-insensitively, as the persisted store's text matching
    /// treats ASCII letters), in insertion order, capped at `limit`.
    pub fn search_vocabulary(&self, query: &str, limit: usize) -> (r: Vec<Vocabulary>)
        ensures
            ({
                let sel = self.vocabulary().filter(|v: Vocabulary| vocab_matches(v, query@));
                r@ == if sel.len() <= limit {
                    sel
                } else {
                    sel.subrange(0, limit as int)
                }
            }),
    {
        let n = self.vocabulary.len();
        let mut out: Vec<Vocabulary> = Vec::new();
        let mut i: usize = 0;
        let ghost pred = |v: Vocabulary| vocab_matches(v, query@);
        proof {
            assert(self.vocabulary@.take(0).filter(pred) =~= Seq::<Vocabulary>::empty()) by {
                reveal(Seq::filter);
            }
        }
        while i < n
            invariant
                i <= n,
                n == self.vocabulary@.len(),
                pred == (|v: Vocabulary| vocab_matches(v, query@)),
                out@ == self.vocabulary@.take(i as int).filter(pred),
            decreases n - i,
        {
            proof {
                reveal_filter_step(self.vocabulary@, i as int, pred);
            }
            let v = &self.vocabulary[i];
            let hit = text_contains_ci(v.word.as_str(), query) || text_contains_ci(
                v.translation.as_str(),
                query,
            ) || (match &v.example_sentence {
                Some(e) => text_contains_ci(e.as_str(), query),
                None => false,
            });
            if hit {
                out.push(self.vocabulary[i].clone());
            }
            i = i + 1;
        }
        proof {
            assert(self.vocabulary@.take(n as int) =~= self.vocabulary@);
        }
        out.truncate(limit);
        out
    }

    /// Whether some vocabulary entry carries this id and belongs to a
    /// language other than the one named.
    fn vocab_survives_exec(&self, vocabulary_id: i64, language_id: i64) -> (r: bool)
        ensures
            r == vocab_survives(self.vocabulary(), vocabulary_id, language_id),
    {
        let n = self.vocabulary.len();
        let mut i: usize = 0;
        while i < n
            invariant
                i <= n,
                n == self.vocabulary@.len(),
                forall|j: int|
                    0 <= j < i ==> !((#[trigger] self.vocabulary@[j]).id == vocabulary_id
                        && self.vocabulary@[j].language_id != language_id),
            decreases n - i,
        {
            if self.vocabulary[i].id == vocabulary_id && self.vocabulary[i].language_id
                != language_id {
                assert((self.vocabulary()[i as int]).id == vocabulary_id);
                return true;
            }
            i = i + 1;
        }
        false
    }

    /// The languages left after one is deleted.
    fn surviving_languages(&self, language_id: i64) -> (r: Vec<Language>)
        ensures
            r@ == self.languages().filter(|l: Language| l.id != language_id),
    {
        let n = self.languages.len();
        let mut out: Vec<Language> = Vec::new();
        let mut i: usize = 0;
        proof {
            assert(self.languages@.take(0).filter(|l: Language| l.id != language_id) =~= Seq::<
                Language,
            >::empty()) by {
                reveal(Seq::filter);
            }
        }
        while i < n
            invariant
                i <= n,
                n == self.languages@.len(),
                out@ == self.languages@.take(i as int).filter(|l: Language| l.id != language_id),
            decreases n - i,
        {
            proof {
                reveal_filter_step(self.languages@, i as int, |l: Language| l.id != language_id);
            }
            if self.languages[i].id != language_id {
                out.push(self.languages[i].clone());
            }
            i = i + 1;
        }
        proof {
            assert(self.languages@.take(n as int) =~= self.languages@);
        }
        out
    }

    /// The vocabulary entries left after a language is deleted.
    fn surviving_vocabulary(&self, language_id: i64) -> (r: Vec<Vocabulary>)
        ensures
            r@ == self.vocabulary().filter(|v: Vocabulary| v.language_id != language_id),
    {
        let n = self.vocabulary.len();
        let mut out: Vec<Vocabulary> = Vec::new();
        let mut i: usize = 0;
        proof {
            assert(self.vocabulary@.take(0).filter(|v: Vocabulary| v.language_id != language_id)
                =~= Seq::<Vocabulary>::empty()) by {
                reveal(Seq::filter);
            }
        }
        while i < n
            invariant
                i <= n,
                n == self.vocabulary@.len(),
                out@ == self.vocabulary@.take(i as int).filter(
                    |v: Vocabulary| v.language_id != language_id,
                ),
            decreases n - i,
        {
            proof {
                reveal_filter_step(
                    self.vocabulary@,
                    i as int,
                    |v: Vocabulary| v.language_id != language_id,
                );
            }
            if self.vocabulary[i].language_id != language_id {
                out.push(self.vocabulary[i].clone());
            }
            i = i + 1;
        }
        proof {
            assert(self.vocabulary@.take(n as int) =~= self.vocabulary@);
        }
        out
    }

    /// The flashcards left after a language is deleted: those whose
    /// owning vocabulary entry survives.
    fn surviving_flashcards(&self, language_id: i64) -> (r: Vec<Flashcard>)
        ensures
            r@ == self.flashcards().filter(
                |f: Flashcard| vocab_survives(self.vocabulary(), f.vocabulary_id, language_id),
            ),
    {
        let n = self.flashcards.len();
        let mut out: Vec<Flashcard> = Vec::new();
        let mut i: usize = 0;
        let ghost pred = |f: Flashcard| vocab_survives(self.vocabulary(), f.vocabulary_id, language_id);
        proof {
            assert(self.flashcards@.take(0).filter(pred) =~= Seq::<Flashcard>::empty()) by {
                reveal(Seq::filter);
            }
        }
        while i < n
            invariant
                i <= n,
                n == self.flashcards@.len(),
                pred == (|f: Flashcard| vocab_survives(
                    self.vocabulary(),
                    f.vocabulary_id,
                    language_id,
                )),
                out@ == self.flashcards@.take(i as int).filter(pred),
            decreases n - i,
        {
            proof {
                reveal_filter_step(self.flashcards@, i as int, pred);
            }
            if self.vocab_survives_exec(self.flashcards[i].vocabulary_id, language_id) {
                out.push(self.flashcards[i]);
            }
            i = i + 1;
        }
        proof {
            assert(self.flashcards@.take(n as int) =~= self.flashcards@);
        }
        out
    }

    /// Delete a language and, in the same operation, its vocabulary
    /// entries and their flashcards (the ownership cascade). Deleting
    /// an unknown id removes nothing; the vault and the other tables
    /// are untouched.
    pub fn delete_language(&mut self, language_id: i64) -> (r: Result<(), AppError>)
        requires
            old(self).wf(),
        ensures
            final(self).wf(),
            final(self).key_bytes() == old(self).key_bytes(),
            r is Ok,
            final(self).languages() == old(self).languages().filter(
                |l: Language| l.id != language_id,
            ),
            final(self).vocabulary() == old(self).vocabulary().filter(
                |v: Vocabulary| v.language_id != language_id,
            ),
            final(self).flashcards() == old(self).flashcards().filter(
                |f: Flashcard| vocab_survives(
                    old(self).vocabulary(),
                    f.vocabulary_id,
                    language_id,
                ),
            ),
            final(self).accounts() == old(self).accounts(),
            final(self).infos() == old(self).infos(),
            final(self).spec_next_id() == old(self).spec_next_id(),
    {
        let langs = self.surviving_languages(language_id);
        let vocab = self.surviving_vocabulary(language_id);
        let cards = self.surviving_flashcards(language_id);
        self.languages = langs;
        self.vocabulary = vocab;
        self.flashcards = cards;
        proof {
            let lpred = |l: Language| l.id != language_id;
            let vpred = |v: Vocabulary| v.language_id != language_id;
            let fpred = |f: Flashcard| vocab_survives(
                old(self).vocabulary(),
                f.vocabulary_id,
                language_id,
            );
            let lpre = old(self).languages();
            let vpre = old(self).vocabulary();
            let fpre = old(self).flashcards();
            let lfin = self.languages@;
            let vfin = self.vocabulary@;
            let ffin = self.flashcards@;
            lemma_filter_elems(lpre, lpred);
            lemma_filter_elems(vpre, vpred);
            lemma_filter_elems(fpre, fpred);
            let lid_proj = |l: Language| l.id;
            let lname_proj = |l: Language| l.name@;
            let lcode_proj = |l: Language| l.code@;
            let vid_proj = |v: Vocabulary| v.id;
            let fid_proj = |f: Flashcard| f.id;
            let fvid_proj = |f: Flashcard| f.vocabulary_id;
            lemma_filter_distinct(lpre, lpred, lid_proj);
            lemma_filter_distinct(lpre, lpred, lname_proj);
            lemma_filter_distinct(lpre, lpred, lcode_proj);
            lemma_filter_distinct(vpre, vpred, vid_proj);
            lemma_filter_distinct(fpre, fpred, fid_proj);
            lemma_filter_distinct(fpre, fpred, fvid_proj);

            assert forall|i: int| 0 <= i < lfin.len() implies 1 <= (#[trigger] lfin[i]).id
                < self.next_id as int by {
                assert(lpre.contains(lfin[i]));
                let k = choose|k: int| 0 <= k < lpre.len() && lpre[k] == lfin[i];
                assert(1 <= lpre[k].id < self.next_id as int);
            }
            assert forall|i: int, j: int|
                #![trigger lfin[i], lfin[j]]
                0 <= i < j < lfin.len() implies lfin[i].id != lfin[j].id && lfin[i].name@
                != lfin[j].name@ && lfin[i].code@ != lfin[j].code@ by {
                assert(lid_proj(lpre.filter(lpred)[i]) != lid_proj(lpre.filter(lpred)[j]));
                assert(lname_proj(lpre.filter(lpred)[i]) != lname_proj(lpre.filter(lpred)[j]));
                assert(lcode_proj(lpre.filter(lpred)[i]) != lcode_proj(lpre.filter(lpred)[j]));
            }

            assert forall|i: int| 0 <= i < vfin.len() implies 1 <= (#[trigger] vfin[i]).id
                < self.next_id as int by {
                assert(vpre.contains(vfin[i]));
                let k = choose|k: int| 0 <= k < vpre.len() && vpre[k] == vfin[i];
                assert(1 <= vpre[k].id < self.next_id as int);
            }
            assert forall|i: int, j: int|
                #![trigger vfin[i], vfin[j]]
                0 <= i < j < vfin.len() implies vfin[i].id != vfin[j].id by {
                assert(vid_proj(vpre.filter(vpred)[i]) != vid_proj(vpre.filter(vpred)[j]));
            }
            assert forall|i: int|
                0 <= i < vfin.len() implies self.has_language(
                (#[trigger] vfin[i]).language_id,
            ) by {
                assert(vpre.contains(vfin[i]));
                let k = choose|k: int| 0 <= k < vpre.len() && vpre[k] == vfin[i];
                assert(old(self).has_language(vpre[k].language_id));
                let l = choose|l: int|
                    0 <= l < lpre.len() && (#[trigger] lpre[l]).id == vpre[k].language_id;
                // the owner's id differs from the deleted id, so it survives
                assert(vfin[i] == vpre.filter(vpred)[i]);
                assert(vpred(vfin[i]));
                assert(vpre[k].language_id != language_id);
                assert(lpred(lpre[l]));
                lpre.lemma_filter_contains(lpred, l);
                assert(lfin.contains(lpre[l]));
                let l2 = choose|l2: int| 0 <= l2 < lfin.len() && lfin[l2] == lpre[l];
                let vl = vfin[i].language_id;
                assert(0 <= l2 < self.languages().len() && (self.languages()[l2]).id == vl);
            }

            assert forall|i: int| 0 <= i < ffin.len() implies 1 <= (#[trigger] ffin[i]).id
                < self.next_id as int && (#[trigger] ffin[i]).wf() by {
                assert(fpre.contains(ffin[i]));
                let k = choose|k: int| 0 <= k < fpre.len() && fpre[k] == ffin[i];
                assert(1 <= fpre[k].id < self.next_id as int && fpre[k].wf());
            }
            assert forall|i: int, j: int|
                #![trigger ffin[i], ffin[j]]
                0 <= i < j < ffin.len() implies ffin[i].id != ffin[j].id && ffin[i].vocabulary_id
                != ffin[j].vocabulary_id by {
                assert(fid_proj(fpre.filter(fpred)[i]) != fid_proj(fpre.filter(fpred)[j]));
                assert(fvid_proj(fpre.filter(fpred)[i]) != fvid_proj(fpre.filter(fpred)[j]));
            }
            assert forall|i: int|
                0 <= i < ffin.len() implies self.has_vocabulary(
                (#[trigger] ffin[i]).vocabulary_id,
            ) by {
                assert(ffin[i] == fpre.filter(fpred)[i]);
                assert(fpred(ffin[i]));
                let k = choose|k: int|
                    0 <= k < vpre.len() && (#[trigger] vpre[k]).id == ffin[i].vocabulary_id
                        && vpre[k].language_id != language_id;
                assert(vpred(vpre[k]));
                vpre.lemma_filter_contains(vpred, k);
                assert(vfin.contains(vpre[k]));
                let k2 = choose|k2: int| 0 <= k2 < vfin.len() && vfin[k2] == vpre[k];
                let fv = ffin[i].vocabulary_id;
                assert(0 <= k2 < self.vocabulary().len() && (self.vocabulary()[k2]).id == fv);
            }
            assert forall|i: int|
                0 <= i < vfin.len() implies exists|j: int|
                    0 <= j < ffin.len() && (#[trigger] ffin[j]).vocabulary_id
                        == (#[trigger] vfin[i]).id by {
                assert(vpre.contains(vfin[i]));
                let k = choose|k: int| 0 <= k < vpre.len() && vpre[k] == vfin[i];
                let j = choose|j: int|
                    0 <= j < fpre.len() && (#[trigger] fpre[j]).vocabulary_id == vpre[k].id;
                assert(vocab_survives(vpre, fpre[j].vocabulary_id, language_id)) by {
                    assert((vpre[k]).id == fpre[j].vocabulary_id && vpre[k].language_id
                        != language_id);
                }
                assert(fpred(fpre[j]));
                fpre.lemma_filter_contains(fpred, j);
                assert(ffin.contains(fpre[j]));
                let j2 = choose|j2: int| 0 <= j2 < ffin.len() && ffin[j2] == fpre[j];
                assert(0 <= j2 < self.flashcards().len() && (self.flashcards()[j2]).vocabulary_id
                    == vfin[i].id);
            }
            lemma_vault_ok_stable(*old(self), *self);
        }
        Ok(())
    }

    /// The position of the card with the given id, if any.
    fn find_flashcard(&self, id: i64) -> (r: Option<usize>)
        ensures
            r matches Some(i) ==> 0 <= i < self.flashcards().len() && self.flashcards()[i as int].id
                == id,
            r is Some <==> self.has_flashcard(id),
    {
        let n = self.flashcards.len();
        let mut i: usize = 0;
        while i < n
            invariant
                i <= n,
                n == self.flashcards@.len(),
                forall|j: int| 0 <= j < i ==> (#[trigger] self.flashcards@[j]).id != id,
            decreases n - i,
        {
            if self.flashcards[i].id == id {
                assert(self.flashcards()[i as int].id == id);
                return Some(i);
            }
            i = i + 1;
        }
        None
    }
}

/// The language table's invariant depends only on that table and the
/// counter.
proof fn lemma_languages_ok_stable(a: RecordStore, b: RecordStore)
    requires
        a.languages_ok(),
        b.languages() == a.languages(),
        b.spec_next_id() >= a.spec_next_id(),
    ensures
        b.languages_ok(),
{
    assert forall|i: int| 0 <= i < b.languages().len() implies 1 <= (#[trigger] b.languages()[i]).id
        < b.spec_next_id() by {
        assert(b.languages()[i] == a.languages()[i]);
    }
    assert forall|i: int, j: int|
        #![trigger b.languages()[i], b.languages()[j]]
        0 <= i < j < b.languages().len() implies b.languages()[i].id != b.languages()[j].id
        && b.languages()[i].name@ != b.languages()[j].name@ && b.languages()[i].code@
        != b.languages()[j].code@ by {
        assert(b.languages()[i] == a.languages()[i]);
        assert(b.languages()[j] == a.languages()[j]);
    }
}

/// The vocabulary table's invariant survives any change that keeps
/// the vocabulary, keeps every stored language at its place, and does
/// not lower the counter.
proof fn lemma_vocabulary_ok_stable(a: RecordStore, b: RecordStore)
    requires
        a.vocabulary_ok(),
        b.vocabulary() == a.vocabulary(),
        b.spec_next_id() >= a.spec_next_id(),
        a.languages().len() <= b.languages().len(),
        forall|k: int|
            0 <= k < a.languages().len() ==> #[trigger] b.languages()[k] == a.languages()[k],
    ensures
        b.vocabulary_ok(),
{
    assert forall|i: int| 0 <= i < b.vocabulary().len() implies 1 <= (#[trigger] b.vocabulary()[i]).id
        < b.spec_next_id() by {
        assert(b.vocabulary()[i] == a.vocabulary()[i]);
    }
    assert forall|i: int, j: int|
        #![trigger b.vocabulary()[i], b.vocabulary()[j]]
        0 <= i < j < b.vocabulary().len() implies b.vocabulary()[i].id != b.vocabulary()[j].id by {
        assert(b.vocabulary()[i] == a.vocabulary()[i]);
        assert(b.vocabulary()[j] == a.vocabulary()[j]);
    }
    assert forall|i: int|
        0 <= i < b.vocabulary().len() implies b.has_language(
        (#[trigger] b.vocabulary()[i]).language_id,
    ) by {
        assert(b.vocabulary()[i] == a.vocabulary()[i]);
        let lid = a.vocabulary()[i].language_id;
        assert(a.has_language(lid));
        let k = choose|k: int| 0 <= k < a.languages().len() && (#[trigger] a.languages()[k]).id == lid;
        assert(b.languages()[k].id == lid);
    }
}

/// The flashcard table's invariant survives any change that keeps the
/// flashcards, keeps every stored vocabulary entry at its place
/// without adding one, and does not lower the counter.
proof fn lemma_flashcards_ok_stable(a: RecordStore, b: RecordStore)
    requires
        a.flashcards_ok(),
        b.flashcards() == a.flashcards(),
        b.vocabulary() == a.vocabulary(),
        b.spec_next_id() >= a.spec_next_id(),
    ensures
        b.flashcards_ok(),
{
    assert forall|i: int| 0 <= i < b.flashcards().len() implies 1 <= (#[trigger] b.flashcards()[i]).id
        < b.spec_next_id() && (#[trigger] b.flashcards()[i]).wf() by {
        assert(b.flashcards()[i] == a.flashcards()[i]);
    }
    assert forall|i: int, j: int|
        #![trigger b.flashcards()[i], b.flashcards()[j]]
        0 <= i < j < b.flashcards().len() implies b.flashcards()[i].id != b.flashcards()[j].id
        && b.flashcards()[i].vocabulary_id != b.flashcards()[j].vocabulary_id by {
        assert(b.flashcards()[i] == a.flashcards()[i]);
        assert(b.flashcards()[j] == a.flashcards()[j]);
    }
    assert forall|i: int|
        0 <= i < b.flashcards().len() implies b.has_vocabulary(
        (#[trigger] b.flashcards()[i]).vocabulary_id,
    ) by {
        assert(b.flashcards()[i] == a.flashcards()[i]);
        let vid = a.flashcards()[i].vocabulary_id;
        assert(a.has_vocabulary(vid));
        let k = choose|k: int|
            0 <= k < a.vocabulary().len() && (#[trigger] a.vocabulary()[k]).id == vid;
        assert(b.vocabulary()[k].id == vid);
    }
    assert forall|i: int|
        0 <= i < b.vocabulary().len() implies exists|j: int|
            0 <= j < b.flashcards().len() && (#[trigger] b.flashcards()[j]).vocabulary_id
                == (#[trigger] b.vocabulary()[i]).id by {
        assert(b.vocabulary()[i] == a.vocabulary()[i]);
        let j = choose|j: int|
            0 <= j < a.flashcards().len() && (#[trigger] a.flashcards()[j]).vocabulary_id
                == a.vocabulary()[i].id;
        assert(b.flashcards()[j].vocabulary_id == b.vocabulary()[i].id);
    }
}

/// The vault tables' invariant depends only on those tables and the
/// counter.
proof fn lemma_vault_ok_stable(a: RecordStore, b: RecordStore)
    requires
        a.vault_ok(),
        b.accounts() == a.accounts(),
        b.infos() == a.infos(),
        b.spec_next_id() >= a.spec_next_id(),
    ensures
        b.vault_ok(),
{
    assert forall|i: int| 0 <= i < b.accounts().len() implies 1 <= (#[trigger] b.accounts()[i]).id
        < b.spec_next_id() by {
        assert(b.accounts()[i] == a.accounts()[i]);
    }
    assert forall|i: int, j: int|
        #![trigger b.accounts()[i], b.accounts()[j]]
        0 <= i < j < b.accounts().len() implies b.accounts()[i].id != b.accounts()[j].id by {
        assert(b.accounts()[i] == a.accounts()[i]);
        assert(b.accounts()[j] == a.accounts()[j]);
    }
    assert forall|i: int| 0 <= i < b.infos().len() implies 1 <= (#[trigger] b.infos()[i]).id
        < b.spec_next_id() by {
        assert(b.infos()[i] == a.infos()[i]);
    }
    assert forall|i: int, j: int|
        #![trigger b.infos()[i], b.infos()[j]]
        0 <= i < j < b.infos().len() implies b.infos()[i].id != b.infos()[j].id by {
        assert(b.infos()[i] == a.infos()[i]);
        assert(b.infos()[j] == a.infos()[j]);
    }
}

/// A card is due when its next review is at or before `now`.
pub open spec fn is_due(f: Flashcard, now: i64) -> bool {
    f.next_review <= now
}

/// The due cards of a table, in table order.
pub open spec fn due_seq(s: Seq<Flashcard>, now: i64) -> Seq<Flashcard> {
    s.filter(|f: Flashcard| is_due(f, now))
}

/// The cards of a joined result, in result order.
pub open spec fn out_cards(r: Seq<(Flashcard, Vocabulary)>) -> Seq<Flashcard> {
    r.map_values(|p: (Flashcard, Vocabulary)| p.0)
}

/// No pair of the result carries this card id.
pub open spec fn excludes_id(r: Seq<(Flashcard, Vocabulary)>, id: i64) -> bool {
    forall|k: int| 0 <= k < r.len() ==> (#[trigger] r[k]).0.id != id
}

/// An account request is acceptable exactly under these conditions.
pub open spec fn account_req_valid(req: CreatePersonalAccountRequest) -> bool {
    &&& !all_spaces(req.title@)
    &&& 1 <= byte_len(req.title@) <= 200
    &&& has_char(req.email@, '@')
    &&& has_char(req.email@, '.')
    &&& !all_spaces(req.password@)
}

/// An info request is acceptable exactly under these conditions.
pub open spec fn info_req_valid(req: CreatePersonalInfoRequest) -> bool {
    &&& !all_spaces(req.title@)
    &&& 1 <= byte_len(req.title@) <= 200
    &&& !all_spaces(req.content@)
}

/// How a stored account row relates to the plaintext account handed
/// back: equal metadata, with the email and password held obscured.
pub open spec fn stored_account_ok(
    st: PersonalAccount,
    acc: PersonalAccount,
    req: CreatePersonalAccountRequest,
    key: Seq<u8>,
) -> bool {
    &&& st.id == acc.id
    &&& st.title == acc.title
    &&& obscured(acc.email@, st.email@, key)
    &&& obscured(req.password@, st.password@, key)
    &&& st.website == acc.website
    &&& st.notes == acc.notes
    &&& st.category == acc.category
    &&& st.created_at == acc.created_at
    &&& st.updated_at == acc.updated_at
}

/// How a stored info row relates to the plaintext entry handed back:
/// equal metadata, with the content held obscured exactly when the
/// record is sensitive.
pub open spec fn stored_info_ok(st: PersonalInfo, info: PersonalInfo, key: Seq<u8>) -> bool {
    &&& st.id == info.id
    &&& st.title == info.title
    &&& (if info.is_sensitive {
        obscured(info.content@, st.content@, key)
    } else {
        st.content == info.content
    })
    &&& st.category == info.category
    &&& st.is_sensitive == info.is_sensitive
    &&& st.created_at == info.created_at
    &&& st.updated_at == info.updated_at
}

/// How a revealed account relates to its stored row: equal metadata,
/// with each sensitive field revealed or the sentinel.
pub open spec fn account_revealed(st: PersonalAccount, out: PersonalAccount, key: Seq<u8>) -> bool {
    &&& out.id == st.id
    &&& out.title == st.title
    &&& out.email@ == RecordStore::reveal_or_sentinel(st.email@, key)
    &&& out.password@ == RecordStore::reveal_or_sentinel(st.password@, key)
    &&& out.website == st.website
    &&& out.notes == st.notes
    &&& out.category == st.category
    &&& out.created_at == st.created_at
    &&& out.updated_at == st.updated_at
}

/// How a revealed vault entry relates to its stored row: the content
/// is revealed (or the sentinel) exactly when the record is
/// sensitive, and passed through unchanged otherwise.
pub open spec fn info_revealed(st: PersonalInfo, out: PersonalInfo, key: Seq<u8>) -> bool {
    &&& out.id == st.id
    &&& out.title == st.title
    &&& out.content@ == (if st.is_sensitive {
        RecordStore::reveal_or_sentinel(st.content@, key)
    } else {
        st.content@
    })
    &&& out.category == st.category
    &&& out.is_sensitive == st.is_sensitive
    &&& out.created_at == st.created_at
    &&& out.updated_at == st.updated_at
}

/// One vocabulary entry and its one flashcard were created at `now`:
/// the entry's text fields are the trimmed request fields, the card
/// starts at the default ease with a one-day interval and no recalls,
/// both records were appended together, and nothing else moved.
pub open spec fn vocabulary_created(
    pre: RecordStore,
    post: RecordStore,
    req: CreateVocabularyRequest,
    v: Vocabulary,
    now: i64,
) -> bool {
    &&& v.id == pre.spec_next_id()
    &&& v.language_id == req.language_id
    &&& v.word@ == trim_spec(req.word@)
    &&& v.translation@ == trim_spec(req.translation@)
    &&& opt_trim_of(req.pronunciation, v.pronunciation)
    &&& opt_trim_of(req.example_sentence, v.example_sentence)
    &&& v.difficulty_level == req.difficulty_level
    &&& v.created_at == now
    &&& post.vocabulary() == pre.vocabulary().push(v)
    &&& post.flashcards() == pre.flashcards().push(
        initial_flashcard((pre.spec_next_id() + 1) as i64, v.id, now),
    )
    &&& post.languages() == pre.languages()
    &&& post.accounts() == pre.accounts()
    &&& post.infos() == pre.infos()
    &&& post.spec_next_id() == pre.spec_next_id() + 2
}

/// The one card with the given id was rescheduled by the scheduler
/// for a review at `now`; every other record is untouched, so no
/// concurrent state can be lost through this operation.
pub open spec fn review_applied(
    pre: RecordStore,
    post: RecordStore,
    flashcard_id: i64,
    quality: i64,
    now: i64,
) -> bool {
    &&& exists|j: int|
        {
            &&& 0 <= j < pre.flashcards().len()
            &&& (#[trigger] pre.flashcards()[j]).id == flashcard_id
            &&& post.flashcards() == pre.flashcards().update(
                j,
                reviewed_card(pre.flashcards()[j], quality as int, now as int),
            )
        }
    &&& post.languages() == pre.languages()
    &&& post.vocabulary() == pre.vocabulary()
    &&& post.accounts() == pre.accounts()
    &&& post.infos() == pre.infos()
    &&& post.spec_next_id() == pre.spec_next_id()
}

/// What the due-card query returns for instant `now` and cap
/// `limit`: joined pairs of due cards with their owning entries,
/// ascending by next review, without repetition, holding the `limit`
/// earliest-due cards (all of them when fewer are due).
pub open spec fn due_result_ok(
    s: RecordStore,
    r: Seq<(Flashcard, Vocabulary)>,
    now: i64,
    limit: int,
) -> bool {
    &&& r.len() == vstd::math::min(limit, due_seq(s.flashcards(), now).len() as int)
    &&& (forall|k: int|
        0 <= k < r.len() ==> s.flashcards().contains((#[trigger] r[k]).0) && is_due(r[k].0, now)
            && s.vocabulary().contains(r[k].1) && r[k].1.id == r[k].0.vocabulary_id)
    &&& (forall|k1: int, k2: int|
        #![trigger r[k1], r[k2]]
        0 <= k1 < k2 < r.len() ==> r[k1].0.next_review <= r[k2].0.next_review && r[k1].0.id
            != r[k2].0.id)
    &&& (forall|j: int, k: int|
        #![trigger s.flashcards()[j], r[k]]
        0 <= j < s.flashcards().len() && is_due(s.flashcards()[j], now) && excludes_id(
            r,
            s.flashcards()[j].id,
        ) && 0 <= k < r.len() ==> r[k].0.next_review <= s.flashcards()[j].next_review)
}

/// Every vocabulary entry of a well-formed store owns exactly one
/// flashcard: one card references it, and no two distinct cards do.
pub proof fn lemma_entry_owns_one_card(s: RecordStore, i: int)
    requires
        s.wf(),
        0 <= i < s.vocabulary().len(),
    ensures
        exists|j: int|
            0 <= j < s.flashcards().len() && (#[trigger] s.flashcards()[j]).vocabulary_id
                == s.vocabulary()[i].id,
        forall|j1: int, j2: int|
            #![trigger s.flashcards()[j1], s.flashcards()[j2]]
            0 <= j1 < s.flashcards().len() && 0 <= j2 < s.flashcards().len()
                && s.flashcards()[j1].vocabulary_id == s.vocabulary()[i].id
                && s.flashcards()[j2].vocabulary_id == s.vocabulary()[i].id ==> j1 == j2,
{
}

/// An ASCII upper-case letter folded to lower case; every other code
/// point is left alone.
pub open spec fn lower_code(u: u32) -> u32 {
    if 65 <= u && u <= 90 {
        (u + 32) as u32
    } else {
        u
    }
}

/// Two characters match when they fold to the same code point.
pub open spec fn chars_match_ci(a: char, b: char) -> bool {
    lower_code(a as u32) == lower_code(b as u32)
}

/// The needle matches the haystack at position `i`.
pub open spec fn matches_at(hay: Seq<char>, needle: Seq<char>, i: int) -> bool {
    forall|j: int| 0 <= j < needle.len() ==> chars_match_ci(hay[i + j], #[trigger] needle[j])
}

/// The haystack holds the needle as a substring, matching ASCII
/// letters case-insensitively.
pub open spec fn contains_ci(hay: Seq<char>, needle: Seq<char>) -> bool {
    exists|i: int| 0 <= i <= hay.len() - needle.len() && #[trigger] matches_at(hay, needle, i)
}

/// A vocabulary entry matches a query when its word, translation or
/// example sentence holds the query as a substring.
pub open spec fn vocab_matches(v: Vocabulary, query: Seq<char>) -> bool {
    ||| contains_ci(v.word@, query)
    ||| contains_ci(v.translation@, query)
    ||| (v.example_sentence matches Some(e) && contains_ci(e@, query))
}

/// Executable case-insensitive character match.
fn chars_eq_ci(a: char, b: char) -> (r: bool)
    ensures
        r == chars_match_ci(a, b),
{
    let ua = a as u32;
    let ub = b as u32;
    let fa = if 65 <= ua && ua <= 90 {
        ua + 32
    } else {
        ua
    };
    let fb = if 65 <= ub && ub <= 90 {
        ub + 32
    } else {
        ub
    };
    fa == fb
}

/// Executable case-insensitive substring search.
fn text_contains_ci(hay: &str, needle: &str) -> (r: bool)
    ensures
        r == contains_ci(hay@, needle@),
{
    let hn = hay.unicode_len();
    let nn = needle.unicode_len();
    if nn > hn {
        return false;
    }
    let mut i: usize = 0;
    while i <= hn - nn
        invariant
            nn <= hn,
            hn == hay@.len(),
            nn == needle@.len(),
            i <= hn - nn + 1,
            forall|ii: int| 0 <= ii < i ==> !matches_at(hay@, needle@, ii),
        decreases hn - nn + 1 - i,
    {
        let mut j: usize = 0;
        let mut ok = true;
        while j < nn && ok
            invariant
                i + nn <= hn,
                hn == hay@.len(),
                nn == needle@.len(),
                j <= nn,
                ok ==> forall|jj: int|
                    0 <= jj < j ==> chars_match_ci(hay@[i + jj], #[trigger] needle@[jj]),
                !ok ==> !matches_at(hay@, needle@, i as int),
            decreases nn - j,
        {
            if !chars_eq_ci(hay.get_char(i + j), needle.get_char(j)) {
                assert(!chars_match_ci(hay@[i + j], needle@[j as int]));
                ok = false;
            }
            j = j + 1;
        }
        if ok {
            assert(matches_at(hay@, needle@, i as int));
            return true;
        }
        i = i + 1;
    }
    false
}

/// Some vocabulary entry carries this id and belongs to a language
/// other than the one being deleted.
pub open spec fn vocab_survives(vocab: Seq<Vocabulary>, vocabulary_id: i64, language_id: i64) -> bool {
    exists|k: int|
        0 <= k < vocab.len() && (#[trigger] vocab[k]).id == vocabulary_id && vocab[k].language_id
            != language_id
}

/// Every element of a filtered sequence occurs in the original and
/// passes the test.
proof fn lemma_filter_elems<A>(s: Seq<A>, pred: spec_fn(A) -> bool)
    ensures
        forall|j: int|
            0 <= j < s.filter(pred).len() ==> s.contains(#[trigger] s.filter(pred)[j]) && pred(
                s.filter(pred)[j],
            ),
    decreases s.len(),
{
    reveal(Seq::filter);
    if s.len() > 0 {
        let t = s.drop_last();
        lemma_filter_elems(t, pred);
        assert forall|j: int|
            0 <= j < s.filter(pred).len() implies s.contains(#[trigger] s.filter(pred)[j]) && pred(
            s.filter(pred)[j],
        ) by {
            if j < t.filter(pred).len() {
                assert(s.filter(pred)[j] == t.filter(pred)[j]);
                let k = choose|k: int| 0 <= k < t.len() && t[k] == t.filter(pred)[j];
                assert(s[k] == s.filter(pred)[j]);
            } else {
                assert(s.filter(pred)[j] == s.last());
                assert(s[s.len() - 1] == s.filter(pred)[j]);
            }
        }
    }
}

/// Filtering keeps a pairwise-distinct projection pairwise distinct.
proof fn lemma_filter_distinct<A, B>(s: Seq<A>, pred: spec_fn(A) -> bool, proj: spec_fn(A) -> B)
    requires
        forall|i: int, j: int|
            #![trigger proj(s[i]), proj(s[j])]
            0 <= i < j < s.len() ==> proj(s[i]) != proj(s[j]),
    ensures
        forall|i: int, j: int|
            #![trigger proj(s.filter(pred)[i]), proj(s.filter(pred)[j])]
            0 <= i < j < s.filter(pred).len() ==> proj(s.filter(pred)[i]) != proj(
                s.filter(pred)[j],
            ),
    decreases s.len(),
{
    reveal(Seq::filter);
    if s.len() > 0 {
        let t = s.drop_last();
        assert forall|i: int, j: int|
            #![trigger proj(t[i]), proj(t[j])]
            0 <= i < j < t.len() implies proj(t[i]) != proj(t[j]) by {
            assert(t[i] == s[i] && t[j] == s[j]);
        }
        lemma_filter_distinct(t, pred, proj);
        lemma_filter_elems(t, pred);
        assert forall|i: int, j: int|
            #![trigger proj(s.filter(pred)[i]), proj(s.filter(pred)[j])]
            0 <= i < j < s.filter(pred).len() implies proj(s.filter(pred)[i]) != proj(
            s.filter(pred)[j],
        ) by {
            if j < t.filter(pred).len() {
                assert(s.filter(pred)[i] == t.filter(pred)[i]);
                assert(s.filter(pred)[j] == t.filter(pred)[j]);
                assert(proj(t.filter(pred)[i]) != proj(t.filter(pred)[j]));
            } else {
                assert(s.filter(pred)[i] == t.filter(pred)[i]);
                assert(s.filter(pred)[j] == s.last());
                let k = choose|k: int| 0 <= k < t.len() && t[k] == t.filter(pred)[i];
                assert(s[k] == s.filter(pred)[i]);
                assert(proj(s[k]) != proj(s[s.len() - 1]));
            }
        }
    }
}

/// The result length the due-card query owes: all due cards, capped
/// at the limit.
pub open spec fn r_len_ok(
    out: Seq<(Flashcard, Vocabulary)>,
    pool: Seq<Flashcard>,
    dues: Seq<Flashcard>,
    limit: int,
) -> bool {
    out.len() == vstd::math::min(limit, dues.len() as int) || (out.len() <= limit && out.len()
        + pool.len() == dues.len() && (out.len() == limit || pool.len() == 0))
}

/// Every due card is a stored card and is due.
proof fn lemma_due_seq_props(s: Seq<Flashcard>, now: i64)
    ensures
        forall|j: int|
            0 <= j < due_seq(s, now).len() ==> s.contains(#[trigger] due_seq(s, now)[j]) && is_due(
                due_seq(s, now)[j],
                now,
            ),
    decreases s.len(),
{
    reveal(Seq::filter);
    if s.len() > 0 {
        let t = s.drop_last();
        lemma_due_seq_props(t, now);
        assert forall|j: int|
            0 <= j < due_seq(s, now).len() implies s.contains(#[trigger] due_seq(s, now)[j])
            && is_due(due_seq(s, now)[j], now) by {
            if j < due_seq(t, now).len() {
                assert(due_seq(s, now)[j] == due_seq(t, now)[j]);
                let k = choose|k: int| 0 <= k < t.len() && t[k] == due_seq(t, now)[j];
                assert(s[k] == due_seq(s, now)[j]);
            } else {
                assert(due_seq(s, now)[j] == s.last());
                assert(s[s.len() - 1] == due_seq(s, now)[j]);
            }
        }
    }
}

/// Filtering a table with pairwise-distinct card ids keeps the ids
/// pairwise distinct.
proof fn lemma_due_seq_distinct(s: Seq<Flashcard>, now: i64)
    requires
        forall|i: int, j: int|
            #![trigger s[i], s[j]]
            0 <= i < j < s.len() ==> s[i].id != s[j].id,
    ensures
        forall|i: int, j: int|
            #![trigger due_seq(s, now)[i], due_seq(s, now)[j]]
            0 <= i < j < due_seq(s, now).len() ==> due_seq(s, now)[i].id != due_seq(s, now)[j].id,
    decreases s.len(),
{
    reveal(Seq::filter);
    if s.len() > 0 {
        let t = s.drop_last();
        assert forall|i: int, j: int|
            #![trigger t[i], t[j]]
            0 <= i < j < t.len() implies t[i].id != t[j].id by {
            assert(t[i] == s[i] && t[j] == s[j]);
        }
        lemma_due_seq_distinct(t, now);
        lemma_due_seq_props(t, now);
        assert forall|i: int, j: int|
            #![trigger due_seq(s, now)[i], due_seq(s, now)[j]]
            0 <= i < j < due_seq(s, now).len() implies due_seq(s, now)[i].id != due_seq(
            s,
            now,
        )[j].id by {
            if j < due_seq(t, now).len() {
                assert(due_seq(s, now)[i] == due_seq(t, now)[i]);
                assert(due_seq(s, now)[j] == due_seq(t, now)[j]);
            } else {
                assert(due_seq(s, now)[i] == due_seq(t, now)[i]);
                assert(due_seq(s, now)[j] == s.last());
                let k = choose|k: int| 0 <= k < t.len() && t[k] == due_seq(t, now)[i];
                assert(s[k] == due_seq(s, now)[i]);
                assert(s[k].id != s[s.len() - 1].id);
            }
        }
    }
}

/// One filtering step: filtering one more element appends it when it
/// passes the test and nothing otherwise.
pub proof fn reveal_filter_step<A>(s: Seq<A>, i: int, pred: spec_fn(A) -> bool)
    requires
        0 <= i < s.len(),
    ensures
        s.take(i + 1).filter(pred) == if pred(s[i]) {
            s.take(i).filter(pred).push(s[i])
        } else {
            s.take(i).filter(pred)
        },
{
    reveal(Seq::filter);
    assert(s.take(i + 1).drop_last() =~= s.take(i));
    assert(s.take(i + 1).last() == s[i]);
}

/// The UTF-8 encoding of a non-empty text is non-empty.
pub proof fn lemma_encode_utf8_nonempty(s: Seq<char>)
    requires
        s.len() > 0,
    ensures
        vstd::utf8::encode_utf8(s).len() > 0,
{
    vstd::utf8::char_is_scalar(s[0] as char);
}

/// Reviews of two different cards commute: a review reads and writes
/// one card alone, so two reviews against different cards may
/// interleave freely without either losing its update.
pub proof fn lemma_reviews_commute(
    s: Seq<Flashcard>,
    j1: int,
    j2: int,
    q1: int,
    q2: int,
    n1: int,
    n2: int,
)
    requires
        0 <= j1 < s.len(),
        0 <= j2 < s.len(),
        j1 != j2,
    ensures
        s.update(j1, reviewed_card(s[j1], q1, n1)).update(j2, reviewed_card(s[j2], q2, n2))
            == s.update(j2, reviewed_card(s[j2], q2, n2)).update(j1, reviewed_card(s[j1], q1, n1)),
{
    assert(s.update(j1, reviewed_card(s[j1], q1, n1)).update(j2, reviewed_card(s[j2], q2, n2))
        =~= s.update(j2, reviewed_card(s[j2], q2, n2)).update(j1, reviewed_card(s[j1], q1, n1)));
}

} // verus!
