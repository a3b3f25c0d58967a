//! Input validation and sanitization for the record store: exact
//! checks on free-text fields, numeric domains and status words, and
//! whitespace trimming.

use vstd::prelude::*;
use vstd::string::StrSliceExecFns;

use crate::errors::AppError;

verus! {

broadcast use vstd::slice::group_slice_axioms;

/// Implemented by request types that can check their own fields.
pub trait Validator {
    fn validate(&self) -> Result<(), AppError>;
}

/// True when the code point is Unicode whitespace (the set that
/// string trimming removes).
pub open spec fn is_space_code(u: u32) -> bool {
    u == 32 || (9 <= u && u <= 13) || u == 0x85 || u == 0xa0 || u == 0x1680 || (0x2000 <= u && u
        <= 0x200a) || u == 0x2028 || u == 0x2029 || u == 0x202f || u == 0x205f || u == 0x3000
}

/// True when the character is Unicode whitespace.
pub open spec fn is_space(c: char) -> bool {
    is_space_code(c as u32)
}

/// True when the text consists of whitespace alone (an empty text
/// counts).
pub open spec fn all_spaces(s: Seq<char>) -> bool {
    forall|i: int| 0 <= i < s.len() ==> is_space(#[trigger] s[i])
}

/// A text with its leading whitespace removed.
pub open spec fn trim_front(s: Seq<char>) -> Seq<char>
    decreases s.len(),
{
    if s.len() == 0 {
        s
    } else if is_space(s[0]) {
        trim_front(s.drop_first())
    } else {
        s
    }
}

/// A text with its trailing whitespace removed.
pub open spec fn trim_back(s: Seq<char>) -> Seq<char>
    decreases s.len(),
{
    if s.len() == 0 {
        s
    } else if is_space(s.last()) {
        trim_back(s.drop_last())
    } else {
        s
    }
}

/// A text with leading and trailing whitespace removed.
pub open spec fn trim_spec(s: Seq<char>) -> Seq<char> {
    trim_back(trim_front(s))
}

/// Dropping a run of leading spaces that ends at a non-space (or at
/// the end of the text) is what `trim_front` computes.
proof fn lemma_trim_front_skip(s: Seq<char>, k: int)
    requires
        0 <= k <= s.len(),
        forall|i: int| 0 <= i < k ==> is_space(#[trigger] s[i]),
        k < s.len() ==> !is_space(s[k]),
    ensures
        trim_front(s) == s.subrange(k, s.len() as int),
    decreases k,
{
    if k == 0 {
        assert(s.subrange(0, s.len() as int) =~= s);
    } else {
        assert(is_space(s[0]));
        let t = s.drop_first();
        assert forall|i: int| 0 <= i < k - 1 implies is_space(#[trigger] t[i]) by {
            assert(t[i] == s[i + 1]);
        }
        if k - 1 < t.len() {
            assert(t[k - 1] == s[k]);
        }
        lemma_trim_front_skip(t, k - 1);
        assert(t.subrange(k - 1, t.len() as int) =~= s.subrange(k, s.len() as int));
    }
}

/// Dropping a run of trailing spaces that starts after a non-space
/// (or at the start of the text) is what `trim_back` computes.
proof fn lemma_trim_back_take(s: Seq<char>, k: int)
    requires
        0 <= k <= s.len(),
        forall|i: int| k <= i < s.len() ==> is_space(#[trigger] s[i]),
        k > 0 ==> !is_space(s[k - 1]),
    ensures
        trim_back(s) == s.subrange(0, k),
    decreases s.len(),
{
    if k == s.len() {
        assert(s.subrange(0, k) =~= s);
    } else {
        assert(is_space(s.last()));
        let t = s.drop_last();
        assert forall|i: int| k <= i < t.len() implies is_space(#[trigger] t[i]) by {
            assert(t[i] == s[i]);
        }
        if k > 0 {
            assert(t[k - 1] == s[k - 1]);
        }
        lemma_trim_back_take(t, k);
        assert(t.subrange(0, k) =~= s.subrange(0, k));
    }
}

/// Executable whitespace test.
fn space_char(c: char) -> (r: bool)
    ensures
        r == is_space(c),
{
    let u = c as u32;
    u == 32 || (9 <= u && u <= 13) || u == 0x85 || u == 0xa0 || u == 0x1680 || (0x2000 <= u && u
        <= 0x200a) || u == 0x2028 || u == 0x2029 || u == 0x202f || u == 0x205f || u == 0x3000
}

/// Remove leading and trailing whitespace from a text.
pub fn sanitize_string(value: String) -> (r: String)
    ensures
        r@ == trim_spec(value@),
{
    let s = value.as_str();
    let n = s.unicode_len();
    let mut start: usize = 0;
    while start < n && space_char(s.get_char(start))
        invariant
            start <= n,
            n == s@.len(),
            forall|i: int| 0 <= i < start ==> is_space(#[trigger] s@[i]),
        decreases n - start,
    {
        start = start + 1;
    }
    proof {
        lemma_trim_front_skip(s@, start as int);
    }
    if start == n {
        let r = String::new();
        proof {
            assert(trim_front(s@) =~= Seq::<char>::empty());
            assert(trim_back(Seq::<char>::empty()) =~= Seq::<char>::empty());
        }
        return r;
    }
    assert(!is_space(s@[start as int]));
    let mut end: usize = n;
    while end > start && space_char(s.get_char(end - 1))
        invariant
            start < end <= n,
            n == s@.len(),
            !is_space(s@[start as int]),
            forall|i: int| end <= i < n ==> is_space(#[trigger] s@[i]),
        decreases end,
    {
        end = end - 1;
    }
    // the scan stopped on a non-space character on each side
    assert(end > start);
    assert(!is_space(s@[end - 1]));
    let r = s.substring_char(start, end);
    proof {
        let u = s@.subrange(start as int, s@.len() as int);
        let k = end - start;
        assert forall|i: int| k <= i < u.len() implies is_space(#[trigger] u[i]) by {
            assert(u[i] == s@[start + i]);
        }
        assert(u[k - 1] == s@[end - 1]);
        lemma_trim_back_take(u, k as int);
        assert(u.subrange(0, k as int) =~= s@.subrange(start as int, end as int));
        assert(r@ == trim_spec(value@));
    }
    r.to_owned()
}

/// Trim an optional text, keeping absence.
pub fn sanitize_optional_string(value: Option<String>) -> (r: Option<String>)
    ensures
        match value {
            Some(v) => r matches Some(t) && t@ == trim_spec(v@),
            None => r is None,
        },
{
    match value {
        Some(v) => Some(sanitize_string(v)),
        None => None,
    }
}

/// Reject a field that holds no visible characters: fails exactly
/// when the text is whitespace alone.
pub fn validate_not_empty(value: &str, field_name: &str) -> (r: Result<(), AppError>)
    ensures
        r is Ok <==> !all_spaces(value@),
        r matches Err(e) ==> e is Validation,
{
    let n = value.unicode_len();
    let mut i: usize = 0;
    while i < n
        invariant
            i <= n,
            n == value@.len(),
            forall|j: int| 0 <= j < i ==> is_space(#[trigger] value@[j]),
        decreases n - i,
    {
        if !space_char(value.get_char(i)) {
            return Ok(());
        }
        i = i + 1;
    }
    Err(AppError::Validation(String::from_str(field_name).concat(" cannot be empty")))
}

/// Bound a field's length in bytes: fails exactly when the UTF-8
/// length falls outside `min..=max`.
pub fn validate_string_length(value: &str, field_name: &str, min: usize, max: usize) -> (r: Result<
    (),
    AppError,
>)
    ensures
        r is Ok <==> min <= vstd::utf8::encode_utf8(value@).len() <= max,
        r matches Err(e) ==> e is Validation,
{
    let len = value.as_bytes().len();
    if len < min || len > max {
        return Err(
            AppError::Validation(
                String::from_str(field_name).concat(" must be between the allowed lengths"),
            ),
        );
    }
    Ok(())
}

/// A difficulty level is valid exactly when it lies in 1..=5.
pub fn validate_difficulty_level(level: i64) -> (r: Result<(), AppError>)
    ensures
        r is Ok <==> 1 <= level <= 5,
        r matches Err(e) ==> e is Validation,
{
    if level < 1 || level > 5 {
        return Err(
            AppError::Validation(String::from_str("Difficulty level must be between 1 and 5")),
        );
    }
    Ok(())
}

/// A quality rating passes this check exactly when it lies in 1..=5.
/// (The scheduler itself clamps scores to 0..=5 and never rejects
/// them; this check serves callers that want strict input.)
pub fn validate_quality_rating(rating: i64) -> (r: Result<(), AppError>)
    ensures
        r is Ok <==> 1 <= rating <= 5,
        r matches Err(e) ==> e is Validation,
{
    if rating < 1 || rating > 5 {
        return Err(
            AppError::Validation(String::from_str("Quality rating must be between 1 and 5")),
        );
    }
    Ok(())
}

/// True when the character is an ASCII digit or a hyphen.
pub open spec fn is_digit_or_dash(c: char) -> bool {
    (48 <= c as u32 && c as u32 <= 57) || c as u32 == 45
}

/// A date text is valid exactly when it is ten bytes long and each
/// character is an ASCII digit or a hyphen (the YYYY-MM-DD shape).
pub fn validate_date_format(date: &str) -> (r: Result<(), AppError>)
    ensures
        r is Ok <==> vstd::utf8::encode_utf8(date@).len() == 10 && (forall|i: int|
            0 <= i < date@.len() ==> is_digit_or_dash(#[trigger] date@[i])),
        r matches Err(e) ==> e is Validation,
{
    if date.as_bytes().len() != 10 {
        return Err(AppError::Validation(String::from_str("Date must be in YYYY-MM-DD format")));
    }
    let n = date.unicode_len();
    let mut i: usize = 0;
    while i < n
        invariant
            i <= n,
            n == date@.len(),
            forall|j: int| 0 <= j < i ==> is_digit_or_dash(#[trigger] date@[j]),
        decreases n - i,
    {
        let u = date.get_char(i) as u32;
        if !((48 <= u && u <= 57) || u == 45) {
            return Err(
                AppError::Validation(String::from_str("Date must be in YYYY-MM-DD format")),
            );
        }
        i = i + 1;
    }
    Ok(())
}

/// Compare two texts character for character.
pub fn str_eq(a: &str, b: &str) -> (r: bool)
    ensures
        r == (a@ == b@),
{
    broadcast use vstd::utf8::encode_utf8_decode_utf8;

    let ab = a.as_bytes();
    let bb = b.as_bytes();
    let n = ab.len();
    if n != bb.len() {
        proof {
            if a@ == b@ {
                assert(vstd::utf8::encode_utf8(a@) == vstd::utf8::encode_utf8(b@));
            }
        }
        return false;
    }
    let mut i: usize = 0;
    while i < n
        invariant
            i <= n,
            n == ab@.len(),
            n == bb@.len(),
            ab@ == vstd::utf8::encode_utf8(a@),
            bb@ == vstd::utf8::encode_utf8(b@),
            forall|j: int| 0 <= j < i ==> ab@[j] == bb@[j],
        decreases n - i,
    {
        if ab[i] != bb[i] {
            proof {
                if a@ == b@ {
                    assert(vstd::utf8::encode_utf8(a@) == vstd::utf8::encode_utf8(b@));
                }
            }
            return false;
        }
        i = i + 1;
    }
    proof {
        assert(ab@ =~= bb@);
        assert(vstd::utf8::decode_utf8(ab@) == vstd::utf8::decode_utf8(bb@));
        assert(a@ == b@);
    }
    true
}

/// A status word is valid exactly when it equals one of the allowed
/// words.
pub fn validate_status(value: &str, allowed_values: &[&str]) -> (r: Result<(), AppError>)
    ensures
        r is Ok <==> exists|j: int| 0 <= j < allowed_values@.len() && #[trigger] allowed_values@[j]@
            == value@,
        r matches Err(e) ==> e is Validation,
{
    let n = allowed_values.len();
    let mut i: usize = 0;
    while i < n
        invariant
            i <= n,
            n == allowed_values@.len(),
            forall|j: int| 0 <= j < i ==> #[trigger] allowed_values@[j]@ != value@,
        decreases n - i,
    {
        if str_eq(allowed_values[i], value) {
            return Ok(());
        }
        i = i + 1;
    }
    Err(AppError::Validation(String::from_str("Status must be one of the allowed values")))
}

/// True when the character is an ASCII lower-case letter.
pub open spec fn is_ascii_lower(c: char) -> bool {
    97 <= c as u32 && c as u32 <= 122
}

/// A language code is valid exactly when it is two bytes long and
/// each character is a lower-case ASCII letter.
pub fn validate_language_code(code: &str) -> (r: Result<(), AppError>)
    ensures
        r is Ok <==> vstd::utf8::encode_utf8(code@).len() == 2 && (forall|i: int|
            0 <= i < code@.len() ==> is_ascii_lower(#[trigger] code@[i])),
        r matches Err(e) ==> e is Validation,
{
    if code.as_bytes().len() != 2 {
        return Err(
            AppError::Validation(String::from_str("Language code must be exactly 2 characters")),
        );
    }
    let n = code.unicode_len();
    let mut i: usize = 0;
    while i < n
        invariant
            i <= n,
            n == code@.len(),
            forall|j: int| 0 <= j < i ==> is_ascii_lower(#[trigger] code@[j]),
        decreases n - i,
    {
        let u = code.get_char(i) as u32;
        if !(97 <= u && u <= 122) {
            return Err(
                AppError::Validation(String::from_str("Language code must be lowercase letters")),
            );
        }
        i = i + 1;
    }
    Ok(())
}

/// True when the text holds the given character somewhere.
pub open spec fn has_char(s: Seq<char>, c: char) -> bool {
    exists|i: int| 0 <= i < s.len() && s[i] == c
}

/// Executable containment test for one character.
fn contains_char(s: &str, c: char) -> (r: bool)
    ensures
        r == has_char(s@, c),
{
    let n = s.unicode_len();
    let mut i: usize = 0;
    while i < n
        invariant
            i <= n,
            n == s@.len(),
            forall|j: int| 0 <= j < i ==> s@[j] != c,
        decreases n - i,
    {
        if s.get_char(i) == c {
            return true;
        }
        i = i + 1;
    }
    false
}

/// An email is valid exactly when it holds an '@' and a '.'.
pub fn validate_email(email: &str) -> (r: Result<(), AppError>)
    ensures
        r is Ok <==> has_char(email@, '@') && has_char(email@, '.'),
        r matches Err(e) ==> e is Validation,
{
    if !contains_char(email, '@') || !contains_char(email, '.') {
        return Err(AppError::Validation(String::from_str("Invalid email format")));
    }
    Ok(())
}

/// A password is strong enough exactly when it is at least eight
/// bytes long.
pub fn validate_password_strength(password: &str) -> (r: Result<(), AppError>)
    ensures
        r is Ok <==> vstd::utf8::encode_utf8(password@).len() >= 8,
        r matches Err(e) ==> e is Validation,
{
    if password.as_bytes().len() < 8 {
        return Err(
            AppError::Validation(
                String::from_str("Password must be at least 8 characters long"),
            ),
        );
    }
    Ok(())
}

/// A priority word is valid exactly when it is "low", "medium" or
/// "high".
pub fn validate_priority(priority: &str) -> (r: Result<(), AppError>)
    ensures
        r is Ok <==> priority@ == "low"@ || priority@ == "medium"@ || priority@ == "high"@,
        r matches Err(e) ==> e is Validation,
{
    if str_eq(priority, "low") || str_eq(priority, "medium") || str_eq(priority, "high") {
        Ok(())
    } else {
        Err(
            AppError::Validation(
                String::from_str("Priority must be 'low', 'medium', or 'high'"),
            ),
        )
    }
}

} // verus!
