use vstd::prelude::*;
use vstd::string::{StrSliceExecFns, StringExecFns};

use crate::path::{index_value, parse_index, segments, split_text};

verus! {

/// Whether `char::is_alphanumeric` holds of a character.
pub uninterp spec fn alphanumeric(c: char) -> bool;

/// Relies on `char::is_alphanumeric`: Unicode letters and numbers, not only
/// ASCII ones.
#[verifier::external_body]
fn char_is_alphanumeric(c: char) -> (r: bool)
    ensures
        r == alphanumeric(c),
{
    c.is_alphanumeric()
}

/// Why a query path was rejected before any document was looked at.
#[derive(Debug, PartialEq)]
pub enum ValidationError {
    /// The path is the empty string.
    EmptyPath,
    /// The path holds two dots in a row.
    DoubleSeparator,
    /// A segment is neither an index nor a well-formed key.
    InvalidSegment(String),
}

/// The model of [`ValidationError`].
pub enum ValidationFault {
    EmptyPath,
    DoubleSeparator,
    InvalidSegment(Seq<char>),
}

impl View for ValidationError {
    type V = ValidationFault;

    open spec fn view(&self) -> ValidationFault {
        match self {
            ValidationError::EmptyPath => ValidationFault::EmptyPath,
            ValidationError::DoubleSeparator => ValidationFault::DoubleSeparator,
            ValidationError::InvalidSegment(s) => ValidationFault::InvalidSegment(s@),
        }
    }
}

pub open spec fn key_char(c: char) -> bool {
    alphanumeric(c) || c == '_' || c == '-'
}

/// A non-empty run of alphanumeric characters, `_` and `-`.
pub open spec fn valid_key(s: Seq<char>) -> bool {
    s.len() > 0 && forall|i: int| 0 <= i < s.len() ==> key_char(#[trigger] s[i])
}

pub open spec fn segment_ok(s: Seq<char>) -> bool {
    index_value(s) is Some || valid_key(s)
}

pub open spec fn has_double_dot(s: Seq<char>) -> bool {
    exists|i: int| 1 <= i < s.len() && s[i - 1] == '.' && #[trigger] s[i] == '.'
}

/// The leftmost segment that is neither an index nor a key.
pub open spec fn first_bad_segment(segs: Seq<Seq<char>>) -> Option<Seq<char>>
    decreases segs.len(),
{
    if segs.len() == 0 {
        None
    } else if !segment_ok(segs[0]) {
        Some(segs[0])
    } else {
        first_bad_segment(segs.drop_first())
    }
}

/// The verdict on a query path: the path itself, or the first rule it breaks.
pub open spec fn validation(path: Seq<char>) -> Result<Seq<char>, ValidationFault> {
    if path.len() == 0 {
        Err(ValidationFault::EmptyPath)
    } else if has_double_dot(path) {
        Err(ValidationFault::DoubleSeparator)
    } else {
        match first_bad_segment(segments(path)) {
            Some(seg) => Err(ValidationFault::InvalidSegment(seg)),
            None => Ok(path),
        }
    }
}

pub open spec fn validation_message(f: ValidationFault) -> Seq<char> {
    match f {
        ValidationFault::EmptyPath => "查询路径不能为空"@,
        ValidationFault::DoubleSeparator => "查询路径不能包含连续的点"@,
        ValidationFault::InvalidSegment(s) => "无效的查询路径部分: "@ + s,
    }
}

impl ValidationError {
    /// The message shown to a user.
    pub fn to_string(&self) -> (r: String)
        ensures
            r@ == validation_message(self@),
    {
        match self {
            ValidationError::EmptyPath => "查询路径不能为空".to_owned(),
            ValidationError::DoubleSeparator => "查询路径不能包含连续的点".to_owned(),
            ValidationError::InvalidSegment(s) => "无效的查询路径部分: ".to_owned().concat(
                s.as_str(),
            ),
        }
    }
}

/// Whether `key` is a non-empty run of alphanumeric characters (Unicode
/// ones included), `_` and `-`.
pub fn is_valid_object_key(key: &str) -> (r: bool)
    ensures
        r == valid_key(key@),
{
    let n = key.unicode_len();
    if n == 0 {
        return false;
    }
    let mut i: usize = 0;
    while i < n
        invariant
            n == key@.len(),
            i <= n,
            forall|j: int| 0 <= j < i ==> key_char(#[trigger] key@[j]),
        decreases n - i,
    {
        let c = key.get_char(i);
        if !(char_is_alphanumeric(c) || c == '_' || c == '-') {
            return false;
        }
        i = i + 1;
    }
    true
}

fn contains_double_dot(s: &str) -> (r: bool)
    ensures
        r == has_double_dot(s@),
{
    let n = s.unicode_len();
    let mut i: usize = 1;
    while i < n
        invariant
            n == s@.len(),
            1 <= i,
            forall|j: int| 1 <= j < i && j < n ==> !(s@[j - 1] == '.' && #[trigger] s@[j] == '.'),
        decreases n - i,
    {
        if s.get_char(i - 1) == '.' && s.get_char(i) == '.' {
            return true;
        }
        i = i + 1;
    }
    false
}

/// Checks the syntax of a dotted query path and hands it back unchanged.
///
/// The path must be non-empty and free of `..`; then every segment must be
/// a non-negative integer or a valid key (see [`is_valid_object_key`]). A
/// trailing dot leaves an empty last segment, which is rejected as invalid.
pub fn validate_json_query(query: &str) -> (r: Result<String, ValidationError>)
    ensures
        r matches Ok(s) ==> validation(query@) == Ok::<Seq<char>, ValidationFault>(s@),
        r matches Err(e) ==> validation(query@) == Err::<Seq<char>, ValidationFault>(e@),
{
    if query.is_empty() {
        return Err(ValidationError::EmptyPath);
    }
    if contains_double_dot(query) {
        return Err(ValidationError::DoubleSeparator);
    }
    let parts = split_text(query, '.');
    let ghost segs = segments(query@);
    let mut i: usize = 0;
    proof {
        assert(segs.subrange(0, segs.len() as int) =~= segs);
    }
    while i < parts.len()
        invariant
            query@.len() > 0,
            !has_double_dot(query@),
            segs == segments(query@),
            parts@.len() == segs.len(),
            forall|j: int| 0 <= j < parts@.len() ==> #[trigger] parts@[j]@ == segs[j],
            i <= parts@.len(),
            first_bad_segment(segs) == first_bad_segment(
                segs.subrange(i as int, segs.len() as int),
            ),
        decreases parts@.len() - i,
    {
        let part = &parts[i];
        proof {
            let rest = segs.subrange(i as int, segs.len() as int);
            assert(rest[0] == segs[i as int]);
            assert(rest.drop_first() =~= segs.subrange(i + 1, segs.len() as int));
        }
        let index = parse_index(part.as_str());
        if index.is_none() && !is_valid_object_key(part.as_str()) {
            proof {
                assert(part@ == segs[i as int]);
                assert(!segment_ok(segs[i as int]));
            }
            return Err(ValidationError::InvalidSegment(part.clone()));
        }
        i = i + 1;
    }
    proof {
        assert(segs.subrange(i as int, segs.len() as int) =~= Seq::<Seq<char>>::empty());
    }
    Ok(query.to_owned())
}

/// Validation is idempotent: a path that passes is handed back unchanged,
/// so validating the result again gives the same verdict.
pub proof fn lemma_validate_idempotent(path: Seq<char>)
    requires
        validation(path) is Ok,
    ensures
        validation(validation(path)->Ok_0) == validation(path),
{
}

} // verus!
