use vstd::prelude::*;
use vstd::string::StringExecFns;

use crate::json_value::{Json, JsonValue};
use crate::path::{
    decimal, decimal_text, index_value, lemma_index_of_decimal, lemma_split_nonempty,
    lemma_split_without_separator, parse_index, segments, split_text,
};

verus! {

/// Why a path could not be followed through a document.
#[derive(Debug, PartialEq)]
pub enum TraversalError {
    /// An object has no member under this key.
    KeyNotFound(String),
    /// An array was reached and the segment is not a non-negative integer.
    InvalidIndex(String),
    /// An array was reached and the index is at or past its end.
    IndexOutOfBounds(usize),
    /// A scalar was reached while segments remained.
    NotIndexable(String),
}

/// The model of [`TraversalError`].
pub enum TraversalFault {
    KeyNotFound(Seq<char>),
    InvalidIndex(Seq<char>),
    IndexOutOfBounds(nat),
    NotIndexable(Seq<char>),
}

impl View for TraversalError {
    type V = TraversalFault;

    open spec fn view(&self) -> TraversalFault {
        match self {
            TraversalError::KeyNotFound(k) => TraversalFault::KeyNotFound(k@),
            TraversalError::InvalidIndex(s) => TraversalFault::InvalidIndex(s@),
            TraversalError::IndexOutOfBounds(n) => TraversalFault::IndexOutOfBounds(*n as nat),
            TraversalError::NotIndexable(s) => TraversalFault::NotIndexable(s@),
        }
    }
}

/// The value of the first member stored under `key`.
pub open spec fn member_value(members: Seq<(Seq<char>, Json)>, key: Seq<char>) -> Option<Json>
    decreases members.len(),
{
    if members.len() == 0 {
        None
    } else if members[0].0 == key {
        Some(members[0].1)
    } else {
        member_value(members.drop_first(), key)
    }
}

/// Descends one segment from `current`.
pub open spec fn step(current: Json, segment: Seq<char>) -> Result<Json, TraversalFault> {
    match current {
        Json::Object(members) => match member_value(members, segment) {
            Some(v) => Ok(v),
            None => Err(TraversalFault::KeyNotFound(segment)),
        },
        Json::Array(items) => match index_value(segment) {
            None => Err(TraversalFault::InvalidIndex(segment)),
            Some(n) => if n < items.len() {
                Ok(items[n as int])
            } else {
                Err(TraversalFault::IndexOutOfBounds(n))
            },
        },
        _ => Err(TraversalFault::NotIndexable(segment)),
    }
}

/// Follows the segments left to right; the first failure ends the walk.
pub open spec fn walk(current: Json, segs: Seq<Seq<char>>) -> Result<Json, TraversalFault>
    decreases segs.len(),
{
    if segs.len() == 0 {
        Ok(current)
    } else {
        match step(current, segs[0]) {
            Ok(next) => walk(next, segs.drop_first()),
            Err(e) => Err(e),
        }
    }
}

/// What a dotted path designates in `root`.
pub open spec fn resolve(root: Json, path: Seq<char>) -> Result<Json, TraversalFault> {
    walk(root, segments(path))
}

pub open spec fn traversal_message(f: TraversalFault) -> Seq<char> {
    match f {
        TraversalFault::KeyNotFound(k) => "键 '"@ + k + "' 未找到"@,
        TraversalFault::InvalidIndex(s) => "无效的数组索引: "@ + s,
        TraversalFault::IndexOutOfBounds(n) => "数组索引 "@ + decimal(n) + " 超出范围"@,
        TraversalFault::NotIndexable(s) => "无法在非对象/非数组上访问 '"@ + s + "'"@,
    }
}

impl TraversalError {
    /// The message shown to a user.
    pub fn to_string(&self) -> (r: String)
        ensures
            r@ == traversal_message(self@),
    {
        match self {
            TraversalError::KeyNotFound(k) => "键 '".to_owned().concat(k.as_str()).concat("' 未找到"),
            TraversalError::InvalidIndex(s) => "无效的数组索引: ".to_owned().concat(s.as_str()),
            TraversalError::IndexOutOfBounds(n) => {
                let digits = decimal_text(*n);
                "数组索引 ".to_owned().concat(digits.as_str()).concat(" 超出范围")
            },
            TraversalError::NotIndexable(s) => "无法在非对象/非数组上访问 '".to_owned().concat(
                s.as_str(),
            ).concat("'"),
        }
    }
}

proof fn lemma_first_member(members: Seq<(Seq<char>, Json)>, key: Seq<char>, j: int)
    requires
        0 <= j < members.len(),
        members[j].0 == key,
        forall|l: int| 0 <= l < j ==> (#[trigger] members[l]).0 != key,
    ensures
        member_value(members, key) == Some(members[j].1),
    decreases j,
{
    if j > 0 {
        let rest = members.drop_first();
        assert(members[0].0 != key);
        assert forall|l: int| 0 <= l < j - 1 implies (#[trigger] rest[l]).0 != key by {
            assert(rest[l] == members[l + 1]);
        }
        lemma_first_member(rest, key, j - 1);
    }
}

proof fn lemma_no_member(members: Seq<(Seq<char>, Json)>, key: Seq<char>)
    requires
        forall|l: int| 0 <= l < members.len() ==> (#[trigger] members[l]).0 != key,
    ensures
        member_value(members, key) is None,
    decreases members.len(),
{
    if members.len() > 0 {
        let rest = members.drop_first();
        assert(members[0].0 != key);
        assert forall|l: int| 0 <= l < rest.len() implies (#[trigger] rest[l]).0 != key by {
            assert(rest[l] == members[l + 1]);
        }
        lemma_no_member(rest, key);
    }
}

/// The position of the first member stored under `key`.
fn find_member(members: &Vec<(String, JsonValue)>, key: &String) -> (r: Option<usize>)
    ensures
        r matches Some(j) ==> j < members@.len() && members@[j as int].0@ == key@,
        r matches Some(j) ==> forall|l: int| 0 <= l < j ==> (#[trigger] members@[l]).0@ != key@,
        r is None ==> forall|l: int| 0 <= l < members@.len() ==> (#[trigger] members@[l]).0@ != key@,
{
    let mut j: usize = 0;
    while j < members.len()
        invariant
            j <= members@.len(),
            forall|l: int| 0 <= l < j ==> (#[trigger] members@[l]).0@ != key@,
        decreases members@.len() - j,
    {
        if members[j].0 == *key {
            return Some(j);
        }
        j = j + 1;
    }
    None
}

/// Follows a dotted path from `value` and returns an owned copy of what it
/// reaches.
///
/// The path is split on every `.`. An object is entered by key, an array by
/// a non-negative base-10 index, and a scalar cannot be entered at all. An
/// empty path is the single empty segment, looked up like any other.
pub fn query_json_path(value: &JsonValue, path: &str) -> (r: Result<JsonValue, TraversalError>)
    ensures
        r matches Ok(v) ==> resolve(value@, path@) == Ok::<Json, TraversalFault>(v@),
        r matches Err(e) ==> resolve(value@, path@) == Err::<Json, TraversalFault>(e@),
{
    let parts = split_text(path, '.');
    let ghost segs = segments(path@);
    let mut current: &JsonValue = value;
    let mut i: usize = 0;
    proof {
        assert(segs.subrange(0, segs.len() as int) =~= segs);
    }
    while i < parts.len()
        invariant
            segs == segments(path@),
            parts@.len() == segs.len(),
            forall|j: int| 0 <= j < parts@.len() ==> #[trigger] parts@[j]@ == segs[j],
            i <= parts@.len(),
            walk(value@, segs) == walk(current@, segs.subrange(i as int, segs.len() as int)),
        decreases parts@.len() - i,
    {
        let part = &parts[i];
        let ghost rest = segs.subrange(i as int, segs.len() as int);
        proof {
            assert(rest[0] == segs[i as int]);
            assert(rest.drop_first() =~= segs.subrange(i + 1, segs.len() as int));
            assert(part@ == segs[i as int]);
        }
        match current {
            JsonValue::Object(members) => {
                let ghost ms = current@->Object_0;
                match find_member(members, part) {
                    Some(j) => {
                        proof {
                            assert forall|l: int| 0 <= l < j implies (#[trigger] ms[l]).0 != part@ by {
                                assert(ms[l] == (members@[l].0@, members@[l].1@));
                            }
                            assert(ms[j as int] == (members@[j as int].0@, members@[j as int].1@));
                            lemma_first_member(ms, part@, j as int);
                        }
                        current = &members[j].1;
                    },
                    None => {
                        proof {
                            assert forall|l: int| 0 <= l < ms.len() implies (#[trigger] ms[l]).0 != part@ by {
                                assert(ms[l] == (members@[l].0@, members@[l].1@));
                            }
                            lemma_no_member(ms, part@);
                        }
                        return Err(TraversalError::KeyNotFound(part.clone()));
                    },
                }
            },
            JsonValue::Array(items) => {
                match parse_index(part.as_str()) {
                    None => {
                        return Err(TraversalError::InvalidIndex(part.clone()));
                    },
                    Some(n) => {
                        if n < items.len() {
                            current = &items[n];
                        } else {
                            return Err(TraversalError::IndexOutOfBounds(n));
                        }
                    },
                }
            },
            _ => {
                return Err(TraversalError::NotIndexable(part.clone()));
            },
        }
        i = i + 1;
    }
    proof {
        assert(segs.subrange(i as int, segs.len() as int) =~= Seq::<Seq<char>>::empty());
    }
    Ok(current.deep_copy())
}

proof fn lemma_single_segment(root: Json, seg: Seq<char>)
    requires
        !seg.contains('.'),
    ensures
        resolve(root, seg) == step(root, seg),
{
    lemma_split_without_separator(seg, '.');
    let segs = segments(seg);
    assert(segs[0] == seg);
    assert(segs.drop_first() =~= Seq::<Seq<char>>::empty());
    if let Ok(next) = step(root, seg) {
        assert(walk(next, Seq::<Seq<char>>::empty()) == Ok::<Json, TraversalFault>(next));
    }
}

/// In a well-formed object, a key without a dot leads to the value stored
/// under it.
pub proof fn lemma_member_resolves(members: Seq<(Seq<char>, Json)>, j: int)
    requires
        Json::Object(members).well_formed(),
        0 <= j < members.len(),
        !members[j].0.contains('.'),
    ensures
        resolve(Json::Object(members), members[j].0) == Ok::<Json, TraversalFault>(members[j].1),
{
    let key = members[j].0;
    assert forall|l: int| 0 <= l < j implies (#[trigger] members[l]).0 != key by {
        assert(members[l].0 != members[j].0);
    }
    lemma_first_member(members, key, j);
    lemma_single_segment(Json::Object(members), key);
}

/// The path `k` into the object `{k: v}` yields `v`, for a key without a dot.
pub proof fn lemma_key_resolves(k: Seq<char>, v: Json)
    requires
        !k.contains('.'),
    ensures
        resolve(Json::Object(seq![(k, v)]), k) == Ok::<Json, TraversalFault>(v),
{
    lemma_first_member(seq![(k, v)], k, 0);
    lemma_single_segment(Json::Object(seq![(k, v)]), k);
}

/// A key that no member of an object holds is reported as not found.
pub proof fn lemma_missing_key(members: Seq<(Seq<char>, Json)>, k: Seq<char>)
    requires
        !k.contains('.'),
        forall|l: int| 0 <= l < members.len() ==> (#[trigger] members[l]).0 != k,
    ensures
        resolve(Json::Object(members), k) == Err::<Json, TraversalFault>(
            TraversalFault::KeyNotFound(k),
        ),
{
    lemma_no_member(members, k);
    lemma_single_segment(Json::Object(members), k);
}

/// The base-10 spelling of an index inside an array yields the item there.
pub proof fn lemma_index_resolves(items: Seq<Json>, i: nat)
    requires
        items.len() <= usize::MAX,
        i < items.len(),
    ensures
        resolve(Json::Array(items), decimal(i)) == Ok::<Json, TraversalFault>(items[i as int]),
{
    lemma_index_of_decimal(i);
    lemma_single_segment(Json::Array(items), decimal(i));
}

/// The base-10 spelling of an index at or past the end of an array is
/// reported as out of bounds.
pub proof fn lemma_index_past_end(items: Seq<Json>, i: nat)
    requires
        items.len() <= i <= usize::MAX,
    ensures
        resolve(Json::Array(items), decimal(i)) == Err::<Json, TraversalFault>(
            TraversalFault::IndexOutOfBounds(i),
        ),
{
    lemma_index_of_decimal(i);
    lemma_single_segment(Json::Array(items), decimal(i));
}

/// A scalar cannot be entered: any path fails on its first segment.
pub proof fn lemma_scalar_not_indexable(scalar: Json, path: Seq<char>)
    requires
        !(scalar is Array),
        !(scalar is Object),
    ensures
        resolve(scalar, path) == Err::<Json, TraversalFault>(
            TraversalFault::NotIndexable(segments(path)[0]),
        ),
{
    lemma_split_nonempty(path, '.');
}

} // verus!
