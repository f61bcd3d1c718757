use vstd::prelude::*;
use vstd::string::StrSliceExecFns;

use crate::httpie::HttpieArgs;
use crate::json_value::{Json, JsonValue};
use crate::query::{query_json_path, resolve, TraversalError, TraversalFault};

verus! {

/// Whether `char::is_whitespace` holds of a character.
pub uninterp spec fn whitespace(c: char) -> bool;

/// Relies on `char::is_whitespace`: the Unicode `White_Space` property, the
/// set that `str::trim` removes.
#[verifier::external_body]
fn char_is_whitespace(c: char) -> (r: bool)
    ensures
        r == whitespace(c),
{
    c.is_whitespace()
}

/// An argument that is empty once surrounding whitespace is trimmed.
#[derive(Debug, PartialEq)]
pub struct BlankArgument;

impl BlankArgument {
    /// The message shown to a user.
    pub fn to_string(&self) -> (r: String)
        ensures
            r@ == "参数不能为空"@,
    {
        "参数不能为空".to_owned()
    }
}

/// Every character is whitespace, so trimming leaves nothing.
pub open spec fn blank(s: Seq<char>) -> bool {
    forall|i: int| 0 <= i < s.len() ==> whitespace(#[trigger] s[i])
}

/// Accepts an argument that holds something besides whitespace, and hands
/// it back unchanged.
pub fn validate_non_empty_string(s: &str) -> (r: Result<String, BlankArgument>)
    ensures
        r matches Ok(x) ==> !blank(s@) && x@ == s@,
        r is Err ==> blank(s@),
{
    let n = s.unicode_len();
    let mut i: usize = 0;
    while i < n
        invariant
            n == s@.len(),
            i <= n,
            forall|j: int| 0 <= j < i ==> whitespace(#[trigger] s@[j]),
        decreases n - i,
    {
        if !char_is_whitespace(s.get_char(i)) {
            return Ok(s.to_owned());
        }
        i = i + 1;
    }
    Err(BlankArgument)
}

/// Arguments of the JSON command: an optional query path and output style.
#[derive(Debug)]
pub struct JsonArgs {
    pub query: Option<String>,
    pub compact: bool,
    pub color: bool,
}

/// The available commands.
#[derive(Debug)]
pub enum Commands {
    Httpie(HttpieArgs),
    Json(JsonArgs),
}

/// The command line.
#[derive(Debug)]
pub struct Args {
    pub command: Commands,
}

/// The JSON processing command.
pub struct JsonCommand;

impl JsonCommand {
    /// The document to print: the whole input without a query, else what
    /// the query path designates in it.
    pub fn apply_query(&self, value: &JsonValue, query: &Option<String>) -> (r: Result<
        JsonValue,
        TraversalError,
    >)
        ensures
            query is None ==> (r matches Ok(v) && v@ == value@),
            query matches Some(q) ==> (r matches Ok(v) ==> resolve(value@, q@) == Ok::<
                Json,
                TraversalFault,
            >(v@)),
            query matches Some(q) ==> (r matches Err(e) ==> resolve(value@, q@) == Err::<
                Json,
                TraversalFault,
            >(e@)),
    {
        match query {
            Some(q) => query_json_path(value, q.as_str()),
            None => Ok(value.deep_copy()),
        }
    }
}

} // verus!
