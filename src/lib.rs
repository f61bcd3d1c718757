//! Dot-path queries over JSON documents, with the syntax check that may
//! precede them, and the pieces of an HTTP client command that decide
//! rather than send.

pub mod cli;
pub mod httpie;
pub mod json_value;
pub mod path;
pub mod query;
pub mod types;
pub mod validate;

pub use cli::{validate_non_empty_string, Args, BlankArgument, Commands, JsonArgs, JsonCommand};
pub use httpie::{
    check_http_url, parse_http_url, HttpieArgs, HttpieCommand, HttpieGetArgs, HttpiePostArgs,
    HttpieSubCommand, UrlError,
};
pub use json_value::{Json, JsonValue};
pub use query::{query_json_path, TraversalError};
pub use types::{parse_form_kv_pair, BodyData, KvPair, KvPairError};
pub use validate::{is_valid_object_key, validate_json_query, ValidationError};
