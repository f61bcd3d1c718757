use vstd::prelude::*;
use vstd::string::StringExecFns;

use crate::path::{split_on, split_text};

verus! {

/// A `key=value` pair of form data.
#[derive(Debug, PartialEq)]
pub struct KvPair {
    pub k: String,
    pub v: String,
}

impl Clone for KvPair {
    fn clone(&self) -> (r: Self)
        ensures
            r == *self,
    {
        KvPair { k: self.k.clone(), v: self.v.clone() }
    }
}

/// A text that holds no `=` cannot be read as a pair.
#[derive(Debug, PartialEq)]
pub struct KvPairError {
    pub input: String,
}

impl KvPairError {
    /// The message shown to a user.
    pub fn to_string(&self) -> (r: String)
        ensures
            r@ == "解析键值对失败: "@ + self.input@,
    {
        "解析键值对失败: ".to_owned().concat(self.input.as_str())
    }
}

/// The key and value read from `s`: what stands before the first `=`, and
/// what stands between it and the next `=` (or the end).
pub open spec fn kv_parts(s: Seq<char>) -> Option<(Seq<char>, Seq<char>)> {
    let pieces = split_on(s, '=');
    if pieces.len() >= 2 {
        Some((pieces[0], pieces[1]))
    } else {
        None
    }
}

/// Reads form data written as `key=value`.
///
/// Text after a second `=` is ignored, as `str::split` would leave it in a
/// third piece.
pub fn parse_form_kv_pair(s: &str) -> (r: Result<KvPair, KvPairError>)
    ensures
        r matches Ok(p) ==> kv_parts(s@) == Some((p.k@, p.v@)),
        r matches Err(e) ==> kv_parts(s@) is None && e.input@ == s@,
{
    let mut pieces = split_text(s, '=');
    if pieces.len() < 2 {
        return Err(KvPairError { input: s.to_owned() });
    }
    pieces.truncate(2);
    let v = pieces.pop().unwrap();
    let k = pieces.pop().unwrap();
    Ok(KvPair { k, v })
}

impl std::str::FromStr for KvPair {
    type Err = KvPairError;

    fn from_str(s: &str) -> Result<Self, Self::Err> {
        parse_form_kv_pair(s)
    }
}

/// The body of an HTTP request.
#[derive(Debug)]
pub enum BodyData {
    Json(String),
    Form(Vec<KvPair>),
    Raw(String),
}

/// The model of [`BodyData`].
pub enum Body {
    Json(Seq<char>),
    Form(Seq<KvPair>),
    Raw(Seq<char>),
}

impl View for BodyData {
    type V = Body;

    open spec fn view(&self) -> Body {
        match self {
            BodyData::Json(s) => Body::Json(s@),
            BodyData::Form(pairs) => Body::Form(pairs@),
            BodyData::Raw(s) => Body::Raw(s@),
        }
    }
}

pub open spec fn pair_text(p: KvPair) -> Seq<char> {
    p.k@ + "="@ + p.v@
}

/// The pairs written as `k=v` and joined with `&`, without escaping.
pub open spec fn form_text(pairs: Seq<KvPair>) -> Seq<char>
    decreases pairs.len(),
{
    if pairs.len() == 0 {
        Seq::empty()
    } else if pairs.len() == 1 {
        pair_text(pairs[0])
    } else {
        form_text(pairs.drop_last()) + "&"@ + pair_text(pairs.last())
    }
}

pub open spec fn body_text(b: Body) -> Seq<char> {
    match b {
        Body::Json(s) => s,
        Body::Form(pairs) => form_text(pairs),
        Body::Raw(s) => s,
    }
}

pub open spec fn body_content_type(b: Body) -> Seq<char> {
    match b {
        Body::Json(_) => "application/json"@,
        Body::Form(_) => "application/x-www-form-urlencoded"@,
        Body::Raw(_) => "text/plain"@,
    }
}

impl BodyData {
    /// The media type that goes with this kind of body.
    pub fn content_type(&self) -> (r: &str)
        ensures
            r@ == body_content_type(self@),
    {
        match self {
            BodyData::Json(_) => "application/json",
            BodyData::Form(_) => "application/x-www-form-urlencoded",
            BodyData::Raw(_) => "text/plain",
        }
    }

    /// The body as it is sent: JSON and raw text as given, form data as
    /// `k=v` pairs joined with `&`.
    pub fn to_string(&self) -> (r: String)
        ensures
            r@ == body_text(self@),
    {
        match self {
            BodyData::Json(data) => data.clone(),
            BodyData::Form(pairs) => {
                let mut out = String::new();
                let mut i: usize = 0;
                while i < pairs.len()
                    invariant
                        i <= pairs@.len(),
                        out@ == form_text(pairs@.subrange(0, i as int)),
                    decreases pairs@.len() - i,
                {
                    let ghost done = pairs@.subrange(0, i + 1);
                    proof {
                        assert(done.drop_last() =~= pairs@.subrange(0, i as int));
                        assert(done.last() == pairs@[i as int]);
                    }
                    if i > 0 {
                        out = out.concat("&");
                    }
                    out = out.concat(pairs[i].k.as_str()).concat("=").concat(pairs[i].v.as_str());
                    proof {
                        assert(out@ =~= form_text(done));
                    }
                    i = i + 1;
                }
                proof {
                    assert(pairs@.subrange(0, pairs@.len() as int) =~= pairs@);
                }
                out
            },
            BodyData::Raw(data) => data.clone(),
        }
    }
}

} // verus!
