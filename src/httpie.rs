use vstd::prelude::*;

use crate::types::{BodyData, Body, KvPair};

verus! {

/// What `url::Url::parse` (reached through reqwest) makes of a text: the
/// URL's scheme, or the parser's error message.
pub uninterp spec fn url_parse_outcome(s: Seq<char>) -> Result<Seq<char>, Seq<char>>;

/// The texts that a result holds, on either side.
pub open spec fn texts(r: Result<String, String>) -> Result<Seq<char>, Seq<char>> {
    match r {
        Ok(x) => Ok(x@),
        Err(m) => Err(m@),
    }
}

/// Relies on `reqwest::Url::parse` and `Url::scheme`, and on the parse
/// error's `Display`: both depend on the text alone.
#[verifier::external_body]
fn parse_url_scheme(s: &str) -> (r: Result<String, String>)
    ensures
        texts(r) == url_parse_outcome(s@),
{
    match reqwest::Url::parse(s) {
        Ok(url) => Ok(url.scheme().to_string()),
        Err(e) => Err(e.to_string()),
    }
}

/// Why a text was refused as the URL of a request.
#[derive(Debug, PartialEq)]
pub enum UrlError {
    /// The text is not a URL; the parser's message.
    Malformed(String),
    /// The URL's scheme is neither `http` nor `https`.
    UnsupportedScheme,
}

/// The model of [`UrlError`].
pub enum UrlFault {
    Malformed(Seq<char>),
    UnsupportedScheme,
}

impl View for UrlError {
    type V = UrlFault;

    open spec fn view(&self) -> UrlFault {
        match self {
            UrlError::Malformed(m) => UrlFault::Malformed(m@),
            UrlError::UnsupportedScheme => UrlFault::UnsupportedScheme,
        }
    }
}

impl UrlError {
    /// The message shown to a user.
    pub fn to_string(&self) -> (r: String)
        ensures
            r@ == match self@ {
                UrlFault::Malformed(m) => m,
                UrlFault::UnsupportedScheme => "URL必须使用http或https协议"@,
            },
    {
        match self {
            UrlError::Malformed(m) => m.clone(),
            UrlError::UnsupportedScheme => "URL必须使用http或https协议".to_owned(),
        }
    }
}

/// The verdict on a request URL `s`, given what the URL parser made of it.
pub open spec fn url_verdict(s: Seq<char>, parsed: Result<Seq<char>, Seq<char>>) -> Result<
    Seq<char>,
    UrlFault,
> {
    match parsed {
        Err(m) => Err(UrlFault::Malformed(m)),
        Ok(scheme) => if scheme == "http"@ || scheme == "https"@ {
            Ok(s)
        } else {
            Err(UrlFault::UnsupportedScheme)
        },
    }
}

/// Accepts `s` as a request URL once the parser has read it: the text comes
/// back unchanged when the scheme is `http` or `https`.
pub fn check_http_url(s: &str, parsed: Result<String, String>) -> (r: Result<String, UrlError>)
    ensures
        r matches Ok(x) ==> url_verdict(s@, texts(parsed))
            == Ok::<Seq<char>, UrlFault>(x@),
        r matches Err(e) ==> url_verdict(s@, texts(parsed))
            == Err::<Seq<char>, UrlFault>(e@),
{
    match parsed {
        Err(m) => Err(UrlError::Malformed(m)),
        Ok(scheme) => {
            if scheme == "http".to_owned() || scheme == "https".to_owned() {
                Ok(s.to_owned())
            } else {
                Err(UrlError::UnsupportedScheme)
            }
        },
    }
}

/// Checks that `s` is an absolute `http` or `https` URL and hands it back.
pub fn parse_http_url(s: &str) -> (r: Result<String, UrlError>)
    ensures
        r matches Ok(x) ==> url_verdict(s@, url_parse_outcome(s@)) == Ok::<Seq<char>, UrlFault>(
            x@,
        ),
        r matches Err(e) ==> url_verdict(s@, url_parse_outcome(s@)) == Err::<Seq<char>, UrlFault>(
            e@,
        ),
{
    let parsed = parse_url_scheme(s);
    check_http_url(s, parsed)
}

/// Arguments of a GET request.
#[derive(Debug)]
pub struct HttpieGetArgs {
    pub url: String,
}

/// Arguments of a POST request. Of the body sources, JSON is taken first,
/// then form pairs, then raw data.
#[derive(Debug)]
pub struct HttpiePostArgs {
    pub url: String,
    pub form: Vec<KvPair>,
    pub json: Option<String>,
    pub data: Option<String>,
    pub content_type: String,
}

#[derive(Debug)]
pub enum HttpieSubCommand {
    Get(HttpieGetArgs),
    Post(HttpiePostArgs),
}

#[derive(Debug)]
pub struct HttpieArgs {
    pub subcmd: HttpieSubCommand,
}

/// The body a POST request carries: the JSON text if given, else the form
/// pairs if there are any, else the raw data if given.
pub open spec fn chosen_body(args: HttpiePostArgs) -> Option<Body> {
    match args.json {
        Some(j) => Some(Body::Json(j@)),
        None => if args.form@.len() > 0 {
            Some(Body::Form(args.form@))
        } else {
            match args.data {
                Some(d) => Some(Body::Raw(d@)),
                None => None,
            }
        },
    }
}

/// The HTTP client command.
pub struct HttpieCommand;

impl HttpieCommand {
    /// Builds the body of a POST request from its arguments.
    pub fn prepare_body_data(&self, args: &HttpiePostArgs) -> (r: Option<BodyData>)
        ensures
            r matches Some(b) ==> chosen_body(*args) == Some(b@),
            r is None ==> chosen_body(*args) is None,
    {
        if let Some(json) = &args.json {
            Some(BodyData::Json(json.clone()))
        } else if args.form.len() > 0 {
            let form = args.form.clone();
            proof {
                assert(form@ =~= args.form@);
            }
            Some(BodyData::Form(form))
        } else if let Some(data) = &args.data {
            Some(BodyData::Raw(data.clone()))
        } else {
            None
        }
    }
}

} // verus!
