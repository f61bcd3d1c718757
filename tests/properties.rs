use magic_cli::path::{decimal_text, parse_index, split_text};
use magic_cli::{
    check_http_url, parse_form_kv_pair, parse_http_url, query_json_path, validate_json_query,
    validate_non_empty_string, BodyData, HttpieCommand, HttpiePostArgs, JsonValue, KvPair,
    TraversalError, UrlError, ValidationError,
};

fn s(t: &str) -> JsonValue {
    JsonValue::String(t.to_string())
}

fn n(t: &str) -> JsonValue {
    JsonValue::Number(t.to_string())
}

fn obj(members: Vec<(&str, JsonValue)>) -> JsonValue {
    JsonValue::Object(members.into_iter().map(|(k, v)| (k.to_string(), v)).collect())
}

fn sample() -> JsonValue {
    obj(vec![
        ("user", obj(vec![("name", s("Alice")), ("age", n("30"))])),
        ("items", JsonValue::Array(vec![n("1"), n("2"), n("3")])),
    ])
}

fn kv(k: &str, v: &str) -> KvPair {
    KvPair { k: k.to_string(), v: v.to_string() }
}

#[test]
fn single_key_object_yields_its_value() {
    let inner = JsonValue::Array(vec![JsonValue::Null, JsonValue::Bool(true)]);
    let v = obj(vec![("k", inner.deep_copy())]);
    assert_eq!(query_json_path(&v, "k").unwrap(), inner);
}

#[test]
fn every_index_in_range_yields_its_item() {
    let items = vec![n("10"), s("x"), JsonValue::Null, JsonValue::Bool(false)];
    let v = JsonValue::Array(items.iter().map(|i| i.deep_copy()).collect());
    for (i, item) in items.iter().enumerate() {
        assert_eq!(&query_json_path(&v, &i.to_string()).unwrap(), item);
    }
}

#[test]
fn index_past_end_is_out_of_bounds() {
    let v = JsonValue::Array(vec![n("1"), n("2")]);
    assert_eq!(query_json_path(&v, "2"), Err(TraversalError::IndexOutOfBounds(2)));
    assert_eq!(query_json_path(&v, "7"), Err(TraversalError::IndexOutOfBounds(7)));
}

#[test]
fn missing_key_is_not_found() {
    let v = obj(vec![("a", n("1"))]);
    assert_eq!(query_json_path(&v, "b"), Err(TraversalError::KeyNotFound("b".to_string())));
}

#[test]
fn scalar_is_not_indexable() {
    for v in [JsonValue::Null, JsonValue::Bool(true), n("3"), s("t")] {
        assert_eq!(
            query_json_path(&v, "x.y"),
            Err(TraversalError::NotIndexable("x".to_string()))
        );
    }
}

#[test]
fn validation_errors_of_each_kind() {
    assert_eq!(validate_json_query(""), Err(ValidationError::EmptyPath));
    assert_eq!(validate_json_query("a..b"), Err(ValidationError::DoubleSeparator));
    assert_eq!(
        validate_json_query("user.$name"),
        Err(ValidationError::InvalidSegment("$name".to_string()))
    );
    assert_eq!(
        validate_json_query("user."),
        Err(ValidationError::InvalidSegment("".to_string()))
    );
    assert_eq!(
        validate_json_query(".user"),
        Err(ValidationError::InvalidSegment("".to_string()))
    );
}

#[test]
fn validation_is_idempotent() {
    for p in ["user.name", "0.1", "a..b", "", "x.$", "测试.ñ"] {
        let first = validate_json_query(p);
        if let Ok(q) = &first {
            assert_eq!(validate_json_query(q), first);
        }
    }
}

#[test]
fn sample_document_queries() {
    let v = sample();
    assert_eq!(query_json_path(&v, "user.name").unwrap(), s("Alice"));
    assert_eq!(query_json_path(&v, "items.1").unwrap(), n("2"));
    assert_eq!(query_json_path(&v, "items.5"), Err(TraversalError::IndexOutOfBounds(5)));
    assert_eq!(
        query_json_path(&v, "user.address"),
        Err(TraversalError::KeyNotFound("address".to_string()))
    );
    assert_eq!(
        query_json_path(&v, "user.name.first"),
        Err(TraversalError::NotIndexable("first".to_string()))
    );
}

#[test]
fn unicode_keys_validate_and_resolve() {
    let v = obj(vec![("测试", n("1")), ("ñ", obj(vec![("β3", s("b"))]))]);
    assert_eq!(validate_json_query("测试").unwrap(), "测试");
    assert_eq!(validate_json_query("ñ.β3").unwrap(), "ñ.β3");
    assert_eq!(query_json_path(&v, "测试").unwrap(), n("1"));
    assert_eq!(query_json_path(&v, "ñ.β3").unwrap(), s("b"));
}

#[test]
fn array_segment_that_is_not_an_index() {
    let v = JsonValue::Array(vec![n("1")]);
    assert_eq!(query_json_path(&v, "x"), Err(TraversalError::InvalidIndex("x".to_string())));
    assert_eq!(query_json_path(&v, "-1"), Err(TraversalError::InvalidIndex("-1".to_string())));
    assert_eq!(query_json_path(&v, "+0").unwrap(), n("1"));
    assert_eq!(query_json_path(&v, "00").unwrap(), n("1"));
}

#[test]
fn empty_path_is_one_empty_key() {
    let v = obj(vec![("", n("5"))]);
    assert_eq!(query_json_path(&v, "").unwrap(), n("5"));
    let w = obj(vec![("a", n("5"))]);
    assert_eq!(query_json_path(&w, ""), Err(TraversalError::KeyNotFound("".to_string())));
}

#[test]
fn numeric_key_in_object_is_a_key() {
    let v = obj(vec![("obj", obj(vec![("123", s("x"))]))]);
    assert_eq!(validate_json_query("obj.123").unwrap(), "obj.123");
    assert_eq!(query_json_path(&v, "obj.123").unwrap(), s("x"));
}

#[test]
fn first_of_duplicate_keys_is_taken() {
    let v = obj(vec![("a", n("1")), ("a", n("2"))]);
    assert_eq!(query_json_path(&v, "a").unwrap(), n("1"));
}

#[test]
fn traversal_messages() {
    assert_eq!(TraversalError::KeyNotFound("k".to_string()).to_string(), "键 'k' 未找到");
    assert_eq!(TraversalError::InvalidIndex("x".to_string()).to_string(), "无效的数组索引: x");
    assert_eq!(TraversalError::IndexOutOfBounds(105).to_string(), "数组索引 105 超出范围");
    assert_eq!(
        TraversalError::NotIndexable("f".to_string()).to_string(),
        "无法在非对象/非数组上访问 'f'"
    );
}

#[test]
fn validation_messages() {
    assert_eq!(ValidationError::EmptyPath.to_string(), "查询路径不能为空");
    assert_eq!(ValidationError::DoubleSeparator.to_string(), "查询路径不能包含连续的点");
    assert_eq!(
        ValidationError::InvalidSegment("$x".to_string()).to_string(),
        "无效的查询路径部分: $x"
    );
}

#[test]
fn index_parsing_agrees_with_std() {
    let cases = [
        "0", "7", "42", "007", "+5", "+", "", "-1", "-0", " 1", "1 ", "1a", "٣",
        "18446744073709551615", "18446744073709551616", "99999999999999999999999",
    ];
    for c in cases {
        assert_eq!(parse_index(c), c.parse::<usize>().ok(), "{}", c);
    }
}

#[test]
fn decimal_text_spells_numbers() {
    for v in [0usize, 9, 10, 305, usize::MAX] {
        assert_eq!(decimal_text(v), v.to_string());
    }
}

#[test]
fn split_text_matches_std_split() {
    for t in ["", ".", "a", "a.b", "a..b", ".a.", "测.试"] {
        let ours = split_text(t, '.');
        let std_pieces: Vec<String> = t.split('.').map(|p| p.to_string()).collect();
        assert_eq!(ours, std_pieces);
    }
}

#[test]
fn kv_pairs_parse() {
    assert_eq!(parse_form_kv_pair("a=b").unwrap(), kv("a", "b"));
    assert_eq!(parse_form_kv_pair("a=b=c").unwrap(), kv("a", "b"));
    assert_eq!(parse_form_kv_pair("a=").unwrap(), kv("a", ""));
    assert_eq!(parse_form_kv_pair("=v").unwrap(), kv("", "v"));
    let err = parse_form_kv_pair("novalue").unwrap_err();
    assert_eq!(err.to_string(), "解析键值对失败: novalue");
    let via_trait: KvPair = "x=y".parse().unwrap();
    assert_eq!(via_trait, kv("x", "y"));
}

#[test]
fn body_text_and_content_type() {
    let form = BodyData::Form(vec![kv("a", "1"), kv("b", "2")]);
    assert_eq!(form.to_string(), "a=1&b=2");
    assert_eq!(form.content_type(), "application/x-www-form-urlencoded");
    assert_eq!(BodyData::Form(vec![]).to_string(), "");
    let json = BodyData::Json("{\"a\":1}".to_string());
    assert_eq!(json.to_string(), "{\"a\":1}");
    assert_eq!(json.content_type(), "application/json");
    let raw = BodyData::Raw("hello".to_string());
    assert_eq!(raw.to_string(), "hello");
    assert_eq!(raw.content_type(), "text/plain");
}

fn post_args(json: Option<&str>, form: Vec<KvPair>, data: Option<&str>) -> HttpiePostArgs {
    HttpiePostArgs {
        url: "http://localhost".to_string(),
        form,
        json: json.map(|j| j.to_string()),
        data: data.map(|d| d.to_string()),
        content_type: "application/json".to_string(),
    }
}

#[test]
fn body_source_precedence() {
    let cmd = HttpieCommand;
    let all = post_args(Some("{}"), vec![kv("a", "1")], Some("raw"));
    assert!(matches!(cmd.prepare_body_data(&all), Some(BodyData::Json(j)) if j == "{}"));
    let form_and_raw = post_args(None, vec![kv("a", "1")], Some("raw"));
    assert!(matches!(cmd.prepare_body_data(&form_and_raw), Some(BodyData::Form(f)) if f == vec![kv("a", "1")]));
    let raw = post_args(None, vec![], Some("raw"));
    assert!(matches!(cmd.prepare_body_data(&raw), Some(BodyData::Raw(r)) if r == "raw"));
    assert!(cmd.prepare_body_data(&post_args(None, vec![], None)).is_none());
}

#[test]
fn http_urls() {
    assert_eq!(parse_http_url("http://example.com/a").unwrap(), "http://example.com/a");
    assert_eq!(parse_http_url("https://example.com").unwrap(), "https://example.com");
    assert_eq!(parse_http_url("HTTP://example.com").unwrap(), "HTTP://example.com");
    assert_eq!(parse_http_url("ftp://example.com"), Err(UrlError::UnsupportedScheme));
    assert_eq!(
        parse_http_url("ftp://example.com").unwrap_err().to_string(),
        "URL必须使用http或https协议"
    );
    assert_eq!(
        parse_http_url("not a url"),
        Err(UrlError::Malformed("relative URL without a base".to_string()))
    );
}

#[test]
fn url_check_on_given_parses() {
    let ok = check_http_url("u", Ok("https".to_string()));
    assert_eq!(ok.unwrap(), "u");
    assert_eq!(check_http_url("u", Ok("file".to_string())), Err(UrlError::UnsupportedScheme));
    assert_eq!(
        check_http_url("u", Err("bad".to_string())),
        Err(UrlError::Malformed("bad".to_string()))
    );
}

#[test]
fn blank_arguments_are_refused() {
    assert!(validate_non_empty_string("").is_err());
    assert!(validate_non_empty_string(" \t\n\u{3000}").is_err());
    assert_eq!(validate_non_empty_string("  a ").unwrap(), "  a ");
    assert_eq!(validate_non_empty_string("").unwrap_err().to_string(), "参数不能为空");
}

#[test]
fn deep_copy_is_equal() {
    let v = sample();
    assert_eq!(v.deep_copy(), v);
}
