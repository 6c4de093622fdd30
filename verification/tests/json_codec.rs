//! The JSON printer and parser on concrete documents.

use nu_jupyter_kernel::json::{parse_json, print_json, Json};

fn s(text: &str) -> Json {
    Json::Str(text.as_bytes().to_vec())
}

#[test]
fn prints_scalars() {
    assert_eq!(print_json(&Json::Null), b"null".to_vec());
    assert_eq!(print_json(&Json::Bool(true)), b"true".to_vec());
    assert_eq!(print_json(&Json::Bool(false)), b"false".to_vec());
    assert_eq!(print_json(&Json::Int(0)), b"0".to_vec());
    assert_eq!(print_json(&Json::Int(1234567890)), b"1234567890".to_vec());
}

#[test]
fn prints_strings_with_escapes() {
    assert_eq!(print_json(&s("hi")), b"\"hi\"".to_vec());
    assert_eq!(
        print_json(&Json::Str(vec![0x22, 0x5c, 0x0a, 0x0d, 0x09, 0x01])),
        b"\"\\\"\\\\\\n\\r\\t\\u0001\"".to_vec()
    );
}

#[test]
fn prints_arrays_and_objects() {
    let arr = Json::Arr(vec![Json::Int(1), Json::Int(2), Json::Null]);
    assert_eq!(print_json(&arr), b"[1,2,null]".to_vec());
    let obj = Json::Obj(vec![
        (b"a".to_vec(), Json::Int(7)),
        (b"b".to_vec(), Json::Arr(vec![])),
    ]);
    assert_eq!(print_json(&obj), b"{\"a\":7,\"b\":[]}".to_vec());
}

#[test]
fn parses_what_it_prints() {
    let doc = Json::Obj(vec![
        (b"code".to_vec(), s("1 + 1\n")),
        (b"flags".to_vec(), Json::Arr(vec![Json::Bool(true), Json::Bool(false)])),
        (b"count".to_vec(), Json::Int(42)),
        (b"nested".to_vec(), Json::Obj(vec![(b"x".to_vec(), Json::Null)])),
        (b"quote".to_vec(), Json::Str(vec![0x22, 0x5c, 0x09])),
    ]);
    let bytes = print_json(&doc);
    let back = parse_json(&bytes).expect("printed document parses");
    assert_eq!(back, doc);
}

#[test]
fn parses_empty_containers() {
    assert_eq!(parse_json(&b"[]".to_vec()), Some(Json::Arr(vec![])));
    assert_eq!(parse_json(&b"{}".to_vec()), Some(Json::Obj(vec![])));
}

#[test]
fn rejects_malformed_documents() {
    assert_eq!(parse_json(&b"".to_vec()), None);
    assert_eq!(parse_json(&b"nul".to_vec()), None);
    assert_eq!(parse_json(&b"[1,]".to_vec()), None);
    assert_eq!(parse_json(&b"{\"a\":}".to_vec()), None);
    assert_eq!(parse_json(&b"\"unterminated".to_vec()), None);
    assert_eq!(parse_json(&b"007".to_vec()), None);
    assert_eq!(parse_json(&b"1,2".to_vec()), None);
    assert_eq!(parse_json(&b"99999999999999999999999".to_vec()), None);
}

#[test]
fn keeps_raw_utf8_in_strings() {
    let doc = s("héllo ☃");
    let bytes = print_json(&doc);
    assert_eq!(parse_json(&bytes), Some(doc));
}

#[test]
fn parses_control_escapes() {
    assert_eq!(parse_json(&b"\"\\u0001\"".to_vec()), Some(Json::Str(vec![1])));
    assert_eq!(parse_json(&b"\"\\n\\t\"".to_vec()), Some(Json::Str(vec![0x0a, 0x09])));
    // the canonical form of a newline is its short escape, not the long one
    assert_eq!(parse_json(&b"\"\\u000a\"".to_vec()), None);
}

#[test]
fn largest_number_round_trips() {
    let doc = Json::Int(u64::MAX);
    let bytes = print_json(&doc);
    assert_eq!(bytes, b"18446744073709551615".to_vec());
    assert_eq!(parse_json(&bytes), Some(doc));
}


#[test]
fn whitespace_between_tokens_is_ignored() {
    assert_eq!(parse_json(&b" 1 ".to_vec()), Some(Json::Int(1)));
    assert_eq!(
        parse_json(&b"{ \"a\" : [ 1 , 2 ] ,\n\t\"b\" : \"x y\" }".to_vec()),
        Some(Json::Obj(vec![
            (b"a".to_vec(), Json::Arr(vec![Json::Int(1), Json::Int(2)])),
            (b"b".to_vec(), s("x y")),
        ]))
    );
    // whitespace inside a string is content, not separation
    assert_eq!(parse_json(&b"\" a \"".to_vec()), Some(s(" a ")));
}
