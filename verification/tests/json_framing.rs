use script_broker::contract::{build_api_request, effective_status};
use script_broker::json::{error_body, escape_string, json_string, json_string_map, request_json};

fn pairs(v: &[(&str, &str)]) -> Vec<(String, String)> {
    let mut out: Vec<(String, String)> = Vec::new();
    for (k, val) in v {
        out.push((k.to_string(), val.to_string()));
    }
    out
}

#[test]
fn effective_status_in_range_is_verbatim() {
    assert_eq!(effective_status(100), 100);
    assert_eq!(effective_status(200), 200);
    assert_eq!(effective_status(405), 405);
    assert_eq!(effective_status(599), 599);
}

#[test]
fn effective_status_out_of_range_becomes_200() {
    assert_eq!(effective_status(0), 200);
    assert_eq!(effective_status(99), 200);
    assert_eq!(effective_status(600), 200);
    assert_eq!(effective_status(65535), 200);
}

#[test]
fn empty_transport_body_is_absent() {
    let r = build_api_request(
        "/api/greet".to_string(),
        "GET".to_string(),
        pairs(&[]),
        pairs(&[]),
        String::new(),
    );
    assert!(r.body.is_none());
    assert!(r.params.is_empty());
}

#[test]
fn nonempty_transport_body_is_kept() {
    let r = build_api_request(
        "/api/greet".to_string(),
        "POST".to_string(),
        pairs(&[]),
        pairs(&[]),
        "{\"a\":1}".to_string(),
    );
    assert_eq!(r.body.as_deref(), Some("{\"a\":1}"));
}

#[test]
fn escaping_matches_the_json_reader() {
    // The same texts serde_json writes for these strings.
    for s in [
        "plain",
        "with \"quotes\"",
        "back\\slash",
        "line\nbreak\r\ttab",
        "control \u{1} byte \u{1f}",
        "bs \u{8} ff \u{c}",
        "unicode caf\u{e9} \u{263a}",
        "del \u{7f} stays",
        "",
    ] {
        let ours = json_string(s);
        let theirs = serde_json::to_string(s).unwrap();
        assert_eq!(ours, theirs);
    }
}

#[test]
fn escape_string_exact_values() {
    assert_eq!(escape_string("a\"b"), "a\\\"b");
    assert_eq!(escape_string("\u{1}"), "\\u0001");
    assert_eq!(escape_string("\u{1f}"), "\\u001f");
    assert_eq!(escape_string("\n"), "\\n");
}

#[test]
fn string_map_keeps_order() {
    let m = json_string_map(&pairs(&[("b", "2"), ("a", "1")]));
    assert_eq!(m, "{\"b\":\"2\",\"a\":\"1\"}");
    assert_eq!(json_string_map(&pairs(&[])), "{}");
}

#[test]
fn request_json_exact_text() {
    let r = build_api_request(
        "/api/greet".to_string(),
        "GET".to_string(),
        pairs(&[("host", "localhost")]),
        pairs(&[("name", "Bob")]),
        String::new(),
    );
    let j = request_json(&r);
    assert_eq!(
        j,
        "{\"url\":\"/api/greet\",\"headers\":{\"host\":\"localhost\"},\"method\":\"GET\",\
         \"body\":null,\"params\":{},\"query\":{\"name\":\"Bob\"}}"
    );
}

#[test]
fn request_json_parses_back() {
    let r = build_api_request(
        "/api/echo".to_string(),
        "POST".to_string(),
        pairs(&[("x-n", "7")]),
        pairs(&[("nonce", "abc123")]),
        "payload \"quoted\"".to_string(),
    );
    let j = request_json(&r);
    let v: serde_json::Value = serde_json::from_str(&j).unwrap();
    assert_eq!(v.get("url").unwrap().as_str(), Some("/api/echo"));
    assert_eq!(v.get("method").unwrap().as_str(), Some("POST"));
    assert_eq!(v.get("body").unwrap().as_str(), Some("payload \"quoted\""));
    assert_eq!(
        v.get("headers").unwrap().get("x-n").unwrap().as_str(),
        Some("7")
    );
    assert_eq!(
        v.get("query").unwrap().get("nonce").unwrap().as_str(),
        Some("abc123")
    );
    assert!(v.get("params").unwrap().as_object().unwrap().is_empty());
}

#[test]
fn empty_body_reads_back_as_null() {
    let r = build_api_request(
        "/api/greet".to_string(),
        "GET".to_string(),
        pairs(&[]),
        pairs(&[]),
        String::new(),
    );
    let v: serde_json::Value = serde_json::from_str(&request_json(&r)).unwrap();
    assert!(v.get("body").unwrap().is_null());
}

#[test]
fn error_body_is_one_error_member() {
    assert_eq!(error_body("boom"), "{\"error\":\"boom\"}");
    assert_eq!(error_body("say \"hi\""), "{\"error\":\"say \\\"hi\\\"\"}");
}
