use script_broker::broker::{
    settle_call, BrokerError, BrokerState, CallAdmission, CallDecision, EngineOutcome, Handle,
    LoadOutcome,
};
use script_broker::contract::{build_api_request, Verb};
use script_broker::dispatch::{to_api_response, transport_reply};
use script_broker::engine::decode_response;

fn loaded(broker: &mut BrokerState, path: &str) -> Handle {
    broker
        .settle_load(&path.to_string(), LoadOutcome::Loaded)
        .unwrap()
}

fn plain_request(url: &str, nonce: &str) -> script_broker::contract::ApiRequest {
    build_api_request(
        url.to_string(),
        "GET".to_string(),
        Vec::new(),
        vec![("nonce".to_string(), nonce.to_string())],
        String::new(),
    )
}

#[test]
fn load_then_call_proceeds() {
    let mut broker = BrokerState::new();
    let h = loaded(&mut broker, "api/greet.js");
    assert!(matches!(broker.check_call(&h), CallAdmission::Proceed));
}

#[test]
fn unknown_script_is_not_loaded() {
    let broker = BrokerState::new();
    let h = Handle { script: "api/ghost.js".to_string(), generation: 0 };
    assert!(matches!(broker.check_call(&h), CallAdmission::NotLoaded));
    match broker.decide_call(&h, Verb::Get, &plain_request("/api/ghost", "n")) {
        CallDecision::Refuse(e) => {
            assert_eq!(e.message(), "script not loaded: api/ghost.js");
        },
        CallDecision::Invoke(_, _) => panic!("a call on an unknown script must be refused"),
    }
}

#[test]
fn reload_invalidates_the_prior_handle() {
    let mut broker = BrokerState::new();
    let stale = loaded(&mut broker, "api/greet.js");
    let fresh = loaded(&mut broker, "api/greet.js");
    assert!(matches!(broker.check_call(&stale), CallAdmission::Invalidated));
    assert!(matches!(broker.check_call(&fresh), CallAdmission::Proceed));
    assert_ne!(stale.generation, fresh.generation);
}

#[test]
fn failed_load_marks_the_route_broken() {
    let mut broker = BrokerState::new();
    let h = loaded(&mut broker, "api/greet.js");
    let err = broker
        .settle_load(
            &"api/greet.js".to_string(),
            LoadOutcome::Failed("SyntaxError: line 3".to_string()),
        )
        .unwrap_err();
    assert_eq!(err.message(), "load error: SyntaxError: line 3");
    // The old handle is gone and the current context reports the diagnostic.
    assert!(matches!(broker.check_call(&h), CallAdmission::Invalidated));
    let current = Handle { script: "api/greet.js".to_string(), generation: h.generation + 1 };
    match broker.check_call(&current) {
        CallAdmission::Broken(d) => assert_eq!(d, "SyntaxError: line 3"),
        _ => panic!("a failed load must leave the route broken"),
    }
}

#[test]
fn loading_one_script_leaves_others_alone() {
    let mut broker = BrokerState::new();
    let ha = loaded(&mut broker, "api/a.js");
    let _hb = loaded(&mut broker, "api/b.js");
    // Reload b twice, break it once: a's handle stays valid throughout.
    let _ = loaded(&mut broker, "api/b.js");
    let _ = broker.settle_load(&"api/b.js".to_string(), LoadOutcome::Failed("boom".to_string()));
    assert!(matches!(broker.check_call(&ha), CallAdmission::Proceed));
}

#[test]
fn distinct_scripts_get_their_own_request_framing() {
    let mut broker = BrokerState::new();
    let ha = loaded(&mut broker, "api/a.js");
    let hb = loaded(&mut broker, "api/b.js");
    let ra = plain_request("/api/a", "nonce-a");
    let rb = plain_request("/api/b", "nonce-b");
    let da = broker.decide_call(&ha, Verb::Get, &ra);
    let db = broker.decide_call(&hb, Verb::Get, &rb);
    match (da, db) {
        (CallDecision::Invoke(fa, ja), CallDecision::Invoke(fb, jb)) => {
            assert_eq!(fa, "GET");
            assert_eq!(fb, "GET");
            assert!(ja.contains("nonce-a") && !ja.contains("nonce-b"));
            assert!(jb.contains("nonce-b") && !jb.contains("nonce-a"));
        },
        _ => panic!("both calls must be admitted"),
    }
}

#[test]
fn missing_verb_is_a_structured_405() {
    let r = settle_call(Verb::Post, EngineOutcome::MissingFunction).unwrap();
    assert_eq!(r.status, 405);
    assert_eq!(r.body, "{\"error\":\"Method POST not allowed\"}");
    let v: serde_json::Value = serde_json::from_str(&r.body).unwrap();
    assert!(v.get("error").is_some());
}

#[test]
fn thrown_handler_is_contained_and_others_still_serve() {
    let thrown = settle_call(
        Verb::Get,
        EngineOutcome::Threw("TypeError: x is not a function".to_string()),
    );
    let err = thrown.unwrap_err();
    let (status, body) = transport_reply(Err(err));
    assert_eq!(status, 500);
    assert_eq!(
        body,
        "{\"error\":\"handler call failed: TypeError: x is not a function\"}"
    );
    // A later call on a different script settles normally.
    let ok = settle_call(
        Verb::Get,
        EngineOutcome::Returned("{\"status\":200,\"body\":\"fine\"}".to_string()),
    )
    .unwrap();
    assert_eq!(ok.status, 200);
}

#[test]
fn round_trip_greet() {
    // The reply a greet handler produces for query {name: "Bob"}.
    let reply = "{\"status\":200,\"body\":{\"msg\":\"hi Bob\"}}";
    let r = settle_call(Verb::Get, EngineOutcome::Returned(reply.to_string())).unwrap();
    assert_eq!(r.status, 200);
    let (status, body) = transport_reply(Ok(to_api_response(r)));
    assert_eq!(status, 200);
    let v: serde_json::Value = serde_json::from_str(&body).unwrap();
    assert_eq!(v.get("msg").unwrap().as_str(), Some("hi Bob"));
}

#[test]
fn replies_that_do_not_fit_the_contract_are_refused() {
    assert!(decode_response("not json at all").is_err());
    assert!(decode_response("[1,2,3]").is_err());
    assert!(decode_response("{\"body\":1}").is_err());
    assert!(decode_response("{\"status\":\"ok\"}").is_err());
    assert!(decode_response("{\"status\":70000}").is_err());
    assert!(decode_response("{\"status\":-1}").is_err());
}

#[test]
fn replies_without_a_body_carry_null() {
    let r = decode_response("{\"status\":204}").unwrap();
    assert_eq!(r.status, 204);
    assert_eq!(r.body, "null");
}

#[test]
fn out_of_range_status_is_written_as_200() {
    let r = settle_call(
        Verb::Get,
        EngineOutcome::Returned("{\"status\":999,\"body\":null}".to_string()),
    )
    .unwrap();
    let (status, _) = transport_reply(Ok(to_api_response(r)));
    assert_eq!(status, 200);
}

#[test]
fn largest_status_decodes_and_clamps() {
    let r = decode_response("{\"status\":65535,\"body\":null}").unwrap();
    assert_eq!(r.status, 65535);
    let (status, _) = transport_reply(Ok(to_api_response(r)));
    assert_eq!(status, 200);
}

#[test]
fn decoded_replies_carry_their_own_body_text() {
    let r = decode_response("{\"status\":201,\"body\":[1,2]}").unwrap();
    assert_eq!(r.status, 201);
    assert_eq!(r.body, "[1,2]");
    let r = decode_response("{\"body\":null,\"status\":418}").unwrap();
    assert_eq!(r.status, 418);
    assert_eq!(r.body, "null");
}

#[test]
fn refused_replies_name_what_was_wrong() {
    assert_eq!(
        decode_response("{\"status\":\"ok\"}").unwrap_err(),
        "reply is not an object with an unsigned integer status"
    );
    assert_eq!(
        decode_response("{\"status\":70000}").unwrap_err(),
        "reply status does not fit a status code"
    );
    // Text that is not JSON at all carries the reader's own diagnostic.
    assert!(!decode_response("not json at all").unwrap_err().is_empty());
}

#[test]
fn error_messages_name_the_failure() {
    assert_eq!(
        BrokerError::HandleInvalidated.message(),
        "handle invalidated by reload"
    );
    assert_eq!(
        BrokerError::Disconnected.message(),
        "engine worker disconnected"
    );
    assert_eq!(
        BrokerError::Serialization("bad shape".to_string()).message(),
        "reply did not fit the response contract: bad shape"
    );
}
