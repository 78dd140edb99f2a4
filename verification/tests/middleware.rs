use surf_vcr::cassette::decode_stream;
use surf_vcr::{
    Body, Cassettes, Handling, Opening, VcrError, VcrMiddleware, VcrMode, VcrRequest, VcrResponse,
};

fn values(list: &[&str]) -> Vec<String> {
    list.iter().map(|v| v.to_string()).collect()
}

fn lines(list: &[(&str, &[&str])]) -> Vec<(String, Vec<String>)> {
    list.iter().map(|(name, vs)| (name.to_string(), values(vs))).collect()
}

const SIMPLE: &str = "---
- Request:
    method: GET
    url: \"https://example.com/\"
    headers:
      X-some-header:
        - hello
    body: My Request
- Response:
    status: 200
    version: ~
    headers:
      X-some-header:
        - goodbye
    body: A Response
---
- Request:
    method: GET
    url: \"https://example.com/\"
    headers:
      x-some-header:
        - another hello
      secret-header:
        - (secret)
    body: \"\"
- Response:
    status: 200
    version: ~
    headers:
      x-some-header:
        - another goodbye
      content-type:
        - text/plain;charset=utf-8
      date:
        - \"Fri, 28 May 2021 00:44:58 GMT\"
    body: A Response
---
- Request:
    method: GET
    url: \"https://example.com/\"
    headers:
      x-some-header:
        - another hello
      content-type:
        - application/octet-stream
      session-key:
        - 00112233445566778899AABBCCDDEEFF
    body: \"\"
- Response:
    status: 200
    version: ~
    headers:
      x-some-header:
        - another goodbye
    body: A Response
";

fn hide_session_key(mut request: VcrRequest) -> VcrRequest {
    if request.headers.contains_key("session-key") {
        request.headers.insert("session-key".to_string(), values(&["(some key)"]));
    }
    request
}

fn hide_cookie(mut response: VcrResponse) -> VcrResponse {
    if response.headers.contains_key("set-cookie") {
        response.headers.insert("set-cookie".to_string(), values(&["(erased)"]));
    }
    response
}

#[test]
fn read_recording_from_disk() {
    let mut cassettes = Cassettes::new();
    let (vcr, opening) = VcrMiddleware::new(VcrMode::Replay, "test-sessions/simple.yml", &mut cassettes);
    assert_eq!(opening, Opening::ReadFile);
    cassettes.load(vcr.get_file(), SIMPLE).unwrap();

    let req = VcrRequest::from_request(
        "GET",
        "https://example.com/",
        &lines(&[("X-some-header", &["hello"])]),
        b"My Request",
    );
    let res = VcrResponse::try_from_response(
        200,
        None,
        &lines(&[("X-some-header", &["goodbye"])]),
        b"A Response",
    );

    let session = cassettes.session(vcr.get_file()).unwrap();
    assert_eq!(&req, session.request(0));
    assert_eq!(&res, session.response(0));
}

#[test]
fn replay_recorded_communications() {
    let mut cassettes = Cassettes::new();
    let (vcr, opening) = VcrMiddleware::new(VcrMode::Replay, "test-sessions/simple.yml", &mut cassettes);
    assert_eq!(opening, Opening::ReadFile);
    cassettes.load(vcr.get_file(), SIMPLE).unwrap();
    let vcr = vcr.with_modify_request(|mut req: VcrRequest| {
        assert!(req.headers.contains_key("secret-header"));
        req.headers.insert("secret-header".to_string(), vec![String::from("(secret)")]);
        req
    });

    let req = VcrRequest::from_request(
        "GET",
        "https://example.com/",
        &lines(&[("x-some-header", &["another hello"]), ("secret-header", &["sensitive data"])]),
        b"",
    );

    let res = match vcr.handle(&cassettes, req) {
        Handling::Respond(res) => res,
        other => panic!("unexpected: {:?}", other),
    };

    let expected = VcrResponse::try_from_response(
        200,
        None,
        &lines(&[
            ("x-some-header", &["another goodbye"]),
            ("content-type", &["text/plain;charset=utf-8"]),
            ("date", &["Fri, 28 May 2021 00:44:58 GMT"]),
        ]),
        b"A Response",
    );
    assert_eq!(res, expected);
    assert!(matches!(res.body, Body::Str(_)));
}

#[test]
fn record_communication_in_write_mode() {
    let path = "test-sessions/record-test.yml";
    let mut file = String::new();

    let mut cassettes = Cassettes::new();
    let (outer, opening) = VcrMiddleware::new(VcrMode::Replay, "test-sessions/simple.yml", &mut cassettes);
    assert_eq!(opening, Opening::ReadFile);
    cassettes.load(outer.get_file(), SIMPLE).unwrap();

    let (vcr, opening) = VcrMiddleware::new(VcrMode::Record, path, &mut cassettes);
    assert_eq!(opening, Opening::Ready);
    let vcr = vcr.with_modify_request(hide_session_key).with_modify_response(hide_cookie);

    let live_request = VcrRequest::from_request(
        "GET",
        "https://example.com/",
        &lines(&[
            ("x-some-header", &["another hello"]),
            ("content-type", &["application/octet-stream"]),
            ("session-key", &["00112233445566778899AABBCCDDEEFF"]),
        ]),
        b"",
    );

    let to_record = match vcr.handle(&cassettes, live_request.clone()) {
        Handling::Forward(request) => request,
        other => panic!("unexpected: {:?}", other),
    };
    let expected_res = match outer.handle(&cassettes, live_request) {
        Handling::Respond(res) => res,
        other => panic!("unexpected: {:?}", other),
    };
    let recorded = vcr.record(&to_record, expected_res.clone()).unwrap();
    file.push_str(&recorded.document);

    let mut cassettes = Cassettes::new();
    let (replay, opening) = VcrMiddleware::new(VcrMode::Replay, path, &mut cassettes);
    assert_eq!(opening, Opening::ReadFile);
    cassettes.load(replay.get_file(), &file).unwrap();
    let replay = replay.with_modify_request(hide_session_key);

    let req = VcrRequest::from_request(
        "GET",
        "https://example.com/",
        &lines(&[
            ("x-some-header", &["another hello"]),
            ("content-type", &["application/octet-stream"]),
            ("session-key", &["ffeeddccbbaa99887766554433221100"]),
        ]),
        b"",
    );
    let res = match replay.handle(&cassettes, req) {
        Handling::Respond(res) => res,
        other => panic!("unexpected: {:?}", other),
    };
    let modified_res = hide_cookie(res);
    assert_eq!(modified_res, expected_res);
}

#[test]
fn a_recorder_keeps_its_mode_and_its_file() {
    let mut cassettes = Cassettes::new();
    let (vcr, opening) = VcrMiddleware::new(VcrMode::Record, "a.yml", &mut cassettes);
    assert_eq!(opening, Opening::Ready);
    assert_eq!(vcr.get_mode(), VcrMode::Record);
    assert_eq!(vcr.get_file(), "a.yml");
    let vcr = vcr.with_modify_request(hide_session_key).with_modify_response(hide_cookie);
    assert_eq!(vcr.get_mode(), VcrMode::Record);
    assert_eq!(vcr.get_file(), "a.yml");
    assert!(cassettes.session("a.yml").is_none());
}

#[test]
fn a_loaded_cassette_is_not_asked_for_again() {
    let mut cassettes = Cassettes::new();
    let (first, opening) = VcrMiddleware::new(VcrMode::Replay, "a.yml", &mut cassettes);
    assert_eq!(opening, Opening::ReadFile);
    cassettes.load(first.get_file(), SIMPLE).unwrap();
    let (second, opening) = VcrMiddleware::new(VcrMode::Replay, "a.yml", &mut cassettes);
    assert_eq!(opening, Opening::Ready);
    assert_eq!(cassettes.session(second.get_file()).unwrap().len(), 3);
}

#[test]
fn record_mode_changes_nothing_without_modifiers() {
    let mut cassettes = Cassettes::new();
    let (vcr, _) = VcrMiddleware::new(VcrMode::Record, "a.yml", &mut cassettes);
    let request = VcrRequest::from_request("GET", "https://example.com/", &lines(&[("k", &["v"])]), b"b");
    let forwarded = match vcr.handle(&cassettes, request.clone()) {
        Handling::Forward(forwarded) => forwarded,
        other => panic!("unexpected: {:?}", other),
    };
    assert!(forwarded.eq(&request));
    let response = VcrResponse::try_from_response(201, None, &lines(&[("set-cookie", &["id=1"])]), b"made");
    let recorded = vcr.record(&forwarded, response.clone()).unwrap();
    assert!(recorded.response.eq(&response));
    let session = decode_stream(&recorded.document).unwrap();
    assert_eq!(session.len(), 1);
    assert!(session.request(0).eq(&request));
    assert!(session.response(0).eq(&response));
}

#[test]
fn a_request_that_was_not_recorded_fails_with_that_request() {
    let mut cassettes = Cassettes::new();
    let (vcr, _) = VcrMiddleware::new(VcrMode::Replay, "a.yml", &mut cassettes);
    cassettes.load(vcr.get_file(), SIMPLE).unwrap();
    let request = VcrRequest::from_request("GET", "https://example.com/missing", &lines(&[]), b"");
    match vcr.handle(&cassettes, request.clone()) {
        Handling::Fail(VcrError::Lookup(carried)) => {
            assert!(carried.eq(&request));
            assert_eq!(
                VcrError::Lookup(carried).to_string(),
                "Request not found at https://example.com/missing: VcrRequest { method: GET, \
                 url: https://example.com/missing, headers: {}, body: Str() }"
            );
        }
        other => panic!("unexpected: {:?}", other),
    }
}

#[test]
fn the_request_that_failed_is_carried_as_it_was_matched() {
    let mut cassettes = Cassettes::new();
    let (vcr, _) = VcrMiddleware::new(VcrMode::Replay, "a.yml", &mut cassettes);
    cassettes.load(vcr.get_file(), SIMPLE).unwrap();
    let vcr = vcr.with_modify_request(hide_session_key);
    let request = VcrRequest::from_request(
        "GET",
        "https://example.com/",
        &lines(&[("session-key", &["abc"])]),
        b"",
    );
    match vcr.handle(&cassettes, request) {
        Handling::Fail(VcrError::Lookup(carried)) => {
            assert_eq!(carried.headers.get("session-key"), Some(&values(&["(some key)"])));
        }
        other => panic!("unexpected: {:?}", other),
    }
}

#[test]
fn replaying_a_request_twice_gives_the_first_recording_twice() {
    let a = VcrRequest::from_request("GET", "https://example.com/a", &lines(&[]), b"");
    let b = VcrRequest::from_request("GET", "https://example.com/b", &lines(&[]), b"");
    let mut cassettes = Cassettes::new();
    let (recorder, _) = VcrMiddleware::new(VcrMode::Record, "abc.yml", &mut cassettes);
    let mut file = String::new();
    for (request, body) in [(&a, "R1"), (&b, "R2"), (&a, "R3")] {
        let response = VcrResponse::try_from_response(200, None, &lines(&[]), body.as_bytes());
        file.push_str(&recorder.record(request, response).unwrap().document);
    }
    let (vcr, opening) = VcrMiddleware::new(VcrMode::Replay, "abc.yml", &mut cassettes);
    assert_eq!(opening, Opening::ReadFile);
    cassettes.load(vcr.get_file(), &file).unwrap();
    assert_eq!(cassettes.session("abc.yml").unwrap().len(), 3);
    for _ in 0..2 {
        match vcr.handle(&cassettes, a.clone()) {
            Handling::Respond(response) => assert_eq!(response.body.to_bytes(), b"R1".to_vec()),
            other => panic!("unexpected: {:?}", other),
        }
    }
    match vcr.handle(&cassettes, b.clone()) {
        Handling::Respond(response) => assert_eq!(response.body.to_bytes(), b"R2".to_vec()),
        other => panic!("unexpected: {:?}", other),
    }
}

#[test]
fn what_is_written_down_is_changed_and_what_came_in_is_not() {
    let mut cassettes = Cassettes::new();
    let (vcr, _) = VcrMiddleware::new(VcrMode::Record, "a.yml", &mut cassettes);
    let vcr = vcr.with_modify_response(hide_cookie);
    let request = VcrRequest::from_request("GET", "https://example.com/", &lines(&[]), b"");
    let live = VcrResponse::try_from_response(
        200,
        None,
        &lines(&[("set-cookie", &["id=12345"]), ("x", &["y"])]),
        b"hello",
    );
    let forwarded = match vcr.handle(&cassettes, request) {
        Handling::Forward(forwarded) => forwarded,
        other => panic!("unexpected: {:?}", other),
    };
    let recorded = vcr.record(&forwarded, live.clone()).unwrap();
    assert_eq!(live.headers.get("set-cookie"), Some(&values(&["id=12345"])));
    assert_eq!(recorded.response.headers.get("set-cookie"), Some(&values(&["(erased)"])));
    assert_eq!(recorded.response.headers.get("x"), Some(&values(&["y"])));
    assert!(recorded.document.contains("(erased)"));
    assert!(!recorded.document.contains("id=12345"));
    let session = decode_stream(&recorded.document).unwrap();
    assert_eq!(session.response(0).headers.get("set-cookie"), Some(&values(&["(erased)"])));
}

#[test]
fn two_recordings_in_one_file_are_both_found() {
    let mut cassettes = Cassettes::new();
    let (one, _) = VcrMiddleware::new(VcrMode::Record, "shared.yml", &mut cassettes);
    let (two, _) = VcrMiddleware::new(VcrMode::Record, "shared.yml", &mut cassettes);
    let first = VcrRequest::from_request("GET", "https://example.com/1", &lines(&[]), b"");
    let second = VcrRequest::from_request("GET", "https://example.com/2", &lines(&[]), b"");
    let answer_one = VcrResponse::try_from_response(200, None, &lines(&[]), b"one");
    let answer_two = VcrResponse::try_from_response(200, None, &lines(&[]), b"two");
    let mut file = String::new();
    file.push_str(&two.record(&second, answer_two.clone()).unwrap().document);
    file.push_str(&one.record(&first, answer_one.clone()).unwrap().document);
    let session = decode_stream(&file).unwrap();
    assert_eq!(session.len(), 2);
    assert!(session.response(session.lookup(&first).unwrap()).eq(&answer_one));
    assert!(session.response(session.lookup(&second).unwrap()).eq(&answer_two));
}

#[test]
fn record_then_replay() {
    let path = "end-to-end.yml";
    let mut cassettes = Cassettes::new();
    let (recorder, opening) = VcrMiddleware::new(VcrMode::Record, path, &mut cassettes);
    assert_eq!(opening, Opening::Ready);
    let request = VcrRequest::from_request("GET", "https://example.com/", &lines(&[]), b"");
    let forwarded = match recorder.handle(&cassettes, request.clone()) {
        Handling::Forward(forwarded) => forwarded,
        other => panic!("unexpected: {:?}", other),
    };
    let stub = VcrResponse::try_from_response(200, None, &lines(&[("X", &["v"])]), b"hello");
    let file = recorder.record(&forwarded, stub).unwrap().document;

    let (player, opening) = VcrMiddleware::new(VcrMode::Replay, path, &mut cassettes);
    assert_eq!(opening, Opening::ReadFile);
    cassettes.load(player.get_file(), &file).unwrap();
    match player.handle(&cassettes, request) {
        Handling::Respond(response) => {
            assert_eq!(response.status, 200);
            assert_eq!(response.headers.get("X"), Some(&values(&["v"])));
            assert_eq!(response.headers.len(), 1);
            match &response.body {
                Body::Str(text) => assert_eq!(text, "hello"),
                Body::Bytes(_) => panic!("text came back as bytes"),
            }
        }
        other => panic!("unexpected: {:?}", other),
    }
}

#[test]
fn errors_as_text() {
    assert_eq!(VcrError::File("no such file".to_string()).to_string(), "no such file");
    let parse = surf_vcr::ParseError { document: 2, message: "bad document".to_string() };
    assert_eq!(VcrError::Parse(parse).to_string(), "bad document");
}

#[test]
fn a_lookup_error_shows_the_request() {
    let request = VcrRequest::from_request(
        "POST",
        "https://example.com/up",
        &lines(&[("accept", &["a", "b"]), ("empty", &[]), ("x", &["1"])]),
        &[0u8, 9, 10, 99, 100, 255],
    );
    assert_eq!(
        VcrError::Lookup(request).to_string(),
        "Request not found at https://example.com/up: VcrRequest { method: POST, \
         url: https://example.com/up, headers: {accept: [a, b], empty: [], x: [1]}, \
         body: Bytes([0, 9, 10, 99, 100, 255]) }"
    );
}

#[test]
fn a_request_as_text() {
    let request = VcrRequest::from_request("GET", "https://example.com/", &lines(&[("k", &["v"])]), b"hi");
    assert_eq!(
        request.describe(),
        "VcrRequest { method: GET, url: https://example.com/, headers: {k: [v]}, body: Str(hi) }"
    );
    assert_eq!(request.headers.describe(), "{k: [v]}");
    assert_eq!(request.body.describe(), "Str(hi)");
    assert_eq!(Body::Bytes(vec![]).describe(), "Bytes([])");
    assert_eq!(Body::Bytes(vec![7]).describe(), "Bytes([7])");
}

#[test]
fn a_pair_that_is_not_written_as_http_writes_it_is_not_recorded() {
    let mut cassettes = Cassettes::new();
    let (vcr, _) = VcrMiddleware::new(VcrMode::Record, "a.yml", &mut cassettes);
    let good = VcrRequest::from_request("GET", "https://example.com/", &lines(&[]), b"");
    let answer = VcrResponse::try_from_response(200, None, &lines(&[]), b"");
    assert!(vcr.record(&good, answer.clone()).is_ok());
    for (method, url, status) in [
        ("get", "https://example.com/", 200),
        ("FETCH", "https://example.com/", 200),
        ("GET", "https://example.com", 200),
        ("GET", "/path/only", 200),
        ("GET", "https://example.com/", 299),
    ] {
        let request = VcrRequest::from_request(method, url, &lines(&[]), b"");
        let response = VcrResponse::try_from_response(status, None, &lines(&[]), b"");
        match vcr.record(&request, response) {
            Err(VcrError::Parse(error)) => assert_eq!(error.document, 0),
            other => panic!("unexpected: {:?}", other),
        }
    }
}

#[test]
fn a_modifier_that_spoils_the_status_stops_the_recording() {
    let mut cassettes = Cassettes::new();
    let (vcr, _) = VcrMiddleware::new(VcrMode::Record, "a.yml", &mut cassettes);
    let vcr = vcr.with_modify_response(|mut response: VcrResponse| {
        response.status = 1;
        response
    });
    let request = VcrRequest::from_request("GET", "https://example.com/", &lines(&[]), b"");
    let answer = VcrResponse::try_from_response(200, None, &lines(&[]), b"");
    assert!(matches!(vcr.record(&request, answer), Err(VcrError::Parse(_))));
}
