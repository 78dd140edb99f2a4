use surf_vcr::{Cassettes, Opening, Session, VcrError, VcrRequest, VcrResponse};

const ONE: &str = "---\n- Request:\n    method: GET\n    url: \"https://example.com/\"\n    headers: {}\n    body: \"\"\n- Response:\n    status: 200\n    version: ~\n    headers: {}\n    body: one\n";

const TWO: &str = "---\n- Request:\n    method: GET\n    url: \"https://example.com/\"\n    headers: {}\n    body: \"\"\n- Response:\n    status: 200\n    version: ~\n    headers: {}\n    body: two\n";

fn get() -> VcrRequest {
    VcrRequest::from_request("GET", "https://example.com/", &vec![], b"")
}

fn answer(body: &str) -> VcrResponse {
    VcrResponse::try_from_response(200, None, &vec![], body.as_bytes())
}

#[test]
fn a_file_that_is_not_loaded_has_to_be_read() {
    let cassettes = Cassettes::new();
    assert_eq!(cassettes.open_for_replay("a.yml"), Opening::ReadFile);
    assert!(cassettes.session("a.yml").is_none());
}

#[test]
fn a_loaded_file_is_not_read_again() {
    let mut cassettes = Cassettes::new();
    cassettes.load("a.yml", ONE).unwrap();
    assert_eq!(cassettes.open_for_replay("a.yml"), Opening::Ready);
    assert_eq!(cassettes.open_for_replay("a.yml"), Opening::Ready);
    let session = cassettes.session("a.yml").unwrap();
    assert_eq!(session.len(), 1);
    assert!(session.response(0).eq(&answer("one")));
    assert_eq!(cassettes.open_for_replay("b.yml"), Opening::ReadFile);
}

#[test]
fn other_files_do_not_touch_a_loaded_session() {
    let mut cassettes = Cassettes::new();
    cassettes.load("a.yml", ONE).unwrap();
    cassettes.load("b.yml", TWO).unwrap();
    cassettes.open_for_record("c.yml");
    assert_eq!(cassettes.open_for_replay("a.yml"), Opening::Ready);
    assert!(cassettes.session("a.yml").unwrap().response(0).eq(&answer("one")));
    assert!(cassettes.session("b.yml").unwrap().response(0).eq(&answer("two")));
}

#[test]
fn paths_are_told_apart_letter_by_letter() {
    let mut cassettes = Cassettes::new();
    cassettes.load("a.yml", ONE).unwrap();
    assert_eq!(cassettes.open_for_replay("A.yml"), Opening::ReadFile);
    assert_eq!(cassettes.open_for_replay("./a.yml"), Opening::ReadFile);
}

#[test]
fn a_file_open_for_recording_has_no_session() {
    let mut cassettes = Cassettes::new();
    cassettes.open_for_record("a.yml");
    assert!(cassettes.session("a.yml").is_none());
    assert_eq!(cassettes.open_for_replay("a.yml"), Opening::ReadFile);
}

#[test]
fn opening_for_recording_drops_the_loaded_session() {
    let mut cassettes = Cassettes::new();
    cassettes.load("a.yml", ONE).unwrap();
    cassettes.open_for_record("a.yml");
    assert!(cassettes.session("a.yml").is_none());
    assert_eq!(cassettes.open_for_replay("a.yml"), Opening::ReadFile);
    cassettes.load("a.yml", TWO).unwrap();
    assert!(cassettes.session("a.yml").unwrap().response(0).eq(&answer("two")));
}

#[test]
fn a_text_that_cannot_be_read_leaves_the_registry_as_it_is() {
    let mut cassettes = Cassettes::new();
    cassettes.load("a.yml", ONE).unwrap();
    match cassettes.load("a.yml", "- no pair") {
        Err(VcrError::Parse(error)) => assert_eq!(error.document, 0),
        other => panic!("unexpected: {:?}", other),
    }
    assert!(cassettes.session("a.yml").unwrap().response(0).eq(&answer("one")));
    assert!(cassettes.load("b.yml", "- no pair").is_err());
    assert_eq!(cassettes.open_for_replay("b.yml"), Opening::ReadFile);
}

#[test]
fn the_first_of_equal_requests_is_found_every_time() {
    let other = VcrRequest::from_request("GET", "https://example.com/other", &vec![], b"");
    let mut session = Session::new();
    session.push(get(), answer("R1"));
    session.push(other.clone(), answer("R2"));
    session.push(get(), answer("R3"));
    assert_eq!(session.len(), 3);
    assert_eq!(session.lookup(&get()), Some(0));
    assert_eq!(session.lookup(&get()), Some(0));
    assert_eq!(session.lookup(&other), Some(1));
    assert!(session.response(session.lookup(&get()).unwrap()).eq(&answer("R1")));
}

#[test]
fn a_request_that_was_not_recorded_is_not_found() {
    let mut session = Session::new();
    assert_eq!(session.lookup(&get()), None);
    session.push(get(), answer("R1"));
    for request in [
        VcrRequest::from_request("POST", "https://example.com/", &vec![], b""),
        VcrRequest::from_request("GET", "https://example.com/x", &vec![], b""),
        VcrRequest::from_request("GET", "https://example.com/", &vec![("a".to_string(), vec![])], b""),
        VcrRequest::from_request("GET", "https://example.com/", &vec![], b"body"),
    ] {
        assert_eq!(session.lookup(&request), None);
    }
}
