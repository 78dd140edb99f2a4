use surf_vcr::cassette::{
    confirm_pair, decode, decode_stream, encode, encode_stream, keeps_names, written_as_http,
};
use surf_vcr::codec::{decode_pair, encode_pair};
use surf_vcr::framing::split_documents;
use surf_vcr::yaml::Yaml;
use surf_vcr::{Body, Session, VcrError, VcrRequest, VcrResponse, Version};

fn values(list: &[&str]) -> Vec<String> {
    list.iter().map(|v| v.to_string()).collect()
}

fn lines(list: &[(&str, &[&str])]) -> Vec<(String, Vec<String>)> {
    list.iter().map(|(name, vs)| (name.to_string(), values(vs))).collect()
}

fn sample_request() -> VcrRequest {
    VcrRequest::from_request(
        "GET",
        "https://example.com/",
        &lines(&[("X", &["v"])]),
        b"",
    )
}

fn sample_response() -> VcrResponse {
    VcrResponse::try_from_response(200, None, &lines(&[("X", &["v"])]), b"hello")
}

const SAMPLE: &str = "---\n- Request:\n    method: GET\n    url: \"https://example.com/\"\n    headers:\n      X:\n        - v\n    body: \"\"\n- Response:\n    status: 200\n    version: ~\n    headers:\n      X:\n        - v\n    body: hello\n";

#[test]
fn the_document_of_a_pair() {
    assert_eq!(encode(&sample_request(), &sample_response()).unwrap(), SAMPLE);
}

#[test]
fn the_pair_of_a_document() {
    let (request, response) = decode(SAMPLE).unwrap();
    assert!(request.eq(&sample_request()));
    assert!(response.eq(&sample_response()));
    assert_eq!(request.method, "GET");
    assert_eq!(request.url, "https://example.com/");
    assert_eq!(response.status, 200);
    assert_eq!(response.version, None);
}

#[test]
fn a_pair_comes_back_from_its_document() {
    let request = VcrRequest::from_request(
        "POST",
        "https://example.com/upload?x=1&y=%20",
        &lines(&[
            ("content-type", &["application/octet-stream"]),
            ("accept", &["a", "b: c", "200", ""]),
            ("empty", &[]),
        ]),
        &[0u8, 159, 146, 150, 255],
    );
    let response = VcrResponse::try_from_response(
        404,
        Some(Version::Http1_1),
        &lines(&[("set-cookie", &["a=1; Path=/", "b=2"]), ("date", &["Fri, 28 May 2021 00:44:58 GMT"])]),
        "not found\n---\nreally: \"no\"\n".as_bytes(),
    );
    let document = encode(&request, &response).unwrap();
    let (read_request, read_response) = decode(&document).unwrap();
    assert!(read_request.eq(&request));
    assert!(read_response.eq(&response));
    assert_eq!(read_request.body.to_bytes(), vec![0u8, 159, 146, 150, 255]);
    assert!(matches!(read_request.body, Body::Bytes(_)));
    assert!(matches!(read_response.body, Body::Str(_)));
    assert_eq!(read_response.body.to_bytes(), "not found\n---\nreally: \"no\"\n".as_bytes().to_vec());
    assert_eq!(read_response.version, Some(Version::Http1_1));
    assert_eq!(read_request.headers.name_at(0), "content-type");
    assert_eq!(read_request.headers.name_at(2), "empty");
}

#[test]
fn every_version_comes_back() {
    for version in [
        Version::Http0_9,
        Version::Http1_0,
        Version::Http1_1,
        Version::Http2_0,
        Version::Http3_0,
    ] {
        let response = VcrResponse::try_from_response(200, Some(version), &lines(&[]), b"");
        let document = encode(&sample_request(), &response).unwrap();
        let (_, read) = decode(&document).unwrap();
        assert_eq!(read.version, Some(version));
        assert_eq!(Version::parse(version.as_str()), Some(version));
    }
    assert_eq!(Version::Http2_0.as_str(), "HTTP/2");
    assert_eq!(Version::Http1_1.as_str(), "HTTP/1.1");
    assert_eq!(Version::parse("HTTP/1.2"), None);
    assert_eq!(Version::parse("http/1.1"), None);
}

#[test]
fn the_tree_of_a_pair_comes_back_without_being_written() {
    let tree = encode_pair(&sample_request(), &sample_response());
    let (request, response) = decode_pair(&tree).unwrap();
    assert!(request.eq(&sample_request()));
    assert!(response.eq(&sample_response()));
}

#[test]
fn a_tree_that_is_no_pair_is_refused() {
    assert!(decode_pair(&Yaml::Null).is_none());
    assert!(decode_pair(&Yaml::Sequence(vec![])).is_none());
    let tree = encode_pair(&sample_request(), &sample_response());
    let items = match tree {
        Yaml::Sequence(items) => items,
        _ => panic!("the document is no sequence"),
    };
    let mut swapped = items;
    swapped.reverse();
    assert!(decode_pair(&Yaml::Sequence(swapped)).is_none());
}

#[test]
fn the_method_is_taken_under_its_own_name() {
    let document = SAMPLE.replace("method: GET", "method: get");
    let (request, _) = decode(&document).unwrap();
    assert_eq!(request.method, "GET");
    assert!(request.eq(&sample_request()));
}

#[test]
fn the_url_is_taken_in_its_own_text() {
    let document = SAMPLE.replace("https://example.com/", "HTTPS://Example.com");
    let (request, _) = decode(&document).unwrap();
    assert_eq!(request.url, "https://example.com/");
    assert!(request.eq(&sample_request()));
}

#[test]
fn a_method_that_http_does_not_know_is_refused() {
    assert!(decode(&SAMPLE.replace("method: GET", "method: FETCH")).is_err());
}

#[test]
fn a_url_that_is_not_absolute_is_refused() {
    assert!(decode(&SAMPLE.replace("\"https://example.com/\"", "/just/a/path")).is_err());
}

#[test]
fn a_status_that_http_does_not_know_is_refused() {
    assert!(decode(&SAMPLE.replace("status: 200", "status: 299")).is_err());
    assert!(decode(&SAMPLE.replace("status: 200", "status: 70000")).is_err());
    assert!(decode(&SAMPLE.replace("status: 200", "status: ok")).is_err());
    assert!(decode(&SAMPLE.replace("status: 200", "status: 404")).is_ok());
}

#[test]
fn a_document_without_a_needed_field_is_refused() {
    assert!(decode(&SAMPLE.replace("    method: GET\n", "")).is_err());
    assert!(decode(&SAMPLE.replace("    status: 200\n", "")).is_err());
    assert!(decode(&SAMPLE.replace("    body: hello\n", "")).is_err());
}

#[test]
fn the_version_may_be_left_out() {
    let (_, response) = decode(&SAMPLE.replace("    version: ~\n", "")).unwrap();
    assert_eq!(response.version, None);
    let (_, response) = decode(&SAMPLE.replace("version: ~", "version: HTTP/2")).unwrap();
    assert_eq!(response.version, Some(Version::Http2_0));
    assert!(decode(&SAMPLE.replace("version: ~", "version: HTTP/7")).is_err());
}

#[test]
fn other_fields_are_passed_over() {
    let document = SAMPLE.replace("    status: 200\n", "    status: 200\n    note: kept by hand\n");
    let (_, response) = decode(&document).unwrap();
    assert!(response.eq(&sample_response()));
}

#[test]
fn request_and_response_are_told_apart_by_their_tags() {
    let swapped = SAMPLE.replace("- Request:", "- Temp:").replace("- Response:", "- Request:").replace("- Temp:", "- Response:");
    assert!(decode(&swapped).is_err());
    assert!(decode(&SAMPLE.replace("- Request:", "- request:")).is_err());
}

#[test]
fn a_body_is_a_string_or_a_sequence_of_bytes() {
    let (_, response) = decode(&SAMPLE.replace("body: hello", "body:\n      - 104\n      - 105")).unwrap();
    assert!(matches!(response.body, Body::Bytes(_)));
    assert_eq!(response.body.to_bytes(), b"hi".to_vec());
    assert!(decode(&SAMPLE.replace("body: hello", "body:\n      - 104\n      - 256")).is_err());
    assert!(decode(&SAMPLE.replace("body: hello", "body: 12")).is_err());
    assert!(decode(&SAMPLE.replace("body: hello", "body: ~")).is_err());
}

#[test]
fn names_that_were_not_given_refuse_the_pair() {
    let ok = confirm_pair(
        sample_request(),
        sample_response(),
        Some("PUT".to_string()),
        Some("https://example.org/".to_string()),
        true,
    );
    let (request, response) = ok.unwrap();
    assert_eq!(request.method, "PUT");
    assert_eq!(request.url, "https://example.org/");
    assert!(request.headers.eq(&sample_request().headers));
    assert!(response.eq(&sample_response()));
    assert!(confirm_pair(sample_request(), sample_response(), None, Some("u".to_string()), true).is_none());
    assert!(confirm_pair(sample_request(), sample_response(), Some("GET".to_string()), None, true).is_none());
    assert!(confirm_pair(
        sample_request(),
        sample_response(),
        Some("GET".to_string()),
        Some("u".to_string()),
        false
    )
    .is_none());
}

#[test]
fn an_empty_text_holds_no_pair() {
    let session = decode_stream("").unwrap();
    assert_eq!(session.len(), 0);
}

#[test]
fn the_pairs_of_a_text_in_their_order() {
    let other = SAMPLE.replace("body: hello", "body: goodbye").replace("method: GET", "method: PUT");
    let text = format!("{}{}", SAMPLE, other);
    let session = decode_stream(&text).unwrap();
    assert_eq!(session.len(), 2);
    assert!(session.request(0).eq(&sample_request()));
    assert!(session.response(0).eq(&sample_response()));
    assert_eq!(session.request(1).method, "PUT");
    assert_eq!(session.response(1).body.to_bytes(), b"goodbye".to_vec());
}

#[test]
fn the_first_bad_document_is_named() {
    let text = format!("{}{}{}", SAMPLE, "---\n- not a pair\n", "---\nnor: this\n");
    match decode_stream(&text) {
        Err(VcrError::Parse(error)) => {
            assert_eq!(error.document, 1);
            assert!(!error.message.is_empty());
        }
        other => panic!("unexpected: {:?}", other),
    }
    match decode_stream("a: [1") {
        Err(VcrError::Parse(error)) => assert_eq!(error.document, 0),
        other => panic!("unexpected: {:?}", other),
    }
    match decode_stream(&format!("{}\n---\n", SAMPLE)) {
        Err(VcrError::Parse(error)) => assert_eq!(error.document, 1),
        other => panic!("unexpected: {:?}", other),
    }
}

#[test]
fn a_session_is_written_with_separators_and_read_back() {
    let mut session = Session::new();
    assert_eq!(encode_stream(&session).unwrap(), "");
    session.push(sample_request(), sample_response());
    assert_eq!(encode_stream(&session).unwrap(), SAMPLE);
    let second = VcrRequest::from_request("PUT", "https://example.com/b", &lines(&[]), &[200u8]);
    session.push(second.clone(), sample_response());
    let text = encode_stream(&session).unwrap();
    assert_eq!(text, format!("{}\n---\n{}", SAMPLE, encode(&second, &sample_response()).unwrap()));
    let read = decode_stream(&text).unwrap();
    assert_eq!(read.len(), 2);
    assert!(read.request(0).eq(&sample_request()));
    assert!(read.request(1).eq(&second));
    assert!(read.response(1).eq(&sample_response()));
}

#[test]
fn a_pair_is_written_as_http_writes_it_or_not() {
    assert!(written_as_http(&sample_request(), &sample_response()));
    let lower = VcrRequest::from_request("get", "https://example.com/", &lines(&[]), b"");
    assert!(!written_as_http(&lower, &sample_response()));
    let bare = VcrRequest::from_request("GET", "https://example.com", &lines(&[]), b"");
    assert!(!written_as_http(&bare, &sample_response()));
    let odd = VcrResponse::try_from_response(299, None, &lines(&[]), b"");
    assert!(!written_as_http(&sample_request(), &odd));
}

#[test]
fn names_are_kept_where_they_are_the_pairs_own() {
    let method = Some("GET".to_string());
    let url = Some("https://example.com/".to_string());
    assert!(keeps_names(&sample_request(), &sample_response(), &method, &url, true));
    assert!(!keeps_names(&sample_request(), &sample_response(), &method, &url, false));
    assert!(!keeps_names(&sample_request(), &sample_response(), &None, &url, true));
    assert!(!keeps_names(&sample_request(), &sample_response(), &method, &None, true));
    let other = Some("PUT".to_string());
    assert!(!keeps_names(&sample_request(), &sample_response(), &other, &url, true));
}

#[test]
fn what_was_read_from_a_document_is_written_as_http_writes_it() {
    let document = SAMPLE.replace("method: GET", "method: get").replace("https://example.com/", "HTTPS://Example.com");
    let (request, response) = decode(&document).unwrap();
    assert!(written_as_http(&request, &response));
}

#[test]
fn documents_added_to_a_file_are_read_back_in_their_order() {
    let requests = [
        VcrRequest::from_request("GET", "https://example.com/1", &lines(&[("a", &["---", "x"])]), b"---\n---\n"),
        VcrRequest::from_request("PUT", "https://example.com/2", &lines(&[]), &[255u8, 10, 45, 45, 45, 10]),
        VcrRequest::from_request("GET", "https://example.com/3", &lines(&[]), b""),
    ];
    let mut file = String::new();
    let mut documents = Vec::new();
    for request in requests.iter() {
        let document = encode(request, &sample_response()).unwrap();
        assert!(document.starts_with("---\n"));
        assert!(document.ends_with('\n'));
        file.push_str(&document);
        documents.push(document);
    }
    let chunks = split_documents(&file);
    assert_eq!(chunks.len(), 3);
    assert_eq!(chunks[0], documents[0][..documents[0].len() - 1]);
    assert_eq!(chunks[1], documents[1][4..documents[1].len() - 1]);
    assert_eq!(chunks[2], documents[2][4..]);
    for chunk in chunks.iter() {
        assert!(!chunk.contains("\n---"));
    }
    let session = decode_stream(&file).unwrap();
    assert_eq!(session.len(), 3);
    for (i, request) in requests.iter().enumerate() {
        assert_eq!(session.request(i), request);
        assert_eq!(session.response(i), &sample_response());
    }
}
