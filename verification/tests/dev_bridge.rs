use mindback::dev_bridge::{
    content_length, header_end, parse_http_request, percent_decode, reason_phrase, route,
    split_uri, thumbnail_data_url, DevBridgeRequest, HttpResponse, Route,
};

#[test]
fn parses_query_value_with_encoded_slash() {
    let request = parse_http_request(
        "GET /api/today-thumbnail?screenshot_thumb=thumbs%2Fone.jpg HTTP/1.1\r\n\r\n",
    )
    .unwrap();

    assert_eq!(
        request.query_value("screenshot_thumb"),
        Some("thumbs/one.jpg".to_string())
    );
}

#[test]
fn percent_decoding_handles_plus_and_bad_escapes() {
    assert_eq!(percent_decode("a+b%20c"), "a b c");
    assert_eq!(percent_decode("%zz1"), "%zz1");
    assert_eq!(percent_decode("%+5x"), "\u{5}x");
    assert_eq!(percent_decode("end%4"), "end%");
    assert_eq!(percent_decode("%"), "%");
    assert_eq!(percent_decode("%41%42"), "AB");
}

#[test]
fn query_value_takes_the_first_matching_pair() {
    let request = DevBridgeRequest::new("GET", "/x?a=1&b=2&a=3&c", "");
    assert_eq!(request.path, "/x");
    assert_eq!(request.query, "a=1&b=2&a=3&c");
    assert_eq!(request.query_value("a"), Some("1".to_string()));
    assert_eq!(request.query_value("b"), Some("2".to_string()));
    assert_eq!(request.query_value("c"), None);
    assert_eq!(request.query_value("missing"), None);
}

#[test]
fn uri_without_query_has_empty_query() {
    assert_eq!(split_uri("/api/status"), ("/api/status".to_string(), String::new()));
    assert_eq!(split_uri("/a?b?c"), ("/a".to_string(), "b?c".to_string()));
}

#[test]
fn malformed_requests_name_what_is_missing() {
    assert_eq!(
        parse_http_request("GET / HTTP/1.1\r\n").unwrap_err(),
        "invalid HTTP request"
    );
    assert_eq!(
        parse_http_request("\r\n\r\nbody").unwrap_err(),
        "missing request line"
    );
    assert_eq!(
        parse_http_request("   \r\nHost: x\r\n\r\n").unwrap_err(),
        "missing request method"
    );
    assert_eq!(
        parse_http_request("GET\r\n\r\n").unwrap_err(),
        "missing request uri"
    );
    let ok = parse_http_request("POST  /api/config?x=1 HTTP/1.1\r\nA: b\r\n\r\n{\"k\":1}").unwrap();
    assert_eq!(ok.method, "POST");
    assert_eq!(ok.path, "/api/config");
    assert_eq!(ok.query, "x=1");
    assert_eq!(ok.body, "{\"k\":1}");
}

#[test]
fn content_length_reads_the_first_usable_header() {
    assert_eq!(content_length("GET / HTTP/1.1\r\nContent-Length: 42\r\n"), 42);
    assert_eq!(content_length("GET / HTTP/1.1\r\ncontent-LENGTH:\t+7 \r\n"), 7);
    assert_eq!(
        content_length("GET / HTTP/1.1\r\nContent-Length: x\r\nContent-Length: 5"),
        5
    );
    assert_eq!(content_length("GET / HTTP/1.1\r\nHost: a"), 0);
    assert_eq!(content_length("Content-Length: 99999999999999999999999"), 0);
}

#[test]
fn header_end_finds_the_blank_line() {
    assert_eq!(header_end(b"GET / HTTP/1.1\r\n\r\nbody"), Some(14));
    assert_eq!(header_end(b"GET / HTTP/1.1\r\n"), None);
    assert_eq!(header_end(b"\r\n\r"), None);
}

#[test]
fn routes_follow_method_and_path() {
    let r = |m: &str, u: &str| route(&DevBridgeRequest::new(m, u, ""));
    assert_eq!(r("OPTIONS", "/anything"), Route::Preflight);
    assert_eq!(r("GET", "/api/config"), Route::GetConfig);
    assert_eq!(r("POST", "/api/config"), Route::SaveConfig);
    assert_eq!(r("GET", "/api/status"), Route::GetStatus);
    assert_eq!(r("POST", "/api/start-recording"), Route::StartRecording);
    assert_eq!(r("POST", "/api/stop-recording"), Route::StopRecording);
    assert_eq!(r("POST", "/api/record-once"), Route::RecordOnce);
    assert_eq!(r("GET", "/api/today-entries"), Route::TodayEntries);
    assert_eq!(
        r("GET", "/api/today-thumbnail?screenshot_thumb=a.jpg"),
        Route::TodayThumbnail
    );
    assert_eq!(r("POST", "/api/summary"), Route::WriteSummary);
    assert_eq!(r("GET", "/api/summary-blocks"), Route::SummaryBlocks);
    assert_eq!(
        r("POST", "/api/summarize-previous-half-hour"),
        Route::SummarizePreviousHalfHour
    );
    assert_eq!(r("GET", "/api/summary"), Route::NotFound);
    assert_eq!(r("DELETE", "/api/config"), Route::NotFound);
}

#[test]
fn response_head_carries_status_and_length() {
    assert_eq!(reason_phrase(200), "OK");
    assert_eq!(reason_phrase(204), "No Content");
    assert_eq!(reason_phrase(404), "Not Found");
    assert_eq!(reason_phrase(500), "Internal Server Error");
    let response = HttpResponse::text(404, "not found");
    assert_eq!(
        response.head(),
        "HTTP/1.1 404 Not Found\r\nContent-Type: text/plain; charset=utf-8\r\nContent-Length: 9\r\nAccess-Control-Allow-Origin: *\r\nAccess-Control-Allow-Methods: GET, POST, OPTIONS\r\nAccess-Control-Allow-Headers: Content-Type\r\nConnection: close\r\n\r\n"
    );
    let empty = HttpResponse::empty(204);
    assert_eq!(empty.body, "");
    let json = HttpResponse::json("[]".to_string());
    assert_eq!(json.status_code, 200);
    assert_eq!(json.content_type, "application/json; charset=utf-8");
    let wide = HttpResponse::text(200, "符合");
    assert!(wide.head().contains("Content-Length: 6\r\n"));
}

#[test]
fn thumbnail_becomes_base64_data_url() {
    assert_eq!(thumbnail_data_url(&[1, 2, 3]), "data:image/jpeg;base64,AQID");
    assert_eq!(thumbnail_data_url(b"hi"), "data:image/jpeg;base64,aGk=");
    assert_eq!(thumbnail_data_url(&[]), "data:image/jpeg;base64,");
    assert_eq!(thumbnail_data_url(&[0xff, 0xfe, 0xfd, 0x3e]), "data:image/jpeg;base64,//79Pg==");
}
