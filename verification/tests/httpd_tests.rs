use bgfreeze::httpd::{
    api_route, decide_action, find_header_end, logs_count, mime_of, parse_request_head, preflight_response,
    reason_phrase, reply, response_head, route, static_segments, update_command, Action,
    ActionError, Answer, ApiRoute, ReadState, Route, MAX_HEAD_BYTES,
};

#[test]
fn header_end() {
    assert_eq!(find_header_end(b"GET / HTTP/1.1\r\nHost: x\r\n\r\nbody"), Some(23));
    assert_eq!(find_header_end(b"\r\n\r\n"), Some(0));
    assert_eq!(find_header_end(b"GET / HTTP/1.1\r\n"), None);
    assert_eq!(find_header_end(b""), None);
}

#[test]
fn request_head() {
    let h = parse_request_head(b"POST /api/config?x=1&n=2 HTTP/1.1\r\nHost: a\r\nContent-Length: 17").unwrap();
    assert_eq!(h.method, "POST");
    assert_eq!(h.path, "/api/config");
    assert_eq!(h.query, "x=1&n=2");
    assert_eq!(h.content_len, 17);
    let h = parse_request_head(b"GET /index.html HTTP/1.1\r\ncontent-LENGTH:  5 \r\nContent-Length: 9").unwrap();
    assert_eq!(h.path, "/index.html");
    assert_eq!(h.query, "");
    assert_eq!(h.content_len, 5);
    let h = parse_request_head(b"GET / HTTP/1.1\r\nContent-Length: x\r\nContent-Length: 3").unwrap();
    assert_eq!(h.content_len, 3);
    let h = parse_request_head(b"  GET   /a?b?c  ").unwrap();
    assert_eq!(h.method, "GET");
    assert_eq!(h.path, "/a");
    assert_eq!(h.query, "b?c");
    assert_eq!(h.content_len, 0);
    assert!(parse_request_head(b"GET").is_none());
    assert!(parse_request_head(b"").is_none());
}

#[test]
fn routing() {
    assert_eq!(route("OPTIONS", "/api/status"), Route::Preflight);
    assert_eq!(route("GET", "/api/status"), Route::Api);
    assert_eq!(route("GET", "/api"), Route::Static);
    assert_eq!(route("GET", "/"), Route::Static);
    assert_eq!(api_route("GET", "/api/status"), ApiRoute::Status);
    assert_eq!(api_route("GET", "/api/logs"), ApiRoute::Logs);
    assert_eq!(api_route("GET", "/api/config"), ApiRoute::ConfigGet);
    assert_eq!(api_route("POST", "/api/config"), ApiRoute::ConfigPost);
    assert_eq!(api_route("PUT", "/api/config"), ApiRoute::MethodNotAllowed);
    assert_eq!(api_route("POST", "/api/action"), ApiRoute::Action);
    assert_eq!(api_route("GET", "/api/other"), ApiRoute::NotFound);
}

#[test]
fn log_counts() {
    assert_eq!(logs_count(""), 200);
    assert_eq!(logs_count("n=5"), 200);
    assert_eq!(logs_count("n=500"), 500);
    assert_eq!(logs_count("n=5000"), 1000);
    assert_eq!(logs_count("a=1&n=700&n=300"), 700);
    assert_eq!(logs_count("n=x&n=700"), 200);
    assert_eq!(logs_count("nn=700"), 200);
}

fn act(body: &str) -> Result<Action, ActionError> {
    decide_action(body.as_bytes())
}

#[test]
fn actions() {
    assert!(matches!(act(r#"{"action":"unfreeze_all"}"#), Ok(Action::UnfreezeAll)));
    assert!(matches!(act(r#"{"action":"freeze_all"}"#), Ok(Action::FreezeAll)));
    match act(r#"{"action":"freeze_app","package":"com.tencent.mm"}"#) {
        Ok(Action::FreezeApp(p)) => assert_eq!(p, "com.tencent.mm"),
        _ => panic!("freeze_app"),
    }
    match act(r#"{"action":"unfreeze_app"}"#) {
        Ok(Action::UnfreezeApp(p)) => assert_eq!(p, ""),
        _ => panic!("unfreeze_app"),
    }
    match act(r#"{"action":"update","url":"https://x/y.zip"}"#) {
        Ok(Action::Update { url, file }) => {
            assert_eq!(url, "https://x/y.zip");
            assert_eq!(file, "bgfreeze-R-update.zip");
        },
        _ => panic!("update"),
    }
    match act(r#"{"action":"update","url":"u","file":"m.zip"}"#) {
        Ok(Action::Update { file, .. }) => assert_eq!(file, "m.zip"),
        _ => panic!("update file"),
    }
    assert!(matches!(act(r#"{"action":"uninstall"}"#), Ok(Action::Uninstall)));
    assert!(matches!(act(r#"{"action":"reboot"}"#), Ok(Action::Reboot)));
}

#[test]
fn refused_actions() {
    assert_eq!(act("").unwrap_err(), ActionError::EmptyBody);
    assert_eq!(act(r#"{"action":"update"}"#).unwrap_err(), ActionError::NoUrl);
    assert_eq!(act(r#"{"action":"update","url":""}"#).unwrap_err(), ActionError::NoUrl);
    assert_eq!(act(r#"{"action":"dance"}"#).unwrap_err(), ActionError::UnknownAction);
    assert_eq!(act("not json").unwrap_err(), ActionError::UnknownAction);
    assert_eq!(act(r#"{"action":5}"#).unwrap_err(), ActionError::UnknownAction);
}

#[test]
fn update_shell_command() {
    assert_eq!(
        update_command("m.zip", "https://h/m.zip"),
        "f=/sdcard/Download/m.zip; (command -v curl >/dev/null 2>&1 && curl -ksSL -o \"$f\" 'https://h/m.zip') || (command -v wget >/dev/null 2>&1 && wget -q -O \"$f\" 'https://h/m.zip'); ls -l \"$f\"; /data/adb/ksud module install \"$f\" 2>&1 | tail -3"
    );
}

#[test]
fn response_heads() {
    assert_eq!(reason_phrase(200), "OK");
    assert_eq!(reason_phrase(204), "No Content");
    assert_eq!(reason_phrase(400), "Bad Request");
    assert_eq!(reason_phrase(403), "Forbidden");
    assert_eq!(reason_phrase(404), "Not Found");
    assert_eq!(reason_phrase(405), "Method Not Allowed");
    assert_eq!(reason_phrase(500), "OK");
    assert_eq!(
        response_head(404, "text/plain", 9),
        "HTTP/1.1 404 Not Found\r\nAccess-Control-Allow-Origin: *\r\nContent-Type: text/plain; charset=utf-8\r\nContent-Length: 9\r\nConnection: close\r\n\r\n"
    );
}

#[test]
fn static_paths() {
    assert_eq!(static_segments("/"), vec!["index.html".to_string()]);
    assert_eq!(static_segments("/css/app.css"), vec!["css".to_string(), "app.css".to_string()]);
    assert_eq!(static_segments("//../a/./b//c/.."), vec!["a".to_string(), "b".to_string(), "c".to_string()]);
    assert_eq!(static_segments("/.../x"), vec!["...".to_string(), "x".to_string()]);
    assert!(static_segments("").is_empty());
}

#[test]
fn mime_types() {
    assert_eq!(mime_of("index.html"), "text/html");
    assert_eq!(mime_of("a.css"), "text/css");
    assert_eq!(mime_of("app.min.js"), "application/javascript");
    assert_eq!(mime_of("i.svg"), "image/svg+xml");
    assert_eq!(mime_of("i.png"), "image/png");
    assert_eq!(mime_of("d.json"), "application/json");
    assert_eq!(mime_of("f.woff2"), "font/woff2");
    assert_eq!(mime_of("p.jpg"), "image/jpeg");
    assert_eq!(mime_of("p.jpeg"), "image/jpeg");
    assert_eq!(mime_of("P.JPG"), "application/octet-stream");
    assert_eq!(mime_of(".html"), "application/octet-stream");
    assert_eq!(mime_of("x.tar.html"), "text/html");
    assert_eq!(mime_of("README"), "application/octet-stream");
    assert_eq!(mime_of(""), "application/octet-stream");
}

#[test]
fn request_read_in_pieces() {
    let mut st = ReadState::start();
    assert!(st.wants_more());
    st = st.on_data(b"POST /api/action HTTP/1.1\r\nContent-Le");
    assert!(st.wants_more());
    st = st.on_data(b"ngth: 9\r\n\r\n{\"a\":");
    assert!(st.wants_more());
    st = st.on_data(b"\"b\"}");
    assert!(!st.wants_more());
    let req = st.finish().unwrap();
    assert_eq!(req.head.method, "POST");
    assert_eq!(req.head.path, "/api/action");
    assert_eq!(req.head.content_len, 9);
    assert_eq!(req.body, b"{\"a\":\"b\"}".to_vec());
}

#[test]
fn request_without_body_is_done_at_head() {
    let st = ReadState::start().on_data(b"GET /index.html?x=1 HTTP/1.1\r\nHost: a\r\n\r\n");
    assert!(!st.wants_more());
    let req = st.finish().unwrap();
    assert_eq!(req.head.path, "/index.html");
    assert_eq!(req.head.query, "x=1");
    assert!(req.body.is_empty());
}

#[test]
fn unfinished_or_bad_heads_give_no_request() {
    let st = ReadState::start().on_data(b"GET / HTTP/1.1\r\n");
    assert!(st.wants_more());
    assert!(st.finish().is_none());
    let st = ReadState::start().on_data(b"GARBAGE\r\n\r\n");
    assert!(!st.wants_more());
    assert!(st.finish().is_none());
}

#[test]
fn head_reading_stops_at_limit() {
    let big = vec![b'a'; MAX_HEAD_BYTES];
    let st = ReadState::start().on_data(&big);
    assert!(!st.wants_more());
    assert!(st.finish().is_none());
    assert_eq!(MAX_HEAD_BYTES, 512 * 1024);
}

#[test]
fn replies() {
    let r = reply(Answer::BadRequest);
    assert_eq!((r.code, r.ctype, r.body.as_str()), (400, "text/plain", "bad request"));
    let r = reply(Answer::ConfigSaved(true));
    assert_eq!((r.code, r.ctype, r.body.as_str()), (200, "application/json", "{\"ok\":true,\"saved\":true}"));
    let r = reply(Answer::ConfigSaved(false));
    assert_eq!(r.body, "{\"ok\":true,\"saved\":false}");
    let r = reply(Answer::ConfigRejected("EOF while parsing".to_string()));
    assert_eq!((r.code, r.body.as_str()), (400, "{\"ok\":false,\"error\":\"json: EOF while parsing\"}"));
    let r = reply(Answer::MethodNotAllowed);
    assert_eq!((r.code, r.ctype, r.body.as_str()), (405, "text/plain", "method not allowed"));
    let r = reply(Answer::Done);
    assert_eq!((r.code, r.body.as_str()), (200, "{\"ok\":true}"));
    let r = reply(Answer::Refused(ActionError::EmptyBody));
    assert_eq!((r.code, r.body.as_str()), (400, "{\"ok\":false,\"error\":\"empty body\"}"));
    let r = reply(Answer::Refused(ActionError::NoUrl));
    assert_eq!(r.body, "{\"ok\":false,\"error\":\"no url\"}");
    let r = reply(Answer::Refused(ActionError::UnknownAction));
    assert_eq!(r.body, "{\"ok\":false,\"error\":\"unknown action\"}");
    let r = reply(Answer::SpawnFailed);
    assert_eq!((r.code, r.body.as_str()), (500, "{\"ok\":false,\"error\":\"spawn\"}"));
    let r = reply(Answer::UninstallFailed);
    assert_eq!((r.code, r.body.as_str()), (500, "{\"ok\":false,\"error\":\"run\"}"));
    let r = reply(Answer::RebootTried(false));
    assert_eq!((r.code, r.body.as_str()), (200, "{\"ok\":false}"));
    let r = reply(Answer::NotFound);
    assert_eq!((r.code, r.ctype, r.body.as_str()), (404, "text/plain", "not found"));
    let r = reply(Answer::Forbidden);
    assert_eq!((r.code, r.body.as_str()), (403, "forbidden"));
    let r = reply(Answer::Json("[1]".to_string()));
    assert_eq!((r.code, r.ctype, r.body.as_str()), (200, "application/json", "[1]"));
}

#[test]
fn update_output_reply() {
    let r = reply(Answer::UpdateRan(b"ok \"1\"".to_vec(), b"".to_vec()));
    assert_eq!(r.code, 200);
    assert_eq!(r.body, "{\"ok\":true,\"out\":\"out:ok \\\"1\\\"\\nerr:\"}");
    let r = reply(Answer::UpdateRan(b"a\tb\x1b\\".to_vec(), b"\x01\x7f\xc3\xa9".to_vec()));
    assert_eq!(r.body, "{\"ok\":true,\"out\":\"out:a\\tb\\u001b\\\\\\nerr:\\u0001\u{7f}\u{e9}\"}");
}

#[test]
fn preflight() {
    assert!(preflight_response().starts_with("HTTP/1.1 204 No Content\r\n"));
    assert!(preflight_response().contains("Access-Control-Allow-Methods: GET,POST,OPTIONS\r\n"));
    assert!(preflight_response().ends_with("\r\n\r\n"));
}

#[test]
fn split_reads_read_the_same_request() {
    let whole: &[u8] = b"POST /api/config HTTP/1.1\r\nContent-Length: 4\r\n\r\n{}{}";
    for cut in 0..=whole.len() {
        let one = ReadState::start().on_data(whole).finish().unwrap();
        let two = ReadState::start().on_data(&whole[..cut]).on_data(&whole[cut..]).finish().unwrap();
        assert_eq!(one.head.method, two.head.method);
        assert_eq!(one.head.path, two.head.path);
        assert_eq!(one.head.content_len, two.head.content_len);
        assert_eq!(one.body, two.body);
        assert_eq!(two.body, b"{}{}".to_vec());
    }
}
