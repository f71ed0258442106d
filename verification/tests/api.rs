use relay_server::api::{respond, respond_to_bytes, write_entry, write_list, ApiReply, Whitelist};
use relay_server::request::{
    extract_add_params, extract_json_id, has_readable_id, is_authorised, read_request_line,
};

const OK: &str = "HTTP/1.1 200 OK\r\n\r\nok";
const BAD: &str = "HTTP/1.1 400 Bad Request\r\n\r\n";
const UNKNOWN: &str = "HTTP/1.1 404 Not Found\r\n\r\n";
const STRANGER: &str = "HTTP/1.1 401 Unauthorized\r\n\r\n";

fn post(path: &str, body: &str) -> String {
    format!("POST {} HTTP/1.1\r\nHost: x\r\nAuthorization: Bearer secret\r\n\r\n{}", path, body)
}

fn answer(r: ApiReply) -> String {
    match r {
        ApiReply::Answer(t) => t,
        ApiReply::Saved(t) => format!("saved {}", t),
        ApiReply::Close => "close".to_string(),
        ApiReply::Abort => "abort".to_string(),
    }
}

fn saved(text: &str) -> String {
    format!("saved {}", text)
}

fn send(req: &str, list: &mut Whitelist) -> String {
    answer(respond(req, "secret", "<page>", list))
}

#[test]
fn the_token_is_shown_in_a_line_or_in_the_path() {
    assert!(is_authorised("GET / HTTP/1.1\r\nAuthorization: Bearer secret\r\n\r\n", "secret"));
    assert!(is_authorised("GET / HTTP/1.1\nAuthorization: Bearer secret\n", "secret"));
    assert!(is_authorised("GET /?token=secret HTTP/1.1\r\n\r\n", "secret"));
    assert!(is_authorised("GET /?token=secret&x=1 HTTP/1.1\r\n\r\n", "secret"));
    assert!(!is_authorised("GET /?x=1&token=secret HTTP/1.1\r\n\r\n", "secret"));
    assert!(!is_authorised("GET /?token=other HTTP/1.1\r\n\r\n", "secret"));
    assert!(!is_authorised("GET /?token= HTTP/1.1\r\n\r\n", ""));
    assert!(!is_authorised("GET / HTTP/1.1\r\nauthorization: Bearer secret\r\n\r\n", "secret"));
    assert!(!is_authorised("GET / HTTP/1.1\r\nAuthorization: Bearer secret2\r\n\r\n", "secret"));
    assert!(!is_authorised("", "secret"));
}

#[test]
fn the_first_line_is_taken_apart() {
    let line = read_request_line("GET /a/b?token=t1&x=2 HTTP/1.1\r\nHost: x\r\n\r\n");
    assert_eq!(line.parts, vec!["GET", "/a/b?token=t1&x=2", "HTTP/1.1"]);
    assert_eq!(line.path, "/a/b");
    assert_eq!(line.token, "t1");
    let line = read_request_line("GET /a?token=t1?token=t2");
    assert_eq!(line.token, "t1");
    let line = read_request_line("");
    assert_eq!(line.parts, vec![""]);
    assert_eq!(line.path, "");
    assert_eq!(line.token, "");
}

#[test]
fn strangers_change_nothing() {
    let mut list = Whitelist::new();
    let req = "POST /api/add HTTP/1.1\r\n\r\n{\"id\":\"1\"}";
    assert_eq!(send(req, &mut list), STRANGER);
    assert_eq!(send("", &mut list), STRANGER);
    assert_eq!(list.len(), 0);
}

#[test]
fn pages_and_lists_are_shown() {
    let mut list = Whitelist::new();
    let page = "HTTP/1.1 200 OK\r\nContent-Type: text/html; charset=utf-8\r\n\r\n<page>";
    let json = "HTTP/1.1 200 OK\r\nContent-Type: application/json\r\n\r\n";
    assert_eq!(send("GET /?token=secret HTTP/1.1\r\n\r\n", &mut list), page);
    assert_eq!(send("GET /api/list?token=secret HTTP/1.1\r\n\r\n", &mut list), format!("{}[]", json));
    list.insert("a".to_string(), None);
    list.insert("b".to_string(), Some(17));
    assert_eq!(
        send("GET /api/list?token=secret HTTP/1.1\r\n\r\n", &mut list),
        format!("{}[{{\"id\":\"a\",\"expire\":null}},{{\"id\":\"b\",\"expire\":17}}]", json)
    );
    assert_eq!(write_list(&list), "[{\"id\":\"a\",\"expire\":null},{\"id\":\"b\",\"expire\":17}]");
}

#[test]
fn other_paths_are_unknown() {
    let mut list = Whitelist::new();
    for path in ["/", "/api/list", "/api", "/api/add/"] {
        assert_eq!(send(&post(path, ""), &mut list), UNKNOWN);
    }
    assert_eq!(send("PUT /?token=secret HTTP/1.1\r\n\r\n", &mut list), UNKNOWN);
    assert_eq!(send("GET\r\nAuthorization: Bearer secret\r\n\r\n", &mut list), "close");
}

#[test]
fn machines_are_added_and_removed() {
    let mut list = Whitelist::new();
    assert_eq!(send(&post("/api/add", "{\"id\":\"123\"}"), &mut list), saved(OK));
    assert_eq!(list.get("123"), Some(&None));
    assert_eq!(send(&post("/api/add", "{\"id\": \"123\", \"expire\": 99}"), &mut list), saved(OK));
    assert_eq!(list.get("123"), Some(&Some(99)));
    assert_eq!(send(&post("/api/add", "{\"expire\":0,\"id\":\"7\"}"), &mut list), saved(OK));
    assert_eq!(list.get("7"), Some(&None));
    assert_eq!(send(&post("/api/remove", "{\"id\":\"123\"}"), &mut list), saved(OK));
    assert_eq!(list.get("123"), None);
    assert_eq!(list.len(), 1);
    assert_eq!(send(&post("/api/remove", "{\"id\":\"123\"}"), &mut list), saved(OK));
    assert_eq!(list.len(), 1);
}

#[test]
fn bad_bodies_are_refused() {
    let mut list = Whitelist::new();
    for body in ["", "{}", "{\"id\":7}", "{\"id\":\"7", "\"id\"x", "{\"id\":\"7\",\"expire\":5"] {
        assert_eq!(send(&post("/api/add", body), &mut list), BAD);
    }
    assert_eq!(send(&post("/api/remove", "{}"), &mut list), BAD);
    assert_eq!(send("POST /api/remove?token=secret", &mut list), BAD);
    assert_eq!(list.len(), 0);
}

#[test]
fn bodies_that_break_off_are_not_answered() {
    let mut list = Whitelist::new();
    for body in ["{\"id\"", "\"id\"é"] {
        assert!(!has_readable_id(&post("/api/add", body)));
        assert_eq!(send(&post("/api/add", body), &mut list), "abort");
        assert_eq!(send(&post("/api/remove", body), &mut list), "abort");
    }
    assert!(has_readable_id(&post("/api/add", "\"id\"é\"")));
    assert!(has_readable_id(&post("/api/add", "\"id\"x")));
    assert_eq!(list.len(), 0);
}

#[test]
fn identifiers_are_extracted() {
    assert_eq!(extract_json_id("no body"), None);
    assert_eq!(extract_json_id("h\r\n\r\n{\"id\":\"ä b\"}"), Some("ä b".to_string()));
    assert_eq!(extract_json_id("h\r\n\r\n{\"id\":\"\"}"), Some(String::new()));
    assert_eq!(extract_json_id("h\r\n\r\n{\"x\":\"id\",\"id\":\"y\"}"), Some("id".to_string()));
    assert_eq!(extract_json_id("h\r\n\r\n\r\n\r\n{\"id\":\"y\"}"), None);
}

#[test]
fn times_are_extracted() {
    let get = |body: &str| extract_add_params(&format!("h\r\n\r\n{}", body));
    let some = |id: &str, t: Option<u64>| Some((id.to_string(), t));
    assert_eq!(get("{\"id\":\"a\",\"expire\":12}"), some("a", Some(12)));
    assert_eq!(get("{\"id\":\"a\",\"expire\":null}"), some("a", None));
    assert_eq!(get("{\"id\":\"a\",\"expire\":-3}"), some("a", Some(3)));
    assert_eq!(get("{\"id\":\"a\",\"expire\":18446744073709551615}"), some("a", Some(u64::MAX)));
    assert_eq!(get("{\"id\":\"a\",\"expire\":18446744073709551616}"), some("a", None));
    assert_eq!(get("{\"id\":\"a\",\"expire\""), None);
    assert_eq!(get("{\"id\":\"a\",\"expire\":12"), None);
    assert_eq!(get("{\"id\":\"a\",\"expire\":"), some("a", None));
}

#[test]
fn a_listed_entry_is_read_back() {
    for id in ["", "a", "expire", "id", "{}", "123 456", "ü"] {
        for t in [None, Some(1), Some(1_700_000_000), Some(u64::MAX)] {
            let req = format!("h\r\n\r\n{}", write_entry(id, t));
            assert_eq!(extract_add_params(&req), Some((id.to_string(), t)));
        }
    }
}

#[test]
fn requests_come_as_bytes() {
    let mut list = Whitelist::new();
    let mut req = b"GET / HTTP/1.1\r\nX: \xff\r\nAuthorization: Bearer t".to_vec();
    req.push(0xff);
    req.extend_from_slice(b"\r\n\r\n");
    let r = answer(respond_to_bytes(&req, "t\u{fffd}", "p", &mut list));
    assert_eq!(r, "HTTP/1.1 200 OK\r\nContent-Type: text/html; charset=utf-8\r\n\r\np");
    let req = post("/api/add", "{\"id\":\"ü\"}");
    assert_eq!(answer(respond_to_bytes(req.as_bytes(), "secret", "p", &mut list)), saved(OK));
    assert!(list.contains_key("ü"));
}
