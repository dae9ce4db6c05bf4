use web_server::request::{route_page, route_request, static_response, Request, RequestError, StaticPage};
use web_server::response::{frame_response, status_ok, status_response};
use web_server::store::{head, Database, Entry};

fn buffer(text: &[u8]) -> Vec<u8> {
    let mut b = vec![0u8; 1024];
    b[..text.len()].copy_from_slice(text);
    b
}

#[test]
fn routes_of_the_document_server() {
    assert_eq!(route_request(&buffer(b"GET /sleep HTTP/1.1\r\nHost: x\r\n\r\n")), Ok(Request::SlowGet));
    assert_eq!(route_request(&buffer(b"GET / HTTP/1.1\r\n")), Ok(Request::Get));
    assert_eq!(route_request(&buffer(b"POST /x HTTP/1.1\r\n")), Ok(Request::Get));
    assert_eq!(
        route_request(&buffer(b"PUT /test.txt HTTP/1.1\r\n")),
        Ok(Request::Put(b"test.txt".to_vec()))
    );
    assert_eq!(
        route_request(&buffer(b"DELETE //a.txt HTTP/1.1\r\n")),
        Ok(Request::Delete(b"a.txt".to_vec()))
    );
    assert_eq!(route_request(&buffer(b"HEAD / HTTP/1.1\r\n")), Ok(Request::Head));
    assert_eq!(route_request(&buffer(b"PATCH / HTTP/1.1\r\n")), Ok(Request::Unknown));
}

#[test]
fn route_errors() {
    assert_eq!(route_request(&buffer(b"PUT")), Err(RequestError::MissingTarget));
    assert_eq!(route_request(b"DELETE"), Err(RequestError::MissingTarget));
    assert_eq!(route_request(&buffer(b"GET \xff HTTP/1.1")), Err(RequestError::InvalidUtf8));
    assert_eq!(route_request(b"PUT \xc3"), Err(RequestError::InvalidUtf8));
}

#[test]
fn target_runs_to_the_next_space() {
    assert_eq!(route_request(b"PUT /a.txt"), Ok(Request::Put(b"a.txt".to_vec())));
    let mut b = buffer(b"PUT /n");
    b.truncate(10);
    assert_eq!(route_request(&b), Ok(Request::Put(b"n\0\0\0\0".to_vec())));
}

#[test]
fn pages_of_the_static_server() {
    assert_eq!(route_page(&buffer(b"GET / HTTP/1.1\r\n")), StaticPage::Index);
    assert_eq!(route_page(&buffer(b"GET /sleep HTTP/1.1\r\n")), StaticPage::SlowIndex);
    assert_eq!(route_page(&buffer(b"GET /other HTTP/1.1\r\n")), StaticPage::NotFound);
    assert_eq!(StaticPage::Index.file_name(), "hi.html");
    assert_eq!(StaticPage::SlowIndex.file_name(), "hi.html");
    assert_eq!(StaticPage::NotFound.file_name(), "404.html");
    assert_eq!(StaticPage::NotFound.status_line(), "HTTP/1.1 404 NOT FOUND");
    assert_eq!(StaticPage::Index.status_line(), "HTTP/1.1 200 OK");
    assert!(StaticPage::SlowIndex.waits());
    assert!(!StaticPage::Index.waits());
}

#[test]
fn static_response_frames_the_page() {
    let r = static_response("HTTP/1.1 200 OK", "héllo".as_bytes());
    assert_eq!(r, format!("{}\r\nContent-Length: {}\r\n\r\n{}", "HTTP/1.1 200 OK", 6, "héllo").into_bytes());
}

#[test]
fn framing_matches_the_format_string() {
    let r = frame_response(status_ok(), 1234, b"body");
    assert_eq!(r, b"HTTP/1.1 200 OK\r\nContent-Length: 1234\r\n\r\nbody".to_vec());
    assert_eq!(status_response("HTTP/1.1 200 OK"), b"HTTP/1.1 200 OK\r\n".to_vec());
    assert_eq!(head("HTTP/1.1 200 OK"), b"HTTP/1.1 200 OK\r\n".to_vec());
}

fn titles(db: &Database) -> Vec<String> {
    db.entries().iter().map(|e| e.title.clone()).collect()
}

fn document(title: &str, contents: &str) -> serde_json::Value {
    let mut map = serde_json::Map::new();
    map.insert("title".to_string(), serde_json::Value::String(title.to_string()));
    map.insert("contents".to_string(), serde_json::Value::String(contents.to_string()));
    serde_json::Value::Object(map)
}

#[test]
fn put_appends_and_answers_with_the_json() {
    let mut db = Database::new();
    assert_eq!(db.len(), 0);
    let r = db.put("HTTP/1.1 200 OK", "a.txt", "hi \"there\"\n");
    let data = document("a.txt", "hi \"there\"\n");
    let expected = format!(
        "{}\r\nContent-Length: {}\r\n\r\n{}",
        "HTTP/1.1 200 OK",
        serde_json::to_string(&data).unwrap().len(),
        serde_json::to_string_pretty(&data).unwrap()
    );
    assert_eq!(r, expected.into_bytes());
    db.put("HTTP/1.1 200 OK", "b.txt", "yo");
    assert_eq!(db.len(), 2);
    assert_eq!(titles(&db), vec!["a.txt".to_string(), "b.txt".to_string()]);
    assert_eq!(db.entries()[1].contents, "yo");
}

#[test]
fn put_answer_body_is_not_the_contents() {
    let mut db = Database::new();
    let r = db.put("HTTP/1.1 200 OK", "t", "x");
    assert_ne!(r, b"HTTP/1.1 200 OK\r\nContent-Length: 1\r\n\r\nx".to_vec());
    assert!(r.ends_with(b"}"));
}

#[test]
fn listing_counts_documents_and_prints_them() {
    let mut db = Database::new();
    let empty: Vec<serde_json::Value> = Vec::new();
    assert_eq!(
        db.get("HTTP/1.1 200 OK"),
        format!("HTTP/1.1 200 OK\r\nContent-Length: 0\r\n\r\n{:#?}", empty).into_bytes()
    );
    db.put("HTTP/1.1 200 OK", "a", "x");
    db.put("HTTP/1.1 200 OK", "b", "y\tz");
    db.put("HTTP/1.1 200 OK", "c", "é");
    let docs = vec![document("a", "x"), document("b", "y\tz"), document("c", "é")];
    assert_eq!(
        db.get("HTTP/1.1 200 OK"),
        format!("HTTP/1.1 200 OK\r\nContent-Length: 3\r\n\r\n{:#?}", docs).into_bytes()
    );
}

#[test]
fn put_then_delete_restores() {
    let mut db = Database::new();
    db.put("HTTP/1.1 200 OK", "a", "1");
    db.put("HTTP/1.1 200 OK", "new", "2");
    assert!(db.delete_completes("new"));
    db.delete("new");
    assert_eq!(titles(&db), vec!["a".to_string()]);
}

#[test]
fn delete_of_absent_title_changes_nothing() {
    let mut db = Database::new();
    db.put("HTTP/1.1 200 OK", "a", "1");
    db.put("HTTP/1.1 200 OK", "b", "2");
    assert!(db.delete_completes("zzz"));
    db.delete("zzz");
    assert_eq!(titles(&db), vec!["a".to_string(), "b".to_string()]);
    let mut empty = Database::new();
    assert!(empty.delete_completes("a"));
    empty.delete("a");
    assert_eq!(empty.len(), 0);
}

#[test]
fn delete_of_an_earlier_title_does_not_complete() {
    let mut db = Database::new();
    db.put("HTTP/1.1 200 OK", "a", "1");
    db.put("HTTP/1.1 200 OK", "b", "2");
    assert!(!db.delete_completes("a"));
    assert!(db.delete_completes("b"));
}

#[test]
fn entry_holds_its_fields() {
    let e = Entry::new("t".to_string(), "c".to_string());
    assert_eq!(e.title, "t");
    assert_eq!(e.contents, "c");
}
