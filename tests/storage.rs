use kvhttp::handlers::{delete, get, post};
use kvhttp::request::Request;
use kvhttp::response::HttpStatusCode;
use kvhttp::storage::{Storage, StorageData};

#[test]
fn store_appends_and_deletes_whole_buckets() {
    let mut store = Storage::new();
    assert!(store.get("/a").is_none());
    let rec = StorageData { body: Some("x".to_string()), content_type: "text/plain".to_string(), content_length: 1 };
    assert_eq!(store.post("/a", rec.clone()), 1);
    assert_eq!(store.post("/a", rec.clone()), 2);
    assert_eq!(store.get("/a").unwrap().len(), 2);
    assert!(store.delete("/a"));
    assert!(!store.delete("/a"));
    assert!(store.get("/a").is_none());
}

#[test]
fn handlers_answer_from_the_store() {
    let mut store = Storage::new();
    let missing = get(&Request::parse("GET /k"), &store);
    assert_eq!(missing.status, HttpStatusCode::NotFound);

    let req = Request::parse("POST /k/ HTTP/1.1\r\nContent-Type: application/json\r\n\r\n{}\r\n");
    let posted = post(&req, &mut store);
    assert_eq!(posted.status, HttpStatusCode::OK);
    assert_eq!(posted.headers.unwrap().x_data_version, Some(1));
    let stored = &store.get("/k").unwrap()[0];
    assert_eq!(stored.body, Some("{}".to_string()));
    assert_eq!(stored.content_type, "application/json");
    assert_eq!(stored.content_length, 0);

    let found = get(&Request::parse("GET /k"), &store);
    assert_eq!(found.status, HttpStatusCode::OK);
    assert_eq!(found.body, Some("{}".to_string()));
    assert_eq!(found.to_text(), "HTTP/1.1 200 OK\r\nX-Data-Version: 1\r\nContent-Length: 2\r\n\r\n{}\r\n");

    let del = delete(&Request::parse("DELETE /k"), &mut store);
    assert_eq!(del.status, HttpStatusCode::OK);
    let again = delete(&Request::parse("DELETE /k"), &mut store);
    assert_eq!(again.status, HttpStatusCode::NotFound);
}

#[test]
fn post_without_body_stores_no_body() {
    let mut store = Storage::new();
    let _ = post(&Request::parse("POST /e"), &mut store);
    let stored = &store.get("/e").unwrap()[0];
    assert_eq!(stored.body, None);
    assert_eq!(stored.content_type, "text/html");
}
