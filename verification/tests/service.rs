use bookstore::book::{book_to_json, parse_book, parse_book_input, Book};
use bookstore::error::{error_body, status_of, Error};
use bookstore::handler::{
    books_list_handler, create_book_handler, delete_book_handler, edit_book_handler,
    not_found_reply,
};
use bookstore::num::u64_to_string;
use bookstore::store::BookStore;

fn create(store: &mut BookStore, body: &str) -> Book {
    let r = create_book_handler(store, body);
    assert_eq!(r.status, 200);
    parse_book(&r.body).expect("created book should serialize to parseable JSON")
}

#[test]
fn create_assigns_fresh_nonempty_ids() {
    let mut store = BookStore::init();
    let b1 = create(
        &mut store,
        "{\"name\":\"A\",\"author\":\"B\",\"num_pages\":1,\"tags\":[]}",
    );
    let b2 = create(
        &mut store,
        "{\"name\":\"C\",\"author\":\"D\",\"num_pages\":2,\"tags\":[]}",
    );
    assert!(!b1.id.is_empty());
    assert!(!b2.id.is_empty());
    assert_ne!(b1.id, b2.id);
    // An id stays retired even after its book is deleted.
    let del = delete_book_handler(&mut store, &b2.id);
    assert_eq!(del.status, 200);
    let b3 = create(
        &mut store,
        "{\"name\":\"E\",\"author\":\"F\",\"num_pages\":3,\"tags\":[]}",
    );
    assert_ne!(b3.id, b1.id);
    assert_ne!(b3.id, b2.id);
}

#[test]
fn create_then_list_includes_exactly_that_book() {
    let mut store = BookStore::init();
    let r = create_book_handler(
        &mut store,
        "{\"name\":\"Dune\",\"author\":\"Herbert\",\"num_pages\":412,\"tags\":[\"scifi\"]}",
    );
    assert_eq!(r.status, 200);
    let list = books_list_handler(&store);
    assert_eq!(list.status, 200);
    assert_eq!(list.body, format!("[{}]", r.body));
}

#[test]
fn update_unknown_id_returns_404_with_status_field() {
    let mut store = BookStore::init();
    let r = edit_book_handler(
        &mut store,
        "12345",
        "{\"name\":\"X\",\"author\":\"Y\",\"num_pages\":9,\"tags\":[]}",
    );
    assert_eq!(r.status, 404);
    assert_eq!(r.body, "{\"status\":404,\"message\":\"not found\"}");
}

#[test]
fn update_replaces_fields_but_not_id_or_added_at() {
    let mut store = BookStore::init();
    let b = create(
        &mut store,
        "{\"name\":\"Old\",\"author\":\"Ann\",\"num_pages\":10,\"tags\":[\"a\"]}",
    );
    let r = edit_book_handler(
        &mut store,
        &b.id,
        "{\"name\":\"New\",\"author\":\"Bob\",\"num_pages\":20,\"tags\":[\"b\",\"c\"]}",
    );
    assert_eq!(r.status, 200);
    assert_eq!(r.body, "{\"ok\":true}");
    let list = books_list_handler(&store);
    let inner = &list.body[1..list.body.len() - 1];
    let stored = parse_book(inner).expect("list should hold one parseable book");
    assert_eq!(stored.id, b.id);
    assert_eq!(stored.added_at, b.added_at);
    assert_eq!(stored.name, "New");
    assert_eq!(stored.author, "Bob");
    assert_eq!(stored.num_pages, 20);
    assert_eq!(stored.tags, vec!["b".to_string(), "c".to_string()]);
}

#[test]
fn delete_unknown_id_returns_404() {
    let mut store = BookStore::init();
    let r = delete_book_handler(&mut store, "7");
    assert_eq!(r.status, 404);
    assert_eq!(r.body, "{\"status\":404,\"message\":\"not found\"}");
}

#[test]
fn delete_then_list_no_longer_includes_it() {
    let mut store = BookStore::init();
    let b1 = create(
        &mut store,
        "{\"name\":\"A\",\"author\":\"B\",\"num_pages\":1,\"tags\":[]}",
    );
    let b2 = create(
        &mut store,
        "{\"name\":\"C\",\"author\":\"D\",\"num_pages\":2,\"tags\":[]}",
    );
    let r = delete_book_handler(&mut store, &b1.id);
    assert_eq!(r.status, 200);
    let list = books_list_handler(&store);
    assert!(!list.body.contains(&format!("\"id\":\"{}\"", b1.id)));
    assert!(list.body.contains(&format!("\"id\":\"{}\"", b2.id)));
}

#[test]
fn empty_list_is_empty_json_array() {
    let store = BookStore::init();
    let r = books_list_handler(&store);
    assert_eq!(r.status, 200);
    assert_eq!(r.body, "[]");
}

#[test]
fn book_json_round_trip_preserves_every_field() {
    let b = Book {
        id: "17".to_string(),
        name: "quote \" backslash \\ unicode é control \u{0001}\n\t".to_string(),
        author: "".to_string(),
        num_pages: usize::MAX,
        added_at: -1234567890,
        tags: vec!["x\"y".to_string(), "".to_string(), "x\"y".to_string()],
    };
    let s = book_to_json(&b);
    let p = parse_book(&s).expect("round trip should parse");
    assert_eq!(p.id, b.id);
    assert_eq!(p.name, b.name);
    assert_eq!(p.author, b.author);
    assert_eq!(p.num_pages, b.num_pages);
    assert_eq!(p.added_at, b.added_at);
    assert_eq!(p.tags, b.tags);
}

#[test]
fn book_json_exact_form() {
    let b = Book {
        id: "1".to_string(),
        name: "a\"b".to_string(),
        author: "c\\d".to_string(),
        num_pages: 0,
        added_at: -5,
        tags: vec!["x".to_string(), "y".to_string()],
    };
    assert_eq!(
        book_to_json(&b),
        "{\"id\":\"1\",\"name\":\"a\\\"b\",\"author\":\"c\\\\d\",\"num_pages\":0,\"added_at\":-5,\"tags\":[\"x\",\"y\"]}"
    );
}

#[test]
fn create_scenario_dune() {
    let before = chrono::Utc::now().timestamp();
    let mut store = BookStore::init();
    let r = create_book_handler(
        &mut store,
        "{\"name\":\"Dune\",\"author\":\"Herbert\",\"num_pages\":412,\"tags\":[\"scifi\"]}",
    );
    let after = chrono::Utc::now().timestamp();
    assert_eq!(r.status, 200);
    let b = parse_book(&r.body).expect("created book should parse");
    assert!(!b.id.is_empty());
    assert_eq!(b.name, "Dune");
    assert_eq!(b.author, "Herbert");
    assert_eq!(b.num_pages, 412);
    assert_eq!(b.tags, vec!["scifi".to_string()]);
    assert!(before <= b.added_at && b.added_at <= after);
}

#[test]
fn malformed_body_maps_to_400() {
    let mut store = BookStore::init();
    for bad in [
        "",
        "{",
        "not json at all",
        "{\"name\":\"A\"}",
        "{\"name\":\"A\",\"author\":\"B\",\"num_pages\":-1,\"tags\":[]}",
        "{\"name\":\"A\",\"author\":\"B\",\"num_pages\":01,\"tags\":[]}",
        "{\"name\":\"A\",\"name\":\"B\",\"author\":\"B\",\"num_pages\":1,\"tags\":[]}",
        "{\"name\":\"A\",\"author\":\"B\",\"num_pages\":1,\"tags\":[],\"extra\":\"x\"}",
        "{\"name\":\"A\",\"author\":\"B\",\"num_pages\":1,\"tags\":[]}{",
        "{\"name\":\"\\ud800\",\"author\":\"B\",\"num_pages\":1,\"tags\":[]}",
        "{\"id\":\"9\",\"name\":\"A\",\"author\":\"B\",\"num_pages\":1,\"tags\":[]}",
    ] {
        let r = create_book_handler(&mut store, bad);
        assert_eq!(r.status, 400);
        assert_eq!(r.body, "{\"status\":400,\"message\":\"invalid request body\"}");
        assert!(parse_book_input(bad).is_none());
    }
    let list = books_list_handler(&store);
    assert_eq!(list.body, "[]");
}

#[test]
fn whitespace_and_field_order_are_insignificant() {
    let mut store = BookStore::init();
    let body = " {\n\t\"tags\" : [ \"a\" , \"b\" ] ,\r\n\"num_pages\": 7 , \"name\" : \"Dune\" , \"author\" : \"Herbert\" }  ";
    let b = create(&mut store, body);
    assert_eq!(b.name, "Dune");
    assert_eq!(b.author, "Herbert");
    assert_eq!(b.num_pages, 7);
    assert_eq!(b.tags, vec!["a".to_string(), "b".to_string()]);
}

#[test]
fn standard_escapes_are_decoded() {
    let input = parse_book_input(
        "{\"name\":\"a\\nb\\tc\\u0041\\\\d\\\"e\\/f\\r\\b\\f\",\"author\":\"\\u00e9\",\"num_pages\":1,\"tags\":[]}",
    )
    .expect("escaped payload should parse");
    assert_eq!(input.name, "a\nb\tcA\\d\"e/f\r\u{0008}\u{000C}");
    assert_eq!(input.author, "é");
}

#[test]
fn control_characters_are_escaped_on_output() {
    let b = Book {
        id: "1".to_string(),
        name: "a\nb\u{0001}".to_string(),
        author: "c".to_string(),
        num_pages: 2,
        added_at: 3,
        tags: vec![],
    };
    assert_eq!(
        book_to_json(&b),
        "{\"id\":\"1\",\"name\":\"a\\u000ab\\u0001\",\"author\":\"c\",\"num_pages\":2,\"added_at\":3,\"tags\":[]}"
    );
}

#[test]
fn storage_failure_maps_to_500() {
    let mut store = BookStore::init();
    store.next_id = u64::MAX;
    let r = create_book_handler(
        &mut store,
        "{\"name\":\"A\",\"author\":\"B\",\"num_pages\":1,\"tags\":[]}",
    );
    assert_eq!(r.status, 500);
    assert_eq!(r.body, "{\"status\":500,\"message\":\"storage error\"}");
}

#[test]
fn unmatched_route_maps_to_404() {
    let r = not_found_reply();
    assert_eq!(r.status, 404);
    assert_eq!(r.body, "{\"status\":404,\"message\":\"not found\"}");
}

#[test]
fn error_taxonomy_statuses() {
    assert_eq!(status_of(&Error::Parse), 400);
    assert_eq!(status_of(&Error::NotFound), 404);
    assert_eq!(status_of(&Error::Storage), 500);
    assert_eq!(status_of(&Error::Connection), 500);
    assert_eq!(status_of(&Error::NotMatched), 404);
    assert_eq!(
        error_body(&Error::Connection),
        "{\"status\":500,\"message\":\"connection error\"}"
    );
}

#[test]
fn decimal_formatting_exact() {
    assert_eq!(u64_to_string(0), "0");
    assert_eq!(u64_to_string(404), "404");
    assert_eq!(u64_to_string(u64::MAX), "18446744073709551615");
}
