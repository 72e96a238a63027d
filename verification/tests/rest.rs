//! Tests of the HTTP surface: routing, dispatch and status codes.

use bookstore::book::Book;
use bookstore::http::{handle_request, Method, Response, ResponseBody};
use bookstore::store::BookStore;

fn setup_tests() -> BookStore {
    let mut store = BookStore::new();
    store
        .add_book("Hands-on Rust", "Wolverson, Herbert")
        .unwrap();
    store
        .add_book("Rust Brain Teasers", "Wolverson, Herbert")
        .unwrap();
    store
}

fn body_books(r: &Response) -> Vec<Book> {
    match &r.body {
        ResponseBody::Listing(v) => v.iter().map(|b| b.clone()).collect(),
        _ => panic!("expected a listing body"),
    }
}

fn body_book(r: &Response) -> Book {
    match &r.body {
        ResponseBody::Record(b) => b.clone(),
        _ => panic!("expected a record body"),
    }
}

fn body_id(r: &Response) -> i32 {
    match &r.body {
        ResponseBody::CreatedId(id) => *id,
        _ => panic!("expected a created id body"),
    }
}

#[test]
fn get_all_books() {
    let mut store = setup_tests();
    let res = handle_request(&mut store, Method::Get, "/books", None);
    assert_eq!(res.status, 200);
    let books = body_books(&res);
    assert!(!books.is_empty());
}

#[test]
fn get_one_book() {
    let mut store = setup_tests();
    let res = handle_request(&mut store, Method::Get, "/books/1", None);
    assert_eq!(res.status, 200);
    let book = body_book(&res);
    assert_eq!(book.id, 1)
}

#[test]
fn add_book() {
    let mut store = setup_tests();
    let new_book = Book::new(
        -1,
        "Test POST Book".to_string(),
        "Test POST Author".to_string(),
    );
    let res = handle_request(&mut store, Method::Post, "/books/add", Some(&new_book));
    assert_eq!(res.status, 200);
    let new_id = body_id(&res);
    assert!(new_id > 0);

    let path = format!("/books/{new_id}");
    let test_book = handle_request(&mut store, Method::Get, &path, None);
    assert_eq!(test_book.status, 200);
    let test_book = body_book(&test_book);
    assert_eq!(new_id, test_book.id);
    assert_eq!(new_book.title, test_book.title);
    assert_eq!(new_book.author, test_book.author);
}

#[test]
fn update_book() {
    let mut store = setup_tests();
    let res = handle_request(&mut store, Method::Get, "/books/1", None);
    let mut book1 = body_book(&res);
    book1.title = "Updated book".to_string();
    let res = handle_request(&mut store, Method::Put, "/books/edit", Some(&book1));
    assert_eq!(res.status, 200);
    let res = handle_request(&mut store, Method::Get, "/books/1", None);
    let book2 = body_book(&res);
    assert_eq!(book1.title, book2.title);
}

#[test]
fn delete_book() {
    let mut store = setup_tests();
    let new_book = Book::new(-1, "Delete me".to_string(), "Delete me".to_string());
    let res = handle_request(&mut store, Method::Post, "/books/add", Some(&new_book));
    let new_id = body_id(&res);

    let path = format!("/books/delete/{new_id}");
    let res = handle_request(&mut store, Method::Delete, &path, None);
    assert_eq!(res.status, 200);

    let res = handle_request(&mut store, Method::Get, "/books", None);
    let all_books = body_books(&res);
    assert!(all_books.iter().find(|b| b.id == new_id).is_none())
}

#[test]
fn get_deleted_book_is_not_found() {
    let mut store = setup_tests();
    let new_book = Book::new(-1, "Gone".to_string(), "Soon".to_string());
    let res = handle_request(&mut store, Method::Post, "/books/add", Some(&new_book));
    let new_id = body_id(&res);
    let path = format!("/books/delete/{new_id}");
    let res = handle_request(&mut store, Method::Delete, &path, None);
    assert_eq!(res.status, 200);
    let path = format!("/books/{new_id}");
    let res = handle_request(&mut store, Method::Get, &path, None);
    assert_eq!(res.status, 404);
}

#[test]
fn non_integer_id_is_bad_request() {
    let mut store = setup_tests();
    let res = handle_request(&mut store, Method::Get, "/books/abc", None);
    assert_eq!(res.status, 400);
    let res = handle_request(&mut store, Method::Delete, "/books/delete/x1", None);
    assert_eq!(res.status, 400);
}

#[test]
fn unknown_route_is_not_found() {
    let mut store = setup_tests();
    let res = handle_request(&mut store, Method::Get, "/nothing", None);
    assert_eq!(res.status, 404);
    let res = handle_request(&mut store, Method::Post, "/books/edit", None);
    assert_eq!(res.status, 404);
}

#[test]
fn missing_body_is_bad_request() {
    let mut store = setup_tests();
    let res = handle_request(&mut store, Method::Post, "/books/add", None);
    assert_eq!(res.status, 400);
    let res = handle_request(&mut store, Method::Put, "/books/edit", None);
    assert_eq!(res.status, 400);
}

#[test]
fn blank_fields_are_bad_request() {
    let mut store = setup_tests();
    let blank = Book::new(-1, "   ".to_string(), "Someone".to_string());
    let res = handle_request(&mut store, Method::Post, "/books/add", Some(&blank));
    assert_eq!(res.status, 400);
    let before = body_books(&handle_request(&mut store, Method::Get, "/books", None));
    assert_eq!(before.len(), 2);
}
