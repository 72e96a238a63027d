//! Tests of path decoding, validation and error-to-status mapping.

use bookstore::errors::{ServiceError, StorageError};
use bookstore::http::{parse_i32, route, status_for_service_error, status_for_storage_error,
    Method, Route};
use bookstore::service::is_blank_exec;
use bookstore::store::BookStore;

#[test]
fn parse_plain_numbers() {
    assert_eq!(parse_i32("0"), Some(0));
    assert_eq!(parse_i32("42"), Some(42));
    assert_eq!(parse_i32("007"), Some(7));
    assert_eq!(parse_i32("+5"), Some(5));
    assert_eq!(parse_i32("-7"), Some(-7));
}

#[test]
fn parse_range_edges() {
    assert_eq!(parse_i32("2147483647"), Some(i32::MAX));
    assert_eq!(parse_i32("2147483648"), None);
    assert_eq!(parse_i32("-2147483648"), Some(i32::MIN));
    assert_eq!(parse_i32("-2147483649"), None);
    assert_eq!(parse_i32("99999999999999999999"), None);
}

#[test]
fn parse_rejects_garbage() {
    assert_eq!(parse_i32(""), None);
    assert_eq!(parse_i32("-"), None);
    assert_eq!(parse_i32("+"), None);
    assert_eq!(parse_i32("12x"), None);
    assert_eq!(parse_i32("x12"), None);
    assert_eq!(parse_i32("1 2"), None);
    assert_eq!(parse_i32("--1"), None);
}

#[test]
fn route_table() {
    assert_eq!(route(Method::Get, "/books"), Route::ListAll);
    assert_eq!(route(Method::Get, "/books/"), Route::ListAll);
    assert_eq!(route(Method::Get, "/books/17"), Route::GetBook(17));
    assert_eq!(route(Method::Get, "/books/nan"), Route::BadRequest);
    assert_eq!(route(Method::Post, "/books/add"), Route::AddBook);
    assert_eq!(route(Method::Put, "/books/edit"), Route::EditBook);
    assert_eq!(route(Method::Delete, "/books/delete/3"), Route::DeleteBook(3));
    assert_eq!(route(Method::Delete, "/books/delete/three"), Route::BadRequest);
    assert_eq!(route(Method::Get, "/"), Route::NoRoute);
    assert_eq!(route(Method::Post, "/books"), Route::NoRoute);
}

#[test]
fn blankness() {
    assert!(is_blank_exec(""));
    assert!(is_blank_exec("   "));
    assert!(is_blank_exec(" \t\r\n"));
    assert!(!is_blank_exec(" a "));
    assert!(!is_blank_exec("title"));
}

#[test]
fn storage_error_statuses() {
    assert_eq!(status_for_storage_error(&StorageError::NotFound), 404);
    assert_eq!(status_for_storage_error(&StorageError::ConnectionFailed), 503);
    assert_eq!(status_for_storage_error(&StorageError::MigrationFailed), 503);
    assert_eq!(status_for_storage_error(&StorageError::QueryFailed), 503);
}

#[test]
fn service_error_statuses() {
    assert_eq!(status_for_service_error(&ServiceError::Validation), 400);
    assert_eq!(
        status_for_service_error(&ServiceError::Storage(StorageError::NotFound)),
        404
    );
    assert_eq!(
        status_for_service_error(&ServiceError::Storage(StorageError::QueryFailed)),
        503
    );
}

#[test]
fn validation_rejects_blank_fields() {
    let mut store = BookStore::new();
    let r = bookstore::service::create_record(&mut store, " ", "Author");
    assert!(matches!(r, Err(ServiceError::Validation)));
    let r = bookstore::service::create_record(&mut store, "Title", "\t");
    assert!(matches!(r, Err(ServiceError::Validation)));
    assert!(store.all_books().unwrap().is_empty());
    let r = bookstore::service::create_record(&mut store, "Title", "Author");
    assert!(r.is_ok());
}
