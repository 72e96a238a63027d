//! Tests of the storage gateway model: list, get, create, update, delete.

use bookstore::book::Book;
use bookstore::errors::StorageError;
use bookstore::store::BookStore;

fn seeded_store() -> BookStore {
    let mut store = BookStore::new();
    store
        .add_book("Hands-on Rust", "Wolverson, Herbert")
        .unwrap();
    store
        .add_book("Rust Brain Teasers", "Wolverson, Herbert")
        .unwrap();
    store
}

#[test]
fn get_all() {
    let cnn = seeded_store();
    let all_rows = cnn.all_books().unwrap();
    assert!(!all_rows.is_empty());
}

#[test]
fn get_one() {
    let cnn = seeded_store();
    let book = cnn.book_by_id(1).unwrap();
    assert_eq!(1, book.id);
    assert_eq!("Hands-on Rust", book.title);
    assert_eq!("Wolverson, Herbert", book.author);
}

#[test]
fn test_create() {
    let mut cnn = seeded_store();
    let new_id = cnn.add_book("Test Book", "Test Author").unwrap();
    let new_book = cnn.book_by_id(new_id).unwrap();
    assert_eq!(new_id, new_book.id);
    assert_eq!("Test Book", new_book.title);
    assert_eq!("Test Author", new_book.author);
}

#[test]
fn test_update() {
    let mut cnn = seeded_store();
    let mut book = cnn.book_by_id(2).unwrap();
    book.title = "Updated Book".to_string();
    cnn.update_book(&book).unwrap();
    let updated_book = cnn.book_by_id(2).unwrap();
    assert_eq!("Updated Book", updated_book.title);
}

#[test]
fn test_delete() {
    let mut cnn = seeded_store();
    let new_id = cnn.add_book("DeleteMe", "Test Author").unwrap();
    let _new_book = cnn.book_by_id(new_id).unwrap();
    cnn.delete_book(new_id).unwrap();
    let all_books = cnn.all_books().unwrap();
    assert!(all_books.iter().find(|b| b.title == "DeleteMe").is_none());
}

#[test]
fn missing_id_is_not_found() {
    let cnn = BookStore::new();
    let r = cnn.book_by_id(42);
    assert!(matches!(r, Err(StorageError::NotFound)));
    assert!(!matches!(r, Err(StorageError::ConnectionFailed)));
}

#[test]
fn empty_store_lists_nothing() {
    let cnn = BookStore::new();
    let all_rows = cnn.all_books().unwrap();
    assert!(all_rows.is_empty());
}

#[test]
fn listing_sorted_regardless_of_creation_order() {
    let mut first = BookStore::new();
    first.add_book("Beta", "B").unwrap();
    first.add_book("Alpha", "A").unwrap();
    let mut second = BookStore::new();
    second.add_book("Alpha", "A").unwrap();
    second.add_book("Beta", "B").unwrap();
    let rows1 = first.all_books().unwrap();
    let rows2 = second.all_books().unwrap();
    assert_eq!(rows1.len(), 2);
    assert_eq!(rows1[0].title, "Alpha");
    assert_eq!(rows1[1].title, "Beta");
    assert_eq!(rows2[0].title, "Alpha");
    assert_eq!(rows2[1].title, "Beta");
}

#[test]
fn listing_breaks_title_ties_by_author() {
    let mut store = BookStore::new();
    store.add_book("Same Title", "Zed, Z").unwrap();
    store.add_book("Same Title", "Abel, A").unwrap();
    // Case-sensitive order: an upper-case letter sorts before lower case.
    store.add_book("apple", "X").unwrap();
    store.add_book("Apple", "X").unwrap();
    let rows = store.all_books().unwrap();
    assert_eq!(rows.len(), 4);
    assert_eq!(rows[0].title, "Apple");
    assert_eq!(rows[1].title, "Same Title");
    assert_eq!(rows[1].author, "Abel, A");
    assert_eq!(rows[2].title, "Same Title");
    assert_eq!(rows[2].author, "Zed, Z");
    assert_eq!(rows[3].title, "apple");
}

#[test]
fn update_touches_only_target() {
    let mut store = BookStore::new();
    let id1 = store.add_book("One", "Author One").unwrap();
    let id2 = store.add_book("Two", "Author Two").unwrap();
    let patched = Book::new(id1, "One Revised".to_string(), "Author One".to_string());
    store.update_book(&patched).unwrap();
    let other = store.book_by_id(id2).unwrap();
    assert_eq!("Two", other.title);
    assert_eq!("Author Two", other.author);
}

#[test]
fn update_missing_id_is_noop() {
    let mut store = BookStore::new();
    store.add_book("Kept", "Author").unwrap();
    let ghostly = Book::new(99, "Nope".to_string(), "Nobody".to_string());
    assert!(store.update_book(&ghostly).is_ok());
    let rows = store.all_books().unwrap();
    assert_eq!(rows.len(), 1);
    assert_eq!(rows[0].title, "Kept");
}

#[test]
fn delete_twice_is_noop() {
    let mut store = BookStore::new();
    let id = store.add_book("Ephemeral", "Author").unwrap();
    store.delete_book(id).unwrap();
    assert!(store.delete_book(id).is_ok());
    let rows = store.all_books().unwrap();
    assert!(rows.iter().find(|b| b.id == id).is_none());
}
