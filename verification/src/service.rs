//! The record service: a validation seam over the storage gateway.
//!
//! Create and update requests whose title or author is empty after
//! trimming are rejected with a validation error before the store is
//! touched; everything else is delegated verbatim and the storage outcome
//! passes through unchanged.

use vstd::prelude::*;
use crate::book::Book;
use crate::errors::{ServiceError, StorageError};
use crate::store::BookStore;

verus! {

/// The characters that trimming strips.
pub open spec fn is_space(c: char) -> bool {
    c == ' ' || c == '\t' || c == '\n' || c == '\r'
}

/// A string is blank when every character is trimmed away.
pub open spec fn is_blank(s: Seq<char>) -> bool {
    forall|i: int| 0 <= i < s.len() ==> is_space(#[trigger] s[i])
}

/// Decides whether a string is empty after trimming.
pub fn is_blank_exec(s: &str) -> (r: bool)
    ensures
        r == is_blank(s@),
{
    let len = s.unicode_len();
    let mut i: usize = 0;
    while i < len
        invariant
            i <= len,
            len == s@.len(),
            forall|k: int| 0 <= k < i ==> is_space(#[trigger] s@[k]),
        decreases len - i,
    {
        let c = s.get_char(i);
        if !(c == ' ' || c == '\t' || c == '\n' || c == '\r') {
            proof {
                assert(!is_space(s@[i as int]));
            }
            return false;
        }
        i += 1;
    }
    true
}

/// Validates and creates a record: blank titles and authors are rejected
/// without touching the store; otherwise the store assigns an id exactly
/// as its own create operation does.
pub fn create_record(store: &mut BookStore, title: &str, author: &str) -> (r: Result<
    i32,
    ServiceError,
>)
    requires
        old(store).wf(),
    ensures
        final(store).wf(),
        is_blank(title@) || is_blank(author@) ==> r == Err::<i32, ServiceError>(
            ServiceError::Validation,
        ) && final(store)@ == old(store)@ && final(store).spec_next_id() == old(
            store,
        ).spec_next_id(),
        !(is_blank(title@) || is_blank(author@)) && old(store).can_assign_id() ==> (
        r matches Ok(id) && {
            &&& id as int == old(store).spec_next_id()
            &&& id > 0
            &&& !old(store)@.contains_key(id as int)
            &&& final(store)@ == old(store)@.insert(
                id as int,
                crate::book::BookModel { id: id as int, title: title@, author: author@ },
            )
            &&& final(store).spec_next_id() == old(store).spec_next_id() + 1
        }),
        !(is_blank(title@) || is_blank(author@)) && !old(store).can_assign_id() ==> r == Err::<
            i32,
            ServiceError,
        >(ServiceError::Storage(StorageError::QueryFailed)) && final(store)@ == old(store)@,
{
    if is_blank_exec(title) || is_blank_exec(author) {
        return Err(ServiceError::Validation);
    }
    match store.add_book(title, author) {
        Ok(id) => Ok(id),
        Err(e) => Err(ServiceError::Storage(e)),
    }
}

/// Validates and applies an update: blank titles and authors are rejected
/// without touching the store; otherwise the store overwrites the matching
/// record, a silent no-op when none matches.
pub fn update_record(store: &mut BookStore, book: &Book) -> (r: Result<(), ServiceError>)
    requires
        old(store).wf(),
    ensures
        final(store).wf(),
        final(store).spec_next_id() == old(store).spec_next_id(),
        is_blank(book.title@) || is_blank(book.author@) ==> r == Err::<(), ServiceError>(
            ServiceError::Validation,
        ) && final(store)@ == old(store)@,
        !(is_blank(book.title@) || is_blank(book.author@)) ==> r == Ok::<(), ServiceError>(())
            && (if old(store)@.contains_key(book@.id) {
            final(store)@ == old(store)@.insert(book@.id, book@)
        } else {
            final(store)@ == old(store)@
        }),
{
    if is_blank_exec(book.title.as_str()) || is_blank_exec(book.author.as_str()) {
        return Err(ServiceError::Validation);
    }
    match store.update_book(book) {
        Ok(u) => Ok(u),
        Err(e) => Err(ServiceError::Storage(e)),
    }
}

/// Fetches one record by id; the storage outcome passes through unchanged.
pub fn get_record(store: &BookStore, id: i32) -> (r: Result<Book, ServiceError>)
    requires
        store.wf(),
    ensures
        store@.contains_key(id as int) ==> (r matches Ok(b) && b@ == store@[id as int] && b.id
            == id),
        !store@.contains_key(id as int) ==> r == Err::<Book, ServiceError>(
            ServiceError::Storage(StorageError::NotFound),
        ),
{
    match store.book_by_id(id) {
        Ok(b) => Ok(b),
        Err(e) => Err(ServiceError::Storage(e)),
    }
}

/// Lists every record, sorted by title then author, exactly the store's
/// contents; delegated verbatim to the store.
pub fn list_records(store: &BookStore) -> (r: Result<Vec<Book>, ServiceError>)
    requires
        store.wf(),
    ensures
        r matches Ok(v) && crate::store::listing_of(store@, v@),
{
    match store.all_books() {
        Ok(v) => Ok(v),
        Err(e) => Err(ServiceError::Storage(e)),
    }
}

/// Deletes the record with the given id, a silent no-op when none
/// matches; delegated verbatim to the store.
pub fn delete_record(store: &mut BookStore, id: i32) -> (r: Result<(), ServiceError>)
    requires
        old(store).wf(),
    ensures
        final(store).wf(),
        final(store).spec_next_id() == old(store).spec_next_id(),
        r == Ok::<(), ServiceError>(()),
        final(store)@ == old(store)@.remove(id as int),
{
    match store.delete_book(id) {
        Ok(u) => Ok(u),
        Err(e) => Err(ServiceError::Storage(e)),
    }
}

} // verus!
