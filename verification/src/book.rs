//! The book record: the sole entity the service stores.

use vstd::prelude::*;

verus! {

/// The abstract value of a [`Book`]: its id together with the character
/// sequences of its title and author.
pub ghost struct BookModel {
    pub id: int,
    pub title: Seq<char>,
    pub author: Seq<char>,
}

/// A book record as stored and transmitted.
#[derive(Debug)]
pub struct Book {
    /// The record's primary key, assigned by the store on creation.
    pub id: i32,
    /// The book's title.
    pub title: String,
    /// The book's author, conventionally "surname, first name" (unenforced).
    pub author: String,
}

impl View for Book {
    type V = BookModel;

    open spec fn view(&self) -> BookModel {
        BookModel { id: self.id as int, title: self.title@, author: self.author@ }
    }
}

impl Clone for Book {
    fn clone(&self) -> (r: Book)
        ensures
            r@ == self@,
    {
        Book { id: self.id, title: self.title.clone(), author: self.author.clone() }
    }
}

impl Book {
    /// Builds a record from its three fields.
    pub fn new(id: i32, title: String, author: String) -> (r: Book)
        ensures
            r@ == (BookModel { id: id as int, title: title@, author: author@ }),
    {
        Book { id, title, author }
    }
}

} // verus!
