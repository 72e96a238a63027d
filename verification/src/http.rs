//! The HTTP surface: the route table, path decoding and the mapping of
//! domain outcomes to status codes.
//!
//! A request is routed by method and path; `{id}` segments are decoded as
//! integers, a non-integer segment is a bad request. Each route invokes
//! exactly one record-service operation and encodes the outcome.

use vstd::prelude::*;
use crate::book::{Book, BookModel};
use crate::errors::{ServiceError, StorageError};
use crate::service::{
    create_record, delete_record, get_record, is_blank, list_records, update_record,
};
use crate::store::{listing_of, BookStore};

verus! {

/// An HTTP method, as far as the route table cares.
#[derive(Debug, Clone, Copy, PartialEq, Eq, Structural)]
pub enum Method {
    Get,
    Post,
    Put,
    Delete,
}

/// The outcome of routing a request.
#[derive(Debug, Clone, Copy, PartialEq, Eq, Structural)]
pub enum Route {
    /// `GET /books/`: list every record.
    ListAll,
    /// `GET /books/{id}`: fetch one record.
    GetBook(i32),
    /// `POST /books/add`: create a record.
    AddBook,
    /// `PUT /books/edit`: update a record.
    EditBook,
    /// `DELETE /books/delete/{id}`: delete a record.
    DeleteBook(i32),
    /// A matched route whose id segment is not an integer.
    BadRequest,
    /// No route matches.
    NoRoute,
}

/// A decimal digit.
pub open spec fn is_digit(c: char) -> bool {
    48 <= c as u32 <= 57
}

/// The value of a decimal digit.
pub open spec fn digit_val(c: char) -> int {
    c as u32 - 48
}

/// Every character is a decimal digit.
pub open spec fn all_digits(s: Seq<char>) -> bool {
    forall|i: int| 0 <= i < s.len() ==> is_digit(#[trigger] s[i])
}

/// The number a sequence of decimal digits denotes.
pub open spec fn digits_val(s: Seq<char>) -> int
    decreases s.len(),
{
    if s.len() == 0 {
        0
    } else {
        digits_val(s.drop_last()) * 10 + digit_val(s.last())
    }
}

/// The integer a string denotes: an optional sign followed by at least
/// one digit, with no bound on its size; anything else denotes nothing.
pub open spec fn parsed_int(s: Seq<char>) -> Option<int> {
    if s.len() > 0 && (s[0] == '-' || s[0] == '+') {
        let body = s.subrange(1, s.len() as int);
        if body.len() > 0 && all_digits(body) {
            if s[0] == '-' {
                Some(-digits_val(body))
            } else {
                Some(digits_val(body))
            }
        } else {
            None
        }
    } else {
        if s.len() > 0 && all_digits(s) {
            Some(digits_val(s))
        } else {
            None
        }
    }
}

/// The value a path segment decodes to, when it denotes an integer that
/// fits the id type.
pub open spec fn spec_parse_i32(s: Seq<char>) -> Option<i32> {
    match parsed_int(s) {
        Some(v) => if -0x8000_0000 <= v && v <= 0x7fff_ffff {
            Some(v as i32)
        } else {
            None
        },
        None => None,
    }
}

/// A digit string denotes a nonnegative number.
proof fn lemma_digits_nonneg(t: Seq<char>)
    requires
        all_digits(t),
    ensures
        digits_val(t) >= 0,
    decreases t.len(),
{
    if t.len() > 0 {
        assert(forall|k: int|
            0 <= k < t.drop_last().len() ==> is_digit(#[trigger] t.drop_last()[k]));
        lemma_digits_nonneg(t.drop_last());
    }
}

/// A prefix of a digit string denotes no more than the whole string.
proof fn lemma_digits_prefix_le(t: Seq<char>, m: int)
    requires
        all_digits(t),
        0 <= m <= t.len(),
    ensures
        digits_val(t.subrange(0, m)) <= digits_val(t),
    decreases t.len() - m,
{
    if m == t.len() {
        assert(t.subrange(0, m) =~= t);
    } else {
        lemma_digits_prefix_le(t, m + 1);
        assert(t.subrange(0, m + 1).drop_last() =~= t.subrange(0, m));
        assert(t.subrange(0, m + 1).last() == t[m]);
        assert(forall|k: int|
            0 <= k < t.subrange(0, m).len() ==> is_digit(#[trigger] t.subrange(0, m)[k]));
        lemma_digits_nonneg(t.subrange(0, m));
        assert(digits_val(t.subrange(0, m + 1)) == digits_val(t.subrange(0, m)) * 10
            + digit_val(t[m]));
    }
}

/// Decodes a path segment as an id: an optional sign followed by digits,
/// within the range of the id type; anything else yields nothing.
pub fn parse_i32(s: &str) -> (r: Option<i32>)
    ensures
        r == spec_parse_i32(s@),
{
    let len = s.unicode_len();
    if len == 0 {
        return None;
    }
    let first = s.get_char(0);
    let neg = first == '-';
    let has_sign = first == '-' || first == '+';
    let start: usize = if has_sign {
        1
    } else {
        0
    };
    if start == len {
        return None;
    }
    let ghost body = s@.subrange(start as int, len as int);
    let mut acc: u64 = 0;
    let mut i: usize = start;
    while i < len
        invariant
            start <= i <= len,
            len == s@.len(),
            start == (if has_sign { 1int } else { 0int }),
            has_sign == (s@[0] == '-' || s@[0] == '+'),
            body == s@.subrange(start as int, len as int),
            forall|k: int| start <= k < i ==> is_digit(#[trigger] s@[k]),
            acc as int == digits_val(s@.subrange(start as int, i as int)),
            acc <= 0x8000_0000,
        decreases len - i,
    {
        let c = s.get_char(i);
        let code = c as u32;
        if code < 48 || code > 57 {
            proof {
                assert(body[i - start] == s@[i as int]);
                assert(!is_digit(body[i - start]));
                if !has_sign {
                    assert(body =~= s@);
                }
            }
            return None;
        }
        proof {
            assert(s@.subrange(start as int, i + 1).drop_last() =~= s@.subrange(
                start as int,
                i as int,
            ));
            assert(s@.subrange(start as int, i + 1).last() == s@[i as int]);
        }
        acc = acc * 10 + ((code - 48) as u64);
        i += 1;
        if acc > 0x8000_0000 {
            proof {
                if !has_sign {
                    assert(body =~= s@);
                }
                if all_digits(body) {
                    assert(body.subrange(0, i - start) =~= s@.subrange(start as int, i as int));
                    lemma_digits_prefix_le(body, i - start);
                }
            }
            return None;
        }
    }
    proof {
        assert(s@.subrange(start as int, len as int) == body);
        if !has_sign {
            assert(body =~= s@);
        }
        assert forall|k: int| 0 <= k < body.len() implies is_digit(#[trigger] body[k]) by {
            assert(body[k] == s@[k + start]);
        }
        assert(body =~= s@.subrange(start as int, len as int));
    }
    if neg {
        if acc == 0x8000_0000 {
            Some(i32::MIN)
        } else {
            Some(-(acc as i32))
        }
    } else {
        if acc <= 0x7fff_ffff {
            Some(acc as i32)
        } else {
            None
        }
    }
}

/// The route table: which operation a method and path select.
pub open spec fn spec_route(m: Method, p: Seq<char>) -> Route {
    match m {
        Method::Get => if p == "/books"@ || p == "/books/"@ {
            Route::ListAll
        } else if p.len() > 7 && p.subrange(0, 7) == "/books/"@ {
            match spec_parse_i32(p.subrange(7, p.len() as int)) {
                Some(n) => Route::GetBook(n),
                None => Route::BadRequest,
            }
        } else {
            Route::NoRoute
        },
        Method::Post => if p == "/books/add"@ {
            Route::AddBook
        } else {
            Route::NoRoute
        },
        Method::Put => if p == "/books/edit"@ {
            Route::EditBook
        } else {
            Route::NoRoute
        },
        Method::Delete => if p.len() > 14 && p.subrange(0, 14) == "/books/delete/"@ {
            match spec_parse_i32(p.subrange(14, p.len() as int)) {
                Some(n) => Route::DeleteBook(n),
                None => Route::BadRequest,
            }
        } else {
            Route::NoRoute
        },
    }
}

/// Routes a request by method and path.
pub fn route(method: Method, path: &str) -> (r: Route)
    ensures
        r == spec_route(method, path@),
{
    let len = path.unicode_len();
    match method {
        Method::Get => {
            if crate::order::str_eq(path, "/books") || crate::order::str_eq(path, "/books/") {
                Route::ListAll
            } else if len > 7 && {
                let pre = path.substring_char(0, 7);
                crate::order::str_eq(pre, "/books/")
            } {
                let seg = path.substring_char(7, len);
                match parse_i32(seg) {
                    Some(n) => Route::GetBook(n),
                    None => Route::BadRequest,
                }
            } else {
                Route::NoRoute
            }
        },
        Method::Post => {
            if crate::order::str_eq(path, "/books/add") {
                Route::AddBook
            } else {
                Route::NoRoute
            }
        },
        Method::Put => {
            if crate::order::str_eq(path, "/books/edit") {
                Route::EditBook
            } else {
                Route::NoRoute
            }
        },
        Method::Delete => {
            if len > 14 && {
                let pre = path.substring_char(0, 14);
                crate::order::str_eq(pre, "/books/delete/")
            } {
                let seg = path.substring_char(14, len);
                match parse_i32(seg) {
                    Some(n) => Route::DeleteBook(n),
                    None => Route::BadRequest,
                }
            } else {
                Route::NoRoute
            }
        },
    }
}

/// What a response carries besides its status code.
#[derive(Debug)]
pub enum ResponseBody {
    /// No body.
    Empty,
    /// The listing of every record.
    Listing(Vec<Book>),
    /// One record.
    Record(Book),
    /// The id the store assigned to a created record.
    CreatedId(i32),
}

/// An HTTP response: a status code and a body.
#[derive(Debug)]
pub struct Response {
    /// The status code.
    pub status: u16,
    /// The body.
    pub body: ResponseBody,
}

/// The status code a storage error maps to: a missing row is the client's
/// problem, everything else means the store is unavailable.
pub fn status_for_storage_error(e: &StorageError) -> (s: u16)
    ensures
        e == StorageError::NotFound ==> s == 404,
        e != StorageError::NotFound ==> s == 503,
{
    match e {
        StorageError::NotFound => 404,
        StorageError::ConnectionFailed => 503,
        StorageError::MigrationFailed => 503,
        StorageError::QueryFailed => 503,
    }
}

/// The status code a service error maps to: invalid input is a bad
/// request, a storage error keeps its storage mapping.
pub fn status_for_service_error(e: &ServiceError) -> (s: u16)
    ensures
        e == ServiceError::Validation ==> s == 400,
        e matches ServiceError::Storage(se) ==> (se == StorageError::NotFound ==> s == 404)
            && (se != StorageError::NotFound ==> s == 503),
{
    match e {
        ServiceError::Validation => 400,
        ServiceError::Storage(se) => status_for_storage_error(se),
    }
}

/// Dispatches one request against the store: routes it, runs the selected
/// record-service operation on the decoded inputs, and encodes the
/// outcome as a status code and body, exactly as the route table says.
pub fn handle_request(store: &mut BookStore, method: Method, path: &str, body: Option<&Book>) -> (r:
    Response)
    requires
        old(store).wf(),
    ensures
        final(store).wf(),
        spec_route(method, path@) == Route::NoRoute ==> r.status == 404 && final(store)@ == old(store)@,
        spec_route(method, path@) == Route::BadRequest ==> r.status == 400 && final(store)@
            == old(store)@,
        spec_route(method, path@) == Route::ListAll ==> r.status == 200 && final(store)@ == old(store)@ && (r.body matches ResponseBody::Listing(v) && listing_of(old(store)@, v@)),
        spec_route(method, path@) matches Route::GetBook(id) ==> final(store)@ == old(store)@
            && (if old(store)@.contains_key(id as int) {
            r.status == 200 && (r.body matches ResponseBody::Record(b) && b@ == old(store)@[id as int])
        } else {
            r.status == 404
        }),
        spec_route(method, path@) == Route::AddBook && body is None ==> r.status == 400 && final(store)@ == old(store)@,
        spec_route(method, path@) == Route::AddBook ==> (body matches Some(b) ==> ((
        is_blank(b.title@) || is_blank(b.author@)) ==> r.status == 400 && final(store)@ == old(
            store,
        )@)),
        spec_route(method, path@) == Route::AddBook && old(store).can_assign_id() ==> (
        body matches Some(b) ==> (!(is_blank(b.title@) || is_blank(b.author@)) ==> (r.status
            == 200 && (r.body matches ResponseBody::CreatedId(id) && id > 0 && id as int == old(
            store,
        ).spec_next_id() && final(store)@ == old(store)@.insert(
            id as int,
            BookModel { id: id as int, title: b.title@, author: b.author@ },
        ))))),
        spec_route(method, path@) == Route::AddBook && !old(store).can_assign_id() ==> (
        body matches Some(b) ==> (!(is_blank(b.title@) || is_blank(b.author@)) ==> r.status
            == 503 && final(store)@ == old(store)@)),
        spec_route(method, path@) == Route::EditBook && body is None ==> r.status == 400
            && final(store)@ == old(store)@,
        spec_route(method, path@) == Route::EditBook ==> (body matches Some(b) ==> ((is_blank(
            b.title@,
        ) || is_blank(b.author@)) ==> r.status == 400 && final(store)@ == old(store)@)),
        spec_route(method, path@) == Route::EditBook ==> (body matches Some(b) ==> (!(is_blank(
            b.title@,
        ) || is_blank(b.author@)) ==> (r.status == 200 && (if old(store)@.contains_key(b@.id) {
            final(store)@ == old(store)@.insert(b@.id, b@)
        } else {
            final(store)@ == old(store)@
        })))),
        spec_route(method, path@) matches Route::DeleteBook(id) ==> r.status == 200 && final(store)@ == old(store)@.remove(id as int),
    {
    match route(method, path) {
        Route::ListAll => {
            match list_records(store) {
                Ok(v) => Response { status: 200, body: ResponseBody::Listing(v) },
                Err(e) => Response { status: status_for_service_error(&e), body: ResponseBody::Empty },
            }
        },
        Route::GetBook(id) => {
            match get_record(store, id) {
                Ok(b) => Response { status: 200, body: ResponseBody::Record(b) },
                Err(e) => Response { status: status_for_service_error(&e), body: ResponseBody::Empty },
            }
        },
        Route::AddBook => {
            match body {
                None => Response { status: 400, body: ResponseBody::Empty },
                Some(b) => {
                    match create_record(store, b.title.as_str(), b.author.as_str()) {
                        Ok(id) => Response { status: 200, body: ResponseBody::CreatedId(id) },
                        Err(e) => Response {
                            status: status_for_service_error(&e),
                            body: ResponseBody::Empty,
                        },
                    }
                },
            }
        },
        Route::EditBook => {
            match body {
                None => Response { status: 400, body: ResponseBody::Empty },
                Some(b) => {
                    match update_record(store, b) {
                        Ok(_) => Response { status: 200, body: ResponseBody::Empty },
                        Err(e) => Response {
                            status: status_for_service_error(&e),
                            body: ResponseBody::Empty,
                        },
                    }
                },
            }
        },
        Route::DeleteBook(id) => {
            match delete_record(store, id) {
                Ok(_) => Response { status: 200, body: ResponseBody::Empty },
                Err(e) => Response { status: status_for_service_error(&e), body: ResponseBody::Empty },
            }
        },
        Route::BadRequest => Response { status: 400, body: ResponseBody::Empty },
        Route::NoRoute => Response { status: 404, body: ResponseBody::Empty },
    }
}

} // verus!
