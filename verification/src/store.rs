//! The storage gateway model: a store of book records keyed by id.
//!
//! The abstract contents of a store is a `Map<int, BookModel>` from id to
//! record. Every operation's contract describes its effect on that map.
//! Ids are assigned by the store itself, sequentially from 1.

use vstd::prelude::*;
use crate::book::{Book, BookModel};
use crate::errors::StorageError;
use crate::order::{book_le, lemma_book_le_total, lemma_book_le_trans, lex_leq_exec, str_eq};

verus! {

/// The abstract contents of a sequence of records: the map from each
/// record's id to the record, later entries overriding earlier ones.
spec fn contents_of(s: Seq<Book>) -> Map<int, BookModel>
    decreases s.len(),
{
    if s.len() == 0 {
        Map::empty()
    } else {
        contents_of(s.drop_last()).insert(s.last()@.id, s.last()@)
    }
}

/// No two records of the sequence share an id.
spec fn unique_ids(s: Seq<Book>) -> bool {
    forall|i: int, j: int| 0 <= i < j < s.len() ==> s[i]@.id != s[j]@.id
}

/// A listing is sorted by title, ties broken by author.
pub open spec fn books_sorted(s: Seq<Book>) -> bool {
    forall|i: int, j: int| 0 <= i < j < s.len() ==> book_le(s[i]@, s[j]@)
}

/// A sequence of records is a listing of the contents `m`: sorted by
/// title then author, every entry stored under its id, no id repeated,
/// and every stored id present.
pub open spec fn listing_of(m: Map<int, BookModel>, v: Seq<Book>) -> bool {
    &&& books_sorted(v)
    &&& forall|k: int|
        0 <= k < v.len() ==> m.contains_key(#[trigger] v[k]@.id) && m[v[k]@.id] == v[k]@
    &&& forall|k1: int, k2: int| 0 <= k1 < k2 < v.len() ==> v[k1]@.id != v[k2]@.id
    &&& forall|id: int|
        #[trigger] m.contains_key(id) ==> exists|k: int| 0 <= k < v.len() && v[k]@.id == id
}

/// The store of book records. It owns the records and assigns their ids.
pub struct BookStore {
    books: Vec<Book>,
    next_id: i32,
}

impl View for BookStore {
    type V = Map<int, BookModel>;

    closed spec fn view(&self) -> Map<int, BookModel> {
        contents_of(self.books@)
    }
}

/// With unique ids, the contents map holds exactly the records of the
/// sequence, each under its own id.
proof fn lemma_contents_characterize(s: Seq<Book>)
    requires
        unique_ids(s),
    ensures
        forall|i: int|
            0 <= i < s.len() ==> contents_of(s).contains_key(#[trigger] s[i]@.id)
                && contents_of(s)[s[i]@.id] == s[i]@,
        forall|id: int|
            #[trigger] contents_of(s).contains_key(id) ==> exists|i: int|
                0 <= i < s.len() && s[i]@.id == id,
    decreases s.len(),
{
    if s.len() > 0 {
        let t = s.drop_last();
        assert(unique_ids(t)) by {
            assert(forall|i: int| 0 <= i < t.len() ==> t[i] == s[i]);
        }
        lemma_contents_characterize(t);
        assert forall|i: int|
            0 <= i < s.len() implies contents_of(s).contains_key(#[trigger] s[i]@.id)
                && contents_of(s)[s[i]@.id] == s[i]@ by {
            if i < s.len() - 1 {
                assert(t[i] == s[i]);
                assert(s[i]@.id != s.last()@.id);
            }
        }
        assert forall|id: int|
            #[trigger] contents_of(s).contains_key(id) implies exists|i: int|
                0 <= i < s.len() && s[i]@.id == id by {
            if id == s.last()@.id {
                assert(s[s.len() - 1]@.id == id);
            } else {
                assert(contents_of(t).contains_key(id));
                let i = choose|i: int| 0 <= i < t.len() && t[i]@.id == id;
                assert(s[i]@.id == id);
            }
        }
    }
}

impl BookStore {
    /// The store is well-formed: ids are unique, positive, and below the
    /// next id to be assigned.
    pub closed spec fn wf(&self) -> bool {
        &&& unique_ids(self.books@)
        &&& forall|i: int|
            0 <= i < self.books@.len() ==> 1 <= (#[trigger] self.books@[i]@.id)
                < self.next_id as int
        &&& self.next_id >= 1
    }

    /// The next id the store will assign.
    pub closed spec fn spec_next_id(&self) -> int {
        self.next_id as int
    }

    /// Whether the store can still assign a fresh id.
    pub open spec fn can_assign_id(&self) -> bool {
        self.spec_next_id() < i32::MAX as int
    }

    /// Every record of a well-formed store sits under its own id, which is
    /// positive and below the next id to be assigned.
    pub proof fn lemma_keys_match(&self)
        requires
            self.wf(),
        ensures
            forall|id: int|
                #[trigger] self@.contains_key(id) ==> self@[id].id == id && 1 <= id
                    < self.spec_next_id(),
    {
        lemma_contents_characterize(self.books@);
        assert forall|id: int|
            #[trigger] self@.contains_key(id) implies self@[id].id == id && 1 <= id
                < self.spec_next_id() by {
            let i = choose|i: int| 0 <= i < self.books@.len() && self.books@[i]@.id == id;
            assert(self@[id] == self.books@[i]@);
        }
    }

    /// Opens an empty store; the first id it assigns is 1.
    pub fn new() -> (r: BookStore)
        ensures
            r.wf(),
            r@ == Map::<int, BookModel>::empty(),
            r.spec_next_id() == 1,
    {
        BookStore { books: Vec::new(), next_id: 1 }
    }

    /// Returns the unique record with the given id, or `NotFound` when no
    /// record matches; `NotFound` is the only error a missing id produces.
    pub fn book_by_id(&self, id: i32) -> (r: Result<Book, StorageError>)
        requires
            self.wf(),
        ensures
            self@.contains_key(id as int) ==> (r matches Ok(b) && b@ == self@[id as int]
                && b.id == id),
            !self@.contains_key(id as int) ==> r == Err::<Book, StorageError>(
                StorageError::NotFound,
            ),
    {
        proof {
            lemma_contents_characterize(self.books@);
        }
        let n = self.books.len();
        let mut i: usize = 0;
        while i < n
            invariant
                n == self.books@.len(),
                i <= n,
                self.wf(),
                forall|j: int| 0 <= j < i ==> self.books@[j]@.id != id as int,
            decreases n - i,
        {
            if self.books[i].id == id {
                proof {
                    lemma_contents_characterize(self.books@);
                }
                return Ok(self.books[i].clone());
            }
            i += 1;
        }
        proof {
            lemma_contents_characterize(self.books@);
            if self@.contains_key(id as int) {
                let j = choose|j: int|
                    0 <= j < self.books@.len() && self.books@[j]@.id == id as int;
            }
        }
        Err(StorageError::NotFound)
    }

    /// Inserts a new record, assigning the next free id, and returns that
    /// id. Empty strings are legal at this layer. The one failure is an
    /// exhausted id space, reported as `QueryFailed` with the store
    /// unchanged.
    pub fn add_book(&mut self, title: &str, author: &str) -> (r: Result<i32, StorageError>)
        requires
            old(self).wf(),
        ensures
            final(self).wf(),
            old(self).can_assign_id() ==> (r matches Ok(id) && {
                &&& id as int == old(self).spec_next_id()
                &&& id > 0
                &&& !old(self)@.contains_key(id as int)
                &&& final(self)@ == old(self)@.insert(
                    id as int,
                    BookModel { id: id as int, title: title@, author: author@ },
                )
                &&& final(self).spec_next_id() == old(self).spec_next_id() + 1
            }),
            !old(self).can_assign_id() ==> r == Err::<i32, StorageError>(
                StorageError::QueryFailed,
            ) && *final(self) == *old(self),
    {
        if self.next_id == i32::MAX {
            return Err(StorageError::QueryFailed);
        }
        let id = self.next_id;
        proof {
            lemma_contents_characterize(self.books@);
            if self@.contains_key(id as int) {
                let j = choose|j: int|
                    0 <= j < self.books@.len() && self.books@[j]@.id == id as int;
            }
        }
        let book = Book { id, title: String::from_str(title), author: String::from_str(author) };
        self.books.push(book);
        self.next_id = id + 1;
        proof {
            let s = old(self).books@;
            assert(self.books@.drop_last() =~= s);
            assert(unique_ids(self.books@)) by {
                assert(forall|i: int|
                    0 <= i < s.len() ==> self.books@[i] == s[i]);
            }
        }
        Ok(id)
    }

    /// Overwrites the title and author of the record whose id matches the
    /// given record's id. When no record matches, the store is unchanged
    /// and no error is raised: the update is a silent no-op.
    pub fn update_book(&mut self, book: &Book) -> (r: Result<(), StorageError>)
        requires
            old(self).wf(),
        ensures
            final(self).wf(),
            r == Ok::<(), StorageError>(()),
            old(self)@.contains_key(book@.id) ==> final(self)@ == old(self)@.insert(
                book@.id,
                book@,
            ),
            !old(self)@.contains_key(book@.id) ==> final(self)@ == old(self)@,
            final(self).spec_next_id() == old(self).spec_next_id(),
    {
        proof {
            lemma_contents_characterize(self.books@);
        }
        let n = self.books.len();
        let mut i: usize = 0;
        while i < n
            invariant
                n == self.books@.len(),
                i <= n,
                self == old(self),
                self.wf(),
                forall|j: int| 0 <= j < i ==> self.books@[j]@.id != book@.id,
            decreases n - i,
        {
            if self.books[i].id == book.id {
                let fresh = book.clone();
                self.books.remove(i);
                self.books.insert(i, fresh);
                proof {
                    let s = old(self).books@;
                    assert(self.books@ =~= s.update(i as int, fresh));
                    lemma_contents_update(s, i as int, fresh);
                    lemma_contents_characterize(s);
                    assert(unique_ids(self.books@)) by {
                        assert(forall|k: int|
                            0 <= k < s.len() && k != i ==> self.books@[k] == s[k]);
                    }
                }
                return Ok(());
            }
            i += 1;
        }
        proof {
            lemma_contents_characterize(self.books@);
            if self@.contains_key(book@.id) {
                let j = choose|j: int|
                    0 <= j < self.books@.len() && self.books@[j]@.id == book@.id;
            }
        }
        Ok(())
    }

    /// Removes the record with the given id. Deleting an absent id is a
    /// silent no-op: the contents lose exactly that key either way.
    pub fn delete_book(&mut self, id: i32) -> (r: Result<(), StorageError>)
        requires
            old(self).wf(),
        ensures
            final(self).wf(),
            r == Ok::<(), StorageError>(()),
            final(self)@ == old(self)@.remove(id as int),
            final(self).spec_next_id() == old(self).spec_next_id(),
    {
        proof {
            lemma_contents_characterize(self.books@);
        }
        let n = self.books.len();
        let mut i: usize = 0;
        while i < n
            invariant
                n == self.books@.len(),
                i <= n,
                self == old(self),
                self.wf(),
                forall|j: int| 0 <= j < i ==> self.books@[j]@.id != id as int,
            decreases n - i,
        {
            if self.books[i].id == id {
                self.books.remove(i);
                proof {
                    let s = old(self).books@;
                    lemma_contents_remove(s, i as int);
                    lemma_contents_characterize(s);
                    assert(unique_ids(self.books@)) by {
                        assert(forall|k: int|
                            0 <= k < self.books@.len() ==> (#[trigger] self.books@[k]) == (
                            if k < i as int {
                                s[k]
                            } else {
                                s[k + 1]
                            }));
                    }
                }
                return Ok(());
            }
            i += 1;
        }
        proof {
            lemma_contents_characterize(self.books@);
            if self@.contains_key(id as int) {
                let j = choose|j: int|
                    0 <= j < self.books@.len() && self.books@[j]@.id == id as int;
            }
            assert(self@.remove(id as int) =~= self@);
        }
        Ok(())
    }

    /// Returns every record, sorted by title ascending with ties broken by
    /// author ascending. The listing holds exactly the store's contents:
    /// each returned record is stored under its id, no id repeats, and
    /// every stored id appears. An empty store yields an empty listing.
    pub fn all_books(&self) -> (r: Result<Vec<Book>, StorageError>)
        requires
            self.wf(),
        ensures
            r matches Ok(v) && listing_of(self@, v@),
    {
        let mut out: Vec<Book> = Vec::new();
        let n = self.books.len();
        let mut i: usize = 0;
        let ghost mut src: Map<int, int> = Map::empty();
        let ghost mut pos: Map<int, int> = Map::empty();
        while i < n
            invariant
                n == self.books@.len(),
                i <= n,
                self.wf(),
                books_sorted(out@),
                out@.len() == i as int,
                forall|k: int|
                    0 <= k < i ==> #[trigger] src.contains_key(k) && 0 <= src[k] < i
                        && out@[k]@ == self.books@[src[k]]@,
                forall|k1: int, k2: int| 0 <= k1 < k2 < i ==> src[k1] != src[k2],
                forall|j: int|
                    0 <= j < i ==> #[trigger] pos.contains_key(j) && 0 <= pos[j] < i
                        && out@[pos[j]]@ == self.books@[j]@,
            decreases n - i,
        {
            let b = self.books[i].clone();
            let ghost prev = out@;
            let ghost old_src = src;
            let ghost old_pos = pos;
            proof {
                assert forall|k: int|
                    0 <= k < i implies #[trigger] old_src.contains_key(k) && 0 <= old_src[k]
                        < i && prev[k]@ == self.books@[old_src[k]]@ by {
                    assert(src.contains_key(k));
                    assert(0 <= src[k] < i);
                    assert((out@[k])@ == self.books@[src[k]]@);
                }
                assert forall|k1: int, k2: int|
                    0 <= k1 < k2 < i implies old_src[k1] != old_src[k2] by {
                    assert(src[k1] != src[k2]);
                }
                assert forall|j: int|
                    0 <= j < i implies #[trigger] old_pos.contains_key(j) && 0 <= old_pos[j]
                        < i && prev[old_pos[j]]@ == self.books@[j]@ by {
                    assert(pos.contains_key(j) && 0 <= pos[j] < i && out@[pos[j]]@
                        == self.books@[j]@);
                }
            }
            let p = insert_sorted(&mut out, b);
            proof {
                prev.insert_ensures(p as int, b);
                src = Map::new(
                    |k: int| 0 <= k < i + 1,
                    |k: int|
                        if k < p { old_src[k] } else if k == p { i as int } else {
                            old_src[k - 1]
                        },
                );
                pos = Map::new(
                    |j: int| 0 <= j < i + 1,
                    |j: int|
                        if j == i { p as int } else if old_pos[j] < p { old_pos[j] } else {
                            old_pos[j] + 1
                        },
                );
                assert forall|k: int|
                    0 <= k < i + 1 implies #[trigger] src.contains_key(k) && 0 <= src[k] < i
                        + 1 && out@[k]@ == self.books@[src[k]]@ by {
                    if k < p {
                        assert(old_src.contains_key(k));
                        assert(src[k] == old_src[k]);
                        assert(out@[k] == prev[k]);
                        assert(prev[k]@ == self.books@[old_src[k]]@);
                    } else if k == p {
                        assert(src[k] == i as int);
                        assert(out@[k] == b);
                        assert(b@ == self.books@[i as int]@);
                    } else {
                        assert(old_src.contains_key(k - 1));
                        assert(src[k] == old_src[k - 1]);
                        assert(out@[k] == prev[k - 1]);
                        assert(prev[k - 1]@ == self.books@[old_src[k - 1]]@);
                    }
                }
                assert forall|k1: int, k2: int|
                    0 <= k1 < k2 < i + 1 implies src[k1] != src[k2] by {
                    if k1 == p {
                        assert(old_src.contains_key(k2 - 1));
                        assert(src[k2] == old_src[k2 - 1] && old_src[k2 - 1] < i as int);
                    } else if k2 == p {
                        assert(old_src.contains_key(k1));
                        assert(src[k1] == old_src[k1] && old_src[k1] < i as int);
                    } else {
                        let a1: int = if k1 < p { k1 } else { k1 - 1 };
                        let a2: int = if k2 < p { k2 } else { k2 - 1 };
                        assert(old_src.contains_key(a1) && old_src.contains_key(a2));
                        assert(src[k1] == old_src[a1] && src[k2] == old_src[a2]);
                    }
                }
                assert forall|j: int|
                    0 <= j < i + 1 implies #[trigger] pos.contains_key(j) && 0 <= pos[j] < i
                        + 1 && out@[pos[j]]@ == self.books@[j]@ by {
                    if j == i {
                        assert(pos[j] == p as int);
                        assert(out@[p as int] == b);
                        assert(b@ == self.books@[i as int]@);
                    } else {
                        assert(old_pos.contains_key(j));
                        assert(0 <= old_pos[j] < i as int && prev[old_pos[j]]@
                            == self.books@[j]@);
                        if old_pos[j] < p {
                            assert(pos[j] == old_pos[j]);
                            assert(out@[old_pos[j]] == prev[old_pos[j]]);
                        } else {
                            assert(pos[j] == old_pos[j] + 1);
                            assert(out@[old_pos[j] + 1] == prev[old_pos[j]]);
                        }
                    }
                }
            }
            i += 1;
        }
        proof {
            lemma_contents_characterize(self.books@);
            assert forall|k: int|
                0 <= k < out@.len() implies self@.contains_key(#[trigger] out@[k]@.id)
                    && self@[out@[k]@.id] == out@[k]@ by {
                assert(src.contains_key(k));
                assert(out@[k]@ == self.books@[src[k]]@);
            }
            assert forall|k1: int, k2: int|
                0 <= k1 < k2 < out@.len() implies out@[k1]@.id != out@[k2]@.id by {
                assert(src.contains_key(k1) && src.contains_key(k2));
                assert(out@[k1]@ == self.books@[src[k1]]@);
                assert(out@[k2]@ == self.books@[src[k2]]@);
                assert(src[k1] != src[k2]);
                if src[k1] < src[k2] {
                    assert(self.books@[src[k1]]@.id != self.books@[src[k2]]@.id);
                } else {
                    assert(self.books@[src[k2]]@.id != self.books@[src[k1]]@.id);
                }
            }
            assert forall|id: int| #[trigger] self@.contains_key(id) implies exists|k: int|
                0 <= k < out@.len() && out@[k]@.id == id by {
                let j = choose|j: int|
                    0 <= j < self.books@.len() && self.books@[j]@.id == id;
                assert(pos.contains_key(j));
                assert(0 <= pos[j] < out@.len() && out@[pos[j]]@.id == id);
            }
        }
        Ok(out)
    }
}

/// Replacing the record at a position by one with the same id rewrites the
/// contents map at exactly that id.
proof fn lemma_contents_update(s: Seq<Book>, i: int, b: Book)
    requires
        unique_ids(s),
        0 <= i < s.len(),
        b@.id == s[i]@.id,
    ensures
        contents_of(s.update(i, b)) == contents_of(s).insert(b@.id, b@),
    decreases s.len(),
{
    let t = s.drop_last();
    assert(unique_ids(t)) by {
        assert(forall|k: int| 0 <= k < t.len() ==> t[k] == s[k]);
    }
    if i == s.len() - 1 {
        assert(s.update(i, b).drop_last() =~= t);
        assert(s.update(i, b).last() == b);
        assert(contents_of(s.update(i, b)) == contents_of(t).insert(b@.id, b@));
        assert(contents_of(t).insert(s.last()@.id, s.last()@).insert(b@.id, b@) =~= contents_of(
            t,
        ).insert(b@.id, b@));
    } else {
        lemma_contents_update(t, i, b);
        assert(s.update(i, b).drop_last() =~= t.update(i, b));
        assert(s.update(i, b).last() == s.last());
        assert(contents_of(s.update(i, b)) == contents_of(t).insert(b@.id, b@).insert(
            s.last()@.id,
            s.last()@,
        ));
        assert(s.last()@.id != b@.id);
        assert(contents_of(t).insert(b@.id, b@).insert(s.last()@.id, s.last()@) =~= contents_of(
            t,
        ).insert(s.last()@.id, s.last()@).insert(b@.id, b@));
    }
}

/// Removing the record at a position removes exactly its id from the
/// contents map.
proof fn lemma_contents_remove(s: Seq<Book>, i: int)
    requires
        unique_ids(s),
        0 <= i < s.len(),
    ensures
        contents_of(s.remove(i)) == contents_of(s).remove(s[i]@.id),
    decreases s.len(),
{
    let t = s.drop_last();
    assert(unique_ids(t)) by {
        assert(forall|k: int| 0 <= k < t.len() ==> t[k] == s[k]);
    }
    lemma_contents_characterize(s);
    lemma_contents_characterize(t);
    if i == s.len() - 1 {
        assert(s.remove(i) =~= t);
        assert(!contents_of(t).contains_key(s[i]@.id)) by {
            if contents_of(t).contains_key(s[i]@.id) {
                let k = choose|k: int| 0 <= k < t.len() && t[k]@.id == s[i]@.id;
                assert(s[k]@.id == s[i]@.id);
            }
        }
        assert(contents_of(t).insert(s.last()@.id, s.last()@).remove(s[i]@.id) =~= contents_of(
            t,
        ));
    } else {
        lemma_contents_remove(t, i);
        assert(s.remove(i).drop_last() =~= t.remove(i));
        assert(s.remove(i).last() == s.last());
        assert(contents_of(s.remove(i)) == contents_of(t).remove(t[i]@.id).insert(
            s.last()@.id,
            s.last()@,
        ));
        assert(t[i]@.id == s[i]@.id);
        assert(s.last()@.id != s[i]@.id);
        assert(contents_of(t).remove(s[i]@.id).insert(s.last()@.id, s.last()@) =~= contents_of(
            t,
        ).insert(s.last()@.id, s.last()@).remove(s[i]@.id));
    }
}

/// Decides the listing order on two records.
fn book_le_exec(a: &Book, b: &Book) -> (r: bool)
    ensures
        r == book_le(a@, b@),
{
    if str_eq(a.title.as_str(), b.title.as_str()) {
        lex_leq_exec(a.author.as_str(), b.author.as_str())
    } else {
        lex_leq_exec(a.title.as_str(), b.title.as_str())
    }
}

/// Inserts a record into a sorted listing, keeping it sorted; the record
/// lands at some position, everything else keeps its relative order.
fn insert_sorted(v: &mut Vec<Book>, b: Book) -> (p: usize)
    requires
        books_sorted(old(v)@),
    ensures
        books_sorted(final(v)@),
        p <= old(v)@.len(),
        final(v)@ == old(v)@.insert(p as int, b),
{
    let mut idx: usize = 0;
    let mut scanning = true;
    while scanning
        invariant
            v@ == old(v)@,
            idx <= v@.len(),
            books_sorted(v@),
            forall|k: int| 0 <= k < idx ==> book_le((#[trigger] v@[k])@, b@),
            !scanning ==> (idx == v@.len() || !book_le(v@[idx as int]@, b@)),
        decreases v@.len() - idx + (if scanning { 1int } else { 0int }),
    {
        if idx < v.len() {
            if book_le_exec(&v[idx], &b) {
                idx += 1;
            } else {
                scanning = false;
            }
        } else {
            scanning = false;
        }
    }
    let ghost prev = v@;
    v.insert(idx, b);
    proof {
        prev.insert_ensures(idx as int, b);
        assert forall|i: int, j: int|
            0 <= i < j < v@.len() implies book_le(v@[i]@, v@[j]@) by {
            let p = idx as int;
            if j < p {
                assert(v@[i] == prev[i] && v@[j] == prev[j]);
            } else if i < p && j == p {
                assert(v@[i] == prev[i]);
            } else if i < p && j > p {
                assert(v@[i] == prev[i] && v@[j] == prev[j - 1]);
            } else if i == p {
                assert(v@[j] == prev[j - 1]);
                lemma_book_le_total(prev[p]@, b@);
                if j - 1 > p {
                    lemma_book_le_trans(b@, prev[p]@, prev[j - 1]@);
                }
            } else {
                assert(v@[i] == prev[i - 1] && v@[j] == prev[j - 1]);
            }
        }
    }
    idx
}

} // verus!
