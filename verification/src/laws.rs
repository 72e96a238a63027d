//! Laws of the store's contents: how the effects that the storage
//! operations promise in their contracts compose.
//!
//! Each operation's contract describes its effect on the contents map
//! (`insert` for create and update, `remove` for delete); these proofs
//! state what those effects imply across calls.

use vstd::prelude::*;
use crate::book::BookModel;

verus! {

/// Creating two records gives the same contents whichever goes first:
/// with distinct ids, the two insertions commute. Together with the
/// listing contract, which pins the listing to the contents alone, the
/// listing does not depend on creation order.
pub proof fn lemma_creation_order_irrelevant(
    m: Map<int, BookModel>,
    id1: int,
    b1: BookModel,
    id2: int,
    b2: BookModel,
)
    requires
        id1 != id2,
    ensures
        m.insert(id1, b1).insert(id2, b2) == m.insert(id2, b2).insert(id1, b1),
{
    assert(m.insert(id1, b1).insert(id2, b2) =~= m.insert(id2, b2).insert(id1, b1));
}

/// A record just created is read back exactly: after inserting a fresh
/// positive id, that id maps to the created title and author.
pub proof fn lemma_created_record_is_found(
    m: Map<int, BookModel>,
    id: int,
    title: Seq<char>,
    author: Seq<char>,
)
    requires
        !m.contains_key(id),
        id >= 1,
    ensures
        m.insert(id, BookModel { id, title, author }).contains_key(id),
        m.insert(id, BookModel { id, title, author })[id] == (BookModel { id, title, author }),
        id > 0,
{
}

/// An update touches only its target: at every other id the contents are
/// unchanged, whether or not the target exists.
pub proof fn lemma_update_leaves_others(m: Map<int, BookModel>, b: BookModel, other: int)
    requires
        other != b.id,
    ensures
        ({
            let u = if m.contains_key(b.id) {
                m.insert(b.id, b)
            } else {
                m
            };
            u.contains_key(other) == m.contains_key(other) && (m.contains_key(other)
                ==> u[other] == m[other])
        }),
{
}

/// A delete removes exactly its id: the id is gone and every other id
/// keeps its record.
pub proof fn lemma_delete_removes_exactly(m: Map<int, BookModel>, id: int, other: int)
    requires
        other != id,
    ensures
        !m.remove(id).contains_key(id),
        m.remove(id).contains_key(other) == m.contains_key(other),
        m.contains_key(other) ==> m.remove(id)[other] == m[other],
{
}

/// Deleting an id twice is a no-op the second time: the contents after
/// the second delete are the contents after the first.
pub proof fn lemma_delete_twice(m: Map<int, BookModel>, id: int)
    ensures
        m.remove(id).remove(id) == m.remove(id),
{
    assert(m.remove(id).remove(id) =~= m.remove(id));
}

} // verus!
