//! Lexicographic order on strings, used to sort listings by `(title, author)`.

use vstd::prelude::*;
use crate::book::BookModel;

verus! {

/// Lexicographic "less than or equal" on character sequences, comparing code
/// points left to right; a proper prefix sorts before its extensions.
pub open spec fn lex_leq(a: Seq<char>, b: Seq<char>) -> bool
    decreases a.len(),
{
    if a.len() == 0 {
        true
    } else if b.len() == 0 {
        false
    } else if (a[0] as u32) < (b[0] as u32) {
        true
    } else if (a[0] as u32) > (b[0] as u32) {
        false
    } else {
        lex_leq(a.subrange(1, a.len() as int), b.subrange(1, b.len() as int))
    }
}

/// The listing order on records: by title, ties broken by author.
pub open spec fn book_le(a: BookModel, b: BookModel) -> bool {
    if a.title == b.title {
        lex_leq(a.author, b.author)
    } else {
        lex_leq(a.title, b.title)
    }
}

/// Two characters with the same code point are the same character.
proof fn char_code_inj(x: char, y: char)
    requires
        (x as u32) == (y as u32),
    ensures
        x == y,
{
}

/// `lex_leq` is reflexive.
pub proof fn lemma_lex_leq_refl(a: Seq<char>)
    ensures
        lex_leq(a, a),
    decreases a.len(),
{
    if a.len() > 0 {
        lemma_lex_leq_refl(a.subrange(1, a.len() as int));
    }
}

/// `lex_leq` is total: any two sequences are comparable.
pub proof fn lemma_lex_leq_total(a: Seq<char>, b: Seq<char>)
    ensures
        lex_leq(a, b) || lex_leq(b, a),
    decreases a.len(),
{
    if a.len() > 0 && b.len() > 0 && (a[0] as u32) == (b[0] as u32) {
        char_code_inj(a[0], b[0]);
        lemma_lex_leq_total(a.subrange(1, a.len() as int), b.subrange(1, b.len() as int));
    }
}

/// `lex_leq` is antisymmetric: mutual order means equality.
pub proof fn lemma_lex_leq_antisym(a: Seq<char>, b: Seq<char>)
    requires
        lex_leq(a, b),
        lex_leq(b, a),
    ensures
        a == b,
    decreases a.len(),
{
    if a.len() == 0 {
        assert(b.len() == 0);
        assert(a =~= b);
    } else {
        char_code_inj(a[0], b[0]);
        lemma_lex_leq_antisym(
            a.subrange(1, a.len() as int),
            b.subrange(1, b.len() as int),
        );
        assert(a.subrange(1, a.len() as int).len() == a.len() - 1);
        assert(b.subrange(1, b.len() as int).len() == b.len() - 1);
        assert(a.len() == b.len());
        assert forall|i: int| 0 <= i < a.len() implies a[i] == b[i] by {
            if i > 0 {
                assert(a.subrange(1, a.len() as int)[i - 1] == a[i]);
                assert(b.subrange(1, b.len() as int)[i - 1] == b[i]);
            }
        }
        assert(a =~= b);
    }
}

/// `lex_leq` is transitive.
pub proof fn lemma_lex_leq_trans(a: Seq<char>, b: Seq<char>, c: Seq<char>)
    requires
        lex_leq(a, b),
        lex_leq(b, c),
    ensures
        lex_leq(a, c),
    decreases a.len(),
{
    if a.len() > 0 && b.len() > 0 && c.len() > 0 && (a[0] as u32) == (b[0] as u32) && (b[0]
        as u32) == (c[0] as u32) {
        char_code_inj(a[0], b[0]);
        char_code_inj(b[0], c[0]);
        lemma_lex_leq_trans(
            a.subrange(1, a.len() as int),
            b.subrange(1, b.len() as int),
            c.subrange(1, c.len() as int),
        );
    }
}

/// `book_le` is total.
pub proof fn lemma_book_le_total(a: BookModel, b: BookModel)
    ensures
        book_le(a, b) || book_le(b, a),
{
    if a.title == b.title {
        lemma_lex_leq_total(a.author, b.author);
    } else {
        lemma_lex_leq_total(a.title, b.title);
    }
}

/// `book_le` is transitive.
pub proof fn lemma_book_le_trans(a: BookModel, b: BookModel, c: BookModel)
    requires
        book_le(a, b),
        book_le(b, c),
    ensures
        book_le(a, c),
{
    if a.title == b.title && b.title == c.title {
        lemma_lex_leq_trans(a.author, b.author, c.author);
    } else if a.title == b.title {
        // a.title == b.title != c.title
    } else if b.title == c.title {
        // a.title != b.title == c.title
    } else {
        lemma_lex_leq_trans(a.title, b.title, c.title);
        if a.title == c.title {
            lemma_lex_leq_antisym(a.title, b.title);
        }
    }
}

/// Decides `lex_leq` on two string slices.
pub fn lex_leq_exec(a: &str, b: &str) -> (r: bool)
    ensures
        r == lex_leq(a@, b@),
    decreases a@.len(),
{
    let la = a.unicode_len();
    let lb = b.unicode_len();
    if la == 0 {
        true
    } else if lb == 0 {
        false
    } else {
        let ca = a.get_char(0);
        let cb = b.get_char(0);
        if (ca as u32) < (cb as u32) {
            true
        } else if (ca as u32) > (cb as u32) {
            false
        } else {
            let ra = a.substring_char(1, la);
            let rb = b.substring_char(1, lb);
            lex_leq_exec(ra, rb)
        }
    }
}

/// Decides equality of two string slices.
pub fn str_eq(a: &str, b: &str) -> (r: bool)
    ensures
        r == (a@ == b@),
{
    let le = lex_leq_exec(a, b);
    let ge = lex_leq_exec(b, a);
    proof {
        if le && ge {
            lemma_lex_leq_antisym(a@, b@);
        }
        if a@ == b@ {
            lemma_lex_leq_refl(a@);
        }
    }
    le && ge
}

} // verus!
