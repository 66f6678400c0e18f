//! ASCII case folding, the basis of case-insensitive stop-phrase matching.
//!
//! A folded character is represented by its Unicode scalar value with the
//! ASCII uppercase letters mapped onto the lowercase ones; all other
//! characters fold to themselves.

use vstd::prelude::*;

verus! {

/// The scalar value of `c` with an ASCII uppercase letter lowered.
pub open spec fn fold_char(c: char) -> u32 {
    if 65 <= c as u32 && c as u32 <= 90 {
        (c as u32 + 32) as u32
    } else {
        c as u32
    }
}

/// A character sequence folded character by character.
pub open spec fn fold_seq(s: Seq<char>) -> Seq<u32> {
    s.map_values(|c: char| fold_char(c))
}

/// Whether `needle` occurs in `hay` under ASCII case folding.
pub open spec fn contains_fold(hay: Seq<char>, needle: Seq<char>) -> bool {
    exists|i: int|
        0 <= i && i + needle.len() <= hay.len() && #[trigger] fold_seq(hay).subrange(
            i,
            i + needle.len() as int,
        ) == fold_seq(needle)
}

/// Folding distributes over concatenation.
pub proof fn lemma_fold_seq_add(a: Seq<char>, b: Seq<char>)
    ensures
        fold_seq(a + b) == fold_seq(a) + fold_seq(b),
{
    assert(fold_seq(a + b) =~= fold_seq(a) + fold_seq(b));
}

/// Folding commutes with taking a subrange.
pub proof fn lemma_fold_seq_subrange(s: Seq<char>, i: int, j: int)
    requires
        0 <= i <= j <= s.len(),
    ensures
        fold_seq(s.subrange(i, j)) == fold_seq(s).subrange(i, j),
{
    assert(fold_seq(s.subrange(i, j)) =~= fold_seq(s).subrange(i, j));
}

/// Folding commutes with dropping a prefix.
pub proof fn lemma_fold_seq_skip(s: Seq<char>, i: int)
    requires
        0 <= i <= s.len(),
    ensures
        fold_seq(s.skip(i)) == fold_seq(s).skip(i),
{
    assert(fold_seq(s.skip(i)) =~= fold_seq(s).skip(i));
}

/// Folding commutes with keeping a prefix.
pub proof fn lemma_fold_seq_take(s: Seq<char>, i: int)
    requires
        0 <= i <= s.len(),
    ensures
        fold_seq(s.take(i)) == fold_seq(s).take(i),
{
    assert(fold_seq(s.take(i)) =~= fold_seq(s).take(i));
}

/// Whether two characters are equal once folded.
pub fn chars_fold_eq(a: char, b: char) -> (r: bool)
    ensures
        r == (fold_char(a) == fold_char(b)),
{
    let ua = a as u32;
    let ub = b as u32;
    let fa = if 65 <= ua && ua <= 90 {
        ua + 32
    } else {
        ua
    };
    let fb = if 65 <= ub && ub <= 90 {
        ub + 32
    } else {
        ub
    };
    fa == fb
}

/// Whether `needle@.skip(needle_from)`, folded, is a prefix of
/// `hay@.skip(hay_from)`, folded.
pub fn fold_starts_with(hay: &str, hay_from: usize, needle: &str, needle_from: usize) -> (r: bool)
    requires
        hay_from <= hay@.len(),
        needle_from <= needle@.len(),
    ensures
        r == fold_seq(needle@.skip(needle_from as int)).is_prefix_of(
            fold_seq(hay@.skip(hay_from as int)),
        ),
{
    let hay_len = hay.unicode_len();
    let needle_len = needle.unicode_len();
    let ghost fh = fold_seq(hay@.skip(hay_from as int));
    let ghost fn_ = fold_seq(needle@.skip(needle_from as int));
    if needle_len - needle_from > hay_len - hay_from {
        assert(fn_.len() > fh.len());
        return false;
    }
    let count = needle_len - needle_from;
    let mut i: usize = 0;
    while i < count
        invariant
            count == needle_len - needle_from,
            needle_from + count <= needle@.len(),
            hay_from + count <= hay@.len(),
            hay_len == hay@.len(),
            needle_len == needle@.len(),
            i <= count,
            fh == fold_seq(hay@.skip(hay_from as int)),
            fn_ == fold_seq(needle@.skip(needle_from as int)),
            fn_.len() == count,
            fn_.len() <= fh.len(),
            forall|j: int| 0 <= j < i ==> fn_[j] == fh[j],
        decreases count - i,
    {
        let hc = hay.get_char(hay_from + i);
        let nc = needle.get_char(needle_from + i);
        if !chars_fold_eq(hc, nc) {
            assert(fn_[i as int] != fh[i as int]);
            assert(!fn_.is_prefix_of(fh));
            return false;
        }
        i += 1;
    }
    assert(fn_ =~= fh.subrange(0, fn_.len() as int));
    true
}

} // verus!
