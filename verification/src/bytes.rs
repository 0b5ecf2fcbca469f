//! Helpers on byte strings: joining, copying and comparing.
use core::cmp::Ordering;
use vstd::prelude::*;

verus! {

/// Appends `bytes` to `buf`.
pub(crate) fn append(buf: &mut Vec<u8>, bytes: &[u8])
    ensures
        final(buf)@ == old(buf)@ + bytes@,
{
    let ghost before = buf@;
    buf.extend_from_slice(bytes);
    assert(buf@ =~= before + bytes@);
}

/// A vector of its own with the bytes `bytes[from..to]`.
pub(crate) fn copy_range(bytes: &[u8], from: usize, to: usize) -> (copy: Vec<u8>)
    requires
        from <= to <= bytes@.len(),
    ensures
        copy@ == bytes@.subrange(from as int, to as int),
{
    let mut copy: Vec<u8> = Vec::new();
    append(&mut copy, vstd::slice::slice_subrange(bytes, from, to));
    assert(copy@ =~= bytes@.subrange(from as int, to as int));
    copy
}

/// A copy of a byte vector.
pub(crate) fn copy_vec(bytes: &Vec<u8>) -> (copy: Vec<u8>)
    ensures
        copy@ == bytes@,
{
    let mut copy: Vec<u8> = Vec::new();
    append(&mut copy, bytes.as_slice());
    assert(copy@ =~= bytes@);
    copy
}

/// How `a` and `b` compare as words in a dictionary of bytes: the first position
/// at which they differ decides, and a proper prefix comes before the longer word.
pub open spec fn lexicographic(a: Seq<u8>, b: Seq<u8>) -> Ordering
    decreases a.len(),
{
    if a.len() == 0 && b.len() == 0 {
        Ordering::Equal
    } else if a.len() == 0 {
        Ordering::Less
    } else if b.len() == 0 {
        Ordering::Greater
    } else if a[0] < b[0] {
        Ordering::Less
    } else if a[0] > b[0] {
        Ordering::Greater
    } else {
        lexicographic(a.drop_first(), b.drop_first())
    }
}

/// Compares two hashes byte by byte, as words in a dictionary.
pub fn compare_hashes(a: &[u8], b: &[u8]) -> (ord: Ordering)
    ensures
        ord == lexicographic(a@, b@),
{
    let mut i: usize = 0;
    assert(a@.skip(0) =~= a@ && b@.skip(0) =~= b@);
    while i < a.len() && i < b.len()
        invariant
            i <= a@.len(),
            i <= b@.len(),
            lexicographic(a@, b@) == lexicographic(a@.skip(0 + i), b@.skip(0 + i)),
        decreases a@.len() - i,
    {
        assert(a@.skip(0 + i).drop_first() =~= a@.skip(i + 1));
        assert(b@.skip(0 + i).drop_first() =~= b@.skip(i + 1));
        if a[i] < b[i] {
            return Ordering::Less;
        }
        if a[i] > b[i] {
            return Ordering::Greater;
        }
        i = i + 1;
    }
    if a.len() < b.len() {
        Ordering::Less
    } else if a.len() > b.len() {
        Ordering::Greater
    } else {
        Ordering::Equal
    }
}

/// Whether two byte strings are the same.
pub fn compare_byte_slices(a: &[u8], b: &[u8]) -> (same: bool)
    ensures
        same == (a@ == b@),
{
    proof {
        comparison_finds_equality(a@, b@);
    }
    match compare_hashes(a, b) {
        Ordering::Equal => true,
        Ordering::Less => false,
        Ordering::Greater => false,
    }
}

/// Two byte strings compare as equal exactly when they are the same.
pub proof fn comparison_finds_equality(a: Seq<u8>, b: Seq<u8>)
    ensures
        lexicographic(a, b) == Ordering::Equal <==> a == b,
    decreases a.len(),
{
    if a.len() != 0 && b.len() != 0 {
        comparison_finds_equality(a.drop_first(), b.drop_first());
        if a[0] == b[0] && a.drop_first() == b.drop_first() {
            assert(a =~= seq![a[0]] + a.drop_first());
            assert(b =~= seq![b[0]] + b.drop_first());
        }
    } else if a.len() == b.len() {
        assert(a =~= b);
    }
}

/// Swapping the two sides of a comparison reverses it.
pub proof fn comparison_reverses(a: Seq<u8>, b: Seq<u8>)
    ensures
        lexicographic(a, b) == Ordering::Less <==> lexicographic(b, a) == Ordering::Greater,
    decreases a.len(),
{
    if a.len() != 0 && b.len() != 0 {
        comparison_reverses(a.drop_first(), b.drop_first());
    }
}

/// What comes before a word comes before every word after it.
pub proof fn comparison_is_transitive(a: Seq<u8>, b: Seq<u8>, c: Seq<u8>)
    requires
        lexicographic(a, b) == Ordering::Less,
        lexicographic(b, c) == Ordering::Less,
    ensures
        lexicographic(a, c) == Ordering::Less,
    decreases a.len(),
{
    if a.len() != 0 && b.len() != 0 && c.len() != 0 && a[0] == b[0] && b[0] == c[0] {
        comparison_is_transitive(a.drop_first(), b.drop_first(), c.drop_first());
    }
}

/// The first position at which two words differ decides how they compare.
pub proof fn first_difference_decides(a: Seq<u8>, b: Seq<u8>, i: int)
    requires
        0 <= i < a.len(),
        i < b.len(),
        forall|j: int| 0 <= j < i ==> a[j] == b[j],
        a[i] < b[i],
    ensures
        lexicographic(a, b) == Ordering::Less,
        lexicographic(b, a) == Ordering::Greater,
    decreases i,
{
    if i > 0 {
        first_difference_decides(a.drop_first(), b.drop_first(), i - 1);
    }
}

/// A word comes before every longer word that begins with it.
pub proof fn prefix_comes_first(a: Seq<u8>, rest: Seq<u8>)
    requires
        rest.len() > 0,
    ensures
        lexicographic(a, a + rest) == Ordering::Less,
        lexicographic(a + rest, a) == Ordering::Greater,
    decreases a.len(),
{
    if a.len() > 0 {
        assert((a + rest).drop_first() =~= a.drop_first() + rest);
        prefix_comes_first(a.drop_first(), rest);
    }
}

} // verus!
