//! Library names as byte strings, and their dictionary order.

use vstd::prelude::*;

verus! {

/// The byte strings that a vector of names holds.
pub open spec fn spec_names(v: Seq<Vec<u8>>) -> Seq<Seq<u8>> {
    Seq::new(v.len(), |i: int| v[i]@)
}

/// Whether `a` comes before `b` in dictionary order, given that they agree
/// on the first `i` bytes.
pub open spec fn spec_less_from(a: Seq<u8>, b: Seq<u8>, i: int) -> bool
    decreases a.len() - i,
{
    if i >= b.len() {
        false
    } else if i >= a.len() {
        true
    } else if a[i] != b[i] {
        a[i] < b[i]
    } else {
        spec_less_from(a, b, i + 1)
    }
}

/// Whether `a` comes strictly before `b` in dictionary order by bytes.
pub open spec fn spec_name_less(a: Seq<u8>, b: Seq<u8>) -> bool {
    spec_less_from(a, b, 0)
}

/// Of two names that agree up to `i` and differ, one comes before the other.
pub proof fn lemma_less_total_from(a: Seq<u8>, b: Seq<u8>, i: int)
    requires
        0 <= i <= a.len(),
        i <= b.len(),
        forall|j: int| 0 <= j < i ==> a[j] == b[j],
        a != b,
    ensures
        spec_less_from(a, b, i) || spec_less_from(b, a, i),
    decreases a.len() - i,
{
    if i >= a.len() && i >= b.len() {
        assert(a =~= b);
    } else if i < a.len() && i < b.len() && a[i] == b[i] {
        lemma_less_total_from(a, b, i + 1);
    }
}

/// No name comes before one that comes before it.
pub proof fn lemma_less_asymmetric_from(a: Seq<u8>, b: Seq<u8>, i: int)
    requires
        0 <= i,
        spec_less_from(a, b, i),
    ensures
        !spec_less_from(b, a, i),
    decreases a.len() - i,
{
    if i < a.len() && i < b.len() && a[i] == b[i] {
        lemma_less_asymmetric_from(a, b, i + 1);
    }
}

/// The order passes along a chain of three names.
pub proof fn lemma_less_transitive_from(a: Seq<u8>, b: Seq<u8>, c: Seq<u8>, i: int)
    requires
        0 <= i,
        spec_less_from(a, b, i),
        spec_less_from(b, c, i),
    ensures
        spec_less_from(a, c, i),
    decreases a.len() - i,
{
    if i < a.len() && i < b.len() && i < c.len() && a[i] == b[i] && b[i] == c[i] {
        lemma_less_transitive_from(a, b, c, i + 1);
    }
}

/// Dictionary order is total on distinct names.
pub proof fn lemma_name_less_total(a: Seq<u8>, b: Seq<u8>)
    requires
        a != b,
    ensures
        spec_name_less(a, b) || spec_name_less(b, a),
{
    lemma_less_total_from(a, b, 0);
}

/// Dictionary order is asymmetric, so no name comes before itself.
pub proof fn lemma_name_less_asymmetric(a: Seq<u8>, b: Seq<u8>)
    requires
        spec_name_less(a, b),
    ensures
        !spec_name_less(b, a),
        a != b,
{
    lemma_less_asymmetric_from(a, b, 0);
}

/// Dictionary order is transitive.
pub proof fn lemma_name_less_transitive(a: Seq<u8>, b: Seq<u8>, c: Seq<u8>)
    requires
        spec_name_less(a, b),
        spec_name_less(b, c),
    ensures
        spec_name_less(a, c),
{
    lemma_less_transitive_from(a, b, c, 0);
}

/// Tells whether `a` comes strictly before `b` in dictionary order by bytes.
pub fn name_less(a: &Vec<u8>, b: &Vec<u8>) -> (r: bool)
    ensures
        r == spec_name_less(a@, b@),
{
    let mut i: usize = 0;
    while i < a.len() && i < b.len()
        invariant
            i <= a.len(),
            i <= b.len(),
            spec_name_less(a@, b@) == spec_less_from(a@, b@, i as int),
        decreases a.len() - i,
    {
        if a[i] != b[i] {
            return a[i] < b[i];
        }
        i += 1;
    }
    i < b.len()
}

/// Tells whether two names hold the same bytes.
pub fn name_equal(a: &Vec<u8>, b: &Vec<u8>) -> (r: bool)
    ensures
        r == (a@ == b@),
{
    if a.len() != b.len() {
        return false;
    }
    let mut i: usize = 0;
    while i < a.len()
        invariant
            i <= a.len(),
            a.len() == b.len(),
            forall|j: int| 0 <= j < i ==> a@[j] == b@[j],
        decreases a.len() - i,
    {
        if a[i] != b[i] {
            return false;
        }
        i += 1;
    }
    assert(a@ =~= b@);
    true
}

/// Copies a name.
pub fn copy_name(a: &Vec<u8>) -> (r: Vec<u8>)
    ensures
        r@ == a@,
{
    let mut r: Vec<u8> = Vec::new();
    let mut i: usize = 0;
    while i < a.len()
        invariant
            i <= a.len(),
            r@ == a@.subrange(0, i as int),
        decreases a.len() - i,
    {
        r.push(a[i]);
        i += 1;
        assert(r@ =~= a@.subrange(0, i as int));
    }
    assert(r@ =~= a@);
    r
}

} // verus!
