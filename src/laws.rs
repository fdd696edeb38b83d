use vstd::prelude::*;
use crate::arena::{
    filled, spec_allocate, spec_lookup, spec_release, spec_write, write_fits, SENTINEL,
};
use crate::compare::spec_prepare;
use crate::pixels::{image_bytes, CompareError, Rgb8};

verus! {

/// After `allocate(k, n)`, `lookup(k)` finds `n` bytes, each of them the sentinel.
pub proof fn lemma_allocate_then_lookup(m: Map<Seq<char>, Seq<u8>>, k: Seq<char>, n: nat)
    ensures
        spec_lookup(spec_allocate(m, k, n), k) == Some(filled(n)),
        filled(n).len() == n,
        forall|i: int| 0 <= i < n ==> #[trigger] filled(n)[i] == SENTINEL,
{
}

/// Allocating under a key a second time leaves only the second buffer: whatever was
/// written into the first, `lookup` then finds `m2` sentinel bytes, and the arena is
/// as if the first allocation had never been made.
pub proof fn lemma_reallocate_replaces(
    m: Map<Seq<char>, Seq<u8>>,
    k: Seq<char>,
    n1: nat,
    offset: int,
    d: Seq<u8>,
    n2: nat,
)
    ensures
        spec_allocate(spec_allocate(m, k, n1), k, n2) == spec_allocate(m, k, n2),
        spec_allocate(spec_write(spec_allocate(m, k, n1), k, offset, d), k, n2) == spec_allocate(
            m,
            k,
            n2,
        ),
        spec_lookup(spec_allocate(spec_write(spec_allocate(m, k, n1), k, offset, d), k, n2), k)
            == Some(filled(n2)),
{
    assert(spec_allocate(spec_allocate(m, k, n1), k, n2) =~= spec_allocate(m, k, n2));
    assert(spec_allocate(spec_write(spec_allocate(m, k, n1), k, offset, d), k, n2)
        =~= spec_allocate(m, k, n2));
}

/// After `release(k)`, `lookup(k)` finds nothing; releasing an absent key leaves the
/// arena as it was.
pub proof fn lemma_release(m: Map<Seq<char>, Seq<u8>>, k: Seq<char>)
    ensures
        spec_lookup(spec_release(m, k), k) == None::<Seq<u8>>,
        !m.contains_key(k) ==> spec_release(m, k) == m,
{
    if !m.contains_key(k) {
        assert(spec_release(m, k) =~= m);
    }
}

/// Bytes written into a buffer are read back unchanged: a write that fits leaves
/// exactly `d` at `offset`, and filling a fresh buffer of `d.len()` bytes from the
/// start makes `lookup` find `d` itself.
pub proof fn lemma_write_round_trip(
    m: Map<Seq<char>, Seq<u8>>,
    k: Seq<char>,
    offset: int,
    d: Seq<u8>,
)
    ensures
        write_fits(m, k, offset, d) ==> (match spec_lookup(spec_write(m, k, offset, d), k) {
            Some(b) => b.len() == m[k].len() && b.subrange(offset, offset + d.len()) == d,
            None => false,
        }),
        spec_lookup(spec_write(spec_allocate(m, k, d.len()), k, 0, d), k) == Some(d),
{
    if write_fits(m, k, offset, d) {
        let b = spec_write(m, k, offset, d)[k];
        assert(b.subrange(offset, offset + d.len()) =~= d);
    }
    let m1 = spec_allocate(m, k, d.len());
    assert(write_fits(m1, k, 0, d));
    assert(spec_write(m1, k, 0, d)[k] =~= d);
}

/// Comparing a buffer with itself hands the metric two identical images.
pub proof fn lemma_self_comparison(m: Map<Seq<char>, Seq<u8>>, k: Seq<char>, width: int, height: int)
    ensures
        match spec_prepare(m, k, k, width, height) {
            Ok((p, q)) => p == q,
            Err(_) => true,
        },
        m.contains_key(k) && m[k].len() == image_bytes(width, height) ==> spec_prepare(
            m,
            k,
            k,
            width,
            height,
        ) is Ok,
{
}

/// Where both keys are present and either buffer's length is not
/// width * height * 3, the comparison fails with `Validation`.
pub proof fn lemma_length_mismatch(
    m: Map<Seq<char>, Seq<u8>>,
    a: Seq<char>,
    b: Seq<char>,
    width: int,
    height: int,
)
    requires
        m.contains_key(a),
        m.contains_key(b),
        m[a].len() != image_bytes(width, height) || m[b].len() != image_bytes(width, height),
    ensures
        spec_prepare(m, a, b, width, height) == Err::<(Seq<Rgb8>, Seq<Rgb8>), CompareError>(
            CompareError::Validation,
        ),
{
}

/// Where either key is absent, the comparison fails with `NotFound`, whatever the
/// buffers and dimensions.
pub proof fn lemma_missing_key(
    m: Map<Seq<char>, Seq<u8>>,
    a: Seq<char>,
    b: Seq<char>,
    width: int,
    height: int,
)
    requires
        !m.contains_key(a) || !m.contains_key(b),
    ensures
        spec_prepare(m, a, b, width, height) == Err::<(Seq<Rgb8>, Seq<Rgb8>), CompareError>(
            CompareError::NotFound,
        ),
{
}

} // verus!
