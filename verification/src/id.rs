//! The identifier type and its segment accessors.

use crate::error::ParseIDError;
use core::cmp::Ordering;
use vstd::prelude::*;
use vstd::slice::slice_subrange;

verus! {

/// Lexicographic (byte-wise, big-endian) comparison of two byte sequences:
/// the order induced on identifiers by comparing their buffers left to
/// right, with a shorter sequence ordered before any extension of it.
pub open spec fn lex_cmp(a: Seq<u8>, b: Seq<u8>) -> Ordering
    decreases a.len(),
{
    if a.len() == 0 && b.len() == 0 {
        Ordering::Equal
    } else if a.len() == 0 {
        Ordering::Less
    } else if b.len() == 0 {
        Ordering::Greater
    } else if a[0] < b[0] {
        Ordering::Less
    } else if a[0] > b[0] {
        Ordering::Greater
    } else {
        lex_cmp(a.drop_first(), b.drop_first())
    }
}

/// A fixed-width binary identifier of `N` bytes, laid out as three
/// contiguous segments: a prefix in bytes `[0, P)`, a content payload in
/// bytes `[P, N - E)`, and a suffix in bytes `[N - E, N)`.
///
/// The three constants form the identifier's kind. A kind is valid exactly
/// when `P + E <= N`, so that the segments never overlap; every constructor
/// requires this, and every value of the type satisfies it thereafter.
#[derive(Debug, Clone, Copy, Hash, PartialEq, Eq, PartialOrd, Ord)]
pub struct ID<const P: usize, const E: usize, const N: usize>([u8; N]);

impl<const P: usize, const E: usize, const N: usize> View for ID<P, E, N> {
    type V = Seq<u8>;

    closed spec fn view(&self) -> Seq<u8> {
        self.0@
    }
}

impl<const P: usize, const E: usize, const N: usize> ID<P, E, N> {
    /// The segments are non-overlapping and cover the buffer: `P + E <= N`.
    #[verifier::type_invariant]
    spec fn layout_valid(self) -> bool {
        P + E <= N
    }

    /// Create a new ID from a byte array.
    pub fn new(bytes: [u8; N]) -> (id: Self)
        requires
            P + E <= N,
        ensures
            id@ == bytes@,
            id@.len() == N,
    {
        ID(bytes)
    }

    /// The prefix segment: bytes `[0, P)` of the buffer.
    pub open spec fn spec_prefix(self) -> Seq<u8> {
        self@.subrange(0, P as int)
    }

    /// The content segment: bytes `[P, N - E)` of the buffer.
    pub open spec fn spec_content(self) -> Seq<u8> {
        self@.subrange(P as int, N - E)
    }

    /// The suffix segment: bytes `[N - E, N)` of the buffer.
    pub open spec fn spec_suffix(self) -> Seq<u8> {
        self@.subrange(N - E, N as int)
    }

    /// Get the prefix of the ID.
    pub fn prefix(&self) -> (prefix: &[u8])
        ensures
            prefix@ == self.spec_prefix(),
            prefix@.len() == P,
    {
        proof {
            use_type_invariant(self);
        }
        slice_subrange(self.0.as_slice(), 0, P)
    }

    /// Get the extension of the ID.
    pub fn suffix(&self) -> (suffix: &[u8])
        ensures
            suffix@ == self.spec_suffix(),
            suffix@.len() == E,
    {
        proof {
            use_type_invariant(self);
        }
        slice_subrange(self.0.as_slice(), N - E, N)
    }

    /// Get the content of the ID.
    pub fn content(&self) -> (content: &[u8])
        ensures
            content@ == self.spec_content(),
            content@.len() == N - P - E,
    {
        proof {
            use_type_invariant(self);
        }
        slice_subrange(self.0.as_slice(), P, N - E)
    }

    /// Get the byte representation of the ID.
    pub fn as_bytes(&self) -> (bytes: &[u8])
        ensures
            bytes@ == self@,
            bytes@.len() == N,
    {
        self.0.as_slice()
    }

    /// Parse an ID from a byte sequence of arbitrary length. Succeeds
    /// exactly when the input holds `N` bytes; fails with a
    /// [`ParseIDError`] carrying the expected and the observed length
    /// otherwise. Byte values are unconstrained.
    pub fn try_from(value: &[u8]) -> (parsed: Result<Self, ParseIDError>)
        requires
            P + E <= N,
        ensures
            match parsed {
                Ok(id) => value@.len() == N && id@ == value@,
                Err(e) => value@.len() != N && e.expected == N && e.actual == value@.len(),
            },
    {
        if value.len() != N {
            return Err(ParseIDError { expected: N, actual: value.len() });
        }
        let mut bytes: [u8; N] = [0u8; N];
        let mut i: usize = 0;
        while i < N
            invariant
                0 <= i <= N,
                value@.len() == N,
                forall|j: int| 0 <= j < i ==> bytes@[j] == value@[j],
            decreases N - i,
        {
            bytes[i] = value[i];
            i = i + 1;
        }
        proof {
            assert(bytes@ =~= value@);
        }
        Ok(ID(bytes))
    }

    /// Compare two IDs of the same kind by the lexicographic order of their
    /// buffers. This is the total order the type is sorted by.
    pub fn compare(&self, other: &Self) -> (ord: Ordering)
        ensures
            ord == lex_cmp(self@, other@),
    {
        let mut i: usize = 0;
        proof {
            assert(self@.skip(0) =~= self@);
            assert(other@.skip(0) =~= other@);
        }
        while i < N
            invariant
                0 <= i <= N,
                self@.len() == N,
                other@.len() == N,
                lex_cmp(self@, other@) == lex_cmp(
                    self@.skip(i as int),
                    other@.skip(i as int),
                ),
            decreases N - i,
        {
            let a = self.0[i];
            let b = other.0[i];
            proof {
                assert(self@.skip(i as int)[0] == self@[i as int]);
                assert(other@.skip(i as int)[0] == other@[i as int]);
            }
            if a < b {
                return Ordering::Less;
            }
            if a > b {
                return Ordering::Greater;
            }
            proof {
                assert(self@.skip(i as int).drop_first() =~= self@.skip(i + 1));
                assert(other@.skip(i as int).drop_first() =~= other@.skip(i + 1));
            }
            i = i + 1;
        }
        proof {
            assert(self@.skip(N as int) =~= Seq::<u8>::empty());
            assert(other@.skip(N as int) =~= Seq::<u8>::empty());
        }
        Ordering::Equal
    }
}

/// Law: reading prefix, content and suffix of an identifier and
/// concatenating them in order reconstructs exactly the buffer the
/// identifier holds.
pub proof fn lemma_segments_cover<const P: usize, const E: usize, const N: usize>(
    id: ID<P, E, N>,
)
    requires
        P + E <= N,
    ensures
        id.spec_prefix() + id.spec_content() + id.spec_suffix() == id@,
{
    assert(id@.len() == N);
    assert(id.spec_prefix() + id.spec_content() + id.spec_suffix() =~= id@);
}

/// Law: identifiers whose buffers hold the same bytes are equal values.
pub proof fn lemma_eq_of_eq_buffers<const P: usize, const E: usize, const N: usize>(
    x: ID<P, E, N>,
    y: ID<P, E, N>,
)
    requires
        x@ == y@,
    ensures
        x == y,
{
    assert(x.0 =~= y.0);
}

/// Law: lexicographic comparison of equal-length byte sequences yields
/// `Equal` exactly when the sequences are equal.
pub proof fn lemma_lex_cmp_equal_iff(a: Seq<u8>, b: Seq<u8>)
    requires
        a.len() == b.len(),
    ensures
        lex_cmp(a, b) == Ordering::Equal <==> a == b,
    decreases a.len(),
{
    if a.len() == 0 {
        assert(a =~= b);
    } else {
        lemma_lex_cmp_equal_iff(a.drop_first(), b.drop_first());
        if a[0] == b[0] && a.drop_first() == b.drop_first() {
            assert forall|i: int| 0 <= i < a.len() implies a[i] == b[i] by {
                if i > 0 {
                    assert(a[i] == a.drop_first()[i - 1]);
                    assert(b[i] == b.drop_first()[i - 1]);
                }
            }
            assert(a =~= b);
        }
        if a == b {
            assert(a.drop_first() =~= b.drop_first());
        }
    }
}

/// Law: lexicographic comparison is antisymmetric — swapping the operands
/// swaps `Less` and `Greater` and keeps `Equal`. Together with
/// [`lemma_lex_cmp_transitive`] this makes the order on identifiers a total
/// order, usable for sorted storage.
pub proof fn lemma_lex_cmp_antisymmetric(a: Seq<u8>, b: Seq<u8>)
    ensures
        lex_cmp(a, b) == Ordering::Equal <==> lex_cmp(b, a) == Ordering::Equal,
        lex_cmp(a, b) == Ordering::Less <==> lex_cmp(b, a) == Ordering::Greater,
    decreases a.len(),
{
    if a.len() != 0 && b.len() != 0 && a[0] == b[0] {
        lemma_lex_cmp_antisymmetric(a.drop_first(), b.drop_first());
    }
}

/// Law: lexicographic comparison is transitive.
pub proof fn lemma_lex_cmp_transitive(a: Seq<u8>, b: Seq<u8>, c: Seq<u8>)
    requires
        lex_cmp(a, b) == Ordering::Less,
        lex_cmp(b, c) == Ordering::Less,
    ensures
        lex_cmp(a, c) == Ordering::Less,
    decreases a.len(),
{
    if a.len() != 0 && b.len() != 0 && c.len() != 0 && a[0] == b[0] && b[0] == c[0] {
        lemma_lex_cmp_transitive(a.drop_first(), b.drop_first(), c.drop_first());
    }
}

/// Law: when two equal-length byte sequences agree before position `k` and
/// differ at `k`, their lexicographic order is decided by the bytes at `k`.
pub proof fn lemma_lex_cmp_first_difference(a: Seq<u8>, b: Seq<u8>, k: int)
    requires
        a.len() == b.len(),
        0 <= k < a.len(),
        forall|j: int| 0 <= j < k ==> a[j] == b[j],
        a[k] != b[k],
    ensures
        lex_cmp(a, b) == if a[k] < b[k] {
            Ordering::Less
        } else {
            Ordering::Greater
        },
    decreases k,
{
    if k > 0 {
        assert(a[0] == b[0]);
        assert forall|j: int| 0 <= j < k - 1 implies a.drop_first()[j] == b.drop_first()[j] by {
            assert(a[j + 1] == b[j + 1]);
        }
        lemma_lex_cmp_first_difference(a.drop_first(), b.drop_first(), k - 1);
    }
}

} // verus!
