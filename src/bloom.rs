//! A small probabilistic set of node identifiers.
//!
//! Each identifier sets two bits of a 64-bit word. A filter may report an
//! identifier that was never added, never the other way round.
use vstd::prelude::*;

verus! {

/// The two bits that stand for `id`.
pub open spec fn id_mask(id: u64) -> u64 {
    (1u64 << ((id % 64) as u64)) | (1u64 << (((id / 64) % 64) as u64))
}

/// Setting more bits keeps every bit that was set.
pub proof fn lemma_or_keeps(a: u64, b: u64, m: u64)
    requires
        a & m == m,
    ensures
        (a | b) & m == m,
        (b | a) & m == m,
{
    assert((a | b) & m == m && (b | a) & m == m) by (bit_vector)
        requires
            a & m == m,
    ;
}

pub proof fn lemma_or_sets(a: u64, m: u64)
    ensures
        (a | m) & m == m,
        (m | a) & m == m,
        0u64 | m == m,
{
    assert((a | m) & m == m && (m | a) & m == m && 0u64 | m == m) by (bit_vector);
}

/// Summarises the identifiers of a subtree.
#[derive(Clone, Copy, Debug, PartialEq, Eq, Structural)]
pub struct Bloom {
    bits: u64,
}

impl Bloom {
    pub closed spec fn bits(&self) -> u64 {
        self.bits
    }

    /// The filter answers "maybe present" for `id`.
    pub open spec fn covers(&self, id: u64) -> bool {
        self.bits() & id_mask(id) == id_mask(id)
    }

    /// Every identifier that `other` covers, `self` covers too.
    pub open spec fn covers_all(&self, other: Bloom) -> bool {
        forall|id: u64| #[trigger] other.covers(id) ==> self.covers(id)
    }

    /// The empty filter.
    pub fn new() -> (r: Bloom)
        ensures
            r.bits() == 0,
    {
        Bloom { bits: 0 }
    }

    fn mask(id: u64) -> (m: u64)
        ensures
            m == id_mask(id),
    {
        (1u64 << (id % 64)) | (1u64 << ((id / 64) % 64))
    }

    /// Add `id` to the set.
    pub fn add(&mut self, id: u64)
        ensures
            final(self).covers(id),
            final(self).covers_all(*old(self)),
            final(self).bits() == old(self).bits() | id_mask(id),
    {
        let m = Bloom::mask(id);
        let old_bits = self.bits;
        self.bits = self.bits | m;
        proof {
            lemma_or_sets(old_bits, m);
            assert forall|x: u64| #[trigger] old(self).covers(x) implies self.covers(x) by {
                lemma_or_keeps(old_bits, m, id_mask(x));
            }
        }
    }

    /// The union of two filters.
    pub fn union(self, other: Bloom) -> (r: Bloom)
        ensures
            r.bits() == self.bits() | other.bits(),
            r.covers_all(self),
            r.covers_all(other),
    {
        let r = Bloom { bits: self.bits | other.bits };
        proof {
            assert forall|x: u64| #[trigger] self.covers(x) implies r.covers(x) by {
                lemma_or_keeps(self.bits, other.bits, id_mask(x));
            }
            assert forall|x: u64| #[trigger] other.covers(x) implies r.covers(x) by {
                lemma_or_keeps(other.bits, self.bits, id_mask(x));
            }
        }
        r
    }

    /// Whether `id` may be in the set; `false` means it is surely absent.
    pub fn may_contain(&self, id: u64) -> (r: bool)
        ensures
            r == self.covers(id),
    {
        let m = Bloom::mask(id);
        self.bits & m == m
    }

    /// Whether no identifier was added.
    pub fn is_empty(&self) -> (r: bool)
        ensures
            r == (self.bits() == 0),
    {
        self.bits == 0
    }
}

/// The union of filters is the same in either order.
pub proof fn lemma_union_commutative(a: Bloom, b: Bloom)
    ensures
        a.bits() | b.bits() == b.bits() | a.bits(),
{
    let (x, y) = (a.bits(), b.bits());
    assert(x | y == y | x) by (bit_vector);
}

/// The union of filters does not depend on grouping.
pub proof fn lemma_union_associative(a: Bloom, b: Bloom, c: Bloom)
    ensures
        (a.bits() | b.bits()) | c.bits() == a.bits() | (b.bits() | c.bits()),
{
    let (x, y, z) = (a.bits(), b.bits(), c.bits());
    assert((x | y) | z == x | (y | z)) by (bit_vector);
}

} // verus!
