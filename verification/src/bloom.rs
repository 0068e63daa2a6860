//! A Bloom filter over byte strings: it never misses a key that was inserted, and may take one
//! that was not for one that was.
//!
//! Every key has three positions in a map of 4096 bits. They come from two hashes `h1` and `h2`
//! as `h1 + n * h2`: `h1` is the 64-bit FNV-1a hash of the key, `h2` is `h1` mixed with the golden
//! ratio and rotated.

use vstd::prelude::*;

verus! {

/// The number of bits.
pub const BLOOM_BITS: u64 = 4096;

/// The number of bytes that hold them.
pub const BLOOM_BYTES: usize = 512;

/// The number of positions that a key has.
pub const BLOOM_HASHES: u32 = 3;

/// Where FNV-1a starts.
pub const FNV_OFFSET_BASIS: u64 = 0xcbf29ce484222325;

/// What FNV-1a multiplies by.
pub const FNV_PRIME: u64 = 0x100000001b3;

/// The golden ratio as a 64-bit fraction.
pub const GOLDEN_RATIO: u64 = 0x9e3779b97f4a7c15;

/// A number with its bits rotated to the left by 31.
pub open spec fn rotate31(x: u64) -> u64 {
    (x << 31) | (x >> 33)
}

/// The 64-bit FNV-1a hash: every byte is mixed in by an exclusive or and a multiplication.
pub open spec fn fnv1a(key: Seq<u8>) -> u64
    decreases key.len(),
{
    if key.len() == 0 {
        FNV_OFFSET_BASIS
    } else {
        vstd::wrapping::u64_specs::wrapping_mul(
            fnv1a(key.drop_last()) ^ (key.last() as u64),
            FNV_PRIME,
        )
    }
}

/// The second hash of a key, derived from the first.
pub open spec fn second_hash(h1: u64) -> u64 {
    rotate31(vstd::wrapping::u64_specs::wrapping_mul(h1, GOLDEN_RATIO))
}

/// The `n`th of a key's positions.
pub open spec fn bloom_position(key: Seq<u8>, n: u32) -> u64 {
    vstd::wrapping::u64_specs::wrapping_add(
        fnv1a(key),
        vstd::wrapping::u64_specs::wrapping_mul(n as u64, second_hash(fnv1a(key))),
    ) % BLOOM_BITS
}

/// Whether the bit at position `p` is set.
pub open spec fn bit_at(bits: Seq<u8>, p: u64) -> bool {
    bits[(p / 8) as int] & (1u8 << (p % 8)) != 0
}

/// Sets one bit and looks at another one of the same byte.
proof fn lemma_set_bit(b: u8, x: u64, y: u64)
    by (bit_vector)
    requires
        x < 8,
        y < 8,
    ensures
        ((b | (1u8 << x)) & (1u8 << y) != 0) == (x == y || b & (1u8 << y) != 0),
{
}

/// A byte of zeroes has no bit set.
proof fn lemma_zero_bit(y: u64)
    by (bit_vector)
    ensures
        0u8 & (1u8 << y) == 0,
{
}

/// A filter over byte strings.
pub struct BloomFilter {
    bits: [u8; BLOOM_BYTES],
    count: usize,
}

impl BloomFilter {
    /// Whether the bit at a position is set.
    pub closed spec fn bit(&self, p: u64) -> bool {
        bit_at(self.bits@, p)
    }

    /// How many times a key was inserted since the filter was last empty.
    pub closed spec fn inserted(&self) -> nat {
        self.count as nat
    }

    /// Whether all of a key's positions are set.
    pub open spec fn may_hold(&self, key: Seq<u8>) -> bool {
        forall|n: u32| n < BLOOM_HASHES ==> self.bit(#[trigger] bloom_position(key, n))
    }

    /// An empty filter: no bit is set.
    pub fn new() -> (r: Self)
        ensures
            r.inserted() == 0,
            forall|p: u64| p < BLOOM_BITS ==> !#[trigger] r.bit(p),
    {
        let r = BloomFilter { bits: [0u8;512], count: 0 };
        assert forall|p: u64| p < BLOOM_BITS implies !#[trigger] r.bit(p) by {
            assert(r.bits@[(p / 8) as int] == 0);
            lemma_zero_bit(p % 8);
        }
        r
    }

    /// Inserts a key: sets its positions and leaves every other bit alone.
    pub fn insert(&mut self, key: &[u8])
        requires
            old(self).inserted() < usize::MAX,
        ensures
            final(self).inserted() == old(self).inserted() + 1,
            forall|p: u64|
                p < BLOOM_BITS ==> #[trigger] final(self).bit(p) == (old(self).bit(p) || exists|
                    n: u32,
                | n < BLOOM_HASHES && #[trigger] bloom_position(key@, n) == p),
    {
        let hashes = Self::hash(key);
        let mut n: u32 = 0;
        while n < BLOOM_HASHES
            invariant
                n <= BLOOM_HASHES,
                hashes.0 == fnv1a(key@),
                hashes.1 == second_hash(hashes.0),
                self.count == old(self).count,
                forall|p: u64|
                    p < BLOOM_BITS ==> #[trigger] self.bit(p) == (old(self).bit(p) || exists|m: u32|
                        m < n && #[trigger] bloom_position(key@, m) == p),
            decreases BLOOM_HASHES - n,
        {
            let position: u64 = Self::nth_hash(hashes, n) % BLOOM_BITS;
            let bucket: usize = (position / 8) as usize;
            let bit: u64 = position % 8;
            let byte: u8 = self.bits[bucket];
            let ghost before = *self;
            self.bits[bucket] = byte | (1u8 << bit);
            proof {
                assert(position == bloom_position(key@, n));
                assert forall|p: u64| p < BLOOM_BITS implies #[trigger] self.bit(p) == (before.bit(
                    p,
                ) || p == position) by {
                    if p / 8 == position / 8 {
                        lemma_set_bit(byte, bit, p % 8);
                    }
                }
                assert forall|p: u64| p < BLOOM_BITS implies #[trigger] self.bit(p) == (old(
                    self,
                ).bit(p) || exists|m: u32| m < n + 1 && #[trigger] bloom_position(key@, m) == p) by {
                    assert(self.bit(p) == (before.bit(p) || p == position));
                    assert(before.bit(p) == (old(self).bit(p) || exists|m: u32|
                        m < n && #[trigger] bloom_position(key@, m) == p));
                    if p == position {
                        assert(bloom_position(key@, n) == p);
                    }
                    if exists|m: u32| m < n + 1 && #[trigger] bloom_position(key@, m) == p {
                        let m = choose|m: u32| m < n + 1 && #[trigger] bloom_position(key@, m) == p;
                        assert(m < n || m == n);
                    }
                }
            }
            n += 1;
        }
        let ghost done = *self;
        self.count = self.count + 1;
        assert forall|p: u64| p < BLOOM_BITS implies #[trigger] self.bit(p) == (old(self).bit(p)
            || exists|n: u32| n < BLOOM_HASHES && #[trigger] bloom_position(key@, n) == p) by {
            assert(self.bit(p) == done.bit(p));
        }
    }

    /// Whether a key may have been inserted: whether all of its positions are set.
    pub fn may_contain(&self, key: &[u8]) -> (r: bool)
        ensures
            r == self.may_hold(key@),
    {
        let hashes = Self::hash(key);
        let mut n: u32 = 0;
        while n < BLOOM_HASHES
            invariant
                n <= BLOOM_HASHES,
                hashes.0 == fnv1a(key@),
                hashes.1 == second_hash(hashes.0),
                forall|m: u32| m < n ==> self.bit(#[trigger] bloom_position(key@, m)),
            decreases BLOOM_HASHES - n,
        {
            let position: u64 = Self::nth_hash(hashes, n) % BLOOM_BITS;
            let bucket: usize = (position / 8) as usize;
            let bit: u64 = position % 8;
            assert(position == bloom_position(key@, n));
            if self.bits[bucket] & (1u8 << bit) == 0 {
                assert(!self.bit(bloom_position(key@, n)));
                return false;
            }
            assert(self.bit(bloom_position(key@, n)));
            n += 1;
        }
        true
    }

    /// Whether nothing was inserted.
    pub fn is_empty(&self) -> (r: bool)
        ensures
            r == (self.inserted() == 0),
    {
        self.count == 0
    }

    /// Makes the filter empty again.
    pub fn clear(&mut self)
        ensures
            final(self).inserted() == 0,
            forall|p: u64| p < BLOOM_BITS ==> !#[trigger] final(self).bit(p),
    {
        *self = BloomFilter::new();
    }

    /// The two hashes of a key.
    fn hash(key: &[u8]) -> (r: (u64, u64))
        ensures
            r.0 == fnv1a(key@),
            r.1 == second_hash(r.0),
    {
        let mut h1: u64 = FNV_OFFSET_BASIS;
        let mut i: usize = 0;
        assert(key@.take(0) =~= Seq::<u8>::empty());
        while i < key.len()
            invariant
                i <= key@.len(),
                h1 == fnv1a(key@.take(i as int)),
            decreases key@.len() - i,
        {
            assert(key@.take(i + 1).drop_last() =~= key@.take(i as int));
            h1 = (h1 ^ (key[i] as u64)).wrapping_mul(FNV_PRIME);
            i += 1;
        }
        assert(key@.take(i as int) =~= key@);
        let mixed: u64 = h1.wrapping_mul(GOLDEN_RATIO);
        (h1, (mixed << 31) | (mixed >> 33))
    }

    /// The `n`th hash that two hashes give: `h1 + n * h2`.
    fn nth_hash(hashes: (u64, u64), n: u32) -> (r: u64)
        ensures
            r == vstd::wrapping::u64_specs::wrapping_add(
                hashes.0,
                vstd::wrapping::u64_specs::wrapping_mul(n as u64, hashes.1),
            ),
    {
        hashes.0.wrapping_add((n as u64).wrapping_mul(hashes.1))
    }
}

/// A filter never misses: a key that was just inserted is found, and a key that was found before
/// an insertion is found after it. `before` and `after` are the filter around an insertion of
/// `key`, as `insert` states it.
pub proof fn law_no_false_negative(
    before: BloomFilter,
    after: BloomFilter,
    key: Seq<u8>,
    other: Seq<u8>,
)
    requires
        forall|p: u64|
            p < BLOOM_BITS ==> #[trigger] after.bit(p) == (before.bit(p) || exists|n: u32|
                n < BLOOM_HASHES && #[trigger] bloom_position(key, n) == p),
    ensures
        after.may_hold(key),
        before.may_hold(other) ==> after.may_hold(other),
{
    assert forall|n: u32| n < BLOOM_HASHES implies after.bit(#[trigger] bloom_position(key, n)) by {
        assert(bloom_position(key, n) < BLOOM_BITS);
    }
    if before.may_hold(other) {
        assert forall|n: u32| n < BLOOM_HASHES implies after.bit(
            #[trigger] bloom_position(other, n),
        ) by {
            assert(bloom_position(other, n) < BLOOM_BITS);
            assert(before.bit(bloom_position(other, n)));
        }
    }
}

/// An empty filter, one without a set bit, holds nothing.
pub proof fn law_empty_filter_holds_nothing(filter: BloomFilter, key: Seq<u8>)
    requires
        forall|p: u64| p < BLOOM_BITS ==> !#[trigger] filter.bit(p),
    ensures
        !filter.may_hold(key),
{
    assert(bloom_position(key, 0) < BLOOM_BITS);
    assert(!filter.bit(bloom_position(key, 0)));
}

/// The hash starts at its basis and mixes in byte by byte; the positions of a key lie within the
/// filter.
pub proof fn law_positions_come_from_the_hash(key: Seq<u8>, b: u8, n: u32)
    ensures
        fnv1a(Seq::empty()) == 0xcbf29ce484222325,
        fnv1a(key.push(b)) == vstd::wrapping::u64_specs::wrapping_mul(
            fnv1a(key) ^ (b as u64),
            0x100000001b3,
        ),
        bloom_position(key, n) < 4096,
        bloom_position(key, 0) == fnv1a(key) % 4096,
        ({
            let h1 = fnv1a(key);
            let mixed = vstd::wrapping::u64_specs::wrapping_mul(h1, 0x9e3779b97f4a7c15);
            let h2 = (mixed << 31) | (mixed >> 33);
            bloom_position(key, n) == vstd::wrapping::u64_specs::wrapping_add(
                h1,
                vstd::wrapping::u64_specs::wrapping_mul(n as u64, h2),
            ) % 4096
        }),
{
    assert(key.push(b).drop_last() =~= key);
}

/// A key may be held where its three positions are set, and not where one of them is not.
pub proof fn law_three_positions_count(filter: BloomFilter, key: Seq<u8>)
    ensures
        filter.may_hold(key) <==> filter.bit(bloom_position(key, 0)) && filter.bit(
            bloom_position(key, 1),
        ) && filter.bit(bloom_position(key, 2)),
{
    if filter.bit(bloom_position(key, 0)) && filter.bit(bloom_position(key, 1)) && filter.bit(
        bloom_position(key, 2),
    ) {
        assert forall|n: u32| n < BLOOM_HASHES implies filter.bit(
            #[trigger] bloom_position(key, n),
        ) by {
            assert(n == 0 || n == 1 || n == 2);
        }
    }
}

} // verus!
