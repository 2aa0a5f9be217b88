//! HyperLogLog registers: approximate distinct counts in fixed memory.
//!
//! The registers, and the rule that tells a sparse table from a filled one, are
//! here. The estimate itself is a logarithm or a harmonic mean of them, which
//! the callers compute.

use vstd::arithmetic::div_mod::*;
use vstd::arithmetic::power2::*;
use vstd::bits::*;
use vstd::prelude::*;
use vstd::std_specs::bits::*;

use crate::detection::hashing::fx_hash;

verus! {

/// A table of `2^bucket_bits` registers. A key falls on one of them by the first
/// bits of its hash and raises it to the position of the first one-bit among the
/// remaining bits.
pub struct HyperLogLog {
    buckets: Vec<u8>,
    bucket_bits: u32,
}

/// The number of binary digits of `n`, which is 0 for 0.
pub open spec fn bit_length(n: nat) -> nat
    decreases n,
{
    if n == 0 {
        0
    } else {
        1 + bit_length(n / 2)
    }
}

/// The register of hash `h`: its first `bits` bits.
pub open spec fn bucket_of(h: u64, bits: u32) -> int {
    h as int / pow2((64 - bits) as nat) as int
}

/// The rank of hash `h`: one more than the number of zeros before the first
/// one-bit among the bits after the first `bits`.
pub open spec fn rank_of(h: u64, bits: u32) -> u8 {
    (65 - bits - bit_length((h as int % pow2((64 - bits) as nat) as int) as nat)) as u8
}

/// The registers of a table.
#[verifier::ext_equal]
pub struct RegistersView {
    pub bits: u32,
    pub registers: Seq<u8>,
}

impl RegistersView {
    /// A table that no key has touched.
    pub open spec fn empty(bits: u32) -> Self {
        RegistersView { bits, registers: Seq::new(pow2(bits as nat), |i: int| 0u8) }
    }

    /// There are `2^bits` registers.
    pub open spec fn wf(self) -> bool {
        &&& self.bits < usize::BITS - 1
        &&& self.registers.len() == pow2(self.bits as nat)
    }

    /// The table after a key with hash `h`.
    pub open spec fn raised(self, h: u64) -> Self {
        let b = bucket_of(h, self.bits);
        let rank = rank_of(h, self.bits);
        if rank > self.registers[b] {
            RegistersView { registers: self.registers.update(b, rank), ..self }
        } else {
            self
        }
    }

    /// The table after `key`.
    pub open spec fn added(self, key: Seq<u8>) -> Self {
        self.raised(crate::detection::hashing::fx_digest(usize::BITS, key))
    }

    /// How many registers no key has touched.
    pub open spec fn untouched(self) -> nat {
        untouched_among(self.registers)
    }

    /// More than nine tenths of the registers are untouched.
    pub open spec fn sparse(self) -> bool {
        10 * self.untouched() > 9 * self.registers.len()
    }

    /// The table after a run of keys, from an empty one.
    pub open spec fn after(bits: u32, keys: Seq<Seq<u8>>) -> Self
        decreases keys.len(),
    {
        if keys.len() == 0 {
            Self::empty(bits)
        } else {
            Self::after(bits, keys.drop_last()).added(keys.last())
        }
    }
}

/// How many of `registers` are zero.
pub open spec fn untouched_among(registers: Seq<u8>) -> nat
    decreases registers.len(),
{
    if registers.len() == 0 {
        0
    } else {
        untouched_among(registers.drop_last()) + if registers.last() == 0 {
            1nat
        } else {
            0nat
        }
    }
}

impl View for HyperLogLog {
    type V = RegistersView;

    closed spec fn view(&self) -> RegistersView {
        RegistersView { bits: self.bucket_bits, registers: self.buckets@ }
    }
}

impl HyperLogLog {
    /// A table of `2^bucket_bits` untouched registers. The number of registers
    /// is bounded by what a vector can hold.
    pub fn new(bucket_bits: u32) -> (r: Self)
        requires
            bucket_bits < usize::BITS - 1,
        ensures
            r@ == RegistersView::empty(bucket_bits),
            r@.wf(),
    {
        proof {
            lemma_usize_pow2_no_overflow(bucket_bits as nat);
            lemma_usize_shl_is_mul(1, bucket_bits as usize);
        }
        let size: usize = 1usize << (bucket_bits as usize);
        let buckets: Vec<u8> = vec![0u8; size];
        let r = HyperLogLog { buckets, bucket_bits };
        assert(r@.registers =~= RegistersView::empty(bucket_bits).registers);
        r
    }

    /// Adds a key.
    pub fn add(&mut self, key: &[u8])
        requires
            old(self)@.wf(),
            old(self)@.bits >= 1,
        ensures
            final(self)@ == old(self)@.added(key@),
            final(self)@.wf(),
    {
        let h: u64 = fx_hash(key);
        self.raise(h);
    }

    /// Raises the register of hash `h` to its rank.
    pub fn raise(&mut self, h: u64)
        requires
            old(self)@.wf(),
            old(self)@.bits >= 1,
        ensures
            final(self)@ == old(self)@.raised(h),
            final(self)@.wf(),
    {
        let bits: u64 = self.bucket_bits as u64;
        let bucket: usize = (h >> (64 - bits)) as usize;
        let rest: u64 = (h << bits) | (1u64 << (bits - 1));
        let rank: u8 = rest.leading_zeros() as u8 + 1;
        proof {
            lemma_u64_shr_is_div(h, (64 - bits) as u64);
            lemma_bucket_in_range(h, self.bucket_bits);
            lemma_rank(h, self.bucket_bits, rest);
            assert(self.buckets.len() == self@.registers.len());
            assert(bucket == bucket_of(h, self.bucket_bits));
            assert(rank == rank_of(h, self.bucket_bits));
        }
        if rank > self.buckets[bucket] {
            self.buckets.set(bucket, rank);
        }
    }

    /// The registers.
    pub fn registers(&self) -> (r: &Vec<u8>)
        ensures
            r@ == self@.registers,
    {
        &self.buckets
    }

    /// How many registers no key has touched.
    pub fn empty_buckets(&self) -> (r: usize)
        ensures
            r == self@.untouched(),
            r <= self@.registers.len(),
    {
        let mut n: usize = 0;
        let mut i: usize = 0;
        assert(self.buckets@.take(0) =~= Seq::<u8>::empty());
        while i < self.buckets.len()
            invariant
                n <= i <= self.buckets@.len(),
                n == untouched_among(self.buckets@.take(i as int)),
            decreases self.buckets@.len() - i,
        {
            assert(self.buckets@.take(i + 1).drop_last() =~= self.buckets@.take(i as int));
            if self.buckets[i] == 0 {
                n = n + 1;
            }
            i = i + 1;
        }
        assert(self.buckets@.take(i as int) =~= self.buckets@);
        n
    }

    /// Tells whether more than nine tenths of the registers are untouched. Only
    /// then is the raw estimate replaced by linear counting: it is far too large
    /// for a nearly empty table and accurate for the others.
    pub fn is_sparse(&self) -> (r: bool)
        ensures
            r == self@.sparse(),
    {
        let empty: u128 = self.empty_buckets() as u128;
        let all: u128 = self.buckets.len() as u128;
        10 * empty > 9 * all
    }

    /// Makes all registers untouched again.
    pub fn clear(&mut self)
        requires
            old(self)@.wf(),
        ensures
            final(self)@ == RegistersView::empty(old(self)@.bits),
            final(self)@.wf(),
    {
        let mut i: usize = 0;
        let ghost bits = self.bucket_bits;
        while i < self.buckets.len()
            invariant
                bits == self.bucket_bits == old(self)@.bits,
                self@.wf(),
                i <= self.buckets@.len(),
                forall|j: int| 0 <= j < i ==> self.buckets@[j] == 0,
            decreases self.buckets@.len() - i,
        {
            self.buckets.set(i, 0);
            i = i + 1;
        }
        assert(self@.registers =~= RegistersView::empty(bits).registers);
    }
}

/// The first bits of a hash name a register.
pub proof fn lemma_bucket_in_range(h: u64, bits: u32)
    requires
        1 <= bits <= 63,
    ensures
        0 <= bucket_of(h, bits) < pow2(bits as nat),
{
    let a = pow2((64 - bits) as nat) as int;
    let b = pow2(bits as nat) as int;
    lemma2_to64();
    lemma2_to64_rest();
    lemma_pow2_pos((64 - bits) as nat);
    lemma_pow2_adds((64 - bits) as nat, bits as nat);
    assert(h < a * b);
    lemma_div_pos_is_pos(h as int, a);
    lemma_multiply_divide_lt(h as int, a, b);
}

/// The leading zeros of a word are what its binary digits leave of 64.
proof fn lemma_leading_zeros(i: u64)
    ensures
        u64_leading_zeros(i) == 64 - bit_length(i as nat),
    decreases i,
{
    reveal(u64_leading_zeros);
    if i != 0 {
        lemma_leading_zeros(i / 2);
    }
}

/// A number that reaches beyond its last `k` digits has `k` digits more than
/// what stands before them.
proof fn lemma_bit_length_shift(n: nat, k: nat)
    requires
        n / pow2(k) > 0,
    ensures
        bit_length(n) == bit_length(n / pow2(k)) + k,
    decreases k,
{
    lemma2_to64();
    if k == 0 {
        lemma_div_basics(n as int);
        assert(n / pow2(k) == n);
    } else {
        let j = (k - 1) as nat;
        lemma_pow2_pos(j);
        lemma_pow2_unfold(k);
        lemma_div_denominator(n as int, 2, pow2(j) as int);
        assert(n / pow2(k) == (n / 2) / pow2(j));
        lemma_bit_length_shift(n / 2, j);
        if n == 0 {
            lemma_pow2_pos(k);
            lemma_div_of0(pow2(k) as int);
        }
    }
}

/// A power of two has one digit more than its exponent.
proof fn lemma_bit_length_of_power(k: nat)
    ensures
        bit_length(pow2(k)) == k + 1,
{
    lemma_pow2_pos(k);
    lemma_div_by_self(pow2(k) as int);
    lemma_bit_length_shift(pow2(k), k);
    assert(bit_length(1) == 1 + bit_length(0));
}

/// The leading zeros of the bits after the first `bits`, with a one-bit behind
/// them, give the rank.
proof fn lemma_rank(h: u64, bits: u32, rest: u64)
    requires
        1 <= bits <= 63,
        rest == (h << (bits as u64)) | (1u64 << ((bits - 1) as u64)),
    ensures
        u64_leading_zeros(rest) + 1 == rank_of(h, bits),
        u64_leading_zeros(rest) <= 63,
{
    let b = bits as u64;
    let c = (64 - bits) as u64;
    let last = (bits - 1) as u64;
    let low = h as int % pow2(c as nat) as int;
    let mask = low_bits_mask(c as nat) as u64;
    lemma2_to64();
    lemma2_to64_rest();
    lemma_u64_low_bits_mask_is_mod(h, c as nat);
    lemma_u64_pow2_no_overflow(c as nat);
    lemma_u64_shl_is_mul(1, c);
    assert(mask == (1u64 << c) - 1);
    assert(rest >> b == h & mask) by (bit_vector)
        requires
            1 <= b <= 63,
            c == 64 - b,
            last == b - 1,
            mask == (1u64 << c) - 1,
            rest == (h << b) | (1u64 << last),
    ;
    lemma_u64_shr_is_div(rest, b);
    assert(rest as nat / pow2(b as nat) == low);
    lemma_leading_zeros(rest);
    if low > 0 {
        lemma_bit_length_shift(rest as nat, b as nat);
    } else {
        assert(rest == 1u64 << last) by (bit_vector)
            requires
                1 <= b <= 63,
                c == 64 - b,
                last == b - 1,
                mask == (1u64 << c) - 1,
                rest == (h << b) | (1u64 << last),
                h & mask == 0,
        ;
        lemma_u64_pow2_no_overflow((b - 1) as nat);
        lemma_u64_shl_is_mul(1, (b - 1) as u64);
        lemma_bit_length_of_power((b - 1) as nat);
    }
    lemma_digits_of_remainder(low as nat, c as nat);
}

/// A number below `2^k` has at most `k` digits.
proof fn lemma_digits_of_remainder(n: nat, k: nat)
    requires
        n < pow2(k),
    ensures
        bit_length(n) <= k,
    decreases k,
{
    lemma2_to64();
    if k > 0 {
        lemma_pow2_unfold(k);
        if n > 0 {
            lemma_digits_of_remainder(n / 2, (k - 1) as nat);
        }
    }
}

/// Adding a key again changes nothing, and the order of two keys does not matter.
pub proof fn law_add_is_idempotent_and_commutative(v: RegistersView, a: Seq<u8>, b: Seq<u8>)
    requires
        v.wf(),
        v.bits >= 1,
    ensures
        v.added(a).added(a) == v.added(a),
        v.added(a).added(b) == v.added(b).added(a),
{
    let ha = crate::detection::hashing::fx_digest(usize::BITS, a);
    let hb = crate::detection::hashing::fx_digest(usize::BITS, b);
    lemma_bucket_in_range(ha, v.bits);
    lemma_bucket_in_range(hb, v.bits);
    assert(v.added(a).added(b).registers =~= v.added(b).added(a).registers);
}

/// The hash of `key` falls on register `i` with rank `rank`.
pub open spec fn hits(bits: u32, key: Seq<u8>, i: int, rank: u8) -> bool {
    let h = crate::detection::hashing::fx_digest(usize::BITS, key);
    bucket_of(h, bits) == i && rank_of(h, bits) == rank
}

/// Register `i` holds the highest rank among the keys that fell on it, and 0 if
/// there is none.
pub proof fn lemma_register_is_highest_rank(bits: u32, keys: Seq<Seq<u8>>, i: int)
    requires
        1 <= bits < usize::BITS - 1,
        0 <= i < pow2(bits as nat),
    ensures
        RegistersView::after(bits, keys).wf(),
        RegistersView::after(bits, keys).bits == bits,
        forall|k: int, rank: u8|
            0 <= k < keys.len() && #[trigger] hits(bits, keys[k], i, rank) ==> rank
                <= RegistersView::after(bits, keys).registers[i],
        RegistersView::after(bits, keys).registers[i] > 0 ==> exists|k: int|
            0 <= k < keys.len() && #[trigger] hits(
                bits,
                keys[k],
                i,
                RegistersView::after(bits, keys).registers[i],
            ),
    decreases keys.len(),
{
    if keys.len() > 0 {
        let before = keys.drop_last();
        lemma_register_is_highest_rank(bits, before, i);
        let v = RegistersView::after(bits, before);
        let w = RegistersView::after(bits, keys);
        let h = crate::detection::hashing::fx_digest(usize::BITS, keys.last());
        lemma_bucket_in_range(h, bits);
        assert forall|k: int, rank: u8|
            0 <= k < keys.len() && #[trigger] hits(bits, keys[k], i, rank) implies rank
            <= w.registers[i] by {
            if k < before.len() {
                assert(before[k] == keys[k]);
                assert(hits(bits, before[k], i, rank));
            }
        }
        if w.registers[i] > 0 {
            if w.registers[i] == v.registers[i] {
                let k = choose|k: int|
                    0 <= k < before.len() && #[trigger] hits(bits, before[k], i, v.registers[i]);
                assert(keys[k] == before[k]);
                assert(hits(bits, keys[k], i, w.registers[i]));
            } else {
                assert(hits(bits, keys[keys.len() - 1], i, w.registers[i]));
            }
        }
    }
}

/// The registers depend on which keys were added, and neither on their order nor
/// on how often each came.
pub proof fn law_only_the_keys_matter(bits: u32, a: Seq<Seq<u8>>, b: Seq<Seq<u8>>)
    requires
        1 <= bits < usize::BITS - 1,
        a.to_set() == b.to_set(),
    ensures
        RegistersView::after(bits, a) == RegistersView::after(bits, b),
{
    let v = RegistersView::after(bits, a);
    let w = RegistersView::after(bits, b);
    lemma_pow2_pos(bits as nat);
    lemma_register_is_highest_rank(bits, a, 0);
    lemma_register_is_highest_rank(bits, b, 0);
    assert forall|i: int| 0 <= i < pow2(bits as nat) implies v.registers[i] == w.registers[i] by {
        lemma_no_more_than(bits, a, b, i);
        lemma_no_more_than(bits, b, a, i);
    }
    assert(v.registers =~= w.registers);
}

proof fn lemma_no_more_than(bits: u32, a: Seq<Seq<u8>>, b: Seq<Seq<u8>>, i: int)
    requires
        1 <= bits < usize::BITS - 1,
        0 <= i < pow2(bits as nat),
        a.to_set() == b.to_set(),
    ensures
        RegistersView::after(bits, a).registers[i] <= RegistersView::after(bits, b).registers[i],
{
    lemma_register_is_highest_rank(bits, a, i);
    lemma_register_is_highest_rank(bits, b, i);
    let r = RegistersView::after(bits, a).registers[i];
    if r > 0 {
        let k = choose|k: int| 0 <= k < a.len() && #[trigger] hits(bits, a[k], i, r);
        assert(a.to_set().contains(a[k]));
        assert(b.to_set().contains(a[k]));
        let j = choose|j: int| 0 <= j < b.len() && b[j] == a[k];
        assert(hits(bits, b[j], i, r));
    }
}

proof fn lemma_untouched_after_update(registers: Seq<u8>, i: int, rank: u8)
    requires
        0 <= i < registers.len(),
    ensures
        untouched_among(registers) <= untouched_among(registers.update(i, rank)) + 1,
    decreases registers.len(),
{
    let updated = registers.update(i, rank);
    if i < registers.len() - 1 {
        assert(updated.drop_last() =~= registers.drop_last().update(i, rank));
        lemma_untouched_after_update(registers.drop_last(), i, rank);
    } else {
        assert(updated.drop_last() =~= registers.drop_last());
    }
}

proof fn lemma_untouched_when_empty(n: nat)
    ensures
        untouched_among(Seq::new(n, |i: int| 0u8)) == n,
    decreases n,
{
    if n > 0 {
        assert(Seq::new(n, |i: int| 0u8).drop_last() =~= Seq::new((n - 1) as nat, |i: int| 0u8));
        lemma_untouched_when_empty((n - 1) as nat);
    }
}

/// Touched registers are no more than distinct keys: however often keys were
/// added, each of them has touched one register.
pub proof fn law_distinct_keys_touch_registers(bits: u32, keys: Seq<Seq<u8>>)
    requires
        1 <= bits < usize::BITS - 1,
    ensures
        RegistersView::after(bits, keys).wf(),
        RegistersView::after(bits, keys).bits == bits,
        pow2(bits as nat) <= RegistersView::after(bits, keys).untouched() + keys.to_set().len(),
    decreases keys.len(),
{
    broadcast use vstd::seq_lib::seq_to_set_is_finite;

    if keys.len() == 0 {
        lemma_untouched_when_empty(pow2(bits as nat));
    } else {
        let before = keys.drop_last();
        law_distinct_keys_touch_registers(bits, before);
        assert(keys =~= before.push(keys.last()));
        before.lemma_push_to_set_commute(keys.last());
        if before.to_set().contains(keys.last()) {
            assert(keys.to_set() =~= before.to_set());
            law_only_the_keys_matter(bits, keys, before);
        } else {
            let v = RegistersView::after(bits, before);
            let h = crate::detection::hashing::fx_digest(usize::BITS, keys.last());
            lemma_bucket_in_range(h, bits);
            lemma_untouched_after_update(v.registers, bucket_of(h, bits), rank_of(h, bits));
        }
    }
}

/// Few distinct keys are estimated by linear counting: a table that has seen fewer
/// distinct keys than a tenth of its registers is sparse, however often each came.
pub proof fn law_few_keys_are_sparse(bits: u32, keys: Seq<Seq<u8>>)
    requires
        1 <= bits < usize::BITS - 1,
        10 * keys.to_set().len() < pow2(bits as nat),
    ensures
        RegistersView::after(bits, keys).sparse(),
{
    law_distinct_keys_touch_registers(bits, keys);
}

} // verus!
