//! Sketches: what their counters and registers hold.

use vstd::arithmetic::div_mod::*;
use vstd::arithmetic::power2::*;
use vstd::prelude::*;

verus! {

/// The column of `key` in a row: the digest of the key, seeded with a multiple of
/// the golden ratio, modulo the number of columns.
pub open spec fn column_of(width: nat, row: int, key: Seq<u8>) -> int {
    let seed = ((row + 1) * 0x9E37_79B9_7F4A_7C15 % 0x1_0000_0000_0000_0000) as u64;
    (crate::detection::hashing::fx_seeded_digest(usize::BITS, seed, key) as usize) as int % width as int
}

/// How many of `keys` share the column of `key` in a row.
pub open spec fn sharers(width: nat, row: int, key: Seq<u8>, keys: Seq<Seq<u8>>) -> nat
    decreases keys.len(),
{
    if keys.len() == 0 {
        0
    } else {
        sharers(width, row, key, keys.drop_last()) + if column_of(width, row, keys.last())
            == column_of(width, row, key) {
            1nat
        } else {
            0nat
        }
    }
}

/// `n`, or the largest number that a counter can hold.
pub open spec fn held(n: nat) -> nat {
    if n > 0xFFFF_FFFF {
        0xFFFF_FFFF
    } else {
        n
    }
}

proof fn lemma_sharers(width: nat, row: int, key: Seq<u8>, keys: Seq<Seq<u8>>)
    ensures
        crate::detection::sketch::sharing(width, row, key, keys) == sharers(width, row, key, keys),
    decreases keys.len(),
{
    if keys.len() > 0 {
        lemma_sharers(width, row, key, keys.drop_last());
    }
}

proof fn lemma_least_is_lowest(
    v: crate::detection::sketch::SketchView,
    key: Seq<u8>,
    rows: nat,
)
    requires
        rows > 0,
    ensures
        forall|row: int| 0 <= row < rows ==> v.least(key, rows) <= #[trigger] v.cell(row, key),
        exists|row: int| 0 <= row < rows && v.least(key, rows) == #[trigger] v.cell(row, key),
    decreases rows,
{
    if rows == 1 {
        assert(v.least(key, 1) == v.cell(0, key));
    } else {
        lemma_least_is_lowest(v, key, (rows - 1) as nat);
        let before = v.least(key, (rows - 1) as nat);
        let next = v.cell(rows - 1, key);
        if next < before {
            assert(v.least(key, rows) == v.cell(rows - 1, key));
        } else {
            let row = choose|row: int|
                0 <= row < rows - 1 && before == #[trigger] v.cell(row, key);
            assert(v.least(key, rows) == v.cell(row, key));
        }
    }
}

/// An estimate is the least number, over the rows, of counted keys that share the
/// column of the key in that row, as far as a counter can hold it.
pub proof fn law_estimate_is_least_shared_count(
    width: nat,
    depth: nat,
    keys: Seq<Seq<u8>>,
    key: Seq<u8>,
)
    requires
        width > 0,
        depth > 0,
    ensures
        ({
            let e = crate::detection::sketch::SketchView::after(width, depth, keys).estimate(key);
            &&& forall|row: int|
                0 <= row < depth ==> e <= held(#[trigger] sharers(width, row, key, keys))
            &&& exists|row: int|
                0 <= row < depth && e == held(#[trigger] sharers(width, row, key, keys))
        }),
{
    let v = crate::detection::sketch::SketchView::after(width, depth, keys);
    crate::detection::sketch::lemma_cell_counts(width, depth, keys, 0, key);
    lemma_least_is_lowest(v, key, depth);
    assert forall|row: int| 0 <= row < depth implies v.cell(row, key) == held(
        #[trigger] sharers(width, row, key, keys),
    ) by {
        crate::detection::sketch::lemma_cell_counts(width, depth, keys, row, key);
        lemma_sharers(width, row, key, keys);
    }
    let row = choose|row: int| 0 <= row < depth && v.least(key, depth) == #[trigger] v.cell(row, key);
    assert(v.cell(row, key) == held(sharers(width, row, key, keys)));
    assert forall|r: int| 0 <= r < depth implies v.estimate(key) <= held(
        #[trigger] sharers(width, r, key, keys),
    ) by {
        assert(v.least(key, depth) <= v.cell(r, key));
    }
}

/// What a table of 2^`bits` registers makes of hash `h`: it falls on register `b`,
/// which its first bits name, with rank `r`, the place of the first one-bit among
/// the others, or one more than their number where there is none.
pub open spec fn falls_on(bits: nat, h: u64, b: int, r: int) -> bool {
    let rest = h as int % pow2((64 - bits) as nat) as int;
    &&& b * pow2((64 - bits) as nat) + rest == h
    &&& if rest == 0 {
        r == 65 - bits
    } else {
        1 <= r <= 64 - bits && pow2((64 - bits - r) as nat) <= rest < pow2(
            (65 - bits - r) as nat,
        )
    }
}

proof fn lemma_bit_length_bounds(n: nat)
    requires
        n > 0,
    ensures
        crate::detection::cardinality::bit_length(n) >= 1,
        pow2((crate::detection::cardinality::bit_length(n) - 1) as nat) <= n < pow2(
            crate::detection::cardinality::bit_length(n),
        ),
    decreases n,
{
    let l = crate::detection::cardinality::bit_length(n);
    if n == 1 {
        lemma2_to64();
        assert(crate::detection::cardinality::bit_length(0) == 0);
    } else {
        lemma_bit_length_bounds(n / 2);
        lemma_pow2_unfold(l);
        lemma_pow2_unfold((l - 1) as nat);
    }
}

proof fn lemma_powers_grow(a: nat, b: nat)
    requires
        a <= b,
    ensures
        pow2(a) <= pow2(b),
{
    if a < b {
        lemma_pow2_strictly_increases(a, b);
    }
}

proof fn lemma_falls_on(bits: u32, h: u64, b: int, r: int)
    requires
        1 <= bits <= 63,
    ensures
        falls_on(bits as nat, h, b, r) <==> b == crate::detection::cardinality::bucket_of(h, bits)
            && r == crate::detection::cardinality::rank_of(h, bits),
{
    let c = (64 - bits) as nat;
    let m = pow2(c) as int;
    lemma_pow2_pos(c);
    let rest = h as int % m;
    let l = crate::detection::cardinality::bit_length(rest as nat) as int;
    lemma_fundamental_div_mod(h as int, m);
    let bucket = crate::detection::cardinality::bucket_of(h, bits);
    assert(b * m + rest == h <==> b == bucket) by (nonlinear_arith)
        requires
            h == m * bucket + rest,
            m > 0,
    ;
    if rest > 0 {
        lemma_bit_length_bounds(rest as nat);
        if l > c {
            lemma_powers_grow(c, (l - 1) as nat);
        }
        if 1 <= r <= c && pow2((c - r) as nat) <= rest < pow2((c + 1 - r) as nat) {
            if l < c + 1 - r {
                lemma_powers_grow(l as nat, (c - r) as nat);
            }
            if l > c + 1 - r {
                lemma_powers_grow((c + 1 - r) as nat, (l - 1) as nat);
            }
        }
        assert(crate::detection::cardinality::rank_of(h, bits) == c + 1 - l);
    } else {
        assert(l == 0);
    }
}

/// A register holds the highest rank of the keys that fall on it, and nothing
/// where none does: whatever keys were added, each register is at least the rank of
/// every key that falls on it, and one that is not zero is the rank of one of them.
pub proof fn law_register_holds_highest_rank(bits: u32, keys: Seq<Seq<u8>>, b: int)
    requires
        1 <= bits < usize::BITS - 1,
        0 <= b < pow2(bits as nat),
    ensures
        ({
            let registers = crate::detection::cardinality::RegistersView::after(
                bits,
                keys,
            ).registers;
            &&& registers.len() == pow2(bits as nat)
            &&& forall|k: int, r: int|
                0 <= k < keys.len() && #[trigger] falls_on(
                    bits as nat,
                    crate::detection::hashing::fx_digest(usize::BITS, keys[k]),
                    b,
                    r,
                ) ==> r <= registers[b]
            &&& registers[b] > 0 ==> exists|k: int|
                0 <= k < keys.len() && #[trigger] falls_on(
                    bits as nat,
                    crate::detection::hashing::fx_digest(usize::BITS, keys[k]),
                    b,
                    registers[b] as int,
                )
        }),
{
    crate::detection::cardinality::lemma_register_is_highest_rank(bits, keys, b);
    let registers = crate::detection::cardinality::RegistersView::after(bits, keys).registers;
    assert forall|k: int, r: int|
        0 <= k < keys.len() && #[trigger] falls_on(
            bits as nat,
            crate::detection::hashing::fx_digest(usize::BITS, keys[k]),
            b,
            r,
        ) implies r <= registers[b] by {
        let h = crate::detection::hashing::fx_digest(usize::BITS, keys[k]);
        lemma_falls_on(bits, h, b, r);
        assert(crate::detection::cardinality::hits(bits, keys[k], b, r as u8));
    }
    if registers[b] > 0 {
        let k = choose|k: int|
            0 <= k < keys.len() && #[trigger] crate::detection::cardinality::hits(
                bits,
                keys[k],
                b,
                registers[b],
            );
        let h = crate::detection::hashing::fx_digest(usize::BITS, keys[k]);
        lemma_falls_on(bits, h, b, registers[b] as int);
        assert(falls_on(
            bits as nat,
            crate::detection::hashing::fx_digest(usize::BITS, keys[k]),
            b,
            registers[b] as int,
        ));
    }
}

/// An added key leaves its mark: the register that the first bits of its hash name
/// is not zero, whatever else was added.
pub proof fn law_added_key_touches_its_register(bits: u32, keys: Seq<Seq<u8>>, k: int)
    requires
        1 <= bits < usize::BITS - 1,
        0 <= k < keys.len(),
    ensures
        ({
            let h = crate::detection::hashing::fx_digest(usize::BITS, keys[k]) as int;
            let b = h / pow2((64 - bits) as nat) as int;
            &&& 0 <= b < pow2(bits as nat)
            &&& crate::detection::cardinality::RegistersView::after(bits, keys).registers[b] > 0
        }),
{
    let h = crate::detection::hashing::fx_digest(usize::BITS, keys[k]);
    crate::detection::cardinality::lemma_bucket_in_range(h, bits);
    let b = crate::detection::cardinality::bucket_of(h, bits);
    let rank = crate::detection::cardinality::rank_of(h, bits) as int;
    lemma_falls_on(bits, h, b, rank);
    law_register_holds_highest_rank(bits, keys, b);
    assert(falls_on(
        bits as nat,
        crate::detection::hashing::fx_digest(usize::BITS, keys[k]),
        b,
        rank,
    ));
}

/// The places of the registers that are zero.
pub open spec fn zeros(registers: Seq<u8>) -> Set<int> {
    Set::new(|i: int| 0 <= i < registers.len() && registers[i] == 0)
}

proof fn lemma_zeros(registers: Seq<u8>)
    ensures
        zeros(registers).finite(),
        zeros(registers).len() == crate::detection::cardinality::untouched_among(registers),
    decreases registers.len(),
{
    if registers.len() == 0 {
        assert(zeros(registers) =~= Set::empty());
    } else {
        let before = registers.drop_last();
        lemma_zeros(before);
        if registers.last() == 0 {
            assert(zeros(registers) =~= zeros(before).insert(registers.len() - 1));
        } else {
            assert(zeros(registers) =~= zeros(before));
        }
    }
}

/// A table is sparse if and only if more than nine tenths of its registers are
/// zero.
pub proof fn law_sparse_by_its_zeros(v: crate::detection::cardinality::RegistersView)
    ensures
        v.untouched() == zeros(v.registers).len(),
        v.sparse() <==> 10 * zeros(v.registers).len() > 9 * v.registers.len(),
{
    lemma_zeros(v.registers);
}

} // verus!
