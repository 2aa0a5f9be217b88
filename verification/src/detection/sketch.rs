//! Count-Min Sketch: approximate counts in fixed memory.

use vstd::prelude::*;

use crate::detection::hashing::fx_hash_seeded;

verus! {

/// A table of counters with `depth` rows of `width` columns. Each key has one
/// column in each row; its estimate is the least of its counters. `width`
/// controls the error bound and `depth` how likely a large error is.
pub struct CountMinSketch {
    depth: usize,
    width: usize,
    table: Vec<Vec<u32>>,
    seeds: Vec<u64>,
}

/// The seed of a row.
pub open spec fn row_seed(row: int) -> u64 {
    ((row + 1) * 0x9E37_79B9_7F4A_7C15 % 0x1_0000_0000_0000_0000) as u64
}

/// The column of `key` in a row.
pub open spec fn column(width: nat, row: int, key: Seq<u8>) -> int {
    (crate::detection::hashing::fx_seeded_digest(usize::BITS, row_seed(row), key) as usize) as int
        % width as int
}

/// One more, up to what a counter can hold.
pub open spec fn count_up(n: u32) -> u32 {
    if n == u32::MAX {
        n
    } else {
        (n + 1) as u32
    }
}

/// The counters of a sketch.
#[verifier::ext_equal]
pub struct SketchView {
    pub width: nat,
    pub table: Seq<Seq<u32>>,
}

impl SketchView {
    /// A sketch that has counted nothing.
    pub open spec fn empty(width: nat, depth: nat) -> Self {
        SketchView { width, table: Seq::new(depth, |row: int| Seq::new(width, |col: int| 0u32)) }
    }

    /// Every row has `width` columns.
    pub open spec fn wf(self) -> bool {
        forall|row: int|
            0 <= row < self.table.len() ==> (#[trigger] self.table[row]).len() == self.width
    }

    /// Keys can be counted: a sketch with rows has columns.
    pub open spec fn usable(self) -> bool {
        self.table.len() > 0 ==> self.width > 0
    }

    /// The counter of `key` in a row.
    pub open spec fn cell(self, row: int, key: Seq<u8>) -> u32 {
        self.table[row][column(self.width, row, key)]
    }

    /// The sketch after one more `key`: its counter in every row goes up.
    pub open spec fn incremented(self, key: Seq<u8>) -> Self {
        SketchView {
            width: self.width,
            table: Seq::new(
                self.table.len(),
                |row: int|
                    self.table[row].update(
                        column(self.width, row, key),
                        count_up(self.cell(row, key)),
                    ),
            ),
        }
    }

    /// The least counter of `key` in the first `rows` rows.
    pub open spec fn least(self, key: Seq<u8>, rows: nat) -> u32
        decreases rows,
    {
        if rows == 0 {
            0
        } else if rows == 1 {
            self.cell(0, key)
        } else {
            let before = self.least(key, (rows - 1) as nat);
            let next = self.cell(rows - 1, key);
            if next < before {
                next
            } else {
                before
            }
        }
    }

    /// The estimated count of `key`: its least counter, or 0 without rows.
    pub open spec fn estimate(self, key: Seq<u8>) -> u32 {
        self.least(key, self.table.len())
    }

    /// The sketch after a run of keys, from an empty one.
    pub open spec fn after(width: nat, depth: nat, keys: Seq<Seq<u8>>) -> Self
        decreases keys.len(),
    {
        if keys.len() == 0 {
            Self::empty(width, depth)
        } else {
            Self::after(width, depth, keys.drop_last()).incremented(keys.last())
        }
    }
}

impl View for CountMinSketch {
    type V = SketchView;

    closed spec fn view(&self) -> SketchView {
        SketchView {
            width: self.width as nat,
            table: self.table@.map_values(|row: Vec<u32>| row@),
        }
    }
}

impl CountMinSketch {
    /// The rows, their seeds and the counters agree in number.
    pub closed spec fn wf(&self) -> bool {
        &&& self@.wf()
        &&& self.table@.len() == self.depth
        &&& self.seeds@.len() == self.depth
        &&& forall|row: int| 0 <= row < self.depth ==> #[trigger] self.seeds@[row] == row_seed(row)
    }

    /// A sketch of `depth` rows of `width` counters, all zero.
    pub fn new(width: usize, depth: usize) -> (r: Self)
        ensures
            r.wf(),
            r@ == SketchView::empty(width as nat, depth as nat),
    {
        let mut seeds: Vec<u64> = Vec::new();
        let mut table: Vec<Vec<u32>> = Vec::new();
        let mut row: usize = 0;
        while row < depth
            invariant
                row <= depth,
                seeds@.len() == row,
                table@.len() == row,
                forall|i: int| 0 <= i < row ==> #[trigger] seeds@[i] == row_seed(i),
                forall|i: int|
                    0 <= i < row ==> (#[trigger] table@[i])@ == Seq::new(
                        width as nat,
                        |col: int| 0u32,
                    ),
            decreases depth - row,
        {
            seeds.push(0x9E37_79B9_7F4A_7C15u64.wrapping_mul((row as u64).wrapping_add(1)));
            let zeros: Vec<u32> = vec![0u32; width];
            assert(zeros@ =~= Seq::new(width as nat, |col: int| 0u32));
            table.push(zeros);
            row = row + 1;
        }
        let r = CountMinSketch { depth, width, table, seeds };
        assert(r@ =~~= SketchView::empty(width as nat, depth as nat));
        r
    }

    /// The column of `key` in `row`.
    fn hash(&self, key: &[u8], row: usize) -> (r: usize)
        requires
            self.wf(),
            row < self@.table.len(),
            self@.usable(),
        ensures
            r == column(self@.width, row as int, key@),
            r < self@.width,
    {
        (fx_hash_seeded(self.seeds[row], key) as usize) % self.width
    }

    /// Counts one more `key`.
    pub fn increment(&mut self, key: &[u8])
        requires
            old(self).wf(),
            old(self)@.usable(),
        ensures
            final(self).wf(),
            final(self)@ == old(self)@.incremented(key@),
            final(self)@.wf(),
    {
        let ghost before = self@;
        let mut row: usize = 0;
        while row < self.depth
            invariant
                before == old(self)@,
                self.wf(),
                before.wf(),
                before.usable(),
                row <= self.depth,
                self@.width == before.width,
                self@.table.len() == before.table.len() == self.depth,
                forall|i: int|
                    0 <= i < row ==> #[trigger] self@.table[i] == before.incremented(
                        key@,
                    ).table[i],
                forall|i: int|
                    row <= i < self.depth ==> #[trigger] self@.table[i] == before.table[i],
            decreases self.depth - row,
        {
            let ghost table = self@.table;
            let col: usize = self.hash(key, row);
            assert(self@.table[row as int] == before.table[row as int]);
            let count: u32 = self.table[row][col];
            self.table[row][col] = count.saturating_add(1);
            proof {
                assert(self@.table[row as int] =~= before.incremented(key@).table[row as int]);
                assert(self@.table =~= table.update(row as int, self@.table[row as int]));
            }
            row = row + 1;
        }
        assert(self@ =~= before.incremented(key@));
    }

    /// The estimated count of `key`.
    pub fn estimate(&self, key: &[u8]) -> (r: u32)
        requires
            self.wf(),
            self@.usable(),
        ensures
            r == self@.estimate(key@),
    {
        let mut least: u32 = 0;
        let mut row: usize = 0;
        while row < self.depth
            invariant
                self.wf(),
                self@.usable(),
                row <= self.depth == self@.table.len(),
                least == self@.least(key@, row as nat),
            decreases self.depth - row,
        {
            let col: usize = self.hash(key, row);
            assert(self@.table[row as int] == self.table@[row as int]@);
            let count: u32 = self.table[row][col];
            if row == 0 || count < least {
                least = count;
            }
            row = row + 1;
        }
        least
    }

    /// Forgets all counts.
    pub fn clear(&mut self)
        requires
            old(self).wf(),
        ensures
            final(self).wf(),
            final(self)@ == SketchView::empty(old(self)@.width, old(self)@.table.len()),
    {
        let ghost before = self@;
        let mut row: usize = 0;
        while row < self.depth
            invariant
                before == old(self)@,
                self.wf(),
                row <= self.depth == before.table.len(),
                self@.width == before.width,
                self@.table.len() == self.depth,
                forall|i: int|
                    0 <= i < row ==> #[trigger] self@.table[i] == Seq::new(
                        before.width,
                        |col: int| 0u32,
                    ),
            decreases self.depth - row,
        {
            let ghost table = self@.table;
            let mut zeros: Vec<u32> = vec![0u32; self.width];
            assert(zeros@ =~= Seq::new(before.width, |col: int| 0u32));
            std::mem::swap(&mut self.table[row], &mut zeros);
            assert(self@.table =~= table.update(row as int, self@.table[row as int]));
            row = row + 1;
        }
        assert(self@ =~~= SketchView::empty(before.width, before.table.len()));
    }
}

/// How many of `keys` fall on the column of `key` in a row.
pub open spec fn sharing(width: nat, row: int, key: Seq<u8>, keys: Seq<Seq<u8>>) -> nat
    decreases keys.len(),
{
    if keys.len() == 0 {
        0
    } else {
        sharing(width, row, key, keys.drop_last()) + if column(width, row, keys.last()) == column(
            width,
            row,
            key,
        ) {
            1nat
        } else {
            0nat
        }
    }
}

/// How often `key` occurs among `keys`.
pub open spec fn occurrences(key: Seq<u8>, keys: Seq<Seq<u8>>) -> nat
    decreases keys.len(),
{
    if keys.len() == 0 {
        0
    } else {
        occurrences(key, keys.drop_last()) + if keys.last() == key {
            1nat
        } else {
            0nat
        }
    }
}

/// `n`, or the largest count that a counter can hold.
pub open spec fn saturated(n: nat) -> u32 {
    if n > u32::MAX {
        u32::MAX
    } else {
        n as u32
    }
}

/// Every counter holds exactly the number of keys that fell on it.
pub proof fn lemma_cell_counts(
    width: nat,
    depth: nat,
    keys: Seq<Seq<u8>>,
    row: int,
    key: Seq<u8>,
)
    requires
        width > 0,
        0 <= row < depth,
    ensures
        SketchView::after(width, depth, keys).wf(),
        SketchView::after(width, depth, keys).width == width,
        SketchView::after(width, depth, keys).table.len() == depth,
        SketchView::after(width, depth, keys).cell(row, key) == saturated(
            sharing(width, row, key, keys),
        ),
    decreases keys.len(),
{
    if keys.len() > 0 {
        lemma_cell_counts(width, depth, keys.drop_last(), row, key);
        lemma_cell_counts(width, depth, keys.drop_last(), row, keys.last());
        let before = SketchView::after(width, depth, keys.drop_last());
        if column(width, row, keys.last()) == column(width, row, key) {
            lemma_same_column_shares(width, row, key, keys.last(), keys.drop_last());
        }
    }
}

proof fn lemma_same_column_shares(
    width: nat,
    row: int,
    a: Seq<u8>,
    b: Seq<u8>,
    keys: Seq<Seq<u8>>,
)
    requires
        column(width, row, a) == column(width, row, b),
    ensures
        sharing(width, row, a, keys) == sharing(width, row, b, keys),
    decreases keys.len(),
{
    if keys.len() > 0 {
        lemma_same_column_shares(width, row, a, b, keys.drop_last());
    }
}

proof fn lemma_sharing_bounds(width: nat, row: int, key: Seq<u8>, keys: Seq<Seq<u8>>)
    ensures
        occurrences(key, keys) <= sharing(width, row, key, keys) <= keys.len(),
    decreases keys.len(),
{
    if keys.len() > 0 {
        lemma_sharing_bounds(width, row, key, keys.drop_last());
    }
}

/// A bound on every counter is a bound on the least one.
proof fn lemma_least_bounds(v: SketchView, key: Seq<u8>, rows: nat, low: u32, high: u32)
    requires
        rows > 0,
        forall|row: int| 0 <= row < rows ==> low <= #[trigger] v.cell(row, key) <= high,
    ensures
        low <= v.least(key, rows) <= high,
    decreases rows,
{
    assert(low <= v.cell(rows - 1, key) <= high);
    if rows > 1 {
        lemma_least_bounds(v, key, (rows - 1) as nat, low, high);
    }
}

/// The sketch never undercounts: whatever keys it has counted since it was
/// empty, the estimate of a key is at least the number of times that the key was
/// counted, up to what a counter can hold, and at most the number of keys.
pub proof fn law_never_undercounts(
    width: nat,
    depth: nat,
    keys: Seq<Seq<u8>>,
    key: Seq<u8>,
)
    requires
        width > 0,
        depth > 0,
    ensures
        saturated(occurrences(key, keys)) <= SketchView::after(width, depth, keys).estimate(key)
            <= saturated(keys.len()),
{
    let v = SketchView::after(width, depth, keys);
    lemma_cell_counts(width, depth, keys, 0, key);
    assert forall|row: int| 0 <= row < depth implies saturated(occurrences(key, keys))
        <= #[trigger] v.cell(row, key) <= saturated(keys.len()) by {
        lemma_cell_counts(width, depth, keys, row, key);
        lemma_sharing_bounds(width, row, key, keys);
    }
    lemma_least_bounds(
        v,
        key,
        depth,
        saturated(occurrences(key, keys)),
        saturated(keys.len()),
    );
}

} // verus!
