//! The bit-packed cellular-automaton engine.
//!
//! Cells are stored one bit each inside `u64` words, row-major: row `y` owns
//! `width_chunks` consecutive words, and cell `(x, y)` is bit `x % 64` of word
//! `y * width_chunks + x / 64`. Every out-of-range coordinate reads as dead.
//! `next_state` gives the standard two-state rule over an 8-neighborhood with
//! no wraparound, and every stepping operation is proved to realize it
//! pointwise, so partitioned and sequential stepping agree bit for bit.

use vstd::prelude::*;
use vstd::arithmetic::div_mod::{
    lemma_div_is_ordered, lemma_div_pos_is_pos, lemma_fundamental_div_mod,
    lemma_fundamental_div_mod_converse, lemma_mod_bound,
};
use vstd::arithmetic::mul::{
    lemma_mul_inequality, lemma_mul_is_commutative, lemma_mul_is_distributive_add_other_way,
    lemma_mul_is_distributive_sub, lemma_mul_nonnegative, lemma_mul_upper_bound,
};

verus! {

/// Cells per storage word.
pub const BIT_LENGTH: usize = 64;

/// Words needed for one row of `width` cells: `width / 64`, rounded up.
pub open spec fn chunks_per_row(width: int) -> int {
    (width + 63) / 64
}

/// Whether bit `b` of `chunk` is set.
pub open spec fn bit_of(chunk: u64, b: u64) -> bool {
    (chunk >> b) & 1u64 == 1u64
}

/// Whether the bit for position `(x, ly)` is set in a row-major block of
/// words that is `wc` words wide.
pub open spec fn block_bit(buf: Seq<u64>, wc: int, x: int, ly: int) -> bool {
    bit_of(buf[ly * wc + x / 64], (x % 64) as u64)
}

/// The canonical simulation grid: two bit-packed buffers and a generation
/// counter. `current_generation` is the observable state; `next_generation`
/// is scratch space that stepping fills and then swaps in.
#[derive(Clone)]
pub struct GameOfLifeBits {
    pub width: u16,
    pub height: u16,
    pub current_generation: Vec<u64>,
    pub next_generation: Vec<u64>,
    pub generation_count: u64,
    pub width_chunks: usize,
}

impl GameOfLifeBits {
    /// Structural invariant: the chunk count matches the width and both
    /// buffers hold exactly one row of words per row of cells.
    pub open spec fn wf(self) -> bool {
        &&& self.width_chunks == chunks_per_row(self.width as int)
        &&& self.current_generation@.len() == self.width_chunks * self.height as int
        &&& self.next_generation@.len() == self.width_chunks * self.height as int
    }

    /// Whether the cell at `(x, y)` is alive; any out-of-range coordinate is dead.
    pub open spec fn cell(self, x: int, y: int) -> bool {
        0 <= x < self.width && 0 <= y < self.height
            && block_bit(self.current_generation@, self.width_chunks as int, x, y)
    }

    /// Same as `cell`, over the scratch buffer.
    pub open spec fn next_cell(self, x: int, y: int) -> bool {
        0 <= x < self.width && 0 <= y < self.height
            && block_bit(self.next_generation@, self.width_chunks as int, x, y)
    }

    /// Width, height and chunk count unchanged between two states.
    pub open spec fn same_shape(self, other: GameOfLifeBits) -> bool {
        self.width == other.width && self.height == other.height
            && self.width_chunks == other.width_chunks
    }
}

/// 1 for a live cell, 0 for a dead or out-of-range one.
pub open spec fn alive_at(g: GameOfLifeBits, x: int, y: int) -> int {
    if g.cell(x, y) {
        1
    } else {
        0
    }
}

/// How many of the 8 neighbors of `(x, y)` are alive; edges and corners
/// simply have fewer live neighbors, there is no wraparound.
pub open spec fn live_neighbors(g: GameOfLifeBits, x: int, y: int) -> int {
    alive_at(g, x - 1, y - 1) + alive_at(g, x, y - 1) + alive_at(g, x + 1, y - 1)
        + alive_at(g, x - 1, y) + alive_at(g, x + 1, y)
        + alive_at(g, x - 1, y + 1) + alive_at(g, x, y + 1) + alive_at(g, x + 1, y + 1)
}

/// The rule: a cell is alive in the next generation iff it has exactly 3 live
/// neighbors, or exactly 2 and it is alive now.
pub open spec fn next_state(g: GameOfLifeBits, x: int, y: int) -> bool {
    0 <= x < g.width && 0 <= y < g.height && {
        let n = live_neighbors(g, x, y);
        n == 3 || (n == 2 && g.cell(x, y))
    }
}

/// The five cells of the glider pattern, anchored at the top-left corner.
pub open spec fn glider_lit(x: int, y: int) -> bool {
    (x == 1 && y == 0) || (x == 2 && y == 1) || (x == 0 && y == 2) || (x == 1 && y == 2) || (x == 2
        && y == 2)
}

/// The three cells of the horizontal blinker centered on the grid, provided
/// the center leaves room for it; on a too-small grid nothing is lit.
pub open spec fn blinker_lit(width: int, height: int, x: int, y: int) -> bool {
    let cx = width / 2;
    let cy = height / 2;
    cx > 0 && cy > 0 && cx < width - 1 && y == cy && (x == cx - 1 || x == cx || x == cx + 1)
}

/// Live cells of row `y` among columns `0..w`.
pub open spec fn row_population(g: GameOfLifeBits, y: int, w: int) -> int
    decreases w,
{
    if w <= 0 {
        0
    } else {
        row_population(g, y, w - 1) + alive_at(g, w - 1, y)
    }
}

/// Live cells of rows `0..h`.
pub open spec fn rows_population(g: GameOfLifeBits, h: int) -> int
    decreases h,
{
    if h <= 0 {
        0
    } else {
        rows_population(g, h - 1) + row_population(g, h - 1, g.width as int)
    }
}

/// How many cells of the whole grid are alive.
pub open spec fn population(g: GameOfLifeBits) -> int {
    rows_population(g, g.height as int)
}

proof fn lemma_row_population_bounds(g: GameOfLifeBits, y: int, w: int)
    requires
        w >= 0,
    ensures
        0 <= row_population(g, y, w) <= w,
    decreases w,
{
    if w > 0 {
        lemma_row_population_bounds(g, y, w - 1);
    }
}

proof fn lemma_rows_population_bounds(g: GameOfLifeBits, h: int)
    requires
        h >= 0,
    ensures
        0 <= rows_population(g, h) <= h * g.width,
    decreases h,
{
    if h > 0 {
        lemma_rows_population_bounds(g, h - 1);
        lemma_row_population_bounds(g, h - 1, g.width as int);
        lemma_mul_is_distributive_sub(g.width as int, h, 1);
        lemma_mul_is_commutative(g.width as int, h);
        lemma_mul_is_commutative(g.width as int, h - 1);
    }
}

/// Grids with pointwise-equal cells over equal dimensions have equal
/// row counts and population.
pub proof fn lemma_population_congruence(a: GameOfLifeBits, b: GameOfLifeBits)
    requires
        a.width == b.width,
        a.height == b.height,
        forall|x: int, y: int| #[trigger] a.cell(x, y) == b.cell(x, y),
    ensures
        population(a) == population(b),
{
    assert forall|y: int, w: int| w >= 0 implies #[trigger] row_population(a, y, w)
        == row_population(b, y, w) by {
        lemma_row_population_congruence(a, b, y, w);
    }
    lemma_rows_population_congruence(a, b, a.height as int);
}

proof fn lemma_row_population_congruence(a: GameOfLifeBits, b: GameOfLifeBits, y: int, w: int)
    requires
        forall|x: int, y: int| #[trigger] a.cell(x, y) == b.cell(x, y),
        w >= 0,
    ensures
        row_population(a, y, w) == row_population(b, y, w),
    decreases w,
{
    if w > 0 {
        lemma_row_population_congruence(a, b, y, w - 1);
    }
}

proof fn lemma_rows_population_congruence(a: GameOfLifeBits, b: GameOfLifeBits, h: int)
    requires
        a.width == b.width,
        forall|x: int, y: int| #[trigger] a.cell(x, y) == b.cell(x, y),
        h >= 0,
    ensures
        rows_population(a, h) == rows_population(b, h),
    decreases h,
{
    if h > 0 {
        lemma_rows_population_congruence(a, b, h - 1);
        lemma_row_population_congruence(a, b, h - 1, a.width as int);
    }
}

/// The 3 bytes of pixel `(x, y)` in a row-major RGB rendering that is
/// `width` pixels wide: all exactly 255 for a dead cell, all strictly below
/// 255 for a live one.
pub open spec fn pixel_rendered(bytes: Seq<u8>, width: int, x: int, y: int, live: bool) -> bool {
    let base = 3 * (y * width + x);
    if live {
        bytes[base] < 255 && bytes[base + 1] < 255 && bytes[base + 2] < 255
    } else {
        bytes[base] == 255 && bytes[base + 1] == 255 && bytes[base + 2] == 255
    }
}

/// A grid with no live cell has population 0; with `kill_all_cells`'s
/// contract this pins `population_count` to 0 right after a clear.
pub proof fn lemma_empty_population(g: GameOfLifeBits)
    requires
        forall|x: int, y: int| !(#[trigger] g.cell(x, y)),
    ensures
        population(g) == 0,
{
    lemma_empty_rows_population(g, g.height as int);
}

proof fn lemma_empty_row_population(g: GameOfLifeBits, y: int, w: int)
    requires
        forall|x: int, y: int| !(#[trigger] g.cell(x, y)),
        w >= 0,
    ensures
        row_population(g, y, w) == 0,
    decreases w,
{
    if w > 0 {
        lemma_empty_row_population(g, y, w - 1);
    }
}

proof fn lemma_empty_rows_population(g: GameOfLifeBits, h: int)
    requires
        forall|x: int, y: int| !(#[trigger] g.cell(x, y)),
        h >= 0,
    ensures
        rows_population(g, h) == 0,
    decreases h,
{
    if h > 0 {
        lemma_empty_rows_population(g, h - 1);
        lemma_empty_row_population(g, h - 1, g.width as int);
    }
}

/// A still life: the rule maps every cell to itself.
pub open spec fn is_still_life(g: GameOfLifeBits) -> bool {
    forall|x: int, y: int| #[trigger] next_state(g, x, y) == g.cell(x, y)
}

/// Stepping a still life changes no cell and keeps the population, however
/// the step was computed: `step`, `step_fallback` and `step_parallel` with
/// any worker count all ensure `stepped`.
pub proof fn lemma_still_life_preserved(pre: GameOfLifeBits, post: GameOfLifeBits)
    requires
        stepped(pre, post),
        is_still_life(pre),
    ensures
        forall|x: int, y: int| #[trigger] post.cell(x, y) == pre.cell(x, y),
        population(post) == population(pre),
{
    assert forall|x: int, y: int| #[trigger] post.cell(x, y) == pre.cell(x, y) by {
        assert(post.cell(x, y) == next_state(pre, x, y));
    }
    lemma_population_congruence(post, pre);
}

/// The step is deterministic: any two completed steps from the same state
/// agree on every cell, so sequential and partitioned stepping are
/// observably equivalent regardless of the worker count.
pub proof fn lemma_step_deterministic(pre: GameOfLifeBits, a: GameOfLifeBits, b: GameOfLifeBits)
    requires
        stepped(pre, a),
        stepped(pre, b),
    ensures
        forall|x: int, y: int| #[trigger] a.cell(x, y) == b.cell(x, y),
        population(a) == population(b),
{
    assert forall|x: int, y: int| #[trigger] a.cell(x, y) == b.cell(x, y) by {
        assert(a.cell(x, y) == next_state(pre, x, y));
        assert(b.cell(x, y) == next_state(pre, x, y));
    }
    lemma_population_congruence(a, b);
}

/// What cell `(i, j)` holds after writing `alive` into `(x, y)` of `pre`;
/// an out-of-range write changes nothing.
pub open spec fn cell_after(pre: GameOfLifeBits, x: int, y: int, alive: bool, i: int, j: int) -> bool {
    if i == x && j == y && 0 <= x < pre.width && 0 <= y < pre.height {
        alive
    } else {
        pre.cell(i, j)
    }
}

/// What scratch cell `(i, j)` holds after marking `(x, y)` alive in `pre`'s
/// scratch buffer: bits are only ever set, never cleared.
pub open spec fn next_cell_after(pre: GameOfLifeBits, x: int, y: int, alive: bool, i: int, j: int) -> bool {
    pre.next_cell(i, j) || (alive && i == x && j == y && 0 <= x < pre.width && 0 <= y < pre.height)
}

/// The cell update relation: `post` equals `pre` except that an in-range
/// `(x, y)` now holds `alive`.
pub open spec fn cells_updated(pre: GameOfLifeBits, post: GameOfLifeBits, x: int, y: int, alive: bool) -> bool {
    forall|i: int, j: int| #[trigger] post.cell(i, j) == cell_after(pre, x, y, alive, i, j)
}

proof fn lemma_bit_or(v: u64, b: u64, c: u64)
    by (bit_vector)
    requires
        b < 64,
        c < 64,
    ensures
        bit_of(v | (1u64 << b), c) == (c == b || bit_of(v, c)),
{
}

proof fn lemma_bit_clear(v: u64, b: u64, c: u64)
    by (bit_vector)
    requires
        b < 64,
        c < 64,
    ensures
        bit_of(v & !(1u64 << b), c) == (c != b && bit_of(v, c)),
{
}

proof fn lemma_bit_zero(c: u64)
    by (bit_vector)
    requires
        c < 64,
    ensures
        !bit_of(0u64, c),
{
}

/// Where cell `(x, y)` lives: its word index is within one row block of its
/// row and the whole buffer.
proof fn lemma_chunk_index(x: int, y: int, width: int, height: int, wc: int)
    requires
        0 <= x < width,
        0 <= y < height,
        wc == chunks_per_row(width),
    ensures
        0 <= x / 64 < wc,
        0 <= x % 64 < 64,
        0 <= y * wc + x / 64 < wc * height,
{
    lemma_div_pos_is_pos(x, 64);
    lemma_mod_bound(x, 64);
    lemma_div_is_ordered(x, width - 1, 64);
    let q = (width - 1) / 64;
    let r = (width - 1) % 64;
    lemma_fundamental_div_mod(width - 1, 64);
    lemma_mod_bound(width - 1, 64);
    lemma_fundamental_div_mod_converse(width + 63, 64, q + 1, r);
    assert(wc == q + 1);
    lemma_mul_nonnegative(y, wc);
    lemma_mul_inequality(y, height - 1, wc);
    lemma_mul_is_commutative(y, wc);
    lemma_mul_is_commutative(height - 1, wc);
    lemma_mul_is_distributive_sub(wc, height, 1);
    assert(y * wc + x / 64 <= (height - 1) * wc + wc - 1);
    assert((height - 1) * wc == height * wc - wc);
}

/// Distinct in-range cells live at distinct (word, bit) addresses.
proof fn lemma_cell_index_injective(
    x1: int,
    y1: int,
    x2: int,
    y2: int,
    width: int,
    height: int,
    wc: int,
)
    requires
        0 <= x1 < width,
        0 <= y1 < height,
        0 <= x2 < width,
        0 <= y2 < height,
        wc == chunks_per_row(width),
        y1 * wc + x1 / 64 == y2 * wc + x2 / 64,
        x1 % 64 == x2 % 64,
    ensures
        x1 == x2,
        y1 == y2,
{
    lemma_chunk_index(x1, y1, width, height, wc);
    lemma_chunk_index(x2, y2, width, height, wc);
    let i = y1 * wc + x1 / 64;
    lemma_fundamental_div_mod_converse(i, wc, y1, x1 / 64);
    lemma_fundamental_div_mod_converse(i, wc, y2, x2 / 64);
    assert(y1 == i / wc && y2 == i / wc);
    assert(x1 / 64 == i % wc && x2 / 64 == i % wc);
    lemma_fundamental_div_mod(x1, 64);
    lemma_fundamental_div_mod(x2, 64);
}

/// Two states with the same shape and the same current buffer hold the same
/// cells and make the same rule decisions, whatever their scratch buffers hold.
pub proof fn lemma_state_congruence(a: GameOfLifeBits, b: GameOfLifeBits)
    requires
        a.same_shape(b),
        a.current_generation@ == b.current_generation@,
    ensures
        forall|x: int, y: int| #[trigger] a.cell(x, y) == b.cell(x, y),
        forall|x: int, y: int| #[trigger] live_neighbors(a, x, y) == live_neighbors(b, x, y),
        forall|x: int, y: int| #[trigger] next_state(a, x, y) == next_state(b, x, y),
{
    assert forall|x: int, y: int| #[trigger] a.cell(x, y) == b.cell(x, y) by {}
    assert forall|x: int, y: int| #[trigger] live_neighbors(a, x, y) == live_neighbors(b, x, y) by {
        assert(a.cell(x - 1, y - 1) == b.cell(x - 1, y - 1));
        assert(a.cell(x, y - 1) == b.cell(x, y - 1));
        assert(a.cell(x + 1, y - 1) == b.cell(x + 1, y - 1));
        assert(a.cell(x - 1, y) == b.cell(x - 1, y));
        assert(a.cell(x + 1, y) == b.cell(x + 1, y));
        assert(a.cell(x - 1, y + 1) == b.cell(x - 1, y + 1));
        assert(a.cell(x, y + 1) == b.cell(x, y + 1));
        assert(a.cell(x + 1, y + 1) == b.cell(x + 1, y + 1));
    }
    assert forall|x: int, y: int| #[trigger] next_state(a, x, y) == next_state(b, x, y) by {
        assert(live_neighbors(a, x, y) == live_neighbors(b, x, y));
        assert(a.cell(x, y) == b.cell(x, y));
    }
}

/// One completed step: the shape is kept, the generation counter went up by
/// one, and every cell now holds the rule's outcome on the previous state.
pub open spec fn stepped(pre: GameOfLifeBits, post: GameOfLifeBits) -> bool {
    &&& post.wf()
    &&& post.same_shape(pre)
    &&& post.generation_count == pre.generation_count + 1
    &&& forall|x: int, y: int| #[trigger] post.cell(x, y) == next_state(pre, x, y)
}

/// A row never needs more words than the chunk count provides bits.
proof fn lemma_width_le_chunk_bits(width: int)
    requires
        width >= 0,
    ensures
        width <= chunks_per_row(width) * 64,
{
    lemma_fundamental_div_mod(width + 63, 64);
    lemma_mod_bound(width + 63, 64);
}

/// Like `lemma_chunk_index`, for a block addressed by bit position rather
/// than cell coordinate: positions up to `wc * 64` per row stay inside it.
proof fn lemma_block_index(x: int, ly: int, wc: int, nrows: int)
    requires
        wc > 0,
        0 <= x < wc * 64,
        0 <= ly < nrows,
    ensures
        0 <= x / 64 < wc,
        0 <= x % 64 < 64,
        0 <= ly * wc + x / 64 < wc * nrows,
{
    lemma_div_pos_is_pos(x, 64);
    lemma_mod_bound(x, 64);
    lemma_div_is_ordered(x, wc * 64 - 1, 64);
    lemma_fundamental_div_mod_converse(wc * 64 - 1, 64, wc - 1, 63);
    lemma_mul_nonnegative(ly, wc);
    lemma_mul_inequality(ly, nrows - 1, wc);
    lemma_mul_is_commutative(ly, wc);
    lemma_mul_is_commutative(nrows - 1, wc);
    lemma_mul_is_distributive_sub(wc, nrows, 1);
}

/// Distinct positions of a block live at distinct (word, bit) addresses.
proof fn lemma_block_index_injective(x1: int, ly1: int, x2: int, ly2: int, wc: int, nrows: int)
    requires
        wc > 0,
        0 <= x1 < wc * 64,
        0 <= ly1 < nrows,
        0 <= x2 < wc * 64,
        0 <= ly2 < nrows,
        ly1 * wc + x1 / 64 == ly2 * wc + x2 / 64,
        x1 % 64 == x2 % 64,
    ensures
        x1 == x2,
        ly1 == ly2,
{
    lemma_block_index(x1, ly1, wc, nrows);
    lemma_block_index(x2, ly2, wc, nrows);
    let i = ly1 * wc + x1 / 64;
    lemma_fundamental_div_mod_converse(i, wc, ly1, x1 / 64);
    lemma_fundamental_div_mod_converse(i, wc, ly2, x2 / 64);
    lemma_fundamental_div_mod(x1, 64);
    lemma_fundamental_div_mod(x2, 64);
}

/// Sets bit `b` of word `idx` in a raw block buffer.
fn set_block_bit(buf: &mut Vec<u64>, idx: usize, b: u64)
    requires
        idx < old(buf)@.len(),
        b < 64,
    ensures
        final(buf)@.len() == old(buf)@.len(),
        forall|k: int| 0 <= k < final(buf)@.len() && k != idx ==> final(buf)@[k] == old(buf)@[k],
        forall|c: u64|
            c < 64 ==> #[trigger] bit_of(final(buf)@[idx as int], c) == (c == b || bit_of(
                old(buf)@[idx as int], c)),
{
    let chunk = buf[idx];
    buf[idx] = chunk | (1u64 << b);
    proof {
        assert forall|c: u64| c < 64 implies #[trigger] bit_of(buf@[idx as int], c) == (c == b
            || bit_of(old(buf)@[idx as int], c)) by {
            lemma_bit_or(chunk, b, c);
        }
    }
}

/// A buffer of `n` zeroed words.
fn zero_chunks(n: usize) -> (v: Vec<u64>)
    ensures
        v@.len() == n,
        forall|k: int| 0 <= k < n ==> v@[k] == 0u64,
{
    let mut v: Vec<u64> = Vec::with_capacity(n);
    let mut i: usize = 0;
    while i < n
        invariant
            i <= n,
            v@.len() == i,
            forall|k: int| 0 <= k < i ==> v@[k] == 0u64,
        decreases n - i,
    {
        v.push(0);
        i = i + 1;
    }
    v
}

impl GameOfLifeBits {
    /// Creates a grid of the given dimensions, seeded with a random pattern
    /// at generation 0.
    pub fn new(width: u16, height: u16) -> (g: GameOfLifeBits)
        ensures
            g.wf(),
            g.width == width,
            g.height == height,
            g.generation_count == 0,
    {
        proof {
            lemma_div_pos_is_pos(width + 63, 64);
            assert(chunks_per_row(width as int) <= 1024) by {
                lemma_div_is_ordered(width + 63, 0xffffint + 63, 64);
                assert((0xffff + 63) / 64 == 1024);
            }
        }
        let width_chunks: usize = (width as usize + 63) / 64;
        proof {
            assert(width_chunks * height as int <= 1024 * 0xffff) by {
                lemma_mul_inequality(height as int, 0xffff, width_chunks as int);
                lemma_mul_is_commutative(height as int, width_chunks as int);
                lemma_mul_inequality(width_chunks as int, 1024, 0xffff);
                lemma_mul_is_commutative(width_chunks as int, 0xffff);
            }
            lemma_mul_nonnegative(width_chunks as int, height as int);
        }
        let total_chunks: usize = width_chunks * height as usize;
        let mut g = GameOfLifeBits {
            width,
            height,
            current_generation: zero_chunks(total_chunks),
            next_generation: zero_chunks(total_chunks),
            generation_count: 0,
            width_chunks,
        };
        g.initialize_random();
        g
    }

    /// Reseeds the whole grid with a random pattern (roughly 30% live) and
    /// resets the generation counter.
    pub fn initialize_random(&mut self)
        requires
            old(self).wf(),
        ensures
            final(self).wf(),
            final(self).same_shape(*old(self)),
            final(self).generation_count == 0,
            final(self).next_generation@ == old(self).next_generation@,
    {
        let n = self.current_generation.len();
        self.current_generation = zero_chunks(n);
        let mut y: usize = 0;
        while y < self.height as usize
            invariant
                self.wf(),
                self.same_shape(*old(self)),
                self.next_generation@ == old(self).next_generation@,
                self.generation_count == old(self).generation_count,
            decreases self.height as usize - y,
        {
            let mut x: usize = 0;
            while x < self.width as usize
                invariant
                    self.wf(),
                    self.same_shape(*old(self)),
                    self.next_generation@ == old(self).next_generation@,
                    self.generation_count == old(self).generation_count,
                    y < self.height as usize,
                decreases self.width as usize - x,
            {
                if crate::rng::random_u8_below(10) < 3 {
                    self.set_cell(x, y, true);
                }
                x = x + 1;
            }
            y = y + 1;
        }
        self.generation_count = 0;
    }

    /// The storage address of an in-range cell: word index within the
    /// current buffer, and bit offset within that word.
    pub fn get_chunk_index(&self, x: usize, y: usize) -> (r: (usize, usize))
        requires
            self.wf(),
            x < self.width,
            y < self.height,
        ensures
            r.0 == y * self.width_chunks + x / 64,
            r.1 == x % 64,
            r.0 < self.current_generation@.len(),
            r.1 < 64,
    {
        proof {
            lemma_chunk_index(x as int, y as int, self.width as int, self.height as int,
                self.width_chunks as int);
        }
        let chunk_x = x / BIT_LENGTH;
        let bit_x = x % BIT_LENGTH;
        // Binding the buffer length bounds the index arithmetic below usize::MAX.
        let buffer_len = self.current_generation.len();
        let chunk_index = y * self.width_chunks + chunk_x;
        proof {
            assert(chunk_index < buffer_len);
        }
        (chunk_index, bit_x)
    }

    /// Reads one cell; out-of-range coordinates read as dead.
    pub fn get_cell(&self, x: usize, y: usize) -> (r: bool)
        requires
            self.wf(),
        ensures
            r == self.cell(x as int, y as int),
    {
        if x >= self.width as usize || y >= self.height as usize {
            return false;
        }
        let (chunk_index, bit_x) = self.get_chunk_index(x, y);
        (self.current_generation[chunk_index] >> (bit_x as u64)) & 1 == 1
    }

    /// Writes one cell of the current buffer; out of range is a no-op.
    pub fn set_cell(&mut self, x: usize, y: usize, alive: bool)
        requires
            old(self).wf(),
        ensures
            final(self).wf(),
            final(self).same_shape(*old(self)),
            final(self).generation_count == old(self).generation_count,
            final(self).next_generation@ == old(self).next_generation@,
            cells_updated(*old(self), *final(self), x as int, y as int, alive),
    {
        if x >= self.width as usize || y >= self.height as usize {
            return;
        }
        let (chunk_index, bit_x) = self.get_chunk_index(x, y);
        let chunk = self.current_generation[chunk_index];
        let updated: u64 = if alive {
            chunk | (1u64 << (bit_x as u64))
        } else {
            chunk & !(1u64 << (bit_x as u64))
        };
        self.current_generation[chunk_index] = updated;
        proof {
            let pre = *old(self);
            let post = *self;
            let w = pre.width as int;
            let h = pre.height as int;
            let wc = pre.width_chunks as int;
            assert forall|i: int, j: int|
                #[trigger] post.cell(i, j) == cell_after(pre, x as int, y as int, alive, i, j) by {
                if 0 <= i < w && 0 <= j < h {
                    lemma_chunk_index(i, j, w, h, wc);
                    lemma_chunk_index(x as int, y as int, w, h, wc);
                    let ci = j * wc + i / 64;
                    let c = (i % 64) as u64;
                    let b = (x as int % 64) as u64;
                    if ci == chunk_index as int {
                        if alive {
                            lemma_bit_or(chunk, b, c);
                        } else {
                            lemma_bit_clear(chunk, b, c);
                        }
                        if c == b && !(i == x as int && j == y as int) {
                            lemma_cell_index_injective(i, j, x as int, y as int, w, h, wc);
                            assert(false);
                        }
                    }
                }
            }
        }
    }

    /// Counts the live neighbors of an in-range cell, unrolled over the
    /// 8-neighborhood with edge guards.
    pub fn count_neighbors_optimized(&self, x: usize, y: usize) -> (r: u8)
        requires
            self.wf(),
            x < self.width,
            y < self.height,
        ensures
            r as int == live_neighbors(*self, x as int, y as int),
            r <= 8,
    {
        let mut count: u8 = 0;
        let width = self.width as usize;
        let height = self.height as usize;
        if y > 0 {
            if x > 0 && self.get_cell(x - 1, y - 1) {
                count = count + 1;
            }
            if self.get_cell(x, y - 1) {
                count = count + 1;
            }
            if x < width - 1 && self.get_cell(x + 1, y - 1) {
                count = count + 1;
            }
        }
        if x > 0 && self.get_cell(x - 1, y) {
            count = count + 1;
        }
        if x < width - 1 && self.get_cell(x + 1, y) {
            count = count + 1;
        }
        if y < height - 1 {
            if x > 0 && self.get_cell(x - 1, y + 1) {
                count = count + 1;
            }
            if self.get_cell(x, y + 1) {
                count = count + 1;
            }
            if x < width - 1 && self.get_cell(x + 1, y + 1) {
                count = count + 1;
            }
        }
        count
    }

    /// Computes the next generation sequentially, swaps the buffers and
    /// advances the generation counter.
    pub fn step_fallback(&mut self)
        requires
            old(self).wf(),
            old(self).generation_count < u64::MAX,
        ensures
            stepped(*old(self), *final(self)),
            final(self).next_generation@ == old(self).current_generation@,
    {
        let n = self.next_generation.len();
        self.next_generation = zero_chunks(n);
        proof {
            assert forall|i: int, j: int| !(#[trigger] self.next_cell(i, j)) by {
                if 0 <= i < self.width && 0 <= j < self.height {
                    lemma_chunk_index(i, j, self.width as int, self.height as int,
                        self.width_chunks as int);
                    lemma_bit_zero((i % 64) as u64);
                }
            }
        }
        let height = self.height as usize;
        let width = self.width as usize;
        let mut y: usize = 0;
        while y < height
            invariant
                self.wf(),
                self.same_shape(*old(self)),
                width == self.width,
                height == self.height,
                self.current_generation@ == old(self).current_generation@,
                self.generation_count == old(self).generation_count,
                y <= height,
                forall|i: int, j: int| #[trigger] self.next_cell(i, j) ==> 0 <= j < y as int,
                forall|i: int, j: int|
                    0 <= j < y as int ==> #[trigger] self.next_cell(i, j) == next_state(
                        *old(self), i, j),
            decreases height - y,
        {
            let mut x: usize = 0;
            while x < width
                invariant
                    self.wf(),
                    self.same_shape(*old(self)),
                    width == self.width,
                    height == self.height,
                    y < height,
                    x <= width,
                    self.current_generation@ == old(self).current_generation@,
                    self.generation_count == old(self).generation_count,
                    forall|i: int, j: int|
                        #[trigger] self.next_cell(i, j) ==> (0 <= j < y as int || (j == y as int
                            && 0 <= i < x as int)),
                    forall|i: int, j: int|
                        0 <= j < y as int ==> #[trigger] self.next_cell(i, j) == next_state(
                            *old(self), i, j),
                    forall|i: int|
                        0 <= i < x as int ==> #[trigger] self.next_cell(i, y as int) == next_state(
                            *old(self), i, y as int),
                decreases width - x,
            {
                let neighbors = self.count_neighbors_optimized(x, y);
                let current_alive = self.get_cell(x, y);
                let next_alive: bool = if neighbors == 3 {
                    true
                } else if neighbors == 2 {
                    current_alive
                } else {
                    false
                };
                proof {
                    lemma_state_congruence(*self, *old(self));
                    assert(next_alive == next_state(*old(self), x as int, y as int));
                }
                if next_alive {
                    self.set_next_cell(x, y, true);
                }
                x = x + 1;
            }
            y = y + 1;
        }
        let ghost pre_swap = *self;
        core::mem::swap(&mut self.current_generation, &mut self.next_generation);
        self.generation_count = self.generation_count + 1;
        proof {
            assert forall|i: int, j: int|
                #[trigger] self.cell(i, j) == next_state(*old(self), i, j) by {
                assert(self.cell(i, j) == pre_swap.next_cell(i, j));
            }
        }
    }

    /// Advances the grid by one generation.
    pub fn step(&mut self)
        requires
            old(self).wf(),
            old(self).generation_count < u64::MAX,
        ensures
            stepped(*old(self), *final(self)),
    {
        self.step_fallback();
    }

    /// Clears the grid and lights the glider pattern in the top-left corner
    /// (clipped on a grid too small to hold it); generation resets to 0.
    pub fn initialize_glider(&mut self)
        requires
            old(self).wf(),
        ensures
            final(self).wf(),
            final(self).same_shape(*old(self)),
            final(self).generation_count == 0,
            final(self).next_generation@ == old(self).next_generation@,
            forall|i: int, j: int|
                #[trigger] final(self).cell(i, j) == (glider_lit(i, j) && i < old(self).width && j
                    < old(self).height),
    {
        self.clear();
        self.set_cell(1, 0, true);
        self.set_cell(2, 1, true);
        self.set_cell(0, 2, true);
        self.set_cell(1, 2, true);
        self.set_cell(2, 2, true);
    }

    /// Clears the grid and lights a horizontal blinker in the center, when
    /// the grid is large enough for one; generation resets to 0.
    pub fn initialize_blinker(&mut self)
        requires
            old(self).wf(),
        ensures
            final(self).wf(),
            final(self).same_shape(*old(self)),
            final(self).generation_count == 0,
            final(self).next_generation@ == old(self).next_generation@,
            forall|i: int, j: int|
                #[trigger] final(self).cell(i, j) == blinker_lit(old(self).width as int,
                    old(self).height as int, i, j),
    {
        self.clear();
        let center_x = self.width / 2;
        let center_y = self.height / 2;
        if center_x > 0 && center_y > 0 && center_x < self.width - 1 {
            self.set_cell((center_x - 1) as usize, center_y as usize, true);
            self.set_cell(center_x as usize, center_y as usize, true);
            self.set_cell((center_x + 1) as usize, center_y as usize, true);
        }
    }

    /// Counts the live cells of the whole grid.
    pub fn population_count(&self) -> (r: u32)
        requires
            self.wf(),
        ensures
            r as int == population(*self),
    {
        let width = self.width as usize;
        let height = self.height as usize;
        proof {
            lemma_rows_population_bounds(*self, self.height as int);
            lemma_mul_upper_bound(self.height as int, 0xffff, self.width as int, 0xffff);
        }
        let mut count: u32 = 0;
        let mut y: usize = 0;
        while y < height
            invariant
                self.wf(),
                width == self.width,
                height == self.height,
                y <= height,
                count as int == rows_population(*self, y as int),
            decreases height - y,
        {
            let mut x: usize = 0;
            while x < width
                invariant
                    self.wf(),
                    width == self.width,
                    height == self.height,
                    y < height,
                    x <= width,
                    count as int == rows_population(*self, y as int) + row_population(*self,
                        y as int, x as int),
                decreases width - x,
            {
                proof {
                    lemma_rows_population_bounds(*self, y as int);
                    lemma_row_population_bounds(*self, y as int, x as int);
                    lemma_mul_upper_bound(y as int, 0xffff, self.width as int, 0xffff);
                    lemma_mul_inequality(y as int, self.height as int, self.width as int);
                }
                if self.get_cell(x, y) {
                    count = count + 1;
                }
                x = x + 1;
            }
            y = y + 1;
        }
        count
    }

    /// Renders the grid row-major, 3 bytes per cell: every dead cell as the
    /// fixed all-255 white, every live cell in a random accent color whose
    /// components all stay below 255.
    pub fn to_rgb_data(&self) -> (r: Vec<u8>)
        requires
            self.wf(),
            self.width as int * self.height as int * 3 <= usize::MAX,
        ensures
            r@.len() == self.width as int * self.height as int * 3,
            forall|x: int, y: int|
                0 <= x < self.width && 0 <= y < self.height ==> #[trigger] pixel_rendered(
                    r@, self.width as int, x, y, self.cell(x, y)),
    {
        let width = self.width as usize;
        let height = self.height as usize;
        let mut frame: Vec<u8> = Vec::new();
        let mut y: usize = 0;
        while y < height
            invariant
                self.wf(),
                width == self.width,
                height == self.height,
                self.width as int * self.height as int * 3 <= usize::MAX,
                y <= height,
                frame@.len() == 3 * ((y as int) * (width as int)),
                forall|i: int, j: int|
                    0 <= i < width && 0 <= j < y as int ==> #[trigger] pixel_rendered(
                        frame@, width as int, i, j, self.cell(i, j)),
            decreases height - y,
        {
            let mut x: usize = 0;
            while x < width
                invariant
                    self.wf(),
                    width == self.width,
                    height == self.height,
                    self.width as int * self.height as int * 3 <= usize::MAX,
                    y < height,
                    x <= width,
                    frame@.len() == 3 * ((y as int) * (width as int)) + 3 * (x as int),
                    forall|i: int, j: int|
                        0 <= i < width && 0 <= j < y as int ==> #[trigger] pixel_rendered(
                            frame@, width as int, i, j, self.cell(i, j)),
                    forall|i: int|
                        0 <= i < x as int ==> #[trigger] pixel_rendered(frame@, width as int, i,
                            y as int, self.cell(i, y as int)),
                decreases width - x,
            {
                let ghost before = frame@;
                if self.get_cell(x, y) {
                    let c = crate::color::create_random_rgb();
                    frame.push(c.r);
                    frame.push(c.g);
                    frame.push(c.b);
                } else {
                    frame.push(255);
                    frame.push(255);
                    frame.push(255);
                }
                proof {
                    assert forall|i: int, j: int|
                        0 <= i < width && (0 <= j < y as int || (j == y as int && 0 <= i
                            <= x as int)) implies #[trigger] pixel_rendered(frame@, width as int,
                        i, j, self.cell(i, j)) by {
                        lemma_mul_nonnegative(j, width as int);
                        if !(j == y as int && i == x as int) {
                            if j < y as int {
                                lemma_mul_inequality(j + 1, y as int, width as int);
                                lemma_mul_is_distributive_add_other_way(width as int, j, 1);
                            }
                            assert(3 * (j * (width as int) + i) + 2 < before.len());
                            assert(pixel_rendered(before, width as int, i, j, self.cell(i, j)));
                        }
                    }
                }
                x = x + 1;
            }
            proof {
                lemma_mul_is_distributive_add_other_way(width as int, y as int, 1);
            }
            y = y + 1;
        }
        proof {
            lemma_mul_is_commutative(height as int, width as int);
        }
        frame
    }

    /// Clears every cell and resets the generation counter.
    pub fn clear(&mut self)
        requires
            old(self).wf(),
        ensures
            final(self).wf(),
            final(self).same_shape(*old(self)),
            final(self).generation_count == 0,
            final(self).next_generation@ == old(self).next_generation@,
            forall|i: int, j: int| !(#[trigger] final(self).cell(i, j)),
    {
        let n = self.current_generation.len();
        self.current_generation = zero_chunks(n);
        self.generation_count = 0;
        proof {
            assert forall|i: int, j: int| !(#[trigger] self.cell(i, j)) by {
                if 0 <= i < self.width && 0 <= j < self.height {
                    lemma_chunk_index(i, j, self.width as int, self.height as int,
                        self.width_chunks as int);
                    lemma_bit_zero((i % 64) as u64);
                }
            }
        }
    }

    /// Clears the grid, leaves the old state in the scratch buffer, and
    /// resets the generation counter; the population is 0 afterwards.
    pub fn kill_all_cells(&mut self)
        requires
            old(self).wf(),
        ensures
            final(self).wf(),
            final(self).same_shape(*old(self)),
            final(self).generation_count == 0,
            final(self).next_generation@ == old(self).current_generation@,
            forall|i: int, j: int| !(#[trigger] final(self).cell(i, j)),
    {
        let n = self.next_generation.len();
        self.next_generation = zero_chunks(n);
        core::mem::swap(&mut self.current_generation, &mut self.next_generation);
        self.generation_count = 0;
        proof {
            assert forall|i: int, j: int| !(#[trigger] self.cell(i, j)) by {
                if 0 <= i < self.width && 0 <= j < self.height {
                    lemma_chunk_index(i, j, self.width as int, self.height as int,
                        self.width_chunks as int);
                    lemma_bit_zero((i % 64) as u64);
                }
            }
        }
    }

    /// Flips every in-range cell.
    pub fn invert(&mut self)
        requires
            old(self).wf(),
        ensures
            final(self).wf(),
            final(self).same_shape(*old(self)),
            final(self).generation_count == old(self).generation_count,
            final(self).next_generation@ == old(self).next_generation@,
            forall|i: int, j: int|
                0 <= i < old(self).width && 0 <= j < old(self).height ==> (#[trigger] final(
                self).cell(i, j) == !old(self).cell(i, j)),
    {
        let height = self.height as usize;
        let width = self.width as usize;
        let mut y: usize = 0;
        while y < height
            invariant
                self.wf(),
                self.same_shape(*old(self)),
                width == self.width,
                height == self.height,
                self.generation_count == old(self).generation_count,
                self.next_generation@ == old(self).next_generation@,
                y <= height,
                forall|i: int, j: int|
                    0 <= i < width && 0 <= j < y as int ==> (#[trigger] self.cell(i, j)
                        == !old(self).cell(i, j)),
                forall|i: int, j: int|
                    0 <= i < width && y as int <= j < height ==> (#[trigger] self.cell(i, j)
                        == old(self).cell(i, j)),
            decreases height - y,
        {
            let mut x: usize = 0;
            while x < width
                invariant
                    self.wf(),
                    self.same_shape(*old(self)),
                    width == self.width,
                    height == self.height,
                    y < height,
                    x <= width,
                    self.generation_count == old(self).generation_count,
                    self.next_generation@ == old(self).next_generation@,
                    forall|i: int, j: int|
                        0 <= i < width && 0 <= j < y as int ==> (#[trigger] self.cell(i, j)
                            == !old(self).cell(i, j)),
                    forall|i: int|
                        0 <= i < x as int ==> (#[trigger] self.cell(i, y as int) == !old(
                        self).cell(i, y as int)),
                    forall|i: int|
                        x as int <= i < width ==> (#[trigger] self.cell(i, y as int) == old(
                        self).cell(i, y as int)),
                    forall|i: int, j: int|
                        0 <= i < width && (y as int) < j < height ==> (#[trigger] self.cell(i, j)
                            == old(self).cell(i, j)),
                decreases width - x,
            {
                let was = self.get_cell(x, y);
                self.set_cell(x, y, !was);
                x = x + 1;
            }
            y = y + 1;
        }
    }

    /// Turns one uniformly chosen cell alive and reports its coordinates,
    /// which always lie within the grid.
    pub fn awaken_random_cell(&mut self) -> (p: (u16, u16))
        requires
            old(self).wf(),
            old(self).width > 0,
            old(self).height > 0,
        ensures
            final(self).wf(),
            final(self).same_shape(*old(self)),
            final(self).generation_count == old(self).generation_count,
            final(self).next_generation@ == old(self).next_generation@,
            p.0 < old(self).width,
            p.1 < old(self).height,
            cells_updated(*old(self), *final(self), p.0 as int, p.1 as int, true),
            final(self).cell(p.0 as int, p.1 as int),
    {
        let x = crate::rng::random_u16_below(self.width);
        let y = crate::rng::random_u16_below(self.height);
        self.set_cell(x as usize, y as usize, true);
        (x, y)
    }

    /// Turns one uniformly chosen cell dead and reports its coordinates,
    /// which always lie within the grid.
    pub fn kill_random_cell(&mut self) -> (p: (u16, u16))
        requires
            old(self).wf(),
            old(self).width > 0,
            old(self).height > 0,
        ensures
            final(self).wf(),
            final(self).same_shape(*old(self)),
            final(self).generation_count == old(self).generation_count,
            final(self).next_generation@ == old(self).next_generation@,
            p.0 < old(self).width,
            p.1 < old(self).height,
            cells_updated(*old(self), *final(self), p.0 as int, p.1 as int, false),
            !final(self).cell(p.0 as int, p.1 as int),
    {
        let x = crate::rng::random_u16_below(self.width);
        let y = crate::rng::random_u16_below(self.height);
        self.set_cell(x as usize, y as usize, false);
        (x, y)
    }

    /// Turns the named in-range cell alive.
    pub fn awaken_cell_in(&mut self, x: u16, y: u16) -> (p: (u16, u16))
        requires
            old(self).wf(),
            x < old(self).width,
            y < old(self).height,
        ensures
            final(self).wf(),
            final(self).same_shape(*old(self)),
            final(self).generation_count == old(self).generation_count,
            final(self).next_generation@ == old(self).next_generation@,
            cells_updated(*old(self), *final(self), x as int, y as int, true),
            final(self).cell(x as int, y as int),
            p == (x, y),
    {
        self.set_cell(x as usize, y as usize, true);
        (x, y)
    }

    /// Computes the next generation of rows `start_y..end_y` against the
    /// frozen current buffer, into a fresh block of words. Bits beyond the
    /// width stay clear, so blocks can be concatenated in row order.
    pub fn step_rows(&self, start_y: usize, end_y: usize) -> (out: Vec<u64>)
        requires
            self.wf(),
            start_y <= end_y <= self.height,
        ensures
            out@.len() == self.width_chunks * (end_y - start_y),
            forall|i: int, lj: int|
                0 <= i < (self.width_chunks as int) * 64 && 0 <= lj < end_y - start_y
                    ==> #[trigger] block_bit(out@, self.width_chunks as int, i, lj) == next_state(
                    *self, i, start_y + lj),
    {
        let wc = self.width_chunks;
        let nrows = end_y - start_y;
        let n = self.current_generation.len();
        proof {
            lemma_mul_nonnegative(wc as int, nrows as int);
            lemma_mul_inequality(nrows as int, self.height as int, wc as int);
            lemma_mul_is_commutative(nrows as int, wc as int);
            lemma_mul_is_commutative(self.height as int, wc as int);
            assert(wc * nrows <= n);
            lemma_width_le_chunk_bits(self.width as int);
        }
        let total = wc * nrows;
        let mut out = zero_chunks(total);
        proof {
            assert forall|i: int, lj: int|
                0 <= i < (wc as int) * 64 && 0 <= lj < nrows as int implies !block_bit(
                out@, wc as int, i, lj) by {
                lemma_block_index(i, lj, wc as int, nrows as int);
                lemma_bit_zero((i % 64) as u64);
            }
        }
        let width = self.width as usize;
        let mut ly: usize = 0;
        while ly < nrows
            invariant
                self.wf(),
                wc == self.width_chunks,
                width == self.width,
                nrows == end_y - start_y,
                start_y <= end_y <= self.height,
                ly <= nrows,
                wc * nrows <= usize::MAX,
                out@.len() == wc * nrows,
                self.width <= (wc as int) * 64,
                forall|i: int, lj: int|
                    0 <= i < (wc as int) * 64 && 0 <= lj < nrows as int && #[trigger] block_bit(
                        out@, wc as int, i, lj) ==> lj < ly as int,
                forall|i: int, lj: int|
                    0 <= i < (wc as int) * 64 && 0 <= lj < ly as int ==> #[trigger] block_bit(
                        out@, wc as int, i, lj) == next_state(*self, i, start_y + lj),
            decreases nrows - ly,
        {
            let mut x: usize = 0;
            while x < width
                invariant
                    self.wf(),
                    wc == self.width_chunks,
                    width == self.width,
                    nrows == end_y - start_y,
                    start_y <= end_y <= self.height,
                    ly < nrows,
                    x <= width,
                    wc * nrows <= usize::MAX,
                    out@.len() == wc * nrows,
                    self.width <= (wc as int) * 64,
                    forall|i: int, lj: int|
                        0 <= i < (wc as int) * 64 && 0 <= lj < nrows as int && #[trigger] block_bit(
                            out@, wc as int, i, lj) ==> (lj < ly as int || (lj == ly as int && i
                            < x as int)),
                    forall|i: int, lj: int|
                        0 <= i < (wc as int) * 64 && 0 <= lj < ly as int ==> #[trigger] block_bit(
                            out@, wc as int, i, lj) == next_state(*self, i, start_y + lj),
                    forall|i: int|
                        0 <= i < x as int ==> #[trigger] block_bit(out@, wc as int, i, ly as int)
                            == next_state(*self, i, start_y + ly as int),
                decreases width - x,
            {
                let y = start_y + ly;
                let neighbors = self.count_neighbors_optimized(x, y);
                let current_alive = self.get_cell(x, y);
                let next_alive: bool = if neighbors == 3 {
                    true
                } else if neighbors == 2 {
                    current_alive
                } else {
                    false
                };
                proof {
                    assert(next_alive == next_state(*self, x as int, y as int));
                }
                if next_alive {
                    proof {
                        lemma_block_index(x as int, ly as int, wc as int, nrows as int);
                    }
                    let idx = ly * wc + x / BIT_LENGTH;
                    let b = (x % BIT_LENGTH) as u64;
                    let ghost prev = out@;
                    set_block_bit(&mut out, idx, b);
                    proof {
                        assert forall|i: int, lj: int|
                            0 <= i < (wc as int) * 64 && 0 <= lj < nrows as int implies #[trigger]
                            block_bit(out@, wc as int, i, lj) == (block_bit(prev, wc as int, i, lj)
                            || (i == x as int && lj == ly as int)) by {
                            lemma_block_index(i, lj, wc as int, nrows as int);
                            let k = lj * (wc as int) + i / 64;
                            let c = (i % 64) as u64;
                            if k == idx as int {
                                if c == b && !(i == x as int && lj == ly as int) {
                                    lemma_block_index_injective(i, lj, x as int, ly as int,
                                        wc as int, nrows as int);
                                    assert(false);
                                }
                            }
                        }
                    }
                }
                x = x + 1;
            }
            ly = ly + 1;
        }
        out
    }

    /// Computes the next generation by partitioning the rows into
    /// `workers` contiguous blocks, each computed independently against the
    /// frozen current buffer by `step_rows`, merged back in row order; then
    /// swaps the buffers and advances the counter. The contract is the same
    /// as `step`'s, so any block count yields bit-identical results.
    pub fn step_parallel(&mut self, workers: usize)
        requires
            old(self).wf(),
            workers >= 1,
            old(self).generation_count < u64::MAX,
        ensures
            stepped(*old(self), *final(self)),
    {
        let height = self.height as usize;
        let base = height / workers;
        let rows_per = if height % workers == 0 {
            base
        } else {
            base + 1
        };
        proof {
            if height > 0 && height as int % (workers as int) == 0 {
                lemma_fundamental_div_mod(height as int, workers as int);
                if height as int / (workers as int) == 0 {
                    assert((workers as int) * (height as int / (workers as int)) == 0) by (nonlinear_arith)
                        requires height as int / (workers as int) == 0;
                    assert(height == 0);
                }
            }
        }
        let wc = self.width_chunks;
        let mut next: Vec<u64> = Vec::new();
        let mut y0: usize = 0;
        while y0 < height
            invariant
                *self == *old(self),
                self.wf(),
                height == self.height,
                wc == self.width_chunks,
                y0 <= height,
                y0 < height ==> rows_per >= 1,
                next@.len() == wc * y0,
                forall|i: int, j: int|
                    0 <= i < (wc as int) * 64 && 0 <= j < y0 as int ==> #[trigger] block_bit(
                        next@, wc as int, i, j) == next_state(*self, i, j),
            decreases height - y0,
        {
            let y1 = if rows_per < height - y0 {
                y0 + rows_per
            } else {
                height
            };
            let ghost prev = next@;
            let mut block = self.step_rows(y0, y1);
            let ghost blockv = block@;
            next.append(&mut block);
            proof {
                lemma_mul_is_distributive_sub(wc as int, y1 as int, y0 as int);
                lemma_mul_is_commutative(wc as int, y1 as int);
                lemma_mul_is_commutative(wc as int, y0 as int);
                assert(next@.len() == wc * y1 as int);
                assert forall|i: int, j: int|
                    0 <= i < (wc as int) * 64 && 0 <= j < y1 as int implies #[trigger] block_bit(
                    next@, wc as int, i, j) == next_state(*self, i, j) by {
                    let k = j * (wc as int) + i / 64;
                    if j < y0 as int {
                        lemma_block_index(i, j, wc as int, y0 as int);
                        assert(next@[k] == prev[k]);
                        assert(block_bit(next@, wc as int, i, j) == block_bit(prev, wc as int, i,
                            j));
                    } else {
                        let lj = j - y0 as int;
                        lemma_block_index(i, lj, wc as int, y1 - y0 as int);
                        lemma_mul_is_distributive_sub(wc as int, j, y0 as int);
                        lemma_mul_is_commutative(wc as int, j);
                        lemma_mul_is_commutative(wc as int, y0 as int);
                        assert(k - prev.len() == lj * (wc as int) + i / 64);
                        assert(0 <= lj * (wc as int) + i / 64 < blockv.len());
                        assert(next@[k] == blockv[lj * (wc as int) + i / 64]);
                        assert(block_bit(next@, wc as int, i, j) == block_bit(blockv, wc as int,
                            i, lj));
                    }
                }
            }
            y0 = y1;
        }
        proof {
            lemma_width_le_chunk_bits(self.width as int);
        }
        self.next_generation = next;
        let ghost pre_swap = *self;
        core::mem::swap(&mut self.current_generation, &mut self.next_generation);
        self.generation_count = self.generation_count + 1;
        proof {
            assert forall|i: int, j: int|
                #[trigger] self.cell(i, j) == next_state(*old(self), i, j) by {
                assert(self.cell(i, j) == pre_swap.next_cell(i, j));
                lemma_state_congruence(pre_swap, *old(self));
            }
        }
    }

    /// Marks one cell alive in the scratch buffer; only sets, never clears,
    /// and out of range is a no-op.
    pub fn set_next_cell(&mut self, x: usize, y: usize, alive: bool)
        requires
            old(self).wf(),
        ensures
            final(self).wf(),
            final(self).same_shape(*old(self)),
            final(self).generation_count == old(self).generation_count,
            final(self).current_generation@ == old(self).current_generation@,
            forall|i: int, j: int|
                #[trigger] final(self).next_cell(i, j) == next_cell_after(*old(self), x as int,
                    y as int, alive, i, j),
    {
        if x >= self.width as usize || y >= self.height as usize {
            return;
        }
        if !alive {
            return;
        }
        let (chunk_index, bit_x) = self.get_chunk_index(x, y);
        proof {
            assert(self.next_generation@.len() == self.current_generation@.len());
        }
        let chunk = self.next_generation[chunk_index];
        let updated: u64 = chunk | (1u64 << (bit_x as u64));
        self.next_generation[chunk_index] = updated;
        proof {
            let pre = *old(self);
            let post = *self;
            let w = pre.width as int;
            let h = pre.height as int;
            let wc = pre.width_chunks as int;
            assert forall|i: int, j: int|
                #[trigger] post.next_cell(i, j) == next_cell_after(pre, x as int, y as int, alive,
                    i, j) by {
                if 0 <= i < w && 0 <= j < h {
                    lemma_chunk_index(i, j, w, h, wc);
                    lemma_chunk_index(x as int, y as int, w, h, wc);
                    let ci = j * wc + i / 64;
                    let c = (i % 64) as u64;
                    let b = (x as int % 64) as u64;
                    if ci == chunk_index as int {
                        lemma_bit_or(chunk, b, c);
                        if c == b && !(i == x as int && j == y as int) {
                            lemma_cell_index_injective(i, j, x as int, y as int, w, h, wc);
                            assert(false);
                        }
                    }
                }
            }
        }
    }
}

} // verus!
