//! The grid on which painter tiles are laid out.
//!
//! Painters take their places in a fixed order that keeps the occupied cells
//! as square as possible: the first `k * k` slots fill the `k` by `k` square,
//! and the next ring is filled column first, then row.

use vstd::prelude::*;

verus! {

/// Side of one painter tile, in pixels.
pub const BUFFER_PIXELS: usize = 40;

/// The most painters the canvas holds.
pub const MAX_CLIENTS: usize = 64;

/// Where the painter in each slot stands, as (column, row), slot 1 first.
pub const GRID_POSITION: [(usize, usize); 64] = [
    //  1       2       3       4       5       6       7       8
    (0, 0), (1, 0), (0, 1), (1, 1), (2, 0), (2, 1), (0, 2), (1, 2),
    //  9      10      11      12      13      14      15      16
    (2, 2), (3, 0), (3, 1), (3, 2), (0, 3), (1, 3), (2, 3), (3, 3),
    // 17      18      19      20      21      22      23      24
    (4, 0), (4, 1), (4, 2), (4, 3), (0, 4), (1, 4), (2, 4), (3, 4),
    // 25      26      27      28      29      30      31      32
    (4, 4), (5, 0), (5, 1), (5, 2), (5, 3), (5, 4), (0, 5), (1, 5),
    // 33      34      35      36      37      38      39      40
    (2, 5), (3, 5), (4, 5), (5, 5), (6, 0), (6, 1), (6, 2), (6, 3),
    // 41      42      43      44      45      46      47      48
    (6, 4), (6, 5), (0, 6), (1, 6), (2, 6), (3, 6), (4, 6), (5, 6),
    // 49      50      51      52      53      54      55      56
    (6, 6), (7, 0), (7, 1), (7, 2), (7, 3), (7, 4), (7, 5), (7, 6),
    // 57      58      59      60      61      62      63      64
    (0, 7), (1, 7), (2, 7), (3, 7), (4, 7), (5, 7), (6, 7), (7, 7),
];

/// Whether `slot` names a place on the grid. Slots count from 1.
pub open spec fn valid_slot(slot: int) -> bool {
    1 <= slot <= 64
}

/// The column of a valid slot.
pub open spec fn slot_column(slot: int) -> int
    recommends
        valid_slot(slot),
{
    GRID_POSITION@[slot - 1].0 as int
}

/// The row of a valid slot.
pub open spec fn slot_row(slot: int) -> int
    recommends
        valid_slot(slot),
{
    GRID_POSITION@[slot - 1].1 as int
}

/// The cell of the `j`-th slot of ring `ring`, both counted from 0. Ring `k`
/// holds the cells whose larger coordinate is `k`; it is filled down its
/// column first and then along its row.
pub open spec fn ring_cell(ring: int, j: int) -> (int, int) {
    if j < ring {
        (ring, j)
    } else {
        (j - ring, ring)
    }
}

/// The slot that stands in a cell: the inverse of the table.
pub open spec fn slot_at(column: int, row: int) -> int {
    if row < column {
        column * column + row + 1
    } else {
        row * row + row + column + 1
    }
}

/// The least `k` with `k * k >= n`.
pub open spec fn ceil_sqrt(n: nat) -> nat
    decreases n,
{
    if n == 0 {
        0
    } else {
        let below = ceil_sqrt((n - 1) as nat);
        if below * below >= n {
            below
        } else {
            below + 1
        }
    }
}

/// The grid position of slot `i`, or `None` where `i` is no slot.
pub fn coordinate_of(i: usize) -> (r: Option<(usize, usize)>)
    ensures
        r is Some <==> valid_slot(i as int),
        r matches Some(cell) ==> cell.0 == slot_column(i as int) && cell.1 == slot_row(i as int)
            && cell.0 < 8 && cell.1 < 8,
{
    if i > 0 && i <= 64 {
        let cell = GRID_POSITION[i - 1];
        proof {
            lemma_slot_at_inverts(i as int);
        }
        Some(cell)
    } else {
        None
    }
}

/// `ceil_sqrt(n)` is the ceiling of the square root of `n`: its square
/// reaches `n`, and the square of the number before it does not.
pub proof fn lemma_ceil_sqrt(n: nat)
    ensures
        ceil_sqrt(n) * ceil_sqrt(n) >= n,
        n > 0 ==> ceil_sqrt(n) >= 1 && (ceil_sqrt(n) - 1) * (ceil_sqrt(n) - 1) < n,
        n == 0 ==> ceil_sqrt(n) == 0,
    decreases n,
{
    if n > 0 {
        let below = ceil_sqrt((n - 1) as nat);
        lemma_ceil_sqrt((n - 1) as nat);
        if below * below < n {
            assert(below * below == n - 1);
            assert((below + 1) * (below + 1) >= n) by (nonlinear_arith)
                requires
                    below * below == n - 1,
            ;
        } else {
            if n > 1 {
                assert((below - 1) * (below - 1) < n);
            } else {
                assert(below >= 1) by (nonlinear_arith)
                    requires
                        below * below >= 1,
                ;
                assert(below == 0 || below == 1);
            }
        }
    }
}

/// Only one number lies between the two bounds of `lemma_ceil_sqrt`.
pub proof fn lemma_ceil_sqrt_unique(n: nat, k: nat)
    requires
        k * k >= n,
        k == 0 || (k - 1) * (k - 1) < n,
    ensures
        k == ceil_sqrt(n),
{
    let c = ceil_sqrt(n);
    lemma_ceil_sqrt(n);
    if k < c {
        assert(k * k <= (c - 1) * (c - 1)) by (nonlinear_arith)
            requires
                0 <= k <= c - 1,
        ;
    } else if c < k {
        assert(c * c <= (k - 1) * (k - 1)) by (nonlinear_arith)
            requires
                0 <= c <= k - 1,
        ;
    }
}

/// The ceiling of the square root never decreases as `n` grows.
pub proof fn lemma_ceil_sqrt_monotonic(m: nat, n: nat)
    requires
        m <= n,
    ensures
        ceil_sqrt(m) <= ceil_sqrt(n),
    decreases n - m,
{
    if m < n {
        lemma_ceil_sqrt_monotonic(m, (n - 1) as nat);
    }
}

/// Up to 64 painters fit on a grid of at most 8 by 8 cells.
pub proof fn lemma_ceil_sqrt_small(n: nat)
    requires
        n <= 64,
    ensures
        ceil_sqrt(n) <= 8,
{
    lemma_ceil_sqrt(n);
    let c = ceil_sqrt(n);
    if c > 8 {
        assert((c - 1) * (c - 1) >= 64) by (nonlinear_arith)
            requires
                c - 1 >= 8,
        ;
    }
}

/// Whether the table and `slot_at` agree on `slot`.
spec fn slot_checked(slot: int) -> bool {
    &&& 0 <= slot_column(slot) < 8
    &&& 0 <= slot_row(slot) < 8
    &&& slot_at(slot_column(slot), slot_row(slot)) == slot
}

/// Whether they agree on every slot from 1 to `upto`.
spec fn slots_checked(upto: int) -> bool
    decreases upto,
{
    if upto <= 0 {
        true
    } else {
        slot_checked(upto) && slots_checked(upto - 1)
    }
}

proof fn lemma_slots_checked(slot: int, upto: int)
    requires
        slots_checked(upto),
        1 <= slot <= upto,
    ensures
        slot_checked(slot),
    decreases upto,
{
    if slot < upto {
        lemma_slots_checked(slot, upto - 1);
    }
}

/// The table inverts `slot_at`: every slot stands in a cell of the 8 by 8
/// grid, and `slot_at` finds the slot again from its cell.
pub proof fn lemma_slot_at_inverts(slot: int)
    requires
        valid_slot(slot),
    ensures
        0 <= slot_column(slot) < 8,
        0 <= slot_row(slot) < 8,
        slot_at(slot_column(slot), slot_row(slot)) == slot,
{
    assert(slots_checked(64)) by {
        reveal_with_fuel(slots_checked, 65);
    }
    lemma_slots_checked(slot, 64);
}

/// No two slots share a cell, so tiles never overlap.
pub proof fn lemma_slots_distinct(a: int, b: int)
    requires
        valid_slot(a),
        valid_slot(b),
        a != b,
    ensures
        slot_column(a) != slot_column(b) || slot_row(a) != slot_row(b),
{
    lemma_slot_at_inverts(a);
    lemma_slot_at_inverts(b);
}

/// The table follows the ring order: slot `ring * ring + j + 1` stands in
/// cell `ring_cell(ring, j)`.
pub proof fn lemma_ring_order(ring: int, j: int)
    requires
        0 <= ring < 8,
        0 <= j <= 2 * ring,
    ensures
        valid_slot(ring * ring + j + 1),
        (slot_column(ring * ring + j + 1), slot_row(ring * ring + j + 1)) == ring_cell(ring, j),
{
    let slot = ring * ring + j + 1;
    assert(1 <= slot <= 64) by (nonlinear_arith)
        requires
            0 <= ring < 8,
            0 <= j <= 2 * ring,
            slot == ring * ring + j + 1,
    ;
    lemma_slot_at_inverts(slot);
    let cell = ring_cell(ring, j);
    assert(slot_at(cell.0, cell.1) == slot) by (nonlinear_arith)
        requires
            0 <= ring < 8,
            0 <= j <= 2 * ring,
            slot == ring * ring + j + 1,
            cell == ring_cell(ring, j),
    ;
    lemma_slot_at_injective(slot_column(slot), slot_row(slot), cell.0, cell.1);
}

/// `slot_at` gives different cells of the grid different slots.
pub proof fn lemma_slot_at_injective(c1: int, r1: int, c2: int, r2: int)
    requires
        0 <= c1 < 8,
        0 <= r1 < 8,
        0 <= c2 < 8,
        0 <= r2 < 8,
        slot_at(c1, r1) == slot_at(c2, r2),
    ensures
        c1 == c2,
        r1 == r2,
{
    let m1 = if r1 < c1 { c1 } else { r1 };
    let m2 = if r2 < c2 { c2 } else { r2 };
    assert(m1 * m1 + 1 <= slot_at(c1, r1) <= m1 * m1 + 2 * m1 + 1);
    assert(m2 * m2 + 1 <= slot_at(c2, r2) <= m2 * m2 + 2 * m2 + 1);
    if m1 < m2 {
        assert(m1 * m1 + 2 * m1 + 1 <= m2 * m2) by (nonlinear_arith)
            requires
                0 <= m1 < m2,
        ;
    } else if m2 < m1 {
        assert(m2 * m2 + 2 * m2 + 1 <= m1 * m1) by (nonlinear_arith)
            requires
                0 <= m2 < m1,
        ;
    }
}

/// With `n` painters on the canvas, every one of them stands inside the
/// square of `ceil_sqrt(n)` by `ceil_sqrt(n)` cells.
pub proof fn lemma_slot_inside_square(slot: int, n: nat)
    requires
        1 <= slot <= n,
        n <= 64,
    ensures
        0 <= slot_column(slot) < ceil_sqrt(n),
        0 <= slot_row(slot) < ceil_sqrt(n),
{
    lemma_slot_at_inverts(slot);
    lemma_ceil_sqrt(n);
    let c = slot_column(slot);
    let r = slot_row(slot);
    let m = if r < c { c } else { r };
    let k = ceil_sqrt(n) as int;
    assert(m * m + 1 <= slot_at(c, r));
    if m >= k {
        assert(m * m >= k * k) by (nonlinear_arith)
            requires
                0 <= k <= m,
        ;
    }
}

} // verus!
