//! Images as runs of bytes, and how a tile is drawn on one.
//!
//! An image is square. Its pixels stand line after line, four bytes each; a
//! tile is an image of 40 by 40 pixels.

use vstd::prelude::*;
use vstd::arithmetic::div_mod::lemma_fundamental_div_mod;
use vstd::arithmetic::div_mod::lemma_fundamental_div_mod_converse;

use crate::grid::ceil_sqrt;
use crate::grid::lemma_ceil_sqrt_monotonic;
use crate::grid::lemma_slot_inside_square;
use crate::grid::lemma_slots_distinct;
use crate::grid::slot_column;
use crate::grid::slot_row;
use crate::grid::BUFFER_PIXELS;

verus! {

/// Bytes in one pixel.
pub const PIXEL_SIZE: usize = 4;

/// Bytes in one tile: 40 scanlines of 40 pixels.
pub const TILE_BYTES: usize = 6400;

/// Bytes of a square image `side` pixels wide.
pub open spec fn image_bytes(side: int) -> int {
    side * side * 4
}

/// An all-black, fully transparent run of `len` bytes.
pub open spec fn blank(len: int) -> Seq<u8> {
    Seq::new(len as nat, |k: int| 0u8)
}

/// Whether byte `k` of an image `side` pixels wide lies in the tile whose top
/// left pixel is `(x, y)`.
pub open spec fn in_tile(side: int, x: int, y: int, k: int) -> bool {
    let line = k / (side * 4);
    let offset = k % (side * 4);
    y <= line < y + 40 && x * 4 <= offset < x * 4 + 160
}

/// The byte of the tile at `(x, y)` that byte `k` of the image shows.
pub open spec fn tile_index(side: int, x: int, y: int, k: int) -> int {
    (k / (side * 4) - y) * 160 + (k % (side * 4) - x * 4)
}

/// The image after `tile` was copied to `(x, y)`: inside the tile's square
/// the tile's bytes, everywhere else the bytes that were there.
pub open spec fn blitted(pixels: Seq<u8>, side: int, x: int, y: int, tile: Seq<u8>) -> Seq<u8> {
    Seq::new(
        pixels.len(),
        |k: int|
            if in_tile(side, x, y, k) {
                tile[tile_index(side, x, y, k)]
            } else {
                pixels[k]
            },
    )
}

/// The image after the first `rows` scanlines of `tile`, and `cols` bytes of
/// the next one, were copied to `(x, y)`.
spec fn partly_blitted(
    pixels: Seq<u8>,
    side: int,
    x: int,
    y: int,
    tile: Seq<u8>,
    rows: int,
    cols: int,
) -> Seq<u8> {
    Seq::new(
        pixels.len(),
        |k: int|
            if in_tile(side, x, y, k) && (k / (side * 4) < y + rows || (k / (side * 4) == y + rows
                && k % (side * 4) < x * 4 + cols)) {
                tile[tile_index(side, x, y, k)]
            } else {
                pixels[k]
            },
    )
}

/// Copying one more byte of a tile moves `partly_blitted` one column on.
proof fn lemma_blit_step(
    pixels: Seq<u8>,
    side: int,
    x: int,
    y: int,
    tile: Seq<u8>,
    rows: int,
    cols: int,
    at: int,
)
    requires
        0 < side,
        0 <= x,
        x + 40 <= side,
        0 <= y,
        0 <= rows < 40,
        0 <= cols < 160,
        at == (y + rows) * (side * 4) + x * 4 + cols,
        0 <= at < pixels.len(),
    ensures
        partly_blitted(pixels, side, x, y, tile, rows, cols).update(
            at,
            tile[rows * 160 + cols],
        ) == partly_blitted(pixels, side, x, y, tile, rows, cols + 1),
{
    let w = side * 4;
    let before = partly_blitted(pixels, side, x, y, tile, rows, cols);
    let after = partly_blitted(pixels, side, x, y, tile, rows, cols + 1);
    lemma_fundamental_div_mod_converse(at, w, y + rows, x * 4 + cols);
    assert forall|k: int| 0 <= k < pixels.len() implies #[trigger] before.update(
        at,
        tile[rows * 160 + cols],
    )[k] == after[k] by {
        if k != at {
            lemma_fundamental_div_mod(k, w);
            if k / w == y + rows && k % w == x * 4 + cols {
                assert(k == w * (y + rows) + (x * 4 + cols));
                assert(w * (y + rows) == (y + rows) * w) by (nonlinear_arith);
            }
        }
    }
    assert(before.update(at, tile[rows * 160 + cols]) =~= after);
}

/// A finished scanline is the start of the next one.
proof fn lemma_blit_row(pixels: Seq<u8>, side: int, x: int, y: int, tile: Seq<u8>, rows: int)
    requires
        0 < side,
        0 <= x,
        x + 40 <= side,
    ensures
        partly_blitted(pixels, side, x, y, tile, rows, 160) == partly_blitted(
            pixels,
            side,
            x,
            y,
            tile,
            rows + 1,
            0,
        ),
{
    assert(partly_blitted(pixels, side, x, y, tile, rows, 160) =~= partly_blitted(
        pixels,
        side,
        x,
        y,
        tile,
        rows + 1,
        0,
    ));
}

/// Copies `source`, one scanline after the other, to `(x, y)` of the image
/// `pixels`, which is `side` pixels wide.
pub fn blit(pixels: &mut Vec<u8>, side: usize, x: usize, y: usize, source: &Vec<u8>)
    requires
        source.len() == TILE_BYTES,
        x + 40 <= side,
        (y + 40) * (side * 4) <= old(pixels).len(),
    ensures
        final(pixels)@ == blitted(old(pixels)@, side as int, x as int, y as int, source@),
{
    let copy_width = BUFFER_PIXELS * PIXEL_SIZE;
    assert(side * 4 <= (y + 40) * (side * 4)) by (nonlinear_arith);
    let buffer_width = side * PIXEL_SIZE;
    assert(y * buffer_width + 40 * buffer_width <= pixels.len()) by (nonlinear_arith)
        requires
            (y + 40) * (side * 4) <= pixels.len(),
            buffer_width == side * 4,
    ;
    assert(y * buffer_width >= 0) by (nonlinear_arith)
        requires
            buffer_width >= 0,
            y >= 0,
    ;
    let start = y * buffer_width + x * PIXEL_SIZE;
    let ghost before = pixels@;
    let mut y_off: usize = 0;
    assert(pixels@ =~= partly_blitted(before, side as int, x as int, y as int, source@, 0, 0));
    while y_off < BUFFER_PIXELS
        invariant
            source.len() == TILE_BYTES,
            0 < side,
            x + 40 <= side,
            copy_width == 160,
            buffer_width == side * 4,
            start == y * buffer_width + x * 4,
            y * buffer_width + 40 * buffer_width <= pixels.len(),
            pixels.len() == before.len(),
            y_off <= 40,
            pixels@ == partly_blitted(
                before,
                side as int,
                x as int,
                y as int,
                source@,
                y_off as int,
                0,
            ),
        decreases 40 - y_off,
    {
        assert(y_off * buffer_width + buffer_width <= 40 * buffer_width) by (nonlinear_arith)
            requires
                y_off < 40,
                buffer_width >= 0,
        ;
        let dst_from = start + y_off * buffer_width;
        let src_from = y_off * copy_width;
        assert(dst_from == (y + y_off) * (side * 4) + x * 4) by (nonlinear_arith)
            requires
                dst_from == y * buffer_width + x * 4 + y_off * buffer_width,
                buffer_width == side * 4,
        ;
        let mut col: usize = 0;
        while col < copy_width
            invariant
                source.len() == TILE_BYTES,
                0 < side,
                x + 40 <= side,
                copy_width == 160,
                buffer_width == side * 4,
                y_off < 40,
                col <= 160,
                src_from == y_off * 160,
                dst_from == (y + y_off) * (side * 4) + x * 4,
                dst_from + 160 <= pixels.len(),
                pixels.len() == before.len(),
                pixels@ == partly_blitted(
                    before,
                    side as int,
                    x as int,
                    y as int,
                    source@,
                    y_off as int,
                    col as int,
                ),
            decreases 160 - col,
        {
            proof {
                lemma_blit_step(
                    before,
                    side as int,
                    x as int,
                    y as int,
                    source@,
                    y_off as int,
                    col as int,
                    dst_from + col,
                );
            }
            pixels.set(dst_from + col, source[src_from + col]);
            col += 1;
        }
        proof {
            lemma_blit_row(before, side as int, x as int, y as int, source@, y_off as int);
        }
        y_off += 1;
    }
    assert(pixels@ =~= blitted(before, side as int, x as int, y as int, source@));
}

/// The image of `side` by `side` pixels on which `tiles` were drawn in slot
/// order, on a blank ground.
pub open spec fn rendered(tiles: Seq<Seq<u8>>, side: int) -> Seq<u8>
    decreases tiles.len(),
{
    if tiles.len() == 0 {
        blank(image_bytes(side))
    } else {
        let slot = tiles.len() as int;
        blitted(
            rendered(tiles.drop_last(), side),
            side,
            slot_column(slot) * 40,
            slot_row(slot) * 40,
            tiles.last(),
        )
    }
}

/// Where byte `byte` of scanline `line` of the tile at `(x, y)` stands in an
/// image `side` pixels wide.
pub open spec fn byte_place(side: int, x: int, y: int, line: int, byte: int) -> int {
    (y + line) * (side * 4) + x * 4 + byte
}

/// A tile that was drawn on an image shows there byte for byte: scanline
/// `line` of the tile stands in line `y + line` of the image, from pixel `x`
/// on.
pub proof fn lemma_blitted_shows_tile(
    pixels: Seq<u8>,
    side: int,
    x: int,
    y: int,
    tile: Seq<u8>,
    line: int,
    byte: int,
)
    requires
        0 <= x,
        x + 40 <= side,
        0 <= y,
        0 <= line < 40,
        0 <= byte < 160,
        byte_place(side, x, y, line, byte) < pixels.len(),
    ensures
        0 <= byte_place(side, x, y, line, byte),
        in_tile(side, x, y, byte_place(side, x, y, line, byte)),
        tile_index(side, x, y, byte_place(side, x, y, line, byte)) == line * 160 + byte,
        blitted(pixels, side, x, y, tile)[byte_place(side, x, y, line, byte)] == tile[line * 160
            + byte],
{
    let at = byte_place(side, x, y, line, byte);
    lemma_fundamental_div_mod_converse(at, side * 4, y + line, x * 4 + byte);
    assert(0 <= (y + line) * (side * 4)) by (nonlinear_arith)
        requires
            0 <= y + line,
            0 <= side,
    ;
}

/// Drawing a tile changes no byte outside the tile's square.
pub proof fn lemma_blitted_keeps_rest(
    pixels: Seq<u8>,
    side: int,
    x: int,
    y: int,
    tile: Seq<u8>,
    k: int,
)
    requires
        0 <= k < pixels.len(),
        !in_tile(side, x, y, k),
    ensures
        blitted(pixels, side, x, y, tile).len() == pixels.len(),
        blitted(pixels, side, x, y, tile)[k] == pixels[k],
{
}

/// The tiles of two cells of the grid share no byte of the image.
pub proof fn lemma_cells_apart(side: int, c1: int, r1: int, c2: int, r2: int, k: int)
    requires
        c1 != c2 || r1 != r2,
        in_tile(side, c1 * 40, r1 * 40, k),
    ensures
        !in_tile(side, c2 * 40, r2 * 40, k),
{
}

/// An image that is drawn from tiles has the size that it was drawn at.
pub proof fn lemma_rendered_len(tiles: Seq<Seq<u8>>, side: int)
    requires
        0 <= side,
    ensures
        rendered(tiles, side).len() == image_bytes(side),
    decreases tiles.len(),
{
    if tiles.len() > 0 {
        lemma_rendered_len(tiles.drop_last(), side);
    } else {
        assert(0 <= side * side * 4) by (nonlinear_arith)
            requires
                0 <= side,
        ;
    }
}

/// An image that is drawn from tiles shows every tile, byte for byte, at the
/// cell of its slot: no later tile covers it, whatever the order in which
/// they were drawn.
pub proof fn lemma_rendered_shows_tile(
    tiles: Seq<Seq<u8>>,
    side: int,
    slot: int,
    line: int,
    byte: int,
)
    requires
        tiles.len() <= 64,
        1 <= slot <= tiles.len(),
        40 * ceil_sqrt(tiles.len()) <= side,
        0 <= line < 40,
        0 <= byte < 160,
    ensures
        0 <= byte_place(side, slot_column(slot) * 40, slot_row(slot) * 40, line, byte)
            < image_bytes(side),
        rendered(tiles, side)[byte_place(
            side,
            slot_column(slot) * 40,
            slot_row(slot) * 40,
            line,
            byte,
        )] == tiles[slot - 1][line * 160 + byte],
    decreases tiles.len(),
{
    let last = tiles.len() as int;
    let x = slot_column(slot) * 40;
    let y = slot_row(slot) * 40;
    let at = byte_place(side, x, y, line, byte);
    let under = rendered(tiles.drop_last(), side);
    lemma_slot_inside_square(slot, tiles.len());
    lemma_rendered_len(tiles.drop_last(), side);
    assert((y + line) * (side * 4) + side * 4 <= side * side * 4) by (nonlinear_arith)
        requires
            0 <= y + line < side,
    ;
    lemma_blitted_shows_tile(under, side, x, y, tiles[slot - 1], line, byte);
    if slot < last {
        lemma_slots_distinct(slot, last);
        lemma_cells_apart(
            side,
            slot_column(slot),
            slot_row(slot),
            slot_column(last),
            slot_row(last),
            at,
        );
        lemma_ceil_sqrt_monotonic((tiles.len() - 1) as nat, tiles.len());
        lemma_rendered_shows_tile(tiles.drop_last(), side, slot, line, byte);
    }
}

/// An image that is drawn from tiles is blank wherever no tile stands.
pub proof fn lemma_rendered_blank_elsewhere(tiles: Seq<Seq<u8>>, side: int, k: int)
    requires
        tiles.len() <= 64,
        0 <= side,
        0 <= k < image_bytes(side),
        forall|slot: int|
            1 <= slot <= tiles.len() ==> !in_tile(
                side,
                #[trigger] slot_column(slot) * 40,
                slot_row(slot) * 40,
                k,
            ),
    ensures
        rendered(tiles, side)[k] == 0,
    decreases tiles.len(),
{
    if tiles.len() > 0 {
        let last = tiles.len() as int;
        assert(!in_tile(side, slot_column(last) * 40, slot_row(last) * 40, k));
        lemma_rendered_len(tiles.drop_last(), side);
        lemma_rendered_blank_elsewhere(tiles.drop_last(), side, k);
    }
}

} // verus!
