//! The compositor: the painters' tiles, in the order in which they came, and
//! the one flat image that the tiles are drawn on.

use vstd::prelude::*;

use crate::grid::ceil_sqrt;
use crate::grid::coordinate_of;
use crate::grid::lemma_ceil_sqrt;
use crate::grid::lemma_ceil_sqrt_monotonic;
use crate::grid::lemma_ceil_sqrt_small;
use crate::grid::lemma_ceil_sqrt_unique;
use crate::grid::lemma_slot_inside_square;
use crate::grid::slot_column;
use crate::grid::slot_row;
use crate::grid::BUFFER_PIXELS;
use crate::grid::MAX_CLIENTS;
use crate::image::blank;
use crate::image::blit;
use crate::image::blitted;
use crate::image::byte_place;
use crate::image::lemma_blitted_shows_tile;
use crate::image::lemma_rendered_len;
use crate::image::lemma_rendered_shows_tile;
use crate::image::image_bytes;
use crate::image::rendered;
use crate::image::PIXEL_SIZE;
use crate::image::TILE_BYTES;
use crate::text::push_decimal;

verus! {

/// Bytes of the square image that holds `cells` by `cells` tiles.
pub open spec fn grid_bytes(cells: nat) -> nat {
    6400 * cells * cells
}

/// Why an update was refused.
#[derive(Debug, PartialEq)]
pub enum UpdateError {
    /// The compositor itself is at fault; the sender is not to blame.
    Server(String),
    /// The sender is at fault.
    Client(String),
}

/// One painter: the connection it belongs to, and its tile.
struct Client {
    id: u64,
    buffer: Vec<u8>,
}

/// The compositor.
pub struct Buffer {
    clients: Vec<Client>,
    pixels: Vec<u8>,
}

/// What a compositor holds.
pub ghost struct Canvas {
    /// The painters, oldest first. A painter's slot is its place here,
    /// counted from 1.
    pub ids: Seq<u64>,
    /// The tile of each painter, in the same order.
    pub tiles: Seq<Seq<u8>>,
    /// The composite image.
    pub pixels: Seq<u8>,
}

impl Canvas {
    /// The number of painters.
    pub open spec fn count(self) -> nat {
        self.ids.len()
    }

    /// How many tiles the composite is wide and high.
    pub open spec fn cells(self) -> nat {
        ceil_sqrt(self.count())
    }

    /// The side of the composite, in pixels.
    pub open spec fn side(self) -> nat {
        40 * self.cells()
    }

    /// The slot of painter `id`, who must be on the canvas.
    pub open spec fn slot_of(self, id: u64) -> int
        recommends
            self.ids.contains(id),
    {
        self.ids.index_of(id) + 1
    }

    /// Whether painter `id` can be taken in: it is not on the canvas yet, and
    /// the canvas is not full.
    pub open spec fn admits(self, id: u64) -> bool {
        !self.ids.contains(id) && self.count() < 64
    }

    /// The canvas after painter `id` was taken in, where it can be. The
    /// newcomer has a blank tile and the last slot. Where the square of
    /// tiles grows by it, the image is drawn anew at the new size; otherwise
    /// the image stays as it is.
    pub open spec fn inserted(self, id: u64) -> Canvas {
        if self.admits(id) {
            let tiles = self.tiles.push(blank(6400));
            let cells = ceil_sqrt(self.count() + 1);
            Canvas {
                ids: self.ids.push(id),
                tiles,
                pixels: if self.cells() < cells {
                    rendered(tiles, 40 * cells as int)
                } else {
                    self.pixels
                },
            }
        } else {
            self
        }
    }

    /// The canvas after painter `id` left it. The painters behind it move up
    /// one slot; the image stays as it is.
    pub open spec fn removed(self, id: u64) -> Canvas {
        if self.ids.contains(id) {
            Canvas {
                ids: self.ids.remove(self.ids.index_of(id)),
                tiles: self.tiles.remove(self.ids.index_of(id)),
                pixels: self.pixels,
            }
        } else {
            self
        }
    }

    /// The canvas after painter `id` sent the tile `data`: the tile takes the
    /// place of the painter's old one and is drawn at the painter's cell.
    /// Nothing changes where `data` is no tile or `id` is not on the canvas.
    pub open spec fn updated(self, id: u64, data: Seq<u8>) -> Canvas {
        if data.len() == 6400 && self.ids.contains(id) {
            let slot = self.slot_of(id);
            Canvas {
                ids: self.ids,
                tiles: self.tiles.update(slot - 1, data),
                pixels: blitted(
                    self.pixels,
                    self.side() as int,
                    slot_column(slot) * 40,
                    slot_row(slot) * 40,
                    data,
                ),
            }
        } else {
            self
        }
    }

    /// No painter stands twice, there are at most 64, each tile is 40 by 40
    /// pixels, and the image is a square of tiles that has room for all of
    /// them.
    pub open spec fn wf(self) -> bool {
        &&& self.ids.len() == self.tiles.len()
        &&& self.ids.len() <= 64
        &&& self.ids.no_duplicates()
        &&& forall|i: int| 0 <= i < self.tiles.len() ==> (#[trigger] self.tiles[i]).len() == 6400
        &&& exists|k: nat| self.cells() <= k <= 8 && self.pixels.len() == #[trigger] grid_bytes(k)
    }
}

impl View for Buffer {
    type V = Canvas;

    closed spec fn view(&self) -> Canvas {
        Canvas {
            ids: Seq::new(self.clients@.len(), |i: int| self.clients@[i].id),
            tiles: Seq::new(self.clients@.len(), |i: int| self.clients@[i].buffer@),
            pixels: self.pixels@,
        }
    }
}

/// The ceiling of the square root of `n`.
fn cells_for(n: usize) -> (k: usize)
    requires
        n <= 64,
    ensures
        k == ceil_sqrt(n as nat),
        k <= 8,
{
    let mut k: usize = 0;
    while k * k < n
        invariant
            n <= 64,
            k <= 8,
            k == 0 || (k - 1) * (k - 1) < n,
        decreases 8 - k,
    {
        assert(k < 8) by (nonlinear_arith)
            requires
                k * k < n,
                n <= 64,
        ;
        k += 1;
    }
    proof {
        lemma_ceil_sqrt_unique(n as nat, k as nat);
    }
    k
}

impl Buffer {
    /// Whether the compositor is in a state that its own operations lead to.
    pub open spec fn wf(&self) -> bool {
        self@.wf()
    }

    /// A compositor without painters, and without an image.
    pub fn new() -> (buffer: Buffer)
        ensures
            buffer.wf(),
            buffer@.ids.len() == 0,
            buffer@.pixels.len() == 0,
    {
        let pixels = Vec::with_capacity(64 * TILE_BYTES);
        let buffer = Buffer { clients: Vec::new(), pixels };
        proof {
            assert(grid_bytes(0) == 0);
            assert(ceil_sqrt(0) == 0);
        }
        buffer
    }

    /// The number of painters.
    pub fn n_clients(&self) -> (n: usize)
        ensures
            n == self@.count(),
    {
        self.clients.len()
    }

    /// The side of the composite, in pixels: 40 times the ceiling of the
    /// square root of the number of painters.
    pub fn dim(&self) -> (side: usize)
        requires
            self.wf(),
        ensures
            side == self@.side(),
            side <= 320,
    {
        self.side()
    }

    /// The side that the composite has, or is about to get.
    fn side(&self) -> (side: usize)
        requires
            self.clients.len() <= 64,
        ensures
            side == self@.side(),
            side <= 320,
    {
        cells_for(self.clients.len()) * BUFFER_PIXELS
    }

    /// Where painter `id` stands among the painters, counted from 0.
    fn position(&self, id: u64) -> (found: Option<usize>)
        requires
            self.wf(),
        ensures
            found is Some <==> self@.ids.contains(id),
            found matches Some(i) ==> i < self@.ids.len() && self@.ids[i as int] == id && i
                == self@.ids.index_of(id),
    {
        let mut i: usize = 0;
        while i < self.clients.len()
            invariant
                self.wf(),
                i <= self.clients.len(),
                forall|j: int| 0 <= j < i ==> self@.ids[j] != id,
            decreases self.clients.len() - i,
        {
            if self.clients[i].id == id {
                assert(self@.ids[i as int] == id);
                return Some(i);
            }
            i += 1;
        }
        None
    }
}

impl Buffer {
    /// Takes painter `id` in, with a blank tile, as the newest painter.
    ///
    /// A painter that is already on the canvas is refused, and so is a 65th
    /// painter; nothing changes then. Where the newcomer makes the composite
    /// grow, the image is made anew at the new size and every tile is drawn
    /// on it; otherwise the image stays as it is.
    pub fn insert(&mut self, id: u64) -> (r: Result<(), String>)
        requires
            old(self).wf(),
        ensures
            final(self).wf(),
            final(self)@ == old(self)@.inserted(id),
            r is Ok <==> old(self)@.admits(id),
            r matches Err(why) ==> why@ == (if old(self)@.ids.contains(id) {
                "Client already in image buffer"@
            } else {
                "Too many painters"@
            }),
    {
        if self.position(id).is_some() {
            return Err("Client already in image buffer".to_owned());
        }
        if self.n_clients() >= MAX_CLIENTS {
            return Err("Too many painters".to_owned());
        }
        let pre_dim = self.dim();

        let client = Client { id, buffer: vec![0u8; TILE_BYTES] };
        assert(client.buffer@ =~= blank(6400));
        self.clients.push(client);
        proof {
            assert(self@.ids =~= old(self)@.ids.push(id));
            assert(self@.tiles =~= old(self)@.tiles.push(blank(6400)));
            lemma_ceil_sqrt_monotonic(old(self)@.count(), self@.count());
            lemma_ceil_sqrt_small(self@.count());
        }

        let post_dim = self.side();
        assert(self@.ids == old(self)@.inserted(id).ids);
        assert(self@.tiles == old(self)@.inserted(id).tiles);
        if pre_dim < post_dim {
            // Need to re-size and re-render
            assert(post_dim * post_dim * 4 <= 320 * 320 * 4) by (nonlinear_arith)
                requires
                    post_dim <= 320,
            ;
            self.pixels.clear();
            self.pixels.resize(post_dim * post_dim * PIXEL_SIZE, 0);
            assert(self.pixels@ =~= blank(image_bytes(post_dim as int)));
            self.full_render();
        }
        proof {
            lemma_inserted_wf(old(self)@, id);
        }
        Ok(())
    }

    /// Takes painter `id` off the canvas. The painters behind it move up one
    /// slot; the image is left as it is. Where `id` is not on the canvas,
    /// nothing changes.
    pub fn remove(&mut self, id: u64)
        requires
            old(self).wf(),
        ensures
            final(self).wf(),
            final(self)@ == old(self)@.removed(id),
            !final(self)@.ids.contains(id),
    {
        if let Some(i) = self.position(id) {
            self.clients.remove(i);
            proof {
                assert(self@.ids =~= old(self)@.ids.remove(i as int));
                assert(self@.tiles =~= old(self)@.tiles.remove(i as int));
            }
        }
        proof {
            lemma_removed_wf(old(self)@, id);
        }
    }

    /// Replaces the tile of painter `id` by `data` and draws it at the
    /// painter's place on the image.
    ///
    /// `data` must be one tile, 6400 bytes: more or fewer are the sender's
    /// fault. A painter that is not on the canvas is the server's fault. Either
    /// way nothing changes.
    pub fn update(&mut self, id: u64, data: Vec<u8>) -> (r: Result<(), UpdateError>)
        requires
            old(self).wf(),
        ensures
            final(self).wf(),
            final(self)@ == old(self)@.updated(id, data@),
            r is Ok <==> data.len() == 6400 && old(self)@.ids.contains(id),
            r matches Err(UpdateError::Client(why)) ==> data.len() != 6400 && why@ == (if data.len()
                > 6400 {
                "Warning: data is larger than expected"@
            } else {
                "Warning: data is smaller than expected"@
            }),
            r matches Err(UpdateError::Server(why)) ==> data.len() == 6400 && why@
                == "Error: could not find the client to update pixels."@,
    {
        if data.len() > TILE_BYTES {
            return Err(UpdateError::Client("Warning: data is larger than expected".to_owned()));
        } else if data.len() < TILE_BYTES {
            return Err(UpdateError::Client("Warning: data is smaller than expected".to_owned()));
        }
        if let Some(i) = self.position(id) {
            let ghost tile = data@;
            self.clients.set(i, Client { id, buffer: data });
            proof {
                assert(self@.ids =~= old(self)@.ids);
                assert(self@.tiles =~= old(self)@.tiles.update(i as int, tile));
                lemma_slot_inside_square(i + 1, self@.count());
            }
            if let Some((x, y)) = coordinate_of(i + 1) {
                let side = self.dim();
                proof {
                    lemma_room_for_tile(self@, x as int, y as int);
                }
                blit(&mut self.pixels, side, x * BUFFER_PIXELS, y * BUFFER_PIXELS, &self.clients[i].buffer);
            } else {
                // no slot of a well-formed canvas is without a cell
                let mut message = "Not a valid coordinate: ".to_owned();
                push_decimal(&mut message, (i + 1) as u64);
                return Err(UpdateError::Server(message));
            }
        } else {
            return Err(
                UpdateError::Server("Error: could not find the client to update pixels.".to_owned()),
            );
        }
        Ok(())
    }

    /// Draws every tile at its place on the image, which must be blank.
    fn full_render(&mut self)
        requires
            old(self)@.count() <= 64,
            old(self)@.ids.len() == old(self)@.tiles.len(),
            forall|i: int|
                0 <= i < old(self)@.tiles.len() ==> (#[trigger] old(self)@.tiles[i]).len() == 6400,
            old(self)@.pixels == blank(image_bytes(old(self)@.side() as int)),
        ensures
            final(self)@.ids == old(self)@.ids,
            final(self)@.tiles == old(self)@.tiles,
            final(self)@.pixels == rendered(old(self)@.tiles, old(self)@.side() as int),
            final(self)@.pixels.len() == image_bytes(old(self)@.side() as int),
    {
        let side = self.side();
        let ghost tiles = self@.tiles;
        let ghost cells = self@.cells();
        let mut i: usize = 0;
        assert(tiles.take(0) =~= Seq::<Seq<u8>>::empty());
        while i < self.clients.len()
            invariant
                i <= self.clients.len(),
                self.clients.len() <= 64,
                self@.ids == old(self)@.ids,
                self@.tiles == tiles,
                tiles == old(self)@.tiles,
                forall|j: int| 0 <= j < tiles.len() ==> (#[trigger] tiles[j]).len() == 6400,
                side == 40 * cells,
                cells == ceil_sqrt(self.clients.len() as nat),
                cells <= 8,
                self.pixels.len() == image_bytes(side as int),
                self.pixels@ == rendered(tiles.take(i as int), side as int),
            decreases self.clients.len() - i,
        {
            proof {
                lemma_slot_inside_square(i + 1, self.clients.len() as nat);
                assert(tiles.take(i + 1).drop_last() =~= tiles.take(i as int));
                assert(tiles.take(i + 1).last() == tiles[i as int]);
            }
            if let Some((x, y)) = coordinate_of(i + 1) {
                assert((y * 40 + 40) * (side * 4) <= side * side * 4) by (nonlinear_arith)
                    requires
                        y < cells,
                        side == 40 * cells,
                ;
                assert(x * 40 + 40 <= side);
                assert(self.clients[i as int].buffer@ == tiles[i as int]);
                blit(&mut self.pixels, side, x * BUFFER_PIXELS, y * BUFFER_PIXELS, &self.clients[i].buffer);
            }
            i += 1;
        }
        assert(tiles.take(tiles.len() as int) =~= tiles);
    }
}

/// On a well-formed canvas a tile fits in the image at every cell of the
/// current square.
proof fn lemma_room_for_tile(canvas: Canvas, column: int, row: int)
    requires
        canvas.wf(),
        0 <= column < canvas.cells(),
        0 <= row < canvas.cells(),
    ensures
        0 < canvas.side() <= 320,
        column * 40 + 40 <= canvas.side(),
        (row * 40 + 40) * (canvas.side() * 4) <= canvas.pixels.len(),
{
    let c = canvas.cells();
    let k = choose|k: nat| c <= k <= 8 && canvas.pixels.len() == #[trigger] grid_bytes(k);
    assert((row * 40 + 40) * ((40 * c) * 4) <= 6400 * k * k) by (nonlinear_arith)
        requires
            0 <= row < c,
            c <= k,
    ;
}

impl Default for Buffer {
    fn default() -> (buffer: Buffer)
        ensures
            buffer.wf(),
            buffer@.ids.len() == 0,
            buffer@.pixels.len() == 0,
    {
        Self::new()
    }
}

impl<'a> From<&'a Buffer> for &'a Vec<u8> {
    /// The composite image, as it is sent to viewers.
    fn from(buffer: &'a Buffer) -> (image: Self)
        ensures
            image@ == buffer@.pixels,
    {
        &buffer.pixels
    }
}

impl<'a> vstd::std_specs::convert::FromSpecImpl<&'a Buffer> for &'a Vec<u8> {
    open spec fn obeys_from_spec() -> bool {
        true
    }

    closed spec fn from_spec(buffer: &'a Buffer) -> Self {
        &buffer.pixels
    }
}

/// The side of the composite is 40 times the ceiling of the square root of
/// the number of painters: the least multiple of 40 whose square of tiles
/// has room for all of them.
pub proof fn lemma_side_is_root(canvas: Canvas)
    ensures
        canvas.side() == 40 * ceil_sqrt(canvas.count()),
        canvas.side() * canvas.side() >= 1600 * canvas.count(),
        canvas.count() > 0 ==> canvas.side() >= 40 && (canvas.side() - 40) * (canvas.side() - 40)
            < 1600 * canvas.count(),
        canvas.count() <= 64 ==> canvas.side() <= 320,
{
    let n = canvas.count();
    let k = ceil_sqrt(n);
    lemma_ceil_sqrt(n);
    assert((40 * k) * (40 * k) == 1600 * (k * k)) by (nonlinear_arith);
    if n > 0 {
        assert((40 * k - 40) * (40 * k - 40) == 1600 * ((k - 1) * (k - 1))) by (nonlinear_arith);
    }
    if n <= 64 {
        lemma_ceil_sqrt_small(n);
    }
}

/// The side does not change while the ceiling of the square root of the
/// number of painters does not.
pub proof fn lemma_side_steady(a: Canvas, b: Canvas)
    requires
        ceil_sqrt(a.count()) == ceil_sqrt(b.count()),
    ensures
        a.side() == b.side(),
{
}

/// A painter that does not make the square of tiles grow leaves the image,
/// and its side, as they were.
pub proof fn lemma_insert_keeps_image(canvas: Canvas, id: u64)
    requires
        canvas.admits(id),
        ceil_sqrt(canvas.count() + 1) == ceil_sqrt(canvas.count()),
    ensures
        canvas.inserted(id).pixels == canvas.pixels,
        canvas.inserted(id).side() == canvas.side(),
{
}

/// A painter that is already on the canvas is not taken in again, and
/// nothing changes.
pub proof fn lemma_insert_present(canvas: Canvas, id: u64)
    requires
        canvas.ids.contains(id),
    ensures
        !canvas.admits(id),
        canvas.inserted(id) == canvas,
{
}

/// A full canvas takes no painter in, and nothing changes.
pub proof fn lemma_insert_full(canvas: Canvas, id: u64)
    requires
        canvas.count() >= 64,
    ensures
        !canvas.admits(id),
        canvas.inserted(id) == canvas,
        canvas.inserted(id).count() == canvas.count(),
{
}

/// Taking a painter in leaves every painter that was there in its slot.
pub proof fn lemma_insert_keeps_slots(canvas: Canvas, id: u64, other: u64)
    requires
        canvas.wf(),
        canvas.ids.contains(other),
    ensures
        canvas.inserted(id).ids.contains(other),
        canvas.inserted(id).slot_of(other) == canvas.slot_of(other),
{
    if canvas.admits(id) {
        let after = canvas.inserted(id);
        let at = canvas.ids.index_of(other);
        assert(after.ids[at] == other);
        lemma_inserted_wf(canvas, id);
        assert(after.ids[after.ids.index_of(other)] == other);
    }
}

/// Where a newcomer makes the square of tiles grow, the new image shows the
/// tile of every painter, byte for byte, at the cell of the painter's slot.
pub proof fn lemma_growth_shows_tiles(canvas: Canvas, id: u64, slot: int, line: int, byte: int)
    requires
        canvas.wf(),
        canvas.admits(id),
        canvas.cells() < canvas.inserted(id).cells(),
        1 <= slot <= canvas.count() + 1,
        0 <= line < 40,
        0 <= byte < 160,
    ensures
        ({
            let after = canvas.inserted(id);
            let at = byte_place(
                after.side() as int,
                slot_column(slot) * 40,
                slot_row(slot) * 40,
                line,
                byte,
            );
            &&& after.pixels.len() == image_bytes(after.side() as int)
            &&& 0 <= at < after.pixels.len()
            &&& after.pixels[at] == after.tiles[slot - 1][line * 160 + byte]
        }),
{
    let after = canvas.inserted(id);
    lemma_rendered_len(after.tiles, after.side() as int);
    lemma_rendered_shows_tile(after.tiles, after.side() as int, slot, line, byte);
}

/// Taking a painter off a canvas on which it is not changes nothing.
pub proof fn lemma_remove_absent(canvas: Canvas, id: u64)
    requires
        !canvas.ids.contains(id),
    ensures
        canvas.removed(id) == canvas,
{
}

/// A tile of the right size from a painter on the canvas shows in the image,
/// byte for byte, at the cell of the painter's slot.
pub proof fn lemma_update_shows_tile(canvas: Canvas, id: u64, data: Seq<u8>, line: int, byte: int)
    requires
        canvas.wf(),
        canvas.ids.contains(id),
        data.len() == 6400,
        0 <= line < 40,
        0 <= byte < 160,
    ensures
        ({
            let slot = canvas.slot_of(id);
            let at = byte_place(
                canvas.side() as int,
                slot_column(slot) * 40,
                slot_row(slot) * 40,
                line,
                byte,
            );
            &&& 1 <= slot <= canvas.count()
            &&& 0 <= at < canvas.pixels.len()
            &&& canvas.updated(id, data).pixels.len() == canvas.pixels.len()
            &&& canvas.updated(id, data).pixels[at] == data[line * 160 + byte]
        }),
{
    let slot = canvas.slot_of(id);
    let side = canvas.side() as int;
    lemma_slot_inside_square(slot, canvas.count());
    lemma_room_for_tile(canvas, slot_column(slot), slot_row(slot));
    let x = slot_column(slot) * 40;
    let y = slot_row(slot) * 40;
    assert((y + line) * (side * 4) + side * 4 <= (y + 40) * (side * 4)) by (nonlinear_arith)
        requires
            0 <= line < 40,
            0 <= side,
    ;
    lemma_blitted_shows_tile(canvas.pixels, side, x, y, data, line, byte);
}

/// A tile of the wrong size changes nothing, and neither does a tile from a
/// painter that is not on the canvas.
pub proof fn lemma_update_refused(canvas: Canvas, id: u64, data: Seq<u8>)
    requires
        data.len() != 6400 || !canvas.ids.contains(id),
    ensures
        canvas.updated(id, data) == canvas,
{
}

/// Taking a painter in keeps a canvas well formed.
pub proof fn lemma_inserted_wf(canvas: Canvas, id: u64)
    requires
        canvas.wf(),
    ensures
        canvas.inserted(id).wf(),
{
    if canvas.admits(id) {
        let after = canvas.inserted(id);
        lemma_ceil_sqrt_monotonic(canvas.count(), after.count());
        lemma_ceil_sqrt_small(after.count());
        if canvas.cells() < after.cells() {
            let k = after.cells();
            lemma_rendered_len(after.tiles, 40 * k as int);
            assert((40 * k) * (40 * k) * 4 == grid_bytes(k)) by (nonlinear_arith);
        } else {
            let k = choose|k: nat|
                canvas.cells() <= k <= 8 && canvas.pixels.len() == #[trigger] grid_bytes(k);
            assert(after.cells() <= k <= 8 && after.pixels.len() == grid_bytes(k));
        }
    }
}

/// Taking a painter off keeps a canvas well formed, and the painter is gone.
pub proof fn lemma_removed_wf(canvas: Canvas, id: u64)
    requires
        canvas.wf(),
    ensures
        canvas.removed(id).wf(),
        !canvas.removed(id).ids.contains(id),
{
    if canvas.ids.contains(id) {
        let after = canvas.removed(id);
        let i = canvas.ids.index_of(id);
        lemma_ceil_sqrt_monotonic(after.count(), canvas.count());
        let k = choose|k: nat|
            canvas.cells() <= k <= 8 && canvas.pixels.len() == #[trigger] grid_bytes(k);
        assert(after.cells() <= k <= 8 && after.pixels.len() == grid_bytes(k));
        assert forall|a: int, b: int|
            0 <= a < after.ids.len() && 0 <= b < after.ids.len() && a != b implies after.ids[a]
            != after.ids[b] by {
            let a0 = if a < i { a } else { a + 1 };
            let b0 = if b < i { b } else { b + 1 };
            assert(canvas.ids[a0] != canvas.ids[b0]);
        }
        assert forall|a: int| 0 <= a < after.ids.len() implies after.ids[a] != id by {
            let a0 = if a < i { a } else { a + 1 };
            assert(canvas.ids[a0] != canvas.ids[i]);
        }
    }
}

/// A tile that comes in keeps a canvas well formed.
pub proof fn lemma_updated_wf(canvas: Canvas, id: u64, data: Seq<u8>)
    requires
        canvas.wf(),
    ensures
        canvas.updated(id, data).wf(),
{
    if data.len() == 6400 && canvas.ids.contains(id) {
        let after = canvas.updated(id, data);
        let k = choose|k: nat|
            canvas.cells() <= k <= 8 && canvas.pixels.len() == #[trigger] grid_bytes(k);
        assert(after.cells() <= k <= 8 && after.pixels.len() == grid_bytes(k));
    }
}

} // verus!
