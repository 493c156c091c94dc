use vstd::prelude::*;
use std::rc::Rc;
use crate::screen::{Screen, ScreenView, blit_byte, blit_view, clamp, lemma_blit_view_bytes};
use crate::texture::Texture;
use crate::types::{share, Rect, Vec2i};

verus! {

/// Side of a tile, in texture pixels and in world pixels when drawn.
pub const TILE_SZ: usize = 16;

/// World pixels per tile cell when a world point is looked up in a tilemap.
pub const CELL_PX: i64 = 32;

/// `a / b` rounded toward zero, as Rust's integer division does.
pub open spec fn div_toward_zero(a: int, b: int) -> int {
    if a >= 0 {
        a / b
    } else {
        -((-a) / b)
    }
}

/// `v` clamped into `[0, hi]`.
pub open spec fn clamp_to(v: int, hi: int) -> int {
    if v < 0 {
        0
    } else if v > hi {
        hi
    } else {
        v
    }
}

/// A graphical tile and the game flags stored with it.
#[derive(Clone, Copy, PartialEq, Eq, Debug, Structural)]
pub struct Tile {
    /// Part of the opponent's grid rather than the player's.
    pub oppgrid: bool,
    /// The opponent has a ship in this tile.
    pub opphit: bool,
    /// The player has a ship in this tile.
    pub myship: bool,
}

/// Index of a tile in a tileset.
#[derive(Clone, Copy, PartialEq, Eq, Debug, Structural)]
pub struct TileID(usize);

impl View for TileID {
    type V = usize;

    closed spec fn view(&self) -> usize {
        self.0
    }
}

impl TileID {
    pub fn new(id: usize) -> (r: Self)
        ensures
            r@ == id,
    {
        TileID(id)
    }
}

/// A set of tiles whose pictures form a row-major grid of `TILE_SZ` squares in one
/// shared texture.
#[derive(Clone)]
pub struct Tileset {
    pub tiles: Vec<Tile>,
    pub texture: Rc<Texture>,
}

/// Tiles per row of a texture `width` pixels wide.
pub open spec fn tiles_per_row(width: int) -> int {
    width / TILE_SZ as int
}

/// Where tile `id` lies in a texture `width` pixels wide.
pub open spec fn tile_rect(id: int, width: int) -> Rect {
    let per_row = tiles_per_row(width);
    Rect {
        x: ((id % per_row) * TILE_SZ) as i32,
        y: ((id / per_row) * TILE_SZ) as i32,
        w: TILE_SZ as u16,
        h: TILE_SZ as u16,
    }
}

impl Tileset {
    /// The texture is an RGBA grid wide enough for one tile, and every tile of the
    /// set has its square inside it.
    pub open spec fn wf(&self) -> bool {
        &&& self.texture.wf()
        &&& self.texture.depth == 4
        &&& TILE_SZ <= self.texture.width <= i32::MAX
        &&& self.texture.height <= i32::MAX
        &&& self.tiles@.len() <= tiles_per_row(self.texture.width as int) * (self.texture.height as int
            / TILE_SZ as int)
    }

    pub fn new(tiles: Vec<Tile>, texture: &Rc<Texture>) -> (r: Self)
        ensures
            r.tiles@ == tiles@,
            r.texture == *texture,
    {
        Self { tiles, texture: share(texture) }
    }

    /// The tile with identifier `id`.
    pub fn index(&self, id: TileID) -> (r: &Tile)
        requires
            id@ < self.tiles@.len(),
        ensures
            *r == self.tiles@[id@ as int],
    {
        &self.tiles[id.0]
    }

    /// The texture rectangle that shows tile `id`.
    pub fn get_rect(&self, id: TileID) -> (r: Rect)
        requires
            TILE_SZ <= self.texture.width <= i32::MAX,
            (id@ as int / tiles_per_row(self.texture.width as int)) * TILE_SZ <= i32::MAX,
        ensures
            r == tile_rect(id@ as int, self.texture.width as int),
    {
        let idx = id.0;
        let (w, _h) = self.texture.size();
        let tw = w / TILE_SZ;
        let row = idx / tw;
        proof {
            assert(row * tw <= idx) by (nonlinear_arith)
                requires
                    tw > 0,
                    row == idx / tw,
            ;
        }
        let col = idx - row * tw;
        proof {
            assert(col == idx % tw) by (nonlinear_arith)
                requires
                    tw > 0,
                    row == idx / tw,
                    col == idx - row * tw,
            ;
            assert(col * TILE_SZ <= w) by (nonlinear_arith)
                requires
                    col < tw,
                    tw == w as int / TILE_SZ as int,
                    w >= 0,
            ;
        }
        Rect { x: (col * TILE_SZ) as i32, y: (row * TILE_SZ) as i32, w: TILE_SZ as u16, h: TILE_SZ as u16 }
    }

    /// Does this tileset have a tile for `id`?
    pub fn contains(&self, id: TileID) -> (r: bool)
        ensures
            r == (id@ < self.tiles@.len()),
    {
        id.0 < self.tiles.len()
    }
}

/// What a tilemap holds: its world anchor, its size in cells, and the row-major
/// tile identifiers of its cells.
pub struct TilemapView {
    pub position: Vec2i,
    pub cols: nat,
    pub rows: nat,
    pub ids: Seq<usize>,
    pub tileset: Tileset,
}

impl TilemapView {
    /// The cell `(col, row)` that world point `p` falls in.
    pub open spec fn cell_of(&self, p: Vec2i) -> (int, int) {
        (div_toward_zero(p.0 - self.position.0, CELL_PX as int), div_toward_zero(p.1 - self.position.1, CELL_PX as int))
    }

    /// Does world point `p` fall inside the map?
    pub open spec fn holds_point(&self, p: Vec2i) -> bool {
        let (col, row) = self.cell_of(p);
        0 <= col < self.cols && 0 <= row < self.rows
    }

    /// One identifier per cell, each naming a tile of the tileset.
    pub open spec fn wf(&self) -> bool {
        &&& self.ids.len() == self.cols * self.rows
        &&& forall|i: int| 0 <= i < self.ids.len() ==> #[trigger] self.ids[i] < self.tileset.tiles@.len()
    }

    /// Every cell's square has world coordinates that fit in `i32`.
    pub open spec fn fits_world(&self) -> bool {
        &&& self.position.0 + self.cols * TILE_SZ <= i32::MAX
        &&& self.position.1 + self.rows * TILE_SZ <= i32::MAX
    }

    /// Is world point `(wx, wy)` inside the square drawn for cell `(col, row)`?
    pub open spec fn in_square(&self, col: int, row: int, wx: int, wy: int) -> bool {
        &&& self.position.0 + col * TILE_SZ <= wx < self.position.0 + col * TILE_SZ + TILE_SZ
        &&& self.position.1 + row * TILE_SZ <= wy < self.position.1 + row * TILE_SZ + TILE_SZ
    }

    /// The texture the tileset draws from.
    pub open spec fn texture(&self) -> Texture {
        *self.tileset.texture
    }

    /// The identifier stored for cell `(col, row)`.
    pub open spec fn id_at(&self, col: int, row: int) -> usize {
        self.ids[row * self.cols + col]
    }

    /// The first visible column, one past the last, the first visible row and one
    /// past the last, for a camera at `cam` showing `w` by `h` pixels. The far edges
    /// are padded by a tile so that partly visible tiles are drawn.
    pub open spec fn window(&self, cam: Vec2i, w: int, h: int) -> (int, int, int, int) {
        let t = TILE_SZ as int;
        (
            clamp_to(div_toward_zero(cam.0 - self.position.0, t), self.cols as int),
            clamp_to(div_toward_zero(cam.0 + (w + t) - self.position.0, t), self.cols as int),
            clamp_to(div_toward_zero(cam.1 - self.position.1, t), self.rows as int),
            clamp_to(div_toward_zero(cam.1 + (h + t) - self.position.1, t), self.rows as int),
        )
    }

    /// World position of the top-left corner of cell `(col, row)`.
    pub open spec fn cell_origin(&self, col: int, row: int) -> Vec2i {
        Vec2i((col * TILE_SZ + self.position.0) as i32, (row * TILE_SZ + self.position.1) as i32)
    }
}

/// The screen after drawing cell `(col, row)` of map `m` with tile pictures from `tex`.
pub open spec fn draw_cell(s: ScreenView, tex: Texture, m: TilemapView, col: int, row: int) -> ScreenView {
    blit_view(s, tex, tile_rect(m.id_at(col, row) as int, tex.width as int), m.cell_origin(col, row))
}

/// The screen after drawing cells `left .. x` of row `row`, left to right.
pub open spec fn draw_row(s: ScreenView, tex: Texture, m: TilemapView, row: int, left: int, x: int) -> ScreenView
    decreases x - left,
{
    if x <= left {
        s
    } else {
        draw_cell(draw_row(s, tex, m, row, left, x - 1), tex, m, x - 1, row)
    }
}

/// The screen after drawing rows `top .. y`, top to bottom, each from `left` to `right`.
pub open spec fn draw_rows(s: ScreenView, tex: Texture, m: TilemapView, top: int, y: int, left: int, right: int) -> ScreenView
    decreases y - top,
{
    if y <= top {
        s
    } else {
        draw_row(draw_rows(s, tex, m, top, y - 1, left, right), tex, m, y - 1, left, right)
    }
}

/// The screen after drawing every visible cell of map `m`.
pub open spec fn draw_map(s: ScreenView, tex: Texture, m: TilemapView) -> ScreenView {
    let (left, right, top, bot) = m.window(s.camera, s.width as int, s.height as int);
    draw_rows(s, tex, m, top, bot, left, right)
}

/// A tile of a well-formed tileset has its whole square inside the texture.
proof fn lemma_tile_rect_inside(ts: Tileset, id: int)
    requires
        ts.wf(),
        0 <= id < ts.tiles@.len(),
    ensures
        ({
            let per_row = tiles_per_row(ts.texture.width as int);
            let col = id % per_row;
            let row = id / per_row;
            &&& per_row > 0
            &&& 0 <= col * TILE_SZ
            &&& col * TILE_SZ + TILE_SZ <= ts.texture.width
            &&& 0 <= row * TILE_SZ
            &&& row * TILE_SZ + TILE_SZ <= ts.texture.height
        }),
{
    let w = ts.texture.width as int;
    let h16 = ts.texture.height as int / TILE_SZ as int;
    let per_row = tiles_per_row(w);
    let col = id % per_row;
    let row = id / per_row;
    assert(per_row > 0);
    assert(0 <= col < per_row);
    assert(col * 16 + 16 <= per_row * 16) by (nonlinear_arith)
        requires
            col + 1 <= per_row,
    ;
    assert(0 <= col * 16) by (nonlinear_arith)
        requires
            0 <= col,
    ;
    assert(row < h16) by (nonlinear_arith)
        requires
            per_row > 0,
            0 <= id < per_row * h16,
            row == id / per_row,
    ;
    assert(0 <= row) by (nonlinear_arith)
        requires
            per_row > 0,
            0 <= id,
            row == id / per_row,
    ;
    assert(row * 16 + 16 <= h16 * 16) by (nonlinear_arith)
        requires
            row + 1 <= h16,
    ;
    assert(0 <= row * 16) by (nonlinear_arith)
        requires
            0 <= row,
    ;
}

/// Drawing cell `(c2, r2)` touches pixel `(x, y)` of the square of cell
/// `(col, row)` only when it is that cell.
proof fn lemma_blit_cell_pixel(v: ScreenView, tex: Texture, m: TilemapView, c2: int, r2: int, col: int, row: int, x: int, y: int, c: int)
    requires
        v.wf(),
        v.in_bounds(x, y),
        0 <= c < 4,
        0 <= c2 < m.cols,
        0 <= r2 < m.rows,
        0 <= col < m.cols,
        0 <= row < m.rows,
        m.fits_world(),
        m.in_square(col, row, v.camera.0 + x, v.camera.1 + y),
    ensures
        draw_cell(v, tex, m, c2, r2).wf(),
        draw_cell(v, tex, m, c2, r2).same_frame(v),
        draw_cell(v, tex, m, c2, r2).byte_at(x, y, c) == if c2 == col && r2 == row {
            blit_byte(v, tex, tile_rect(m.id_at(col, row) as int, tex.width as int), m.cell_origin(col, row), x, y, c)
        } else {
            v.byte_at(x, y, c)
        },
{
    let rect = tile_rect(m.id_at(c2, r2) as int, tex.width as int);
    lemma_blit_view_bytes(v, tex, rect, m.cell_origin(c2, r2));
    assert(0 <= c2 * 16 < m.cols * 16) by (nonlinear_arith)
        requires
            0 <= c2 < m.cols,
    ;
    assert(0 <= r2 * 16 < m.rows * 16) by (nonlinear_arith)
        requires
            0 <= r2 < m.rows,
    ;
}

/// Pixel `(x, y)` of cell `(col, row)`'s square after drawing cells
/// `left .. k` of row `r`.
proof fn lemma_draw_row_pixel(v: ScreenView, tex: Texture, m: TilemapView, r: int, left: int, k: int, col: int, row: int, x: int, y: int, c: int)
    requires
        v.wf(),
        v.in_bounds(x, y),
        0 <= c < 4,
        0 <= left,
        k <= m.cols,
        0 <= r < m.rows,
        0 <= col < m.cols,
        0 <= row < m.rows,
        m.fits_world(),
        m.in_square(col, row, v.camera.0 + x, v.camera.1 + y),
    ensures
        draw_row(v, tex, m, r, left, k).wf(),
        draw_row(v, tex, m, r, left, k).same_frame(v),
        draw_row(v, tex, m, r, left, k).byte_at(x, y, c) == if r == row && left <= col < k {
            blit_byte(v, tex, tile_rect(m.id_at(col, row) as int, tex.width as int), m.cell_origin(col, row), x, y, c)
        } else {
            v.byte_at(x, y, c)
        },
    decreases k - left,
{
    if k > left {
        let prev = draw_row(v, tex, m, r, left, k - 1);
        lemma_draw_row_pixel(v, tex, m, r, left, k - 1, col, row, x, y, c);
        lemma_blit_cell_pixel(prev, tex, m, k - 1, r, col, row, x, y, c);
    }
}

/// Pixel `(x, y)` of cell `(col, row)`'s square after drawing rows `top .. k`,
/// columns `left .. right`.
proof fn lemma_draw_rows_pixel(
    v: ScreenView,
    tex: Texture,
    m: TilemapView,
    top: int,
    k: int,
    left: int,
    right: int,
    col: int,
    row: int,
    x: int,
    y: int,
    c: int,
)
    requires
        v.wf(),
        v.in_bounds(x, y),
        0 <= c < 4,
        0 <= top,
        k <= m.rows,
        0 <= left,
        right <= m.cols,
        0 <= col < m.cols,
        0 <= row < m.rows,
        m.fits_world(),
        m.in_square(col, row, v.camera.0 + x, v.camera.1 + y),
    ensures
        draw_rows(v, tex, m, top, k, left, right).wf(),
        draw_rows(v, tex, m, top, k, left, right).same_frame(v),
        draw_rows(v, tex, m, top, k, left, right).byte_at(x, y, c) == if top <= row < k && left <= col < right {
            blit_byte(v, tex, tile_rect(m.id_at(col, row) as int, tex.width as int), m.cell_origin(col, row), x, y, c)
        } else {
            v.byte_at(x, y, c)
        },
    decreases k - top,
{
    if k > top {
        let prev = draw_rows(v, tex, m, top, k - 1, left, right);
        lemma_draw_rows_pixel(v, tex, m, top, k - 1, left, right, col, row, x, y, c);
        lemma_draw_row_pixel(prev, tex, m, k - 1, left, right, col, row, x, y, c);
    }
}

/// A cell with a pixel on screen lies inside the drawn window.
proof fn lemma_cell_in_window(s: ScreenView, m: TilemapView, col: int, row: int, x: int, y: int)
    requires
        s.wf(),
        s.in_bounds(x, y),
        0 <= col < m.cols,
        0 <= row < m.rows,
        m.in_square(col, row, s.camera.0 + x, s.camera.1 + y),
    ensures
        ({
            let (left, right, top, bot) = m.window(s.camera, s.width as int, s.height as int);
            &&& 0 <= left <= col < right <= m.cols
            &&& 0 <= top <= row < bot <= m.rows
        }),
{
}

/// After `set_tile_at(p, id)` and then `draw`, every on-screen pixel of the square
/// drawn for `p`'s cell shows tile `id`'s picture composited over what the screen
/// held before the draw.
pub proof fn lemma_set_tile_then_draw(s: ScreenView, m: TilemapView, p: Vec2i, id: usize, x: int, y: int, c: int)
    requires
        s.wf(),
        m.wf(),
        m.tileset.wf(),
        m.fits_world(),
        m.holds_point(p),
        id < m.tileset.tiles@.len(),
        s.in_bounds(x, y),
        0 <= c < 4,
        m.in_square(m.cell_of(p).0, m.cell_of(p).1, s.camera.0 + x, s.camera.1 + y),
    ensures
        ({
            let (col, row) = m.cell_of(p);
            let after = TilemapView { ids: m.ids.update(row * m.cols + col, id), ..m };
            draw_map(s, m.texture(), after).byte_at(x, y, c) == blit_byte(
                s,
                m.texture(),
                tile_rect(id as int, m.texture().width as int),
                m.cell_origin(col, row),
                x,
                y,
                c,
            )
        }),
{
    let (col, row) = m.cell_of(p);
    let after = TilemapView { ids: m.ids.update(row * m.cols + col, id), ..m };
    lemma_cell_index(m.cols as int, m.rows as int, col, row);
    assert(after.id_at(col, row) == id);
    lemma_cell_in_window(s, after, col, row, x, y);
    let (left, right, top, bot) = after.window(s.camera, s.width as int, s.height as int);
    lemma_draw_rows_pixel(s, m.texture(), after, top, bot, left, right, col, row, x, y, c);
}

/// A grid of tile identifiers anchored at a world position.
pub struct Tilemap {
    /// Where the map's top-left corner is in the world.
    pub position: Vec2i,
    /// Columns and rows.
    dims: (usize, usize),
    /// The tiles the identifiers refer to.
    pub tileset: Rc<Tileset>,
    /// Row-major tile identifiers.
    map: Vec<TileID>,
}

impl Clone for Tilemap {
    fn clone(&self) -> Self {
        Tilemap { position: self.position, dims: self.dims, tileset: share(&self.tileset), map: self.map.clone() }
    }
}

impl View for Tilemap {
    type V = TilemapView;

    closed spec fn view(&self) -> TilemapView {
        TilemapView {
            position: self.position,
            cols: self.dims.0 as nat,
            rows: self.dims.1 as nat,
            ids: self.map@.map_values(|t: TileID| t@),
            tileset: *self.tileset,
        }
    }
}

/// Does a `dims` map with these identifiers fit its size and its tileset?
pub open spec fn map_fits(dims: (usize, usize), tiles: nat, ids: Seq<usize>) -> bool {
    &&& dims.0 * dims.1 == ids.len()
    &&& forall|i: int| 0 <= i < ids.len() ==> #[trigger] ids[i] < tiles
}

proof fn lemma_cell_index(cols: int, rows: int, col: int, row: int)
    requires
        0 <= col < cols,
        0 <= row < rows,
    ensures
        0 <= row * cols + col < cols * rows,
{
    assert((row + 1) * cols <= rows * cols) by (nonlinear_arith)
        requires
            row + 1 <= rows,
            0 <= cols,
    ;
    assert((row + 1) * cols == row * cols + cols) by (nonlinear_arith);
    assert(rows * cols == cols * rows) by (nonlinear_arith);
    assert(0 <= row * cols) by (nonlinear_arith)
        requires
            0 <= row,
            0 <= cols,
    ;
}

impl Tilemap {
    /// Every cell holds an identifier of the tileset, and there is one per cell.
    pub open spec fn wf(&self) -> bool {
        self@.wf()
    }

    /// Would `new` accept these arguments?
    pub fn fits(dims: (usize, usize), tileset: &Rc<Tileset>, map: &Vec<usize>) -> (r: bool)
        ensures
            r == map_fits(dims, tileset.tiles@.len(), map@),
    {
        let len = map.len();
        match dims.0.checked_mul(dims.1) {
            None => {
                proof {
                    assert(dims.0 * dims.1 > len);
                }
                return false;
            },
            Some(n) => {
                if n != map.len() {
                    return false;
                }
            },
        }
        let mut i: usize = 0;
        while i < map.len()
            invariant
                i <= map@.len(),
                forall|j: int| 0 <= j < i ==> #[trigger] map@[j] < tileset.tiles@.len(),
            decreases map@.len() - i,
        {
            if !tileset.contains(TileID(map[i])) {
                return false;
            }
            i += 1;
        }
        true
    }

    /// A `dims.0` by `dims.1` map at world `position`, with row-major identifiers `map`.
    pub fn new(position: Vec2i, dims: (usize, usize), tileset: &Rc<Tileset>, map: Vec<usize>) -> (r: Self)
        requires
            map_fits(dims, tileset.tiles@.len(), map@),
        ensures
            r.wf(),
            r@.position == position,
            r@.cols == dims.0,
            r@.rows == dims.1,
            r@.ids == map@,
            r@.tileset == **tileset,
    {
        let mut ids: Vec<TileID> = Vec::new();
        let mut i: usize = 0;
        while i < map.len()
            invariant
                i <= map@.len(),
                ids@.len() == i,
                forall|j: int| 0 <= j < i ==> #[trigger] ids@[j]@ == map@[j],
            decreases map@.len() - i,
        {
            ids.push(TileID(map[i]));
            i += 1;
        }
        let r = Self { position, dims, tileset: share(tileset), map: ids };
        proof {
            assert(r@.ids =~= map@);
        }
        r
    }

    /// Row-major index of the cell that world point `p` falls in.
    fn cell_index(&self, p: Vec2i) -> (r: usize)
        requires
            self.wf(),
            self@.holds_point(p),
        ensures
            r == self@.cell_of(p).1 * self@.cols + self@.cell_of(p).0,
            r < self@.ids.len(),
    {
        let x = (p.0 as i64 - self.position.0 as i64) / CELL_PX;
        let y = (p.1 as i64 - self.position.1 as i64) / CELL_PX;
        let len = self.map.len();
        proof {
            lemma_cell_index(self.dims.0 as int, self.dims.1 as int, x as int, y as int);
            assert(self@.ids.len() == len);
        }
        y as usize * self.dims.0 + x as usize
    }

    /// Moves the map's top-left corner to world position `position`.
    pub fn set_position(&mut self, position: Vec2i)
        requires
            old(self).wf(),
        ensures
            final(self).wf(),
            final(self)@ == (TilemapView { position, ..old(self)@ }),
    {
        self.position = position;
        proof {
            assert(self@.ids =~= old(self)@.ids);
        }
    }

    /// Identifier of the tile at world point `p`.
    pub fn tile_id_at(&self, p: Vec2i) -> (r: TileID)
        requires
            self.wf(),
            self@.holds_point(p),
        ensures
            r@ == self@.id_at(self@.cell_of(p).0, self@.cell_of(p).1),
    {
        let i = self.cell_index(p);
        self.map[i]
    }

    /// Identifier of the tile at world point `p`, as a number.
    pub fn tile_id_num_at(&self, p: Vec2i) -> (r: usize)
        requires
            self.wf(),
            self@.holds_point(p),
        ensures
            r == self@.id_at(self@.cell_of(p).0, self@.cell_of(p).1),
    {
        let i = self.cell_index(p);
        self.map[i].0
    }

    /// Columns and rows.
    pub fn size(&self) -> (r: (usize, usize))
        ensures
            r.0 == self@.cols,
            r.1 == self@.rows,
    {
        self.dims
    }

    /// The tile at world point `p`.
    pub fn tile_at(&self, p: Vec2i) -> (r: Tile)
        requires
            self.wf(),
            self@.holds_point(p),
        ensures
            r == self@.tileset.tiles@[self@.id_at(self@.cell_of(p).0, self@.cell_of(p).1) as int],
    {
        let id = self.tile_id_at(p);
        proof {
            lemma_cell_index(self@.cols as int, self@.rows as int, self@.cell_of(p).0, self@.cell_of(p).1);
        }
        *self.tileset.index(id)
    }

    /// Stores `id` in the cell that world point `p` falls in. The identifier must
    /// belong to the tileset, so the map stays drawable.
    pub fn set_tile_at(&mut self, p: Vec2i, id: usize)
        requires
            old(self).wf(),
            old(self)@.holds_point(p),
            id < old(self)@.tileset.tiles@.len(),
        ensures
            final(self).wf(),
            final(self)@ == (TilemapView {
                ids: old(self)@.ids.update(old(self)@.cell_of(p).1 * old(self)@.cols + old(self)@.cell_of(p).0, id),
                ..old(self)@
            }),
    {
        let i = self.cell_index(p);
        self.map.set(i, TileID(id));
        proof {
            assert(self@.ids =~= old(self)@.ids.update(i as int, id));
        }
    }

    /// Draws every cell that the screen's camera can see, row by row, each with one
    /// blit of its tile's square at the cell's world position.
    pub fn draw(&self, screen: &mut Screen)
        requires
            self.wf(),
            self@.tileset.wf(),
            old(screen)@.wf(),
            self@.position.0 + self@.cols * TILE_SZ <= i32::MAX,
            self@.position.1 + self@.rows * TILE_SZ <= i32::MAX,
        ensures
            final(screen)@ == draw_map(old(screen)@, self@.texture(), self@),
    {
        let ghost s0 = screen@;
        let ghost m = self@;
        let ghost tex = m.texture();
        let b = screen.bounds();
        let t = TILE_SZ as i64;
        let cols = self.dims.0;
        let rows = self.dims.1;
        let n = self.map.len();
        let left = clamp((b.x as i64 - self.position.0 as i64) / t, cols as i64) as usize;
        let right = clamp((b.x as i64 + (b.w as i64 + t) - self.position.0 as i64) / t, cols as i64) as usize;
        let top = clamp((b.y as i64 - self.position.1 as i64) / t, rows as i64) as usize;
        let bot = clamp((b.y as i64 + (b.h as i64 + t) - self.position.1 as i64) / t, rows as i64) as usize;
        assert(m.window(s0.camera, s0.width as int, s0.height as int) == (left as int, right as int, top as int, bot as int));
        let mut y = top;
        while y < bot
            invariant
                self.wf(),
                self@ == m,
                tex == m.texture(),
                m.tileset.wf(),
                m.position.0 + m.cols * TILE_SZ <= i32::MAX,
                m.position.1 + m.rows * TILE_SZ <= i32::MAX,
                cols == m.cols,
                rows == m.rows,
                n == self.map@.len(),
                t == TILE_SZ,
                left <= right <= cols,
                top <= y <= bot,
                bot <= rows,
                screen@.wf(),
                screen@ == draw_rows(s0, tex, m, top as int, y as int, left as int, right as int),
            decreases bot - y,
        {
            let ghost row_start = screen@;
            let mut x = left;
            while x < right
                invariant
                    self.wf(),
                    self@ == m,
                    tex == m.texture(),
                    m.tileset.wf(),
                    m.position.0 + m.cols * TILE_SZ <= i32::MAX,
                    m.position.1 + m.rows * TILE_SZ <= i32::MAX,
                    cols == m.cols,
                    rows == m.rows,
                    n == self.map@.len(),
                    t == TILE_SZ,
                    left <= x <= right,
                    right <= cols,
                    top <= y < bot,
                    bot <= rows,
                    row_start == draw_rows(s0, tex, m, top as int, y as int, left as int, right as int),
                    screen@.wf(),
                    screen@ == draw_row(row_start, tex, m, y as int, left as int, x as int),
                decreases right - x,
            {
                proof {
                    lemma_cell_index(cols as int, rows as int, x as int, y as int);
                    assert(m.ids.len() == n);
                    assert(x * 16 < cols * 16) by (nonlinear_arith)
                        requires
                            x < cols,
                    ;
                    assert(y * 16 < rows * 16) by (nonlinear_arith)
                        requires
                            y < rows,
                    ;
                }
                let id = self.map[y * cols + x];
                proof {
                    assert(id@ == m.id_at(x as int, y as int));
                    lemma_tile_rect_inside(m.tileset, id@ as int);
                }
                let frame = self.tileset.get_rect(id);
                let to = Vec2i((x as i64 * t + self.position.0 as i64) as i32, (y as i64 * t + self.position.1 as i64) as i32);
                screen.bitblt(&self.tileset.texture, frame, to);
                x += 1;
            }
            y += 1;
        }
    }
}

} // verus!
