//! The 64 by 32 pixel grid the machine draws on, with XOR-draw and
//! collision semantics, and the capability a renderer must offer.

use vstd::prelude::*;

use crate::error::RenderError;
use crate::ram::{Ram, RAM_SIZE};

verus! {

/// Pixels across the screen.
pub const SCREEN_WIDTH: usize = 64;

/// Pixels down the screen.
pub const SCREEN_HEIGHT: usize = 32;

/// The position of cell `(x, y)` in the flat pixel sequence: columns are
/// stored one after the other, `SCREEN_HEIGHT` cells each.
pub open spec fn fb_index(x: int, y: int) -> int {
    x * 32 + y
}

/// A screen of nothing but unlit pixels.
pub open spec fn blank_screen() -> Seq<bool> {
    Seq::new(2048, |idx: int| false)
}

/// The grid of 64 by 32 boolean cells the draw instruction XORs sprites
/// onto. A cell holds the parity of every sprite pixel XORed onto it since
/// the last clear.
pub struct FrameBuffer {
    pixels: Vec<bool>,
}

impl View for FrameBuffer {
    type V = Seq<bool>;

    closed spec fn view(&self) -> Seq<bool> {
        self.pixels@
    }
}

impl FrameBuffer {
    /// The grid always holds one cell per screen position.
    pub open spec fn wf(&self) -> bool {
        self@.len() == 2048
    }

    /// A fresh frame buffer with every pixel unlit.
    pub fn new() -> (r: Self)
        ensures
            r.wf(),
            r@ == blank_screen(),
    {
        let r = FrameBuffer { pixels: vec![false; 2048] };
        proof {
            assert(r@ =~= blank_screen());
        }
        r
    }

    /// Reads the pixel at `(x, y)`.
    pub fn get(&self, x: usize, y: usize) -> (r: bool)
        requires
            self.wf(),
            x < SCREEN_WIDTH,
            y < SCREEN_HEIGHT,
        ensures
            r == self@[fb_index(x as int, y as int)],
    {
        proof {
            lemma_fb_index_bounds(x as int, y as int);
        }
        self.pixels[x * 32 + y]
    }

    /// Unsets every pixel.
    pub fn clear(&mut self)
        ensures
            final(self).wf(),
            final(self)@ == blank_screen(),
    {
        self.pixels = vec![false; 2048];
        proof {
            assert(self@ =~= blank_screen());
        }
    }
}

impl Default for FrameBuffer {
    /// A fresh frame buffer with every pixel unlit.
    fn default() -> (r: Self)
        ensures
            r.wf(),
            r@ == blank_screen(),
    {
        FrameBuffer::new()
    }
}

/// A cell's position is inside the flat sequence exactly when its
/// coordinates are on the screen.
pub proof fn lemma_fb_index_bounds(x: int, y: int)
    requires
        0 <= x < 64,
        0 <= y < 32,
    ensures
        0 <= fb_index(x, y) < 2048,
        fb_index(x, y) / 32 == x,
        fb_index(x, y) % 32 == y,
{
    assert(0 <= x * 32 + y < 2048 && (x * 32 + y) / 32 == x && (x * 32 + y) % 32 == y)
        by (nonlinear_arith)
        requires
            0 <= x < 64,
            0 <= y < 32,
    ;
}

/// Two distinct on-screen cells occupy distinct positions in the flat
/// sequence.
pub proof fn lemma_fb_index_injective(x1: int, y1: int, x2: int, y2: int)
    requires
        0 <= x1 < 64,
        0 <= y1 < 32,
        0 <= x2 < 64,
        0 <= y2 < 32,
        fb_index(x1, y1) == fb_index(x2, y2),
    ensures
        x1 == x2 && y1 == y2,
{
    lemma_fb_index_bounds(x1, y1);
    lemma_fb_index_bounds(x2, y2);
}

/// The sprite-row bit that lands `col` cells right of the sprite's
/// origin: bit 7 is the leftmost column.
pub open spec fn sprite_bit(row: u8, col: int) -> bool {
    (row & (1u8 << ((7 - col) as u8))) != 0
}

/// Whether drawing a sprite of `n` rows at origin `(px, py)` reaches the
/// cell `(x, y)`: inside the 8-wide, `n`-tall sprite box, clipped at the
/// right and bottom screen edges.
pub open spec fn in_sprite(px: int, py: int, n: int, x: int, y: int) -> bool {
    px <= x < px + 8 && x < 64 && py <= y < py + n && y < 32
}

/// The value cell `(x, y)` takes when a sprite row covers it: the old
/// value XORed with the sprite bit.
pub open spec fn draw_cell(
    fb: Seq<bool>,
    ram: Seq<u8>,
    i: int,
    px: int,
    py: int,
    x: int,
    y: int,
) -> bool {
    fb[fb_index(x, y)] != sprite_bit(ram[i + (y - py)], x - px)
}

/// Whether the draw turns the already-lit cell `(x, y)` off: the cell was
/// set and the sprite bit aimed at it is set too.
pub open spec fn draw_hit(
    fb: Seq<bool>,
    ram: Seq<u8>,
    i: int,
    px: int,
    py: int,
    x: int,
    y: int,
) -> bool {
    fb[fb_index(x, y)] && sprite_bit(ram[i + (y - py)], x - px)
}

/// Whether the cell `(x, y)` has been processed once the rows before `r`
/// are done and row `r` is done up to column `c`.
pub open spec fn covered(px: int, py: int, r: int, c: int, x: int, y: int) -> bool {
    y - py < r || (y - py == r && x - px < c)
}

/// The screen after the processed part of a draw: every reached cell that
/// the first `r` rows, plus `c` columns of row `r`, have processed holds
/// its XORed value; every other cell is untouched.
pub open spec fn draw_partial(
    fb: Seq<bool>,
    ram: Seq<u8>,
    i: int,
    px: int,
    py: int,
    n: int,
    r: int,
    c: int,
) -> Seq<bool> {
    Seq::new(
        2048,
        |idx: int|
            {
                let x = idx / 32;
                let y = idx % 32;
                if in_sprite(px, py, n, x, y) && covered(px, py, r, c, x, y) {
                    draw_cell(fb, ram, i, px, py, x, y)
                } else {
                    fb[idx]
                }
            },
    )
}

/// The screen after a whole draw of `n` sprite rows at `(px, py)`.
pub open spec fn draw_screen(
    fb: Seq<bool>,
    ram: Seq<u8>,
    i: int,
    px: int,
    py: int,
    n: int,
) -> Seq<bool> {
    draw_partial(fb, ram, i, px, py, n, n, 0)
}

/// Whether the processed part of a draw has turned any lit cell off.
pub open spec fn collision_partial(
    fb: Seq<bool>,
    ram: Seq<u8>,
    i: int,
    px: int,
    py: int,
    n: int,
    r: int,
    c: int,
) -> bool {
    exists|x: int, y: int|
        in_sprite(px, py, n, x, y) && covered(px, py, r, c, x, y) && #[trigger] draw_hit(
            fb,
            ram,
            i,
            px,
            py,
            x,
            y,
        )
}

/// Whether a whole draw turns any lit cell off: the collision flag the
/// draw instruction leaves in register VF.
pub open spec fn draw_collision(
    fb: Seq<bool>,
    ram: Seq<u8>,
    i: int,
    px: int,
    py: int,
    n: int,
) -> bool {
    collision_partial(fb, ram, i, px, py, n, n, 0)
}

/// How many sprite rows a draw of `n` rows at vertical origin `py`
/// actually touches: the rest fall below the screen and are clipped.
pub open spec fn visible_rows(py: int, n: int) -> int {
    if 32 - py < n {
        32 - py
    } else {
        n
    }
}

/// Whether every sprite row a draw touches can be read from memory:
/// the addresses `i` up to `i + visible_rows - 1` are all in bounds.
pub open spec fn sprite_readable(i: int, py: int, n: int) -> bool {
    visible_rows(py, n) == 0 || i + visible_rows(py, n) <= 4096
}

/// Processing one more visible cell extends the partial draw by exactly
/// that cell's XOR, and the partial collision by exactly that cell's hit.
proof fn lemma_draw_step_cell(
    fb: Seq<bool>,
    ram: Seq<u8>,
    i: int,
    px: int,
    py: int,
    n: int,
    r: int,
    c: int,
)
    requires
        fb.len() == 2048,
        0 <= px < 64,
        0 <= py < 32,
        0 <= r < n,
        0 <= c < 8,
        px + c < 64,
        py + r < 32,
    ensures
        draw_partial(fb, ram, i, px, py, n, r, c + 1) == draw_partial(
            fb,
            ram,
            i,
            px,
            py,
            n,
            r,
            c,
        ).update(fb_index(px + c, py + r), draw_cell(fb, ram, i, px, py, px + c, py + r)),
        collision_partial(fb, ram, i, px, py, n, r, c + 1) <==> (collision_partial(
            fb,
            ram,
            i,
            px,
            py,
            n,
            r,
            c,
        ) || draw_hit(fb, ram, i, px, py, px + c, py + r)),
{
    let tx = px + c;
    let ty = py + r;
    lemma_fb_index_bounds(tx, ty);
    let tidx = fb_index(tx, ty);
    let before = draw_partial(fb, ram, i, px, py, n, r, c);
    let after = draw_partial(fb, ram, i, px, py, n, r, c + 1);
    assert forall|idx: int| 0 <= idx < 2048 implies after[idx] == before.update(
        tidx,
        draw_cell(fb, ram, i, px, py, tx, ty),
    )[idx] by {
        let x = idx / 32;
        let y = idx % 32;
        lemma_fb_index_bounds(x, y);
        if idx == tidx {
            lemma_fb_index_injective(x, y, tx, ty);
        }
    }
    assert(after =~= before.update(tidx, draw_cell(fb, ram, i, px, py, tx, ty)));
    if collision_partial(fb, ram, i, px, py, n, r, c + 1) {
        let (x, y) = choose|x: int, y: int|
            in_sprite(px, py, n, x, y) && covered(px, py, r, c + 1, x, y) && #[trigger] draw_hit(
                fb,
                ram,
                i,
                px,
                py,
                x,
                y,
            );
        if !covered(px, py, r, c, x, y) {
            assert(x == tx && y == ty);
        }
    }
    if collision_partial(fb, ram, i, px, py, n, r, c) {
        let (x, y) = choose|x: int, y: int|
            in_sprite(px, py, n, x, y) && covered(px, py, r, c, x, y) && #[trigger] draw_hit(
                fb,
                ram,
                i,
                px,
                py,
                x,
                y,
            );
        assert(covered(px, py, r, c + 1, x, y));
    }
    if draw_hit(fb, ram, i, px, py, tx, ty) {
        assert(in_sprite(px, py, n, tx, ty));
        assert(covered(px, py, r, c + 1, tx, ty));
    }
}

/// Once a row has run off the right screen edge, or all eight of its
/// columns are done, the partial draw equals the one with the next row
/// about to start.
proof fn lemma_draw_row_done(
    fb: Seq<bool>,
    ram: Seq<u8>,
    i: int,
    px: int,
    py: int,
    n: int,
    r: int,
    c: int,
)
    requires
        fb.len() == 2048,
        0 <= px,
        0 <= r < n,
        0 <= c <= 8,
        c == 8 || px + c >= 64,
    ensures
        draw_partial(fb, ram, i, px, py, n, r, c) == draw_partial(fb, ram, i, px, py, n, r + 1, 0),
        collision_partial(fb, ram, i, px, py, n, r, c) <==> collision_partial(
            fb,
            ram,
            i,
            px,
            py,
            n,
            r + 1,
            0,
        ),
{
    let a = draw_partial(fb, ram, i, px, py, n, r, c);
    let b = draw_partial(fb, ram, i, px, py, n, r + 1, 0);
    assert forall|idx: int| 0 <= idx < 2048 implies a[idx] == b[idx] by {
        let x = idx / 32;
        let y = idx % 32;
        lemma_fb_index_bounds(x, y);
    }
    assert(a =~= b);
    if collision_partial(fb, ram, i, px, py, n, r, c) {
        let (x, y) = choose|x: int, y: int|
            in_sprite(px, py, n, x, y) && covered(px, py, r, c, x, y) && #[trigger] draw_hit(
                fb,
                ram,
                i,
                px,
                py,
                x,
                y,
            );
        assert(covered(px, py, r + 1, 0, x, y));
    }
    if collision_partial(fb, ram, i, px, py, n, r + 1, 0) {
        let (x, y) = choose|x: int, y: int|
            in_sprite(px, py, n, x, y) && covered(px, py, r + 1, 0, x, y) && #[trigger] draw_hit(
                fb,
                ram,
                i,
                px,
                py,
                x,
                y,
            );
        assert(covered(px, py, r, c, x, y));
    }
}

/// Once the next row would fall below the bottom screen edge, the partial
/// draw equals the whole draw: the remaining rows are clipped.
proof fn lemma_draw_rows_clipped(
    fb: Seq<bool>,
    ram: Seq<u8>,
    i: int,
    px: int,
    py: int,
    n: int,
    r: int,
)
    requires
        fb.len() == 2048,
        0 <= py,
        0 <= r <= n,
        py + r >= 32,
    ensures
        draw_partial(fb, ram, i, px, py, n, r, 0) == draw_screen(fb, ram, i, px, py, n),
        collision_partial(fb, ram, i, px, py, n, r, 0) <==> draw_collision(fb, ram, i, px, py, n),
{
    let a = draw_partial(fb, ram, i, px, py, n, r, 0);
    let b = draw_partial(fb, ram, i, px, py, n, n, 0);
    assert forall|idx: int| 0 <= idx < 2048 implies a[idx] == b[idx] by {
        let x = idx / 32;
        let y = idx % 32;
        lemma_fb_index_bounds(x, y);
    }
    assert(a =~= b);
    if collision_partial(fb, ram, i, px, py, n, r, 0) {
        let (x, y) = choose|x: int, y: int|
            in_sprite(px, py, n, x, y) && covered(px, py, r, 0, x, y) && #[trigger] draw_hit(
                fb,
                ram,
                i,
                px,
                py,
                x,
                y,
            );
        assert(covered(px, py, n, 0, x, y));
    }
    if collision_partial(fb, ram, i, px, py, n, n, 0) {
        let (x, y) = choose|x: int, y: int|
            in_sprite(px, py, n, x, y) && covered(px, py, n, 0, x, y) && #[trigger] draw_hit(
                fb,
                ram,
                i,
                px,
                py,
                x,
                y,
            );
        assert(covered(px, py, r, 0, x, y));
    }
}

impl FrameBuffer {
    /// XORs a sprite of `n` rows, read from memory at `i`, onto the screen
    /// at origin `(px, py)`; rows and columns past the screen edges are
    /// clipped, never wrapped. Returns whether any lit pixel was turned
    /// off.
    pub(crate) fn draw_sprite(
        &mut self,
        ram: &Ram,
        i: usize,
        px: usize,
        py: usize,
        n: usize,
    ) -> (hit: bool)
        requires
            old(self).wf(),
            ram.wf(),
            px < 64,
            py < 32,
            n <= 15,
            sprite_readable(i as int, py as int, n as int),
        ensures
            final(self).wf(),
            final(self)@ == draw_screen(old(self)@, ram@, i as int, px as int, py as int, n as int),
            hit == draw_collision(old(self)@, ram@, i as int, px as int, py as int, n as int),
    {
        let ghost fb0 = self@;
        let ghost gi = i as int;
        let ghost gpx = px as int;
        let ghost gpy = py as int;
        let ghost gn = n as int;
        let mut did_change = false;
        let mut row: usize = 0;
        while row < n && py + row < 32
            invariant
                self.wf(),
                ram.wf(),
                px < 64,
                py < 32,
                n <= 15,
                row <= n,
                gi == i as int,
                gpx == px as int,
                gpy == py as int,
                gn == n as int,
                sprite_readable(gi, gpy, gn),
                self@ == draw_partial(fb0, ram@, gi, gpx, gpy, gn, row as int, 0),
                did_change == collision_partial(fb0, ram@, gi, gpx, gpy, gn, row as int, 0),
                fb0.len() == 2048,
            decreases n - row,
        {
            let y = py + row;
            let sprite = ram.read(i + row);
            let mut col: usize = 0;
            while col < 8 && px + col < 64
                invariant
                    self.wf(),
                    ram.wf(),
                    px < 64,
                    py < 32,
                    n <= 15,
                    row < n,
                    y == py + row,
                    y < 32,
                    col <= 8,
                    gi == i as int,
                    gpx == px as int,
                    gpy == py as int,
                    gn == n as int,
                    sprite == ram@[gi + row as int],
                    gi + row < 4096,
                    self@ == draw_partial(fb0, ram@, gi, gpx, gpy, gn, row as int, col as int),
                    did_change == collision_partial(
                        fb0,
                        ram@,
                        gi,
                        gpx,
                        gpy,
                        gn,
                        row as int,
                        col as int,
                    ),
                    fb0.len() == 2048,
                decreases 8 - col,
            {
                let x = px + col;
                proof {
                    lemma_fb_index_bounds(x as int, y as int);
                    lemma_draw_step_cell(fb0, ram@, gi, gpx, gpy, gn, row as int, col as int);
                }
                let screen_pixel = self.pixels[x * 32 + y];
                let sprite_pixel = (sprite & (1u8 << ((7 - col) as u8))) != 0;
                self.pixels[x * 32 + y] = screen_pixel != sprite_pixel;
                proof {
                    assert(screen_pixel == fb0[fb_index(x as int, y as int)]);
                    assert(sprite_pixel == sprite_bit(ram@[gi + (y - gpy)], x - gpx));
                }
                did_change = did_change || (screen_pixel && sprite_pixel);
                col += 1;
            }
            proof {
                lemma_draw_row_done(fb0, ram@, gi, gpx, gpy, gn, row as int, col as int);
            }
            row += 1;
        }
        proof {
            if row < n {
                lemma_draw_rows_clipped(fb0, ram@, gi, gpx, gpy, gn, row as int);
            }
        }
        did_change
    }
}

/// Whether the sprite bit aimed at cell `(x, y)` by a draw at `(px, py)`
/// of `n` rows from memory at `i` is set and lands on the screen.
pub open spec fn sprite_shows(
    ram: Seq<u8>,
    i: int,
    px: int,
    py: int,
    n: int,
    x: int,
    y: int,
) -> bool {
    in_sprite(px, py, n, x, y) && sprite_bit(ram[i + (y - py)], x - px)
}

/// Drawing the same sprite twice at the same origin restores the screen:
/// every pixel the first draw set is cleared again, every pixel it
/// cleared is set again.
pub proof fn lemma_draw_involution(fb: Seq<bool>, ram: Seq<u8>, i: int, px: int, py: int, n: int)
    requires
        fb.len() == 2048,
        0 <= px < 64,
        0 <= py < 32,
    ensures
        draw_screen(draw_screen(fb, ram, i, px, py, n), ram, i, px, py, n) == fb,
{
    let fb1 = draw_screen(fb, ram, i, px, py, n);
    let fb2 = draw_screen(fb1, ram, i, px, py, n);
    assert forall|idx: int| 0 <= idx < 2048 implies fb2[idx] == fb[idx] by {
        let x = idx / 32;
        let y = idx % 32;
        lemma_fb_index_bounds(x, y);
    }
    assert(fb2 =~= fb);
}

/// A draw onto a blank screen reports no collision: there is no lit pixel
/// it could turn off.
pub proof fn lemma_draw_on_blank_no_collision(ram: Seq<u8>, i: int, px: int, py: int, n: int)
    requires
        0 <= px < 64,
        0 <= py < 32,
    ensures
        !draw_collision(blank_screen(), ram, i, px, py, n),
{
    if draw_collision(blank_screen(), ram, i, px, py, n) {
        let (x, y) = choose|x: int, y: int|
            in_sprite(px, py, n, x, y) && covered(px, py, n, 0, x, y) && #[trigger] draw_hit(
                blank_screen(),
                ram,
                i,
                px,
                py,
                x,
                y,
            );
        lemma_fb_index_bounds(x, y);
    }
}

/// Re-drawing a sprite that showed at least one pixel on a blank screen
/// reports a collision: the second draw turns that pixel off again.
pub proof fn lemma_redraw_collides(ram: Seq<u8>, i: int, px: int, py: int, n: int)
    requires
        0 <= px < 64,
        0 <= py < 32,
        exists|x: int, y: int| #[trigger] sprite_shows(ram, i, px, py, n, x, y),
    ensures
        draw_collision(draw_screen(blank_screen(), ram, i, px, py, n), ram, i, px, py, n),
{
    let fb1 = draw_screen(blank_screen(), ram, i, px, py, n);
    let (x, y) = choose|x: int, y: int| #[trigger] sprite_shows(ram, i, px, py, n, x, y);
    lemma_fb_index_bounds(x, y);
    assert(fb1[fb_index(x, y)] == draw_cell(blank_screen(), ram, i, px, py, x, y));
    assert(draw_hit(fb1, ram, i, px, py, x, y));
    assert(covered(px, py, n, 0, x, y));
}

/// After a clear, every cell of the screen reads unset.
pub proof fn lemma_clear_reads_unset(x: int, y: int)
    requires
        0 <= x < 64,
        0 <= y < 32,
    ensures
        !blank_screen()[fb_index(x, y)],
{
    lemma_fb_index_bounds(x, y);
}

/// Whether any renderer obligation holds of a frame: a renderer accepts a
/// snapshot of the grid and displays it, failing only on terminal
/// rendering errors of its own.
pub trait Render {
    /// Displays one snapshot of the frame buffer.
    fn draw(&mut self, frame_buffer: &FrameBuffer) -> Result<(), RenderError>;
}

} // verus!
