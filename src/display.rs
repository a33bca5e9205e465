//! The 64x32 monochrome framebuffer and its XOR sprite blit.
use vstd::prelude::*;

verus! {

pub const WIDTH: u8 = 64;

pub const HEIGHT: u8 = 32;

const SPRITE_WIDTH: u8 = 8;

const TOTAL_PIXELS: usize = 2048;

/// A lit cell of the screen.
#[derive(Debug, Clone, Copy, PartialEq, Eq, Structural)]
pub struct Pixel {
    pub x: u8,
    pub y: u8,
    pub value: u8,
}

/// The lit cells of a screen, in row-major order.
pub type Pixels = Vec<Pixel>;

/// Rows of eight pixels, to be drawn with their top-left corner at (x, y).
pub struct Sprite {
    x: u8,
    y: u8,
    data: Vec<u8>,
}

impl Sprite {
    pub closed spec fn spec_x(&self) -> u8 {
        self.x
    }

    pub closed spec fn spec_y(&self) -> u8 {
        self.y
    }

    pub closed spec fn rows(&self) -> Seq<u8> {
        self.data@
    }

    pub fn new(x: u8, y: u8, data: Vec<u8>) -> (r: Self)
        ensures
            r.spec_x() == x,
            r.spec_y() == y,
            r.rows() == data@,
    {
        Sprite { x, y, data }
    }
}

/// The screen: one cell per pixel, row-major, each 0 (dark) or 1 (lit).
pub struct Screen {
    pixels: [u8; TOTAL_PIXELS],
}

/// Whether column `col` (0 is the leftmost) of a sprite row is set.
pub open spec fn row_bit(row: u8, col: u8) -> bool {
    row & (0x80u8 >> col) != 0
}

/// Whether a sprite drawn at (x, y) sets cell `i`: the cell lies within the
/// sprite's eight columns and its rows, and the sprite's bit there is set.
/// Columns past the right edge and rows past the bottom have no cell.
pub open spec fn covers(x: u8, y: u8, data: Seq<u8>, i: int) -> bool {
    let cx = i % 64;
    let cy = i / 64;
    &&& 0 <= i < 2048
    &&& x <= cx < x + 8
    &&& y <= cy < y + data.len()
    &&& row_bit(data[cy - y], (cx - x) as u8)
}

/// A cell's value with its bit flipped.
pub open spec fn toggle(b: u8) -> u8 {
    if b == 0 {
        1
    } else {
        0
    }
}

/// The cells after XOR-drawing the sprite.
pub open spec fn drawn(cells: Seq<u8>, x: u8, y: u8, data: Seq<u8>) -> Seq<u8> {
    Seq::new(
        cells.len(),
        |i: int|
            if covers(x, y, data, i) {
                toggle(cells[i])
            } else {
                cells[i]
            },
    )
}

/// Whether drawing the sprite turns a lit cell off.
pub open spec fn collides(cells: Seq<u8>, x: u8, y: u8, data: Seq<u8>) -> bool {
    exists|i: int| covers(x, y, data, i) && cells[i] == 1
}

/// Cells of a well-formed screen: 2048 of them, each 0 or 1.
pub open spec fn cells_wf(cells: Seq<u8>) -> bool {
    &&& cells.len() == 2048
    &&& forall|i: int| 0 <= i < 2048 ==> #[trigger] cells[i] <= 1
}

/// The lit cells among the first `n`, as pixels in row-major order.
pub open spec fn lit_pixels(cells: Seq<u8>, n: int) -> Seq<Pixel>
    decreases n,
{
    if n <= 0 {
        Seq::empty()
    } else {
        let before = lit_pixels(cells, n - 1);
        let i = n - 1;
        if cells[i] != 0 {
            before.push(Pixel { x: (i % 64) as u8, y: (i / 64) as u8, value: cells[i] })
        } else {
            before
        }
    }
}

/// The lit cells of a screen, as pixels in row-major order.
pub open spec fn screen_pixels(cells: Seq<u8>) -> Seq<Pixel> {
    lit_pixels(cells, 2048)
}

/// Drawing the same sprite twice at the same place restores the screen. On
/// a screen where the first draw collides with nothing, the second draw
/// collides as soon as the sprite sets any cell; on a blank screen the first
/// draw never collides.
pub proof fn lemma_draw_twice(cells: Seq<u8>, x: u8, y: u8, data: Seq<u8>)
    requires
        cells_wf(cells),
    ensures
        drawn(drawn(cells, x, y, data), x, y, data) == cells,
        !collides(cells, x, y, data) && (exists|i: int| covers(x, y, data, i)) ==> collides(
            drawn(cells, x, y, data),
            x,
            y,
            data,
        ),
        (forall|i: int| 0 <= i < 2048 ==> cells[i] == 0) ==> !collides(cells, x, y, data),
{
    let once = drawn(cells, x, y, data);
    assert(drawn(once, x, y, data) =~= cells);
    if !collides(cells, x, y, data) && (exists|i: int| covers(x, y, data, i)) {
        let i = choose|i: int| covers(x, y, data, i);
        assert(cells[i] <= 1);
        assert(once[i] == 1);
    }
}

/// The cell at column `cx`, row `cy`.
proof fn lemma_cell_index(cx: int, cy: int)
    requires
        0 <= cx < 64,
        0 <= cy,
    ensures
        (cy * 64 + cx) % 64 == cx,
        (cy * 64 + cx) / 64 == cy,
{
    assert((cy * 64 + cx) % 64 == cx && (cy * 64 + cx) / 64 == cy) by (nonlinear_arith)
        requires 0 <= cx < 64, 0 <= cy;
}

impl Default for Screen {
    /// A screen with every cell off.
    fn default() -> (r: Screen)
        ensures
            r.wf(),
            forall|i: int| 0 <= i < 2048 ==> r.cells()[i] == 0,
    {
        Screen { pixels: [0u8; TOTAL_PIXELS] }
    }
}

impl Screen {
    pub closed spec fn cells(&self) -> Seq<u8> {
        self.pixels@
    }

    pub open spec fn wf(&self) -> bool {
        cells_wf(self.cells())
    }

    /// Turns every cell off.
    pub fn clear(&mut self)
        ensures
            final(self).wf(),
            forall|i: int| 0 <= i < 2048 ==> final(self).cells()[i] == 0,
    {
        self.pixels = [0u8; TOTAL_PIXELS];
    }

    /// XOR-draws the sprite; returns whether a lit cell was turned off (1) or
    /// not (0), or `None`, with no change, when the sprite's corner lies off
    /// the screen.
    pub fn draw(&mut self, sprite: Sprite) -> (r: Option<u8>)
        requires
            old(self).wf(),
        ensures
            final(self).wf(),
            if sprite.spec_x() >= 64 || sprite.spec_y() >= 32 {
                r.is_none() && final(self).cells() == old(self).cells()
            } else {
                &&& final(self).cells() == drawn(
                    old(self).cells(),
                    sprite.spec_x(),
                    sprite.spec_y(),
                    sprite.rows(),
                )
                &&& r == Some(
                    if collides(old(self).cells(), sprite.spec_x(), sprite.spec_y(), sprite.rows()) {
                        1u8
                    } else {
                        0u8
                    },
                )
            },
    {
        if sprite.x >= WIDTH || sprite.y >= HEIGHT {
            return None;
        }
        let ghost old_cells = self.pixels@;
        let ghost x = sprite.x;
        let ghost y = sprite.y;
        let ghost data = sprite.data@;

        let mut vf: u8 = 0;
        let width: u8 = if sprite.x >= (WIDTH - SPRITE_WIDTH) {
            WIDTH - sprite.x
        } else {
            SPRITE_WIDTH
        };

        let mut h: usize = 0;
        while h < sprite.data.len() && (sprite.y as usize) + h < (HEIGHT as usize)
            invariant
                x == sprite.x,
                y == sprite.y,
                data == sprite.data@,
                x < 64,
                y < 32,
                width == if x >= 56 { 64 - x } else { 8 },
                h <= data.len(),
                y + h <= 32,
                cells_wf(old_cells),
                forall|i: int|
                    0 <= i < 2048 ==> #[trigger] self.pixels@[i] == if covers(x, y, data, i) && i
                        / 64 < y + h {
                        toggle(old_cells[i])
                    } else {
                        old_cells[i]
                    },
                vf <= 1,
                vf == 1 <==> exists|i: int|
                    covers(x, y, data, i) && i / 64 < y + h && #[trigger] old_cells[i] == 1,
            decreases data.len() - h,
        {
            let v = sprite.data[h];
            let mut w: u8 = 0;
            while w < width
                invariant
                    x == sprite.x,
                    y == sprite.y,
                    data == sprite.data@,
                    x < 64,
                    y < 32,
                    width == if x >= 56 { 64 - x } else { 8 },
                    h < data.len(),
                    y + h < 32,
                    v == data[h as int],
                    w <= width,
                    cells_wf(old_cells),
                    forall|i: int|
                        0 <= i < 2048 ==> #[trigger] self.pixels@[i] == if covers(x, y, data, i) && (
                        i / 64 < y + h || (i / 64 == y + h && i % 64 < x + w)) {
                            toggle(old_cells[i])
                        } else {
                            old_cells[i]
                        },
                    vf <= 1,
                    vf == 1 <==> exists|i: int|
                        covers(x, y, data, i) && (i / 64 < y + h || (i / 64 == y + h && i % 64 < x
                            + w)) && #[trigger] old_cells[i] == 1,
                decreases width - w,
            {
                if v & (0x80 >> w) != 0 {
                    let row: usize = (sprite.y as usize) + h;
                    assert(row * 64 < 2048) by (nonlinear_arith)
                        requires row < 32;
                    let index: usize = row * 64 + (sprite.x as usize) + (w as usize);
                    proof {
                        lemma_cell_index(x + w, y + h);
                        assert(covers(x, y, data, index as int));
                    }
                    let cell = self.pixels[index];
                    if cell == 1 {
                        vf = 1;
                    }
                    assert(cell <= 1 ==> (cell ^ 1u8) == if cell == 0 { 1u8 } else { 0u8 }) by (bit_vector);
                    self.pixels[index] = cell ^ 1;
                    proof {
                        assert forall|i: int|
                            #[trigger] covers(x, y, data, i) && i / 64 == y + h && i % 64 == x + w
                                implies i == index by {
                            lemma_cell_index(i % 64, i / 64);
                        }
                    }
                } else {
                    proof {
                        assert forall|i: int|
                            0 <= i < 2048 && i / 64 == y + h && i % 64 == x + w implies !#[trigger] covers(x, y, data, i) by {}
                    }
                }
                w = w + 1;
            }
            h = h + 1;
        }
        proof {
            assert forall|i: int| 0 <= i < 2048 && #[trigger] covers(x, y, data, i) implies i / 64 < y
                + h by {}
            assert(self.pixels@ =~= drawn(old_cells, x, y, data));
        }
        Some(vf)
    }

    /// The lit cells, in row-major order.
    pub fn pixels(&self) -> (r: Pixels)
        ensures
            r@ == screen_pixels(self.cells()),
    {
        let mut r: Pixels = Vec::new();
        let mut i: usize = 0;
        while i < TOTAL_PIXELS
            invariant
                i <= 2048,
                r@ == lit_pixels(self.pixels@, i as int),
            decreases 2048 - i,
        {
            let value = self.pixels[i];
            if value != 0 {
                let x = (i % (WIDTH as usize)) as u8;
                let y = (i / (WIDTH as usize)) as u8;
                r.push(Pixel { x, y, value });
            }
            i = i + 1;
        }
        r
    }
}

} // verus!
