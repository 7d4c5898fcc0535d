//! The identicon itself: a symmetric 5x5 sprite drawn from a hash.

use vstd::prelude::*;

use crate::color::Color;
use crate::nibbler::{nibbles_of, Nibbler};
use crate::raster::{
    height_of, image_height, image_pixels, image_well_formed, image_width, new_filled_image,
    pixel_grid, set_image_pixel, width_of, Raster,
};

verus! {

/// Settings for drawing an identicon.
#[derive(Debug, Clone)]
pub struct IdenticonConfig {
    /// Width and height of the image, in pixels.
    pub size: u32,
    /// Width and height of one cell of the sprite, in pixels.
    pub pixel_size: u32,
    /// Background color.
    pub background: Color,
}

impl Default for IdenticonConfig {
    /// A 420 x 420 image with 70-pixel cells on a light grey background.
    fn default() -> (cfg: Self)
        ensures
            cfg.size == 420,
            cfg.pixel_size == 70,
            cfg.background == (Color { r: 240, g: 240, b: 240 }),
    {
        IdenticonConfig { size: 420, pixel_size: 70, background: Color { r: 240, g: 240, b: 240 } }
    }
}

/// The cell of the sprite at `row`, `col` in a row-major pattern.
pub open spec fn sprite_cell(pattern: Seq<bool>, row: int, col: int) -> bool {
    pattern[row * 5 + col]
}

/// The column of the left half (0, 1 or 2) whose cell column `col` repeats.
pub open spec fn mirror_column(col: int) -> int {
    if col <= 2 {
        col
    } else {
        4 - col
    }
}

/// The position, among the nibbles of the hash, of the nibble that decides
/// the cell at `row`, `col`: the left half is filled column by column.
pub open spec fn cell_nibble_index(row: int, col: int) -> int {
    mirror_column(col) * 5 + row
}

/// A cell is painted when its nibble exists and is even.
pub open spec fn cell_painted(hash: Seq<u8>, row: int, col: int) -> bool {
    let i = cell_nibble_index(row, col);
    i < nibbles_of(hash).len() && nibbles_of(hash)[i] % 2 == 0
}

/// The 5x5 sprite of a hash, row by row.
pub open spec fn pixel_pattern(hash: Seq<u8>) -> Seq<bool> {
    Seq::new(25, |i: int| cell_painted(hash, i / 5, i % 5))
}

/// The sprite of every hash is symmetric: column `col` equals column `4 - col`.
pub proof fn lemma_pattern_mirrored(hash: Seq<u8>, row: int, col: int)
    requires
        0 <= row < 5,
        0 <= col < 5,
    ensures
        sprite_cell(pixel_pattern(hash), row, col) == sprite_cell(pixel_pattern(hash), row, 4 - col),
{
    assert((row * 5 + col) / 5 == row && (row * 5 + col) % 5 == col);
    assert((row * 5 + 4 - col) / 5 == row && (row * 5 + 4 - col) % 5 == 4 - col);
}

/// How the sprite reads the hash, stated on its bytes: the left half
/// (columns 0 to 2) is filled column by column, top to bottom, from the
/// hash's nibbles in order, each byte giving its high nibble (`byte / 16`)
/// before its low one (`byte % 16`); a cell is painted when its nibble exists
/// and is even, and column `c` of the right half repeats column `4 - c`.
pub proof fn lemma_pattern_from_bytes(hash: Seq<u8>, row: int, col: int)
    requires
        0 <= row < 5,
        0 <= col < 5,
    ensures
        ({
            let left = if col <= 2 {
                col
            } else {
                4 - col
            };
            let k = 5 * left + row;
            sprite_cell(pixel_pattern(hash), row, col) <==> (k / 2 < hash.len() && (if k % 2 == 0 {
                (hash[k / 2] / 16) % 2 == 0
            } else {
                (hash[k / 2] % 16) % 2 == 0
            }))
        }),
{
    let left = if col <= 2 {
        col
    } else {
        4 - col
    };
    let k = 5 * left + row;
    assert((row * 5 + col) / 5 == row && (row * 5 + col) % 5 == col);
    assert(cell_nibble_index(row, col) == k);
    if k / 2 < hash.len() {
        let b = hash[k / 2];
        assert((b & 0xf0u8) >> 4u8 == b / 16 && b & 0x0fu8 == b % 16) by (bit_vector);
        assert(k < nibbles_of(hash).len());
    } else {
        assert(!(k < nibbles_of(hash).len()));
    }
}

/// Only the first eight bytes of a hash (its first fifteen nibbles) decide
/// the sprite: a hash and its first `min(len, 8)` bytes have the same one.
pub proof fn lemma_pattern_reads_first_eight_bytes(hash: Seq<u8>)
    ensures
        pixel_pattern(hash) == pixel_pattern(hash.take(if hash.len() < 8 {
            hash.len() as int
        } else {
            8
        })),
{
    let short = hash.take(if hash.len() < 8 {
        hash.len() as int
    } else {
        8
    });
    assert forall|i: int| 0 <= i < 25 implies pixel_pattern(hash)[i] == pixel_pattern(short)[i] by {
        let n = cell_nibble_index(i / 5, i % 5);
        assert(0 <= n <= 14);
        if n < nibbles_of(hash).len() {
            assert(n / 2 < short.len());
            assert(nibbles_of(hash)[n] == nibbles_of(short)[n]);
        }
    }
    assert(pixel_pattern(hash) =~= pixel_pattern(short));
}

/// Cell number `k` of a row (or column) of the sprite spans pixel line `v`:
/// cells are `pixel_size` wide and start after a margin of half a cell.
pub open spec fn cell_covers(pixel_size: u32, k: int, v: int) -> bool {
    let start = k * pixel_size + pixel_size / 2;
    start <= v < start + pixel_size
}

/// The painted cell at `row`, `col` covers the pixel at `x`, `y`.
pub open spec fn cell_covers_pixel(
    pattern: Seq<bool>,
    pixel_size: u32,
    row: int,
    col: int,
    x: int,
    y: int,
) -> bool {
    &&& 0 <= row < 5
    &&& 0 <= col < 5
    &&& sprite_cell(pattern, row, col)
    &&& cell_covers(pixel_size, col, x)
    &&& cell_covers(pixel_size, row, y)
}

/// Some painted cell covers the pixel at `x`, `y`.
pub open spec fn painted_at(pattern: Seq<bool>, pixel_size: u32, x: int, y: int) -> bool {
    exists|row: int, col: int| #[trigger] cell_covers_pixel(pattern, pixel_size, row, col, x, y)
}

/// Some painted cell among the first `done` (in row-major order) covers `x`, `y`.
pub open spec fn painted_among(
    pattern: Seq<bool>,
    pixel_size: u32,
    done: int,
    x: int,
    y: int,
) -> bool {
    exists|row: int, col: int|
        #[trigger] cell_covers_pixel(pattern, pixel_size, row, col, x, y) && row * 5 + col < done
}

/// The pixels of an identicon: the foreground where a painted cell lies,
/// the background elsewhere.
pub open spec fn identicon_pixels(
    pattern: Seq<bool>,
    config: IdenticonConfig,
    foreground: Color,
) -> Map<(u32, u32), (u8, u8, u8)> {
    Map::new(
        |p: (u32, u32)| p.0 < config.size && p.1 < config.size,
        |p: (u32, u32)|
            if painted_at(pattern, config.pixel_size, p.0 as int, p.1 as int) {
                foreground.channels()
            } else {
                config.background.channels()
            },
    )
}

/// The corners of every painted cell fit in `u32` coordinates.
pub open spec fn cells_fit(pattern: Seq<bool>, pixel_size: u32) -> bool {
    forall|row: int, col: int|
        0 <= row < 5 && 0 <= col < 5 && #[trigger] sprite_cell(pattern, row, col) ==> {
            &&& row * pixel_size + pixel_size / 2 + pixel_size <= u32::MAX
            &&& col * pixel_size + pixel_size / 2 + pixel_size <= u32::MAX
        }
}

/// `m` with every pixel of the rectangle `[x0, x1) x [y0, y1)` that it
/// holds set to `c`.
pub open spec fn paint_rect(
    m: Map<(u32, u32), (u8, u8, u8)>,
    x0: int,
    y0: int,
    x1: int,
    y1: int,
    c: (u8, u8, u8),
) -> Map<(u32, u32), (u8, u8, u8)> {
    Map::new(
        |p: (u32, u32)| m.dom().contains(p),
        |p: (u32, u32)|
            if x0 <= p.0 < x1 && y0 <= p.1 < y1 {
                c
            } else {
                m[p]
            },
    )
}

/// The image after drawing the first `done` cells (in row-major order)
/// onto the background.
pub open spec fn pixels_after_cells(
    pattern: Seq<bool>,
    config: IdenticonConfig,
    foreground: Color,
    done: int,
) -> Map<(u32, u32), (u8, u8, u8)> {
    Map::new(
        |p: (u32, u32)| p.0 < config.size && p.1 < config.size,
        |p: (u32, u32)|
            if painted_among(pattern, config.pixel_size, done, p.0 as int, p.1 as int) {
                foreground.channels()
            } else {
                config.background.channels()
            },
    )
}

/// Drawing cell number `row * 5 + col` (when it is painted) takes the
/// image after the cells before it to the image after that cell.
proof fn lemma_draw_next_cell(
    pattern: Seq<bool>,
    config: IdenticonConfig,
    foreground: Color,
    row: int,
    col: int,
)
    requires
        0 <= row < 5,
        0 <= col < 5,
    ensures
        ({
            let done = row * 5 + col;
            let ps = config.pixel_size;
            let x0 = col * ps + ps / 2;
            let y0 = row * ps + ps / 2;
            let before = pixels_after_cells(pattern, config, foreground, done);
            let after = pixels_after_cells(pattern, config, foreground, done + 1);
            &&& sprite_cell(pattern, row, col) ==> paint_rect(
                before,
                x0,
                y0,
                x0 + ps,
                y0 + ps,
                foreground.channels(),
            ) == after
            &&& !sprite_cell(pattern, row, col) ==> before == after
        }),
{
    let done = row * 5 + col;
    let ps = config.pixel_size;
    let x0 = col * ps + ps / 2;
    let y0 = row * ps + ps / 2;
    let before = pixels_after_cells(pattern, config, foreground, done);
    let after = pixels_after_cells(pattern, config, foreground, done + 1);
    assert forall|x: int, y: int|
        painted_among(pattern, ps, done + 1, x, y) <==> (painted_among(pattern, ps, done, x, y) || (
        sprite_cell(pattern, row, col) && x0 <= x < x0 + ps && y0 <= y < y0 + ps)) by {
        if painted_among(pattern, ps, done + 1, x, y) && !painted_among(pattern, ps, done, x, y) {
            let (r, c) = choose|r: int, c: int|
                #[trigger] cell_covers_pixel(pattern, ps, r, c, x, y) && r * 5 + c < done + 1;
            assert(r * 5 + c == done);
            assert(r == row && c == col);
        }
        if sprite_cell(pattern, row, col) && x0 <= x < x0 + ps && y0 <= y < y0 + ps {
            assert(cell_covers_pixel(pattern, ps, row, col, x, y));
        }
    }
    if sprite_cell(pattern, row, col) {
        let painted = paint_rect(before, x0, y0, x0 + ps, y0 + ps, foreground.channels());
        assert forall|p: (u32, u32)| #[trigger] after.dom().contains(p) implies painted[p]
            == after[p] by {
            assert(painted_among(pattern, ps, done + 1, p.0 as int, p.1 as int) <==> (
            painted_among(pattern, ps, done, p.0 as int, p.1 as int) || (x0 <= p.0 < x0 + ps && y0
                <= p.1 < y0 + ps)));
        }
        assert(painted =~= after);
    } else {
        assert(before =~= after);
    }
}

/// Once all 25 cells are drawn the image is the identicon.
proof fn lemma_all_cells_drawn(pattern: Seq<bool>, config: IdenticonConfig, foreground: Color)
    ensures
        pixels_after_cells(pattern, config, foreground, 25) == identicon_pixels(
            pattern,
            config,
            foreground,
        ),
{
    let ps = config.pixel_size;
    assert forall|x: int, y: int|
        painted_among(pattern, ps, 25, x, y) <==> painted_at(pattern, ps, x, y) by {
        if painted_at(pattern, ps, x, y) {
            let (r, c) = choose|r: int, c: int| #[trigger] cell_covers_pixel(pattern, ps, r, c, x, y);
            assert(cell_covers_pixel(pattern, ps, r, c, x, y) && r * 5 + c < 25);
        }
    }
    assert(pixels_after_cells(pattern, config, foreground, 25) =~= identicon_pixels(
        pattern,
        config,
        foreground,
    ));
}

/// Before any cell is drawn the image is the background.
proof fn lemma_no_cells_drawn(pattern: Seq<bool>, config: IdenticonConfig, foreground: Color)
    ensures
        pixels_after_cells(pattern, config, foreground, 0) == Map::new(
            |p: (u32, u32)| p.0 < config.size && p.1 < config.size,
            |p: (u32, u32)| config.background.channels(),
        ),
{
    assert(pixels_after_cells(pattern, config, foreground, 0) =~= Map::new(
        |p: (u32, u32)| p.0 < config.size && p.1 < config.size,
        |p: (u32, u32)| config.background.channels(),
    ));
}

/// A painted pixel mirrors to a painted pixel when the image is exactly
/// five cells plus two margins wide.
proof fn lemma_painted_mirrors(hash: Seq<u8>, pixel_size: u32, size: int, x: int, y: int)
    requires
        size == 5 * pixel_size + 2 * (pixel_size / 2),
        painted_at(pixel_pattern(hash), pixel_size, x, y),
    ensures
        painted_at(pixel_pattern(hash), pixel_size, size - 1 - x, y),
{
    let pattern = pixel_pattern(hash);
    let ps = pixel_size as int;
    let (r, c) = choose|r: int, c: int| #[trigger] cell_covers_pixel(pattern, pixel_size, r, c, x, y);
    lemma_pattern_mirrored(hash, r, c);
    assert((4 - c) * ps == 4 * ps - c * ps) by (nonlinear_arith);
    assert(cell_covers_pixel(pattern, pixel_size, r, 4 - c, size - 1 - x, y));
}

/// An identicon drawn on an image of exactly five cells plus two margins
/// (such as the default 420 pixels with 70-pixel cells) is symmetric: the
/// pixel at `x`, `y` equals the one at `size - 1 - x`, `y`.
pub proof fn lemma_identicon_mirrored(
    hash: Seq<u8>,
    config: IdenticonConfig,
    foreground: Color,
    x: u32,
    y: u32,
)
    requires
        config.size == 5 * config.pixel_size + 2 * (config.pixel_size / 2),
        x < config.size,
        y < config.size,
    ensures
        identicon_pixels(pixel_pattern(hash), config, foreground)[(x, y)] == identicon_pixels(
            pixel_pattern(hash),
            config,
            foreground,
        )[((config.size - 1 - x) as u32, y)],
{
    let size = config.size as int;
    let ps = config.pixel_size;
    let x2 = size - 1 - x;
    assert(size - 1 - x2 == x);
    if painted_at(pixel_pattern(hash), ps, x as int, y as int) {
        lemma_painted_mirrors(hash, ps, size, x as int, y as int);
    }
    if painted_at(pixel_pattern(hash), ps, x2, y as int) {
        lemma_painted_mirrors(hash, ps, size, x2, y as int);
    }
}

/// Where the foreground color of an identicon comes from.
#[derive(Debug, Clone, Copy, PartialEq, Eq, Structural)]
pub enum ForegroundSource {
    /// A fixed color, used when the hash is shorter than four bytes.
    Fixed(Color),
    /// A color in HSL space built from the last four bytes of the hash: the
    /// hue from the first two (big-endian), the saturation and lightness
    /// offsets from the last two.
    FromHash { hue: u16, saturation: u8, lightness: u8 },
}

/// The foreground source of a hash.
pub open spec fn foreground_source_of(hash: Seq<u8>) -> ForegroundSource {
    let n = hash.len();
    if n < 4 {
        ForegroundSource::Fixed(Color { r: 100, g: 100, b: 100 })
    } else {
        ForegroundSource::FromHash {
            hue: (hash[n - 4] * 256 + hash[n - 3]) as u16,
            saturation: hash[n - 2],
            lightness: hash[n - 1],
        }
    }
}

/// The foreground source depends only on the last four bytes of the hash:
/// the hue is the first two of them read big-endian, the saturation and
/// lightness offsets are the last two, whatever comes before.
pub proof fn lemma_foreground_from_last_four_bytes(prefix: Seq<u8>, a: u8, b: u8, c: u8, d: u8)
    ensures
        foreground_source_of(prefix + seq![a, b, c, d]) == foreground_source_of(seq![a, b, c, d]),
        foreground_source_of(prefix + seq![a, b, c, d]) matches ForegroundSource::FromHash {
            hue,
            saturation,
            lightness,
        } && hue / 256 == a && hue % 256 == b && saturation == c && lightness == d,
{
    let h = prefix + seq![a, b, c, d];
    let n = h.len();
    assert(h[n - 4] == a && h[n - 3] == b && h[n - 2] == c && h[n - 1] == d);
    assert(a * 256 + b < 65536) by (nonlinear_arith)
        requires
            a < 256,
            b < 256,
    ;
    let hue = (a * 256 + b) as u16;
    assert(hue / 256 == a && hue % 256 == b);
}

/// A hash shorter than four bytes gets the fixed grey (100, 100, 100).
pub proof fn lemma_foreground_of_short_hash(hash: Seq<u8>)
    requires
        hash.len() < 4,
    ensures
        foreground_source_of(hash) == ForegroundSource::Fixed(Color { r: 100, g: 100, b: 100 }),
{
}

/// An identicon generator for a hash.
pub struct Identicon<'a> {
    hash: &'a [u8],
    config: IdenticonConfig,
}

impl<'a> Identicon<'a> {
    /// The hash the identicon is drawn from.
    pub closed spec fn spec_hash(self) -> Seq<u8> {
        self.hash@
    }

    /// The settings the identicon is drawn with.
    pub closed spec fn spec_config(self) -> IdenticonConfig {
        self.config
    }

    /// A generator with the default settings.
    pub fn new(hash: &'a [u8]) -> (res: Self)
        ensures
            res.spec_hash() == hash@,
            res.spec_config().size == 420,
            res.spec_config().pixel_size == 70,
            res.spec_config().background == (Color { r: 240, g: 240, b: 240 }),
    {
        Identicon { hash, config: IdenticonConfig::default() }
    }

    /// A generator with the given settings.
    pub fn with_config(hash: &'a [u8], config: IdenticonConfig) -> (res: Self)
        ensures
            res.spec_hash() == hash@,
            res.spec_config() == config,
    {
        Identicon { hash, config }
    }

    /// Where the foreground color comes from: the last four bytes of the
    /// hash, or a fixed grey when the hash is shorter.
    pub fn foreground_source(&self) -> (res: ForegroundSource)
        ensures
            res == foreground_source_of(self.spec_hash()),
    {
        let hash_len = self.hash.len();
        if hash_len < 4 {
            return ForegroundSource::Fixed(Color { r: 100, g: 100, b: 100 });
        }
        let hue = (self.hash[hash_len - 4] as u16) * 256 + (self.hash[hash_len - 3] as u16);
        ForegroundSource::FromHash {
            hue,
            saturation: self.hash[hash_len - 2],
            lightness: self.hash[hash_len - 1],
        }
    }

    /// Fills the rectangle `[x0, x1) x [y0, y1)` of `image` with `color`,
    /// leaving out what lies outside the image.
    fn draw_rectangle(image: &mut Raster, x0: u32, y0: u32, x1: u32, y1: u32, color: Color)
        requires
            image_well_formed(*old(image)),
        ensures
            image_well_formed(*final(image)),
            image_width(*final(image)) == image_width(*old(image)),
            image_height(*final(image)) == image_height(*old(image)),
            image_pixels(*final(image)) == paint_rect(
                image_pixels(*old(image)),
                x0 as int,
                y0 as int,
                x1 as int,
                y1 as int,
                color.channels(),
            ),
    {
        let ghost start = image_pixels(*image);
        let ghost c = color.channels();
        let width = width_of(image);
        let height = height_of(image);
        let mut x = x0;
        if x0 >= x1 {
            assert(paint_rect(start, x0 as int, y0 as int, x1 as int, y1 as int, c) =~= start);
            return;
        }
        while x < x1
            invariant
                x0 <= x <= x1,
                c == color.channels(),
                width == image_width(*image),
                height == image_height(*image),
                image_well_formed(*image),
                image_pixels(*image) == paint_rect(start, x0 as int, y0 as int, x as int, y1 as int, c),
                start.dom() == pixel_grid(width, height),
            decreases x1 - x,
        {
            let ghost column_start = image_pixels(*image);
            let mut y = y0;
            if y0 < y1 {
                while y < y1
                    invariant
                        x0 <= x < x1,
                        y0 <= y <= y1,
                        c == color.channels(),
                        width == image_width(*image),
                        height == image_height(*image),
                        image_well_formed(*image),
                        column_start.dom() == pixel_grid(width, height),
                        image_pixels(*image) == paint_rect(
                            column_start,
                            x as int,
                            y0 as int,
                            x + 1,
                            y as int,
                            c,
                        ),
                    decreases y1 - y,
                {
                    let ghost before = image_pixels(*image);
                    if x < width && y < height {
                        set_image_pixel(image, x, y, color);
                    } else {
                        assert(!column_start.dom().contains((x, y)));
                    }
                    assert(image_pixels(*image).dom() =~= pixel_grid(width, height));
                    let ghost target = paint_rect(column_start, x as int, y0 as int, x + 1, y + 1, c);
                    assert forall|p: (u32, u32)| #[trigger] target.dom().contains(p) implies image_pixels(*image)[p] == target[p] by {
                        if p == (x, y) {
                        } else {
                            assert(before.dom().contains(p));
                            assert(image_pixels(*image)[p] == before[p]);
                        }
                    }
                    assert(image_pixels(*image) =~= paint_rect(
                        column_start,
                        x as int,
                        y0 as int,
                        x + 1,
                        y + 1,
                        c,
                    ));
                    y = y + 1;
                }
            }
            assert(image_pixels(*image) =~= paint_rect(
                start,
                x0 as int,
                y0 as int,
                x + 1,
                y1 as int,
                c,
            ));
            x = x + 1;
        }
    }

    /// Draws the identicon in `foreground`: a `size` x `size` image of the
    /// background color, with each painted cell of the sprite filled as a
    /// `pixel_size` square, offset by a margin of half a cell.
    pub fn generate(&self, foreground: Color) -> (img: Raster)
        requires
            3 * self.spec_config().size * self.spec_config().size <= isize::MAX,
            cells_fit(pixel_pattern(self.spec_hash()), self.spec_config().pixel_size),
        ensures
            image_width(img) == self.spec_config().size,
            image_height(img) == self.spec_config().size,
            image_well_formed(img),
            image_pixels(img) == identicon_pixels(
                pixel_pattern(self.spec_hash()),
                self.spec_config(),
                foreground,
            ),
    {
        let size = self.config.size;
        let pixel_size = self.config.pixel_size;
        let margin = pixel_size / 2;
        let mut image = new_filled_image(size, size, self.config.background);
        let pixels = self.generate_pixel_pattern();
        let ghost pattern = pixels@;
        let ghost config = self.config;
        proof {
            lemma_no_cells_drawn(pattern, config, foreground);
        }
        let mut row: usize = 0;
        while row < 5
            invariant
                row <= 5,
                pattern == pixels@,
                pattern == pixel_pattern(self.spec_hash()),
                config == self.spec_config(),
                size == config.size,
                pixel_size == config.pixel_size,
                margin == pixel_size / 2,
                cells_fit(pattern, pixel_size),
                image_width(image) == size,
                image_height(image) == size,
                image_well_formed(image),
                image_pixels(image) == pixels_after_cells(pattern, config, foreground, row * 5),
            decreases 5 - row,
        {
            let mut col: usize = 0;
            while col < 5
                invariant
                    row < 5,
                    col <= 5,
                    pattern == pixels@,
                    config == self.spec_config(),
                    size == config.size,
                    pixel_size == config.pixel_size,
                    margin == pixel_size / 2,
                    cells_fit(pattern, pixel_size),
                    image_width(image) == size,
                    image_height(image) == size,
                    image_well_formed(image),
                    image_pixels(image) == pixels_after_cells(
                        pattern,
                        config,
                        foreground,
                        row * 5 + col,
                    ),
                decreases 5 - col,
            {
                let should_paint = pixels[row * 5 + col];
                proof {
                    lemma_draw_next_cell(pattern, config, foreground, row as int, col as int);
                }
                if should_paint {
                    assert(sprite_cell(pattern, row as int, col as int));
                    let x = col as u32 * pixel_size + margin;
                    let y = row as u32 * pixel_size + margin;
                    Self::draw_rectangle(
                        &mut image,
                        x,
                        y,
                        x + pixel_size,
                        y + pixel_size,
                        foreground,
                    );
                }
                col = col + 1;
            }
            row = row + 1;
        }
        proof {
            lemma_all_cells_drawn(pattern, config, foreground);
        }
        image
    }

    /// Whether `generate` can draw this identicon: the image must fit in
    /// memory and every painted cell must have `u32` coordinates (else the
    /// drawing overflows).
    pub fn can_generate(&self) -> (ok: bool)
        ensures
            ok == (3 * self.spec_config().size * self.spec_config().size <= isize::MAX
                && cells_fit(pixel_pattern(self.spec_hash()), self.spec_config().pixel_size)),
    {
        let size = self.config.size as u128;
        assert(3 * size * size <= 3 * 0xffff_ffffu128 * 0xffff_ffffu128) by (nonlinear_arith)
            requires
                size <= 0xffff_ffffu128,
        ;
        if 3 * size * size > isize::MAX as u128 {
            return false;
        }
        let pixels = self.generate_pixel_pattern();
        let ghost pattern = pixels@;
        let ps = self.config.pixel_size as u64;
        let mut row: usize = 0;
        while row < 5
            invariant
                row <= 5,
                pattern == pixels@,
                pattern == pixel_pattern(self.spec_hash()),
                ps == self.spec_config().pixel_size,
                forall|r: int, c: int|
                    0 <= r < row && 0 <= c < 5 && #[trigger] sprite_cell(pattern, r, c) ==> {
                        &&& r * ps + ps / 2 + ps <= u32::MAX
                        &&& c * ps + ps / 2 + ps <= u32::MAX
                    },
            decreases 5 - row,
        {
            let mut col: usize = 0;
            while col < 5
                invariant
                    row < 5,
                    col <= 5,
                    pattern == pixels@,
                    pattern == pixel_pattern(self.spec_hash()),
                    ps == self.spec_config().pixel_size,
                    forall|r: int, c: int|
                        ((0 <= r < row && 0 <= c < 5) || (r == row && 0 <= c < col))
                            && #[trigger] sprite_cell(pattern, r, c) ==> {
                            &&& r * ps + ps / 2 + ps <= u32::MAX
                            &&& c * ps + ps / 2 + ps <= u32::MAX
                        },
                decreases 5 - col,
            {
                if pixels[row * 5 + col] {
                    assert(sprite_cell(pattern, row as int, col as int));
                    assert(row * ps <= 4 * 0xffff_ffffu64 && col * ps <= 4 * 0xffff_ffffu64)
                        by (nonlinear_arith)
                        requires
                            row < 5,
                            col < 5,
                            ps <= 0xffff_ffffu64,
                    ;
                    if (row as u64) * ps + ps / 2 + ps > 0xffff_ffffu64 || (col as u64) * ps + ps / 2
                        + ps > 0xffff_ffffu64 {
                        return false;
                    }
                }
                col = col + 1;
            }
            row = row + 1;
        }
        true
    }

    /// The 5x5 sprite, row by row: the nibbles of the hash, in order, decide
    /// the cells of the left half column by column (even nibble: painted),
    /// and each is mirrored to the right half.
    fn generate_pixel_pattern(&self) -> (pixels: [bool; 25])
        ensures
            pixels@ == pixel_pattern(self.spec_hash()),
    {
        let ghost hash = self.hash@;
        let ghost all = nibbles_of(hash);
        let mut nibbles = Nibbler::new(self.hash);
        let mut pixels = [false; 25];
        let mut col: usize = 0;
        while col < 3
            invariant
                col <= 3,
                hash == self.hash@,
                all == nibbles_of(hash),
                nibbles@ == (if col * 5 <= all.len() {
                    all.skip(col * 5)
                } else {
                    Seq::<u8>::empty()
                }),
                forall|i: int|
                    0 <= i < 25 ==> #[trigger] pixels@[i] == (if cell_nibble_index(i / 5, i % 5)
                        < col * 5 {
                        cell_painted(hash, i / 5, i % 5)
                    } else {
                        false
                    }),
            decreases 3 - col,
        {
            let mut row: usize = 0;
            while row < 5
                invariant
                    col < 3,
                    row <= 5,
                    hash == self.hash@,
                    all == nibbles_of(hash),
                    nibbles@ == (if col * 5 + row <= all.len() {
                        all.skip(col * 5 + row)
                    } else {
                        Seq::<u8>::empty()
                    }),
                    forall|i: int|
                        0 <= i < 25 ==> #[trigger] pixels@[i] == (if cell_nibble_index(i / 5, i % 5)
                            < col * 5 + row {
                            cell_painted(hash, i / 5, i % 5)
                        } else {
                            false
                        }),
                decreases 5 - row,
            {
                let left_idx = col + (row * 5);
                let right_idx = (4 - col) + (row * 5);
                let ghost n = col * 5 + row;
                let should_paint = match nibbles.next() {
                    Some(x) => x % 2 == 0,
                    None => false,
                };
                proof {
                    if n < all.len() {
                        assert(all.skip(n)[0] == all[n]);
                        assert(all.skip(n).drop_first() =~= all.skip(n + 1));
                    }
                }
                assert(should_paint == cell_painted(hash, row as int, col as int));
                pixels[left_idx] = should_paint;
                pixels[right_idx] = should_paint;
                proof {
                    assert(left_idx as int / 5 == row && left_idx as int % 5 == col);
                    assert(right_idx as int / 5 == row && right_idx as int % 5 == 4 - col);
                    assert forall|i: int| 0 <= i < 25 implies #[trigger] pixels@[i] == (if cell_nibble_index(
                        i / 5,
                        i % 5,
                    ) < n + 1 {
                        cell_painted(hash, i / 5, i % 5)
                    } else {
                        false
                    }) by {
                        if i != left_idx && i != right_idx {
                            assert(cell_nibble_index(i / 5, i % 5) != n);
                        }
                    }
                }
                row = row + 1;
            }
            col = col + 1;
        }
        assert(pixels@ =~= pixel_pattern(hash));
        pixels
    }
}

} // verus!
