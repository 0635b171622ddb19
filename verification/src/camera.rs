use vstd::prelude::*;
use crate::canvas::Canvas;

verus! {

broadcast use {
    vstd::arithmetic::div_mod::lemma_mod_bound,
    vstd::arithmetic::div_mod::lemma_div_pos_is_pos,
};

/// Rows per band of the parallel render: the canvas is cut into
/// horizontal bands of this many rows and each worker fills one band.
pub const BAND_SIZE: usize = 10;

/// How many bands a canvas of the given height is cut into: enough bands
/// of `BAND_SIZE` rows to cover every row, the last band possibly short.
pub open spec fn band_count_spec(height: int) -> int {
    (height + BAND_SIZE - 1) / (BAND_SIZE as int)
}

/// How many rows the given band holds: `BAND_SIZE`, except for a short
/// last band.
pub open spec fn band_rows_spec(band: int, height: int) -> int {
    if height - band * BAND_SIZE >= BAND_SIZE {
        BAND_SIZE as int
    } else {
        height - band * BAND_SIZE
    }
}

/// Number of bands the parallel render cuts a canvas of this height into.
pub fn band_count(height: usize) -> (r: usize)
    requires
        height + BAND_SIZE - 1 <= usize::MAX,
    ensures
        r == band_count_spec(height as int),
{
    (height + (BAND_SIZE - 1)) / BAND_SIZE
}

/// Number of rows of the given band; every band but the last holds
/// `BAND_SIZE` rows.
pub fn band_rows(band: usize, height: usize) -> (r: usize)
    requires
        band * BAND_SIZE < height,
    ensures
        r == band_rows_spec(band as int, height as int),
{
    let start = band * BAND_SIZE;
    if height - start >= BAND_SIZE {
        BAND_SIZE
    } else {
        height - start
    }
}

/// Every row of the canvas falls inside exactly one band: its band index
/// is below the band count, its offset inside the band is below that
/// band's row count, and band index and offset recover the row.
pub proof fn lemma_row_band(y: int, height: int)
    requires
        0 <= y < height,
    ensures
        0 <= y / (BAND_SIZE as int) < band_count_spec(height),
        0 <= y % (BAND_SIZE as int) < band_rows_spec(y / (BAND_SIZE as int), height),
        (y / (BAND_SIZE as int)) * (BAND_SIZE as int) + y % (BAND_SIZE as int) == y,
{
    let b = BAND_SIZE as int;
    vstd::arithmetic::div_mod::lemma_fundamental_div_mod(y, b);
    let count = band_count_spec(height);
    vstd::arithmetic::div_mod::lemma_fundamental_div_mod(height + b - 1, b);
    assert(b * count >= height);
    if y / b >= count {
        assert(b * (y / b) >= b * count) by (nonlinear_arith)
            requires
                b > 0,
                y / b >= count,
        ;
        assert(false);
    }
}

/// The pixel sequences of a vector of band buffers, in band order.
pub open spec fn band_views(bands: Seq<Vec<u32>>) -> Seq<Seq<u32>> {
    bands.map_values(|v: Vec<u32>| v@)
}

/// The color band-parallel rendering computes for the cell at column `x`,
/// row `y`: the band holding row `y` stores it at the row's offset inside
/// the band.
pub open spec fn band_pixel(bands: Seq<Seq<u32>>, width: int, x: int, y: int) -> u32 {
    bands[y / (BAND_SIZE as int)][(y % (BAND_SIZE as int)) * width + x]
}

/// The whole canvas buffer band-parallel rendering produces, row-major.
pub open spec fn assembled(width: int, height: int, bands: Seq<Seq<u32>>) -> Seq<u32> {
    Seq::new((width * height) as nat, |k: int| band_pixel(bands, width, k % width, k / width))
}

/// Bands of the right shape for a canvas of the given size: one buffer
/// per band, each holding one full row of pixels per band row.
pub open spec fn bands_wf(bands: Seq<Seq<u32>>, width: int, height: int) -> bool {
    &&& bands.len() == band_count_spec(height)
    &&& forall|i: int|
        0 <= i < bands.len() ==> (#[trigger] bands[i].len()) == band_rows_spec(i, height) * width
}

/// Copies the band buffers the parallel workers filled into one canvas,
/// each band to its own rows, in row-major order.
pub fn assemble_bands(width: usize, height: usize, bands: &Vec<Vec<u32>>) -> (c: Canvas)
    requires
        width * height <= usize::MAX,
        bands_wf(band_views(bands@), width as int, height as int),
    ensures
        c.wf(),
        c.width == width,
        c.height == height,
        forall|x: int, y: int|
            0 <= x < width && 0 <= y < height ==> c.pixel(x, y) == band_pixel(
                band_views(bands@),
                width as int,
                x,
                y,
            ),
        c.pixels@ == assembled(width as int, height as int, band_views(bands@)),
{
    let ghost bseq = band_views(bands@);
    let mut c = Canvas::new_canvas(width, height);
    let mut y: usize = 0;
    while y < height
        invariant
            c.wf(),
            c.width == width,
            c.height == height,
            y <= height,
            width * height <= usize::MAX,
            bseq == band_views(bands@),
            bands_wf(bseq, width as int, height as int),
            forall|xp: int, yp: int|
                0 <= xp < width && 0 <= yp < y ==> c.pixel(xp, yp) == band_pixel(
                    bseq,
                    width as int,
                    xp,
                    yp,
                ),
        decreases height - y,
    {
        proof {
            lemma_row_band(y as int, height as int);
        }
        let band = y / BAND_SIZE;
        let row = y % BAND_SIZE;
        let band_len = bands[band].len();
        let mut x: usize = 0;
        while x < width
            invariant
                c.wf(),
                c.width == width,
                c.height == height,
                y < height,
                x <= width,
                width * height <= usize::MAX,
                bseq == band_views(bands@),
                bands_wf(bseq, width as int, height as int),
                band == y as int / (BAND_SIZE as int),
                row == y as int % (BAND_SIZE as int),
                band < bands@.len(),
                row < band_rows_spec(band as int, height as int),
                band_len == bands@[band as int]@.len(),
                forall|xp: int, yp: int|
                    0 <= xp < width && 0 <= yp < y ==> c.pixel(xp, yp) == band_pixel(
                        bseq,
                        width as int,
                        xp,
                        yp,
                    ),
                forall|xp: int|
                    0 <= xp < x ==> c.pixel(xp, y as int) == band_pixel(
                        bseq,
                        width as int,
                        xp,
                        y as int,
                    ),
            decreases width - x,
        {
            proof {
                assert(row * width + x < band_rows_spec(band as int, height as int) * width)
                    by (nonlinear_arith)
                    requires
                        0 <= row < band_rows_spec(band as int, height as int),
                        0 <= x < width,
                ;
                assert(bseq[band as int] == bands@[band as int]@);
                assert(bseq[band as int].len() == band_rows_spec(band as int, height as int)
                    * width);
                assert(row * width + x < band_len);
            }
            let index = row * width + x;
            let color = bands[band][index];
            let ghost c0 = c;
            c.set_pixel_color(x, y, color);
            proof {
                crate::utils::lemma_index_pos_round_trip(x as int, y as int, width as int);
                crate::canvas::lemma_pos_in_grid(x as int, y as int, width as int, height as int);
                assert forall|xp: int, yp: int|
                    0 <= xp < width && (0 <= yp < y || (yp == y as int && 0 <= xp <= x))
                        implies c.pixel(xp, yp) == band_pixel(
                    bseq,
                    width as int,
                    xp,
                    yp,
                ) by {
                    crate::canvas::lemma_pos_in_grid(xp, yp, width as int, height as int);
                    if xp == x as int && yp == y as int {
                        assert(c.pixel(xp, yp) == color);
                    } else {
                        crate::utils::lemma_index_pos_round_trip(xp, yp, width as int);
                        assert(yp * width + xp != y as int * width + x);
                        assert(c.pixels@ == c0.pixels@.update(y as int * width + x, color));
                        assert(0 <= yp * width + xp < c0.pixels@.len());
                        vstd::seq::lemma_seq_update_different_alt::<u32>(
                            c0.pixels@,
                            yp * width + xp,
                            y as int * width + x,
                            color,
                        );
                        assert(c.pixels@[yp * width + xp] == c0.pixels@[yp * width + xp]);
                        assert(c.pixel(xp, yp) == c0.pixel(xp, yp));
                    }
                }
            }
            x = x + 1;
        }
        y = y + 1;
    }
    proof {
        let w = width as int;
        let h = height as int;
        let target = assembled(w, h, bseq);
        assert forall|k: int| 0 <= k < c.pixels@.len() implies c.pixels@[k] == target[k] by {
            lemma_linear_index_in_grid(k, w, h);
            vstd::arithmetic::div_mod::lemma_fundamental_div_mod(k, w);
            assert((k / w) * w + k % w == k);
            assert(c.pixels@[k] == c.pixel(k % w, k / w));
        }
        assert(c.pixels@ =~= target);
    }
    c
}

/// A linear buffer index of a `width * height` grid names the cell at
/// column `k % width`, row `k / width`.
pub proof fn lemma_linear_index_in_grid(k: int, width: int, height: int)
    requires
        0 <= k < width * height,
        0 <= width,
        0 <= height,
    ensures
        0 <= k % width < width,
        0 <= k / width < height,
{
    assert(width > 0) by (nonlinear_arith)
        requires
            0 <= k < width * height,
            0 <= width,
            0 <= height,
    ;
    vstd::arithmetic::div_mod::lemma_fundamental_div_mod(k, width);
    if k / width >= height {
        assert(width * (k / width) >= width * height) by (nonlinear_arith)
            requires
                width > 0,
                k / width >= height,
        ;
        assert(false);
    }
}

/// Serial and band-parallel rendering agree.  `px` is the pixel sequence
/// the serial row-major pass writes, one color per cell.  If every band
/// buffer holds for its rows exactly those colors — what each parallel
/// worker computes for its own rows, the per-pixel color being a function
/// of the immutable scene alone — then the assembled canvas buffer is
/// `px` itself, pixel for pixel.
pub proof fn lemma_parallel_serial_render_agree(
    width: int,
    height: int,
    px: Seq<u32>,
    bands: Seq<Seq<u32>>,
)
    requires
        width >= 0,
        height >= 0,
        px.len() == width * height,
        bands_wf(bands, width, height),
        forall|i: int, r: int, x: int|
            0 <= i < bands.len() && 0 <= r < band_rows_spec(i, height) && 0 <= x < width ==> (
            #[trigger] bands[i][r * width + x]) == px[(i * BAND_SIZE + r) * width + x],
    ensures
        assembled(width, height, bands) == px,
{
    let target = assembled(width, height, bands);
    assert forall|k: int| 0 <= k < px.len() implies target[k] == px[k] by {
        lemma_linear_index_in_grid(k, width, height);
        let x = k % width;
        let y = k / width;
        lemma_row_band(y, height);
        let i = y / (BAND_SIZE as int);
        let r = y % (BAND_SIZE as int);
        assert(bands[i][r * width + x] == px[(i * BAND_SIZE + r) * width + x]);
        assert(i * BAND_SIZE + r == y);
        vstd::arithmetic::div_mod::lemma_fundamental_div_mod(k, width);
        assert(y * width + x == k);
    }
    assert(target =~= px);
}

} // verus!
