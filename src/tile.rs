use vstd::prelude::*;

use crate::escape::EscapeTime;

verus! {

/// The grayscale intensity of a pixel: black for a bounded point, otherwise the escape
/// iteration wrapped into one byte, which gives cyclic bands of gray.
pub open spec fn shade_of(e: EscapeTime) -> u8 {
    match e {
        EscapeTime::Bounded => 0,
        EscapeTime::Escaped(i) => (i % 256) as u8,
    }
}

/// The intensities of a row-major sequence of escape outcomes.
pub open spec fn shades(escapes: Seq<EscapeTime>) -> Seq<u8> {
    escapes.map_values(|e: EscapeTime| shade_of(e))
}

/// Why a render call was refused before writing anything.
#[derive(PartialEq, Eq, Structural, Clone, Copy, Debug)]
pub enum RenderError {
    /// The pixel buffer does not hold exactly `width * height` bytes.
    BufferSize,
    /// The escape outcomes are not exactly one per pixel.
    EscapeCount,
}

/// The intensity of one pixel.
pub fn shade(e: EscapeTime) -> (r: u8)
    ensures
        r == shade_of(e),
{
    match e {
        EscapeTime::Bounded => 0,
        EscapeTime::Escaped(count) => (count % 256) as u8,
    }
}

/// Fills `pixels`, an image of `bounds = (width, height)` in row-major order, with the
/// intensities of `escapes`, the escape outcomes of its pixels in the same order.
/// A buffer of the wrong size, or a wrong number of outcomes, is refused before any write.
pub fn render(pixels: &mut [u8], bounds: (usize, usize), escapes: &[EscapeTime]) -> (r: Result<
    (),
    RenderError,
>)
    ensures
        old(pixels)@.len() != bounds.0 * bounds.1 ==> r == Err::<(), RenderError>(
            RenderError::BufferSize,
        ) && final(pixels)@ == old(pixels)@,
        old(pixels)@.len() == bounds.0 * bounds.1 && escapes@.len() != bounds.0 * bounds.1 ==> r
            == Err::<(), RenderError>(RenderError::EscapeCount) && final(pixels)@ == old(pixels)@,
        old(pixels)@.len() == bounds.0 * bounds.1 && escapes@.len() == bounds.0 * bounds.1 ==> r
            == Ok::<(), RenderError>(()) && final(pixels)@ == shades(escapes@),
        r is Ok ==> forall|k: int|
            0 <= k < escapes@.len() ==> #[trigger] final(pixels)@[k] == shade_of(escapes@[k]),
{
    let len = pixels.len();
    let total = match bounds.0.checked_mul(bounds.1) {
        Some(t) => t,
        None => {
            return Err(RenderError::BufferSize);
        },
    };
    if len != total {
        return Err(RenderError::BufferSize);
    }
    if escapes.len() != total {
        return Err(RenderError::EscapeCount);
    }
    let mut idx: usize = 0;
    while idx < total
        invariant
            pixels@.len() == total,
            escapes@.len() == total,
            idx <= total,
            forall|k: int| 0 <= k < idx ==> pixels@[k] == shade_of(escapes@[k]),
        decreases total - idx,
    {
        pixels[idx] = shade(escapes[idx]);
        idx += 1;
    }
    assert(pixels@ =~= shades(escapes@));
    Ok(())
}

/// One horizontal band of an image: a single pixel row, rendered on its own.
#[derive(Clone, Copy, Debug)]
pub struct Band {
    /// The image row that the band covers.
    pub row: usize,
    /// The index in the image buffer of the band's first pixel.
    pub start: usize,
    /// The number of pixels in the band.
    pub len: usize,
    /// The width and height of the band as an image of its own.
    pub bounds: (usize, usize),
    /// The image pixel at the band's upper-left corner, as (column, row).
    pub upper_left: (usize, usize),
    /// The image pixel just past the band's lower-right corner, as (column, row).
    pub lower_right: (usize, usize),
}

/// The band of image row `row` in an image of `bounds = (width, height)`.
pub open spec fn band_spec(bounds: (usize, usize), row: usize) -> Band {
    Band {
        row,
        start: (row * bounds.0) as usize,
        len: bounds.0,
        bounds: (bounds.0, 1),
        upper_left: (0, row),
        lower_right: (bounds.0, (row + 1) as usize),
    }
}

/// The band that covers image row `row`: the buffer range `row * width .. (row + 1) * width`,
/// an image one pixel tall, and the corner pixels whose plane points bound it.
pub fn band(bounds: (usize, usize), row: usize) -> (b: Band)
    requires
        row < bounds.1,
        bounds.0 * bounds.1 <= usize::MAX,
    ensures
        b == band_spec(bounds, row),
        b.start == row * bounds.0,
        b.start + b.len <= bounds.0 * bounds.1,
        b.len == b.bounds.0 * b.bounds.1,
{
    assert(row * bounds.0 + bounds.0 <= bounds.0 * bounds.1) by (nonlinear_arith)
        requires
            row < bounds.1,
    ;
    Band {
        row,
        start: row * bounds.0,
        len: bounds.0,
        bounds: (bounds.0, 1),
        upper_left: (0, row),
        lower_right: (bounds.0, row + 1),
    }
}

/// Whether the band of image row `row` holds the pixel at buffer index `idx`.
pub open spec fn band_holds(bounds: (usize, usize), row: int, idx: int) -> bool {
    row * bounds.0 <= idx < row * bounds.0 + bounds.0
}

/// The bands of an image split its buffer without overlap: each pixel index lies in the band
/// of row `index / width`, at offset `index % width`, and in no other band.
pub proof fn lemma_bands_partition(bounds: (usize, usize), idx: int)
    requires
        bounds.0 > 0,
        0 <= idx < bounds.0 * bounds.1,
    ensures
        ({
            let w = bounds.0 as int;
            &&& 0 <= idx / w < bounds.1
            &&& idx == (idx / w) * w + idx % w
            &&& 0 <= idx % w < w
            &&& forall|row: int|
                0 <= row < bounds.1 ==> (#[trigger] band_holds(bounds, row, idx) <==> row == idx
                    / w)
        }),
{
    let w = bounds.0 as int;
    let h = bounds.1 as int;
    let q = idx / w;
    let r = idx % w;
    assert(idx == q * w + r && 0 <= r < w) by (nonlinear_arith)
        requires
            w > 0,
            q == idx / w,
            r == idx % w,
    ;
    assert(0 <= q < h) by (nonlinear_arith)
        requires
            w > 0,
            0 <= idx < w * h,
            idx == q * w + r,
            0 <= r < w,
    ;
    assert forall|row: int| 0 <= row < h implies (#[trigger] band_holds(bounds, row, idx) <==> row
        == q) by {
        if row * w <= idx < row * w + w {
            assert(row == q) by (nonlinear_arith)
                requires
                    row * w <= idx < row * w + w,
                    idx == q * w + r,
                    0 <= r < w,
            ;
        }
    }
}

/// Rendering a band on its own writes the same bytes as rendering the whole image writes into
/// that band's part of the buffer; with the bands split without overlap, rendering band by
/// band, in any order, gives the buffer that rendering the whole image gives.
pub proof fn lemma_band_render_agrees(escapes: Seq<EscapeTime>, bounds: (usize, usize), row: usize)
    requires
        escapes.len() == bounds.0 * bounds.1,
        bounds.0 * bounds.1 <= usize::MAX,
        row < bounds.1,
    ensures
        ({
            let b = band_spec(bounds, row);
            &&& b.start + b.len <= escapes.len()
            &&& shades(escapes.subrange(b.start as int, b.start + b.len)) == shades(
                escapes,
            ).subrange(b.start as int, b.start + b.len)
        }),
{
    let b = band_spec(bounds, row);
    assert(row * bounds.0 + bounds.0 <= bounds.0 * bounds.1) by (nonlinear_arith)
        requires
            row < bounds.1,
    ;
    assert(shades(escapes.subrange(b.start as int, b.start + b.len)) =~= shades(escapes).subrange(
        b.start as int,
        b.start + b.len,
    ));
}

/// The buffer assembled from bands rendered on their own: the pixel at index `idx` is the one
/// that the band of row `idx / width` wrote at offset `idx % width`.
pub open spec fn banded(escapes: Seq<EscapeTime>, bounds: (usize, usize)) -> Seq<u8> {
    let w = bounds.0 as int;
    Seq::new(
        (w * bounds.1) as nat,
        |idx: int| shades(escapes.subrange((idx / w) * w, (idx / w) * w + w))[idx % w],
    )
}

/// Rendering an image band by band, each band with only its own escape outcomes, gives the
/// same buffer, byte for byte, as rendering the whole image at once.
pub proof fn lemma_banded_equals_whole(escapes: Seq<EscapeTime>, bounds: (usize, usize))
    requires
        bounds.0 > 0,
        escapes.len() == bounds.0 * bounds.1,
    ensures
        banded(escapes, bounds) == shades(escapes),
{
    let w = bounds.0 as int;
    assert forall|idx: int| 0 <= idx < escapes.len() implies #[trigger] banded(escapes, bounds)[idx]
        == shades(escapes)[idx] by {
        lemma_bands_partition(bounds, idx);
        let row = idx / w;
        assert(row * w + w <= w * bounds.1) by (nonlinear_arith)
            requires
                0 <= row,
                row + 1 <= bounds.1,
                w > 0,
        ;
        let part = escapes.subrange(row * w, row * w + w);
        assert(shades(part)[idx % w] == shade_of(part[idx % w]));
        assert(part[idx % w] == escapes[idx]);
    }
    assert(banded(escapes, bounds) =~= shades(escapes));
}

} // verus!
