use vstd::prelude::*;

verus! {

/// Number of escape-time iterations run for each pixel.
pub const ITERATION_LIMIT: u32 = 255;

/// Grayscale intensity of a pixel whose escape-time result is `escape`:
/// black for a point that never diverged, otherwise `255 - count` (the count
/// taken as a byte), so that fast-diverging points come out light.
pub open spec fn shade_of(escape: Option<u32>) -> u8 {
    match escape {
        None => 0u8,
        Some(count) => (255 - (count % 256)) as u8,
    }
}

/// Maps an escape-time result to its grayscale intensity.
pub fn shade(escape: Option<u32>) -> (r: u8)
    ensures
        r == shade_of(escape),
{
    match escape {
        None => 0,
        Some(count) => 255 - ((count % 256) as u8),
    }
}

/// Position of pixel `(column, row)` in a row-major buffer `width` pixels wide.
pub open spec fn pixel_index(width: int, column: int, row: int) -> int {
    column + width * row
}

/// In a buffer `width` pixels wide, the pixel at `(column, row)` with
/// `column < width` sits at a flat index whose quotient and remainder by
/// `width` give back the row and the column.
proof fn lemma_index_div_mod(width: int, column: int, row: int)
    requires
        0 <= column < width,
        0 <= row,
    ensures
        pixel_index(width, column, row) % width == column,
        pixel_index(width, column, row) / width == row,
{
    assert(pixel_index(width, column, row) == row * width + column) by (nonlinear_arith);
    vstd::arithmetic::div_mod::lemma_fundamental_div_mod_converse(
        pixel_index(width, column, row),
        width,
        row,
        column,
    );
}

/// The pixel `(column, row)` of a `width` by `height` grid lies inside its buffer.
proof fn lemma_index_in_grid(width: int, height: int, column: int, row: int)
    requires
        0 <= column < width,
        0 <= row < height,
    ensures
        0 <= pixel_index(width, column, row) < width * height,
{
    assert(0 <= column + width * row < width * height) by (nonlinear_arith)
        requires
            0 <= column < width,
            0 <= row < height,
    ;
}

/// The byte of pixel `(column, row)` in `pixels`, a buffer `width` pixels
/// wide, is the shade of a result that `escape` may return for that pixel.
pub open spec fn shaded_by<F: Fn(usize, usize) -> Option<u32>>(
    pixels: Seq<u8>,
    width: usize,
    column: usize,
    row: usize,
    escape: F,
) -> bool {
    exists|e: Option<u32>|
        #[trigger] escape.ensures((column, row), e)
            && pixels[pixel_index(width as int, column as int, row as int)] == shade_of(e)
}

/// Fills a band buffer of `bounds.0` columns and `bounds.1` rows, in row-major
/// order: the byte of pixel `(column, row)`, at index `column + bounds.0 * row`,
/// becomes the shade of `escape(column, row)`, the escape-time result of that
/// pixel in the band's own frame.
pub fn render<F: Fn(usize, usize) -> Option<u32>>(
    pixels: &mut [u8],
    bounds: (usize, usize),
    escape: F,
)
    requires
        old(pixels)@.len() == bounds.0 * bounds.1,
        forall|column: usize, row: usize|
            column < bounds.0 && row < bounds.1 ==> #[trigger] escape.requires((column, row)),
    ensures
        final(pixels)@.len() == old(pixels)@.len(),
        forall|column: usize, row: usize|
            column < bounds.0 && row < bounds.1 ==> #[trigger] shaded_by(
                final(pixels)@,
                bounds.0,
                column,
                row,
                escape,
            ),
{
    let width = bounds.0;
    let height = bounds.1;
    let n = pixels.len();
    let mut row: usize = 0;
    while row < height
        invariant
            n == width * height,
            pixels@.len() == n,
            row <= height,
            forall|column: usize, row: usize|
                column < width && row < height ==> #[trigger] escape.requires((column, row)),
            forall|c: usize, r: usize|
                c < width && r < row ==> #[trigger] shaded_by(pixels@, width, c, r, escape),
        decreases height - row,
    {
        let mut column: usize = 0;
        while column < width
            invariant
                n == width * height,
                pixels@.len() == n,
                row < height,
                column <= width,
                forall|column: usize, row: usize|
                    column < width && row < height ==> #[trigger] escape.requires((column, row)),
                forall|c: usize, r: usize|
                    (c < width && r < row) || (c < column && r == row) ==> #[trigger] shaded_by(
                        pixels@,
                        width,
                        c,
                        r,
                        escape,
                    ),
            decreases width - column,
        {
            proof {
                lemma_index_in_grid(width as int, height as int, column as int, row as int);
            }
            let idx = column + width * row;
            let e = escape(column, row);
            let value = shade(e);
            let ghost before = pixels@;
            pixels[idx] = value;
            proof {
                assert forall|c: usize, r: usize|
                    (c < width && r < row) || (c < column + 1 && r == row) implies shaded_by(
                        pixels@,
                        width,
                        c,
                        r,
                        escape,
                    ) by {
                    if c == column && r == row {
                        assert(escape.ensures((c, r), e));
                        assert(pixels@[pixel_index(width as int, c as int, r as int)] == shade_of(e));
                    } else {
                        assert(shaded_by(before, width, c, r, escape));
                        lemma_index_div_mod(width as int, c as int, r as int);
                        lemma_index_in_grid(width as int, height as int, c as int, r as int);
                        lemma_index_div_mod(width as int, column as int, row as int);
                        assert(pixel_index(width as int, c as int, r as int) != idx);
                        let e1 = choose|e1: Option<u32>|
                            #[trigger] escape.ensures((c, r), e1)
                                && before[pixel_index(width as int, c as int, r as int)]
                                == shade_of(e1);
                        assert(escape.ensures((c, r), e1));
                        assert(pixels@[pixel_index(width as int, c as int, r as int)] == shade_of(e1));
                    }
                }
            }
            column = column + 1;
        }
        row = row + 1;
    }
}

} // verus!
