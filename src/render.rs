use vstd::prelude::*;

verus! {

/// Intensity written for a point that stays bounded through the iteration
/// limit: a fixed mid-dark gray, apart from both black and white.
pub const IN_SET_SHADE: u8 = 16;

/// Iterations tried before a point is taken to stay bounded.
pub const ESCAPE_LIMIT: u32 = 255;

/// Intensity for an escape count: the in-set shade for a point that did not
/// escape, otherwise the count cut to its low byte.
pub open spec fn shade_of(escape: Option<u32>) -> u8 {
    match escape {
        None => IN_SET_SHADE,
        Some(count) => count as u8,
    }
}

/// Maps an escape count to a grayscale intensity.
pub fn shade(escape: Option<u32>) -> (r: u8)
    ensures
        r == shade_of(escape),
{
    match escape {
        None => IN_SET_SHADE,
        Some(count) => count as u8,
    }
}

/// Position in a row-major buffer of the pixel at `column` in `row`.
pub open spec fn pixel_index(width: nat, column: nat, row: nat) -> nat {
    row * width + column
}

/// The pixel at (`column`, `row`) holds the shade of some escape count that
/// `escape` may give for that pixel.
pub open spec fn pixel_rendered<F: Fn(usize, usize) -> Option<u32>>(
    escape: F,
    pixels: Seq<u8>,
    width: usize,
    column: usize,
    row: usize,
) -> bool {
    exists|e: Option<u32>|
        escape.ensures((column, row), e) && pixels[pixel_index(width as nat, column as nat, row as nat) as int]
            == shade_of(e)
}

/// `pixels` holds a full rendering of a `bounds.0` by `bounds.1` raster with
/// `escape`.
pub open spec fn rendered<F: Fn(usize, usize) -> Option<u32>>(
    escape: F,
    pixels: Seq<u8>,
    bounds: (usize, usize),
) -> bool {
    &&& pixels.len() == bounds.0 * bounds.1
    &&& forall|column: usize, row: usize|
        column < bounds.0 && row < bounds.1 ==> #[trigger] pixel_rendered(
            escape,
            pixels,
            bounds.0,
            column,
            row,
        )
}

/// `escape` gives at most one count for each pixel.
pub open spec fn single_valued<F: Fn(usize, usize) -> Option<u32>>(escape: F) -> bool {
    forall|column: usize, row: usize, e1: Option<u32>, e2: Option<u32>|
        #[trigger] escape.ensures((column, row), e1) && #[trigger] escape.ensures((column, row), e2)
            ==> e1 == e2
}

/// Rendering is repeatable: two full renderings of the same raster with the
/// same escape function are byte for byte equal, when that function gives
/// one count per pixel.
pub proof fn lemma_render_repeatable<F: Fn(usize, usize) -> Option<u32>>(
    escape: F,
    bounds: (usize, usize),
    first: Seq<u8>,
    second: Seq<u8>,
)
    requires
        single_valued(escape),
        rendered(escape, first, bounds),
        rendered(escape, second, bounds),
    ensures
        first == second,
{
    let width = bounds.0;
    assert forall|i: int| 0 <= i < first.len() implies first[i] == second[i] by {
        let w = width as int;
        assert(w > 0) by (nonlinear_arith)
            requires
                0 <= i < first.len(),
                first.len() == w * bounds.1,
        ;
        let column = i % w;
        let row = i / w;
        vstd::arithmetic::div_mod::lemma_fundamental_div_mod(i, w);
        assert(row < bounds.1) by (nonlinear_arith)
            requires
                w > 0,
                i == w * row + column,
                0 <= column < w,
                i < w * bounds.1,
        ;
        assert(0 <= row) by (nonlinear_arith)
            requires
                w > 0,
                i >= 0,
                row == i / w,
        ;
        let c = column as usize;
        let r = row as usize;
        assert(pixel_index(width as nat, c as nat, r as nat) == i) by (nonlinear_arith)
            requires
                i == w * row + column,
                c == column,
                r == row,
                w == width,
        ;
        assert(pixel_rendered(escape, first, width, c, r));
        assert(pixel_rendered(escape, second, width, c, r));
    }
    assert(first =~= second);
}

proof fn lemma_index_in_buffer(width: nat, height: nat, column: nat, row: nat)
    requires
        column < width,
        row < height,
    ensures
        pixel_index(width, column, row) < width * height,
{
    assert(row * width + column < width * height) by (nonlinear_arith)
        requires
            column < width,
            row < height,
    ;
}

proof fn lemma_index_distinct(width: nat, c1: nat, r1: nat, c2: nat, r2: nat)
    requires
        c1 < width,
        c2 < width,
        c1 != c2 || r1 != r2,
    ensures
        pixel_index(width, c1, r1) != pixel_index(width, c2, r2),
{
    assert(r1 * width + c1 != r2 * width + c2) by (nonlinear_arith)
        requires
            c1 < width,
            c2 < width,
            c1 != c2 || r1 != r2,
    ;
}

/// Fills a buffer of `bounds.0` columns by `bounds.1` rows, row-major: the
/// pixel at each column and row gets the shade of the escape count that
/// `escape` gives for that column and row. Every pixel is written exactly
/// once and nothing outside the buffer is touched.
pub fn render<F: Fn(usize, usize) -> Option<u32>>(
    pixels: &mut [u8],
    bounds: (usize, usize),
    escape: &F,
)
    requires
        old(pixels)@.len() == bounds.0 * bounds.1,
        forall|column: usize, row: usize|
            column < bounds.0 && row < bounds.1 ==> escape.requires((column, row)),
    ensures
        rendered(*escape, final(pixels)@, bounds),
{
    let (width, height) = bounds;
    let len: usize = pixels.len();
    let mut row: usize = 0;
    while row < height
        invariant
            (width, height) == bounds,
            pixels@.len() == len,
            len == width * height,
            row <= height,
            forall|column: usize, row: usize|
                column < width && row < height ==> escape.requires((column, row)),
            forall|c: usize, r: usize|
                c < width && r < row ==> #[trigger] pixel_rendered(*escape, pixels@, width, c, r),
        decreases height - row,
    {
        let mut column: usize = 0;
        while column < width
            invariant
                (width, height) == bounds,
                pixels@.len() == len,
                len == width * height,
                row < height,
                column <= width,
                forall|column: usize, row: usize|
                    column < width && row < height ==> escape.requires((column, row)),
                forall|c: usize, r: usize|
                    c < width && r < row ==> #[trigger] pixel_rendered(*escape, pixels@, width, c, r),
                forall|c: usize|
                    c < column ==> #[trigger] pixel_rendered(*escape, pixels@, width, c, row),
            decreases width - column,
        {
            proof {
                lemma_index_in_buffer(width as nat, height as nat, column as nat, row as nat);
            }
            let e = escape(column, row);
            let ghost before = pixels@;
            let k: usize = row * width + column;
            pixels[k] = shade(e);
            proof {
                assert forall|c: usize, r: usize|
                    c < width && (r < row || (r == row && c <= column)) implies #[trigger] pixel_rendered(
                    *escape,
                    pixels@,
                    width,
                    c,
                    r,
                ) by {
                    if c != column || r != row {
                        lemma_index_in_buffer(width as nat, height as nat, c as nat, r as nat);
                        lemma_index_distinct(width as nat, c as nat, r as nat, column as nat, row as nat);
                        assert(pixel_rendered(*escape, before, width, c, r));
                        let i = pixel_index(width as nat, c as nat, r as nat) as int;
                        assert(pixels@[i] == before[i]);
                    } else {
                        assert(escape.ensures((column, row), e));
                        assert(pixels@[k as int] == shade_of(e));
                    }
                }
            }
            column = column + 1;
        }
        row = row + 1;
    }
}

} // verus!
