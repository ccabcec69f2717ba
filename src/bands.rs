use vstd::prelude::*;

verus! {

/// One horizontal strip of the image: band number `index`, made of the
/// `height` rows that start at row `top` of the full image.
#[derive(Clone, Copy, Debug, PartialEq, Eq, Structural)]
pub struct Band {
    pub index: usize,
    pub top: usize,
    pub height: usize,
}

/// `a / b` rounded up.
pub open spec fn ceil_div(a: int, b: int) -> int {
    a / b + if a % b == 0 {
        0int
    } else {
        1int
    }
}

/// Rows given to each band when `total_rows` rows are shared among `workers`
/// bands: `ceil(total_rows / workers)`.
pub open spec fn spec_rows_per_band(total_rows: nat, workers: nat) -> nat {
    ceil_div(total_rows as int, workers as int) as nat
}

/// Number of bands that `total_rows` rows make, `rows` at a time.
pub open spec fn band_count(total_rows: nat, rows: nat) -> nat {
    if rows == 0 {
        0
    } else {
        ceil_div(total_rows as int, rows as int) as nat
    }
}

/// The smaller of two integers.
pub open spec fn min_int(a: int, b: int) -> int {
    if a <= b {
        a
    } else {
        b
    }
}

/// The band layout of an image of `total_rows` rows shared among `workers`
/// bands: band `i` starts at row `i * rows_per_band` and holds
/// `rows_per_band` rows, the last one clipped to the image.
pub open spec fn layout(total_rows: usize, workers: usize) -> Seq<Band> {
    let rows = spec_rows_per_band(total_rows as nat, workers as nat);
    Seq::new(
        band_count(total_rows as nat, rows),
        |i: int|
            Band {
                index: i as usize,
                top: (i * rows) as usize,
                height: min_int(rows as int, total_rows - i * rows) as usize,
            },
    )
}

/// Row `row` of the full image lies in `band`.
pub open spec fn band_holds_row(band: Band, row: int) -> bool {
    band.top <= row < band.top + band.height
}

/// Rows given to each band when `total_rows` rows are shared among `workers`
/// bands: `total_rows / workers` rounded up.
pub fn rows_per_band(total_rows: usize, workers: usize) -> (r: usize)
    requires
        workers > 0,
    ensures
        r == spec_rows_per_band(total_rows as nat, workers as nat),
{
    if total_rows % workers == 0 {
        total_rows / workers
    } else {
        assert(total_rows / workers < usize::MAX) by (nonlinear_arith)
            requires
                workers > 1,
                total_rows <= usize::MAX,
        ;
        total_rows / workers + 1
    }
}

impl Band {
    /// Size of the band as an image of its own: the full width, its own rows.
    pub fn bounds(&self, width: usize) -> (r: (usize, usize))
        ensures
            r == (width, self.height),
    {
        (width, self.height)
    }

    /// Pixel of the full image at the band's upper-left corner: `(0, top)`.
    pub fn upper_left_pixel(&self) -> (r: (usize, usize))
        ensures
            r == (0usize, self.top),
    {
        (0, self.top)
    }

    /// Pixel position of the full image just past the band's lower-right
    /// corner: `(width, top + height)`.
    pub fn lower_right_pixel(&self, width: usize) -> (r: (usize, usize))
        requires
            self.top + self.height <= usize::MAX,
        ensures
            r == (width, (self.top + self.height) as usize),
    {
        (width, self.top + self.height)
    }
}

/// Relies on `num_cpus::get`: the number of CPUs that the process may use,
/// which its documentation says is always at least 1.
#[verifier::external_body]
fn available_cpus() -> (r: usize)
    ensures
        r >= 1,
{
    num_cpus::get()
}

/// The band layout of an image of `total_rows` rows with one band per CPU
/// available to the process: [`layout`] for some worker count of at least 1.
pub fn default_band_layout(total_rows: usize) -> (r: Vec<Band>)
    ensures
        exists|workers: usize| workers >= 1 && r@ == layout(total_rows, workers),
{
    let workers = available_cpus();
    band_layout(total_rows, workers)
}

/// With `rows > 0` rows per band, band `i` starts inside the image exactly
/// when `i` is below the number of bands.
proof fn lemma_band_starts_inside(total_rows: nat, rows: nat, i: int)
    requires
        rows > 0,
        i >= 0,
    ensures
        (i * rows < total_rows) == (i < band_count(total_rows, rows)),
{
    let t = total_rows as int;
    let r = rows as int;
    let q = t / r;
    let m = t % r;
    vstd::arithmetic::div_mod::lemma_fundamental_div_mod(t, r);
    assert(0 <= m < r);
    if m == 0 {
        assert((i * r < q * r) == (i < q)) by (nonlinear_arith)
            requires
                r > 0,
        ;
    } else {
        assert((i * r < q * r + m) == (i < q + 1)) by (nonlinear_arith)
            requires
                0 < m < r,
        ;
    }
}

/// A non-empty image gives each band at least one row.
proof fn lemma_rows_positive(total_rows: nat, workers: nat)
    requires
        workers > 0,
    ensures
        (spec_rows_per_band(total_rows, workers) > 0) == (total_rows > 0),
{
    let t = total_rows as int;
    let w = workers as int;
    vstd::arithmetic::div_mod::lemma_fundamental_div_mod(t, w);
    if t > 0 && t / w == 0 {
        assert(t % w == t);
    }
}

/// Splits an image of `total_rows` rows into the bands of
/// [`layout`]: `rows_per_band(total_rows, workers)` rows each, in order from
/// the top, the last one clipped to the image.
pub fn band_layout(total_rows: usize, workers: usize) -> (r: Vec<Band>)
    requires
        workers > 0,
    ensures
        r@ == layout(total_rows, workers),
{
    let rows = rows_per_band(total_rows, workers);
    let ghost count = band_count(total_rows as nat, rows as nat);
    let ghost spec_layout = layout(total_rows, workers);
    proof {
        lemma_rows_positive(total_rows as nat, workers as nat);
    }
    let mut bands: Vec<Band> = Vec::new();
    let mut top: usize = 0;
    let mut i: usize = 0;
    while top < total_rows
        invariant
            rows == spec_rows_per_band(total_rows as nat, workers as nat),
            count == band_count(total_rows as nat, rows as nat),
            spec_layout == layout(total_rows, workers),
            spec_layout.len() == count,
            total_rows > 0 ==> rows > 0,
            i <= count,
            top == min_int(i * rows, total_rows as int),
            bands@.len() == i,
            forall|j: int| 0 <= j < i ==> bands@[j] == spec_layout[j],
        decreases total_rows - top,
    {
        proof {
            lemma_band_starts_inside(total_rows as nat, rows as nat, i as int);
            assert((i + 1) * rows == i * rows + rows) by (nonlinear_arith);
            assert(i < total_rows) by (nonlinear_arith)
                requires
                    i * rows < total_rows,
                    rows >= 1,
            ;
        }
        let height = if rows <= total_rows - top {
            rows
        } else {
            total_rows - top
        };
        bands.push(Band { index: i, top, height });
        top = top + height;
        i = i + 1;
    }
    proof {
        if total_rows > 0 {
            lemma_band_starts_inside(total_rows as nat, rows as nat, i as int);
        }
        assert(bands@ =~= spec_layout);
    }
    bands
}

/// Band `i` of the layout, for `i` below the number of bands, starts inside
/// the image and holds between one and `rows_per_band` rows.
proof fn lemma_band_shape(total_rows: usize, workers: usize, i: int)
    requires
        workers > 0,
        0 <= i < layout(total_rows, workers).len(),
    ensures
        ({
            let rows = spec_rows_per_band(total_rows as nat, workers as nat) as int;
            let band = layout(total_rows, workers)[i];
            &&& rows > 0
            &&& i * rows < total_rows
            &&& band.index == i
            &&& band.top == i * rows
            &&& band.height == min_int(rows, total_rows - i * rows)
            &&& 1 <= band.height <= rows
            &&& band.top + band.height <= total_rows
        }),
{
    let rows = spec_rows_per_band(total_rows as nat, workers as nat);
    lemma_rows_positive(total_rows as nat, workers as nat);
    lemma_band_starts_inside(total_rows as nat, rows, i);
    assert(i * rows >= 0) by (nonlinear_arith)
        requires
            i >= 0,
    ;
    assert(i <= i * rows) by (nonlinear_arith)
        requires
            i >= 0,
            rows >= 1,
    ;
}

/// The bands of [`layout`] cover the rows of the image from top to bottom
/// without gap or overlap: there are at most `workers` of them, each holds
/// between one and `rows_per_band` rows and lies inside the image, the first
/// starts at row 0, each next one starts where the previous one ends, the last
/// one ends at the last row, and row `row` lies in band `row / rows_per_band`
/// and in no other.
pub proof fn lemma_layout_partitions_rows(total_rows: usize, workers: usize)
    requires
        workers > 0,
    ensures
        layout(total_rows, workers).len() <= workers,
        forall|i: int|
            0 <= i < layout(total_rows, workers).len() ==> {
                let band = #[trigger] layout(total_rows, workers)[i];
                &&& band.index == i
                &&& 1 <= band.height <= spec_rows_per_band(total_rows as nat, workers as nat)
                &&& band.top + band.height <= total_rows
            },
        (layout(total_rows, workers).len() > 0) == (total_rows > 0),
        total_rows > 0 ==> layout(total_rows, workers)[0].top == 0,
        total_rows > 0 ==> layout(total_rows, workers).last().top + layout(
            total_rows,
            workers,
        ).last().height == total_rows,
        forall|i: int|
            0 <= i < layout(total_rows, workers).len() - 1 ==> (#[trigger] layout(
                total_rows,
                workers,
            )[i + 1]).top == layout(total_rows, workers)[i].top + layout(
                total_rows,
                workers,
            )[i].height,
        forall|i: int, row: int|
            0 <= i < layout(total_rows, workers).len() && 0 <= row < total_rows ==> (
            #[trigger] band_holds_row(layout(total_rows, workers)[i], row) == (i == row
                / spec_rows_per_band(total_rows as nat, workers as nat) as int)),
{
    let bands = layout(total_rows, workers);
    let rows = spec_rows_per_band(total_rows as nat, workers as nat) as int;
    let t = total_rows as int;
    let w = workers as int;
    lemma_rows_positive(total_rows as nat, workers as nat);
    assert forall|i: int| 0 <= i < bands.len() implies {
        let band = #[trigger] bands[i];
        &&& band.index == i
        &&& 1 <= band.height <= rows
        &&& band.top + band.height <= total_rows
    } by {
        lemma_band_shape(total_rows, workers, i);
    }
    if t > 0 {
        vstd::arithmetic::div_mod::lemma_fundamental_div_mod(t, w);
        assert(w * rows >= t) by (nonlinear_arith)
            requires
                t == w * (t / w) + t % w,
                0 <= t % w < w,
                rows == t / w + if t % w == 0 {
                    0int
                } else {
                    1int
                },
        ;
        lemma_band_starts_inside(total_rows as nat, rows as nat, w);
        lemma_band_starts_inside(total_rows as nat, rows as nat, 0);
        let n = bands.len() - 1;
        lemma_band_shape(total_rows, workers, n);
        lemma_band_starts_inside(total_rows as nat, rows as nat, n + 1);
        assert((n + 1) * rows == n * rows + rows) by (nonlinear_arith);
    }
    assert forall|i: int| 0 <= i < bands.len() - 1 implies (#[trigger] bands[i + 1]).top
        == bands[i].top + bands[i].height by {
        lemma_band_shape(total_rows, workers, i);
        lemma_band_shape(total_rows, workers, i + 1);
        assert((i + 1) * rows == i * rows + rows) by (nonlinear_arith);
    }
    assert forall|i: int, row: int| 0 <= i < bands.len() && 0 <= row < total_rows implies (
    #[trigger] band_holds_row(bands[i], row) == (i == row / rows)) by {
        lemma_band_shape(total_rows, workers, i);
        if band_holds_row(bands[i], row) {
            vstd::arithmetic::div_mod::lemma_fundamental_div_mod_converse(
                row,
                rows,
                i,
                row - i * rows,
            );
        }
        if i == row / rows {
            vstd::arithmetic::div_mod::lemma_fundamental_div_mod(row, rows);
            assert(row % rows >= 0 && row % rows < rows);
            assert(row == rows * i + row % rows);
            assert(rows * i == i * rows) by (nonlinear_arith);
        }
    }
}

/// Row-major buffer of a grid `width` pixels wide and `height` rows high in
/// which pixel `(column, row)` has the byte `shade(column, row)`.
pub open spec fn grid(width: nat, height: nat, shade: spec_fn(int, int) -> u8) -> Seq<u8> {
    Seq::new(width * height, |k: int| shade(k % width as int, k / width as int))
}

/// Buffer of `band` alone, its local row `r` being row `band.top + r` of the
/// grid whose pixel `(column, row)` has the byte `shade(column, row)`.
pub open spec fn band_grid(width: nat, band: Band, shade: spec_fn(int, int) -> u8) -> Seq<u8> {
    Seq::new(
        width * band.height as nat,
        |k: int| shade(k % width as int, band.top + k / width as int),
    )
}

/// Buffers of the bands of [`layout`], laid end to end in band order.
pub open spec fn banded_grid(
    width: nat,
    total_rows: usize,
    workers: usize,
    shade: spec_fn(int, int) -> u8,
) -> Seq<u8> {
    layout(total_rows, workers).map_values(|band: Band| band_grid(width, band, shade)).flatten()
}

/// Index `k + width * top` of a buffer `width` wide is local index `k` moved
/// down by `top` rows: same column, row shifted by `top`.
proof fn lemma_shift_rows(width: int, k: int, top: int)
    requires
        width > 0,
        k >= 0,
        top >= 0,
    ensures
        (k + width * top) % width == k % width,
        (k + width * top) / width == k / width + top,
{
    vstd::arithmetic::div_mod::lemma_fundamental_div_mod(k, width);
    assert(k + width * top == (k / width + top) * width + k % width) by (nonlinear_arith)
        requires
            k == width * (k / width) + k % width,
    ;
    vstd::arithmetic::div_mod::lemma_fundamental_div_mod_converse(
        k + width * top,
        width,
        k / width + top,
        k % width,
    );
}

/// The first `n` bands of the layout, laid end to end, make the first
/// `min(n * rows_per_band, total_rows)` rows of the grid.
proof fn lemma_prefix_bands_compose(
    width: nat,
    total_rows: usize,
    workers: usize,
    shade: spec_fn(int, int) -> u8,
    n: int,
)
    requires
        width > 0,
        workers > 0,
        0 <= n <= layout(total_rows, workers).len(),
    ensures
        layout(total_rows, workers).take(n).map_values(
            |band: Band| band_grid(width, band, shade),
        ).flatten() == grid(
            width,
            min_int(
                n * spec_rows_per_band(total_rows as nat, workers as nat),
                total_rows as int,
            ) as nat,
            shade,
        ),
    decreases n,
{
    let bands = layout(total_rows, workers);
    let rows = spec_rows_per_band(total_rows as nat, workers as nat) as int;
    let f = |band: Band| band_grid(width, band, shade);
    if n == 0 {
        assert(bands.take(0).map_values(f) =~= Seq::<Seq<u8>>::empty());
        assert(grid(width, 0, shade) =~= Seq::<u8>::empty());
    } else {
        let m = n - 1;
        lemma_prefix_bands_compose(width, total_rows, workers, shade, m);
        lemma_band_shape(total_rows, workers, m);
        let band = bands[m];
        assert(bands.take(n).map_values(f) =~= bands.take(m).map_values(f).push(f(band)));
        bands.take(m).map_values(f).lemma_flatten_push(f(band));
        let top = band.top as int;
        let w = width as int;
        let before = grid(width, top as nat, shade);
        let after = grid(width, (top + band.height) as nat, shade);
        assert((m + 1) * rows == m * rows + rows) by (nonlinear_arith);
        assert(min_int(n * rows, total_rows as int) == top + band.height);
        assert(w * (top + band.height) == w * top + w * band.height) by (nonlinear_arith);
        assert(w * top >= 0) by (nonlinear_arith)
            requires
                w > 0,
                top >= 0,
        ;
        assert forall|k: int| 0 <= k < after.len() implies (before + f(band))[k] == after[k] by {
            if k >= w * top {
                lemma_shift_rows(w, k - w * top, top);
            }
        }
        assert(before + f(band) =~= after);
    }
}

/// Rendering in bands changes no byte. Where the byte of every pixel is a
/// function `shade` of its position in the full image, the buffers of the
/// bands that the layout gives for any number of workers, laid end to end,
/// are the buffer of the whole image, `width * total_rows` bytes long, and
/// the same as with a single band.
pub proof fn lemma_bands_compose(
    width: nat,
    total_rows: usize,
    workers: usize,
    shade: spec_fn(int, int) -> u8,
)
    requires
        width > 0,
        workers > 0,
    ensures
        banded_grid(width, total_rows, workers, shade) == grid(width, total_rows as nat, shade),
        banded_grid(width, total_rows, workers, shade).len() == width * total_rows,
        banded_grid(width, total_rows, workers, shade) == banded_grid(
            width,
            total_rows,
            1,
            shade,
        ),
{
    let bands = layout(total_rows, workers);
    let rows = spec_rows_per_band(total_rows as nat, workers as nat) as int;
    let n = bands.len() as int;
    lemma_layout_partitions_rows(total_rows, workers);
    lemma_prefix_bands_compose(width, total_rows, workers, shade, n);
    assert(bands.take(n) =~= bands);
    if n > 0 {
        lemma_band_shape(total_rows, workers, n - 1);
        assert((n - 1 + 1) * rows == (n - 1) * rows + rows) by (nonlinear_arith);
    }
    assert(min_int(n * rows, total_rows as int) == total_rows);
    lemma_layout_partitions_rows(total_rows, 1);
    let one = layout(total_rows, 1);
    let k = one.len() as int;
    lemma_prefix_bands_compose(width, total_rows, 1, shade, k);
    assert(one.take(k) =~= one);
    if k > 0 {
        lemma_band_shape(total_rows, 1, k - 1);
        let r1 = spec_rows_per_band(total_rows as nat, 1);
        assert((k - 1 + 1) * r1 == (k - 1) * r1 + r1) by (nonlinear_arith);
    }
}

} // verus!
