//! Per-pixel metadata maps (CFA colour indices, black levels) stored either
//! densely or as one small tile repeated over the whole sensor.
use vstd::prelude::*;
use vstd::arithmetic::div_mod::{
    lemma_fundamental_div_mod, lemma_fundamental_div_mod_converse, lemma_mod_bound,
    lemma_small_mod, lemma_add_mod_noop_right, lemma_mod_add_multiples_vanish,
};
use vstd::arithmetic::mul::lemma_mul_is_commutative;
use crate::int_util::{spec_max, spec_min, sat_mul_usize, max_u32, min_u32, saturating_mul_usize};

verus! {

/// Index of pixel `(x, y)` in a row-major buffer of rows `width` long.
pub open spec fn row_major(width: int, x: int, y: int) -> int {
    y * width + x
}

/// `a * stride + b` stays inside a `rows * stride` buffer.
pub proof fn lemma_row_major_bound(a: int, b: int, stride: int, rows: int)
    requires
        0 <= a < rows,
        0 <= b < stride,
    ensures
        0 <= a * stride + b < rows * stride,
        a * stride <= (rows - 1) * stride,
{
    assert(a * stride <= (rows - 1) * stride) by (nonlinear_arith)
        requires
            0 <= a <= rows - 1,
            0 <= stride,
    ;
    assert((rows - 1) * stride + stride == rows * stride) by (nonlinear_arith);
    assert(0 <= a * stride) by (nonlinear_arith)
        requires
            0 <= a,
            0 <= stride,
    ;
}

/// Splitting an index of a `width`-wide buffer into column and row.
pub proof fn lemma_row_major_split(i: int, width: int, height: int)
    requires
        width > 0,
        0 <= i < width * height,
    ensures
        row_major(width, i % width, i / width) == i,
        0 <= i % width < width,
        0 <= i / width < height,
{
    lemma_fundamental_div_mod(i, width);
    lemma_mul_is_commutative(width, i / width);
    lemma_mod_bound(i, width);
    assert(0 <= i / width) by (nonlinear_arith)
        requires
            width > 0,
            i >= 0,
    ;
    if i / width >= height {
        assert(width * (i / width) >= width * height) by (nonlinear_arith)
            requires
                i / width >= height,
                width > 0,
        ;
    }
}

/// Column and row recovered from a row-major index.
pub proof fn lemma_row_major_join(x: int, y: int, width: int)
    requires
        width > 0,
        0 <= x < width,
        0 <= y,
    ensures
        row_major(width, x, y) % width == x,
        row_major(width, x, y) / width == y,
{
    lemma_fundamental_div_mod_converse(row_major(width, x, y), width, y, x);
}

/// A map from pixel index to value for a `width` x `height` image, held as a
/// `storage_width` x `storage_height` tile repeated in both directions (a
/// dense map is the tile of the full image).
pub struct CompactPixelMap<T> {
    width: u32,
    height: u32,
    storage_width: u32,
    storage_height: u32,
    values: Vec<T>,
}

impl<T> CompactPixelMap<T> {
    #[verifier::type_invariant]
    closed spec fn well_formed(self) -> bool {
        &&& self.values@.len() == self.storage_width as int * self.storage_height as int
        &&& ((self.storage_width > 0 && self.storage_height > 0) || (self.storage_width == self.width
            && self.storage_height == self.height))
    }

    pub closed spec fn spec_width(&self) -> u32 {
        self.width
    }

    pub closed spec fn spec_height(&self) -> u32 {
        self.height
    }

    pub closed spec fn spec_storage_width(&self) -> u32 {
        self.storage_width
    }

    pub closed spec fn spec_storage_height(&self) -> u32 {
        self.storage_height
    }

    /// The stored tile, row-major with rows `storage_width` long.
    pub closed spec fn storage(&self) -> Seq<T> {
        self.values@
    }

    /// The value of pixel `(x, y)`: the tile entry at the pixel's position
    /// modulo the tile size.
    pub open spec fn at(&self, x: int, y: int) -> T {
        self.storage()[row_major(
            self.spec_storage_width() as int,
            x % (self.spec_storage_width() as int),
            y % (self.spec_storage_height() as int),
        )]
    }

    /// Number of pixels, saturated at `usize::MAX`.
    pub open spec fn spec_len(&self) -> int {
        sat_mul_usize(self.spec_width() as usize, self.spec_height() as usize) as int
    }

    /// The map as a sequence of pixel values in row-major order.
    pub open spec fn pixels(&self) -> Seq<T> {
        Seq::new(
            self.spec_len() as nat,
            |i: int| self.at(i % (self.spec_width() as int), i / (self.spec_width() as int)),
        )
    }

    /// A map holding every pixel. Requires one value per pixel.
    pub fn dense(width: u32, height: u32, values: Vec<T>) -> (r: Self)
        requires
            values@.len() == width as int * height as int,
        ensures
            r.spec_width() == width,
            r.spec_height() == height,
            r.spec_storage_width() == width,
            r.spec_storage_height() == height,
            r.storage() == values@,
    {
        CompactPixelMap { width, height, storage_width: width, storage_height: height, values }
    }

    /// A map repeating a non-empty `storage_width` x `storage_height` tile.
    pub fn repeating(width: u32, height: u32, storage_width: u32, storage_height: u32, values: Vec<T>) -> (r:
        Self)
        requires
            storage_width > 0,
            storage_height > 0,
            values@.len() == storage_width as int * storage_height as int,
        ensures
            r.spec_width() == width,
            r.spec_height() == height,
            r.spec_storage_width() == storage_width,
            r.spec_storage_height() == storage_height,
            r.storage() == values@,
    {
        CompactPixelMap { width, height, storage_width, storage_height, values }
    }

    pub fn len(&self) -> (r: usize)
        ensures
            r == self.spec_len(),
    {
        saturating_mul_usize(self.width as usize, self.height as usize)
    }

    pub fn is_empty(&self) -> (r: bool)
        ensures
            r == (self.spec_len() == 0),
    {
        self.len() == 0
    }

    pub fn width(&self) -> (r: u32)
        ensures
            r == self.spec_width(),
    {
        self.width
    }

    pub fn height(&self) -> (r: u32)
        ensures
            r == self.spec_height(),
    {
        self.height
    }

    pub fn storage_width(&self) -> (r: u32)
        ensures
            r == self.spec_storage_width(),
    {
        self.storage_width
    }

    pub fn storage_height(&self) -> (r: u32)
        ensures
            r == self.spec_storage_height(),
    {
        self.storage_height
    }

    pub fn storage_slice(&self) -> (r: &[T])
        ensures
            r@ == self.storage(),
    {
        self.values.as_slice()
    }

    pub fn storage_parts(&self) -> (r: (u32, u32, &[T]))
        ensures
            r.0 == self.spec_storage_width(),
            r.1 == self.spec_storage_height(),
            r.2@ == self.storage(),
    {
        (self.storage_width, self.storage_height, self.values.as_slice())
    }

    /// Position in the stored tile of pixel `index`.
    fn storage_index(&self, index: usize) -> (r: usize)
        requires
            index < self.spec_len(),
        ensures
            r < self.storage().len(),
            self.storage()[r as int] == self.pixels()[index as int],
    {
        proof {
            use_type_invariant(self);
        }
        let ghost w = self.width as int;
        let ghost h = self.height as int;
        assert(w > 0 && h > 0 && index < w * h) by {
            if w == 0 || h == 0 {
                assert(w * h == 0) by (nonlinear_arith)
                    requires
                        w == 0 || h == 0,
                ;
            }
        }
        proof {
            lemma_row_major_split(index as int, w, h);
        }
        if self.storage_width == self.width && self.storage_height == self.height {
            proof {
                lemma_small_mod((index as int % w) as nat, w as nat);
                lemma_small_mod((index as int / w) as nat, h as nat);
            }
            return index;
        }
        let sw_total = self.values.len();
        if sw_total == 1 {
            proof {
                assert(self.storage_width == 1 && self.storage_height == 1) by (nonlinear_arith)
                    requires
                        self.storage_width as int * self.storage_height as int == 1,
                        self.storage_width >= 0,
                        self.storage_height >= 0,
                ;
            }
            return 0;
        }
        let width = max_u32(self.width, 1) as usize;
        let x = index % width;
        let y = index / width;
        let sh = max_u32(self.storage_height, 1) as usize;
        let sw = max_u32(self.storage_width, 1) as usize;
        proof {
            lemma_mod_bound(y as int, sh as int);
            lemma_mod_bound(x as int, sw as int);
            lemma_row_major_bound((y % sh) as int, (x % sw) as int, sw as int, sh as int);
            lemma_mul_is_commutative(sw as int, sh as int);
        }
        (y % sh) * sw + (x % sw)
    }

    /// The value of pixel `index`, or `None` past the last pixel.
    pub fn get(&self, index: usize) -> (r: Option<&T>)
        ensures
            index < self.spec_len() ==> r == Some(&self.pixels()[index as int]),
            index >= self.spec_len() ==> r.is_none(),
    {
        if index < self.len() {
            let k = self.storage_index(index);
            Some(&self.values[k])
        } else {
            None
        }
    }

    /// The value of pixel `index`, which must exist.
    pub fn value_at(&self, index: usize) -> (r: &T)
        requires
            index < self.spec_len(),
        ensures
            *r == self.pixels()[index as int],
    {
        let k = self.storage_index(index);
        &self.values[k]
    }
}

impl<T: Copy> CompactPixelMap<T> {
    /// Every pixel value in row-major order.
    pub fn to_vec(&self) -> (r: Vec<T>)
        ensures
            r@ == self.pixels(),
    {
        let n = self.len();
        let mut out: Vec<T> = Vec::new();
        let mut i: usize = 0;
        while i < n
            invariant
                n == self.spec_len(),
                0 <= i <= n,
                out@.len() == i,
                forall|k: int| 0 <= k < i ==> #[trigger] out@[k] == self.pixels()[k],
            decreases n - i,
        {
            let v = *self.value_at(i);
            out.push(v);
            i += 1;
        }
        assert(out@ =~= self.pixels());
        out
    }

    /// Row `y` of the map: `width` values.
    pub open spec fn row(&self, y: int) -> Seq<T> {
        Seq::new(self.spec_width() as nat, |x: int| self.at(x, y))
    }

    /// Appends row `y` to `output`; an out-of-range row or an empty map
    /// appends nothing.
    pub fn append_row_to(&self, y: u32, output: &mut Vec<T>)
        ensures
            (y >= self.spec_height() || self.spec_width() == 0 || self.storage().len() == 0) ==> final(output)@ == old(output)@,
            !(y >= self.spec_height() || self.spec_width() == 0 || self.storage().len() == 0) ==> final(output)@ == old(output)@ + self.row(y as int),
    {
        proof {
            use_type_invariant(self);
        }
        if y >= self.height || self.width == 0 || self.values.len() == 0 {
            return;
        }
        let ghost start_out = output@;
        let total = self.values.len();
        let sw = self.storage_width as usize;
        let sh = self.storage_height;
        proof {
            if self.storage_width == 0 || self.storage_height == 0 {
                assert(self.values@.len() == 0) by (nonlinear_arith)
                    requires
                        self.values@.len() == self.storage_width as int * self.storage_height as int,
                        self.storage_width == 0 || self.storage_height == 0,
                ;
            }
        }
        let storage_y = (y % sh) as usize;
        proof {
            lemma_mod_bound(y as int, sh as int);
            lemma_row_major_bound(storage_y as int, 0, sw as int, sh as int);
            lemma_mul_is_commutative(sw as int, sh as int);
            assert(storage_y * sw + sw <= total) by (nonlinear_arith)
                requires
                    storage_y * sw <= (sh - 1) * sw,
                    total == sw * sh,
            ;
        }
        let start = storage_y * sw;
        let ghost row = self.row(y as int);
        let width = self.width as usize;
        let mut done: usize = 0;
        let ghost mut tiles: int = 0;
        while width - done >= sw
            invariant
                sw > 0,
                sw == self.spec_storage_width(),
                sh == self.spec_storage_height(),
                width == self.spec_width(),
                start == storage_y * sw,
                storage_y == y as int % (sh as int),
                start + sw <= total,
                total == self.storage().len(),
                0 <= done <= width,
                done == tiles * sw,
                tiles >= 0,
                row == self.row(y as int),
                output@ == start_out + row.take(done as int),
            decreases width - done,
        {
            let mut k: usize = 0;
            while k < sw
                invariant
                    sw > 0,
                    sw == self.spec_storage_width(),
                    sh == self.spec_storage_height(),
                    width == self.spec_width(),
                    start == storage_y * sw,
                    storage_y == y as int % (sh as int),
                    start + sw <= total,
                    total == self.storage().len(),
                    done + sw <= width,
                    done == tiles * sw,
                    tiles >= 0,
                    0 <= k <= sw,
                    row == self.row(y as int),
                    output@ == start_out + row.take(done + k),
                decreases sw - k,
            {
                proof {
                    let x = done + k;
                    lemma_mod_add_multiples_vanish(k as int, sw as int);
                    assert((tiles * sw + k) % (sw as int) == k as int) by {
                        lemma_fundamental_div_mod_converse(tiles * sw + k, sw as int, tiles, k as int);
                    }
                    assert(row[x as int] == self.at(x as int, y as int));
                    assert(self.at(x as int, y as int) == self.storage()[start + k]);
                }
                output.push(self.values[start + k]);
                proof {
                    assert(row.take(done + k + 1) =~= row.take(done + k).push(row[done + k]));
                }
                k += 1;
            }
            done = done + sw;
            proof {
                assert((tiles + 1) * sw == tiles * sw + sw) by (nonlinear_arith);
                tiles = tiles + 1;
            }
        }
        let rest = width - done;
        let mut k: usize = 0;
        while k < rest
            invariant
                sw > 0,
                rest < sw,
                rest == width - done,
                sw == self.spec_storage_width(),
                sh == self.spec_storage_height(),
                width == self.spec_width(),
                start == storage_y * sw,
                storage_y == y as int % (sh as int),
                start + sw <= total,
                total == self.storage().len(),
                done == tiles * sw,
                tiles >= 0,
                0 <= k <= rest,
                row == self.row(y as int),
                output@ == start_out + row.take(done + k),
            decreases rest - k,
        {
            proof {
                let x = done + k;
                assert((tiles * sw + k) % (sw as int) == k as int) by {
                    lemma_fundamental_div_mod_converse(tiles * sw + k, sw as int, tiles, k as int);
                }
                assert(row[x as int] == self.storage()[start + k]);
            }
            output.push(self.values[start + k]);
            proof {
                assert(row.take(done + k + 1) =~= row.take(done + k).push(row[done + k]));
            }
            k += 1;
        }
        assert(row.take(width as int) =~= row);
    }
}

/// Tile sizes tried, in order, when compacting a dense map.
pub open spec fn period_candidates() -> Seq<u32> {
    seq![1u32, 2, 3, 4, 6, 8, 12, 16, 24, 32, 48, 64]
}

/// Value of pixel `(x, y)` of a dense row-major buffer.
pub open spec fn dense_at<T>(values: Seq<T>, width: int, x: int, y: int) -> T {
    values[row_major(width, x, y)]
}

/// Every pixel equals the pixel at its position modulo `pw` x `ph`.
#[verifier::opaque]
pub open spec fn repeats_with_period<T>(values: Seq<T>, width: int, height: int, pw: int, ph: int) -> bool {
    forall|x: int, y: int|
        0 <= x < width && 0 <= y < height ==> #[trigger] dense_at(values, width, x, y) == dense_at(
            values,
            width,
            x % pw,
            y % ph,
        )
}

/// A tile size may be tried: it fits the image and the period limit.
pub open spec fn period_allowed(period: u32, extent: u32, max_period: u32) -> bool {
    period <= extent && period as int <= spec_max(max_period as int, 1)
}

/// The tile chosen when compacting: heights in candidate order, and for each
/// height the widths in candidate order; the first tile that repeats wins.
pub open spec fn first_period<T>(
    values: Seq<T>,
    width: u32,
    height: u32,
    max_period: u32,
    height_index: int,
    width_index: int,
) -> Option<(u32, u32)>
    decreases 12 - height_index, 12 - width_index,
{
    if height_index < 0 || height_index >= 12 || width_index < 0 {
        None
    } else if !period_allowed(period_candidates()[height_index], height, max_period) || width_index >= 12 {
        first_period(values, width, height, max_period, height_index + 1, 0)
    } else if period_allowed(period_candidates()[width_index], width, max_period) && repeats_with_period(
        values,
        width as int,
        height as int,
        period_candidates()[width_index] as int,
        period_candidates()[height_index] as int,
    ) {
        Some((period_candidates()[width_index], period_candidates()[height_index]))
    } else {
        first_period(values, width, height, max_period, height_index, width_index + 1)
    }
}

/// Largest dense map that compaction will scan.
pub const MAX_COMPACT_SCAN_VALUES: usize = 4_000_000;

/// The tile size `compact_from_dense` keeps, `None` meaning a dense map.
pub open spec fn compact_period<T>(values: Seq<T>, width: u32, height: u32, max_period: u32) -> Option<(u32, u32)> {
    if width == 0 || height == 0 || values.len() == 0 || values.len() > MAX_COMPACT_SCAN_VALUES {
        None
    } else {
        first_period(values, width, height, max_period, 0, 0)
    }
}

fn period_candidate(index: usize) -> (r: u32)
    requires
        index < 12,
    ensures
        r == period_candidates()[index as int],
{
    let candidates: [u32; 12] = [1, 2, 3, 4, 6, 8, 12, 16, 24, 32, 48, 64];
    proof {
        assert(candidates@ =~= period_candidates());
    }
    candidates[index]
}

impl<T: Copy + PartialEq> CompactPixelMap<T> {
    fn repeats(values: &Vec<T>, width: u32, height: u32, pw: u32, ph: u32) -> (r: bool)
        requires
            vstd::laws_eq::obeys_concrete_eq::<T>(),
            values@.len() == width as int * height as int,
            0 < pw <= width,
            0 < ph <= height,
        ensures
            r == repeats_with_period(values@, width as int, height as int, pw as int, ph as int),
    {
        proof {
            reveal(vstd::laws_eq::obeys_concrete_eq);
            reveal(repeats_with_period);
        }
        let w = width as usize;
        let h = height as usize;
        let n = values.len();
        let mut y: usize = 0;
        while y < h
            invariant
                n == values@.len(),
                vstd::laws_eq::obeys_concrete_eq::<T>(),
                w == width,
                h == height,
                values@.len() == w * h,
                0 < pw <= w,
                0 < ph <= h,
                0 <= y <= h,
                forall|xx: int, yy: int|
                    0 <= xx < w && 0 <= yy < y ==> #[trigger] dense_at(values@, w as int, xx, yy)
                        == dense_at(values@, w as int, xx % (pw as int), yy % (ph as int)),
            decreases h - y,
        {
            let mut x: usize = 0;
            while x < w
                invariant
                    n == values@.len(),
                    vstd::laws_eq::obeys_concrete_eq::<T>(),
                    w == width,
                    h == height,
                    values@.len() == w * h,
                    0 < pw <= w,
                    0 < ph <= h,
                    0 <= y < h,
                    0 <= x <= w,
                    forall|xx: int, yy: int|
                        0 <= xx < w && 0 <= yy < y ==> #[trigger] dense_at(values@, w as int, xx, yy)
                            == dense_at(values@, w as int, xx % (pw as int), yy % (ph as int)),
                    forall|xx: int|
                        0 <= xx < x ==> #[trigger] dense_at(values@, w as int, xx, y as int) == dense_at(
                            values@,
                            w as int,
                            xx % (pw as int),
                            y as int % (ph as int),
                        ),
                decreases w - x,
            {
                let sx = x % (pw as usize);
                let sy = y % (ph as usize);
                proof {
                    reveal(vstd::laws_eq::obeys_concrete_eq);
                    reveal(repeats_with_period);
                    lemma_mod_bound(x as int, pw as int);
                    lemma_mod_bound(y as int, ph as int);
                    lemma_row_major_bound(y as int, x as int, w as int, h as int);
                    lemma_row_major_bound(sy as int, sx as int, w as int, h as int);
                    lemma_mul_is_commutative(w as int, h as int);
                }
                let a = values[y * w + x];
                let b = values[sy * w + sx];
                if !(a == b) {
                    proof {
                        assert(!repeats_with_period(values@, width as int, height as int, pw as int, ph as int)) by {
                            assert(dense_at(values@, w as int, x as int, y as int) != dense_at(
                                values@,
                                w as int,
                                x as int % (pw as int),
                                y as int % (ph as int),
                            ));
                        }
                    }
                    return false;
                }
                x += 1;
            }
            y += 1;
        }
        true
    }

    /// Compacts a dense map into the smallest repeating tile among the
    /// candidate sizes (tile heights tried first, each with every width),
    /// both at most `max(max_period, 1)` and within the image. Empty maps and
    /// maps over four million values stay dense. Element equality must be
    /// structural, so that a repeating tile reproduces every pixel exactly.
    pub fn compact_from_dense(width: u32, height: u32, values: Vec<T>, max_period: u32) -> (r: Self)
        requires
            vstd::laws_eq::obeys_concrete_eq::<T>(),
            values@.len() == width as int * height as int,
        ensures
            r.spec_width() == width,
            r.spec_height() == height,
            (match compact_period(values@, width, height, max_period) {
                None => r.spec_storage_width() == width && r.spec_storage_height() == height
                    && r.storage() == values@,
                Some((pw, ph)) => r.spec_storage_width() == pw && r.spec_storage_height() == ph,
            }),
            forall|x: int, y: int|
                0 <= x < width && 0 <= y < height ==> #[trigger] r.at(x, y) == dense_at(
                    values@,
                    width as int,
                    x,
                    y,
                ),
    {
        if width == 0 || height == 0 || values.len() == 0 {
            let r = Self::dense(width, height, values);
            proof {
                Self::lemma_dense_at(&r, values@);
            }
            return r;
        }
        if values.len() > MAX_COMPACT_SCAN_VALUES {
            let r = Self::dense(width, height, values);
            proof {
                Self::lemma_dense_at(&r, values@);
            }
            return r;
        }
        let limit = max_u32(max_period, 1);
        let mut hi: usize = 0;
        while hi < 12
            invariant
                vstd::laws_eq::obeys_concrete_eq::<T>(),
                values@.len() == width as int * height as int,
                width > 0,
                height > 0,
                values@.len() <= MAX_COMPACT_SCAN_VALUES,
                values@.len() > 0,
                limit == spec_max(max_period as int, 1),
                0 <= hi <= 12,
                first_period(values@, width, height, max_period, 0, 0) == first_period(
                    values@,
                    width,
                    height,
                    max_period,
                    hi as int,
                    0,
                ),
            decreases 12 - hi,
        {
            let ph = period_candidate(hi);
            if ph <= height && ph <= limit {
                let mut wi: usize = 0;
                while wi < 12
                    invariant
                        vstd::laws_eq::obeys_concrete_eq::<T>(),
                        values@.len() == width as int * height as int,
                        width > 0,
                        height > 0,
                        values@.len() <= MAX_COMPACT_SCAN_VALUES,
                        values@.len() > 0,
                        limit == spec_max(max_period as int, 1),
                        0 <= hi < 12,
                        ph == period_candidates()[hi as int],
                        period_allowed(ph, height, max_period),
                        0 <= wi <= 12,
                        first_period(values@, width, height, max_period, 0, 0) == first_period(
                            values@,
                            width,
                            height,
                            max_period,
                            hi as int,
                            wi as int,
                        ),
                    decreases 12 - wi,
                {
                    let pw = period_candidate(wi);
                    if pw <= width && pw <= limit && Self::repeats(&values, width, height, pw, ph) {
                        let pattern = Self::tile_of(&values, width, height, pw, ph);
                        let r = Self::repeating(width, height, pw, ph, pattern);
                        proof {
                            Self::lemma_tile_reproduces(&r, values@, width, height, pw, ph);
                        }
                        return r;
                    }
                    wi += 1;
                }
            }
            hi += 1;
        }
        let r = Self::dense(width, height, values);
        proof {
            Self::lemma_dense_at(&r, values@);
        }
        r
    }

    /// The top-left `pw` x `ph` tile of a dense map, row-major.
    fn tile_of(values: &Vec<T>, width: u32, height: u32, pw: u32, ph: u32) -> (r: Vec<T>)
        requires
            values@.len() == width as int * height as int,
            0 < pw <= width,
            0 < ph <= height,
        ensures
            r@.len() == pw as int * ph as int,
            forall|x: int, y: int|
                0 <= x < pw && 0 <= y < ph ==> #[trigger] r@[row_major(pw as int, x, y)] == dense_at(
                    values@,
                    width as int,
                    x,
                    y,
                ),
    {
        let w = width as usize;
        let n = values.len();
        let mut pattern: Vec<T> = Vec::new();
        let mut y: usize = 0;
        while y < ph as usize
            invariant
                n == values@.len(),
                values@.len() == w * height as int,
                w == width,
                0 < pw <= width,
                0 < ph <= height,
                0 <= y <= ph,
                pattern@.len() == y * pw,
                forall|xx: int, yy: int|
                    0 <= xx < pw && 0 <= yy < y ==> #[trigger] pattern@[row_major(pw as int, xx, yy)]
                        == dense_at(values@, w as int, xx, yy),
            decreases ph - y,
        {
            let mut x: usize = 0;
            let ghost before = pattern@;
            while x < pw as usize
                invariant
                    n == values@.len(),
                    values@.len() == w * height as int,
                    w == width,
                    0 < pw <= width,
                    0 < ph <= height,
                    0 <= y < ph,
                    0 <= x <= pw,
                    before.len() == y * pw,
                    pattern@.len() == y * pw + x,
                    forall|k: int| 0 <= k < before.len() ==> #[trigger] pattern@[k] == before[k],
                    forall|xx: int| 0 <= xx < x ==> #[trigger] pattern@[y * pw + xx] == dense_at(values@, w as int, xx, y as int),
                decreases pw - x,
            {
                proof {
                    lemma_row_major_bound(y as int, x as int, w as int, height as int);
                    lemma_mul_is_commutative(w as int, height as int);
                }
                pattern.push(values[y * w + x]);
                x += 1;
            }
            proof {
                assert forall|xx: int, yy: int|
                    0 <= xx < pw && 0 <= yy < y + 1 implies #[trigger] pattern@[row_major(pw as int, xx, yy)]
                        == dense_at(values@, w as int, xx, yy) by {
                    lemma_row_major_bound(yy, xx, pw as int, y as int + 1);
                    if yy < y {
                        lemma_row_major_bound(yy, xx, pw as int, y as int);
                    }
                }
                assert((y as int + 1) * pw == y * pw + pw) by (nonlinear_arith);
            }
            y += 1;
        }
        assert(pattern@.len() == pw as int * ph as int) by (nonlinear_arith)
            requires
                pattern@.len() == y * pw,
                y == ph,
        ;
        pattern
    }

    proof fn lemma_dense_at(r: &Self, values: Seq<T>)
        requires
            r.spec_storage_width() == r.spec_width(),
            r.spec_storage_height() == r.spec_height(),
            r.storage() == values,
        ensures
            forall|x: int, y: int|
                0 <= x < r.spec_width() && 0 <= y < r.spec_height() ==> #[trigger] r.at(x, y) == dense_at(
                    values,
                    r.spec_width() as int,
                    x,
                    y,
                ),
    {
        assert forall|x: int, y: int|
            0 <= x < r.spec_width() && 0 <= y < r.spec_height() implies #[trigger] r.at(x, y) == dense_at(
                values,
                r.spec_width() as int,
                x,
                y,
            ) by {
            lemma_small_mod(x as nat, r.spec_width() as nat);
            lemma_small_mod(y as nat, r.spec_height() as nat);
        }
    }

    proof fn lemma_tile_reproduces(r: &Self, values: Seq<T>, width: u32, height: u32, pw: u32, ph: u32)
        requires
            0 < pw <= width,
            0 < ph <= height,
            r.spec_storage_width() == pw,
            r.spec_storage_height() == ph,
            repeats_with_period(values, width as int, height as int, pw as int, ph as int),
            forall|x: int, y: int|
                0 <= x < pw && 0 <= y < ph ==> #[trigger] r.storage()[row_major(pw as int, x, y)]
                    == dense_at(values, width as int, x, y),
        ensures
            forall|x: int, y: int|
                0 <= x < width && 0 <= y < height ==> #[trigger] r.at(x, y) == dense_at(
                    values,
                    width as int,
                    x,
                    y,
                ),
    {
        reveal(repeats_with_period);
        assert forall|x: int, y: int| 0 <= x < width && 0 <= y < height implies #[trigger] r.at(x, y) == dense_at(
            values,
            width as int,
            x,
            y,
        ) by {
            lemma_mod_bound(x, pw as int);
            lemma_mod_bound(y, ph as int);
            assert(r.storage()[row_major(pw as int, x % (pw as int), y % (ph as int))] == dense_at(
                values,
                width as int,
                x % (pw as int),
                y % (ph as int),
            ));
            assert(dense_at(values, width as int, x, y) == dense_at(values, width as int, x % (pw as int), y % (ph as int)));
        }
    }
}

/// `value` clamped into `[low, high]`.
pub open spec fn clamp_int(value: int, low: int, high: int) -> int {
    if value < low { low } else if value > high { high } else { value }
}

impl<T: Copy> CompactPixelMap<T> {
    /// The value a `width` x `height` window at `(origin_x, origin_y)` sees at
    /// `(x, y)`: the pixel at the window position clamped into the map.
    pub open spec fn clamped_at(&self, origin_x: int, origin_y: int, x: int, y: int) -> T {
        self.at(
            clamp_int(origin_x + x, 0, spec_max(self.spec_width() as int, 1) - 1),
            clamp_int(origin_y + y, 0, spec_max(self.spec_height() as int, 1) - 1),
        )
    }

    /// The window at `(origin_x, origin_y)` lies inside the map.
    pub open spec fn window_inside(&self, origin_x: int, origin_y: int, width: u32, height: u32) -> bool {
        &&& origin_x >= 0
        &&& origin_y >= 0
        &&& origin_x + width <= spec_max(self.spec_width() as int, 1)
        &&& origin_y + height <= spec_max(self.spec_height() as int, 1)
    }

    /// The pixels that a repeating window copies into its tile exist.
    pub open spec fn tile_window_on_map(&self, origin_x: int, origin_y: int, width: u32, height: u32) -> bool {
        &&& origin_x + spec_min(self.spec_storage_width() as int, spec_max(width as int, 1)) <= self.spec_width()
        &&& origin_y + spec_min(self.spec_storage_height() as int, spec_max(height as int, 1)) <= self.spec_height()
    }

    /// The stored tile is smaller than the map.
    pub open spec fn is_repeating(&self) -> bool {
        self.spec_storage_width() < self.spec_width() || self.spec_storage_height() < self.spec_height()
    }

    /// A `width` x `height` window of the map whose pixels outside the map
    /// repeat the nearest edge pixel. A window inside a repeating map stays
    /// repeating, with a tile no larger than the window; any other window is
    /// stored densely.
    pub fn subregion_clamped(&self, origin_x: i64, origin_y: i64, width: u32, height: u32) -> (r: Self)
        requires
            self.spec_width() as int * self.spec_height() as int <= u32::MAX,
            (width > 0 && height > 0) ==> self.spec_len() > 0,
            (self.window_inside(origin_x as int, origin_y as int, width, height) && self.is_repeating())
                ==> self.tile_window_on_map(origin_x as int, origin_y as int, width, height),
            origin_x + width <= i64::MAX,
            origin_y + height <= i64::MAX,
            width as int * height as int <= usize::MAX,
        ensures
            r.spec_width() == width,
            r.spec_height() == height,
            forall|x: int, y: int|
                0 <= x < width && 0 <= y < height ==> #[trigger] r.at(x, y) == self.clamped_at(
                    origin_x as int,
                    origin_y as int,
                    x,
                    y,
                ),
            (self.window_inside(origin_x as int, origin_y as int, width, height) && self.is_repeating()) ==> (
            r.spec_storage_width() == spec_min(self.spec_storage_width() as int, spec_max(width as int, 1))
                && r.spec_storage_height() == spec_min(
                self.spec_storage_height() as int,
                spec_max(height as int, 1),
            )),
            !(self.window_inside(origin_x as int, origin_y as int, width, height) && self.is_repeating()) ==> (
            r.spec_storage_width() == width && r.spec_storage_height() == height),
    {
        let source_width: i64 = max_u32(self.width, 1) as i64;
        let source_height: i64 = max_u32(self.height, 1) as i64;
        let fully_inside = origin_x >= 0 && origin_y >= 0 && origin_x + width as i64 <= source_width
            && origin_y + height as i64 <= source_height;
        let repeating = self.storage_width < self.width || self.storage_height < self.height;
        if fully_inside && repeating {
            return self.repeating_window(origin_x, origin_y, width, height);
        }
        self.dense_window(origin_x, origin_y, width, height)
    }

    fn pixel_index(&self, x: u32, y: u32) -> (r: usize)
        requires
            x < self.spec_width(),
            y < self.spec_height(),
            self.spec_width() as int * self.spec_height() as int <= u32::MAX,
        ensures
            r == row_major(self.spec_width() as int, x as int, y as int),
            r < self.spec_len(),
    {
        proof {
            lemma_row_major_bound(y as int, x as int, self.width as int, self.height as int);
            lemma_mul_is_commutative(self.width as int, self.height as int);
        }
        (y * self.width + x) as usize
    }

    proof fn lemma_pixel_value(&self, x: int, y: int)
        requires
            0 <= x < self.spec_width(),
            0 <= y < self.spec_height(),
            self.spec_width() as int * self.spec_height() as int <= u32::MAX,
        ensures
            self.pixels()[row_major(self.spec_width() as int, x, y)] == self.at(x, y),
            row_major(self.spec_width() as int, x, y) < self.spec_len(),
    {
        lemma_row_major_bound(y, x, self.spec_width() as int, self.spec_height() as int);
        lemma_mul_is_commutative(self.spec_width() as int, self.spec_height() as int);
        lemma_row_major_join(x, y, self.spec_width() as int);
    }

    fn repeating_window(&self, origin_x: i64, origin_y: i64, width: u32, height: u32) -> (r: Self)
        requires
            self.spec_width() as int * self.spec_height() as int <= u32::MAX,
            (width > 0 && height > 0) ==> self.spec_len() > 0,
            self.window_inside(origin_x as int, origin_y as int, width, height),
            self.is_repeating(),
            self.tile_window_on_map(origin_x as int, origin_y as int, width, height),
        ensures
            r.spec_width() == width,
            r.spec_height() == height,
            r.spec_storage_width() == spec_min(self.spec_storage_width() as int, spec_max(width as int, 1)),
            r.spec_storage_height() == spec_min(self.spec_storage_height() as int, spec_max(height as int, 1)),
            forall|x: int, y: int|
                0 <= x < width && 0 <= y < height ==> #[trigger] r.at(x, y) == self.clamped_at(
                    origin_x as int,
                    origin_y as int,
                    x,
                    y,
                ),
    {
        proof {
            use_type_invariant(self);
        }
        let pattern_width = min_u32(self.storage_width, max_u32(width, 1));
        let pattern_height = min_u32(self.storage_height, max_u32(height, 1));
        let ghost sw = self.storage_width as int;
        let ghost sh = self.storage_height as int;
        proof {
            // A repeating map has a non-empty tile, and the window lies on
            // real pixels.
            assert(sw > 0 && sh > 0);
            assert(self.width > 0 && self.height > 0);
        }
        let mut pattern: Vec<T> = Vec::new();
        let mut y: u32 = 0;
        while y < pattern_height
            invariant
                0 < pattern_width <= sw,
                0 < pattern_height <= sh,
                pattern_width == spec_min(sw, spec_max(width as int, 1)),
                pattern_height == spec_min(sh, spec_max(height as int, 1)),
                sw == self.spec_storage_width(),
                sh == self.spec_storage_height(),
                self.spec_width() > 0 && self.spec_height() > 0,
                self.spec_width() as int * self.spec_height() as int <= u32::MAX,
                self.window_inside(origin_x as int, origin_y as int, width, height),
                self.tile_window_on_map(origin_x as int, origin_y as int, width, height),
                0 <= y <= pattern_height,
                pattern@.len() == y * pattern_width,
                forall|xx: int, yy: int|
                    0 <= xx < pattern_width && 0 <= yy < y ==> #[trigger] pattern@[row_major(
                        pattern_width as int,
                        xx,
                        yy,
                    )] == self.at(origin_x + xx, origin_y + yy),
            decreases pattern_height - y,
        {
            let mut x: u32 = 0;
            let ghost before = pattern@;
            while x < pattern_width
                invariant
                    0 < pattern_width <= sw,
                    0 < pattern_height <= sh,
                    pattern_width == spec_min(sw, spec_max(width as int, 1)),
                    pattern_height == spec_min(sh, spec_max(height as int, 1)),
                    sw == self.spec_storage_width(),
                    sh == self.spec_storage_height(),
                    self.spec_width() > 0 && self.spec_height() > 0,
                    self.spec_width() as int * self.spec_height() as int <= u32::MAX,
                    self.window_inside(origin_x as int, origin_y as int, width, height),
                    self.tile_window_on_map(origin_x as int, origin_y as int, width, height),
                    0 <= y < pattern_height,
                    0 <= x <= pattern_width,
                    before.len() == y * pattern_width,
                    pattern@.len() == y * pattern_width + x,
                    forall|k: int| 0 <= k < before.len() ==> #[trigger] pattern@[k] == before[k],
                    forall|xx: int|
                        0 <= xx < x ==> #[trigger] pattern@[y * pattern_width + xx] == self.at(
                            origin_x + xx,
                            origin_y + y,
                        ),
                decreases pattern_width - x,
            {
                let source_x = (origin_x + x as i64) as u32;
                let source_y = (origin_y + y as i64) as u32;
                let index = self.pixel_index(source_x, source_y);
                proof {
                    self.lemma_pixel_value(source_x as int, source_y as int);
                }
                pattern.push(*self.value_at(index));
                x += 1;
            }
            proof {
                assert forall|xx: int, yy: int|
                    0 <= xx < pattern_width && 0 <= yy < y + 1 implies #[trigger] pattern@[row_major(
                        pattern_width as int,
                        xx,
                        yy,
                    )] == self.at(origin_x + xx, origin_y + yy) by {
                    lemma_row_major_bound(yy, xx, pattern_width as int, y as int + 1);
                    if yy < y {
                        lemma_row_major_bound(yy, xx, pattern_width as int, y as int);
                    }
                }
                assert((y as int + 1) * pattern_width == y * pattern_width + pattern_width) by (nonlinear_arith);
            }
            y += 1;
        }
        proof {
            assert(pattern@.len() == pattern_width as int * pattern_height as int) by (nonlinear_arith)
                requires
                    pattern@.len() == y * pattern_width,
                    y == pattern_height,
            ;
        }
        let r = Self::repeating(width, height, pattern_width, pattern_height, pattern);
        proof {
            assert forall|x: int, y: int|
                0 <= x < width && 0 <= y < height implies #[trigger] r.at(x, y) == self.clamped_at(
                    origin_x as int,
                    origin_y as int,
                    x,
                    y,
                ) by {
                let pw = pattern_width as int;
                let ph = pattern_height as int;
                lemma_mod_bound(x, pw);
                lemma_mod_bound(y, ph);
                assert(r.at(x, y) == self.at(origin_x + x % pw, origin_y + y % ph));
                if pw == sw {
                    lemma_add_mod_noop_right(origin_x as int, x, sw);
                } else {
                    lemma_small_mod(x as nat, pw as nat);
                }
                if ph == sh {
                    lemma_add_mod_noop_right(origin_y as int, y, sh);
                } else {
                    lemma_small_mod(y as nat, ph as nat);
                }
                assert(self.at(origin_x + x % pw, origin_y + y % ph) == self.at(origin_x + x, origin_y + y));
            }
        }
        r
    }

    fn clamp_i64(value: i64, low: i64, high: i64) -> (r: i64)
        requires
            low <= high,
        ensures
            r == clamp_int(value as int, low as int, high as int),
    {
        if value < low {
            low
        } else if value > high {
            high
        } else {
            value
        }
    }

    fn dense_window(&self, origin_x: i64, origin_y: i64, width: u32, height: u32) -> (r: Self)
        requires
            self.spec_width() as int * self.spec_height() as int <= u32::MAX,
            (width > 0 && height > 0) ==> self.spec_len() > 0,
            origin_x + width <= i64::MAX,
            origin_y + height <= i64::MAX,
            width as int * height as int <= usize::MAX,
        ensures
            r.spec_width() == width,
            r.spec_height() == height,
            r.spec_storage_width() == width,
            r.spec_storage_height() == height,
            forall|x: int, y: int|
                0 <= x < width && 0 <= y < height ==> #[trigger] r.at(x, y) == self.clamped_at(
                    origin_x as int,
                    origin_y as int,
                    x,
                    y,
                ),
    {
        let source_width: i64 = max_u32(self.width, 1) as i64;
        let source_height: i64 = max_u32(self.height, 1) as i64;
        let mut values: Vec<T> = Vec::new();
        let mut y: u32 = 0;
        while y < height
            invariant
                self.spec_width() as int * self.spec_height() as int <= u32::MAX,
                (width > 0 && height > 0) ==> self.spec_len() > 0,
                origin_x + width <= i64::MAX,
                origin_y + height <= i64::MAX,
                source_width == spec_max(self.spec_width() as int, 1),
                source_height == spec_max(self.spec_height() as int, 1),
                0 <= y <= height,
                values@.len() == y * width,
                forall|xx: int, yy: int|
                    0 <= xx < width && 0 <= yy < y ==> #[trigger] values@[row_major(width as int, xx, yy)]
                        == self.clamped_at(origin_x as int, origin_y as int, xx, yy),
            decreases height - y,
        {
            let ghost before = values@;
            let source_y = Self::clamp_i64(origin_y + y as i64, 0, source_height - 1) as u32;
            let mut x: u32 = 0;
            while x < width
                invariant
                    self.spec_width() as int * self.spec_height() as int <= u32::MAX,
                    (width > 0 && height > 0) ==> self.spec_len() > 0,
                    origin_x + width <= i64::MAX,
                    source_width == spec_max(self.spec_width() as int, 1),
                    source_height == spec_max(self.spec_height() as int, 1),
                    0 <= y < height,
                    source_y == clamp_int(origin_y + y, 0, source_height - 1),
                    0 <= x <= width,
                    before.len() == y * width,
                    values@.len() == y * width + x,
                    forall|k: int| 0 <= k < before.len() ==> #[trigger] values@[k] == before[k],
                    forall|xx: int|
                        0 <= xx < x ==> #[trigger] values@[y * width + xx] == self.clamped_at(
                            origin_x as int,
                            origin_y as int,
                            xx,
                            y as int,
                        ),
                decreases width - x,
            {
                let source_x = Self::clamp_i64(origin_x + x as i64, 0, source_width - 1) as u32;
                proof {
                    assert(self.spec_len() > 0);
                    assert(self.spec_width() > 0 && self.spec_height() > 0) by {
                        if self.spec_width() == 0 || self.spec_height() == 0 {
                            assert(self.spec_width() as int * self.spec_height() as int == 0) by (nonlinear_arith)
                                requires
                                    self.spec_width() == 0 || self.spec_height() == 0,
                            ;
                        }
                    }
                }
                let index = self.pixel_index(source_x, source_y);
                proof {
                    self.lemma_pixel_value(source_x as int, source_y as int);
                }
                values.push(*self.value_at(index));
                x += 1;
            }
            proof {
                assert forall|xx: int, yy: int|
                    0 <= xx < width && 0 <= yy < y + 1 implies #[trigger] values@[row_major(width as int, xx, yy)]
                        == self.clamped_at(origin_x as int, origin_y as int, xx, yy) by {
                    lemma_row_major_bound(yy, xx, width as int, y as int + 1);
                    if yy < y {
                        lemma_row_major_bound(yy, xx, width as int, y as int);
                    }
                }
                assert((y as int + 1) * width == y * width + width) by (nonlinear_arith);
            }
            y += 1;
        }
        proof {
            assert(values@.len() == width as int * height as int) by (nonlinear_arith)
                requires
                    values@.len() == y * width,
                    y == height,
            ;
        }
        let r = Self::dense(width, height, values);
        proof {
            assert forall|x: int, y: int|
                0 <= x < width && 0 <= y < height implies #[trigger] r.at(x, y) == self.clamped_at(
                    origin_x as int,
                    origin_y as int,
                    x,
                    y,
                ) by {
                lemma_small_mod(x as nat, width as nat);
                lemma_small_mod(y as nat, height as nat);
            }
        }
        r
    }
}

} // verus!
