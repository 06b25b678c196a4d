//! Integer core of the `SnapshotMatches` condition: box-filter downscaling of
//! luma buffers and the symmetric 3×3-neighbourhood pixel comparison.
//!
//! A luma buffer of a `w`×`h` image holds `w * h` values in row-major order;
//! the pixel at `(x, y)` is at index `y * w + x`.
use vstd::prelude::*;

use vstd::arithmetic::div_mod::lemma_fundamental_div_mod_converse;

verus! {

pub open spec fn pixel_at(v: Seq<i32>, width: int, x: int, y: int) -> i32 {
    v[y * width + x]
}

/// Sum of `n` consecutive values starting at `start`.
pub open spec fn row_sum(luma: Seq<i32>, start: int, n: nat) -> int
    decreases n,
{
    if n == 0 {
        0
    } else {
        row_sum(luma, start, (n - 1) as nat) + luma[start + n - 1] as int
    }
}

/// Sum of the first `rows` rows of the `k`-wide block whose top-left corner
/// is `(x0, y0)`.
pub open spec fn block_sum(luma: Seq<i32>, w: int, k: nat, x0: int, y0: int, rows: nat) -> int
    decreases rows,
{
    if rows == 0 {
        0
    } else {
        block_sum(luma, w, k, x0, y0, (rows - 1) as nat) + row_sum(luma, (y0 + rows - 1) * w + x0, k)
    }
}

/// Integer division rounding toward zero, as `/` on signed integers does.
pub open spec fn div_toward_zero(a: int, b: int) -> int {
    if a >= 0 {
        a / b
    } else {
        -((-a) / b)
    }
}

/// Mean of the `k`×`k` block whose top-left corner is `(x0, y0)`.
pub open spec fn block_mean(luma: Seq<i32>, w: int, k: nat, x0: int, y0: int) -> int {
    div_toward_zero(block_sum(luma, w, k, x0, y0, k), (k * k) as int)
}

/// The `(w / k)`×`(h / k)` image whose pixels are the means of the `k`×`k`
/// blocks of `luma`.
pub open spec fn downscaled(luma: Seq<i32>, w: int, h: int, k: nat) -> Seq<i32> {
    let ow = w / (k as int);
    let oh = h / (k as int);
    Seq::new(
        (ow * oh) as nat,
        |i: int| block_mean(luma, w, k, (i % ow) * k, (i / ow) * k) as i32,
    )
}

proof fn lemma_row_sum_bounds(luma: Seq<i32>, start: int, n: nat)
    ensures
        n * -0x8000_0000 <= row_sum(luma, start, n) <= n * 0x7fff_ffff,
    decreases n,
{
    if n > 0 {
        lemma_row_sum_bounds(luma, start, (n - 1) as nat);
        assert(-0x8000_0000 <= luma[start + n - 1] as int <= 0x7fff_ffff);
    }
}

proof fn lemma_block_sum_bounds(luma: Seq<i32>, w: int, k: nat, x0: int, y0: int, rows: nat)
    ensures
        (rows * k) * -0x8000_0000 <= block_sum(luma, w, k, x0, y0, rows) <= (rows * k) * 0x7fff_ffff,
    decreases rows,
{
    if rows > 0 {
        let r1 = (rows - 1) as nat;
        lemma_block_sum_bounds(luma, w, k, x0, y0, r1);
        lemma_row_sum_bounds(luma, (y0 + rows - 1) * w + x0, k);
        assert(rows * k == r1 * k + k) by (nonlinear_arith)
            requires
                r1 + 1 == rows,
        ;
    }
}

/// `a` over `b`, rounded toward zero, lies within the same `i32` bounds as
/// every value summed into `a`.
proof fn lemma_mean_fits(a: int, b: int)
    requires
        b >= 1,
        b * -0x8000_0000 <= a <= b * 0x7fff_ffff,
    ensures
        -0x8000_0000 <= div_toward_zero(a, b) <= 0x7fff_ffff,
{
    if a >= 0 {
        assert(0 <= a / b <= 0x7fff_ffff) by (nonlinear_arith)
            requires
                b >= 1,
                0 <= a <= b * 0x7fff_ffff,
        ;
    } else {
        assert(0 <= (-a) / b <= 0x8000_0000) by (nonlinear_arith)
            requires
                b >= 1,
                0 <= -a <= b * 0x8000_0000,
        ;
    }
}

/// An index `y * w + x` of a pixel inside a `w`×`h` image is below `w * h`.
proof fn lemma_index_in_image(w: int, h: int, x: int, y: int)
    requires
        0 <= x < w,
        0 <= y < h,
    ensures
        0 <= y * w + x < w * h,
{
    assert(0 <= y * w + x < w * h) by (nonlinear_arith)
        requires
            0 <= x < w,
            0 <= y < h,
    ;
}

/// Mean of one `k`×`k` block of a `w`×`h` buffer.
fn mean_of_block(luma: &Vec<i32>, w: u32, h: u32, k: u32, x0: u32, y0: u32) -> (r: i32)
    requires
        k >= 1,
        k * k <= u32::MAX,
        w * h <= u32::MAX,
        luma@.len() >= w * h,
        x0 + k <= w,
        y0 + k <= h,
    ensures
        r as int == block_mean(luma@, w as int, k as nat, x0 as int, y0 as int),
        all_nonneg(luma@) ==> r >= 0,
{
    let ghost kk: int = k * k;
    let mut sum: i64 = 0;
    let mut dy: u32 = 0;
    while dy < k
        invariant
            k >= 1,
            kk == k * k,
            kk <= u32::MAX,
            w * h <= u32::MAX,
            luma@.len() >= w * h,
            x0 + k <= w,
            y0 + k <= h,
            dy <= k,
            sum as int == block_sum(luma@, w as int, k as nat, x0 as int, y0 as int, dy as nat),
            all_nonneg(luma@) ==> sum >= 0,
        decreases k - dy,
    {
        let ghost bk: int = dy * k;
        proof {
            lemma_block_sum_bounds(luma@, w as int, k as nat, x0 as int, y0 as int, dy as nat);
            assert(bk + k <= kk) by (nonlinear_arith)
                requires
                    dy < k,
                    bk == dy * k,
                    kk == k * k,
            ;
        }
        let y = y0 + dy;
        let ghost base = sum as int;
        let mut dx: u32 = 0;
        while dx < k
            invariant
                k >= 1,
                kk == k * k,
                kk <= u32::MAX,
                w * h <= u32::MAX,
                luma@.len() >= w * h,
                x0 + k <= w,
                y == y0 + dy,
                y < h,
                dy < k,
                dx <= k,
                bk == dy * k,
                bk + k <= kk,
                base == block_sum(luma@, w as int, k as nat, x0 as int, y0 as int, dy as nat),
                bk * -0x8000_0000 <= base <= bk * 0x7fff_ffff,
                sum as int == base + row_sum(luma@, y * w + x0, dx as nat),
                all_nonneg(luma@) ==> sum >= 0,
            decreases k - dx,
        {
            let x = x0 + dx;
            proof {
                lemma_index_in_image(w as int, h as int, x as int, y as int);
                lemma_row_sum_bounds(luma@, y * w + x0, dx as nat);
                assert(-0x8000_0000 <= luma@[y * w + x] as int <= 0x7fff_ffff);
            }
            let idx = y * w + x;
            sum = sum + luma[idx as usize] as i64;
            dx = dx + 1;
        }
        proof {
            assert(dy * k + k == (dy + 1) * k) by (nonlinear_arith);
        }
        dy = dy + 1;
    }
    proof {
        lemma_block_sum_bounds(luma@, w as int, k as nat, x0 as int, y0 as int, k as nat);
        assert(1 <= kk) by (nonlinear_arith)
            requires
                k >= 1,
                kk == k * k,
        ;
        lemma_mean_fits(sum as int, kk);
        if sum >= 0 {
            let si = sum as int;
            assert(si / kk >= 0) by (nonlinear_arith)
                requires
                    si >= 0,
                    kk >= 1,
            ;
        }
    }
    let k2: i64 = (k * k) as i64;
    let mean: i64 = if sum >= 0 {
        sum / k2
    } else {
        -((-sum) / k2)
    };
    mean as i32
}

/// Box-filter downscale by the integer factor `k`: the result is
/// `(w / k)`×`(h / k)`, each pixel the mean of the matching `k`×`k` block.
/// Rendering noise such as text antialiasing averages out, while coarse
/// pattern differences survive as differences in mean intensity. Only the
/// first `w * h` values of a longer buffer are read.
pub fn downscale_luma(luma: &Vec<i32>, w: u32, h: u32, k: u32) -> (r: (Vec<i32>, u32, u32))
    requires
        k >= 1,
        k * k <= u32::MAX,
        w * h <= u32::MAX,
        luma@.len() >= w * h,
    ensures
        r.1 == w / k,
        r.2 == h / k,
        r.0@ == downscaled(luma@, w as int, h as int, k as nat),
        all_nonneg(luma@) ==> all_nonneg(r.0@),
{
    let ow = w / k;
    let oh = h / k;
    let ghost expected = downscaled(luma@, w as int, h as int, k as nat);
    proof {
        assert(ow * k <= w && oh * k <= h) by (nonlinear_arith)
            requires
                k >= 1,
                ow == w / k,
                oh == h / k,
        ;
        assert(ow * oh <= w * h) by (nonlinear_arith)
            requires
                ow * k <= w,
                oh * k <= h,
                k >= 1,
        ;
    }
    let mut out: Vec<i32> = Vec::new();
    let mut oy: u32 = 0;
    while oy < oh
        invariant
            k >= 1,
            k * k <= u32::MAX,
            w * h <= u32::MAX,
            luma@.len() >= w * h,
            ow == w / k,
            oh == h / k,
            ow * k <= w,
            oh * k <= h,
            ow * oh <= w * h,
            expected == downscaled(luma@, w as int, h as int, k as nat),
            oy <= oh,
            out@.len() == oy * ow,
            out@.len() <= expected.len(),
            forall|i: int| 0 <= i < out@.len() ==> out@[i] == expected[i],
            all_nonneg(luma@) ==> all_nonneg(out@),
        decreases oh - oy,
    {
        let mut ox: u32 = 0;
        while ox < ow
            invariant
                k >= 1,
                k * k <= u32::MAX,
                w * h <= u32::MAX,
                luma@.len() >= w * h,
                ow == w / k,
                oh == h / k,
                ow * k <= w,
                oh * k <= h,
                ow * oh <= w * h,
                expected == downscaled(luma@, w as int, h as int, k as nat),
                oy < oh,
                ox <= ow,
                out@.len() == oy * ow + ox,
                out@.len() <= expected.len(),
                forall|i: int| 0 <= i < out@.len() ==> out@[i] == expected[i],
                all_nonneg(luma@) ==> all_nonneg(out@),
            decreases ow - ox,
        {
            proof {
                assert(ox * k + k <= w && oy * k + k <= h) by (nonlinear_arith)
                    requires
                        ox < ow,
                        oy < oh,
                        ow * k <= w,
                        oh * k <= h,
                ;
                assert(oy * ow + ox < oh * ow && oh * ow == ow * oh) by (nonlinear_arith)
                    requires
                        ox < ow,
                        oy < oh,
                ;
            }
            let m = mean_of_block(luma, w, h, k, ox * k, oy * k);
            proof {
                let i = oy * ow + ox;
                lemma_fundamental_div_mod_converse(i as int, ow as int, oy as int, ox as int);
                assert(expected[i as int] == m);
            }
            out.push(m);
            ox = ox + 1;
        }
        proof {
            assert(oy * ow + ow == (oy + 1) * ow) by (nonlinear_arith);
        }
        oy = oy + 1;
    }
    assert(oh * ow == ow * oh) by (nonlinear_arith);
    assert(out@ =~= expected);
    (out, ow, oh)
}

// ── Comparison ────────────────────────────────────────────────────────────────

pub open spec fn abs_int(a: int) -> int {
    if a < 0 {
        -a
    } else {
        a
    }
}

/// Every value is non-negative, as luma values are.
pub open spec fn all_nonneg(v: Seq<i32>) -> bool {
    forall|i: int| 0 <= i < v.len() ==> 0 <= #[trigger] v[i]
}

/// `(nx, ny)` lies in the 3×3 neighbourhood of `(x, y)` and inside the
/// `iw`×`ih` image.
pub open spec fn is_neighbor(iw: int, ih: int, x: int, y: int, nx: int, ny: int) -> bool {
    x - 1 <= nx <= x + 1 && y - 1 <= ny <= y + 1 && 0 <= nx < iw && 0 <= ny < ih
}

/// Some pixel of the neighbourhood of `(x, y)` in `luma` is within `t` of `val`.
pub open spec fn has_close_neighbor(
    val: int,
    luma: Seq<i32>,
    iw: int,
    ih: int,
    x: int,
    y: int,
    t: int,
) -> bool {
    exists|nx: int, ny: int|
        is_neighbor(iw, ih, x, y, nx, ny) && abs_int(val - #[trigger] pixel_at(luma, iw, nx, ny)) <= t
}

/// Pixel `(x, y)` fails unless each image has, near it, a pixel within `t` of
/// the other image's value there.
pub open spec fn pixel_fails(
    a: Seq<i32>,
    aw: int,
    ah: int,
    g: Seq<i32>,
    gw: int,
    gh: int,
    t: int,
    x: int,
    y: int,
) -> bool {
    !(has_close_neighbor(pixel_at(a, aw, x, y) as int, g, gw, gh, x, y, t) && has_close_neighbor(
        pixel_at(g, gw, x, y) as int,
        a,
        aw,
        ah,
        x,
        y,
        t,
    ))
}

/// Failing pixels among the first `n` of row `y`.
pub open spec fn failing_in_row(
    a: Seq<i32>,
    aw: int,
    ah: int,
    g: Seq<i32>,
    gw: int,
    gh: int,
    t: int,
    y: int,
    n: nat,
) -> nat
    decreases n,
{
    if n == 0 {
        0
    } else {
        failing_in_row(a, aw, ah, g, gw, gh, t, y, (n - 1) as nat) + if pixel_fails(
            a,
            aw,
            ah,
            g,
            gw,
            gh,
            t,
            n - 1,
            y,
        ) {
            1nat
        } else {
            0nat
        }
    }
}

/// Failing pixels in the first `rows` rows of width `w`.
pub open spec fn failing_count(
    a: Seq<i32>,
    aw: int,
    ah: int,
    g: Seq<i32>,
    gw: int,
    gh: int,
    t: int,
    w: nat,
    rows: nat,
) -> nat
    decreases rows,
{
    if rows == 0 {
        0
    } else {
        failing_count(a, aw, ah, g, gw, gh, t, w, (rows - 1) as nat) + failing_in_row(
            a,
            aw,
            ah,
            g,
            gw,
            gh,
            t,
            rows - 1,
            w,
        )
    }
}

proof fn lemma_failing_in_row_bound(
    a: Seq<i32>,
    aw: int,
    ah: int,
    g: Seq<i32>,
    gw: int,
    gh: int,
    t: int,
    y: int,
    n: nat,
)
    ensures
        failing_in_row(a, aw, ah, g, gw, gh, t, y, n) <= n,
    decreases n,
{
    if n > 0 {
        lemma_failing_in_row_bound(a, aw, ah, g, gw, gh, t, y, (n - 1) as nat);
    }
}

proof fn lemma_failing_count_bound(
    a: Seq<i32>,
    aw: int,
    ah: int,
    g: Seq<i32>,
    gw: int,
    gh: int,
    t: int,
    w: nat,
    rows: nat,
)
    ensures
        failing_count(a, aw, ah, g, gw, gh, t, w, rows) <= rows * w,
    decreases rows,
{
    if rows > 0 {
        lemma_failing_count_bound(a, aw, ah, g, gw, gh, t, w, (rows - 1) as nat);
        lemma_failing_in_row_bound(a, aw, ah, g, gw, gh, t, rows - 1, w);
        assert((rows - 1) * w + w == rows * w) by (nonlinear_arith);
    }
}

/// Distance from `val` to the closest pixel of the neighbourhood of `(x, y)`.
fn min_neighbor_dist(val: i32, luma: &Vec<i32>, x: u32, y: u32, iw: u32, ih: u32) -> (r: i32)
    requires
        x < iw,
        y < ih,
        iw * ih <= u32::MAX,
        luma@.len() == iw * ih,
        0 <= val,
        all_nonneg(luma@),
    ensures
        forall|nx: int, ny: int|
            is_neighbor(iw as int, ih as int, x as int, y as int, nx, ny) ==> r <= abs_int(
                val - #[trigger] pixel_at(luma@, iw as int, nx, ny),
            ),
        exists|nx: int, ny: int|
            is_neighbor(iw as int, ih as int, x as int, y as int, nx, ny) && r == abs_int(
                val - #[trigger] pixel_at(luma@, iw as int, nx, ny),
            ),
{
    let mut min_d: i32 = i32::MAX;
    let mut found: bool = false;
    let mut dy: u32 = 0;
    while dy < 3
        invariant
            x < iw,
            y < ih,
            iw * ih <= u32::MAX,
            luma@.len() == iw * ih,
            0 <= val,
            all_nonneg(luma@),
            dy <= 3,
            forall|nx: int, ny: int|
                is_neighbor(iw as int, ih as int, x as int, y as int, nx, ny) && ny < y - 1 + dy
                    ==> min_d <= abs_int(val - #[trigger] pixel_at(luma@, iw as int, nx, ny)),
            found ==> exists|nx: int, ny: int|
                is_neighbor(iw as int, ih as int, x as int, y as int, nx, ny) && min_d == abs_int(
                    val - #[trigger] pixel_at(luma@, iw as int, nx, ny),
                ),
            dy >= 2 ==> found,
            !found ==> min_d == i32::MAX,
        decreases 3 - dy,
    {
        let mut dx: u32 = 0;
        while dx < 3
            invariant
                x < iw,
                y < ih,
                iw * ih <= u32::MAX,
                luma@.len() == iw * ih,
                0 <= val,
                all_nonneg(luma@),
                dy < 3,
                dx <= 3,
                forall|nx: int, ny: int|
                    is_neighbor(iw as int, ih as int, x as int, y as int, nx, ny) && (ny < y - 1 + dy
                        || (ny == y - 1 + dy && nx < x - 1 + dx)) ==> min_d <= abs_int(
                        val - #[trigger] pixel_at(luma@, iw as int, nx, ny),
                    ),
                found ==> exists|nx: int, ny: int|
                    is_neighbor(iw as int, ih as int, x as int, y as int, nx, ny) && min_d
                        == abs_int(val - #[trigger] pixel_at(luma@, iw as int, nx, ny)),
                (dy >= 2 || (dy == 1 && dx >= 2)) ==> found,
                !found ==> min_d == i32::MAX,
            decreases 3 - dx,
        {
            if (dy >= 1 || y >= 1) && (dx >= 1 || x >= 1) {
                let ny = if dy == 0 {
                    y - 1
                } else {
                    y + (dy - 1)
                };
                let nx = if dx == 0 {
                    x - 1
                } else {
                    x + (dx - 1)
                };
                if nx < iw && ny < ih {
                    proof {
                        lemma_index_in_image(iw as int, ih as int, nx as int, ny as int);
                        assert(0 <= luma@[ny * iw + nx]);
                    }
                    let p = luma[(ny * iw + nx) as usize];
                    let diff = val - p;
                    let d = if diff < 0 {
                        -diff
                    } else {
                        diff
                    };
                    assert(d == abs_int(val - pixel_at(luma@, iw as int, nx as int, ny as int)));
                    if d < min_d {
                        min_d = d;
                    }
                    found = true;
                }
            }
            dx = dx + 1;
        }
        dy = dy + 1;
    }
    min_d
}

/// Counts the pixels of the `w`×`h` overlap that fail the symmetric
/// neighbourhood comparison at tolerance `t`.
fn count_failing(
    a: &Vec<i32>,
    aw: u32,
    ah: u32,
    g: &Vec<i32>,
    gw: u32,
    gh: u32,
    w: u32,
    h: u32,
    t: i32,
) -> (r: usize)
    requires
        w <= aw,
        w <= gw,
        h <= ah,
        h <= gh,
        aw * ah <= u32::MAX,
        gw * gh <= u32::MAX,
        a@.len() == aw * ah,
        g@.len() == gw * gh,
        all_nonneg(a@),
        all_nonneg(g@),
    ensures
        r == failing_count(a@, aw as int, ah as int, g@, gw as int, gh as int, t as int, w as nat, h as nat),
{
    let ghost fc = |rows: nat|
        failing_count(a@, aw as int, ah as int, g@, gw as int, gh as int, t as int, w as nat, rows);
    proof {
        assert(w * h <= aw * ah) by (nonlinear_arith)
            requires
                w <= aw,
                h <= ah,
        ;
    }
    let mut count: usize = 0;
    let mut y: u32 = 0;
    while y < h
        invariant
            w <= aw,
            w <= gw,
            h <= ah,
            h <= gh,
            aw * ah <= u32::MAX,
            gw * gh <= u32::MAX,
            w * h <= u32::MAX,
            a@.len() == aw * ah,
            g@.len() == gw * gh,
            all_nonneg(a@),
            all_nonneg(g@),
            y <= h,
            count == failing_count(a@, aw as int, ah as int, g@, gw as int, gh as int, t as int, w as nat, y as nat),
        decreases h - y,
    {
        proof {
            lemma_failing_count_bound(a@, aw as int, ah as int, g@, gw as int, gh as int, t as int, w as nat, y as nat);
            assert(y * w + w <= w * h) by (nonlinear_arith)
                requires
                    y < h,
            ;
        }
        let ghost base = count as int;
        let mut x: u32 = 0;
        while x < w
            invariant
                w <= aw,
                w <= gw,
                h <= ah,
                h <= gh,
                aw * ah <= u32::MAX,
                gw * gh <= u32::MAX,
                a@.len() == aw * ah,
                g@.len() == gw * gh,
                all_nonneg(a@),
                all_nonneg(g@),
                y < h,
                x <= w,
                base + w <= u32::MAX,
                count == base + failing_in_row(a@, aw as int, ah as int, g@, gw as int, gh as int, t as int, y as int, x as nat),
            decreases w - x,
        {
            proof {
                lemma_failing_in_row_bound(a@, aw as int, ah as int, g@, gw as int, gh as int, t as int, y as int, x as nat);
                lemma_index_in_image(aw as int, ah as int, x as int, y as int);
                lemma_index_in_image(gw as int, gh as int, x as int, y as int);
                assert(0 <= a@[y * aw + x]);
                assert(0 <= g@[y * gw + x]);
            }
            let la = a[(y * aw + x) as usize];
            let lg = g[(y * gw + x) as usize];
            let da = min_neighbor_dist(la, g, x, y, gw, gh);
            let dg = min_neighbor_dist(lg, a, x, y, aw, ah);
            let ok = da <= t && dg <= t;
            proof {
                let pa = pixel_at(a@, aw as int, x as int, y as int) as int;
                let pg = pixel_at(g@, gw as int, x as int, y as int) as int;
                if da <= t {
                    let (nx, ny) = choose|nx: int, ny: int|
                        is_neighbor(gw as int, gh as int, x as int, y as int, nx, ny) && da == abs_int(
                            la - #[trigger] pixel_at(g@, gw as int, nx, ny),
                        );
                    assert(abs_int(pa - pixel_at(g@, gw as int, nx, ny)) <= t);
                } else {
                    assert forall|nx: int, ny: int|
                        is_neighbor(gw as int, gh as int, x as int, y as int, nx, ny) implies !(abs_int(
                            pa - #[trigger] pixel_at(g@, gw as int, nx, ny),
                        ) <= t) by {}
                }
                if dg <= t {
                    let (nx, ny) = choose|nx: int, ny: int|
                        is_neighbor(aw as int, ah as int, x as int, y as int, nx, ny) && dg == abs_int(
                            lg - #[trigger] pixel_at(a@, aw as int, nx, ny),
                        );
                    assert(abs_int(pg - pixel_at(a@, aw as int, nx, ny)) <= t);
                } else {
                    assert forall|nx: int, ny: int|
                        is_neighbor(aw as int, ah as int, x as int, y as int, nx, ny) implies !(abs_int(
                            pg - #[trigger] pixel_at(a@, aw as int, nx, ny),
                        ) <= t) by {}
                }
                assert(ok == !pixel_fails(a@, aw as int, ah as int, g@, gw as int, gh as int, t as int, x as int, y as int));
            }
            if !ok {
                count = count + 1;
            }
            x = x + 1;
        }
        y = y + 1;
    }
    count
}


/// Outcome of comparing two luma buffers.
#[derive(Debug, Clone, Copy, PartialEq, Eq, Structural)]
pub enum SnapshotVerdict {
    /// Width or height differ by more than two pixels.
    DimensionMismatch,
    /// Nothing is left to compare after downscaling.
    TooSmall,
    /// `failing` of the `total` compared pixels failed.
    Compared { failing: usize, total: usize },
}

pub open spec fn abs_diff(a: int, b: int) -> int {
    if a < b {
        b - a
    } else {
        a - b
    }
}

pub open spec fn min_int(a: int, b: int) -> int {
    if a < b {
        a
    } else {
        b
    }
}

/// The buffer and its dimensions after downscaling by `k` (untouched at `k == 1`).
pub open spec fn scaled(luma: Seq<i32>, w: int, h: int, k: nat) -> (Seq<i32>, int, int) {
    if k == 1 {
        (luma, w, h)
    } else {
        (downscaled(luma, w, h, k), w / (k as int), h / (k as int))
    }
}

/// The verdict on an actual `aw`×`ah` and a golden `gw`×`gh` luma buffer,
/// downscaled by `downscale` (at least 1) and compared at tolerance `t` over
/// the overlap of the two.
pub open spec fn snapshot_verdict(
    a: Seq<i32>,
    aw: int,
    ah: int,
    g: Seq<i32>,
    gw: int,
    gh: int,
    downscale: nat,
    t: int,
) -> SnapshotVerdict {
    if abs_diff(aw, gw) > 2 || abs_diff(ah, gh) > 2 {
        SnapshotVerdict::DimensionMismatch
    } else {
        let k: nat = if downscale >= 1 {
            downscale
        } else {
            1
        };
        let sa = scaled(a, aw, ah, k);
        let sg = scaled(g, gw, gh, k);
        let w = min_int(sa.1, sg.1);
        let h = min_int(sa.2, sg.2);
        if w == 0 || h == 0 {
            SnapshotVerdict::TooSmall
        } else {
            SnapshotVerdict::Compared {
                failing: failing_count(sa.0, sa.1, sa.2, sg.0, sg.1, sg.2, t, w as nat, h as nat) as usize,
                total: (w * h) as usize,
            }
        }
    }
}

fn scale(luma: Vec<i32>, w: u32, h: u32, k: u32) -> (r: (Vec<i32>, u32, u32))
    requires
        k >= 1,
        k * k <= u32::MAX,
        w * h <= u32::MAX,
        luma@.len() == w * h,
        all_nonneg(luma@),
    ensures
        (r.0@, r.1 as int, r.2 as int) == scaled(luma@, w as int, h as int, k as nat),
        r.1 * r.2 <= u32::MAX,
        r.0@.len() == r.1 * r.2,
        all_nonneg(r.0@),
{
    if k == 1 {
        (luma, w, h)
    } else {
        let r = downscale_luma(&luma, w, h, k);
        proof {
            assert(r.1 * r.2 <= w * h) by (nonlinear_arith)
                requires
                    k >= 1,
                    r.1 == w / k,
                    r.2 == h / k,
            ;
        }
        r
    }
}

/// Compares an actual and a golden luma buffer: dimensions first (more than
/// two pixels apart in either direction is a mismatch), then, after
/// downscaling both by `downscale` (at least 1), every pixel of their
/// overlap. A pixel fails unless each image has, in the other's 3×3
/// neighbourhood of it, a value within `threshold` of its own.
pub fn compare_luma(
    a: Vec<i32>,
    aw: u32,
    ah: u32,
    g: Vec<i32>,
    gw: u32,
    gh: u32,
    downscale: u32,
    threshold: i32,
) -> (r: SnapshotVerdict)
    requires
        aw * ah <= u32::MAX,
        gw * gh <= u32::MAX,
        a@.len() == aw * ah,
        g@.len() == gw * gh,
        all_nonneg(a@),
        all_nonneg(g@),
        downscale * downscale <= u32::MAX,
    ensures
        r == snapshot_verdict(
            a@,
            aw as int,
            ah as int,
            g@,
            gw as int,
            gh as int,
            downscale as nat,
            threshold as int,
        ),
{
    let wd = if aw < gw {
        gw - aw
    } else {
        aw - gw
    };
    let hd = if ah < gh {
        gh - ah
    } else {
        ah - gh
    };
    if wd > 2 || hd > 2 {
        return SnapshotVerdict::DimensionMismatch;
    }
    let k = if downscale >= 1 {
        downscale
    } else {
        1
    };
    assert(k * k <= u32::MAX) by (nonlinear_arith)
        requires
            downscale * downscale <= u32::MAX,
            k == downscale || k == 1,
    ;
    let (a_buf, aw2, ah2) = scale(a, aw, ah, k);
    let (g_buf, gw2, gh2) = scale(g, gw, gh, k);
    let w = if aw2 < gw2 {
        aw2
    } else {
        gw2
    };
    let h = if ah2 < gh2 {
        ah2
    } else {
        gh2
    };
    if w == 0 || h == 0 {
        return SnapshotVerdict::TooSmall;
    }
    proof {
        assert(w * h <= aw2 * ah2) by (nonlinear_arith)
            requires
                w <= aw2,
                h <= ah2,
        ;
    }
    let failing = count_failing(&a_buf, aw2, ah2, &g_buf, gw2, gh2, w, h, threshold);
    SnapshotVerdict::Compared { failing, total: (w * h) as usize }
}

} // verus!
