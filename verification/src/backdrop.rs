//! The frosted background: what is behind the window, made small and blurred.
//!
//! Most of the blur comes of making the picture small; drawing it large again
//! with smoothing does the rest. Pictures are BGRA, four bytes to a pixel, row
//! by row from the top.
use vstd::arithmetic::div_mod::*;
use vstd::arithmetic::mul::*;
use vstd::prelude::*;

verus! {

/// Longest side of the small picture.
pub const BLUR_SIZE: u32 = 84;

/// How far one pass of the blur reaches.
pub const BLUR_RADIUS: u32 = 2;

/// Passes of the blur.
pub const BLUR_PASSES: u32 = 3;

/// A picture to be drawn behind everything.
pub struct Backdrop {
    pub width: u32,
    pub height: u32,
    pub bgra: Vec<u8>,
}

/// The sum of `f` from `a` up to `b`, which is left out.
pub open spec fn sum(f: spec_fn(int) -> int, a: int, b: int) -> int
    decreases b - a,
{
    if a >= b {
        0
    } else {
        sum(f, a, b - 1) + f(b - 1)
    }
}

// ---- blurring ----------------------------------------------------------------------------

/// The mean of `n` bytes, the first at `start` and each `stride` after the one
/// before.
pub open spec fn mean_of(px: Seq<u8>, start: int, stride: int, n: int) -> int {
    sum(|k: int| px[start + k * stride] as int, 0, n) / n
}

/// First place of those within `r` of `x`.
pub open spec fn from(x: int, r: int) -> int {
    if x > r {
        x - r
    } else {
        0
    }
}

/// The place after the last of those within `r` of `x`, there being `n`.
pub open spec fn to(x: int, r: int, n: int) -> int {
    if x + r + 1 < n {
        x + r + 1
    } else {
        n
    }
}

/// Every colour of `px`, `w` pixels wide and `h` tall, made the mean of those
/// within `r` to its left and right; the fourth byte of a pixel stays.
pub open spec fn across(px: Seq<u8>, w: int, h: int, r: int) -> Seq<u8> {
    Seq::new(
        px.len(),
        |i: int|
            {
                let (x, y, c) = (i / 4 % w, i / 4 / w, i % 4);
                if c == 3 || i >= w * h * 4 {
                    px[i]
                } else {
                    let (a, b) = (from(x, r), to(x, r, w));
                    mean_of(px, (y * w + a) * 4 + c, 4, b - a) as u8
                }
            },
    )
}

/// The same upwards and downwards.
pub open spec fn along(px: Seq<u8>, w: int, h: int, r: int) -> Seq<u8> {
    Seq::new(
        px.len(),
        |i: int|
            {
                let (x, y, c) = (i / 4 % w, i / 4 / w, i % 4);
                if c == 3 || i >= w * h * 4 {
                    px[i]
                } else {
                    let (a, b) = (from(y, r), to(y, r, h));
                    mean_of(px, (a * w + x) * 4 + c, w * 4, b - a) as u8
                }
            },
    )
}

/// One pass of the blur.
pub open spec fn blurred(px: Seq<u8>, w: int, h: int, r: int) -> Seq<u8> {
    along(across(px, w, h, r), w, h, r)
}

proof fn lemma_sum_bound(f: spec_fn(int) -> int, a: int, b: int)
    requires
        a <= b,
        forall|k: int| a <= k < b ==> 0 <= #[trigger] f(k) <= 255,
    ensures
        0 <= sum(f, a, b) <= 255 * (b - a),
    decreases b - a,
{
    if a < b {
        lemma_sum_bound(f, a, b - 1);
    }
}

/// The mean of bytes that stand at even distances.
fn mean(px: &Vec<u8>, start: usize, stride: usize, n: usize) -> (r: u8)
    requires
        n >= 1,
        start + (n - 1) * stride < px@.len(),
    ensures
        r == mean_of(px@, start as int, stride as int, n as int) as u8,
{
    let ghost f = |k: int| px@[start + k * stride] as int;
    let len: usize = px.len();
    let mut total: u128 = 0;
    let mut at: usize = start;
    let mut k: usize = 0;
    assert(n <= 0xFFFF_FFFF_FFFF_FFFF);
    while k < n
        invariant
            1 <= n <= 0xFFFF_FFFF_FFFF_FFFF,
            k <= n,
            k < n ==> at == start + k * stride,
            start + (n - 1) * stride < px@.len() == len,
            f == (|k: int| px@[start + k * stride] as int),
            total == sum(f, 0, k as int),
            total <= 255 * k,
        decreases n - k,
    {
        proof {
            lemma_mul_inequality(k as int, n - 1, stride as int);
            assert(f(k as int) == px@[start + k * stride] as int);
        }
        total = total + px[at] as u128;
        if k + 1 < n {
            proof {
                lemma_mul_inequality(k + 1, n - 1, stride as int);
                lemma_mul_is_distributive_add_other_way(stride as int, k as int, 1);
            }
            at = at + stride;
        }
        k = k + 1;
    }
    proof {
        lemma_sum_bound(f, 0, n as int);
        assert(total / (n as u128) <= 255) by (nonlinear_arith)
            requires
                n >= 1,
                0 <= total <= 255 * n,
        ;
    }
    (total / n as u128) as u8
}

proof fn lemma_pixel(p: int, w: int, h: int)
    requires
        0 < w,
        0 < h,
        0 <= p < w * h,
    ensures
        0 <= p % w < w,
        0 <= p / w < h,
        p == p / w * w + p % w,
{
    lemma_fundamental_div_mod(p, w);
    lemma_mod_bound(p, w);
    lemma_mul_is_commutative(w, p / w);
    lemma_div_pos_is_pos(p, w);
    assert(p / w < h) by (nonlinear_arith)
        requires
            p == p / w * w + p % w,
            0 <= p % w,
            p < w * h,
            0 < w,
    ;
}

/// A pixel further on in a row, or up or down in a column, is one of the
/// picture.
proof fn lemma_inside(x: int, y: int, w: int, h: int, c: int)
    requires
        0 <= x < w,
        0 <= y < h,
        0 <= c < 4,
    ensures
        0 <= (y * w + x) * 4 + c < w * h * 4,
        0 <= y * w,
        0 <= y * w + x < w * h,
{
    assert(0 <= y * w && y * w + w <= w * h) by (nonlinear_arith)
        requires
            0 <= y < h,
            0 < w,
    ;
}

fn blur_across(px: &Vec<u8>, w: usize, h: usize, r: usize) -> (out: Vec<u8>)
    requires
        w * h * 4 <= px@.len(),
    ensures
        out@ == across(px@, w as int, h as int, r as int),
{
    let ghost want = across(px@, w as int, h as int, r as int);
    let mut out: Vec<u8> = Vec::new();
    let mut i: usize = 0;
    if w == 0 || h == 0 {
        assert(w * h == 0) by (nonlinear_arith)
            requires
                w == 0 || h == 0,
        ;
        while i < px.len()
            invariant
                w * h == 0,
                i <= px@.len(),
                want == across(px@, w as int, h as int, r as int),
                out@ == want.take(i as int),
            decreases px@.len() - i,
        {
            out.push(px[i]);
            assert(want[i as int] == px@[i as int]);
            assert(want.take(i + 1) =~= want.take(i as int).push(want[i as int]));
            i += 1;
        }
        assert(want.take(i as int) =~= want);
        return out;
    }
    assert(0 <= w * h <= px@.len()) by (nonlinear_arith)
        requires
            w * h * 4 <= px@.len(),
            0 <= w,
            0 <= h,
    ;
    let _len: usize = px.len();
    let end: usize = w * h * 4;
    while i < px.len()
        invariant
            0 < w,
            0 < h,
            end == w * h * 4,
            end <= px@.len(),
            i <= px@.len(),
            want == across(px@, w as int, h as int, r as int),
            out@ == want.take(i as int),
        decreases px@.len() - i,
    {
        let c: usize = i % 4;
        if c == 3 || i >= end {
            out.push(px[i]);
            assert(want[i as int] == px@[i as int]);
        } else {
            let p: usize = i / 4;
            proof {
                assert(p < w * h);
                lemma_pixel(p as int, w as int, h as int);
            }
            let x: usize = p % w;
            let y: usize = p / w;
            let a: usize = if x > r {
                x - r
            } else {
                0
            };
            let b: usize = if w - x > r && w - x - r > 1 {
                x + r + 1
            } else {
                w
            };
            proof {
                lemma_inside(a as int, y as int, w as int, h as int, c as int);
                lemma_inside(b - 1, y as int, w as int, h as int, c as int);
                assert((y * w + a) * 4 + c + (b - a - 1) * 4 == (y * w + (b - 1)) * 4 + c);
            }
            let m: u8 = mean(px, (y * w + a) * 4 + c, 4, b - a);
            out.push(m);
            assert(want[i as int] == m);
        }
        assert(want.take(i + 1) =~= want.take(i as int).push(want[i as int]));
        i += 1;
    }
    assert(want.take(i as int) =~= want);
    out
}

fn blur_along(px: &Vec<u8>, w: usize, h: usize, r: usize) -> (out: Vec<u8>)
    requires
        w * h * 4 <= px@.len(),
    ensures
        out@ == along(px@, w as int, h as int, r as int),
{
    let ghost want = along(px@, w as int, h as int, r as int);
    let mut out: Vec<u8> = Vec::new();
    let mut i: usize = 0;
    if w == 0 || h == 0 {
        assert(w * h == 0) by (nonlinear_arith)
            requires
                w == 0 || h == 0,
        ;
        while i < px.len()
            invariant
                w * h == 0,
                i <= px@.len(),
                want == along(px@, w as int, h as int, r as int),
                out@ == want.take(i as int),
            decreases px@.len() - i,
        {
            out.push(px[i]);
            assert(want[i as int] == px@[i as int]);
            assert(want.take(i + 1) =~= want.take(i as int).push(want[i as int]));
            i += 1;
        }
        assert(want.take(i as int) =~= want);
        return out;
    }
    assert(0 <= w * h <= px@.len() && w * 4 <= px@.len()) by (nonlinear_arith)
        requires
            w * h * 4 <= px@.len(),
            0 < w,
            0 < h,
    ;
    let _len: usize = px.len();
    let end: usize = w * h * 4;
    while i < px.len()
        invariant
            0 < w,
            0 < h,
            w * 4 <= px@.len(),
            end == w * h * 4,
            end <= px@.len(),
            i <= px@.len(),
            want == along(px@, w as int, h as int, r as int),
            out@ == want.take(i as int),
        decreases px@.len() - i,
    {
        let c: usize = i % 4;
        if c == 3 || i >= end {
            out.push(px[i]);
            assert(want[i as int] == px@[i as int]);
        } else {
            let p: usize = i / 4;
            proof {
                assert(p < w * h);
                lemma_pixel(p as int, w as int, h as int);
            }
            let x: usize = p % w;
            let y: usize = p / w;
            let a: usize = if y > r {
                y - r
            } else {
                0
            };
            let b: usize = if h - y > r && h - y - r > 1 {
                y + r + 1
            } else {
                h
            };
            proof {
                lemma_inside(x as int, a as int, w as int, h as int, c as int);
                lemma_inside(x as int, b - 1, w as int, h as int, c as int);
                assert((a * w + x) * 4 + c + (b - a - 1) * (w * 4) == ((b - 1) * w + x) * 4 + c)
                    by (nonlinear_arith);
            }
            let m: u8 = mean(px, (a * w + x) * 4 + c, w * 4, b - a);
            out.push(m);
            assert(want[i as int] == m);
        }
        assert(want.take(i + 1) =~= want.take(i as int).push(want[i as int]));
        i += 1;
    }
    assert(want.take(i as int) =~= want);
    out
}

/// One pass of the blur: every colour becomes the mean of its neighbours,
/// first sideways, then up and down.
pub fn box_blur(px: &Vec<u8>, w: u32, h: u32, r: u32) -> (out: Vec<u8>)
    requires
        w * h * 4 <= px@.len(),
    ensures
        out@ == blurred(px@, w as int, h as int, r as int),
{
    let tmp = blur_across(px, w as usize, h as usize, r as usize);
    blur_along(&tmp, w as usize, h as usize, r as usize)
}

// ---- making small -------------------------------------------------------------------------

/// Where the part of `n` that makes up the `t`-th of `m` starts.
pub open spec fn part_start(t: int, n: int, m: int) -> int {
    t * n / m
}

/// Where it ends: it is never empty.
pub open spec fn part_end(t: int, n: int, m: int) -> int {
    let end = (t + 1) * n / m;
    let least = part_start(t, n, m) + 1;
    let end = if end > least {
        end
    } else {
        least
    };
    if end < n {
        end
    } else {
        n
    }
}

/// The sum of one colour over a block of a picture `w` pixels wide.
pub open spec fn block_sum(
    raw: Seq<u8>,
    w: int,
    x0: int,
    x1: int,
    y0: int,
    y1: int,
    c: int,
) -> int {
    sum(|y: int| sum(|x: int| raw[(y * w + x) * 4 + c] as int, x0, x1), y0, y1)
}

/// The picture `raw`, `w` pixels wide and `h` tall, made `sw` wide and `sh`
/// tall: every pixel the mean of the block it stands for, and opaque.
pub open spec fn reduced(raw: Seq<u8>, w: int, h: int, sw: int, sh: int) -> Seq<u8> {
    Seq::new(
        (sw * sh * 4) as nat,
        |i: int|
            {
                let (x, y, c) = (i / 4 % sw, i / 4 / sw, i % 4);
                if c == 3 {
                    255u8
                } else {
                    let (x0, x1) = (part_start(x, w, sw), part_end(x, w, sw));
                    let (y0, y1) = (part_start(y, h, sh), part_end(y, h, sh));
                    (block_sum(raw, w, x0, x1, y0, y1, c) / ((x1 - x0) * (y1 - y0))) as u8
                }
            },
    )
}

proof fn lemma_part(t: int, n: int, m: int)
    requires
        0 <= t < m,
        m <= n,
    ensures
        0 <= part_start(t, n, m) < part_end(t, n, m) <= n,
{
    assert(0 <= t * n <= (m - 1) * n) by (nonlinear_arith)
        requires
            0 <= t < m,
            m <= n,
    ;
    lemma_div_pos_is_pos(t * n, m);
    lemma_fundamental_div_mod(t * n, m);
    lemma_mod_bound(t * n, m);
    let q = t * n / m;
    assert(q < n) by (nonlinear_arith)
        requires
            m * q <= t * n,
            t * n <= (m - 1) * n,
            0 < m,
            0 < n,
    ;
}

fn part(t: usize, n: usize, m: usize) -> (r: (usize, usize))
    requires
        t < m <= n,
    ensures
        r.0 == part_start(t as int, n as int, m as int),
        r.1 == part_end(t as int, n as int, m as int),
        r.0 < r.1 <= n,
{
    assert(n <= 0xFFFF_FFFF_FFFF_FFFF);
    assert(0 <= t * n <= (t + 1) * n <= 0xFFFF_FFFF_FFFF_FFFF * 0xFFFF_FFFF_FFFF_FFFF)
        by (nonlinear_arith)
        requires
            0 <= t < m <= n <= 0xFFFF_FFFF_FFFF_FFFF,
    ;
    proof {
        lemma_part(t as int, n as int, m as int);
    }
    let start: u128 = t as u128 * n as u128 / m as u128;
    let end: u128 = (t as u128 + 1) * n as u128 / m as u128;
    let end: u128 = if end > start + 1 {
        end
    } else {
        start + 1
    };
    let end: u128 = if end < n as u128 {
        end
    } else {
        n as u128
    };
    (start as usize, end as usize)
}

/// The sum of one colour over a stretch of a row.
fn row_sum(raw: &Vec<u8>, w: usize, y: usize, x0: usize, x1: usize, c: usize) -> (r: u128)
    requires
        x0 <= x1 <= w,
        c < 3,
        (y * w + w) * 4 <= raw@.len(),
    ensures
        r == sum(|x: int| raw@[(y * w + x) * 4 + c] as int, x0 as int, x1 as int),
        r <= 255 * (x1 - x0),
{
    let ghost f = |x: int| raw@[(y * w + x) * 4 + c] as int;
    let _len: usize = raw.len();
    assert(w <= 0xFFFF_FFFF_FFFF_FFFF);
    assert(0 <= y * w) by (nonlinear_arith);
    let mut total: u128 = 0;
    let mut x: usize = x0;
    while x < x1
        invariant
            x0 <= x <= x1 <= w <= 0xFFFF_FFFF_FFFF_FFFF,
            c < 3,
            0 <= y * w,
            (y * w + w) * 4 <= raw@.len() == _len,
            f == (|x: int| raw@[(y * w + x) * 4 + c] as int),
            total == sum(f, x0 as int, x as int),
            total <= 255 * (x - x0),
        decreases x1 - x,
    {
        assert(f(x as int) == raw@[(y * w + x) * 4 + c] as int);
        total = total + raw[(y * w + x) * 4 + c] as u128;
        x = x + 1;
    }
    total
}

proof fn lemma_rows(y: int, y1: int, w: int, h: int)
    requires
        0 <= y < y1 <= h,
        0 <= w,
    ensures
        0 <= y * w,
        (y * w + w) * 4 <= w * h * 4,
{
    assert(0 <= y * w && y * w + w <= w * h) by (nonlinear_arith)
        requires
            0 <= y < h,
            0 <= w,
    ;
}

/// The mean of one colour over a block.
fn block_mean(
    raw: &Vec<u8>,
    w: usize,
    h: usize,
    xs: (usize, usize),
    ys: (usize, usize),
    c: usize,
) -> (r: u8)
    requires
        xs.0 < xs.1 <= w,
        ys.0 < ys.1 <= h,
        c < 3,
        w * h * 4 <= raw@.len(),
    ensures
        r == (block_sum(
            raw@,
            w as int,
            xs.0 as int,
            xs.1 as int,
            ys.0 as int,
            ys.1 as int,
            c as int,
        ) / ((xs.1 - xs.0) * (ys.1 - ys.0))) as u8,
{
    let (x0, x1) = xs;
    let (y0, y1) = ys;
    let ghost g = |y: int|
        sum(|x: int| raw@[(y * w + x) * 4 + c] as int, x0 as int, x1 as int);
    let _len: usize = raw.len();
    assert(w <= 0xFFFF_FFFF_FFFF_FFFF && h <= 0xFFFF_FFFF_FFFF_FFFF);
    assert((x1 - x0) * (y1 - y0) <= w * h) by (nonlinear_arith)
        requires
            0 < x1 - x0 <= w,
            0 < y1 - y0 <= h,
    ;
    assert(0 < (x1 - x0) * (y1 - y0)) by (nonlinear_arith)
        requires
            0 < x1 - x0,
            0 < y1 - y0,
    ;
    let mut total: u128 = 0;
    let mut y: usize = y0;
    while y < y1
        invariant
            x0 < x1 <= w,
            y0 <= y <= y1 <= h,
            c < 3,
            w * h * 4 <= raw@.len() == _len,
            0 < (x1 - x0) * (y1 - y0) <= w * h,
            g == (|y: int|
                sum(|x: int| raw@[(y * w + x) * 4 + c] as int, x0 as int, x1 as int)),
            total == sum(g, y0 as int, y as int),
            total <= 255 * ((x1 - x0) * (y - y0)),
        decreases y1 - y,
    {
        proof {
            lemma_rows(y as int, y1 as int, w as int, h as int);
            lemma_mul_is_distributive_add((x1 - x0) as int, y - y0, 1);
            lemma_mul_inequality(y - y0, y1 - y0, (x1 - x0) as int);
            lemma_mul_is_commutative((x1 - x0) as int, y - y0);
            lemma_mul_is_commutative((x1 - x0) as int, y1 - y0);
            assert(g(y as int) == sum(
                |x: int| raw@[(y * w + x) * 4 + c] as int,
                x0 as int,
                x1 as int,
            ));
        }
        total = total + row_sum(raw, w, y, x0, x1, c);
        y = y + 1;
    }
    let n: u128 = (x1 - x0) as u128 * (y1 - y0) as u128;
    proof {
        assert(total / n <= 255) by (nonlinear_arith)
            requires
                n >= 1,
                0 <= total <= 255 * n,
        ;
    }
    (total / n) as u8
}

/// Makes a picture small.
pub fn downscale(raw: &Vec<u8>, w: u32, h: u32, sw: u32, sh: u32) -> (out: Vec<u8>)
    requires
        w * h * 4 <= raw@.len(),
        1 <= sw <= w,
        1 <= sh <= h,
    ensures
        out@ == reduced(raw@, w as int, h as int, sw as int, sh as int),
        out@.len() == sw * sh * 4,
{
    let (w, h, sw, sh): (usize, usize, usize, usize) = (
        w as usize,
        h as usize,
        sw as usize,
        sh as usize,
    );
    let ghost want = reduced(raw@, w as int, h as int, sw as int, sh as int);
    let _len: usize = raw.len();
    assert(0 <= sw * sh <= w * h) by (nonlinear_arith)
        requires
            1 <= sw <= w,
            1 <= sh <= h,
    ;
    let end: usize = sw * sh * 4;
    let mut out: Vec<u8> = Vec::new();
    let mut i: usize = 0;
    while i < end
        invariant
            1 <= sw <= w,
            1 <= sh <= h,
            w * h * 4 <= raw@.len(),
            end == sw * sh * 4,
            i <= end,
            want == reduced(raw@, w as int, h as int, sw as int, sh as int),
            want.len() == end,
            out@ == want.take(i as int),
        decreases end - i,
    {
        let c: usize = i % 4;
        let m: u8 = if c == 3 {
            255
        } else {
            let p: usize = i / 4;
            proof {
                lemma_pixel(p as int, sw as int, sh as int);
            }
            let xs = part(p % sw, w, sw);
            let ys = part(p / sw, h, sh);
            block_mean(raw, w, h, xs, ys, c)
        };
        out.push(m);
        assert(want[i as int] == m);
        assert(want.take(i + 1) =~= want.take(i as int).push(want[i as int]));
        i += 1;
    }
    assert(want.take(i as int) =~= want);
    out
}

/// A picture blurred `times` times.
pub open spec fn blurred_often(px: Seq<u8>, w: int, h: int, r: int, times: nat) -> Seq<u8>
    decreases times,
{
    if times == 0 {
        px
    } else {
        blurred(blurred_often(px, w, h, r, (times - 1) as nat), w, h, r)
    }
}

/// What is behind the window, made `sw` pixels wide and `sh` tall and blurred.
pub fn downscale_blur(raw: &Vec<u8>, w: u32, h: u32, sw: u32, sh: u32) -> (b: Backdrop)
    requires
        w * h * 4 <= raw@.len(),
        1 <= sw <= w,
        1 <= sh <= h,
    ensures
        b.width == sw,
        b.height == sh,
        b.bgra@ == blurred_often(
            reduced(raw@, w as int, h as int, sw as int, sh as int),
            sw as int,
            sh as int,
            BLUR_RADIUS as int,
            BLUR_PASSES as nat,
        ),
{
    let mut bgra = downscale(raw, w, h, sw, sh);
    let ghost small = bgra@;
    let mut k: u32 = 0;
    while k < BLUR_PASSES
        invariant
            k <= BLUR_PASSES,
            bgra@.len() == sw * sh * 4,
            bgra@ == blurred_often(small, sw as int, sh as int, BLUR_RADIUS as int, k as nat),
        decreases BLUR_PASSES - k,
    {
        bgra = box_blur(&bgra, sw, sh, BLUR_RADIUS);
        k += 1;
    }
    Backdrop { width: sw, height: sh, bgra }
}

// ---- what blurring keeps ---------------------------------------------------------------------

/// Blurring leaves the size as it is, and a picture that is opaque stays so.
pub proof fn law_blurring_keeps_pictures_opaque(px: Seq<u8>, w: int, h: int, r: int, i: int)
    requires
        0 <= i < px.len(),
        i % 4 == 3,
    ensures
        blurred(px, w, h, r).len() == px.len(),
        blurred(px, w, h, r)[i] == px[i],
{
}

proof fn lemma_sum_of_one(f: spec_fn(int) -> int, v: int, a: int, b: int)
    requires
        a <= b,
        forall|k: int| a <= k < b ==> #[trigger] f(k) == v,
    ensures
        sum(f, a, b) == v * (b - a),
    decreases b - a,
{
    if a < b {
        lemma_sum_of_one(f, v, a, b - 1);
        lemma_mul_is_distributive_add(v, b - a - 1, 1);
    } else {
        lemma_mul_by_zero_is_zero(v);
    }
}

proof fn lemma_mean_of_one(px: Seq<u8>, start: int, stride: int, n: int, v: u8)
    requires
        n >= 1,
        forall|k: int| 0 <= k < n ==> px[#[trigger] (start + k * stride)] == v,
    ensures
        mean_of(px, start, stride, n) as u8 == v,
{
    let f = |k: int| px[start + k * stride] as int;
    assert forall|k: int| 0 <= k < n implies #[trigger] f(k) == v by {
        assert(px[start + k * stride] == v);
    }
    lemma_sum_of_one(f, v as int, 0, n);
    lemma_div_multiples_vanish(v as int, n);
    lemma_mul_is_commutative(v as int, n);
}

/// Every pixel has one colour.
pub open spec fn plain(px: Seq<u8>, colour: Seq<u8>) -> bool {
    forall|i: int| 0 <= i < px.len() ==> #[trigger] px[i] == colour[i % 4]
}

proof fn lemma_across_keeps_plain(px: Seq<u8>, w: int, h: int, r: int, colour: Seq<u8>)
    requires
        0 < w,
        0 < h,
        0 <= r,
        w * h * 4 <= px.len(),
        plain(px, colour),
    ensures
        across(px, w, h, r) == px,
{
    let out = across(px, w, h, r);
    assert forall|i: int| 0 <= i < px.len() implies #[trigger] out[i] == px[i] by {
        let c = i % 4;
        if c != 3 && i < w * h * 4 {
            let p = i / 4;
            assert(p < w * h);
            lemma_pixel(p, w, h);
            let (x, y) = (p % w, p / w);
            let (a, b) = (from(x, r), to(x, r, w));
            let start = (y * w + a) * 4 + c;
            assert forall|k: int| 0 <= k < b - a implies px[#[trigger] (start + k * 4)]
                == px[i] by {
                lemma_inside(a + k, y, w, h, c);
                let j = start + k * 4;
                assert(j == (y * w + (a + k)) * 4 + c);
                assert(j % 4 == c);
                assert(px[j] == colour[j % 4]);
            }
            lemma_mean_of_one(px, start, 4, b - a, px[i]);
        }
    }
    assert(out =~= px);
}

proof fn lemma_along_keeps_plain(px: Seq<u8>, w: int, h: int, r: int, colour: Seq<u8>)
    requires
        0 < w,
        0 < h,
        0 <= r,
        w * h * 4 <= px.len(),
        plain(px, colour),
    ensures
        along(px, w, h, r) == px,
{
    let out = along(px, w, h, r);
    assert forall|i: int| 0 <= i < px.len() implies #[trigger] out[i] == px[i] by {
        let c = i % 4;
        if c != 3 && i < w * h * 4 {
            let p = i / 4;
            assert(p < w * h);
            lemma_pixel(p, w, h);
            let (x, y) = (p % w, p / w);
            let (a, b) = (from(y, r), to(y, r, h));
            let start = (a * w + x) * 4 + c;
            assert forall|k: int| 0 <= k < b - a implies px[#[trigger] (start + k * (w * 4))]
                == px[i] by {
                lemma_inside(x, a + k, w, h, c);
                let j = start + k * (w * 4);
                assert(j == ((a + k) * w + x) * 4 + c) by (nonlinear_arith)
                    requires
                        j == (a * w + x) * 4 + c + k * (w * 4),
                ;
                assert(j % 4 == c);
                assert(px[j] == colour[j % 4]);
            }
            lemma_mean_of_one(px, start, w * 4, b - a, px[i]);
        }
    }
    assert(out =~= px);
}

/// Blurring a picture of one colour changes nothing.
pub proof fn law_blurring_keeps_plain_pictures(
    px: Seq<u8>,
    w: int,
    h: int,
    r: int,
    colour: Seq<u8>,
)
    requires
        0 < w,
        0 < h,
        0 <= r,
        w * h * 4 <= px.len(),
        plain(px, colour),
    ensures
        blurred(px, w, h, r) == px,
{
    lemma_across_keeps_plain(px, w, h, r, colour);
    lemma_along_keeps_plain(px, w, h, r, colour);
}

} // verus!
