//! What holds of icons, of the frosted background, and of the file that keeps
//! the application index.
use vstd::arithmetic::div_mod::*;
use vstd::prelude::*;
use vstd::utf8::*;

use crate::backdrop;
use crate::icon;
use crate::indexfile::{self, IndexFile};
use crate::plugin::Bitmap;

verus! {

// ---- icons -------------------------------------------------------------------------------------

/// The fourth byte of a pixel is kept, and its colours are scaled by it: full
/// colours stay, and where there is nothing to see there is no colour. A
/// picture that has nothing to see at all is taken for one without such bytes,
/// and made opaque as it is.
pub proof fn law_colours_are_scaled(bgra: Seq<u8>, p: int, c: int)
    requires
        0 <= p < bgra.len() / 4,
        0 <= c < 3,
    ensures
        ({
            let out = icon::premultiplied(bgra);
            let (i, a) = (4 * p + c, 4 * p + 3);
            let seen = exists|k: int| 0 <= k < bgra.len() / 4 && bgra[#[trigger] (k * 4 + 3)] != 0;
            &&& out.len() == bgra.len()
            &&& seen ==> out[a] == bgra[a] && out[i] * 255 <= bgra[i] * bgra[a] < out[i] * 255 + 255
            &&& seen && bgra[a] == 255 ==> out[i] == bgra[i]
            &&& seen && bgra[a] == 0 ==> out[i] == 0
            &&& !seen ==> out[a] == 255 && out[i] == bgra[i]
        }),
{
    let (i, a) = (4 * p + c, 4 * p + 3);
    assert(i / 4 == p && i % 4 == c && a / 4 == p && a % 4 == 3);
    assert(i / 4 * 4 + 3 == a);
    assert(i < bgra.len() / 4 * 4 && a < bgra.len() / 4 * 4);
    let (x, y) = (bgra[i] as int, bgra[a] as int);
    assert(0 <= x * y <= 255 * 255) by (nonlinear_arith)
        requires
            0 <= x <= 255,
            0 <= y <= 255,
    ;
    if y == 255 {
        assert(x * y == x * 255);
    }
    if y == 0 {
        assert(x * y == 0) by (nonlinear_arith)
            requires
                y == 0,
        ;
    }
    if exists|k: int| 0 <= k < bgra.len() / 4 && bgra[#[trigger] (k * 4 + 3)] != 0 {
        assert(!icon::without_alpha(bgra));
    } else {
        assert(icon::without_alpha(bgra));
    }
}

// ---- blurring ----------------------------------------------------------------------------------

proof fn lemma_shifted(f: spec_fn(int) -> int, g: spec_fn(int) -> int, by_: int, n: int)
    requires
        0 <= n,
        forall|k: int| 0 <= k < n ==> #[trigger] f(k) == g(k + by_),
    ensures
        backdrop::sum(f, 0, n) == backdrop::sum(g, by_, by_ + n),
    decreases n,
{
    if n > 0 {
        lemma_shifted(f, g, by_, n - 1);
        assert(f(n - 1) == g(n - 1 + by_));
    }
}

/// A blurred colour is the mean of those within the radius to its left and
/// right, itself among them, as far as the row goes.
pub proof fn law_blurring_takes_the_mean_of_a_row(
    px: Seq<u8>,
    w: int,
    h: int,
    r: int,
    x: int,
    y: int,
    c: int,
    first: int,
    end: int,
)
    requires
        0 <= x < w,
        0 <= y < h,
        0 <= c < 3,
        0 <= r,
        w * h * 4 <= px.len(),
        0 <= first <= x < end <= w,
        first == 0 || first == x - r,
        x - r <= first,
        end == w || end == x + r + 1,
        end <= x + r + 1,
    ensures
        backdrop::across(px, w, h, r)[(y * w + x) * 4 + c] == (backdrop::sum(
            |k: int| px[(y * w + k) * 4 + c] as int,
            first,
            end,
        ) / (end - first)) as u8,
{
    let i = (y * w + x) * 4 + c;
    lemma_place(x, y, w, h);
    assert(i / 4 == y * w + x && i % 4 == c);
    assert(backdrop::from(x, r) == first);
    assert(backdrop::to(x, r, w) == end);
    let start = (y * w + first) * 4 + c;
    let f = |k: int| px[start + k * 4] as int;
    let g = |k: int| px[(y * w + k) * 4 + c] as int;
    assert forall|k: int| 0 <= k < end - first implies #[trigger] f(k) == g(k + first) by {
        assert(start + k * 4 == (y * w + (k + first)) * 4 + c);
    }
    lemma_shifted(f, g, first, end - first);
    assert(backdrop::mean_of(px, start, 4, end - first) == backdrop::sum(f, 0, end - first) / (end
        - first));
}

proof fn lemma_place(x: int, y: int, w: int, h: int)
    requires
        0 <= x < w,
        0 <= y < h,
    ensures
        (y * w + x) % w == x,
        (y * w + x) / w == y,
        0 <= y * w + x < w * h,
{
    lemma_fundamental_div_mod_converse(y * w + x, w, y, x);
    assert(0 <= y * w + x < w * h) by (nonlinear_arith)
        requires
            0 <= x < w,
            0 <= y < h,
    ;
}

/// Then it is the mean of those within the radius above and below.
pub proof fn law_blurring_takes_the_mean_of_a_column(
    px: Seq<u8>,
    w: int,
    h: int,
    r: int,
    x: int,
    y: int,
    c: int,
    first: int,
    end: int,
)
    requires
        0 <= x < w,
        0 <= y < h,
        0 <= c < 3,
        0 <= r,
        w * h * 4 <= px.len(),
        0 <= first <= y < end <= h,
        first == 0 || first == y - r,
        y - r <= first,
        end == h || end == y + r + 1,
        end <= y + r + 1,
    ensures
        backdrop::along(px, w, h, r)[(y * w + x) * 4 + c] == (backdrop::sum(
            |k: int| px[(k * w + x) * 4 + c] as int,
            first,
            end,
        ) / (end - first)) as u8,
        backdrop::blurred(px, w, h, r) == backdrop::along(
            backdrop::across(px, w, h, r),
            w,
            h,
            r,
        ),
{
    let i = (y * w + x) * 4 + c;
    lemma_place(x, y, w, h);
    assert(i / 4 == y * w + x && i % 4 == c);
    assert(backdrop::from(y, r) == first);
    assert(backdrop::to(y, r, h) == end);
    let start = (first * w + x) * 4 + c;
    let f = |k: int| px[start + k * (w * 4)] as int;
    let g = |k: int| px[(k * w + x) * 4 + c] as int;
    assert forall|k: int| 0 <= k < end - first implies #[trigger] f(k) == g(k + first) by {
        assert(start + k * (w * 4) == ((k + first) * w + x) * 4 + c) by (nonlinear_arith)
            requires
                start == (first * w + x) * 4 + c,
        ;
    }
    lemma_shifted(f, g, first, end - first);
}

/// The blur is of radius two and gone over three times; the small picture is
/// eighty-four pixels long at most.
pub proof fn law_how_much_is_blurred(px: Seq<u8>, w: int, h: int)
    ensures
        backdrop::BLUR_RADIUS == 2,
        backdrop::BLUR_SIZE == 84,
        backdrop::blurred_often(px, w, h, 2, backdrop::BLUR_PASSES as nat) == backdrop::blurred(
            backdrop::blurred(backdrop::blurred(px, w, h, 2), w, h, 2),
            w,
            h,
            2,
        ),
{
    reveal_with_fuel(backdrop::blurred_often, 4);
}

/// The parts that make up a small picture lie side by side from the first
/// pixel to the last, and none is empty.
pub proof fn law_parts_lie_side_by_side(t: int, n: int, m: int)
    requires
        0 <= t < m <= n,
    ensures
        backdrop::part_start(0, n, m) == 0,
        backdrop::part_end(m - 1, n, m) == n,
        backdrop::part_start(t, n, m) < backdrop::part_end(t, n, m) <= n,
        t + 1 < m ==> backdrop::part_end(t, n, m) == backdrop::part_start(t + 1, n, m),
{
    assert((t + 1) * n == t * n + n) by (nonlinear_arith);
    assert(0 <= t * n) by (nonlinear_arith)
        requires
            0 <= t,
            0 <= n,
    ;
    let (q, s) = (t * n / m, (t + 1) * n / m);
    lemma_fundamental_div_mod(t * n, m);
    lemma_fundamental_div_mod((t + 1) * n, m);
    lemma_mod_bound(t * n, m);
    lemma_mod_bound((t + 1) * n, m);
    assert(s >= q + 1) by (nonlinear_arith)
        requires
            t * n == m * q + (t * n) % m,
            (t + 1) * n == m * s + ((t + 1) * n) % m,
            (t + 1) * n == t * n + n,
            0 <= (t * n) % m < m,
            0 <= ((t + 1) * n) % m < m,
            m <= n,
            0 < m,
    ;
    assert(s <= n) by (nonlinear_arith)
        requires
            (t + 1) * n == m * s + ((t + 1) * n) % m,
            0 <= ((t + 1) * n) % m,
            t + 1 <= m,
            0 < m,
            0 <= n,
    ;
    assert(0 * n / m == 0) by {
        lemma_basic_div(0, m);
    }
    assert((m - 1 + 1) * n == m * n);
    lemma_div_multiples_vanish(n, m);
    assert(m * n == n * m) by (nonlinear_arith);
    assert(m * n / m == n);
    assert((m - 1) * n / m + 1 <= n) by {
        let u = (m - 1) * n / m;
        lemma_fundamental_div_mod((m - 1) * n, m);
        lemma_mod_bound((m - 1) * n, m);
        assert(u + 1 <= n) by (nonlinear_arith)
            requires
                (m - 1) * n == m * u + ((m - 1) * n) % m,
                0 <= ((m - 1) * n) % m,
                0 < m <= n,
        ;
    }
    if t + 1 < m {
        assert(s < n) by (nonlinear_arith)
            requires
                (t + 1) * n == m * s + ((t + 1) * n) % m,
                0 <= ((t + 1) * n) % m,
                t + 1 < m,
                0 < m,
                0 < n,
        ;
    }
}

/// A pixel of the small picture is the mean of its part of the large one, and
/// opaque.
pub proof fn law_small_pixels_are_means(
    raw: Seq<u8>,
    w: int,
    h: int,
    sw: int,
    sh: int,
    x: int,
    y: int,
    c: int,
)
    requires
        0 <= x < sw,
        0 <= y < sh,
        0 <= c < 3,
    ensures
        ({
            let small = backdrop::reduced(raw, w, h, sw, sh);
            let (x0, x1) = (backdrop::part_start(x, w, sw), backdrop::part_end(x, w, sw));
            let (y0, y1) = (backdrop::part_start(y, h, sh), backdrop::part_end(y, h, sh));
            &&& small.len() == sw * sh * 4
            &&& small[(y * sw + x) * 4 + 3] == 255
            &&& small[(y * sw + x) * 4 + c] == (backdrop::sum(
                |v: int| backdrop::sum(|u: int| raw[(v * w + u) * 4 + c] as int, x0, x1),
                y0,
                y1,
            ) / ((x1 - x0) * (y1 - y0))) as u8
        }),
{
    lemma_place(x, y, sw, sh);
    let p = y * sw + x;
    let (i, a) = (p * 4 + c, p * 4 + 3);
    assert(i / 4 == p && i % 4 == c && a / 4 == p && a % 4 == 3);
    assert(p + 1 <= sw * sh);
    assert(sw * sh * 4 >= 0);
}

/// A sum is made term by term.
pub proof fn law_sums_are_made_term_by_term(f: spec_fn(int) -> int, a: int, b: int)
    ensures
        a <= b ==> backdrop::sum(f, a, b + 1) == backdrop::sum(f, a, b) + f(b),
        a >= b ==> backdrop::sum(f, a, b) == 0,
{
}

// ---- the index file ----------------------------------------------------------------------------

/// Numbers are written low byte first.
pub proof fn law_numbers_are_written_low_byte_first(n: int)
    ensures
        0 <= n < 0x1_0000 ==> indexfile::le16(n).len() == 2 && indexfile::le16(n)[0] + 256
            * indexfile::le16(n)[1] == n,
        0 <= n < 0x1_0000_0000 ==> indexfile::le32(n).len() == 4 && indexfile::le32(n)[0] + 256
            * indexfile::le32(n)[1] + 65536 * indexfile::le32(n)[2] + 16777216
            * indexfile::le32(n)[3] == n,
{
}

/// The file starts with its mark, which spells APEXIDX1, and with how many
/// pictures follow.
pub proof fn law_the_file_starts_with_its_mark(f: IndexFile)
    ensures
        f.bytes().len() >= 12,
        f.bytes()[0] == 'A' as u8 && f.bytes()[1] == 'P' as u8 && f.bytes()[2] == 'E' as u8
            && f.bytes()[3] == 'X' as u8 && f.bytes()[4] == 'I' as u8 && f.bytes()[5] == 'D' as u8
            && f.bytes()[6] == 'X' as u8 && f.bytes()[7] == '1' as u8,
        f.bytes().subrange(8, 12) == indexfile::le32(f.blobs.len() as int),
{
    let b = f.bytes();
    assert(b.subrange(8, 12) =~= indexfile::le32(f.blobs.len() as int));
}

/// A file is sound whose pictures are between one and two hundred and fifty-six
/// pixels either way and have all their bytes, that has no more than a hundred
/// thousand pictures or applications, whose names fit, and that refers to
/// pictures it has, or to none.
pub proof fn law_what_a_sound_file_is(f: IndexFile)
    ensures
        f.valid() <==> {
            &&& f.blobs.len() <= 100_000
            &&& f.apps.len() <= 100_000
            &&& forall|i: int|
                0 <= i < f.blobs.len() ==> 1 <= (#[trigger] f.blobs[i]).width <= 256 && 1
                    <= f.blobs[i].height <= 256 && f.blobs[i].bgra.len() == f.blobs[i].width
                    * f.blobs[i].height * 4
            &&& f.fallback == 0xFFFF_FFFF || f.fallback < f.blobs.len()
            &&& f.folder == 0xFFFF_FFFF || f.folder < f.blobs.len()
            &&& forall|i: int|
                0 <= i < f.apps.len() ==> encode_utf8((#[trigger] f.apps[i]).name).len() <= 65535
                    && encode_utf8(f.apps[i].app_id).len() <= 65535 && (f.apps[i].blob
                    == 0xFFFF_FFFF || f.apps[i].blob < f.blobs.len())
        },
{
    if f.valid() {
        assert forall|i: int| 0 <= i < f.blobs.len() implies indexfile::sound_blob(
            #[trigger] f.blobs[i],
        ) by {}
        assert forall|i: int| 0 <= i < f.apps.len() implies indexfile::sound_entry(
            #[trigger] f.apps[i],
            f.blobs.len(),
        ) by {}
    }
}

/// A file describes its applications one by one, each with the picture it
/// refers to.
pub proof fn law_what_a_file_describes(f: IndexFile, i: int)
    requires
        f.valid(),
        0 <= i < f.apps.len(),
    ensures
        f.catalogue().apps.len() == f.apps.len(),
        f.catalogue().apps[i].name == f.apps[i].name,
        f.catalogue().apps[i].app_id == f.apps[i].app_id,
        f.apps[i].blob == 0xFFFF_FFFF ==> f.catalogue().apps[i].icon is None,
        f.apps[i].blob != 0xFFFF_FFFF ==> f.catalogue().apps[i].icon == Some(
            f.blobs[f.apps[i].blob as int],
        ),
        f.fallback != 0xFFFF_FFFF ==> f.catalogue().fallback == Some(f.blobs[f.fallback as int]),
        f.folder != 0xFFFF_FFFF ==> f.catalogue().folder == Some(f.blobs[f.folder as int]),
        f.fallback == 0xFFFF_FFFF ==> f.catalogue().fallback is None,
        f.folder == 0xFFFF_FFFF ==> f.catalogue().folder is None,
{
}

proof fn lemma_distinct(icons: Seq<Option<Bitmap>>)
    ensures
        indexfile::distinct(icons).no_duplicates(),
        forall|b: Bitmap| #[trigger]
            indexfile::distinct(icons).contains(b) <==> icons.contains(Some(b)),
    decreases icons.len(),
{
    if icons.len() > 0 {
        let t = icons.drop_last();
        lemma_distinct(t);
        let before = indexfile::distinct(t);
        let all = indexfile::distinct(icons);
        assert forall|b: Bitmap| #[trigger] all.contains(b) <==> icons.contains(Some(b)) by {
            if all.contains(b) {
                let i = choose|i: int| 0 <= i < all.len() && all[i] == b;
                if i < before.len() {
                    assert(before[i] == b);
                    assert(before.contains(b));
                    let k = choose|k: int| 0 <= k < t.len() && t[k] == Some(b);
                    assert(icons[k] == Some(b));
                } else {
                    assert(icons[icons.len() - 1] == Some(b));
                }
            }
            if icons.contains(Some(b)) {
                let k = choose|k: int| 0 <= k < icons.len() && icons[k] == Some(b);
                if k < t.len() {
                    assert(t[k] == Some(b));
                    assert(before.contains(b));
                    let i = choose|i: int| 0 <= i < before.len() && before[i] == b;
                    assert(all[i] == b);
                } else if !before.contains(b) {
                    assert(all[all.len() - 1] == b);
                }
            }
        }
    }
}

/// Every picture of the index is kept, and each once.
pub proof fn law_pictures_are_kept_once(icons: Seq<Option<Bitmap>>, b: Bitmap)
    ensures
        indexfile::distinct(icons).no_duplicates(),
        indexfile::distinct(icons).contains(b) <==> icons.contains(Some(b)),
{
    lemma_distinct(icons);
}

/// A name is kept whole where it fits, and else as much of its beginning as
/// does.
pub proof fn law_names_are_kept_as_far_as_they_fit(s: Seq<char>)
    ensures
        indexfile::kept(s).is_prefix_of(s),
        encode_utf8(indexfile::kept(s)).len() <= 65535 || indexfile::kept(s).len()
            == 0,
        encode_utf8(s).len() <= 65535 ==> indexfile::kept(s) == s,
        indexfile::kept(s) != s ==> encode_utf8(s.take(indexfile::kept(s).len() as int + 1)).len()
            > 65535,
    decreases s.len(),
{
    if !(encode_utf8(s).len() <= 65535 || s.len() == 0) {
        let t = s.drop_last();
        law_names_are_kept_as_far_as_they_fit(t);
        let k = indexfile::kept(s).len() as int;
        if indexfile::kept(t) == t {
            assert(s.take(k + 1) =~= s);
        } else {
            assert(indexfile::kept(t).len() < t.len()) by {
                if indexfile::kept(t).len() == t.len() {
                    assert(indexfile::kept(t) =~= t);
                }
            }
            assert(s.take(k + 1) =~= t.take(k + 1));
        }
    }
}

} // verus!
