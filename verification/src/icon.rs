//! Icon pixels.
use vstd::prelude::*;

use crate::plugin::Icon;

verus! {

/// Size icons are taken at, in pixels.
pub const ICON_PX: i32 = 48;

/// Every pixel is transparent.
pub open spec fn without_alpha(bgra: Seq<u8>) -> bool {
    forall|p: int| 0 <= p < bgra.len() / 4 ==> bgra[#[trigger] (p * 4 + 3)] == 0
}

/// The pixels with their colours scaled by their alpha. Old icons have no
/// alpha at all, which leaves it zero everywhere; they are taken for opaque.
/// Bytes past the last whole pixel stay.
pub open spec fn premultiplied(bgra: Seq<u8>) -> Seq<u8> {
    Seq::new(
        bgra.len(),
        |i: int|
            if i >= bgra.len() / 4 * 4 {
                bgra[i]
            } else if without_alpha(bgra) {
                if i % 4 == 3 {
                    255u8
                } else {
                    bgra[i]
                }
            } else if i % 4 == 3 {
                bgra[i]
            } else {
                (bgra[i] * bgra[i / 4 * 4 + 3] / 255) as u8
            },
    )
}

fn no_alpha(bgra: &Vec<u8>) -> (r: bool)
    ensures
        r == without_alpha(bgra@),
{
    let len: usize = bgra.len();
    let n: usize = len / 4;
    let mut p: usize = 0;
    while p < n
        invariant
            p <= n == len / 4,
            len == bgra@.len(),
            forall|q: int| 0 <= q < p ==> bgra@[#[trigger] (q * 4 + 3)] == 0,
        decreases n - p,
    {
        if bgra[p * 4 + 3] != 0 {
            assert(bgra@[p as int * 4 + 3] != 0);
            return false;
        }
        p += 1;
    }
    true
}

/// Scales colours by alpha, as drawing wants them.
pub fn premultiply(icon: Icon) -> (r: Icon)
    ensures
        r.width == icon.width,
        r.height == icon.height,
        r.bgra@ == premultiplied(icon.bgra@),
{
    let bgra = icon.bgra;
    let ghost want = premultiplied(bgra@);
    let opaque = no_alpha(&bgra);
    let end: usize = bgra.len() / 4 * 4;
    let mut out: Vec<u8> = Vec::new();
    let mut i: usize = 0;
    while i < bgra.len()
        invariant
            i <= bgra@.len(),
            end == bgra@.len() / 4 * 4,
            opaque == without_alpha(bgra@),
            want == premultiplied(bgra@),
            out@ == want.take(i as int),
        decreases bgra@.len() - i,
    {
        let v: u8 = if i >= end {
            bgra[i]
        } else if opaque {
            if i % 4 == 3 {
                255
            } else {
                bgra[i]
            }
        } else if i % 4 == 3 {
            bgra[i]
        } else {
            let c: u32 = bgra[i] as u32;
            let a: u32 = bgra[i / 4 * 4 + 3] as u32;
            assert(c * a <= 255 * 255) by (nonlinear_arith)
                requires
                    c <= 255,
                    a <= 255,
            ;
            (c * a / 255) as u8
        };
        out.push(v);
        assert(want[i as int] == v);
        assert(want.take(i + 1) =~= want.take(i as int).push(want[i as int]));
        i += 1;
    }
    assert(want.take(i as int) =~= want);
    Icon { width: icon.width, height: icon.height, bgra: out }
}

/// No colour is brighter than its alpha allows, once scaled.
pub proof fn law_premultiplied_colours_stay_below_alpha(bgra: Seq<u8>, i: int)
    requires
        0 <= i < bgra.len() / 4 * 4,
        i % 4 != 3,
    ensures
        premultiplied(bgra)[i] <= premultiplied(bgra)[i / 4 * 4 + 3],
{
    let a = bgra[i / 4 * 4 + 3];
    let c = bgra[i];
    assert(0 <= c * a / 255 <= a) by (nonlinear_arith)
        requires
            0 <= c <= 255,
            0 <= a <= 255,
    ;
}

} // verus!
