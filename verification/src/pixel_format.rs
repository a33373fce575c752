//! Pixel buffers: premultiplied RGBA8 and the ARGB8888 layout of shared
//! memory buffers (little-endian byte order).

use vstd::prelude::*;

verus! {

/// `dst` after copying the pixels of `src` into it: each whole four-byte
/// pixel `[r, g, b, a]` becomes `[b, g, r, a]`; bytes past the last whole
/// pixel stay as they were.
pub open spec fn argb_from_rgba(src: Seq<u8>, dst: Seq<u8>) -> Seq<u8> {
    Seq::new(
        dst.len(),
        |i: int|
            if i < (src.len() / 4) * 4 {
                let p = i - i % 4;
                if i % 4 == 0 {
                    src[p + 2]
                } else if i % 4 == 2 {
                    src[p]
                } else {
                    src[i]
                }
            } else {
                dst[i]
            },
    )
}

/// Copies premultiplied RGBA8 pixels into an ARGB8888 buffer of the same size.
pub fn rgba_premul_to_argb8888(src: &[u8], dst: &mut [u8])
    requires
        src@.len() == old(dst)@.len(),
    ensures
        final(dst)@ == argb_from_rgba(src@, old(dst)@),
{
    let n = src.len() / 4;
    let mut k: usize = 0;
    while k < n
        invariant
            n == src@.len() / 4,
            src@.len() <= usize::MAX,
            k <= n,
            src@.len() == dst@.len(),
            dst@.len() == old(dst)@.len(),
            forall|i: int|
                0 <= i < dst@.len() ==> #[trigger] dst@[i] == (if i < k * 4 {
                    argb_from_rgba(src@, old(dst)@)[i]
                } else {
                    old(dst)@[i]
                }),
        decreases n - k,
    {
        assert(k * 4 + 4 <= src@.len()) by (nonlinear_arith)
            requires
                k < n,
                n == src@.len() / 4,
        ;
        let o = k * 4;
        let r = src[o];
        let g = src[o + 1];
        let b = src[o + 2];
        let a = src[o + 3];
        dst[o] = b;
        dst[o + 1] = g;
        dst[o + 2] = r;
        dst[o + 3] = a;
        k = k + 1;
    }
    assert(final(dst)@ =~= argb_from_rgba(src@, old(dst)@)) by {
        assert(k * 4 == (src@.len() / 4) * 4);
    }
}

/// `v * a / 255`, rounded to the nearest integer.
pub open spec fn premultiply(v: u8, a: u8) -> u8 {
    ((v * a + 127) / 255) as u8
}

/// `buf` after filling it with a solid color: each whole four-byte pixel
/// becomes the premultiplied `[r, g, b, a]`; bytes past the last whole pixel
/// stay as they were.
pub open spec fn filled(buf: Seq<u8>, r: u8, g: u8, b: u8, a: u8) -> Seq<u8> {
    Seq::new(
        buf.len(),
        |i: int|
            if i < (buf.len() / 4) * 4 {
                if i % 4 == 0 {
                    premultiply(r, a)
                } else if i % 4 == 1 {
                    premultiply(g, a)
                } else if i % 4 == 2 {
                    premultiply(b, a)
                } else {
                    a
                }
            } else {
                buf[i]
            },
    )
}

/// Fills an RGBA8 premultiplied buffer with one color.
pub fn fill_rgba_premul(buf: &mut [u8], r: u8, g: u8, b: u8, a: u8)
    ensures
        final(buf)@ == filled(old(buf)@, r, g, b, a),
{
    assert(r * a <= 255 * 255 && g * a <= 255 * 255 && b * a <= 255 * 255) by (nonlinear_arith);
    let pr = ((r as u16 * a as u16 + 127) / 255) as u8;
    let pg = ((g as u16 * a as u16 + 127) / 255) as u8;
    let pb = ((b as u16 * a as u16 + 127) / 255) as u8;
    let n = buf.len() / 4;
    let mut k: usize = 0;
    while k < n
        invariant
            n == old(buf)@.len() / 4,
            old(buf)@.len() <= usize::MAX,
            k <= n,
            buf@.len() == old(buf)@.len(),
            pr == premultiply(r, a),
            pg == premultiply(g, a),
            pb == premultiply(b, a),
            forall|i: int|
                0 <= i < buf@.len() ==> #[trigger] buf@[i] == (if i < k * 4 {
                    filled(old(buf)@, r, g, b, a)[i]
                } else {
                    old(buf)@[i]
                }),
        decreases n - k,
    {
        assert(k * 4 + 4 <= buf@.len()) by (nonlinear_arith)
            requires
                k < n,
                n == buf@.len() / 4,
        ;
        let o = k * 4;
        buf[o] = pr;
        buf[o + 1] = pg;
        buf[o + 2] = pb;
        buf[o + 3] = a;
        k = k + 1;
    }
    assert(final(buf)@ =~= filled(old(buf)@, r, g, b, a));
}

/// A color channel after drawing premultiplied `p` with alpha `a` over `d`.
pub open spec fn blend_channel(p: u8, a: u8, d: u8) -> u8 {
    ((p * a + d * (255 - a) + 127) / 255) as u8
}

/// The alpha after drawing alpha `a` over alpha `d`.
pub open spec fn blend_alpha(a: u8, d: u8) -> u8 {
    (a + (d * (255 - a) + 127) / 255) as u8
}

/// The first pixel of `dst` after drawing the straight color `[r, g, b, a]`
/// over it; the other bytes stay as they were.
pub open spec fn blended(dst: Seq<u8>, r: u8, g: u8, b: u8, a: u8) -> Seq<u8> {
    dst.update(0, blend_channel(premultiply(r, a), a, dst[0])).update(
        1,
        blend_channel(premultiply(g, a), a, dst[1]),
    ).update(2, blend_channel(premultiply(b, a), a, dst[2])).update(3, blend_alpha(a, dst[3]))
}

proof fn lemma_blend_bounds(p: u8, a: u8, d: u8)
    ensures
        p * a + d * (255 - a) + 127 <= 65152,
        d * (255 - a) + 127 <= 65152,
        a + (d * (255 - a) + 127) / 255 <= 255,
{
    assert(p * a <= 255 * a) by (nonlinear_arith);
    assert(d * (255 - a) <= 255 * (255 - a)) by (nonlinear_arith)
        requires
            a <= 255,
            d <= 255,
    ;
    assert((d * (255 - a) + 127) / 255 <= 255 - a) by (nonlinear_arith)
        requires
            d * (255 - a) <= 255 * (255 - a),
            a <= 255,
    ;
}

/// Draws the straight (not premultiplied) color `[r, g, b, a]` over the
/// premultiplied pixel at the start of `dst`.
pub fn blend_pixel(dst: &mut [u8], r: u8, g: u8, b: u8, a: u8)
    requires
        old(dst)@.len() >= 4,
    ensures
        final(dst)@ == blended(old(dst)@, r, g, b, a),
{
    assert(r * a <= 255 * 255 && g * a <= 255 * 255 && b * a <= 255 * 255) by (nonlinear_arith);
    let pr = ((r as u16 * a as u16 + 127) / 255) as u8;
    let pg = ((g as u16 * a as u16 + 127) / 255) as u8;
    let pb = ((b as u16 * a as u16 + 127) / 255) as u8;
    let inv = 255 - a;
    proof {
        lemma_blend_bounds(pr, a, dst@[0]);
        lemma_blend_bounds(pg, a, dst@[1]);
        lemma_blend_bounds(pb, a, dst@[2]);
        lemma_blend_bounds(0, a, dst@[3]);
    }
    dst[0] = ((pr as u16 * a as u16 + dst[0] as u16 * inv as u16 + 127) / 255) as u8;
    dst[1] = ((pg as u16 * a as u16 + dst[1] as u16 * inv as u16 + 127) / 255) as u8;
    dst[2] = ((pb as u16 * a as u16 + dst[2] as u16 * inv as u16 + 127) / 255) as u8;
    dst[3] = (a as u16 + (dst[3] as u16 * inv as u16 + 127) / 255) as u8;
    assert(final(dst)@ =~= blended(old(dst)@, r, g, b, a));
}

} // verus!
