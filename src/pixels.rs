//! Icon pixel buffers: premultiplied RGBA of an exact square size.

use vstd::prelude::*;

verus! {

/// A colour channel scaled by alpha, rounded with the fixed-point formula
/// `((x*a + 127) + ((x*a + 127) >> 8) + 1) >> 8`.
pub open spec fn premul_spec(x: int, a: int) -> int {
    let t = x * a + 127;
    (t + t / 256 + 1) / 256
}

/// Every pixel's colour channels are at most its alpha.
pub open spec fn premultiplied(px: Seq<u8>) -> bool {
    forall|i: int| 0 <= i < px.len() / 4 ==> {
        &&& #[trigger] px[4 * i] <= px[4 * i + 3]
        &&& px[4 * i + 1] <= px[4 * i + 3]
        &&& px[4 * i + 2] <= px[4 * i + 3]
    }
}

/// `out` is `src` with each colour channel scaled by its pixel's alpha.
pub open spec fn premultiplied_from(out: Seq<u8>, src: Seq<u8>) -> bool {
    &&& out.len() == src.len()
    &&& forall|i: int| 0 <= i < src.len() / 4 ==> {
        &&& #[trigger] out[4 * i] == premul_spec(src[4 * i] as int, src[4 * i + 3] as int)
        &&& out[4 * i + 1] == premul_spec(src[4 * i + 1] as int, src[4 * i + 3] as int)
        &&& out[4 * i + 2] == premul_spec(src[4 * i + 2] as int, src[4 * i + 3] as int)
        &&& out[4 * i + 3] == src[4 * i + 3]
    }
}

proof fn lemma_premul_bound(x: int, a: int)
    requires
        0 <= x <= 255,
        0 <= a <= 255,
    ensures
        0 <= premul_spec(x, a) <= a,
{
    let t = x * a + 127;
    assert(0 <= x * a <= 255 * a) by (nonlinear_arith)
        requires
            0 <= x <= 255,
            0 <= a,
    ;
    assert(t / 256 <= a) by (nonlinear_arith)
        requires
            t <= 255 * a + 127,
            0 <= a <= 255,
            t >= 0,
    ;
    assert((t + t / 256 + 1) / 256 <= a) by (nonlinear_arith)
        requires
            t + t / 256 + 1 <= 256 * a + 128,
            t >= 0,
    ;
}

fn premul(x: u8, a: u8) -> (r: u8)
    ensures
        r as int == premul_spec(x as int, a as int),
        r <= a,
{
    proof {
        lemma_premul_bound(x as int, a as int);
    }
    assert(x as u32 * a as u32 <= 255 * 255) by (nonlinear_arith)
        requires
            x <= 255,
            a <= 255,
    ;
    let t: u32 = x as u32 * a as u32 + 127;
    assert(t >> 8u32 == t / 256) by (bit_vector);
    let s: u32 = t + (t >> 8) + 1;
    assert(s >> 8u32 == s / 256) by (bit_vector);
    (s >> 8) as u8
}

/// Scale the colour channels of straight-alpha RGBA pixels by their alpha.
pub fn premultiply(rgba: &mut Vec<u8>)
    requires
        old(rgba)@.len() % 4 == 0,
    ensures
        premultiplied_from(final(rgba)@, old(rgba)@),
        premultiplied(final(rgba)@),
{
    let ghost src = rgba@;
    let total: usize = rgba.len();
    let n: usize = total / 4;
    let mut i: usize = 0;
    while i < n
        invariant
            total == src.len(),
            n == src.len() / 4,
            src.len() % 4 == 0,
            rgba@.len() == src.len(),
            i <= n,
            forall|j: int| i * 4 <= j < src.len() ==> rgba@[j] == src[j],
            forall|p: int| 0 <= p < i ==> {
                &&& #[trigger] rgba@[4 * p] == premul_spec(src[4 * p] as int, src[4 * p + 3] as int)
                &&& rgba@[4 * p + 1] == premul_spec(src[4 * p + 1] as int, src[4 * p + 3] as int)
                &&& rgba@[4 * p + 2] == premul_spec(src[4 * p + 2] as int, src[4 * p + 3] as int)
                &&& rgba@[4 * p + 3] == src[4 * p + 3]
                &&& rgba@[4 * p] <= rgba@[4 * p + 3]
                &&& rgba@[4 * p + 1] <= rgba@[4 * p + 3]
                &&& rgba@[4 * p + 2] <= rgba@[4 * p + 3]
            },
        decreases n - i,
    {
        assert(4 * i + 3 < src.len()) by (nonlinear_arith)
            requires
                i < n,
                n == src.len() / 4,
                src.len() % 4 == 0,
        ;
        let base = 4 * i;
        let a = rgba[base + 3];
        let r = premul(rgba[base], a);
        let g = premul(rgba[base + 1], a);
        let b = premul(rgba[base + 2], a);
        let ghost before = rgba@;
        rgba.set(base, r);
        rgba.set(base + 1, g);
        rgba.set(base + 2, b);
        assert forall|j: int| (i + 1) * 4 <= j < src.len() implies rgba@[j] == src[j] by {
            assert(rgba@[j] == before[j]);
        }
        assert forall|p: int| 0 <= p < i + 1 implies {
            &&& #[trigger] rgba@[4 * p] == premul_spec(src[4 * p] as int, src[4 * p + 3] as int)
            &&& rgba@[4 * p + 1] == premul_spec(src[4 * p + 1] as int, src[4 * p + 3] as int)
            &&& rgba@[4 * p + 2] == premul_spec(src[4 * p + 2] as int, src[4 * p + 3] as int)
            &&& rgba@[4 * p + 3] == src[4 * p + 3]
            &&& rgba@[4 * p] <= rgba@[4 * p + 3]
            &&& rgba@[4 * p + 1] <= rgba@[4 * p + 3]
            &&& rgba@[4 * p + 2] <= rgba@[4 * p + 3]
        } by {
            if p < i {
                assert(rgba@[4 * p] == before[4 * p]);
                assert(rgba@[4 * p + 1] == before[4 * p + 1]);
                assert(rgba@[4 * p + 2] == before[4 * p + 2]);
                assert(rgba@[4 * p + 3] == before[4 * p + 3]);
            } else {
                assert(before[4 * p] == src[4 * p]);
                assert(before[4 * p + 1] == src[4 * p + 1]);
                assert(before[4 * p + 2] == src[4 * p + 2]);
                assert(before[4 * p + 3] == src[4 * p + 3]);
            }
        }
        i = i + 1;
    }
    assert forall|p: int| 0 <= p < src.len() / 4 implies {
        &&& #[trigger] rgba@[4 * p] <= rgba@[4 * p + 3]
        &&& rgba@[4 * p + 1] <= rgba@[4 * p + 3]
        &&& rgba@[4 * p + 2] <= rgba@[4 * p + 3]
    } by {
        assert(rgba@[4 * p] == premul_spec(src[4 * p] as int, src[4 * p + 3] as int));
    }
}

/// Pixels of an icon at `size` pixels square: the decoded image where it has
/// exactly that many straight-alpha RGBA pixels, else the placeholder, which
/// does; premultiplied either way.
pub fn icon_pixels(decoded: Option<Vec<u8>>, placeholder: Vec<u8>, size: u32) -> (r: Vec<u8>)
    requires
        placeholder@.len() == size as int * size as int * 4,
    ensures
        r@.len() == size as int * size as int * 4,
        premultiplied(r@),
        match decoded {
            Some(d) => if d@.len() == size as int * size as int * 4 {
                premultiplied_from(r@, d@)
            } else {
                premultiplied_from(r@, placeholder@)
            },
            None => premultiplied_from(r@, placeholder@),
        },
{
    let mut pixels = match decoded {
        Some(d) => if d.len() == placeholder.len() {
            d
        } else {
            placeholder
        },
        None => placeholder,
    };
    assert(pixels@.len() % 4 == 0) by (nonlinear_arith)
        requires
            pixels@.len() == size as int * size as int * 4,
    ;
    premultiply(&mut pixels);
    pixels
}

} // verus!
