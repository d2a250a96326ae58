use vstd::prelude::*;

use crate::glyph::RawGlyph;

verus! {

/// Total width of all glyphs, zero-sized ones included.
pub open spec fn sum_widths(gs: Seq<RawGlyph>) -> nat
    decreases gs.len(),
{
    if gs.len() == 0 {
        0
    } else {
        sum_widths(gs.drop_last()) + gs.last().width as nat
    }
}

/// Total height of all glyphs, zero-sized ones included.
pub open spec fn sum_heights(gs: Seq<RawGlyph>) -> nat
    decreases gs.len(),
{
    if gs.len() == 0 {
        0
    } else {
        sum_heights(gs.drop_last()) + gs.last().height as nat
    }
}

/// Width of the widest glyph; zero when there are none.
pub open spec fn max_glyph_width(gs: Seq<RawGlyph>) -> nat
    decreases gs.len(),
{
    if gs.len() == 0 {
        0
    } else if gs.last().width >= max_glyph_width(gs.drop_last()) {
        gs.last().width as nat
    } else {
        max_glyph_width(gs.drop_last())
    }
}

/// The integer square root: the largest `r` with `r * r <= n`.
pub open spec fn spec_isqrt(n: nat) -> nat
    decreases n,
{
    if n == 0 {
        0
    } else {
        let r = spec_isqrt((n - 1) as nat);
        if (r + 1) * (r + 1) <= n {
            r + 1
        } else {
            r
        }
    }
}

proof fn lemma_isqrt_bounds(n: nat)
    ensures
        spec_isqrt(n) * spec_isqrt(n) <= n,
        n < (spec_isqrt(n) + 1) * (spec_isqrt(n) + 1),
    decreases n,
{
    if n > 0 {
        lemma_isqrt_bounds((n - 1) as nat);
        let r = spec_isqrt((n - 1) as nat);
        if (r + 1) * (r + 1) <= n {
            assert(spec_isqrt(n) == r + 1);
            assert(spec_isqrt(n) * spec_isqrt(n) <= n && n < (spec_isqrt(n) + 1) * (spec_isqrt(n)
                + 1)) by (nonlinear_arith)
                requires
                    spec_isqrt(n) == r + 1,
                    (r + 1) * (r + 1) <= n,
                    n - 1 < (r + 1) * (r + 1),
            ;
        } else {
            assert(spec_isqrt(n) == r);
            assert(spec_isqrt(n) * spec_isqrt(n) <= n && n < (spec_isqrt(n) + 1) * (spec_isqrt(n)
                + 1)) by (nonlinear_arith)
                requires
                    spec_isqrt(n) == r,
                    !((r + 1) * (r + 1) <= n),
                    r * r <= n - 1,
            ;
        }
    } else {
        assert(spec_isqrt(0) == 0);
        assert(spec_isqrt(n) * spec_isqrt(n) <= n && n < (spec_isqrt(n) + 1) * (spec_isqrt(n) + 1))
            by (nonlinear_arith)
            requires
                n == 0,
                spec_isqrt(n) == 0,
        ;
    }
}

/// The floor square root is unique, so a result that brackets `n` is it.
proof fn lemma_isqrt_unique(n: nat, r: nat)
    requires
        r * r <= n,
        n < (r + 1) * (r + 1),
    ensures
        r == spec_isqrt(n),
{
    lemma_isqrt_bounds(n);
    let s = spec_isqrt(n);
    if r < s {
        assert((r + 1) * (r + 1) <= s * s) by (nonlinear_arith)
            requires
                r + 1 <= s,
        ;
    }
    if s < r {
        assert((s + 1) * (s + 1) <= r * r) by (nonlinear_arith)
            requires
                s + 1 <= r,
        ;
    }
}

/// The estimated packing width: the square root of the total glyph width
/// times the average-height-plus-count factor, but never below the widest
/// glyph plus a fixed ten-pixel margin.
pub open spec fn spec_estimate_width(gs: Seq<RawGlyph>) -> nat {
    let n = gs.len();
    let floor = max_glyph_width(gs) + 10;
    if n == 0 {
        floor
    } else {
        let c = spec_isqrt(sum_widths(gs) * (sum_heights(gs) + n * n) / n);
        if c > floor {
            c
        } else {
            floor
        }
    }
}

/// Computes the floor square root of `n` by bisection.
fn isqrt_u128(n: u128) -> (r: u128)
    ensures
        r as nat == spec_isqrt(n as nat),
{
    if n == 0 {
        return 0;
    }
    let mut lo: u128 = 0;
    let mut hi: u128 = 0x1_0000_0000_0000_0000;
    proof {
        assert((hi as nat) * (hi as nat) > u128::MAX as nat);
    }
    while lo + 1 < hi
        invariant
            lo < hi,
            hi <= 0x1_0000_0000_0000_0000,
            (lo as nat) * (lo as nat) <= n as nat,
            (n as nat) < (hi as nat) * (hi as nat),
        decreases hi - lo,
    {
        let mid = lo + (hi - lo) / 2;
        assert(lo < mid < hi);
        proof {
            assert(mid as nat * mid as nat <= (0x1_0000_0000_0000_0000 - 1) * (
            0x1_0000_0000_0000_0000 - 1)) by (nonlinear_arith)
                requires
                    mid as nat <= 0x1_0000_0000_0000_0000 - 1,
            ;
        }
        let sq = mid * mid;
        if sq <= n {
            lo = mid;
        } else {
            hi = mid;
        }
    }
    proof {
        lemma_isqrt_unique(n as nat, lo as nat);
    }
    lo
}

/// Predicts a packing canvas width for a set of glyphs: accumulate the
/// glyph widths, scale by the average height plus the glyph count, take the
/// integer square root, and never go below the widest glyph plus a
/// ten-pixel margin. The height is left to the packer to grow.
pub fn estimate_atlas_width(glyphs: &Vec<RawGlyph>) -> (r: u32)
    requires
        forall|i: int| 0 <= i < glyphs@.len() ==> (#[trigger] glyphs@[i]).wf(),
        glyphs@.len() <= u32::MAX,
    ensures
        r as nat == if spec_estimate_width(glyphs@) <= u32::MAX as nat {
            spec_estimate_width(glyphs@)
        } else {
            u32::MAX as nat
        },
        r as nat >= max_glyph_width(glyphs@) + 10,
{
    let n = glyphs.len();
    let mut sum_w: u64 = 0;
    let mut sum_h: u64 = 0;
    let mut largest: u32 = 0;
    let mut i: usize = 0;
    while i < n
        invariant
            0 <= i <= n,
            n == glyphs@.len(),
            n <= u32::MAX,
            forall|j: int| 0 <= j < glyphs@.len() ==> (#[trigger] glyphs@[j]).wf(),
            sum_w == sum_widths(glyphs@.take(i as int)),
            sum_h == sum_heights(glyphs@.take(i as int)),
            largest == max_glyph_width(glyphs@.take(i as int)),
            sum_w <= i * 0xFFFF,
            sum_h <= i * 0xFFFF,
            largest <= 0xFFFF,
        decreases n - i,
    {
        let g = &glyphs[i];
        proof {
            assert(glyphs@.take(i + 1).drop_last() =~= glyphs@.take(i as int));
            assert(glyphs@.take(i + 1).last() == glyphs@[i as int]);
        }
        sum_w = sum_w + g.width as u64;
        sum_h = sum_h + g.height as u64;
        if g.width > largest {
            largest = g.width;
        }
        i = i + 1;
    }
    proof {
        assert(glyphs@.take(n as int) =~= glyphs@);
    }
    let floor: u32 = largest + 10;
    if n == 0 {
        return floor;
    }
    let count = n as u128;
    proof {
        assert((count as nat) * (count as nat) <= 0x1_0000_0000_0000_0000) by (nonlinear_arith)
            requires
                count as nat <= 0x1_0000_0000,
        ;
        assert((sum_w as nat) * ((sum_h as nat) + (count as nat) * (count as nat)) <= 0x1_0000_0000_0000
            * 0x2_0000_0000_0000_0000) by (nonlinear_arith)
            requires
                sum_w as nat <= 0x1_0000_0000_0000,
                (sum_h as nat) + (count as nat) * (count as nat) <= 0x2_0000_0000_0000_0000,
        ;
    }
    let q: u128 = (sum_w as u128) * ((sum_h as u128) + count * count) / count;
    let c = isqrt_u128(q);
    if c > floor as u128 {
        if c > u32::MAX as u128 {
            u32::MAX
        } else {
            c as u32
        }
    } else {
        floor
    }
}

} // verus!
