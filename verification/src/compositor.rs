use vstd::prelude::*;

use crate::glyph::RawGlyph;

verus! {

/// One RGBA pixel of a glyph canvas.
#[derive(Clone, Copy, PartialEq, Eq, Structural, Debug)]
pub struct Pixel {
    pub r: u8,
    pub g: u8,
    pub b: u8,
    pub a: u8,
}

/// A small per-glyph canvas, row-major.
pub struct Canvas {
    pub width: u32,
    pub height: u32,
    pub pixels: Vec<Pixel>,
}

impl Canvas {
    /// The pixel buffer matches the dimensions, which fit comfortably in
    /// machine arithmetic.
    pub open spec fn wf(&self) -> bool {
        &&& self.pixels@.len() == self.width * self.height
        &&& self.width <= 0xFFFF
        &&& self.height <= 0xFFFF
    }
}

/// Alpha of compositing a source with alpha `sa` over a destination with
/// alpha `da`: the destination keeps the share of its coverage that the
/// source leaves open.
pub open spec fn blend_alpha(da: u8, sa: u8) -> nat {
    sa as nat + (da as nat) * ((255 - sa as int) as nat) / 255
}

/// Colour channel of source-over compositing: the weighted average of the
/// source and destination channels by their alpha contributions; zero when
/// both contributions vanish.
pub open spec fn blend_chan(dc: u8, da: u8, sc: u8, sa: u8) -> nat {
    let rest = (da as nat) * ((255 - sa as int) as nat) / 255;
    if sa as nat + rest == 0 {
        0
    } else {
        ((sc as nat) * (sa as nat) + (dc as nat) * rest) / (sa as nat + rest)
    }
}

/// Source-over blend of a uniform-luma source pixel onto `d`.
pub open spec fn blend_pixel_spec(d: Pixel, luma: u8, sa: u8) -> Pixel {
    Pixel {
        r: blend_chan(d.r, d.a, luma, sa) as u8,
        g: blend_chan(d.g, d.a, luma, sa) as u8,
        b: blend_chan(d.b, d.a, luma, sa) as u8,
        a: blend_alpha(d.a, sa) as u8,
    }
}

/// An opaque-stamp pixel: the luma and the coverage byte, unconditionally.
pub open spec fn stamp_pixel_spec(luma: u8, sa: u8) -> Pixel {
    Pixel { r: luma, g: luma, b: luma, a: sa }
}

/// The blended values stay within one byte.
proof fn lemma_blend_bounds(dc: u8, da: u8, sc: u8, sa: u8)
    ensures
        blend_alpha(da, sa) <= 255,
        blend_chan(dc, da, sc, sa) <= 255,
        blend_alpha(da, sa) == sa as nat + (da as nat) * ((255 - sa as int) as nat) / 255,
{
    let rest = (da as nat) * ((255 - sa as int) as nat) / 255;
    assert(rest <= 255 - sa as int) by (nonlinear_arith)
        requires
            da as nat <= 255,
            sa as nat <= 255,
            rest == (da as nat) * ((255 - sa as int) as nat) / 255,
    ;
    if sa as nat + rest != 0 {
        assert(((sc as nat) * (sa as nat) + (dc as nat) * rest) / (sa as nat + rest) <= 255) by (
        nonlinear_arith)
            requires
                sc as nat <= 255,
                dc as nat <= 255,
                rest >= 0,
                sa as nat + rest > 0,
        ;
    }
}

/// Computes the source-over blend of a uniform-luma pixel.
fn blend_pixel_value(d: Pixel, luma: u8, sa: u8) -> (r: Pixel)
    ensures
        r == blend_pixel_spec(d, luma, sa),
{
    proof {
        lemma_blend_bounds(d.r, d.a, luma, sa);
        lemma_blend_bounds(d.g, d.a, luma, sa);
        lemma_blend_bounds(d.b, d.a, luma, sa);
        assert((d.a as nat) * (255 - sa as nat) <= 255 * 255) by (nonlinear_arith)
            requires
                d.a as nat <= 255,
                sa as nat <= 255,
        ;
        assert((luma as nat) * (sa as nat) <= 255 * 255) by (nonlinear_arith)
            requires
                luma as nat <= 255,
                sa as nat <= 255,
        ;
        assert((d.r as nat) * ((d.a as nat) * (255 - sa as nat) / 255) <= 255 * 255) by (
        nonlinear_arith)
            requires
                d.r as nat <= 255,
                (d.a as nat) * (255 - sa as nat) / 255 <= 255,
        ;
        assert((d.g as nat) * ((d.a as nat) * (255 - sa as nat) / 255) <= 255 * 255) by (
        nonlinear_arith)
            requires
                d.g as nat <= 255,
                (d.a as nat) * (255 - sa as nat) / 255 <= 255,
        ;
        assert((d.b as nat) * ((d.a as nat) * (255 - sa as nat) / 255) <= 255 * 255) by (
        nonlinear_arith)
            requires
                d.b as nat <= 255,
                (d.a as nat) * (255 - sa as nat) / 255 <= 255,
        ;
    }
    let sau = sa as u32;
    let rest: u32 = (d.a as u32) * (255 - sau) / 255;
    let out_a: u32 = sau + rest;
    let rr: u32;
    let gg: u32;
    let bb: u32;
    if out_a == 0 {
        rr = 0;
        gg = 0;
        bb = 0;
    } else {
        rr = ((luma as u32) * sau + (d.r as u32) * rest) / out_a;
        gg = ((luma as u32) * sau + (d.g as u32) * rest) / out_a;
        bb = ((luma as u32) * sau + (d.b as u32) * rest) / out_a;
    }
    Pixel { r: rr as u8, g: gg as u8, b: bb as u8, a: out_a as u8 }
}

/// The canvas after the first `k` glyph pixels, taken column-major with `x`
/// outermost, have been rendered onto `c0` at offset `(ox, oy)`: a glyph
/// pixel `(gx, gy)` is rendered once `gx * h + gy < k`, blending when
/// `blend` is set and stamping otherwise.
pub open spec fn pass_upto(
    c0: Seq<Pixel>,
    cw: nat,
    w: nat,
    h: nat,
    cov: Seq<u8>,
    ox: nat,
    oy: nat,
    luma: u8,
    blend: bool,
    k: nat,
) -> Seq<Pixel> {
    Seq::new(
        c0.len(),
        |p: int|
            {
                let px = p % cw as int;
                let py = p / cw as int;
                if ox <= px < ox + w && oy <= py < oy + h && (px - ox) * h + (py - oy) < k {
                    let sa = cov[(px - ox) + (py - oy) * w];
                    if blend {
                        blend_pixel_spec(c0[p], luma, sa)
                    } else {
                        stamp_pixel_spec(luma, sa)
                    }
                } else {
                    c0[p]
                }
            },
    )
}

/// One full render pass of a glyph over a canvas: every covered pixel
/// blended or stamped once, the rest untouched.
pub open spec fn render_pass_spec(
    c0: Seq<Pixel>,
    cw: nat,
    w: nat,
    h: nat,
    cov: Seq<u8>,
    ox: nat,
    oy: nat,
    luma: u8,
    blend: bool,
) -> Seq<Pixel> {
    pass_upto(c0, cw, w, h, cov, ox, oy, luma, blend, w * h)
}

/// Renders the glyph's coverage onto the canvas at offset `(ox, oy)` with a
/// uniform luma: alpha-blended when `blend` is set, overwriting otherwise.
pub fn render_glyph(canvas: &mut Canvas, g: &RawGlyph, ox: u32, oy: u32, luma: u8, blend: bool)
    requires
        old(canvas).wf(),
        g.wf(),
        ox + g.width <= old(canvas).width,
        oy + g.height <= old(canvas).height,
    ensures
        final(canvas).width == old(canvas).width,
        final(canvas).height == old(canvas).height,
        final(canvas).wf(),
        final(canvas).pixels@ =~= render_pass_spec(
            old(canvas).pixels@,
            old(canvas).width as nat,
            g.width as nat,
            g.height as nat,
            g.coverage@,
            ox as nat,
            oy as nat,
            luma,
            blend,
        ),
{
    let w = g.width;
    let h = g.height;
    let cw = canvas.width;
    let ghost c0 = canvas.pixels@;
    let mut x: u32 = 0;
    proof {
        assert(pass_upto(c0, cw as nat, w as nat, h as nat, g.coverage@, ox as nat, oy as nat, luma, blend, 0)
            =~= c0);
    }
    while x < w
        invariant
            0 <= x <= w,
            canvas.width == cw,
            canvas.height == old(canvas).height,
            canvas.wf(),
            g.wf(),
            w == g.width,
            h == g.height,
            ox + w <= cw,
            oy + h <= canvas.height,
            c0 == old(canvas).pixels@,
            c0.len() == canvas.pixels@.len(),
            canvas.pixels@ =~= pass_upto(
                c0,
                cw as nat,
                w as nat,
                h as nat,
                g.coverage@,
                ox as nat,
                oy as nat,
                luma,
                blend,
                (x * h) as nat,
            ),
        decreases w - x,
    {
        let mut y: u32 = 0;
        while y < h
            invariant
                0 <= x < w,
                0 <= y <= h,
                canvas.width == cw,
                canvas.height == old(canvas).height,
                canvas.wf(),
                g.wf(),
                w == g.width,
                h == g.height,
                ox + w <= cw,
                oy + h <= canvas.height,
                c0 == old(canvas).pixels@,
                c0.len() == canvas.pixels@.len(),
                canvas.pixels@ =~= pass_upto(
                    c0,
                    cw as nat,
                    w as nat,
                    h as nat,
                    g.coverage@,
                    ox as nat,
                    oy as nat,
                    luma,
                    blend,
                    (x * h + y) as nat,
                ),
            decreases h - y,
        {
            proof {
                assert(x * h + y < w * h) by (nonlinear_arith)
                    requires
                        0 <= x < w,
                        0 <= y < h,
                ;
            }
            proof {
                assert(x + y * w < w * h && w * h <= 0xFFFF * 0xFFFF) by (nonlinear_arith)
                    requires
                        0 <= x < w,
                        0 <= y < h,
                        w <= 0xFFFF,
                        h <= 0xFFFF,
                ;
            }
            let cov_idx: usize = (x as usize) + (y as usize) * (w as usize);
            let sa = g.coverage[cov_idx];
            let px = ox + x;
            let py = oy + y;
            proof {
                assert(py * cw + px < cw * canvas.height && cw * canvas.height <= 0xFFFF * 0xFFFF)
                    by (nonlinear_arith)
                    requires
                        0 <= px < cw,
                        0 <= py < canvas.height,
                        cw <= 0xFFFF,
                        canvas.height <= 0xFFFF,
                ;
            }
            let p: usize = (py as usize) * (cw as usize) + (px as usize);
            let newval = if blend {
                blend_pixel_value(canvas.pixels[p], luma, sa)
            } else {
                Pixel { r: luma, g: luma, b: luma, a: sa }
            };
            proof {
                lemma_pass_step(
                    c0,
                    cw as nat,
                    w as nat,
                    h as nat,
                    g.coverage@,
                    ox as nat,
                    oy as nat,
                    luma,
                    blend,
                    x as nat,
                    y as nat,
                    canvas.height as nat,
                );
            }
            canvas.pixels.set(p, newval);
            y = y + 1;
        }
        proof {
            assert((x + 1) * h == x * h + h) by (nonlinear_arith)
                requires
                    x >= 0,
                    h >= 0,
            ;
        }
        x = x + 1;
    }
    proof {
        assert(x * h == w * h);
    }
}

/// Rendering glyph pixel `(x, y)` takes the pass from `k = x * h + y` to
/// `k + 1`: exactly the canvas pixel `(ox + x, oy + y)` changes, to the
/// blend (or stamp) of its previous value, which the pass so far has left
/// untouched.
proof fn lemma_pass_step(
    c0: Seq<Pixel>,
    cw: nat,
    w: nat,
    h: nat,
    cov: Seq<u8>,
    ox: nat,
    oy: nat,
    luma: u8,
    blend: bool,
    x: nat,
    y: nat,
    ch: nat,
)
    requires
        x < w,
        y < h,
        ox + w <= cw,
        oy + h <= ch,
        c0.len() == cw * ch,
        cov.len() == w * h,
    ensures
        ({
            let k = x * h + y;
            let p = (oy + y) * cw + (ox + x);
            let cur = pass_upto(c0, cw, w, h, cov, ox, oy, luma, blend, k);
            let sa = cov[(x + y * w) as int];
            let newval = if blend {
                blend_pixel_spec(c0[p as int], luma, sa)
            } else {
                stamp_pixel_spec(luma, sa)
            };
            &&& 0 <= p < c0.len()
            &&& cur[p as int] == c0[p as int]
            &&& cur.update(p as int, newval) =~= pass_upto(
                c0,
                cw,
                w,
                h,
                cov,
                ox,
                oy,
                luma,
                blend,
                k + 1,
            )
        }),
{
    let k = x * h + y;
    let p = (oy + y) * cw + (ox + x);
    let cur = pass_upto(c0, cw, w, h, cov, ox, oy, luma, blend, k);
    let nxt = pass_upto(c0, cw, w, h, cov, ox, oy, luma, blend, k + 1);
    assert(p + 1 <= c0.len()) by (nonlinear_arith)
        requires
            p == (oy + y) * cw + (ox + x),
            c0.len() == cw * ch,
            ox + x < cw,
            oy + y < ch,
    ;
    vstd::arithmetic::div_mod::lemma_fundamental_div_mod_converse(
        p as int,
        cw as int,
        (oy + y) as int,
        (ox + x) as int,
    );
    assert(p as int % cw as int == ox + x);
    assert(p as int / cw as int == oy + y);
    assert(x * h + y < k + 1);
    assert(cur[p as int] == c0[p as int]) by {
        assert(!((x * h + y) < k));
    }
    let sa = cov[(x + y * w) as int];
    let newval = if blend {
        blend_pixel_spec(c0[p as int], luma, sa)
    } else {
        stamp_pixel_spec(luma, sa)
    };
    assert(nxt[p as int] == newval);
    assert forall|q: int| 0 <= q < c0.len() && q != p implies cur[q] == nxt[q] by {
        let qx = q % cw as int;
        let qy = q / cw as int;
        vstd::arithmetic::div_mod::lemma_fundamental_div_mod(q, cw as int);
        if ox <= qx < ox + w && oy <= qy < oy + h {
            if (qx - ox) * h + (qy - oy) == k {
                assert(qx == ox + x && qy == oy + y) by (nonlinear_arith)
                    requires
                        (qx - ox) * h + (qy - oy) == x * h + y,
                        0 <= qy - oy < h,
                        0 <= y < h,
                        0 <= qx - ox,
                        0 <= x,
                ;
                assert(q == p) by (nonlinear_arith)
                    requires
                        q == cw * qy + qx,
                        qx == ox + x,
                        qy == oy + y,
                        p == (oy + y) * cw + (ox + x),
                ;
            }
        }
    }
    assert(cur.update(p as int, newval) =~= nxt);
}

/// The soften pass: every pixel keeps its colour and has its alpha divided
/// by three, turning the accumulated halo into a semi-transparent tint.
pub open spec fn soften_spec(c: Seq<Pixel>) -> Seq<Pixel> {
    Seq::new(
        c.len(),
        |p: int| Pixel { r: c[p].r, g: c[p].g, b: c[p].b, a: (c[p].a / 3) as u8 },
    )
}

/// Divides every pixel's alpha channel by three, uniformly.
pub fn soften(canvas: &mut Canvas)
    requires
        old(canvas).wf(),
    ensures
        final(canvas).width == old(canvas).width,
        final(canvas).height == old(canvas).height,
        final(canvas).wf(),
        final(canvas).pixels@ =~= soften_spec(old(canvas).pixels@),
{
    let ghost c0 = canvas.pixels@;
    let n = canvas.pixels.len();
    let mut p: usize = 0;
    while p < n
        invariant
            0 <= p <= n,
            canvas.width == old(canvas).width,
            canvas.height == old(canvas).height,
            canvas.wf(),
            n == c0.len(),
            canvas.pixels@.len() == c0.len(),
            forall|q: int| 0 <= q < p ==> canvas.pixels@[q] == soften_spec(c0)[q],
            forall|q: int| p <= q < n ==> canvas.pixels@[q] == c0[q],
        decreases n - p,
    {
        let px = canvas.pixels[p];
        canvas.pixels.set(p, Pixel { r: px.r, g: px.g, b: px.b, a: px.a / 3 });
        p = p + 1;
    }
}

/// The canvas after the first `j` halo passes: pass `j` blends the glyph at
/// luma zero at offset `(ax + j / (2r), ay + j % (2r))`, walking a
/// `2r * 2r` window of offsets with the horizontal step outermost.
pub open spec fn halo_upto(
    c0: Seq<Pixel>,
    cw: nat,
    w: nat,
    h: nat,
    cov: Seq<u8>,
    r: nat,
    ax: nat,
    ay: nat,
    j: nat,
) -> Seq<Pixel>
    decreases j,
{
    if j == 0 {
        c0
    } else {
        let prev = halo_upto(c0, cw, w, h, cov, r, ax, ay, (j - 1) as nat);
        render_pass_spec(
            prev,
            cw,
            w,
            h,
            cov,
            ax + ((j - 1) as nat) / (2 * r),
            ay + ((j - 1) as nat) % (2 * r),
            0,
            true,
        )
    }
}

/// The composited canvas of one glyph at outline radius `r`, as the
/// compositor builds it. With `r == 0` the glyph is stamped alone onto a
/// canvas of its own size. With `r > 0` the canvas grows by `2r` for the
/// outline plus `r` for the shadow offset on each axis; a `2r * 2r` window
/// of dark blended passes anchored at `(r, r)` builds the halo, the halo is
/// softened by an alpha division, a second dark window anchored at the
/// origin adds the drop shadow, and the glyph itself is blended on top at
/// `(r, r)` at full luma.
pub open spec fn spec_composite(w: nat, h: nat, cov: Seq<u8>, r: nat) -> Seq<Pixel> {
    let cw = w + 3 * r;
    let ch = h + 3 * r;
    let base = Seq::new(cw * ch, |p: int| Pixel { r: 0, g: 0, b: 0, a: 0 });
    if r == 0 {
        render_pass_spec(base, cw, w, h, cov, 0, 0, 255, false)
    } else {
        let halo = halo_upto(base, cw, w, h, cov, r, r, r, 4 * r * r);
        let soft = soften_spec(halo);
        let shadow = halo_upto(soft, cw, w, h, cov, r, 0, 0, 4 * r * r);
        render_pass_spec(shadow, cw, w, h, cov, r, r, 255, true)
    }
}

/// Builds a fully transparent pixel buffer of the given dimensions.
fn zero_pixels(w: u32, h: u32) -> (res: Vec<Pixel>)
    requires
        w <= 0xFFFF,
        h <= 0xFFFF,
    ensures
        res@ =~= Seq::new((w * h) as nat, |p: int| Pixel { r: 0, g: 0, b: 0, a: 0 }),
{
    proof {
        assert(w * h <= 0xFFFF * 0xFFFF) by (nonlinear_arith)
            requires
                w <= 0xFFFF,
                h <= 0xFFFF,
        ;
    }
    let total: usize = (w as usize) * (h as usize);
    let mut out: Vec<Pixel> = Vec::new();
    let mut i: usize = 0;
    while i < total
        invariant
            0 <= i <= total,
            total == w * h,
            out@.len() == i,
            forall|q: int| 0 <= q < i ==> out@[q] == (Pixel { r: 0, g: 0, b: 0, a: 0 }),
        decreases total - i,
    {
        out.push(Pixel { r: 0, g: 0, b: 0, a: 0 });
        i = i + 1;
    }
    out
}

/// One window of dark halo passes over the canvas, `2r * 2r` offsets
/// anchored at `(ax, ay)`, horizontal step outermost.
fn halo_window(canvas: &mut Canvas, g: &RawGlyph, r: u32, ax: u32, ay: u32)
    requires
        old(canvas).wf(),
        g.wf(),
        r > 0,
        ax + 2 * r - 1 + g.width <= old(canvas).width,
        ay + 2 * r - 1 + g.height <= old(canvas).height,
    ensures
        final(canvas).width == old(canvas).width,
        final(canvas).height == old(canvas).height,
        final(canvas).wf(),
        final(canvas).pixels@ =~= halo_upto(
            old(canvas).pixels@,
            old(canvas).width as nat,
            g.width as nat,
            g.height as nat,
            g.coverage@,
            r as nat,
            ax as nat,
            ay as nat,
            (4 * r * r) as nat,
        ),
{
    let ghost c0 = canvas.pixels@;
    let ghost cw = canvas.width as nat;
    let side = 2 * r;
    proof {
        assert(4 * r * r == (2 * r) * (2 * r)) by (nonlinear_arith)
            requires
                r >= 0,
        ;
    }
    let mut ox: u32 = 0;
    while ox < side
        invariant
            0 <= ox <= side,
            side == 2 * r,
            r > 0,
            canvas.width == old(canvas).width,
            canvas.height == old(canvas).height,
            canvas.wf(),
            g.wf(),
            ax + side - 1 + g.width <= canvas.width,
            ay + side - 1 + g.height <= canvas.height,
            c0 == old(canvas).pixels@,
            cw == canvas.width as nat,
            canvas.pixels@ =~= halo_upto(
                c0,
                cw,
                g.width as nat,
                g.height as nat,
                g.coverage@,
                r as nat,
                ax as nat,
                ay as nat,
                (ox * side) as nat,
            ),
        decreases side - ox,
    {
        let mut oy: u32 = 0;
        proof {
            assert(ox * side + side <= side * side) by (nonlinear_arith)
                requires
                    0 <= ox < side,
            ;
        }
        while oy < side
            invariant
                0 <= ox < side,
                0 <= oy <= side,
                side == 2 * r,
                r > 0,
                ox * side + side <= side * side,
                canvas.width == old(canvas).width,
                canvas.height == old(canvas).height,
                canvas.wf(),
                g.wf(),
                ax + side - 1 + g.width <= canvas.width,
                ay + side - 1 + g.height <= canvas.height,
                c0 == old(canvas).pixels@,
                cw == canvas.width as nat,
                canvas.pixels@ =~= halo_upto(
                    c0,
                    cw,
                    g.width as nat,
                    g.height as nat,
                    g.coverage@,
                    r as nat,
                    ax as nat,
                    ay as nat,
                    (ox * side + oy) as nat,
                ),
            decreases side - oy,
        {
            let ghost j = (ox * side + oy) as nat;
            render_glyph(canvas, g, ax + ox, ay + oy, 0, true);
            proof {
                vstd::arithmetic::div_mod::lemma_fundamental_div_mod_converse(
                    j as int,
                    side as int,
                    ox as int,
                    oy as int,
                );
                assert(j / (2 * r as nat) == ox as nat);
                assert(j % (2 * r as nat) == oy as nat);
                assert(halo_upto(
                    c0,
                    cw,
                    g.width as nat,
                    g.height as nat,
                    g.coverage@,
                    r as nat,
                    ax as nat,
                    ay as nat,
                    j + 1,
                ) =~= canvas.pixels@);
            }
            oy = oy + 1;
        }
        proof {
            assert((ox + 1) * side == ox * side + side) by (nonlinear_arith)
                requires
                    ox >= 0,
                    side >= 0,
            ;
        }
        ox = ox + 1;
    }
    proof {
        assert(side * side == 4 * r * r) by (nonlinear_arith)
            requires
                side == 2 * r,
        ;
        assert(ox * side == side * side) by (nonlinear_arith)
            requires
                ox == side,
        ;
    }
}

/// Composites one glyph onto its own small canvas. Zero-sized glyphs get no
/// canvas at all. With `outline == 0` the canvas has exactly the glyph's
/// dimensions and holds the glyph stamped without blending; with
/// `outline == r > 0` the canvas measures `width + 2r + r` by
/// `height + 2r + r` (the shadow offset equals the radius) and holds the
/// halo, drop shadow and glyph as `spec_composite` lays them down.
pub fn composite_glyph(g: &RawGlyph, outline: u32) -> (res: Option<Canvas>)
    requires
        g.wf(),
        g.width + 3 * outline <= 0xFFFF,
        g.height + 3 * outline <= 0xFFFF,
    ensures
        match res {
            None => g.width == 0 || g.height == 0,
            Some(c) => {
                &&& g.width > 0 && g.height > 0
                &&& c.wf()
                &&& c.width == g.width + 2 * outline + outline
                &&& c.height == g.height + 2 * outline + outline
                &&& c.pixels@ =~= spec_composite(
                    g.width as nat,
                    g.height as nat,
                    g.coverage@,
                    outline as nat,
                )
            },
        },
{
    if g.width == 0 || g.height == 0 {
        return None;
    }
    let shadow_offset = outline;
    let cw = g.width + outline * 2 + shadow_offset;
    let ch = g.height + outline * 2 + shadow_offset;
    let mut canvas = Canvas { width: cw, height: ch, pixels: zero_pixels(cw, ch) };
    proof {
        assert(canvas.wf()) by (nonlinear_arith)
            requires
                canvas.pixels@.len() == cw * ch,
                canvas.width == cw,
                canvas.height == ch,
                cw <= 0xFFFF,
                ch <= 0xFFFF,
        ;
    }
    if outline > 0 {
        halo_window(&mut canvas, g, outline, shadow_offset, shadow_offset);
        soften(&mut canvas);
        halo_window(&mut canvas, g, outline, 0, 0);
        render_glyph(&mut canvas, g, outline, outline, 255, true);
    } else {
        render_glyph(&mut canvas, g, outline, outline, 255, false);
    }
    Some(canvas)
}

/// With no outline the compositor is an exact stamp: the canvas has the
/// glyph's own dimensions and every pixel holds the full luma with the
/// coverage byte as its alpha, nothing blended.
pub proof fn lemma_composite_stamp(w: nat, h: nat, cov: Seq<u8>)
    requires
        w > 0,
        h > 0,
        cov.len() == w * h,
    ensures
        spec_composite(w, h, cov, 0).len() == w * h,
        forall|p: int|
            0 <= p < w * h ==> spec_composite(w, h, cov, 0)[p] == stamp_pixel_spec(
                255,
                cov[p],
            ),
{
    let res = spec_composite(w, h, cov, 0);
    assert(res.len() == w * h);
    assert forall|p: int| 0 <= p < w * h implies res[p] == stamp_pixel_spec(255, cov[p]) by {
        let px = p % w as int;
        let py = p / w as int;
        vstd::arithmetic::div_mod::lemma_fundamental_div_mod(p, w as int);
        assert(0 <= px < w && 0 <= py < h) by (nonlinear_arith)
            requires
                0 <= p < w * h,
                p == w * py + px,
                0 <= px < w,
                w > 0,
        ;
        assert(px * h + py < w * h) by (nonlinear_arith)
            requires
                0 <= px < w,
                0 <= py < h,
        ;
        assert(px + py * w == p) by (nonlinear_arith)
            requires
                p == w * py + px,
        ;
    }
}


} // verus!
