use vstd::prelude::*;

use crate::charset::{charset_ranges, charset_valid, expand_ranges, parse_charset, split_on,
    token_error_matches, token_valid, CharsetError, expanded};
use crate::compositor::{composite_glyph, Pixel};
use crate::estimator::estimate_atlas_width;
use crate::glyph::RawGlyph;
use crate::packing::{encode_png, export_font_atlas, font_pack_own, font_packer_keys,
    font_packer_max_height, font_packer_max_width, font_packer_top, new_font_packer, rgba_to_image,
    AtlasError};
use crate::variants::{font_variants, FontVariant};

verus! {

/// The charset specification actually used: the given one, or the
/// printable-ASCII default.
pub open spec fn chosen_charset(charset: Option<&str>) -> Seq<char> {
    match charset {
        Some(c) => c@,
        None => "32-126"@,
    }
}

/// The codepoints a charset specification selects, with the printable-ASCII
/// default applied when none is given: each comma-separated token expands
/// over its half-open interval.
pub fn charset_codepoints(charset: Option<&str>) -> (r: Result<Vec<u32>, CharsetError>)
    ensures
        r matches Ok(v) ==> charset_valid(chosen_charset(charset)) && v@ == expanded(
            charset_ranges(chosen_charset(charset)),
        ),
        r matches Err(e) ==> ({
            let toks = split_on(chosen_charset(charset), ',');
            exists|k: int|
                0 <= k < toks.len() && !token_valid(#[trigger] toks[k]) && (forall|j: int|
                    0 <= j < k ==> token_valid(#[trigger] toks[j])) && token_error_matches(
                    toks[k],
                    e,
                )
        }),
{
    let spec_str = match charset {
        Some(c) => c,
        None => {
            let d = "32-126";
            proof {
                reveal_strlit("32-126");
                assert(d@ =~= "32-126"@);
            }
            d
        },
    };
    match parse_charset(spec_str) {
        Ok(ranges) => {
            let v = expand_ranges(&ranges);
            proof {
                assert(v@ =~= expanded(charset_ranges(spec_str@)));
            }
            Ok(v)
        },
        Err(e) => Err(e),
    }
}

/// A glyph the atlas builder accepts: well formed, with a composited canvas
/// that stays within machine limits at this outline radius.
pub open spec fn glyph_packable(g: RawGlyph, outline: u32) -> bool {
    &&& g.wf()
    &&& g.width + 3 * outline <= 0xFFFF
    &&& g.height + 3 * outline <= 0xFFFF
}

/// The estimator's width after clamping to the machine word.
pub open spec fn est_width_clamped(gs: Seq<RawGlyph>) -> nat {
    if crate::estimator::spec_estimate_width(gs) <= u32::MAX as nat {
        crate::estimator::spec_estimate_width(gs)
    } else {
        u32::MAX as nat
    }
}

/// Total height the packed canvases can occupy: each nonzero glyph's canvas
/// height plus the packer's frame padding.
pub open spec fn canvas_heights_sum(gs: Seq<RawGlyph>, outline: u32) -> nat
    decreases gs.len(),
{
    if gs.len() == 0 {
        0
    } else {
        canvas_heights_sum(gs.drop_last(), outline) + if gs.last().width > 0 && gs.last().height
            > 0 {
            (gs.last().height + 3 * outline + 3) as nat
        } else {
            0
        }
    }
}

/// Every prefix occupies no more height than the whole.
proof fn lemma_canvas_heights_prefix(gs: Seq<RawGlyph>, outline: u32, k: int)
    requires
        0 <= k <= gs.len(),
    ensures
        canvas_heights_sum(gs.take(k), outline) <= canvas_heights_sum(gs, outline),
    decreases gs.len() - k,
{
    if k < gs.len() {
        lemma_canvas_heights_prefix(gs, outline, k + 1);
        assert(gs.take(k + 1).drop_last() =~= gs.take(k));
        assert(gs.take(k + 1).last() == gs[k]);
    } else {
        assert(gs.take(k) =~= gs);
    }
}

/// The inputs on which the packer is owed success: every glyph packable,
/// every nonzero canvas narrower than the estimated width with room for the
/// packer's padding, and the total canvas height within the unbounded
/// atlas's machine limit.
pub open spec fn atlas_fits(gs: Seq<RawGlyph>, outline: u32) -> bool {
    &&& gs.len() <= u32::MAX
    &&& forall|i: int| 0 <= i < gs.len() ==> glyph_packable(#[trigger] gs[i], outline)
    &&& forall|i: int|
        0 <= i < gs.len() && (#[trigger] gs[i]).width > 0 && gs[i].height > 0 ==> gs[i].width + 3
            * outline + 3 <= est_width_clamped(gs)
    &&& canvas_heights_sum(gs, outline) <= u32::MAX
}

/// The codepoints of the glyphs that reach the packer: every glyph with a
/// nonzero width and height.
pub open spec fn packed_codepoints(gs: Seq<RawGlyph>) -> Set<u32>
    decreases gs.len(),
{
    if gs.len() == 0 {
        Set::empty()
    } else if gs.last().width > 0 && gs.last().height > 0 {
        packed_codepoints(gs.drop_last()).insert(gs.last().codepoint)
    } else {
        packed_codepoints(gs.drop_last())
    }
}

/// The packed set is empty exactly when every glyph is zero-sized.
proof fn lemma_packed_codepoints_empty(gs: Seq<RawGlyph>)
    ensures
        (packed_codepoints(gs) == Set::<u32>::empty()) <==> (forall|i: int|
            0 <= i < gs.len() ==> (#[trigger] gs[i]).width == 0 || gs[i].height == 0),
    decreases gs.len(),
{
    if gs.len() > 0 {
        lemma_packed_codepoints_empty(gs.drop_last());
        let last = gs.last();
        if last.width > 0 && last.height > 0 {
            let s = packed_codepoints(gs.drop_last()).insert(last.codepoint);
            assert(s.contains(last.codepoint));
            assert(s != Set::<u32>::empty()) by {
                assert(!Set::<u32>::empty().contains(last.codepoint));
            }
        } else {
            assert(packed_codepoints(gs) == packed_codepoints(gs.drop_last()));
            assert forall|i: int|
                0 <= i < gs.len() && (packed_codepoints(gs) == Set::<u32>::empty()) implies (
            #[trigger] gs[i]).width == 0 || gs[i].height == 0 by {
                if i < gs.len() - 1 {
                    assert(gs.drop_last()[i] == gs[i]);
                }
            }
            if forall|i: int| 0 <= i < gs.len() ==> (#[trigger] gs[i]).width == 0 || gs[i].height
                == 0 {
                assert forall|i: int|
                    0 <= i < gs.drop_last().len() implies (#[trigger] gs.drop_last()[i]).width == 0
                    || gs.drop_last()[i].height == 0 by {
                    assert(gs.drop_last()[i] == gs[i]);
                }
            }
        }
    }
}

/// Flattens a pixel buffer to raw RGBA bytes, four per pixel.
fn flatten_pixels(pixels: &Vec<Pixel>) -> (r: Vec<u8>)
    requires
        pixels@.len() <= 0xFFFF * 0xFFFF,
    ensures
        r@.len() == 4 * pixels@.len(),
        forall|i: int|
            0 <= i < pixels@.len() ==> r@[4 * i] == (#[trigger] pixels@[i]).r && r@[4 * i + 1]
                == pixels@[i].g && r@[4 * i + 2] == pixels@[i].b && r@[4 * i + 3] == pixels@[i].a,
{
    let mut out: Vec<u8> = Vec::new();
    let mut i: usize = 0;
    while i < pixels.len()
        invariant
            0 <= i <= pixels@.len(),
            pixels@.len() <= 0xFFFF * 0xFFFF,
            out@.len() == 4 * i,
            forall|j: int|
                0 <= j < i ==> out@[4 * j] == (#[trigger] pixels@[j]).r && out@[4 * j + 1]
                    == pixels@[j].g && out@[4 * j + 2] == pixels@[j].b && out@[4 * j + 3]
                    == pixels@[j].a,
        decreases pixels@.len() - i,
    {
        let p = pixels[i];
        out.push(p.r);
        out.push(p.g);
        out.push(p.b);
        out.push(p.a);
        i = i + 1;
    }
    out
}

/// Builds one bitmap-font atlas from rasterized glyphs: estimates a packing
/// width, composites each glyph with the given outline radius, packs every
/// nonzero glyph keyed by its codepoint, and encodes the atlas as PNG.
///
/// A glyph whose coverage buffer does not match its metrics, or whose
/// composited canvas would exceed machine limits, is rejected up front; the
/// first such glyph is named. Once past validation, an error can come only
/// from the packer running out of room or from every glyph being zero-sized,
/// and when every canvas fits the estimated width and the total height stays
/// within machine limits, the packer too is owed success.
pub fn build_font_atlas(glyphs: &Vec<RawGlyph>, outline: u32) -> (r: Result<Vec<u8>, AtlasError>)
    ensures
        atlas_fits(glyphs@, outline) && (exists|i: int|
            0 <= i < glyphs@.len() && (#[trigger] glyphs@[i]).width > 0 && glyphs@[i].height > 0)
            ==> r is Ok,
        match r {
            Ok(png) => {
                &&& forall|i: int|
                    0 <= i < glyphs@.len() ==> glyph_packable(#[trigger] glyphs@[i], outline)
                &&& exists|i: int|
                    0 <= i < glyphs@.len() && (#[trigger] glyphs@[i]).width > 0 && glyphs@[i].height
                        > 0
                &&& png@.len() >= 8 && png@[0] == 137u8 && png@[1] == 80u8 && png@[2] == 78u8
                    && png@[3] == 71u8
            },
            Err(e) => match e {
                AtlasError::InvalidGlyph(cp) => exists|k: int|
                    0 <= k < glyphs@.len() && !glyph_packable(#[trigger] glyphs@[k], outline) && (
                    forall|j: int|
                        0 <= j < k ==> glyph_packable(#[trigger] glyphs@[j], outline)) && cp
                        == glyphs@[k].codepoint,
                AtlasError::EmptyAtlas => forall|i: int|
                    0 <= i < glyphs@.len() ==> (#[trigger] glyphs@[i]).width == 0
                        || glyphs@[i].height == 0,
                AtlasError::PackingCapacityExceeded => (forall|i: int|
                    0 <= i < glyphs@.len() ==> glyph_packable(#[trigger] glyphs@[i], outline))
                    && !atlas_fits(glyphs@, outline),
                _ => false,
            },
        },
{
    let mut i: usize = 0;
    while i < glyphs.len()
        invariant
            0 <= i <= glyphs@.len(),
            forall|j: int| 0 <= j < i ==> glyph_packable(#[trigger] glyphs@[j], outline),
        decreases glyphs@.len() - i,
    {
        let g = &glyphs[i];
        let ok = g.check_wf() && outline <= 0xFFFF / 3 && g.width <= 0xFFFF - 3 * outline
            && g.height <= 0xFFFF - 3 * outline;
        if !ok {
            return Err(AtlasError::InvalidGlyph(g.codepoint));
        }
        i = i + 1;
    }
    if glyphs.len() > (u32::MAX as usize) {
        return Err(AtlasError::PackingCapacityExceeded);
    }
    let width = estimate_atlas_width(glyphs);
    proof {
        assert(width as nat == est_width_clamped(glyphs@));
    }
    let mut packer = new_font_packer(width, u32::MAX);
    let mut k: usize = 0;
    while k < glyphs.len()
        invariant
            0 <= k <= glyphs@.len(),
            forall|j: int| 0 <= j < glyphs@.len() ==> glyph_packable(#[trigger] glyphs@[j], outline),
            font_packer_keys(&packer) == packed_codepoints(glyphs@.take(k as int)),
            font_packer_max_width(&packer) == width as nat,
            font_packer_max_height(&packer) == u32::MAX as nat,
            width as nat == est_width_clamped(glyphs@),
            width >= 10,
            font_packer_top(&packer) <= canvas_heights_sum(glyphs@.take(k as int), outline),
        decreases glyphs@.len() - k,
    {
        let g = &glyphs[k];
        proof {
            assert(glyphs@.take(k + 1).drop_last() =~= glyphs@.take(k as int));
            assert(glyphs@.take(k + 1).last() == glyphs@[k as int]);
        }
        if g.width > 0 && g.height > 0 {
            let canvas = match composite_glyph(g, outline) {
                Some(c) => c,
                None => {
                    proof {
                        assert(false);
                    }
                    return Err(AtlasError::InvalidGlyph(g.codepoint));
                },
            };
            proof {
                assert(canvas.pixels@.len() <= 0xFFFF * 0xFFFF) by (nonlinear_arith)
                    requires
                        canvas.pixels@.len() == canvas.width * canvas.height,
                        canvas.width <= 0xFFFF,
                        canvas.height <= 0xFFFF,
                ;
            }
            let rgba = flatten_pixels(&canvas.pixels);
            let img = rgba_to_image(canvas.width, canvas.height, rgba);
            match font_pack_own(&mut packer, g.codepoint, img) {
                Ok(()) => (),
                Err(e) => {
                    proof {
                        // under the fits conditions the wrapper owes success,
                        // so this exit implies the conditions fail
                        if atlas_fits(glyphs@, outline) {
                            lemma_canvas_heights_prefix(glyphs@, outline, k as int + 1);
                            assert(canvas.width == g.width + 3 * outline);
                            assert(g.width + 3 * outline + 3 <= width as nat);
                            assert(font_packer_top(&packer) + canvas.height + 3 <= canvas_heights_sum(
                                glyphs@.take(k + 1),
                                outline,
                            ));
                            assert(false);
                        }
                    }
                    return Err(e);
                },
            }
        }
        k = k + 1;
    }
    proof {
        assert(glyphs@.take(glyphs@.len() as int) =~= glyphs@);
        lemma_packed_codepoints_empty(glyphs@);
    }
    let atlas = match export_font_atlas(&packer) {
        Ok(img) => img,
        Err(e) => {
            return Err(AtlasError::EmptyAtlas);
        },
    };
    proof {
        if packed_codepoints(glyphs@) == Set::<u32>::empty() {
            assert(false);
        }
        assert(exists|i: int|
            0 <= i < glyphs@.len() && (#[trigger] glyphs@[i]).width > 0 && glyphs@[i].height > 0)
            by {
            assert(!(forall|i: int|
                0 <= i < glyphs@.len() ==> (#[trigger] glyphs@[i]).width == 0 || glyphs@[i].height
                    == 0));
        }
    }
    match encode_png(&atlas) {
        Ok(png) => Ok(png),
        Err(_) => {
            proof {
                // the exported atlas is eight-bit RGBA with nonzero
                // dimensions, so the encoder cannot fail
                assert(false);
            }
            Err(AtlasError::EncodeFailed)
        },
    }
}

/// The base name of a generated font: the prefix, when given, followed by
/// the explicit name or the fallback taken from the font file.
pub open spec fn true_name_spec(
    prefix: Option<&str>,
    name: Option<&str>,
    fallback: &str,
) -> Seq<char> {
    (match prefix {
        Some(p) => p@,
        None => Seq::<char>::empty(),
    }) + (match name {
        Some(n) => n@,
        None => fallback@,
    })
}

/// Joins the optional prefix with the chosen name.
fn make_true_name(prefix: Option<&str>, name: Option<&str>, fallback: &str) -> (r: String)
    ensures
        r@ == true_name_spec(prefix, name, fallback),
{
    let mut s = String::new();
    match prefix {
        Some(p) => s.append(p),
        None => (),
    }
    match name {
        Some(n) => s.append(n),
        None => s.append(fallback),
    }
    s
}

/// The outline radius of tier `i`: halved, then quartered, by integer
/// division.
pub open spec fn tier_outline(i: int, outline: u32) -> u32 {
    if i == 0 {
        outline
    } else if i == 1 {
        outline / 2
    } else {
        outline / 4
    }
}

/// Every glyph of the set is packable at this outline radius.
pub open spec fn set_packable(gs: Seq<RawGlyph>, outline: u32) -> bool {
    forall|i: int| 0 <= i < gs.len() ==> glyph_packable(#[trigger] gs[i], outline)
}

/// Some glyph of the set has a nonzero width and height.
pub open spec fn set_has_visible(gs: Seq<RawGlyph>) -> bool {
    exists|i: int| 0 <= i < gs.len() && (#[trigger] gs[i]).width > 0 && gs[i].height > 0
}

/// One generated atlas: the file name it should be written under and the
/// encoded PNG data.
pub struct NamedAtlas {
    pub name: String,
    pub png: Vec<u8>,
}

/// Generates the bitmap-font atlases for a TrueType font from its
/// rasterized glyphs, one atlas per resolution tier: the single `-uhd` tier,
/// or all three tiers when variants are requested. `glyph_sets[i]` holds the
/// glyphs rasterized at tier `i`'s font size, in tier order; each tier is
/// composited at its own scaled outline radius and packed independently,
/// and the first tier that fails aborts the whole call. Each produced atlas
/// is named `{prefix}{name}{suffix}.png`, the name falling back to the font
/// file's own.
pub fn create_bitmap_font_from_ttf(
    name: Option<&str>,
    fallback_name: &str,
    fontsize: u32,
    prefix: Option<&str>,
    create_variants: bool,
    outline: u32,
    glyph_sets: Vec<Vec<RawGlyph>>,
) -> (r: Result<Vec<NamedAtlas>, AtlasError>)
    requires
        glyph_sets@.len() == if create_variants {
            3int
        } else {
            1int
        },
    ensures
        (forall|t: int|
            0 <= t < glyph_sets@.len() ==> atlas_fits(
                (#[trigger] glyph_sets@[t])@,
                tier_outline(t, outline),
            ) && set_has_visible(glyph_sets@[t]@)) ==> r is Ok,
        match r {
            Ok(v) => {
                &&& v@.len() == glyph_sets@.len()
                &&& forall|i: int|
                    0 <= i < v@.len() ==> (#[trigger] v@[i].name)@ == true_name_spec(
                        prefix,
                        name,
                        fallback_name,
                    ) + suffix_spec(i, create_variants) + ".png"@
                &&& forall|i: int|
                    0 <= i < v@.len() ==> (#[trigger] v@[i].png)@.len() >= 8 && v@[i].png@[0]
                        == 137u8 && v@[i].png@[1] == 80u8
            },
            Err(e) => exists|t: int|
                {
                    &&& 0 <= t < glyph_sets@.len()
                    &&& (forall|t2: int|
                        0 <= t2 < t ==> set_packable(
                            (#[trigger] glyph_sets@[t2])@,
                            tier_outline(t2, outline),
                        ) && set_has_visible(glyph_sets@[t2]@))
                    &&& match e {
                        AtlasError::InvalidGlyph(cp) => exists|k: int|
                            0 <= k < glyph_sets@[t]@.len() && !glyph_packable(
                                #[trigger] glyph_sets@[t]@[k],
                                tier_outline(t, outline),
                            ) && (forall|j: int|
                                0 <= j < k ==> glyph_packable(
                                    #[trigger] glyph_sets@[t]@[j],
                                    tier_outline(t, outline),
                                )) && cp == glyph_sets@[t]@[k].codepoint,
                        AtlasError::EmptyAtlas => forall|i: int|
                            0 <= i < glyph_sets@[t]@.len() ==> (#[trigger] glyph_sets@[t]@[i]).width
                                == 0 || glyph_sets@[t]@[i].height == 0,
                        AtlasError::PackingCapacityExceeded => set_packable(
                            glyph_sets@[t]@,
                            tier_outline(t, outline),
                        ) && !atlas_fits(glyph_sets@[t]@, tier_outline(t, outline)),
                        _ => false,
                    }
                },
        },
{
    let true_name = make_true_name(prefix, name, fallback_name);
    let variants = font_variants(fontsize, outline, create_variants);
    let mut out: Vec<NamedAtlas> = Vec::new();
    let mut i: usize = 0;
    while i < glyph_sets.len()
        invariant
            0 <= i <= glyph_sets@.len(),
            variants@.len() == glyph_sets@.len(),
            forall|j: int|
                0 <= j < variants@.len() ==> (#[trigger] variants@[j].suffix)@ == suffix_spec(
                    j,
                    create_variants,
                ),
            forall|j: int|
                0 <= j < variants@.len() ==> (#[trigger] variants@[j]).outline == tier_outline(
                    j,
                    outline,
                ),
            forall|j: int|
                0 <= j < i ==> set_packable((#[trigger] glyph_sets@[j])@, tier_outline(j, outline))
                    && set_has_visible(glyph_sets@[j]@),
            true_name@ == true_name_spec(prefix, name, fallback_name),
            out@.len() == i,
            forall|j: int|
                0 <= j < i ==> (#[trigger] out@[j].name)@ == true_name_spec(
                    prefix,
                    name,
                    fallback_name,
                ) + suffix_spec(j, create_variants) + ".png"@,
            forall|j: int|
                0 <= j < i ==> (#[trigger] out@[j].png)@.len() >= 8 && out@[j].png@[0] == 137u8
                    && out@[j].png@[1] == 80u8,
        decreases glyph_sets@.len() - i,
    {
        let variant = &variants[i];
        let png = match build_font_atlas(&glyph_sets[i], variant.outline) {
            Ok(png) => png,
            Err(e) => {
                proof {
                    assert(variants@[i as int].outline == tier_outline(i as int, outline));
                }
                return Err(e);
            },
        };
        let mut filename = true_name.clone();
        filename.append(variant.suffix);
        filename.append(".png");
        out.push(NamedAtlas { name: filename, png });
        i = i + 1;
    }
    Ok(out)
}

/// The filename suffix of tier `i`.
pub open spec fn suffix_spec(i: int, create_variants: bool) -> Seq<char> {
    if i == 0 {
        "-uhd"@
    } else if i == 1 {
        "-hd"@
    } else {
        ""@
    }
}

} // verus!
