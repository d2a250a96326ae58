use vstd::prelude::*;

verus! {

/// Why building or exporting an atlas failed.
#[derive(Debug)]
pub enum AtlasError {
    /// The packer could not place a rectangle inside its configured bounds.
    PackingCapacityExceeded,
    /// The packer rejected a texture with no opaque pixels after trimming.
    EmptyTexture,
    /// Nothing was packed, so there is no atlas to export.
    EmptyAtlas,
    /// The raster encoder failed to serialize the atlas.
    EncodeFailed,
    /// A glyph whose coverage buffer does not match its metrics, or whose
    /// composited canvas would not fit machine limits, named by codepoint.
    InvalidGlyph(u32),
    /// A sprite whose pixel buffer does not match its dimensions.
    InvalidSprite(String),
}

impl AtlasError {
    /// Human-readable description of the failure.
    pub fn message(&self) -> String {
        match self {
            AtlasError::PackingCapacityExceeded => String::from_str(
                "Internal error packing textures: capacity exceeded",
            ),
            AtlasError::EmptyTexture => String::from_str(
                "Internal error packing textures: empty texture",
            ),
            AtlasError::EmptyAtlas => String::from_str("No textures were packed"),
            AtlasError::EncodeFailed => String::from_str("Unable to encode the atlas image"),
            AtlasError::InvalidGlyph(_) => String::from_str("Malformed glyph bitmap"),
            AtlasError::InvalidSprite(_) => String::from_str("Malformed sprite image"),
        }
    }
}

/// Placement data of one packed texture, as the packer reports it.
#[derive(Clone, Copy, PartialEq, Eq, Structural, Debug)]
pub struct FrameInfo {
    /// The texture was rotated 90 degrees during packing.
    pub rotated: bool,
    /// Size of the source texture before any trimming.
    pub source_w: u32,
    pub source_h: u32,
    /// The packed rectangle inside the atlas.
    pub x: u32,
    pub y: u32,
    pub w: u32,
    pub h: u32,
}

#[verifier::external_type_specification]
#[verifier::external_body]
pub struct ExDynamicImage(image::DynamicImage);

#[verifier::external_type_specification]
#[verifier::external_body]
#[verifier::reject_recursive_types(T)]
#[verifier::reject_recursive_types(K)]
pub struct ExTexturePacker<'a, T: 'a + Clone, K: Clone + Eq + std::hash::Hash>(
    texture_packer::TexturePacker<'a, T, K>,
);

/// Width in pixels of an image, a function of the image value alone.
pub uninterp spec fn image_width(img: &image::DynamicImage) -> nat;

/// Height in pixels of an image, a function of the image value alone.
pub uninterp spec fn image_height(img: &image::DynamicImage) -> nat;

/// The set of keys a font packer holds a frame for.
pub uninterp spec fn font_packer_keys(
    p: &texture_packer::TexturePacker<'static, image::DynamicImage, u32>,
) -> Set<u32>;

/// The frame map of a sprite packer: for each packed name, its placement.
pub uninterp spec fn sprite_packer_frames(
    p: &texture_packer::TexturePacker<'static, image::DynamicImage, String>,
) -> Map<Seq<char>, FrameInfo>;

/// Whether an image holds any pixel with a nonzero alpha, a function of
/// the image value alone.
pub uninterp spec fn image_has_opaque(img: &image::DynamicImage) -> bool;

/// Whether the image is stored as eight-bit RGBA, a function of the image
/// value alone.
pub uninterp spec fn image_is_rgba8(img: &image::DynamicImage) -> bool;

/// Width of an image after cutting its fully transparent boundary columns,
/// a function of the image value alone.
pub uninterp spec fn image_trimmed_width(img: &image::DynamicImage) -> nat;

/// Height of an image after cutting its fully transparent boundary rows,
/// a function of the image value alone.
pub uninterp spec fn image_trimmed_height(img: &image::DynamicImage) -> nat;

/// The maximum atlas width a font packer was configured with.
pub uninterp spec fn font_packer_max_width(
    p: &texture_packer::TexturePacker<'static, image::DynamicImage, u32>,
) -> nat;

/// The maximum atlas height a font packer was configured with.
pub uninterp spec fn font_packer_max_height(
    p: &texture_packer::TexturePacker<'static, image::DynamicImage, u32>,
) -> nat;

/// The top of a font packer's skyline: the lowest height below which every
/// horizontal position is already occupied. A fresh packer has top zero,
/// and anything placed wholly below the top cannot collide.
pub uninterp spec fn font_packer_top(
    p: &texture_packer::TexturePacker<'static, image::DynamicImage, u32>,
) -> nat;

/// The maximum atlas width a sprite packer was configured with.
pub uninterp spec fn sprite_packer_max_width(
    p: &texture_packer::TexturePacker<'static, image::DynamicImage, String>,
) -> nat;

/// The maximum atlas height a sprite packer was configured with.
pub uninterp spec fn sprite_packer_max_height(
    p: &texture_packer::TexturePacker<'static, image::DynamicImage, String>,
) -> nat;

/// The top of a sprite packer's skyline.
pub uninterp spec fn sprite_packer_top(
    p: &texture_packer::TexturePacker<'static, image::DynamicImage, String>,
) -> nat;

/// Whether an RGBA byte buffer holds any nonzero alpha byte.
pub open spec fn rgba_has_opaque(rgba: Seq<u8>) -> bool {
    exists|k: int| 0 <= k < rgba.len() && k % 4 == 3 && rgba[k] != 0
}

/// The frame map of a packer that holds nothing yet.
pub open spec fn no_frames() -> Map<Seq<char>, FrameInfo> {
    Map::empty()
}

/// Relies on `image::RgbaImage::from_raw`, which accepts a buffer of
/// exactly `4 * width * height` bytes, and on the `DynamicImage::ImageRgba8`
/// constructor: the image has the given dimensions and pixel data.
#[verifier::external_body]
pub(crate) fn rgba_to_image(width: u32, height: u32, rgba: Vec<u8>) -> (img: image::DynamicImage)
    requires
        rgba@.len() == 4 * (width * height),
    ensures
        image_width(&img) == width as nat,
        image_height(&img) == height as nat,
        image_has_opaque(&img) == rgba_has_opaque(rgba@),
        image_is_rgba8(&img),
{
    image::DynamicImage::ImageRgba8(
        image::RgbaImage::from_raw(width, height, rgba).expect("buffer length matches dimensions"),
    )
}

/// Relies on `TexturePacker::new_skyline` for font atlases: rotation off,
/// trimming off, a one-pixel border, a freshly empty frame map, the given
/// bounds, and a single ground-level skyline.
#[verifier::external_body]
pub(crate) fn new_font_packer(max_width: u32, max_height: u32) -> (p: texture_packer::TexturePacker<
    'static,
    image::DynamicImage,
    u32,
>)
    ensures
        font_packer_keys(&p) == Set::<u32>::empty(),
        font_packer_max_width(&p) == max_width as nat,
        font_packer_max_height(&p) == max_height as nat,
        font_packer_top(&p) == 0,
{
    texture_packer::TexturePacker::new_skyline(
        texture_packer::TexturePackerConfig {
            max_width,
            max_height,
            allow_rotation: false,
            texture_outlines: false,
            border_padding: 1,
            trim: false,
            ..Default::default()
        },
    )
}

/// Relies on `TexturePacker::pack_own` with trimming off and rotation off.
/// On success the frame map gains exactly this key, and the skyline top
/// grows by at most the texture's height plus the frame padding; on failure
/// the packer is unchanged and the texture simply did not fit inside the
/// configured bounds, the only failure left once trimming is off. A texture
/// that fits beside the configured width and above the remaining height is
/// always accepted: the skyline starts at the left border and always admits
/// a rectangle whose padded width stays within the bounds and whose padded
/// bottom stays above the configured height. Positive bounds keep the
/// packer's border arithmetic away from its underflow assertions.
#[verifier::external_body]
pub(crate) fn font_pack_own(
    p: &mut texture_packer::TexturePacker<'static, image::DynamicImage, u32>,
    key: u32,
    tex: image::DynamicImage,
) -> (r: Result<(), AtlasError>)
    requires
        font_packer_max_width(old(p)) >= 1,
        font_packer_max_height(old(p)) >= 1,
        image_width(&tex) >= 1,
        image_height(&tex) >= 1,
    ensures
        font_packer_max_width(final(p)) == font_packer_max_width(old(p)),
        font_packer_max_height(final(p)) == font_packer_max_height(old(p)),
        match r {
            Ok(()) => font_packer_keys(final(p)) == font_packer_keys(old(p)).insert(key)
                && font_packer_top(final(p)) <= font_packer_top(old(p)) + image_height(&tex) + 3,
            Err(e) => font_packer_keys(final(p)) == font_packer_keys(old(p)) && font_packer_top(
                final(p),
            ) == font_packer_top(old(p)) && e matches AtlasError::PackingCapacityExceeded,
        },
        image_width(&tex) + 3 <= font_packer_max_width(old(p)) && font_packer_top(old(p))
            + image_height(&tex) + 3 <= font_packer_max_height(old(p)) ==> r is Ok,
{
    match p.pack_own(key, tex) {
        Ok(()) => Ok(()),
        Err(_) => Err(AtlasError::PackingCapacityExceeded),
    }
}

/// Relies on `TexturePacker::new_skyline` for sprite atlases: rotation
/// allowed, trimming on, a one-pixel border, a freshly empty frame map, the
/// given bounds, and a single ground-level skyline.
#[verifier::external_body]
pub(crate) fn new_sprite_packer(max_width: u32, max_height: u32) -> (p:
    texture_packer::TexturePacker<'static, image::DynamicImage, String>)
    ensures
        sprite_packer_frames(&p) == no_frames(),
        sprite_packer_max_width(&p) == max_width as nat,
        sprite_packer_max_height(&p) == max_height as nat,
        sprite_packer_top(&p) == 0,
{
    texture_packer::TexturePacker::new_skyline(
        texture_packer::TexturePackerConfig {
            max_width,
            max_height,
            allow_rotation: true,
            texture_outlines: false,
            border_padding: 1,
            ..Default::default()
        },
    )
}

/// Relies on `TexturePacker::pack_own` with trimming and rotation on. On
/// success the frame map maps this name (replacing any earlier entry, so a
/// repeated name is superseded) to a frame whose source size is the full
/// texture size and whose packed rectangle has the trimmed dimensions,
/// swapped when the packer chose to rotate; the skyline top grows by at most
/// the larger trimmed extent plus the frame padding. On failure the packer
/// is unchanged; an image with at least one opaque pixel survives trimming,
/// so the only failure left is exceeded capacity. A texture whose padded
/// full width fits the configured width and whose padded full height fits
/// above the skyline top is always accepted, since the trimmed rectangle is
/// no larger and the unrotated placement at the left border then fits.
/// Positive bounds keep the packer's border arithmetic away from its
/// underflow assertions.
#[verifier::external_body]
pub(crate) fn sprite_pack_own(
    p: &mut texture_packer::TexturePacker<'static, image::DynamicImage, String>,
    key: String,
    tex: image::DynamicImage,
) -> (r: Result<(), AtlasError>)
    requires
        image_has_opaque(&tex),
        sprite_packer_max_width(old(p)) >= 1,
        sprite_packer_max_height(old(p)) >= 1,
        image_width(&tex) >= 1,
        image_height(&tex) >= 1,
    ensures
        sprite_packer_max_width(final(p)) == sprite_packer_max_width(old(p)),
        sprite_packer_max_height(final(p)) == sprite_packer_max_height(old(p)),
        image_width(&tex) + 3 <= sprite_packer_max_width(old(p)) && sprite_packer_top(old(p))
            + image_height(&tex) + 3 <= sprite_packer_max_height(old(p)) ==> r is Ok,
        match r {
            Ok(()) => {
                &&& sprite_packer_top(final(p)) <= sprite_packer_top(old(p)) + image_width(&tex)
                    + image_height(&tex) + 3
                &&& ({
                    let f = sprite_packer_frames(final(p))[key@];
                    if f.rotated {
                        f.w == image_trimmed_height(&tex) && f.h == image_trimmed_width(&tex)
                    } else {
                        f.w == image_trimmed_width(&tex) && f.h == image_trimmed_height(&tex)
                    }
                })
                &&& sprite_packer_frames(final(p)).dom() == sprite_packer_frames(
                    old(p),
                ).dom().insert(key@)
                &&& (forall|k: Seq<char>|
                    sprite_packer_frames(old(p)).contains_key(k) && k != key@
                        ==> sprite_packer_frames(final(p))[k] == sprite_packer_frames(old(p))[k])
                &&& sprite_packer_frames(final(p))[key@].source_w == image_width(&tex)
                &&& sprite_packer_frames(final(p))[key@].source_h == image_height(&tex)
            },
            Err(e) => sprite_packer_frames(final(p)) == sprite_packer_frames(old(p))
                && sprite_packer_top(final(p)) == sprite_packer_top(old(p)) && e matches
                AtlasError::PackingCapacityExceeded,
        },
{
    match p.pack_own(key, tex) {
        Ok(()) => Ok(()),
        Err(_) => Err(AtlasError::PackingCapacityExceeded),
    }
}

/// Relies on `TexturePacker::get_frames` and hash-map iteration: one entry
/// per packed name, each name once, in no particular order.
#[verifier::external_body]
pub(crate) fn sprite_frames_vec(
    p: &texture_packer::TexturePacker<'static, image::DynamicImage, String>,
) -> (r: Vec<(String, FrameInfo)>)
    ensures
        forall|i: int|
            0 <= i < r@.len() ==> sprite_packer_frames(p).contains_key(#[trigger] r@[i].0@)
                && sprite_packer_frames(p)[r@[i].0@] == r@[i].1,
        forall|i: int, j: int| 0 <= i < j < r@.len() ==> r@[i].0@ != r@[j].0@,
        forall|k: Seq<char>|
            sprite_packer_frames(p).contains_key(k) ==> exists|i: int|
                0 <= i < r@.len() && (#[trigger] r@[i].0)@ == k,
{
    let mut out = Vec::new();
    for (name, f) in p.get_frames() {
        let info = FrameInfo {
            rotated: f.rotated,
            source_w: f.source.w,
            source_h: f.source.h,
            x: f.frame.x,
            y: f.frame.y,
            w: f.frame.w,
            h: f.frame.h,
        };
        out.push((name.clone(), info));
    }
    out
}

/// Relies on `ImageExporter::export` with no background settings: it fails
/// exactly when the packed texture is still empty, that is when no frame
/// was ever packed.
#[verifier::external_body]
pub(crate) fn export_font_atlas(
    p: &texture_packer::TexturePacker<'static, image::DynamicImage, u32>,
) -> (r: Result<image::DynamicImage, AtlasError>)
    ensures
        (r matches Err(_)) <==> font_packer_keys(p) == Set::<u32>::empty(),
        r matches Ok(img) ==> image_width(&img) >= 1 && image_height(&img) >= 1 && image_is_rgba8(
            &img,
        ),
{
    match texture_packer::exporter::ImageExporter::export(p, None) {
        Ok(img) => Ok(img),
        Err(_) => Err(AtlasError::EmptyAtlas),
    }
}

/// Relies on `ImageExporter::export` with no background settings: it fails
/// exactly when the packed texture is still empty, that is when no frame
/// was ever packed.
#[verifier::external_body]
pub(crate) fn export_sprite_atlas(
    p: &texture_packer::TexturePacker<'static, image::DynamicImage, String>,
) -> (r: Result<image::DynamicImage, AtlasError>)
    ensures
        (r matches Err(_)) <==> sprite_packer_frames(p) == no_frames(),
        r matches Ok(img) ==> image_width(&img) >= 1 && image_height(&img) >= 1 && image_is_rgba8(
            &img,
        ),
{
    match texture_packer::exporter::ImageExporter::export(p, None) {
        Ok(img) => Ok(img),
        Err(_) => Err(AtlasError::EmptyAtlas),
    }
}

/// Relies on `DynamicImage::write_to` with the PNG format: the encoded
/// bytes begin with the eight-byte PNG signature. Encoding an eight-bit
/// RGBA image with nonzero dimensions always succeeds: the PNG writer
/// rejects only zero dimensions, color types it does not support, and
/// buffers whose length does not match, and its output goes to an in-memory
/// buffer whose writes cannot fail.
#[verifier::external_body]
pub(crate) fn encode_png(img: &image::DynamicImage) -> (r: Result<Vec<u8>, AtlasError>)
    ensures
        r matches Ok(v) ==> v@.len() >= 8 && v@[0] == 137u8 && v@[1] == 80u8 && v@[2] == 78u8
            && v@[3] == 71u8,
        image_is_rgba8(img) && image_width(img) >= 1 && image_height(img) >= 1 ==> r is Ok,
{
    let mut buf = std::io::Cursor::new(Vec::new());
    match img.write_to(&mut buf, image::ImageFormat::Png) {
        Ok(()) => Ok(buf.into_inner()),
        Err(_) => Err(AtlasError::EncodeFailed),
    }
}

} // verus!
