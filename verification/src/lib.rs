use vstd::prelude::*;

mod charset;
mod compositor;
mod config;
mod estimator;
mod font;
mod glyph;
mod packing;
mod spritesheet;
mod text;
mod variants;

pub use charset::{expand_ranges, parse_charset, CharsetError, CodepointRange};
pub use config::{is_valid__dir, migrate_location, Config, OldConfig, OldConfigInstallation, Profile, RenameOutcome};
pub use compositor::{composite_glyph, render_glyph, soften, Canvas, Pixel};
pub use estimator::estimate_atlas_width;
pub use font::{build_font_atlas, charset_codepoints, create_bitmap_font_from_ttf, NamedAtlas};
pub use glyph::RawGlyph;
pub use packing::{AtlasError, FrameInfo};
pub use spritesheet::{brace_pair_string, pack_sprites, rect_string, SpriteFrame, SpriteImage, SpriteSheet, SHEET_FORMAT_VERSION};
pub use variants::{font_variants, FontVariant};
pub use text::{parse_u32_token, u32_to_string};

verus! {

} // verus!
