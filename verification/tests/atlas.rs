use sapphire::{
    build_font_atlas, charset_codepoints, composite_glyph, create_bitmap_font_from_ttf,
    estimate_atlas_width, expand_ranges, font_variants, pack_sprites, parse_charset,
    parse_u32_token, u32_to_string, AtlasError, CharsetError, RawGlyph, SpriteImage,
    SHEET_FORMAT_VERSION,
};

fn glyph(codepoint: u32, width: u32, height: u32, fill: u8) -> RawGlyph {
    RawGlyph { codepoint, width, height, coverage: vec![fill; (width * height) as usize] }
}

fn sprite(name: &str, width: u32, height: u32, alpha: u8) -> SpriteImage {
    let mut rgba = Vec::new();
    for _ in 0..(width * height) {
        rgba.extend_from_slice(&[10, 20, 30, alpha]);
    }
    SpriteImage { name: name.to_string(), width, height, rgba }
}

#[test]
fn parses_multi_token_charset() {
    let ranges = parse_charset("32-126,200,300-310").unwrap();
    assert_eq!(ranges.len(), 3);
    assert_eq!((ranges[0].start, ranges[0].end), (32, 126));
    assert_eq!((ranges[1].start, ranges[1].end), (200, 200));
    assert_eq!((ranges[2].start, ranges[2].end), (300, 310));
}

#[test]
fn expansion_is_half_open() {
    let ranges = parse_charset("65-67").unwrap();
    let cps = expand_ranges(&ranges);
    assert_eq!(cps, vec![65, 66]);
}

#[test]
fn expansion_is_strictly_ordered() {
    let ranges = parse_charset("32-126,200,300-310").unwrap();
    let cps = expand_ranges(&ranges);
    for pair in cps.windows(2) {
        assert!(pair[0] < pair[1]);
    }
}

#[test]
fn two_dashes_is_a_format_error() {
    match parse_charset("1-2-3") {
        Err(CharsetError::Format(tok)) => assert_eq!(tok.as_str(), "1-2-3"),
        _ => panic!("expected a format error"),
    }
}

#[test]
fn bad_number_is_a_parse_error() {
    match parse_charset("12,abc") {
        Err(CharsetError::Parse(tok)) => assert_eq!(tok.as_str(), "abc"),
        _ => panic!("expected a parse error"),
    }
    match parse_charset("5-") {
        Err(CharsetError::Parse(tok)) => assert_eq!(tok.as_str(), ""),
        _ => panic!("expected a parse error"),
    }
}

#[test]
fn default_charset_is_printable_ascii() {
    let cps = charset_codepoints(None).unwrap();
    assert_eq!(cps.first(), Some(&32));
    assert_eq!(cps.last(), Some(&125));
    assert_eq!(cps.len(), 94);
}

#[test]
fn decimal_round_trip() {
    assert_eq!(u32_to_string(0).as_str(), "0");
    assert_eq!(u32_to_string(12345).as_str(), "12345");
    assert_eq!(parse_u32_token("4294967295"), Some(4294967295));
    assert_eq!(parse_u32_token("4294967296"), None);
    assert_eq!(parse_u32_token(""), None);
    assert_eq!(parse_u32_token("12a"), None);
}

#[test]
fn estimator_never_under_widest_plus_margin() {
    let glyphs = vec![glyph(65, 5, 7, 255), glyph(66, 14, 9, 255)];
    let w = estimate_atlas_width(&glyphs);
    assert!(w >= 14 + 10);
    assert_eq!(w, 24);
}

#[test]
fn estimator_uses_heuristic_when_larger() {
    let glyphs: Vec<RawGlyph> = (0..20).map(|i| glyph(i, 30, 40, 255)).collect();
    let w = estimate_atlas_width(&glyphs);
    // sum_w = 600, factor = 40 + 20 = 60, sqrt(36000) = 189
    assert_eq!(w, 189);
    assert!(w >= 30 + 10);
}

#[test]
fn no_outline_is_an_exact_stamp() {
    let g = glyph(65, 2, 2, 0);
    let mut g = g;
    g.coverage = vec![0, 128, 255, 64];
    let c = composite_glyph(&g, 0).unwrap();
    assert_eq!((c.width, c.height), (2, 2));
    let alphas: Vec<u8> = c.pixels.iter().map(|p| p.a).collect();
    assert_eq!(alphas, vec![0, 128, 255, 64]);
    for p in &c.pixels {
        assert_eq!((p.r, p.g, p.b), (255, 255, 255));
    }
}

#[test]
fn outline_grows_canvas_by_three_radii() {
    let g = glyph(65, 2, 3, 200);
    let c = composite_glyph(&g, 2).unwrap();
    assert_eq!((c.width, c.height), (2 + 2 * 2 + 2, 3 + 2 * 2 + 2));
}

#[test]
fn zero_sized_glyph_gets_no_canvas() {
    assert!(composite_glyph(&glyph(32, 0, 5, 0), 1).is_none());
    assert!(composite_glyph(&glyph(32, 5, 0, 0), 1).is_none());
}

#[test]
fn variant_tiers_scale_down() {
    let tiers = font_variants(4, 1, true);
    assert_eq!(tiers.len(), 3);
    assert_eq!((tiers[0].suffix, tiers[0].fontsize, tiers[0].outline), ("-uhd", 4, 1));
    assert_eq!((tiers[1].suffix, tiers[1].fontsize, tiers[1].outline), ("-hd", 2, 0));
    assert_eq!((tiers[2].suffix, tiers[2].fontsize, tiers[2].outline), ("", 1, 0));
}

#[test]
fn single_tier_without_variants() {
    let tiers = font_variants(32, 2, false);
    assert_eq!(tiers.len(), 1);
    assert_eq!((tiers[0].suffix, tiers[0].fontsize, tiers[0].outline), ("-uhd", 32, 2));
}

#[test]
fn two_glyph_charset_packs_into_one_uhd_atlas() {
    let cps = charset_codepoints(Some("65-67")).unwrap();
    assert_eq!(cps, vec![65, 66]);
    let glyphs: Vec<RawGlyph> = cps.iter().map(|&cp| glyph(cp, 8, 10, 255)).collect();
    let out = create_bitmap_font_from_ttf(
        Some("myfont"),
        "fallback.ttf",
        32,
        None,
        false,
        0,
        vec![glyphs],
    )
    .unwrap();
    assert_eq!(out.len(), 1);
    assert_eq!(out[0].name.as_str(), "myfont-uhd.png");
    assert_eq!(&out[0].png[0..4], &[137, 80, 78, 71]);
}

#[test]
fn variant_mode_names_three_files() {
    let sets: Vec<Vec<RawGlyph>> = (0..3).map(|_| vec![glyph(65, 6, 6, 255)]).collect();
    let out = create_bitmap_font_from_ttf(
        None,
        "font.ttf",
        16,
        Some("pre-"),
        true,
        1,
        sets,
    )
    .unwrap();
    let names: Vec<&str> = out.iter().map(|a| a.name.as_str()).collect();
    assert_eq!(names, vec!["pre-font.ttf-uhd.png", "pre-font.ttf-hd.png", "pre-font.ttf.png"]);
}

#[test]
fn zero_sized_glyphs_alone_leave_nothing_to_export() {
    match build_font_atlas(&vec![glyph(32, 0, 0, 0)], 0) {
        Err(AtlasError::EmptyAtlas) => (),
        _ => panic!("expected an empty atlas"),
    }
}

#[test]
fn malformed_glyph_is_named() {
    let bad = RawGlyph { codepoint: 77, width: 3, height: 3, coverage: vec![0; 5] };
    match build_font_atlas(&vec![bad], 0) {
        Err(AtlasError::InvalidGlyph(cp)) => assert_eq!(cp, 77),
        _ => panic!("expected an invalid glyph"),
    }
}

#[test]
fn duplicate_sprite_name_is_reported_and_last_wins() {
    let files = vec![sprite("a.png", 2, 2, 255), sprite("b.png", 3, 1, 255), sprite("a.png", 4, 5, 255)];
    let sheet = pack_sprites(&files).unwrap();
    let dups: Vec<&str> = sheet.duplicates.iter().map(|s| s.as_str()).collect();
    assert_eq!(dups, vec!["a.png"]);
    assert_eq!(sheet.frames.len(), 2);
    let a = sheet.frames.iter().find(|f| f.name.as_str() == "a.png").unwrap();
    assert_eq!(a.sprite_source_size.as_str(), "{4, 5}");
    assert!(sheet.frames.iter().any(|f| f.name.as_str() == "b.png"));
    assert_eq!(&sheet.png[0..4], &[137, 80, 78, 71]);
    assert_eq!(SHEET_FORMAT_VERSION, 3);
}

#[test]
fn sprite_frame_strings_use_engine_syntax() {
    let files = vec![sprite("solo.png", 3, 4, 255)];
    let sheet = pack_sprites(&files).unwrap();
    let f = &sheet.frames[0];
    assert_eq!(f.name.as_str(), "solo.png");
    assert_eq!(f.sprite_source_size.as_str(), "{3, 4}");
    // the packed rectangle agrees with the packed size
    let rect = f.texture_rect.as_str();
    assert!(rect.starts_with("{{") && rect.ends_with("}}"));
    let size = f.sprite_size.as_str();
    assert!(rect.ends_with(&(size.to_string() + "}")));
}

#[test]
fn transparent_sprite_is_an_empty_texture() {
    match pack_sprites(&vec![sprite("ghost.png", 2, 2, 0)]) {
        Err(AtlasError::EmptyTexture) => (),
        _ => panic!("expected an empty texture"),
    }
}

#[test]
fn malformed_sprite_is_named() {
    let mut bad = sprite("bad.png", 2, 2, 255);
    bad.rgba.pop();
    match pack_sprites(&vec![bad]) {
        Err(AtlasError::InvalidSprite(n)) => assert_eq!(n.as_str(), "bad.png"),
        _ => panic!("expected an invalid sprite"),
    }
}

#[test]
fn empty_sprite_list_has_nothing_to_export() {
    match pack_sprites(&Vec::new()) {
        Err(AtlasError::EmptyAtlas) => (),
        _ => panic!("expected an empty atlas"),
    }
}
