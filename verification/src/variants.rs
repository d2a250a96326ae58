use vstd::prelude::*;

verus! {

/// One resolution tier of a bitmap font: the filename suffix and the scaled
/// font size and outline radius.
pub struct FontVariant {
    pub suffix: &'static str,
    pub fontsize: u32,
    pub outline: u32,
}

/// The fixed quality tiers. When variants are requested there are three,
/// at full, half and quarter scale (integer division, so small outlines
/// collapse to zero in the lower tiers); otherwise only the full-scale
/// tier, which always carries the `-uhd` suffix.
pub fn font_variants(fontsize: u32, outline: u32, create_variants: bool) -> (r: Vec<FontVariant>)
    ensures
        r@.len() == if create_variants {
            3int
        } else {
            1int
        },
        r@[0].suffix@ == "-uhd"@ && r@[0].fontsize == fontsize && r@[0].outline == outline,
        create_variants ==> r@[1].suffix@ == "-hd"@ && r@[1].fontsize == fontsize / 2
            && r@[1].outline == outline / 2,
        create_variants ==> r@[2].suffix@ == ""@ && r@[2].fontsize == fontsize / 4 && r@[2].outline
            == outline / 4,
{
    let mut v: Vec<FontVariant> = Vec::new();
    v.push(FontVariant { suffix: "-uhd", fontsize, outline });
    if create_variants {
        v.push(FontVariant { suffix: "-hd", fontsize: fontsize / 2, outline: outline / 2 });
        v.push(FontVariant { suffix: "", fontsize: fontsize / 4, outline: outline / 4 });
    }
    v
}

} // verus!
