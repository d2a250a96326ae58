use vstd::prelude::*;

verus! {

/// Glyph dimensions are capped so that per-glyph canvases and the size
/// statistics stay far away from machine limits.
pub const MAX_GLYPH_DIM: u32 = 0xFFFF;

/// A rasterized glyph: a codepoint with its metrics and its coverage
/// bitmap, a row-major single-channel alpha map of `width * height` bytes.
pub struct RawGlyph {
    pub codepoint: u32,
    pub width: u32,
    pub height: u32,
    pub coverage: Vec<u8>,
}

impl RawGlyph {
    /// The coverage buffer matches the metrics and the metrics are within
    /// the supported dimension cap.
    pub open spec fn wf(&self) -> bool {
        &&& self.coverage@.len() == self.width * self.height
        &&& self.width <= MAX_GLYPH_DIM
        &&& self.height <= MAX_GLYPH_DIM
    }

    /// Checks well-formedness of a glyph handed in from outside.
    pub fn check_wf(&self) -> (r: bool)
        ensures
            r == self.wf(),
    {
        if self.width > MAX_GLYPH_DIM || self.height > MAX_GLYPH_DIM {
            return false;
        }
        let w = self.width as u64;
        let h = self.height as u64;
        proof {
            assert((w as nat) * (h as nat) <= 0xFFFF * 0xFFFF) by (nonlinear_arith)
                requires
                    w as nat <= 0xFFFF,
                    h as nat <= 0xFFFF,
            ;
        }
        (self.coverage.len() as u64) == w * h
    }
}

} // verus!
