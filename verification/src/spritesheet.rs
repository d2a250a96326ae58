use vstd::prelude::*;

use crate::packing::{encode_png, export_sprite_atlas, new_sprite_packer, rgba_has_opaque,
    rgba_to_image, sprite_frames_vec, sprite_pack_own, sprite_packer_frames,
    sprite_packer_max_height, sprite_packer_max_width, sprite_packer_top, AtlasError, FrameInfo};
use crate::text::{dec_str, push_char, u32_to_string};

verus! {

/// The metadata format version of the generated sheet.
pub const SHEET_FORMAT_VERSION: u32 = 3;

/// One sprite handed to the packer: its frame name (the base file name) and
/// its RGBA pixel data, four bytes per pixel, row-major.
pub struct SpriteImage {
    pub name: String,
    pub width: u32,
    pub height: u32,
    pub rgba: Vec<u8>,
}

impl SpriteImage {
    /// The pixel buffer matches the dimensions.
    pub open spec fn wf(&self) -> bool {
        self.rgba@.len() == 4 * (self.width * self.height)
    }

    /// Checks well-formedness of a sprite handed in from outside.
    pub fn check_wf(&self) -> (r: bool)
        ensures
            r == self.wf(),
    {
        let w = self.width as u64;
        let h = self.height as u64;
        proof {
            assert((w as nat) * (h as nat) < 0x1_0000_0000 * 0x1_0000_0000) by (nonlinear_arith)
                requires
                    (w as nat) < 0x1_0000_0000,
                    (h as nat) < 0x1_0000_0000,
            ;
        }
        (self.rgba.len() as u128) == 4 * ((w as u128) * (h as u128))
    }
}

/// One frame of the generated sheet, with its geometry already serialized
/// in the consuming engine's literal tuple syntax.
pub struct SpriteFrame {
    pub name: String,
    pub texture_rotated: bool,
    pub sprite_size: String,
    pub sprite_source_size: String,
    pub texture_rect: String,
}

/// A packed sprite sheet: the encoded PNG, the frame metadata, and the
/// names that appeared more than once in the input (each later entry
/// superseding the earlier one under that name).
pub struct SpriteSheet {
    pub png: Vec<u8>,
    pub frames: Vec<SpriteFrame>,
    pub duplicates: Vec<String>,
}

/// A size as the engine's literal tuple: `{w, h}`.
pub open spec fn brace_pair(a: nat, b: nat) -> Seq<char> {
    seq!['{'] + dec_str(a) + seq![',', ' '] + dec_str(b) + seq!['}']
}

/// A rectangle as the engine's literal tuple: `{{x, y}, {w, h}}`.
pub open spec fn rect_str(x: nat, y: nat, w: nat, h: nat) -> Seq<char> {
    seq!['{'] + brace_pair(x, y) + seq![',', ' '] + brace_pair(w, h) + seq!['}']
}

/// Writes `{a, b}`.
pub fn brace_pair_string(a: u32, b: u32) -> (s: String)
    ensures
        s@ == brace_pair(a as nat, b as nat),
{
    let mut s = String::new();
    push_char(&mut s, '{');
    let da = u32_to_string(a);
    s.append(da.as_str());
    push_char(&mut s, ',');
    push_char(&mut s, ' ');
    let db = u32_to_string(b);
    s.append(db.as_str());
    push_char(&mut s, '}');
    proof {
        assert(s@ =~= brace_pair(a as nat, b as nat));
    }
    s
}

/// Writes `{{x, y}, {w, h}}`.
pub fn rect_string(x: u32, y: u32, w: u32, h: u32) -> (s: String)
    ensures
        s@ == rect_str(x as nat, y as nat, w as nat, h as nat),
{
    let mut s = String::new();
    push_char(&mut s, '{');
    let p1 = brace_pair_string(x, y);
    s.append(p1.as_str());
    push_char(&mut s, ',');
    push_char(&mut s, ' ');
    let p2 = brace_pair_string(w, h);
    s.append(p2.as_str());
    push_char(&mut s, '}');
    proof {
        assert(s@ =~= rect_str(x as nat, y as nat, w as nat, h as nat));
    }
    s
}

/// The names of the sprites, in input order.
pub open spec fn sprite_names(files: Seq<SpriteImage>) -> Seq<Seq<char>> {
    files.map_values(|f: SpriteImage| f.name@)
}

/// The views of a list of strings.
pub open spec fn views_of(v: Seq<String>) -> Seq<Seq<char>> {
    v.map_values(|s: String| s@)
}

/// The duplicate names of the input, in order of their later appearances: a
/// name joins this list each time it repeats an earlier entry.
pub open spec fn dup_names(names: Seq<Seq<char>>) -> Seq<Seq<char>>
    decreases names.len(),
{
    if names.len() == 0 {
        Seq::empty()
    } else if exists|j: int| 0 <= j < names.len() - 1 && names[j] == names.last() {
        dup_names(names.drop_last()).push(names.last())
    } else {
        dup_names(names.drop_last())
    }
}

/// Index `j` is where the sprite named `name` was processed last.
pub open spec fn is_last_occurrence(files: Seq<SpriteImage>, j: int, name: Seq<char>) -> bool {
    &&& 0 <= j < files.len()
    &&& files[j].name@ == name
    &&& forall|j2: int| j < j2 < files.len() ==> (#[trigger] files[j2]).name@ != name
}

/// Total vertical extent the packed sprites can occupy: each sprite's two
/// dimensions (rotation may stand either on end) plus the packer's frame
/// padding.
pub open spec fn sprite_extents_sum(files: Seq<SpriteImage>) -> nat
    decreases files.len(),
{
    if files.len() == 0 {
        0
    } else {
        sprite_extents_sum(files.drop_last()) + (files.last().width + files.last().height + 3) as nat
    }
}

/// Every prefix occupies no more extent than the whole.
proof fn lemma_sprite_extents_prefix(files: Seq<SpriteImage>, k: int)
    requires
        0 <= k <= files.len(),
    ensures
        sprite_extents_sum(files.take(k)) <= sprite_extents_sum(files),
    decreases files.len() - k,
{
    if k < files.len() {
        lemma_sprite_extents_prefix(files, k + 1);
        assert(files.take(k + 1).drop_last() =~= files.take(k));
        assert(files.take(k + 1).last() == files[k]);
    } else {
        assert(files.take(k) =~= files);
    }
}

/// The inputs on which the packer is owed success: every sprite leaves room
/// for the packer's padding beside the unbounded atlas width, and the total
/// extent stays within the unbounded atlas height's machine limit.
pub open spec fn sheet_fits(files: Seq<SpriteImage>) -> bool {
    &&& forall|i: int| 0 <= i < files.len() ==> (#[trigger] files[i]).width + 3 <= u32::MAX
    &&& sprite_extents_sum(files) <= u32::MAX
}

/// The frame records, as its source size, the dimensions of the sprite
/// processed last under its name.
pub open spec fn frame_source_ok(files: Seq<SpriteImage>, frame: SpriteFrame) -> bool {
    exists|j: int|
        is_last_occurrence(files, j, frame.name@) && frame.sprite_source_size@ == brace_pair(
            files[j].width as nat,
            files[j].height as nat,
        )
}

/// The frame's serialized size and rectangle agree on one placement: the
/// same packed width and height appear in both strings, beside its rotation
/// flag.
pub open spec fn frame_geometry_ok(frame: SpriteFrame) -> bool {
    exists|info: FrameInfo|
        frame.texture_rotated == #[trigger] (info.rotated) && frame.sprite_size@ == brace_pair(
            info.w as nat,
            info.h as nat,
        ) && frame.texture_rect@ == rect_str(
            info.x as nat,
            info.y as nat,
            info.w as nat,
            info.h as nat,
        )
}

/// Some frame bears this name.
pub open spec fn frame_named(frames: Seq<SpriteFrame>, name: Seq<char>) -> bool {
    exists|i: int| 0 <= i < frames.len() && (#[trigger] frames[i].name)@ == name
}

/// Every input name appears among the frames.
pub open spec fn covers_all_names(files: Seq<SpriteImage>, frames: Seq<SpriteFrame>) -> bool {
    forall|j: int| 0 <= j < files.len() ==> frame_named(frames, (#[trigger] files[j]).name@)
}

/// Whether any sprite before `upto` bears this name.
fn name_seen(files: &Vec<SpriteImage>, upto: usize, s: &String) -> (r: bool)
    requires
        upto <= files@.len(),
    ensures
        r == exists|j: int| 0 <= j < upto && (#[trigger] files@[j]).name@ == s@,
{
    let mut i: usize = 0;
    while i < upto
        invariant
            0 <= i <= upto <= files@.len(),
            forall|j: int| 0 <= j < i ==> (#[trigger] files@[j]).name@ != s@,
        decreases upto - i,
    {
        if s.eq(&files[i].name) {
            return true;
        }
        i = i + 1;
    }
    false
}

/// Copies a byte buffer.
fn clone_bytes(v: &Vec<u8>) -> (r: Vec<u8>)
    ensures
        r@ == v@,
{
    let mut out: Vec<u8> = Vec::new();
    let mut i: usize = 0;
    while i < v.len()
        invariant
            0 <= i <= v@.len(),
            out@ =~= v@.take(i as int),
        decreases v@.len() - i,
    {
        out.push(v[i]);
        proof {
            assert(out@ =~= v@.take(i + 1));
        }
        i = i + 1;
    }
    proof {
        assert(v@.take(v@.len() as int) =~= v@);
    }
    out
}

/// Whether the buffer holds any pixel with a nonzero alpha byte.
fn rgba_opaque(rgba: &Vec<u8>) -> (r: bool)
    requires
        rgba@.len() % 4 == 0,
    ensures
        r == rgba_has_opaque(rgba@),
{
    let mut i: usize = 0;
    let n = rgba.len() / 4;
    proof {
        vstd::arithmetic::div_mod::lemma_fundamental_div_mod(rgba@.len() as int, 4);
        assert(4 * n == rgba@.len());
    }
    while i < n
        invariant
            0 <= i <= n,
            4 * n == rgba@.len(),
            4 * n <= usize::MAX,
            forall|j: int| 0 <= j < i ==> #[trigger] rgba@[4 * j + 3] == 0,
        decreases n - i,
    {
        if rgba[4 * i + 3] != 0 {
            assert(rgba_has_opaque(rgba@)) by {
                assert((4 * i + 3) % 4 == 3) by (nonlinear_arith)
                    requires
                        i >= 0,
                ;
            }
            return true;
        }
        i = i + 1;
    }
    proof {
        if rgba_has_opaque(rgba@) {
            let k = choose|k: int| 0 <= k < rgba@.len() && k % 4 == 3 && rgba@[k] != 0;
            let q = k / 4;
            vstd::arithmetic::div_mod::lemma_fundamental_div_mod(k, 4);
            assert(k == 4 * q + 3);
            assert(0 <= q < n) by (nonlinear_arith)
                requires
                    0 <= k < 4 * n,
                    k == 4 * q + 3,
            ;
            assert(rgba@[4 * q + 3] == 0);
        }
    }
    false
}

/// Packs loose sprites into one sheet. Every sprite is packed under its
/// name, rotation allowed and transparent borders trimmed; a repeated name
/// is recorded as a duplicate and its later pixel data supersedes the
/// earlier entry. The frame metadata carries, for every packed name, the
/// source size of the sprite processed last under that name, and the packed
/// size and rectangle as the packer placed it, serialized in the engine's
/// tuple syntax.
///
/// A sprite whose buffer does not match its dimensions is rejected up
/// front, the first one by name. A sprite with no opaque pixel at all would
/// be discarded whole by trimming and is reported as an empty texture. An
/// empty input has nothing to export.
/// Packs every sprite, recording duplicate names in order; afterwards the
/// packer maps exactly the input names, each to a frame whose source size
/// is that of the last sprite processed under the name.
#[verifier::rlimit(100)]
fn pack_all(
    files: &Vec<SpriteImage>,
    packer: &mut texture_packer::TexturePacker<'static, image::DynamicImage, String>,
) -> (r: Result<Vec<String>, AtlasError>)
    requires
        forall|j: int| 0 <= j < files@.len() ==> (#[trigger] files@[j]).wf(),
        sprite_packer_frames(old(packer)) == crate::packing::no_frames(),
        sprite_packer_max_width(old(packer)) == u32::MAX as nat,
        sprite_packer_max_height(old(packer)) == u32::MAX as nat,
        sprite_packer_top(old(packer)) == 0,
    ensures
        sheet_fits(files@) && (forall|i: int|
            0 <= i < files@.len() ==> rgba_has_opaque((#[trigger] files@[i]).rgba@)) ==> r is Ok,
        match r {
            Ok(dups) => {
                &&& views_of(dups@) =~= dup_names(sprite_names(files@))
                &&& forall|j: int|
                    0 <= j < files@.len() ==> sprite_packer_frames(final(packer)).contains_key(
                        (#[trigger] files@[j]).name@,
                    )
                &&& forall|key: Seq<char>|
                    sprite_packer_frames(final(packer)).contains_key(key) ==> exists|j: int|
                        0 <= j < files@.len() && (#[trigger] files@[j]).name@ == key
                &&& forall|j: int|
                    0 <= j < files@.len() && (forall|j2: int|
                        j < j2 < files@.len() ==> (#[trigger] files@[j2]).name@ != files@[j].name@)
                        ==> sprite_packer_frames(final(packer))[(#[trigger] files@[j]).name@].source_w
                        == files@[j].width && sprite_packer_frames(
                        final(packer),
                    )[files@[j].name@].source_h == files@[j].height
            },
            Err(e) => match e {
                AtlasError::EmptyTexture => exists|k: int|
                    0 <= k < files@.len() && !rgba_has_opaque((#[trigger] files@[k]).rgba@),
                _ => e matches AtlasError::PackingCapacityExceeded,
            },
        },
{
    let mut duplicates: Vec<String> = Vec::new();
    let ghost names = sprite_names(files@);
    let mut k: usize = 0;
    while k < files.len()
        invariant
            0 <= k <= files@.len(),
            names == sprite_names(files@),
            names.len() == files@.len(),
            forall|j: int| 0 <= j < files@.len() ==> (#[trigger] files@[j]).wf(),
            forall|j: int| 0 <= j < files@.len() ==> names[j] == (#[trigger] files@[j]).name@,
            views_of(duplicates@) =~= dup_names(names.take(k as int)),
            sprite_packer_max_width(&*packer) == u32::MAX as nat,
            sprite_packer_max_height(&*packer) == u32::MAX as nat,
            sprite_packer_top(&*packer) <= sprite_extents_sum(files@.take(k as int)),
            forall|j: int|
                0 <= j < k ==> sprite_packer_frames(&*packer).contains_key(
                    (#[trigger] files@[j]).name@,
                ),
            forall|key: Seq<char>|
                sprite_packer_frames(&*packer).contains_key(key) ==> exists|j: int|
                    0 <= j < k && (#[trigger] files@[j]).name@ == key,
            forall|j: int|
                0 <= j < k && (forall|j2: int| j < j2 < k ==> (#[trigger] files@[j2]).name@ != files@[j].name@)
                    ==> sprite_packer_frames(&*packer)[(#[trigger] files@[j]).name@].source_w
                    == files@[j].width && sprite_packer_frames(&*packer)[files@[j].name@].source_h
                    == files@[j].height,
        decreases files@.len() - k,
    {
        let file = &files[k];
        proof {
            assert(names.take(k + 1).drop_last() =~= names.take(k as int));
            assert(names.take(k + 1).last() == names[k as int]);
        }
        let is_dup = name_seen(files, k, &file.name);
        let ghost dprev = duplicates@;
        if is_dup {
            duplicates.push(file.name.clone());
            proof {
                assert(views_of(duplicates@) =~= views_of(dprev).push(names[k as int]));
                let j0 = choose|j: int|
                    0 <= j < k && (#[trigger] files@[j]).name@ == file.name@;
                assert(names.take(k + 1)[j0] == names.take(k + 1).last());
                assert(dup_names(names.take(k + 1)) =~= dup_names(names.take(k as int)).push(
                    names[k as int],
                ));
                assert(views_of(duplicates@) =~= dup_names(names.take(k + 1)));
            }
        } else {
            proof {
                assert(!exists|j: int|
                    0 <= j < names.take(k + 1).len() - 1 && #[trigger] names.take(k + 1)[j]
                        == names.take(k + 1).last()) by {
                    if exists|j: int|
                        0 <= j < names.take(k + 1).len() - 1 && #[trigger] names.take(k + 1)[j]
                            == names.take(k + 1).last() {
                        let j = choose|j: int|
                            0 <= j < names.take(k + 1).len() - 1 && #[trigger] names.take(k + 1)[j]
                                == names.take(k + 1).last();
                        assert((files@[j]).name@ == file.name@);
                    }
                }
                assert(dup_names(names.take(k + 1)) =~= dup_names(names.take(k as int)));
                assert(views_of(duplicates@) =~= dup_names(names.take(k + 1)));
            }
        }
        if !rgba_opaque(&file.rgba) {
            return Err(AtlasError::EmptyTexture);
        }
        proof {
            assert(files@.take(k + 1).drop_last() =~= files@.take(k as int));
            assert(files@.take(k + 1).last() == files@[k as int]);
            assert(file.width >= 1 && file.height >= 1) by (nonlinear_arith)
                requires
                    file.rgba@.len() == 4 * ((file.width as nat) * (file.height as nat)),
                    file.rgba@.len() > 0,
            ;
        }
        let rgba = clone_bytes(&file.rgba);
        let img = rgba_to_image(file.width, file.height, rgba);
        match sprite_pack_own(packer, file.name.clone(), img) {
            Ok(()) => (),
            Err(e) => {
                proof {
                    // under the fits conditions the wrapper owes success, so
                    // this exit implies the conditions fail
                    if sheet_fits(files@) {
                        lemma_sprite_extents_prefix(files@, k as int + 1);
                        assert(false);
                    }
                }
                return Err(e);
            },
        }
        k = k + 1;
    }
    proof {
        assert(names.take(names.len() as int) =~= names);
    }
    Ok(duplicates)
}

/// Serializes the packer's frames into the sheet's metadata entries.
#[verifier::rlimit(100)]
fn build_frames(
    files: &Vec<SpriteImage>,
    packer: &texture_packer::TexturePacker<'static, image::DynamicImage, String>,
) -> (frames: Vec<SpriteFrame>)
    requires
        forall|j: int|
            0 <= j < files@.len() ==> sprite_packer_frames(packer).contains_key(
                (#[trigger] files@[j]).name@,
            ),
        forall|key: Seq<char>|
            sprite_packer_frames(packer).contains_key(key) ==> exists|j: int|
                0 <= j < files@.len() && (#[trigger] files@[j]).name@ == key,
        forall|j: int|
            0 <= j < files@.len() && (forall|j2: int|
                j < j2 < files@.len() ==> (#[trigger] files@[j2]).name@ != files@[j].name@)
                ==> sprite_packer_frames(packer)[(#[trigger] files@[j]).name@].source_w
                == files@[j].width && sprite_packer_frames(packer)[files@[j].name@].source_h
                == files@[j].height,
    ensures
        forall|i: int, j: int|
            0 <= i < j < frames@.len() ==> (#[trigger] frames@[i].name)@ != (
            #[trigger] frames@[j].name)@,
        covers_all_names(files@, frames@),
        forall|i: int|
            0 <= i < frames@.len() ==> frame_source_ok(files@, #[trigger] frames@[i])
                && frame_geometry_ok(frames@[i]),
{
    let raw_frames = sprite_frames_vec(packer);
    let mut frames: Vec<SpriteFrame> = Vec::new();
    let mut f: usize = 0;
    while f < raw_frames.len()
        invariant
            0 <= f <= raw_frames@.len(),
            forall|j: int|
                0 <= j < files@.len() ==> sprite_packer_frames(packer).contains_key(
                    (#[trigger] files@[j]).name@,
                ),
            forall|key: Seq<char>|
                sprite_packer_frames(packer).contains_key(key) ==> exists|j: int|
                    0 <= j < files@.len() && (#[trigger] files@[j]).name@ == key,
            forall|j: int|
                0 <= j < files@.len() && (forall|j2: int|
                    j < j2 < files@.len() ==> (#[trigger] files@[j2]).name@ != files@[j].name@)
                    ==> sprite_packer_frames(packer)[(#[trigger] files@[j]).name@].source_w
                    == files@[j].width && sprite_packer_frames(packer)[files@[j].name@].source_h
                    == files@[j].height,
            forall|i: int|
                0 <= i < raw_frames@.len() ==> sprite_packer_frames(packer).contains_key(
                    (#[trigger] raw_frames@[i].0)@,
                ) && sprite_packer_frames(packer)[raw_frames@[i].0@] == raw_frames@[i].1,
            forall|i: int, j: int|
                0 <= i < j < raw_frames@.len() ==> (#[trigger] raw_frames@[i].0)@ != (
                #[trigger] raw_frames@[j].0)@,
            forall|key: Seq<char>|
                sprite_packer_frames(packer).contains_key(key) ==> exists|i: int|
                    0 <= i < raw_frames@.len() && (#[trigger] raw_frames@[i].0)@ == key,
            frames@.len() == f,
            forall|i: int| 0 <= i < f ==> (#[trigger] frames@[i].name)@ == raw_frames@[i].0@,
            forall|i: int|
                0 <= i < f ==> frame_source_ok(files@, #[trigger] frames@[i])
                    && frame_geometry_ok(frames@[i]),
        decreases raw_frames@.len() - f,
    {
        let (name, info) = &raw_frames[f];
        let ghost key = name@;
        proof {
            let j0 = choose|j: int| 0 <= j < files@.len() && (#[trigger] files@[j]).name@ == key;
            lemma_last_occurrence_exists(files@, key, j0);
            let j = choose|j: int| is_last_occurrence(files@, j, key);
            assert(sprite_packer_frames(packer)[key].source_w == files@[j].width
                && sprite_packer_frames(packer)[key].source_h == files@[j].height);
        }
        let frame = SpriteFrame {
            name: name.clone(),
            texture_rotated: info.rotated,
            sprite_size: brace_pair_string(info.w, info.h),
            sprite_source_size: brace_pair_string(info.source_w, info.source_h),
            texture_rect: rect_string(info.x, info.y, info.w, info.h),
        };
        let ghost ginfo = *info;
        let ghost old_frames = frames@;
        frames.push(frame);
        proof {
            assert(forall|i: int| 0 <= i < f ==> #[trigger] frames@[i] == old_frames[i]);
            let j = choose|j: int| is_last_occurrence(files@, j, key);
            assert(frames@[f as int].name@ == key);
            assert(is_last_occurrence(files@, j, frames@[f as int].name@));
            assert(frames@[f as int].sprite_source_size@ == brace_pair(
                files@[j].width as nat,
                files@[j].height as nat,
            ));
            assert(frame_source_ok(files@, frames@[f as int]));
            assert(frames@[f as int].texture_rotated == ginfo.rotated && frames@[f as int].sprite_size@
                == brace_pair(ginfo.w as nat, ginfo.h as nat) && frames@[f as int].texture_rect@
                == rect_str(ginfo.x as nat, ginfo.y as nat, ginfo.w as nat, ginfo.h as nat));
            assert(frame_geometry_ok(frames@[f as int]));
        }
        f = f + 1;
    }
    proof {
        assert forall|j: int| 0 <= j < files@.len() implies frame_named(
            frames@,
            (#[trigger] files@[j]).name@,
        ) by {
            let key = files@[j].name@;
            assert(sprite_packer_frames(packer).contains_key(key));
            let i = choose|i: int| 0 <= i < raw_frames@.len() && (#[trigger] raw_frames@[i].0)@ == key;
            assert(frames@[i].name@ == key);
            assert(frame_named(frames@, key));
        }
        assert(covers_all_names(files@, frames@));
    }
    frames
}

/// Packs loose sprites into one sheet. Every sprite is packed under its
/// name, rotation allowed and transparent borders trimmed; a repeated name
/// is recorded as a duplicate and its later pixel data supersedes the
/// earlier entry. The frame metadata carries, for every packed name, the
/// source size of the sprite processed last under that name, and the packed
/// size and rectangle as the packer placed it, serialized in the engine's
/// tuple syntax.
///
/// A sprite whose buffer does not match its dimensions is rejected up
/// front, the first one by name. A sprite with no opaque pixel at all would
/// be discarded whole by trimming and is reported as an empty texture. An
/// empty input has nothing to export.
#[verifier::rlimit(100)]
pub fn pack_sprites(files: &Vec<SpriteImage>) -> (r: Result<SpriteSheet, AtlasError>)
    ensures
        files@.len() == 0 ==> r matches Err(AtlasError::EmptyAtlas),
        sheet_fits(files@) && files@.len() > 0 && (forall|i: int|
            0 <= i < files@.len() ==> (#[trigger] files@[i]).wf()) && (forall|i: int|
            0 <= i < files@.len() ==> rgba_has_opaque((#[trigger] files@[i]).rgba@)) ==> r is Ok,
        match r {
            Ok(sheet) => {
                &&& views_of(sheet.duplicates@) =~= dup_names(sprite_names(files@))
                &&& forall|i: int, j: int|
                    0 <= i < j < sheet.frames@.len() ==> (#[trigger] sheet.frames@[i].name)@ != (
                    #[trigger] sheet.frames@[j].name)@
                &&& covers_all_names(files@, sheet.frames@)
                &&& forall|i: int|
                    0 <= i < sheet.frames@.len() ==> frame_source_ok(
                        files@,
                        #[trigger] sheet.frames@[i],
                    ) && frame_geometry_ok(sheet.frames@[i])
                &&& sheet.png@.len() >= 8 && sheet.png@[0] == 137u8 && sheet.png@[1] == 80u8
                    && sheet.png@[2] == 78u8 && sheet.png@[3] == 71u8
            },
            Err(e) => match e {
                AtlasError::InvalidSprite(nm) => exists|k: int|
                    0 <= k < files@.len() && !(#[trigger] files@[k]).wf() && (forall|j: int|
                        0 <= j < k ==> (#[trigger] files@[j]).wf()) && nm@ == files@[k].name@,
                AtlasError::EmptyTexture => exists|k: int|
                    0 <= k < files@.len() && !rgba_has_opaque((#[trigger] files@[k]).rgba@),
                AtlasError::EmptyAtlas => files@.len() == 0,
                AtlasError::PackingCapacityExceeded => (forall|i: int|
                    0 <= i < files@.len() ==> (#[trigger] files@[i]).wf()) && !(sheet_fits(files@)
                    && (forall|i: int|
                    0 <= i < files@.len() ==> rgba_has_opaque((#[trigger] files@[i]).rgba@))),
                _ => false,
            },
        },
{
    let mut i: usize = 0;
    while i < files.len()
        invariant
            0 <= i <= files@.len(),
            forall|j: int| 0 <= j < i ==> (#[trigger] files@[j]).wf(),
        decreases files@.len() - i,
    {
        if !files[i].check_wf() {
            return Err(AtlasError::InvalidSprite(files[i].name.clone()));
        }
        i = i + 1;
    }
    let mut packer = new_sprite_packer(u32::MAX, u32::MAX);
    let duplicates = match pack_all(files, &mut packer) {
        Ok(d) => d,
        Err(e) => {
            return Err(e);
        },
    };
    proof {
        if files@.len() > 0 {
            assert(sprite_packer_frames(&packer).contains_key(files@[0].name@));
            assert(sprite_packer_frames(&packer) != crate::packing::no_frames()) by {
                assert(!crate::packing::no_frames().contains_key(files@[0].name@));
            }
        } else {
            assert(sprite_packer_frames(&packer).dom() =~= Set::<Seq<char>>::empty()) by {
                if exists|key: Seq<char>| sprite_packer_frames(&packer).dom().contains(key) {
                    let key = choose|key: Seq<char>|
                        sprite_packer_frames(&packer).dom().contains(key);
                    assert(sprite_packer_frames(&packer).contains_key(key));
                }
            }
            assert(sprite_packer_frames(&packer) =~= crate::packing::no_frames());
        }
    }
    let atlas = match export_sprite_atlas(&packer) {
        Ok(img) => img,
        Err(_) => {
            proof {
                if files@.len() > 0 {
                    assert(false);
                }
            }
            return Err(AtlasError::EmptyAtlas);
        },
    };
    let png = match encode_png(&atlas) {
        Ok(p) => p,
        Err(_) => {
            proof {
                // the exported atlas is eight-bit RGBA with nonzero
                // dimensions, so the encoder cannot fail
                assert(false);
            }
            return Err(AtlasError::EncodeFailed);
        },
    };
    let frames = build_frames(files, &packer);
    Ok(SpriteSheet { png, frames, duplicates })
}

/// If some file bears a name, a last occurrence of that name exists.
proof fn lemma_last_occurrence_exists(files: Seq<SpriteImage>, name: Seq<char>, j0: int)
    requires
        0 <= j0 < files.len(),
        files[j0].name@ == name,
    ensures
        exists|j: int| is_last_occurrence(files, j, name),
    decreases files.len() - j0,
{
    if exists|j2: int| j0 < j2 < files.len() && (#[trigger] files[j2]).name@ == name {
        let j2 = choose|j2: int| j0 < j2 < files.len() && (#[trigger] files[j2]).name@ == name;
        lemma_last_occurrence_exists(files, name, j2);
    } else {
        assert(is_last_occurrence(files, j0, name));
    }
}

} // verus!
