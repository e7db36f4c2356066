//! The face aligner: rescales an image so that its face has the target size
//! and computes the offset that puts the face's centre at the cell's centre.
use vstd::prelude::*;
use crate::geom::{
    fit_inside, fit_scale, lemma_mul_u32, lemma_round_div_error, round_div, round_div_i128,
    spec_fit_inside, spec_fit_scale, Rect, WHi, XYi,
};
use crate::raster::RgbBuffer;

verus! {

/// A rescaled image and the offset, relative to its cell's top-left corner,
/// at which its top-left corner is pasted.
pub struct AlignedImage {
    pub pixels: RgbBuffer,
    pub offset: XYi,
}

/// Why an image could not be aligned.
#[derive(Clone, Copy, Debug, PartialEq, Eq, Structural)]
pub enum AlignError {
    /// Not exactly one face was detected, or the face has no area.
    NoUsableFace,
    /// The image has no pixels.
    EmptyImage,
    /// The rescaled image or its offset would exceed the machine's sizes.
    TooLarge,
}

/// The pixels that `image::imageops::resize` with the Lanczos3 filter makes
/// of an RGB image of the given size when asked for the new size.
pub uninterp spec fn lanczos3_resized(
    pixels: Seq<u8>,
    width: u32,
    height: u32,
    new_width: u32,
    new_height: u32,
) -> Seq<u8>;

/// Relies on `image::imageops::resize` with `FilterType::Lanczos3`: it
/// returns an image of exactly the requested size, and a plain copy when
/// that size is the source's own. Besides the result it allocates an
/// intermediate image of four `f32` channels at the source width and the
/// new height; both allocations must stay within `isize::MAX` bytes. It is
/// only asked to resample images that have pixels.
#[verifier::external_body]
fn resize_lanczos3(src: &RgbBuffer, new_width: u32, new_height: u32) -> (r: RgbBuffer)
    requires
        src.wf(),
        src.width > 0,
        src.height > 0,
        new_width * new_height * 3 <= isize::MAX,
        src.width * new_height * 16 <= isize::MAX,
    ensures
        r.wf(),
        r.width == new_width,
        r.height == new_height,
        r.data@ == lanczos3_resized(src.data@, src.width, src.height, new_width, new_height),
        new_width == src.width && new_height == src.height ==> r.data@ == src.data@,
{
    let img = image::RgbImage::from_raw(src.width, src.height, src.data.clone()).unwrap();
    let out = image::imageops::resize(&img, new_width, new_height, image::imageops::FilterType::Lanczos3);
    RgbBuffer { width: out.width(), height: out.height(), data: out.into_raw() }
}

/// The uniform scale, as `(numerator, denominator)`, that makes the face fit
/// the target face box.
pub open spec fn align_scale(target_face_box: WHi, face: Rect) -> (u32, u32) {
    spec_fit_scale(target_face_box, (face.width, face.height))
}

/// The size of the image scaled by `scale`, rounded to whole pixels.
pub open spec fn scaled_size(width: u32, height: u32, scale: (u32, u32)) -> (int, int) {
    (round_div(width * scale.0, scale.1 as int), round_div(height * scale.0, scale.1 as int))
}

/// The offset that puts the scaled centre of `face` at the centre of `cell`:
/// `cell / 2 - (face.x + face.width / 2) * scale`, rounded to whole pixels.
pub open spec fn face_offset(face: Rect, scale: (u32, u32), cell: WHi) -> (int, int) {
    (
        round_div(cell.0 * scale.1 - (2 * face.x + face.width) * scale.0, 2 * scale.1),
        round_div(cell.1 * scale.1 - (2 * face.y + face.height) * scale.0, 2 * scale.1),
    )
}

/// Whether the face is usable: exactly one, with positive width and height.
pub open spec fn usable_faces(faces: Seq<Rect>) -> bool {
    faces.len() == 1 && faces[0].width > 0 && faces[0].height > 0
}

/// Whether the rescaled image and its offset fit the machine's sizes.
pub open spec fn alignment_fits(image: &RgbBuffer, face: Rect, cell: WHi, target_face_box: WHi) -> bool {
    let s = align_scale(target_face_box, face);
    let d = scaled_size(image.width, image.height, s);
    let o = face_offset(face, s, cell);
    &&& d.0 <= u32::MAX
    &&& d.1 <= u32::MAX
    &&& d.0 * d.1 * 3 <= isize::MAX
    &&& image.width * d.1 * 16 <= isize::MAX
    &&& i64::MIN <= o.0 <= i64::MAX
    &&& i64::MIN <= o.1 <= i64::MAX
}

/// The target face box of a cell: the largest 3:4 box that fits the cell,
/// scaled by `0.6 * face_scale_percent / 100`, rounded to whole pixels.
pub open spec fn spec_target_face_box(cell: WHi, face_scale_percent: u32) -> (int, int) {
    let f = spec_fit_inside(cell, (75, 100));
    (round_div(f.0 * 6 * face_scale_percent, 1000), round_div(f.1 * 6 * face_scale_percent, 1000))
}

/// The box inside a cell that each face is scaled to fit; `None` when it
/// would not fit in `u32`.
pub fn target_face_box(cell: WHi, face_scale_percent: u32) -> (r: Option<WHi>)
    ensures
        r is None <==> spec_target_face_box(cell, face_scale_percent).0 > u32::MAX
            || spec_target_face_box(cell, face_scale_percent).1 > u32::MAX,
        r matches Some(b) ==> b.0 == spec_target_face_box(cell, face_scale_percent).0 && b.1
            == spec_target_face_box(cell, face_scale_percent).1,
{
    let f = fit_inside(cell, (75, 100));
    proof {
        lemma_mul_u32(f.0, face_scale_percent);
        lemma_mul_u32(f.1, face_scale_percent);
    }
    let w = round_div_i128(f.0 as i128 * face_scale_percent as i128 * 6, 1000);
    let h = round_div_i128(f.1 as i128 * face_scale_percent as i128 * 6, 1000);
    proof {
        assert(f.0 * face_scale_percent * 6 == f.0 * 6 * face_scale_percent) by (nonlinear_arith);
        assert(f.1 * face_scale_percent * 6 == f.1 * 6 * face_scale_percent) by (nonlinear_arith);
    }
    if w > u32::MAX as i128 || h > u32::MAX as i128 {
        return None;
    }
    proof {
        lemma_round_div_error(f.0 * 6 * face_scale_percent, 1000);
        lemma_round_div_error(f.1 * 6 * face_scale_percent, 1000);
    }
    Some((w as u32, h as u32))
}

/// Aligns one image to its cell. The single detected face is scaled to fit
/// `target_face_box`, the whole image is rescaled by the same factor, and
/// the offset places the scaled face's centre at the centre of a cell of
/// size `cell`.
pub fn align_face(image: &RgbBuffer, faces: &Vec<Rect>, cell: WHi, target_face_box: WHi) -> (r: Result<
    AlignedImage,
    AlignError,
>)
    requires
        image.wf(),
    ensures
        r == Err::<AlignedImage, AlignError>(AlignError::NoUsableFace) <==> !usable_faces(faces@),
        r == Err::<AlignedImage, AlignError>(AlignError::EmptyImage) <==> usable_faces(faces@) && (
        image.width == 0 || image.height == 0),
        r == Err::<AlignedImage, AlignError>(AlignError::TooLarge) <==> usable_faces(faces@)
            && image.width > 0 && image.height > 0 && !alignment_fits(
            image,
            faces@[0],
            cell,
            target_face_box,
        ),
        r matches Ok(a) ==> {
            let face = faces@[0];
            let s = align_scale(target_face_box, face);
            let d = scaled_size(image.width, image.height, s);
            let o = face_offset(face, s, cell);
            &&& a.pixels.wf()
            &&& a.pixels.width == d.0
            &&& a.pixels.height == d.1
            &&& a.pixels.data@ == lanczos3_resized(
                image.data@,
                image.width,
                image.height,
                d.0 as u32,
                d.1 as u32,
            )
            &&& a.offset.0 == o.0
            &&& a.offset.1 == o.1
        },
{
    if faces.len() != 1 || faces[0].width == 0 || faces[0].height == 0 {
        return Err(AlignError::NoUsableFace);
    }
    if image.width == 0 || image.height == 0 {
        return Err(AlignError::EmptyImage);
    }
    let face = faces[0];
    let scale = fit_scale(target_face_box, (face.width, face.height));
    let num = scale.0 as i128;
    let den = scale.1 as i128;
    proof {
        lemma_mul_u32(image.width, scale.0);
        lemma_mul_u32(image.height, scale.0);
        lemma_mul_u32(cell.0, scale.1);
        lemma_mul_u32(cell.1, scale.1);
        assert(-0x2_0000_0000_0000_0000_0000_0000 <= (2 * face.x + face.width) * scale.0
            <= 0x2_0000_0000_0000_0000_0000_0000) by (nonlinear_arith)
            requires
                -0x2_0000_0000_0000_0000 <= 2 * face.x + face.width <= 0x2_0000_0000_0000_0000,
                0 <= scale.0 <= 0xFFFF_FFFF,
        ;
        assert(-0x2_0000_0000_0000_0000_0000_0000 <= (2 * face.y + face.height) * scale.0
            <= 0x2_0000_0000_0000_0000_0000_0000) by (nonlinear_arith)
            requires
                -0x2_0000_0000_0000_0000 <= 2 * face.y + face.height <= 0x2_0000_0000_0000_0000,
                0 <= scale.0 <= 0xFFFF_FFFF,
        ;
    }
    let new_w = round_div_i128(image.width as i128 * num, den);
    let new_h = round_div_i128(image.height as i128 * num, den);
    let off_x = round_div_i128(
        cell.0 as i128 * den - (2 * face.x as i128 + face.width as i128) * num,
        2 * den,
    );
    let off_y = round_div_i128(
        cell.1 as i128 * den - (2 * face.y as i128 + face.height as i128) * num,
        2 * den,
    );
    if new_w > u32::MAX as i128 || new_h > u32::MAX as i128 {
        return Err(AlignError::TooLarge);
    }
    proof {
        lemma_round_div_error(image.width * scale.0, scale.1 as int);
        lemma_round_div_error(image.height * scale.0, scale.1 as int);
        lemma_mul_u32(new_w as u32, new_h as u32);
        lemma_mul_u32(image.width, new_h as u32);
    }
    let out_bytes: u128 = new_w as u128 * new_h as u128 * 3;
    let tmp_bytes: u128 = image.width as u128 * new_h as u128 * 16;
    if out_bytes > isize::MAX as u128 || tmp_bytes > isize::MAX as u128 {
        return Err(AlignError::TooLarge);
    }
    if off_x < i64::MIN as i128 || off_x > i64::MAX as i128 || off_y < i64::MIN as i128 || off_y
        > i64::MAX as i128 {
        return Err(AlignError::TooLarge);
    }
    let pixels = resize_lanczos3(image, new_w as u32, new_h as u32);
    Ok(AlignedImage { pixels, offset: (off_x as i64, off_y as i64) })
}

/// Alignment centres the face: the scaled face centre plus the offset lies
/// within half a pixel of the cell centre on each axis. In integers, with
/// `scale = n / d`: `|(2 * x + w) * n + 2 * d * offset - cell * d| <= d`.
pub proof fn lemma_alignment_centering(face: Rect, cell: WHi, target_face_box: WHi)
    requires
        face.width > 0,
        face.height > 0,
    ensures
        ({
            let s = align_scale(target_face_box, face);
            let o = face_offset(face, s, cell);
            &&& s.1 > 0
            &&& -(s.1 as int) <= (2 * face.x + face.width) * s.0 + 2 * s.1 * o.0 - cell.0 * s.1
                <= s.1 as int
            &&& -(s.1 as int) <= (2 * face.y + face.height) * s.0 + 2 * s.1 * o.1 - cell.1 * s.1
                <= s.1 as int
        }),
{
    let s = align_scale(target_face_box, face);
    let o = face_offset(face, s, cell);
    let d = s.1 as int;
    let nx = cell.0 * d - (2 * face.x + face.width) * s.0;
    let ny = cell.1 * d - (2 * face.y + face.height) * s.0;
    lemma_round_div_error(nx, 2 * d);
    lemma_round_div_error(ny, 2 * d);
    assert(2 * (2 * d) * o.0 == 4 * (d * o.0)) by (nonlinear_arith);
    assert(2 * (2 * d) * o.1 == 4 * (d * o.1)) by (nonlinear_arith);
    assert(2 * d * o.0 == 2 * (d * o.0)) by (nonlinear_arith);
    assert(2 * d * o.1 == 2 * (d * o.1)) by (nonlinear_arith);
}

} // verus!
