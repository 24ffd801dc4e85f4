//! Diffuse texture maps: decoding an encoded image and laying its pixels out
//! as a grid addressed by column, then row.

use vstd::prelude::*;

use crate::error::LoadError;

verus! {

/// What an encoded image decodes to as 8-bit RGB: its width, its height and
/// its samples, row by row, three per pixel; `None` when the bytes are no
/// image of a supported format.
pub uninterp spec fn rgb8_decoding(encoded: Seq<u8>) -> Option<(u32, u32, Seq<u8>)>;

#[verifier::external_type_specification]
#[verifier::external_body]
pub struct ExImageError(image::ImageError);

/// Relies on image::load_from_memory, which detects the format from the
/// bytes and decodes them, then on DynamicImage::into_rgb8 to convert the
/// result to 8-bit RGB, whose ImageBuffer::dimensions and
/// ImageBuffer::into_raw give the size and the samples; the buffer of an
/// ImageBuffer holds at least three samples for each of its pixels. JPEG goes
/// through jpeg-decoder, built with its `platform_independent` feature, so
/// that the result does not depend on the processor's instruction set.
#[verifier::external_body]
fn decode_rgb8(encoded: &[u8]) -> (r: Result<(u32, u32, Vec<u8>), image::ImageError>)
    ensures
        match r {
            Ok((w, h, raw)) => rgb8_decoding(encoded@) == Some((w, h, raw@)),
            Err(_) => rgb8_decoding(encoded@) is None,
        },
        match r {
            Ok((w, h, raw)) => raw@.len() >= 3 * w * h,
            Err(_) => true,
        },
{
    match image::load_from_memory(encoded) {
        Ok(img) => {
            let rgb = img.into_rgb8();
            let (w, h) = rgb.dimensions();
            Ok((w, h, rgb.into_raw()))
        },
        Err(e) => Err(e),
    }
}

/// A diffuse map. `columns[x][y]` is the color of the pixel in column `x`
/// and row `y`: the outer sequence runs over the width, the inner over the
/// height.
#[derive(Debug)]
pub struct Texture {
    pub width: u32,
    pub height: u32,
    pub columns: Vec<Vec<(u8, u8, u8)>>,
}

/// The color of pixel `(x, y)` in row-major RGB samples of an image `w`
/// pixels wide.
pub open spec fn sample(raw: Seq<u8>, w: int, x: int, y: int) -> (u8, u8, u8) {
    let i = 3 * (y * w + x);
    (raw[i], raw[i + 1], raw[i + 2])
}

/// Whether `t` is the image of size `w` by `h` with row-major RGB samples
/// `raw`, laid out column by column.
pub open spec fn laid_out(t: Texture, w: u32, h: u32, raw: Seq<u8>) -> bool {
    &&& t.width == w
    &&& t.height == h
    &&& t.columns@.len() == w
    &&& forall|x: int| 0 <= x < w ==> (#[trigger] t.columns@[x])@.len() == h
    &&& forall|x: int, y: int|
        0 <= x < w && 0 <= y < h ==> #[trigger] t.columns@[x]@[y] == sample(raw, w as int, x, y)
}

/// Lays out row-major RGB samples of a `width` by `height` image column by
/// column.
pub fn texture_from_rgb8(width: u32, height: u32, raw: &Vec<u8>) -> (r: Texture)
    requires
        raw@.len() >= 3 * width * height,
    ensures
        laid_out(r, width, height, raw@),
{
    let w = width as usize;
    let h = height as usize;
    let n = raw.len();
    let mut columns: Vec<Vec<(u8, u8, u8)>> = Vec::new();
    let mut x: usize = 0;
    while x < w
        invariant
            w == width,
            h == height,
            x <= w,
            raw@.len() >= 3 * w * h,
            raw@.len() == n,
            columns@.len() == x,
            forall|i: int| 0 <= i < x ==> (#[trigger] columns@[i])@.len() == h,
            forall|i: int, j: int|
                0 <= i < x && 0 <= j < h ==> #[trigger] columns@[i]@[j] == sample(
                    raw@,
                    w as int,
                    i,
                    j,
                ),
        decreases w - x,
    {
        let mut col: Vec<(u8, u8, u8)> = Vec::new();
        let mut y: usize = 0;
        while y < h
            invariant
                w == width,
                h == height,
                x < w,
                y <= h,
                raw@.len() >= 3 * w * h,
                raw@.len() == n,
                col@.len() == y,
                forall|j: int| 0 <= j < y ==> #[trigger] col@[j] == sample(raw@, w as int, x as int, j),
            decreases h - y,
        {
            assert(y * w + x < w * h && 3 * (y * w + x) + 2 < 3 * w * h && y * w <= y * w + x) by (nonlinear_arith)
                requires
                    x < w,
                    y < h,
            ;
            let i = 3 * (y * w + x);
            col.push((raw[i], raw[i + 1], raw[i + 2]));
            y = y + 1;
        }
        columns.push(col);
        x = x + 1;
    }
    Texture { width, height, columns }
}

/// Decodes an encoded image into a diffuse map; bytes that are no image of a
/// supported format give a file error.
pub fn texture_from_encoded(encoded: &[u8]) -> (r: Result<Texture, LoadError>)
    ensures
        match rgb8_decoding(encoded@) {
            None => r == Err::<Texture, LoadError>(LoadError::File),
            Some((w, h, raw)) => r is Ok && laid_out(r->Ok_0, w, h, raw),
        },
{
    match decode_rgb8(encoded) {
        Err(_) => Err(LoadError::File),
        Ok((w, h, raw)) => Ok(texture_from_rgb8(w, h, &raw)),
    }
}

} // verus!
