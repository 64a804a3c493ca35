//! Pictures.
use vstd::prelude::*;

verus! {

/// A picture: three bytes for each pixel, row by row from the top, each row from the left.
#[derive(Debug)]
pub struct RgbImage {
    pub width: u32,
    pub height: u32,
    pub pixels: Vec<u8>,
}

/// The formats in which pictures are kept.
#[derive(Clone, Copy, Debug, PartialEq, Eq, Structural)]
pub enum FileFormat {
    Png,
    Jpeg,
}

/// Where a pixel's byte stands.
pub open spec fn byte_at(width: int, x: int, y: int, c: int) -> int {
    (y * width + x) * 3 + c
}

impl RgbImage {
    /// Whether there are three bytes for each pixel.
    pub open spec fn wf(&self) -> bool {
        self.pixels@.len() == self.width * self.height * 3
    }

    /// One of the three bytes of a pixel.
    pub open spec fn pixel(&self, x: int, y: int, c: int) -> u8 {
        self.pixels@[byte_at(self.width as int, x, y, c)]
    }

    /// Whether a pixel lies in the picture.
    pub open spec fn holds(&self, x: int, y: int) -> bool {
        0 <= x < self.width && 0 <= y < self.height
    }
}

impl Clone for RgbImage {
    fn clone(&self) -> (r: RgbImage)
        ensures
            r.width == self.width && r.height == self.height,
            r.pixels@ == self.pixels@,
    {
        let pixels = self.pixels.clone();
        assert(pixels@ =~= self.pixels@);
        RgbImage { width: self.width, height: self.height, pixels }
    }
}

/// What `image::load_from_memory_with_format` and `DynamicImage::to_rgb8` make of some bytes: a width, a
/// height and the bytes of the pixels, or none where the bytes are no picture in the format.
pub uninterp spec fn decoded_picture(bytes: Seq<u8>, format: FileFormat) -> Option<(u32, u32, Seq<u8>)>;

/// Whether a picture is the one that some bytes are. The values of the pixels are those that were kept where
/// the format keeps them exactly.
pub open spec fn is_decoded(picture: RgbImage, bytes: Seq<u8>, format: FileFormat) -> bool {
    &&& picture.wf()
    &&& decoded_picture(bytes, format) matches Some((width, height, pixels))
    &&& picture.width == width
    &&& picture.height == height
    &&& format == FileFormat::Png ==> picture.pixels@ == pixels
}

/// `image::load_from_memory_with_format` and `DynamicImage::to_rgb8`: the picture that some bytes
/// encode, with three bytes for each pixel. The values of the pixels of a JPEG file are left open: a decoder may
/// round differently on another machine.
#[verifier::external_body]
fn decode_rgb(bytes: &[u8], format: FileFormat) -> (r: Option<RgbImage>)
    ensures
        r is Some == decoded_picture(bytes@, format) is Some,
        r matches Some(picture) ==> is_decoded(picture, bytes@, format),
{
    let format = match format {
        FileFormat::Png => image::ImageFormat::Png,
        FileFormat::Jpeg => image::ImageFormat::Jpeg,
    };
    let rgb = image::load_from_memory_with_format(bytes, format).ok()?.to_rgb8();
    let (width, height) = rgb.dimensions();
    Some(RgbImage { width, height, pixels: rgb.into_raw() })
}

/// `image::imageops::resize` with the `Lanczos3` filter: the picture in another size. The values of
/// the pixels are left open: they are computed in floating point.
#[verifier::external_body]
fn resize_lanczos(picture: RgbImage, width: u32, height: u32) -> (r: RgbImage)
    requires
        picture.wf(),
        0 < picture.width && 0 < picture.height,
        0 < width <= 0x4000 && 0 < height <= 0x4000,
    ensures
        r.width == width && r.height == height,
        r.wf(),
{
    let source = image::RgbImage::from_raw(picture.width, picture.height, picture.pixels).unwrap();
    let filter = image::imageops::FilterType::Lanczos3;
    let resized = image::imageops::resize(&source, width, height, filter);
    RgbImage { width, height, pixels: resized.into_raw() }
}

/// `image::imageops::overlay`: one picture over another, with its upper left corner at a point. A
/// pixel that the upper picture covers has its value, and every other pixel stays as it is.
#[verifier::external_body]
fn overlay_rgb(bottom: RgbImage, top: &RgbImage, x: u32, y: u32) -> (r: RgbImage)
    requires
        bottom.wf(),
        top.wf(),
    ensures
        r.width == bottom.width && r.height == bottom.height,
        r.wf(),
        forall|px: int, py: int, c: int|
            bottom.holds(px, py) && 0 <= c < 3 ==> #[trigger] r.pixel(px, py, c) == (if x <= px < x + top.width
                && y <= py < y + top.height {
                top.pixel(px - x, py - y, c)
            } else {
                bottom.pixel(px, py, c)
            }),
{
    let (width, height) = (bottom.width, bottom.height);
    let mut page = image::RgbImage::from_raw(width, height, bottom.pixels).unwrap();
    let card = image::RgbImage::from_raw(top.width, top.height, top.pixels.clone()).unwrap();
    image::imageops::overlay(&mut page, &card, x as i64, y as i64);
    RgbImage { width, height, pixels: page.into_raw() }
}

/// Reads a picture.
pub fn decode(bytes: &[u8], format: FileFormat) -> (r: Option<RgbImage>)
    ensures
        r is Some == decoded_picture(bytes@, format) is Some,
        r matches Some(picture) ==> is_decoded(picture, bytes@, format),
{
    decode_rgb(bytes, format)
}

/// The picture in another size.
pub fn resize(picture: RgbImage, width: u32, height: u32) -> (r: RgbImage)
    requires
        picture.wf(),
        0 < picture.width && 0 < picture.height,
        0 < width <= 0x4000 && 0 < height <= 0x4000,
    ensures
        r.width == width && r.height == height,
        r.wf(),
{
    resize_lanczos(picture, width, height)
}

/// One picture over another.
pub fn overlay(bottom: RgbImage, top: &RgbImage, x: u32, y: u32) -> (r: RgbImage)
    requires
        bottom.wf(),
        top.wf(),
    ensures
        r.width == bottom.width && r.height == bottom.height,
        r.wf(),
        forall|px: int, py: int, c: int|
            bottom.holds(px, py) && 0 <= c < 3 ==> #[trigger] r.pixel(px, py, c) == (if x <= px < x + top.width
                && y <= py < y + top.height {
                top.pixel(px - x, py - y, c)
            } else {
                bottom.pixel(px, py, c)
            }),
{
    overlay_rgb(bottom, top, x, y)
}

/// A black picture.
pub fn black(width: u32, height: u32) -> (r: RgbImage)
    requires
        width <= 0x4000,
        height <= 0x4000,
    ensures
        r.width == width && r.height == height,
        r.wf(),
        forall|i: int| 0 <= i < r.pixels@.len() ==> #[trigger] r.pixels@[i] == 0,
{
    assert(width * height * 3 <= 0x4000 * 0x4000 * 3) by (nonlinear_arith)
        requires
            width <= 0x4000,
            height <= 0x4000,
    ;
    assert(width * height <= 0x4000 * 0x4000) by (nonlinear_arith)
        requires
            width <= 0x4000,
            height <= 0x4000,
    ;
    let n: usize = width as usize * height as usize * 3;
    RgbImage { width, height, pixels: vec![0u8; n] }
}

} // verus!
