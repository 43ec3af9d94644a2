//! Showing a learned logo to somebody.

use vstd::prelude::*;
use crate::analyze::logo::model::LogoData;

verus! {

/// Pixels of four bytes each as a PNG file.
pub uninterp spec fn png_of(width: u32, height: u32, rgba: Seq<u8>) -> Option<Seq<u8>>;

/// `image::RgbaImage::from_raw` and `write_to` as PNG. Claimed: the file is a
/// function of the size and the pixels alone, and there is none where the
/// pixels are too few for the size.
#[verifier::external_body]
fn encode_png(width: u32, height: u32, rgba: Vec<u8>) -> (png: Option<Vec<u8>>)
    ensures
        (match png {
            Some(png) => Some(png@),
            None => None,
        }) == png_of(width, height, rgba@),
        png is Some ==> 4 * (width * height) <= rgba@.len(),
{
    let image = image::RgbaImage::from_raw(width, height, rgba)?;
    let mut png = std::io::Cursor::new(Vec::new());
    image.write_to(&mut png, image::ImageFormat::Png).ok().map(|()| png.into_inner())
}

impl LogoData {
    /// Render the logo as a PNG file.
    #[must_use]
    pub fn to_png(&self) -> (png: Option<Vec<u8>>)
        requires
            4 * self.rect.spec_area() <= usize::MAX,
        ensures
            (match png {
                Some(png) => Some(png@),
                None => None,
            }) == png_of(self.rect.width, self.rect.height, self@.preview()),
    {
        encode_png(self.rect.width, self.rect.height, self.to_rgba())
    }
}

} // verus!
