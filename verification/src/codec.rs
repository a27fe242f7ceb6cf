//! Image formats and file types, as outside code knows them.

use vstd::prelude::*;

verus! {

/// The type of content that its first bytes give away.
pub uninterp spec fn sniffed(b: Seq<u8>) -> Option<Seq<char>>;

/// `infer::get`: the type that the bytes' signature stands for, such as
/// `image/png`; nothing where no signature matches.
#[verifier::external_body]
pub(crate) fn sniff(b: &[u8]) -> (res: Option<&'static str>)
    ensures
        match res {
            Some(m) => sniffed(b@) == Some(m@),
            None => sniffed(b@) is None,
        },
{
    infer::get(b).map(|t| t.mime_type())
}

/// An image file, read and written again as PNG; nothing where it cannot be.
pub uninterp spec fn as_png(b: Seq<u8>) -> Option<Seq<u8>>;

/// How the conversion of an image file fails, if it does: it cannot be read, or what was read
/// cannot be written.
pub open spec fn png_error(b: Seq<u8>) -> ConvertError {
    if image_pixels(b) is None {
        ConvertError::Decode
    } else {
        ConvertError::Encode
    }
}

/// `image::load_from_memory`, then `DynamicImage::write_to` as PNG. The first fails on bytes
/// that are no image of a known format, as it does where the pixels are asked for; the second
/// on an image that PNG cannot hold.
#[verifier::external_body]
fn convert_to_png(b: &[u8]) -> (res: Result<Vec<u8>, ConvertError>)
    ensures
        match res {
            Ok(p) => as_png(b@) == Some(p@) && image_pixels(b@) is Some,
            Err(e) => as_png(b@) is None && e == png_error(b@),
        },
{
    let mut out: Vec<u8> = Vec::new();
    let img = image::load_from_memory(b).map_err(|_| ConvertError::Decode)?;
    img.write_to(std::io::Cursor::new(&mut out), image::ImageFormat::Png)
        .map_err(|_| ConvertError::Encode)?;
    Ok(out)
}

/// Pixels, written as PNG; nothing where they cannot be.
pub uninterp spec fn png_of_pixels(width: u32, height: u32, rgba: Seq<u8>) -> Option<Seq<u8>>;

/// `image::RgbaImage::from_raw`, then `DynamicImage::write_to` as PNG. More than four bytes
/// for each pixel are not allowed: the encoder panics on them. With fewer it fails.
#[verifier::external_body]
fn pixels_to_png(width: u32, height: u32, rgba: Vec<u8>) -> (res: Option<Vec<u8>>)
    requires
        rgba@.len() <= 4 * width * height,
    ensures
        match res {
            Some(p) => png_of_pixels(width, height, rgba@) == Some(p@),
            None => png_of_pixels(width, height, rgba@) is None,
        },
{
    let mut out: Vec<u8> = Vec::new();
    let img = image::RgbaImage::from_raw(width, height, rgba)?;
    image::DynamicImage::ImageRgba8(img)
        .write_to(std::io::Cursor::new(&mut out), image::ImageFormat::Png)
        .ok()?;
    Some(out)
}

/// The width, the height and the pixels of an image file; nothing where it cannot be
/// read.
pub uninterp spec fn image_pixels(b: Seq<u8>) -> Option<(u32, u32, Seq<u8>)>;

/// `image::load_from_memory`, then `DynamicImage::to_rgba8`: four bytes for each pixel.
#[verifier::external_body]
fn decode_pixels(b: &[u8]) -> (res: Option<(u32, u32, Vec<u8>)>)
    ensures
        match res {
            Some(t) => image_pixels(b@) == Some((t.0, t.1, t.2@)) && t.2@.len() == 4 * t.0 * t.1,
            None => image_pixels(b@) is None,
        },
{
    let p = image::load_from_memory(b).ok()?.to_rgba8();
    Some((p.width(), p.height(), p.into_raw()))
}

/// Why an image cannot be converted.
#[derive(Clone, Copy, Debug, PartialEq, Eq, Structural)]
pub enum ConvertError {
    /// It cannot be read.
    Decode,
    /// It cannot be written.
    Encode,
    /// It is no bitmap.
    Dib(crate::win_image::DibError),
    /// It has not four bytes for each pixel.
    Length,
}

/// Converts an image file to PNG.
pub fn to_png(b: &[u8]) -> (res: Result<Vec<u8>, ConvertError>)
    ensures
        match res {
            Ok(p) => as_png(b@) == Some(p@),
            Err(e) => as_png(b@) is None && e == png_error(b@),
        },
        image_pixels(b@) is None ==> res is Err,
{
    convert_to_png(b)
}

/// Converts a bitmap to PNG.
pub fn dib_to_png(dib: &[u8]) -> (res: Result<Vec<u8>, ConvertError>)
    ensures
        match crate::win_image::dib_error(dib@) {
            Some(e) => res == Err::<Vec<u8>, ConvertError>(ConvertError::Dib(e)),
            None => {
                let l = crate::win_image::layout(dib@);
                match png_of_pixels(
                    l.width as u32,
                    l.height as u32,
                    crate::win_image::pixels(dib@, l),
                ) {
                    Some(p) => res is Ok && res->Ok_0@ == p,
                    None => res == Err::<Vec<u8>, ConvertError>(ConvertError::Encode),
                }
            },
        },
{
    match crate::win_image::dib_to_rgba(dib) {
        Ok((w, h, rgba)) => {
            assert(rgba@.len() == 4 * w * h) by (nonlinear_arith)
                requires
                    rgba@.len() == w * h * 4,
            ;
            match pixels_to_png(w, h, rgba) {
                Some(p) => Ok(p),
                None => Err(ConvertError::Encode),
            }
        },
        Err(e) => Err(ConvertError::Dib(e)),
    }
}

/// An image's pixels as a bitmap.
pub open spec fn dib_of(pixels: Option<(u32, u32, Seq<u8>)>) -> Result<Seq<u8>, ConvertError> {
    match pixels {
        Some(t) => if t.2.len() == t.0 * t.1 * 4 {
            Ok(crate::win_image::v5_bytes(t.0 as nat, t.1 as nat, t.2))
        } else {
            Err(ConvertError::Length)
        },
        None => Err(ConvertError::Decode),
    }
}

/// Writes the pixels that an image was decoded to as a bitmap.
pub fn pixels_to_dibv5(pixels: Option<(u32, u32, Vec<u8>)>) -> (res: Result<Vec<u8>, ConvertError>)
    ensures
        match dib_of(
            match pixels {
                Some(t) => Some((t.0, t.1, t.2@)),
                None => None,
            },
        ) {
            Ok(d) => res is Ok && res->Ok_0@ == d,
            Err(e) => res == Err::<Vec<u8>, ConvertError>(e),
        },
{
    match pixels {
        Some((w, h, rgba)) => match crate::win_image::rgba_to_dibv5(w, h, rgba.as_slice()) {
            Ok(d) => Ok(d),
            Err(_) => Err(ConvertError::Length),
        },
        None => Err(ConvertError::Decode),
    }
}

/// Converts an image file to a bitmap. It fails only where the file cannot be read.
pub fn bytes_to_dibv5(b: &[u8]) -> (res: Result<Vec<u8>, ConvertError>)
    ensures
        res is Err <==> image_pixels(b@) is None,
        res is Err ==> res->Err_0 == ConvertError::Decode,
        match dib_of(image_pixels(b@)) {
            Ok(d) => res is Ok && res->Ok_0@ == d,
            Err(e) => res == Err::<Vec<u8>, ConvertError>(e),
        },
{
    let pixels = decode_pixels(b);
    proof {
        if pixels is Some {
            let t = pixels->0;
            let (w, h, n) = (t.0, t.1, t.2@.len());
            assert(n == w * h * 4) by (nonlinear_arith)
                requires
                    n == 4 * w * h,
            ;
        }
    }
    pixels_to_dibv5(pixels)
}

/// Pixels are written as a bitmap exactly where there are four bytes for each of them, and the
/// bitmap shows the picture.
pub proof fn law_pixels_are_written_as_they_are(width: u32, height: u32, rgba: Seq<u8>)
    ensures
        dib_of(Some((width, height, rgba))) is Ok <==> rgba.len() == width * height * 4,
        dib_of(None) == Err::<Seq<u8>, ConvertError>(ConvertError::Decode),
        rgba.len() == width * height * 4 && 0 < height <= 2147483648 ==> (dib_of(
            Some((width, height, rgba)),
        ) matches Ok(d) && crate::win_image::says_written(d, width as int, height as int)
            && crate::win_image::stores_pixels(d, rgba)),
{
    if 0 < height <= 2147483648 {
        crate::win_image::law_what_is_written(width as nat, height as nat, rgba);
    }
}

/// What cannot be read fails so, and what was read and cannot be written fails otherwise.
pub proof fn law_how_a_conversion_fails(b: Seq<u8>)
    ensures
        image_pixels(b) is None ==> png_error(b) == ConvertError::Decode,
        image_pixels(b) is Some ==> png_error(b) == ConvertError::Encode,
{
}

} // verus!
