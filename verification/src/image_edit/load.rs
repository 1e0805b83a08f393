//! Taking an image in for editing: decoding the file's bytes in the format
//! its extension names, refusing an image too large to edit, and scaling a
//! display copy down to fit the stage. Reading the file stays with the
//! caller.

use vstd::prelude::*;

use crate::image_edit::{
    format_from_extension, format_of_extension, needs_display_copy, too_large_to_edit, ExtFormat, DISP_MAX_EDGE,
    MAX_EDIT_PIXELS,
};

verus! {

/// A decoded image of the `image` crate.
#[verifier::external_type_specification]
#[verifier::external_body]
pub struct ExDynamicImage(image::DynamicImage);

/// A decoded image kept with the bytes and the extension it was decoded
/// from; only [`decode_image`] makes one.
pub struct DecodedImage<'a> {
    source: &'a [u8],
    key: &'a str,
    image: image::DynamicImage,
}

impl<'a> DecodedImage<'a> {
    /// The bytes the image was decoded from.
    pub closed spec fn source(&self) -> Seq<u8> {
        self.source@
    }

    /// The extension whose format decoded it.
    pub closed spec fn key(&self) -> Seq<char> {
        self.key@
    }
}

/// What `ImageReader::with_format(.., format).decode()` of the `image`
/// crate makes of `bytes` in the format `ImageFormat::from_extension`
/// names for `key`: the image's width and height, or the error, flagged
/// `true` when it is an I/O error, with its message.
pub uninterp spec fn decoded(bytes: Seq<u8>, key: Seq<char>) -> Result<(u32, u32), (bool, Seq<char>)>;

/// The RGBA8 pixels (`DynamicImage::into_rgba8`) of the image decoded
/// from `bytes` in the format of `key`.
pub uninterp spec fn full_rgba(bytes: Seq<u8>, key: Seq<char>) -> Seq<u8>;

/// The image decoded from `bytes` in the format of `key`, scaled by
/// `DynamicImage::resize(edge, edge, Triangle)` to fit an `edge` square
/// keeping its aspect ratio: its width, height and RGBA8 pixels.
pub uninterp spec fn display_copy(bytes: Seq<u8>, key: Seq<char>, edge: u32) -> (u32, u32, Seq<u8>);

/// The message of the `image` crate's "unsupported format" error for a
/// file with extension `ext` (or none).
pub uninterp spec fn unsupported_message(ext: Option<Seq<char>>) -> Seq<char>;

/// Calls `ImageReader::with_format(Cursor::new(bytes), format).decode()`
/// of the `image` crate, and the decoded image's `width` and `height`.
/// Its result is named [`decoded`] of the bytes and the format's
/// extension; a decoded image is kept with both.
#[verifier::external_body]
fn decode_image<'a>(bytes: &'a [u8], format: ExtFormat<'a>) -> (r: Result<(u32, u32, DecodedImage<'a>), (bool, String)>)
    ensures
        match decoded(bytes@, format.key()) {
            Ok((w, h)) => r matches Ok((rw, rh, d)) && rw == w && rh == h && d.source() == bytes@ && d.key()
                == format.key(),
            Err((io, m)) => r matches Err((rio, rm)) && rio == io && rm@ == m,
        },
{
    match image::ImageReader::with_format(std::io::Cursor::new(bytes), format.format).decode() {
        Ok(image) => Ok((image.width(), image.height(), DecodedImage { source: bytes, key: format.key, image })),
        Err(image::ImageError::IoError(e)) => Err((true, e.to_string())),
        Err(e) => Err((false, e.to_string())),
    }
}

/// Calls `DynamicImage::into_rgba8` of the `image` crate and takes the raw
/// buffer: named [`full_rgba`]. An RGBA8 buffer holds four bytes for each
/// pixel of the decoded size.
#[verifier::external_body]
fn into_full_rgba(d: DecodedImage) -> (r: Vec<u8>)
    ensures
        r@ == full_rgba(d.source(), d.key()),
        decoded(d.source(), d.key()) matches Ok((w, h)) ==> r@.len() == 4 * w * h,
{
    d.image.into_rgba8().into_raw()
}

/// Calls `DynamicImage::resize(edge, edge, FilterType::Triangle)` of the
/// `image` crate, then `into_rgba8` and the raw buffer: named
/// [`display_copy`], which holds four bytes for each pixel of its size.
#[verifier::external_body]
fn into_display_rgba(d: DecodedImage, edge: u32) -> (r: (u32, u32, Vec<u8>))
    ensures
        (r.0, r.1, r.2@) == display_copy(d.source(), d.key(), edge),
        r.2@.len() == 4 * r.0 * r.1,
{
    let img = d.image.resize(edge, edge, image::imageops::FilterType::Triangle);
    (img.width(), img.height(), img.into_rgba8().into_raw())
}

/// The message of `ImageError::Unsupported` of the `image` crate for the
/// format hint of a file's extension (`PathExtension`), or of none
/// (`Unknown`): named [`unsupported_message`].
#[verifier::external_body]
fn unsupported_format_message(ext: Option<&str>) -> (r: String)
    ensures
        r@ == unsupported_message(
            match ext {
                Some(e) => Some(e@),
                None => None,
            },
        ),
{
    let hint = match ext {
        Some(e) => image::error::ImageFormatHint::PathExtension(e.into()),
        None => image::error::ImageFormatHint::Unknown,
    };
    image::ImageError::Unsupported(hint.into()).to_string()
}

/// What loading an image for editing gave.
pub enum LoadOutcome {
    /// The full size, and the RGBA pixels of the copy shown, `w`×`h`.
    Ready { full_w: u32, full_h: u32, rgba: Vec<u8>, w: u32, h: u32 },
    /// Larger than the editor takes.
    TooLarge { w: u32, h: u32 },
    /// Not an image in the format its extension names.
    Undecodable,
    /// Reading failed, with the error's message.
    Failed(String),
}

/// A load outcome as plain values.
pub enum LoadV {
    Ready(u32, u32, Seq<u8>, u32, u32),
    TooLarge(u32, u32),
    Undecodable,
    Failed(Seq<char>),
}

/// The plain values of a load outcome.
pub open spec fn load_view(r: LoadOutcome) -> LoadV {
    match r {
        LoadOutcome::Ready { full_w, full_h, rgba, w, h } => LoadV::Ready(full_w, full_h, rgba@, w, h),
        LoadOutcome::TooLarge { w, h } => LoadV::TooLarge(w, h),
        LoadOutcome::Undecodable => LoadV::Undecodable,
        LoadOutcome::Failed(m) => LoadV::Failed(m@),
    }
}

/// What taking the bytes of a file with extension `ext` in for editing
/// gives: undecodable when no format goes with the extension or decoding
/// fails (an I/O error is reported as a failure); too large past
/// [`MAX_EDIT_PIXELS`]; otherwise ready, with a display copy scaled to fit
/// [`DISP_MAX_EDGE`] when either side exceeds it, else the full pixels.
pub open spec fn load_spec(bytes: Seq<u8>, ext: Seq<char>) -> LoadV {
    if format_of_extension(ext) is None {
        LoadV::Undecodable
    } else {
        match decoded(bytes, ext) {
            Err((io, m)) => if io {
                LoadV::Failed(m)
            } else {
                LoadV::Undecodable
            },
            Ok((w, h)) => if w * h > MAX_EDIT_PIXELS {
                LoadV::TooLarge(w, h)
            } else if w > DISP_MAX_EDGE || h > DISP_MAX_EDGE {
                let (dw, dh, px) = display_copy(bytes, ext, DISP_MAX_EDGE);
                LoadV::Ready(w, h, px, dw, dh)
            } else {
                LoadV::Ready(w, h, full_rgba(bytes, ext), w, h)
            },
        }
    }
}

/// Take the bytes of a file with extension `ext` in for editing.
pub fn prepare_for_edit(bytes: &[u8], ext: &str) -> (r: LoadOutcome)
    ensures
        load_view(r) == load_spec(bytes@, ext@),
        r matches LoadOutcome::Ready { rgba, w, h, .. } ==> rgba@.len() == 4 * w * h,
{
    let format = match format_from_extension(ext) {
        Some(f) => f,
        None => {
            return LoadOutcome::Undecodable;
        },
    };
    match decode_image(bytes, format) {
        Err((io, m)) => if io {
            LoadOutcome::Failed(m)
        } else {
            LoadOutcome::Undecodable
        },
        Ok((w, h, d)) => {
            if too_large_to_edit(w, h) {
                LoadOutcome::TooLarge { w, h }
            } else if needs_display_copy(w, h) {
                let (dw, dh, rgba) = into_display_rgba(d, DISP_MAX_EDGE);
                LoadOutcome::Ready { full_w: w, full_h: h, rgba, w: dw, h: dh }
            } else {
                let rgba = into_full_rgba(d);
                LoadOutcome::Ready { full_w: w, full_h: h, rgba, w, h }
            }
        },
    }
}

/// What decoding a file's bytes for saving gives: the size and RGBA
/// pixels of the image, or the error's message; a file without an
/// extension, or with one no format goes with, is refused with the
/// `image` crate's "unsupported format" message.
pub open spec fn save_decode_spec(bytes: Seq<u8>, ext: Option<Seq<char>>) -> Result<(u32, u32, Seq<u8>), Seq<char>> {
    match ext {
        None => Err(unsupported_message(None)),
        Some(e) => if format_of_extension(e) is None {
            Err(unsupported_message(Some(e)))
        } else {
            match decoded(bytes, e) {
                Err((_, m)) => Err(m),
                Ok((w, h)) => Ok((w, h, full_rgba(bytes, e))),
            }
        },
    }
}

/// Decode a file's bytes at full resolution for saving, the extension
/// (`None` for a file without one) naming the format.
pub fn decode_for_save(bytes: &[u8], ext: Option<&str>) -> (r: Result<(u32, u32, Vec<u8>), String>)
    ensures
        match r {
            Ok((w, h, px)) => save_decode_spec(
                bytes@,
                match ext {
                    Some(e) => Some(e@),
                    None => None,
                },
            ) == Ok::<(u32, u32, Seq<u8>), Seq<char>>((w, h, px@)) && px@.len() == 4 * w * h,
            Err(m) => save_decode_spec(
                bytes@,
                match ext {
                    Some(e) => Some(e@),
                    None => None,
                },
            ) == Err::<(u32, u32, Seq<u8>), Seq<char>>(m@),
        },
{
    let e = match ext {
        Some(e) => e,
        None => {
            return Err(unsupported_format_message(None));
        },
    };
    let format = match format_from_extension(e) {
        Some(f) => f,
        None => {
            return Err(unsupported_format_message(Some(e)));
        },
    };
    match decode_image(bytes, format) {
        Err((_, m)) => Err(m),
        Ok((w, h, d)) => Ok((w, h, into_full_rgba(d))),
    }
}

} // verus!
