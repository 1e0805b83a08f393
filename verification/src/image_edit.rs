//! The image editor's rules: which files it opens, which images it
//! refuses or previews at reduced size, the stroke colours, the name of a
//! saved copy, and how an edited RGBA buffer is encoded in the file's own
//! format through the `image` crate. Drawing the strokes works in
//! floating point and stays with the caller.

use image::ImageEncoder;
use vstd::prelude::*;

use crate::i18n::{ascii_lower, lower_char};
use crate::strings::{chars_eq_str, chars_of, decimal, last_index, push_chars, push_decimal, rfind_char};

pub mod load;
pub mod session;

verus! {

/// Refuse images past this many pixels.
pub const MAX_EDIT_PIXELS: u64 = 64_000_000;

/// Longest edge of the display-resolution preview copy.
pub const DISP_MAX_EDGE: u32 = 2048;

/// `s` in ASCII lower case.
pub open spec fn lower_seq(s: Seq<char>) -> Seq<char> {
    s.map_values(|c: char| ascii_lower(c))
}

/// The extensions the editor can decode and re-encode, lower case.
pub open spec fn is_editable_ext(e: Seq<char>) -> bool {
    ||| e == "png"@
    ||| e == "jpg"@
    ||| e == "jpeg"@
    ||| e == "jpe"@
    ||| e == "bmp"@
    ||| e == "tif"@
    ||| e == "tiff"@
    ||| e == "webp"@
}

/// The extensions written as JPEG, lower case.
pub open spec fn is_jpeg_ext(e: Seq<char>) -> bool {
    e == "jpg"@ || e == "jpeg"@ || e == "jpe"@
}

/// What follows the last `.` of a name, if it has one.
pub open spec fn extension_of(name: Seq<char>) -> Option<Seq<char>> {
    let i = last_index(name, '.');
    if i < 0 {
        None
    } else {
        Some(name.subrange(i + 1, name.len() as int))
    }
}

/// Whether the editor opens a file of this name: its extension, in ASCII
/// lower case, is one the editor can decode and re-encode.
pub open spec fn editable_name(name: Seq<char>) -> bool {
    match extension_of(name) {
        Some(ext) => is_editable_ext(lower_seq(ext)),
        None => false,
    }
}

fn lower_chars(v: &[char], lo: usize) -> (r: Vec<char>)
    requires
        lo <= v.len(),
    ensures
        r@ == lower_seq(v@.subrange(lo as int, v.len() as int)),
{
    let mut out: Vec<char> = Vec::new();
    let mut i: usize = lo;
    while i < v.len()
        invariant
            lo <= i <= v.len(),
            out@ == lower_seq(v@.subrange(lo as int, i as int)),
        decreases v.len() - i,
    {
        let c = lower_char(v[i]);
        out.push(c);
        assert(lower_seq(v@.subrange(lo as int, i + 1)) =~= lower_seq(v@.subrange(lo as int, i as int)).push(c));
        i = i + 1;
    }
    out
}

fn editable_ext(e: &[char]) -> (r: bool)
    ensures
        r == is_editable_ext(e@),
{
    chars_eq_str(e, "png") || chars_eq_str(e, "jpg") || chars_eq_str(e, "jpeg") || chars_eq_str(e, "jpe")
        || chars_eq_str(e, "bmp") || chars_eq_str(e, "tif") || chars_eq_str(e, "tiff")
        || chars_eq_str(e, "webp")
}

fn jpeg_ext(e: &[char]) -> (r: bool)
    ensures
        r == is_jpeg_ext(e@),
{
    chars_eq_str(e, "jpg") || chars_eq_str(e, "jpeg") || chars_eq_str(e, "jpe")
}

/// Can the built-in image editor open a file with this display name?
/// Decided on the extension alone.
pub fn editable_image_name(name: &str) -> (r: bool)
    ensures
        r == editable_name(name@),
{
    let v = chars_of(name);
    match rfind_char(&v, '.') {
        Some(i) => {
            proof {
                crate::strings::lemma_last_index(v@, '.');
                assert(i < v.len());
            }
            let ext = lower_chars(&v, i + 1);
            editable_ext(&ext)
        },
        None => false,
    }
}

/// Whether an image of `w`×`h` pixels is past what the editor takes.
pub fn too_large_to_edit(w: u32, h: u32) -> (r: bool)
    ensures
        r == (w * h > MAX_EDIT_PIXELS),
{
    assert(w * h <= u32::MAX * u32::MAX) by (nonlinear_arith)
        requires
            w <= u32::MAX,
            h <= u32::MAX,
    ;
    let px: u64 = w as u64 * h as u64;
    px > MAX_EDIT_PIXELS
}

/// Whether the on-screen copy of a `w`×`h` image is scaled down to fit
/// [`DISP_MAX_EDGE`].
pub fn needs_display_copy(w: u32, h: u32) -> (r: bool)
    ensures
        r == (w > DISP_MAX_EDGE || h > DISP_MAX_EDGE),
{
    let longest = if w > h { w } else { h };
    longest > DISP_MAX_EDGE
}

/// What a stroke does: redact (filled black) or annotate (in colour).
#[derive(Clone, Copy, PartialEq, Eq, Debug, Structural)]
pub enum EditMode {
    Redact,
    Annotate,
}

/// The annotation palette, red first.
pub open spec fn palette(ix: nat) -> (u8, u8, u8) {
    if ix == 0 {
        (0xE5, 0x3E, 0x3E)
    } else if ix == 1 {
        (0xF6, 0x8B, 0x1F)
    } else if ix == 2 {
        (0xF7, 0xD1, 0x1E)
    } else if ix == 3 {
        (0x2F, 0xB3, 0x44)
    } else if ix == 4 {
        (0x2B, 0x6C, 0xE5)
    } else if ix == 5 {
        (0xFF, 0xFF, 0xFF)
    } else {
        (0x00, 0x00, 0x00)
    }
}

/// Number of palette colours.
pub const PALETTE_LEN: usize = 7;

/// The colour a new stroke is drawn in: black for redaction, otherwise the
/// chosen palette colour, an index past the end picking the last one.
pub fn stroke_color(mode: EditMode, color_ix: usize) -> (r: (u8, u8, u8))
    ensures
        r == match mode {
            EditMode::Redact => (0u8, 0u8, 0u8),
            EditMode::Annotate => palette(
                if color_ix < PALETTE_LEN {
                    color_ix as nat
                } else {
                    (PALETTE_LEN - 1) as nat
                },
            ),
        },
{
    match mode {
        EditMode::Redact => (0, 0, 0),
        EditMode::Annotate => {
            let ix = if color_ix < PALETTE_LEN {
                color_ix
            } else {
                PALETTE_LEN - 1
            };
            if ix == 0 {
                (0xE5, 0x3E, 0x3E)
            } else if ix == 1 {
                (0xF6, 0x8B, 0x1F)
            } else if ix == 2 {
                (0xF7, 0xD1, 0x1E)
            } else if ix == 3 {
                (0x2F, 0xB3, 0x44)
            } else if ix == 4 {
                (0x2B, 0x6C, 0xE5)
            } else if ix == 5 {
                (0xFF, 0xFF, 0xFF)
            } else {
                (0x00, 0x00, 0x00)
            }
        },
    }
}

/// The extension an edited image is written with: the file's own, in
/// ASCII lower case, or `png` when it has none.
pub fn save_extension(ext: Option<&str>) -> (r: String)
    ensures
        r@ == match ext {
            Some(e) => lower_seq(e@),
            None => "png"@,
        },
{
    match ext {
        Some(e) => {
            let v = chars_of(e);
            let low = lower_chars(&v, 0);
            assert(v@.subrange(0, v@.len() as int) =~= v@);
            let mut out = String::new();
            push_chars(&mut out, &low);
            assert(out@ =~= lower_seq(e@));
            out
        },
        None => String::from_str("png"),
    }
}

/// The leaf of the `n`-th edited copy saved beside the original:
/// `<stem> <suffix>.<ext>` for the first, `<stem> <suffix> <n>.<ext>`
/// after that.
pub open spec fn copy_leaf(stem: Seq<char>, suffix: Seq<char>, ext: Seq<char>, n: nat) -> Seq<
    char,
> {
    if n <= 1 {
        stem + seq![' '] + suffix + seq!['.'] + ext
    } else {
        stem + seq![' '] + suffix + seq![' '] + decimal(n) + seq!['.'] + ext
    }
}

/// The leaf name of the `n`-th edited copy of an image.
pub fn edited_copy_leaf(stem: &str, suffix: &str, ext: &str, n: u32) -> (r: String)
    ensures
        r@ == copy_leaf(stem@, suffix@, ext@, n as nat),
{
    let mut out = String::new();
    push_chars(&mut out, &chars_of(stem));
    push_chars(&mut out, &[' ']);
    push_chars(&mut out, &chars_of(suffix));
    if n > 1 {
        push_chars(&mut out, &[' ']);
        push_decimal(&mut out, n as u64);
    }
    push_chars(&mut out, &['.']);
    push_chars(&mut out, &chars_of(ext));
    out
}

/// The RGB bytes of an RGBA buffer: every fourth (alpha) byte dropped; a
/// trailing partial pixel is ignored.
pub open spec fn rgb_of(rgba: Seq<u8>) -> Seq<u8> {
    Seq::new(
        (3 * (rgba.len() / 4)) as nat,
        |i: int| rgba[4 * (i / 3) + i % 3],
    )
}

/// Drop the alpha channel of an RGBA buffer.
pub fn flatten_alpha(rgba: &[u8]) -> (r: Vec<u8>)
    requires
        rgba.len() <= usize::MAX,
    ensures
        r@ == rgb_of(rgba@),
{
    let pixels = rgba.len() / 4;
    let mut out: Vec<u8> = Vec::new();
    let mut p: usize = 0;
    while p < pixels
        invariant
            pixels == rgba.len() / 4,
            p <= pixels,
            out.len() == 3 * p,
            forall|i: int| 0 <= i < 3 * p ==> #[trigger] out@[i] == rgba@[4 * (i / 3) + i % 3],
        decreases pixels - p,
    {
        let base = 4 * p;
        out.push(rgba[base]);
        out.push(rgba[base + 1]);
        out.push(rgba[base + 2]);
        proof {
            assert forall|i: int| 0 <= i < 3 * (p + 1) implies #[trigger] out@[i] == rgba@[4 * (i
                / 3) + i % 3] by {
                if i >= 3 * p {
                    assert(i / 3 == p as int) by (nonlinear_arith)
                        requires
                            3 * p <= i < 3 * p + 3,
                    ;
                    assert(i % 3 == i - 3 * p) by (nonlinear_arith)
                        requires
                            3 * p <= i < 3 * p + 3,
                    ;
                }
            }
        }
        p = p + 1;
    }
    assert(out@ =~= rgb_of(rgba@));
    out
}

/// The raster formats the `image` crate names for a file extension.
#[derive(Clone, Copy, Debug, PartialEq, Eq, Structural)]
pub enum RasterFormat {
    Avif,
    Jpeg,
    Png,
    Gif,
    WebP,
    Tiff,
    Tga,
    Dds,
    Bmp,
    Ico,
    Hdr,
    OpenExr,
    Pnm,
    Farbfeld,
    Qoi,
}

/// The format the `image` crate names for an extension, compared in ASCII
/// lower case; `None` for an extension it does not know.
pub open spec fn format_of_extension(ext: Seq<char>) -> Option<RasterFormat> {
    let e = lower_seq(ext);
    if e == "avif"@ {
        Some(RasterFormat::Avif)
    } else if e == "jpg"@ || e == "jpeg"@ || e == "jfif"@ {
        Some(RasterFormat::Jpeg)
    } else if e == "png"@ || e == "apng"@ {
        Some(RasterFormat::Png)
    } else if e == "gif"@ {
        Some(RasterFormat::Gif)
    } else if e == "webp"@ {
        Some(RasterFormat::WebP)
    } else if e == "tif"@ || e == "tiff"@ {
        Some(RasterFormat::Tiff)
    } else if e == "tga"@ {
        Some(RasterFormat::Tga)
    } else if e == "dds"@ {
        Some(RasterFormat::Dds)
    } else if e == "bmp"@ {
        Some(RasterFormat::Bmp)
    } else if e == "ico"@ {
        Some(RasterFormat::Ico)
    } else if e == "hdr"@ {
        Some(RasterFormat::Hdr)
    } else if e == "exr"@ {
        Some(RasterFormat::OpenExr)
    } else if e == "pbm"@ || e == "pam"@ || e == "ppm"@ || e == "pgm"@ || e == "pnm"@ {
        Some(RasterFormat::Pnm)
    } else if e == "ff"@ {
        Some(RasterFormat::Farbfeld)
    } else if e == "qoi"@ {
        Some(RasterFormat::Qoi)
    } else {
        None
    }
}

/// The extension whose format a non-JPEG save is written in: its own when
/// the `image` crate names a format for it, `png` otherwise.
pub open spec fn save_key(ext: Seq<char>) -> Seq<char> {
    if format_of_extension(ext) is Some {
        ext
    } else {
        "png"@
    }
}

/// A raster format of the `image` crate.
#[verifier::external_type_specification]
#[verifier::external_body]
pub struct ExImageFormat(image::ImageFormat);

/// A format of the `image` crate together with the extension it was
/// looked up by; only [`format_from_extension`] makes one.
#[derive(Clone, Copy, Debug)]
pub struct ExtFormat<'a> {
    key: &'a str,
    format: image::ImageFormat,
}

impl<'a> ExtFormat<'a> {
    /// The extension the format was looked up by.
    pub closed spec fn key(self) -> Seq<char> {
        self.key@
    }
}

/// An encoder's answer as plain values: the bytes, or the message of the
/// error.
pub open spec fn bytes_or_message(r: Result<Vec<u8>, String>) -> Result<Seq<u8>, Seq<char>> {
    match r {
        Ok(v) => Ok(v@),
        Err(e) => Err(e@),
    }
}

/// What the `image` crate's JPEG encoder, at quality 90, makes of `w`×`h`
/// RGB pixels.
pub uninterp spec fn jpeg_encoding(rgb: Seq<u8>, w: u32, h: u32) -> Result<Seq<u8>, Seq<char>>;

/// Calls `JpegEncoder::new_with_quality(.., 90).write_image(.., Rgb8)` of
/// the `image` crate. Its result is named [`jpeg_encoding`] of the pixels
/// and the size; the error is its message. The encoder asserts that the
/// buffer holds exactly three bytes per pixel, so that is required.
#[verifier::external_body]
fn encode_jpeg_rgb(rgb: &[u8], w: u32, h: u32) -> (r: Result<Vec<u8>, String>)
    requires
        rgb.len() == 3 * w * h,
    ensures
        bytes_or_message(r) == jpeg_encoding(rgb@, w, h),
{
    let mut out = Vec::new();
    match image::codecs::jpeg::JpegEncoder::new_with_quality(&mut out, 90).write_image(
        rgb,
        w,
        h,
        image::ExtendedColorType::Rgb8,
    ) {
        Ok(()) => Ok(out),
        Err(e) => Err(e.to_string()),
    }
}

/// Calls `ImageFormat::from_extension` of the `image` crate. Its source
/// lower-cases the extension's ASCII letters and looks it up in a fixed
/// table, which [`format_of_extension`] writes out: a format comes back
/// exactly when the table has the extension. The format is kept with the
/// extension it was found by.
#[verifier::external_body]
fn format_from_extension<'a>(ext: &'a str) -> (r: Option<ExtFormat<'a>>)
    ensures
        r is Some == format_of_extension(ext@) is Some,
        r matches Some(f) ==> f.key() == ext@,
{
    match image::ImageFormat::from_extension(ext) {
        Some(format) => Some(ExtFormat { key: ext, format }),
        None => None,
    }
}

/// What the `image` crate's `DynamicImage::write_to` writes for `w`×`h`
/// RGBA pixels in the format `ImageFormat::from_extension` names for
/// `key` ([`format_of_extension`]), converting colours for a format
/// without alpha: the bytes, or the error's message (such as a format this
/// build has no encoder for).
pub uninterp spec fn rgba_encoding(key: Seq<char>, rgba: Seq<u8>, w: u32, h: u32) -> Result<Seq<u8>, Seq<char>>;

/// Calls `DynamicImage::write_to` of the `image` crate, into an in-memory
/// buffer, on the `w`×`h` RGBA image whose pixels are `rgba`. The buffer
/// becomes the image through `RgbaImage::from_raw`, a plain change of
/// type here: its length is required to be four bytes per pixel exactly,
/// what `from_raw` takes as it is and what the PNG, BMP, TIFF and WebP
/// encoders assert. The result is named [`rgba_encoding`] of the format's
/// extension, the pixels and the size.
#[verifier::external_body]
fn write_rgba_to(rgba: Vec<u8>, w: u32, h: u32, format: ExtFormat) -> (r: Result<Vec<u8>, String>)
    requires
        rgba.len() == 4 * w * h,
    ensures
        bytes_or_message(r) == rgba_encoding(format.key(), rgba@, w, h),
{
    let img = match image::RgbaImage::from_raw(w, h, rgba) {
        Some(img) => image::DynamicImage::ImageRgba8(img),
        None => return Err(String::from("buffer size mismatch")),
    };
    let mut out = Vec::new();
    match img.write_to(&mut std::io::Cursor::new(&mut out), format.format) {
        Ok(()) => Ok(out),
        Err(e) => Err(e.to_string()),
    }
}

fn copy_bytes(v: &[u8]) -> (r: Vec<u8>)
    ensures
        r@ == v@,
{
    let mut out: Vec<u8> = Vec::new();
    let mut i: usize = 0;
    while i < v.len()
        invariant
            i <= v.len(),
            out@ == v@.take(i as int),
        decreases v.len() - i,
    {
        out.push(v[i]);
        assert(v@.take(i + 1) =~= v@.take(i as int).push(v@[i as int]));
        i = i + 1;
    }
    assert(v@.take(v.len() as int) =~= v@);
    out
}

/// Encode a `w`×`h` RGBA buffer in the format of `ext` (lower case). JPEG
/// has no alpha channel, so its pixels are flattened to RGB first; every
/// other extension is written in the format the `image` crate names for
/// it, PNG when it names none ([`save_key`]), and a buffer shorter than
/// `w`×`h` pixels is refused with `buffer size mismatch`. A longer one is
/// not accepted: the encoders assert the exact length.
pub fn encode_image(rgba: &[u8], w: u32, h: u32, ext: &str) -> (r: Result<Vec<u8>, String>)
    requires
        is_jpeg_ext(ext@) ==> rgba.len() / 4 == w * h,
        !is_jpeg_ext(ext@) ==> rgba.len() <= 4 * w * h,
    ensures
        is_jpeg_ext(ext@) ==> bytes_or_message(r) == jpeg_encoding(rgb_of(rgba@), w, h),
        !is_jpeg_ext(ext@) && 4 * w * h > rgba.len() ==> (r matches Err(m) && m@
            == "buffer size mismatch"@),
        !is_jpeg_ext(ext@) && 4 * w * h == rgba.len() ==> bytes_or_message(r) == rgba_encoding(
            save_key(ext@),
            rgba@,
            w,
            h,
        ),
{
    let e = chars_of(ext);
    if jpeg_ext(&e) {
        let rgb = flatten_alpha(rgba);
        assert(3 * (rgba.len() / 4) == 3 * w * h) by (nonlinear_arith)
            requires
                rgba.len() / 4 == w * h,
        ;
        encode_jpeg_rgb(&rgb, w, h)
    } else {
        let format = match format_from_extension(ext) {
            Some(f) => f,
            None => {
                proof {
                    reveal_strlit("png");
                    assert(lower_seq("png"@) =~= "png"@);
                }
                match format_from_extension("png") {
                    Some(f) => f,
                    None => {
                        proof {
                            assert(false);
                        }
                        return Err(String::from_str("buffer size mismatch"));
                    },
                }
            },
        };
        assert((w as u128) * (h as u128) <= 0xffff_ffff_ffff_ffff) by (nonlinear_arith)
            requires
                w <= 0xffff_ffff,
                h <= 0xffff_ffff,
        ;
        let need: u128 = 4 * ((w as u128) * (h as u128));
        assert(need == 4 * w * h) by (nonlinear_arith)
            requires
                need == 4 * ((w as u128) * (h as u128)),
        ;
        if (rgba.len() as u128) < need {
            Err(String::from_str("buffer size mismatch"))
        } else {
            write_rgba_to(copy_bytes(rgba), w, h, format)
        }
    }
}

} // verus!
