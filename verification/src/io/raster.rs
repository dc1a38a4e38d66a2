//! Turning image files into pixels.
use crate::error::{self, Errx, ErrxView, Fault, FaultView, KindxView, Resultx};
use crate::path::{self, FilePath};
use crate::text::{self, cat};
use vstd::prelude::*;

verus! {

broadcast use {vstd::seq::group_seq_axioms, vstd::seq_lib::group_seq_properties};

/// A parsed SVG, as usvg has it.
#[verifier::external_type_specification]
#[verifier::external_body]
pub struct ExTree(resvg::usvg::Tree);

/// Why usvg could not parse an SVG.
#[verifier::external_type_specification]
#[verifier::external_body]
pub struct ExSvgError(resvg::usvg::Error);

/// Why the image crate could not decode a bitmap.
#[verifier::external_type_specification]
#[verifier::external_body]
pub struct ExImageError(image::ImageError);

/// An image as rows of pixels, four bytes to the pixel.
#[derive(Debug)]
pub struct Pixels {
    pub width: u32,
    pub height: u32,
    pub rgba: Vec<u8>,
}

impl Pixels {
    /// There are bytes for every pixel.
    pub open spec fn wf(&self) -> bool {
        self.width * self.height * 4 <= self.rgba@.len()
    }
}

/// Whether bytes begin as a gzip file does.
pub open spec fn gzipped(data: Seq<u8>) -> bool {
    data.len() >= 2 && data[0] == 0x1f && data[1] == 0x8b
}

/// Whether bytes cannot be a drawing because they are no text: they are neither UTF-8
/// nor compressed.
pub open spec fn not_text(data: Seq<u8>) -> bool {
    !gzipped(data) && !vstd::utf8::valid_utf8(data)
}

/// Whether `usvg::Tree::from_data` makes a drawing of these bytes.
pub uninterp spec fn svg_parses(data: Seq<u8>) -> bool;

/// The size in whole pixels, the width first, that these bytes give a drawing themselves,
/// by the width and the height or the view box of its root. `None` where the drawing is
/// as large as what it holds.
pub uninterp spec fn svg_own_size(data: Seq<u8>) -> Option<(u32, u32)>;

/// Whether a drawing of these bytes may be of this size: there is a pixel either way, and
/// where the bytes give the size, it is that.
pub open spec fn may_measure(data: Seq<u8>, size: (u32, u32)) -> bool {
    size.0 > 0 && size.1 > 0 && (svg_own_size(data) matches Some(own) ==> size == own)
}

/// `usvg::Tree::from_data` with the default options, and `Tree::size` of what it makes in
/// whole pixels, as `Size::to_int_size` rounds it, the width first. Whether it succeeds
/// depends on the bytes alone, and bytes that are neither UTF-8 nor compressed are
/// refused. The size is at least one either way, and depends on the bytes alone where
/// they give it. A drawing may name other files, which are read where they are found, so
/// the size of one that is as large as what it holds is not said, nor what any holds.
#[verifier::external_body]
fn parse_svg(data: &[u8]) -> (parsed: Result<
    (resvg::usvg::Tree, (u32, u32)),
    resvg::usvg::Error,
>)
    ensures
        (parsed is Ok) == svg_parses(data@),
        not_text(data@) ==> parsed is Err,
        parsed matches Ok(made) ==> made.1.0 > 0 && made.1.1 > 0,
        parsed matches Ok(made) ==> (svg_own_size(data@) matches Some(own) ==> made.1 == own),
{
    let tree = resvg::usvg::Tree::from_data(data, &resvg::usvg::Options::default())?;
    let size = tree.size().to_int_size();
    Ok((tree, (size.width(), size.height())))
}

/// What a `usvg::Error` says of itself. Nothing is said of the words.
#[verifier::external_body]
fn svg_error_text(fault: &resvg::usvg::Error) -> (words: String) {
    fault.to_string()
}

/// Whether a drawing surface of this size can be had.
pub open spec fn drawable(width: u32, height: u32) -> bool {
    width > 0 && height > 0 && width * 4 <= i32::MAX
}

/// `resvg::render` onto a `tiny_skia::Pixmap` of the given size: four bytes for every
/// pixel. There is no surface where a side is empty, or where a row takes more bytes
/// than the surface can count. What the drawing looks like is not said.
#[verifier::external_body]
fn draw_svg(tree: &resvg::usvg::Tree, size: (u32, u32)) -> (rgba: Option<Vec<u8>>)
    requires
        size.0 * size.1 * 4 <= isize::MAX,
    ensures
        match rgba {
            Some(rgba) => drawable(size.0, size.1) && rgba@.len() == size.0 * size.1 * 4,
            None => !drawable(size.0, size.1),
        },
{
    let mut surface = resvg::tiny_skia::Pixmap::new(size.0, size.1)?;
    let unmoved = resvg::tiny_skia::Transform::default();
    resvg::render(tree, unmoved, &mut surface.as_mut());
    Some(surface.take())
}

/// The width and the height of the bitmap that `image::load_from_memory_with_format`
/// finds in these bytes, in the format that `ImageFormat::from_path` gives for `path`.
/// `None` where there is no such format, or the bytes are no such bitmap.
pub uninterp spec fn bitmap_size(path: Seq<char>, data: Seq<u8>) -> Option<(u32, u32)>;

/// `image::load_from_memory_with_format` in the format that `ImageFormat::from_path`
/// gives for `path`, as an `RgbaImage`: its width, its height and at least four bytes
/// for every pixel. Whether it succeeds and how large the picture is depend on the path
/// and the bytes alone. The decoders choose their arithmetic by the processor they run
/// on, so what the picture looks like is not said.
#[verifier::external_body]
fn decode_bitmap(path: &str, data: &[u8]) -> (decoded: Result<
    (u32, u32, Vec<u8>),
    image::ImageError,
>)
    ensures
        (decoded is Ok) == (bitmap_size(path@, data@) is Some),
        decoded matches Ok(parts) ==> bitmap_size(path@, data@) == Some((parts.0, parts.1))
            && parts.0 * parts.1 * 4 <= parts.2@.len(),
{
    let format = image::ImageFormat::from_path(path)?;
    let picture = image::load_from_memory_with_format(data, format)?.into_rgba8();
    Ok((picture.width(), picture.height(), picture.into_raw()))
}

/// What an `image::ImageError` and the errors below it, found by `Error::source`, say
/// of themselves. Nothing is said of the words; there is no error number.
#[verifier::external_body]
fn image_fault(fault: &image::ImageError) -> (told: Fault)
    ensures
        told.code is None,
{
    let below = std::iter::successors(std::error::Error::source(fault), |error| error.source());
    Fault { text: fault.to_string(), causes: below.map(|e| e.to_string()).collect(), code: None }
}

/// Two ASCII letters that differ in case alone, or the same byte.
pub open spec fn same_letter(a: u8, b: u8) -> bool {
    lower_byte(a) == lower_byte(b)
}

/// The lowercase of one ASCII letter; any other byte is left alone.
pub open spec fn lower_byte(byte: u8) -> int {
    if 65 <= byte <= 90 {
        byte + 32
    } else {
        byte as int
    }
}

/// Whether an extension is `svg`, in whatever case.
pub open spec fn svg_extension(ext: Seq<u8>) -> bool {
    ext.len() == 3 && same_letter(ext[0], 115) && same_letter(ext[1], 118) && same_letter(
        ext[2],
        103,
    )
}

/// Whether `path` is named as an SVG.
pub open spec fn named_svg(path: Seq<u8>) -> bool {
    match path::extension(path) {
        Some(ext) => svg_extension(ext),
        None => false,
    }
}

/// Whether `path` is named as an SVG.
pub fn is_svg(path: &FilePath) -> (is: bool)
    ensures
        is == named_svg(path@),
{
    match path.extension() {
        Some(ext) => ext.len() == 3 && (ext[0] == 115 || ext[0] == 83) && (ext[1] == 118 || ext[1]
            == 86) && (ext[2] == 103 || ext[2] == 71),
        None => false,
    }
}

/// Why an image could not be made.
#[derive(Debug)]
pub enum RasterFault {
    /// The file is not a drawing.
    Parsing(Fault),
    /// The drawing has no area to draw.
    NoArea,
    /// There are too few bytes for the pixels.
    TooShort,
}

/// Rows of pixels out of bytes, where there are enough of them.
pub fn framed(width: u32, height: u32, rgba: Vec<u8>) -> (pixels: Option<Pixels>)
    ensures
        match pixels {
            Some(pixels) => {
                &&& pixels.wf()
                &&& pixels == (Pixels { width, height, rgba })
            },
            None => rgba@.len() < width * height * 4,
        },
{
    proof {
        assert(width * height <= u32::MAX * u32::MAX) by (nonlinear_arith)
            requires
                width <= u32::MAX,
                height <= u32::MAX,
        ;
    }
    if (width as u128) * (height as u128) * 4 <= rgba.len() as u128 {
        Some(Pixels { width, height, rgba })
    } else {
        None
    }
}

/// Whether the bytes of a drawing of this size, its width first, can be held at all.
pub open spec fn has_room(size: (u32, u32)) -> bool {
    size.0 * size.1 * 4 <= isize::MAX
}

/// Whether the bytes of a drawing of this size, its width first, can be held at all.
pub fn fits(size: (u32, u32)) -> (does: bool)
    ensures
        does == has_room(size),
{
    proof {
        let (width, height) = size;
        assert(width * height <= u32::MAX * u32::MAX) by (nonlinear_arith)
            requires
                width <= u32::MAX,
                height <= u32::MAX,
        ;
    }
    (size.0 as u128) * (size.1 as u128) * 4 <= isize::MAX as u128
}

/// A drawing of this size, its width first, as pixels, out of what drawing it gave.
pub fn drawn(size: (u32, u32), rgba: Option<Vec<u8>>) -> (pixels: Result<Pixels, RasterFault>)
    ensures
        match rgba {
            None => pixels == Err::<Pixels, RasterFault>(RasterFault::NoArea),
            Some(rgba) => if size.0 * size.1 * 4 <= rgba@.len() {
                pixels == Ok::<Pixels, RasterFault>(Pixels { width: size.0, height: size.1, rgba })
            } else {
                pixels == Err::<Pixels, RasterFault>(RasterFault::TooShort)
            },
        },
{
    match rgba {
        Some(rgba) => match framed(size.0, size.1, rgba) {
            Some(pixels) => Ok(pixels),
            None => Err(RasterFault::TooShort),
        },
        None => Err(RasterFault::NoArea),
    }
}

/// Whether pixels are those of a picture of this size, its width first, and no more.
pub open spec fn measures(pixels: Pixels, size: (u32, u32)) -> bool {
    pixels.width == size.0 && pixels.height == size.1 && pixels.rgba@.len() == size.0 * size.1 * 4
}

/// What comes of drawing at this size: a picture of it, where there can be one, and else
/// there is no area to draw.
pub open spec fn outcome_at(size: (u32, u32), pixels: Result<Pixels, RasterFault>) -> bool {
    match pixels {
        Ok(pixels) => drawable(size.0, size.1) && has_room(size) && measures(pixels, size),
        Err(fault) => !(drawable(size.0, size.1) && has_room(size)) && fault is NoArea,
    }
}

/// A drawing as pixels, at this size, its width first. More bytes than can be held at all
/// is more than can be drawn.
pub fn at_size(tree: &resvg::usvg::Tree, size: (u32, u32)) -> (pixels: Result<
    Pixels,
    RasterFault,
>)
    ensures
        outcome_at(size, pixels),
{
    if !fits(size) {
        return Err(RasterFault::NoArea);
    }
    drawn(size, draw_svg(tree, size))
}

/// A drawing as pixels, at its natural size.
pub fn rasterized(data: &[u8]) -> (pixels: Result<Pixels, RasterFault>)
    ensures
        (pixels matches Err(fault) && fault is Parsing) == !svg_parses(data@),
        not_text(data@) ==> !svg_parses(data@),
        svg_parses(data@) ==> exists|size: (u32, u32)| #[trigger]
            may_measure(data@, size) && outcome_at(size, pixels),
{
    match parse_svg(data) {
        Ok((tree, size)) => {
            proof {
                assert(may_measure(data@, size));
            }
            at_size(&tree, size)
        },
        Err(error) => {
            let causes: Vec<String> = Vec::new();
            Err(RasterFault::Parsing(Fault { text: svg_error_text(&error), causes, code: None }))
        },
    }
}

/// What is said when `path` could not be turned into pixels.
pub open spec fn raster_error(path: Seq<u8>, fault: RasterFault) -> ErrxView {
    match fault {
        RasterFault::Parsing(fault) => error::over(
            KindxView::Any("parsing "@ + text::lossy_text(path)),
            fault@,
        ),
        RasterFault::NoArea => error::plain_error(
            text::lossy_text(path) + " has no drawable area"@,
        ),
        RasterFault::TooShort => error::plain_error("rasterizing "@ + text::lossy_text(path)),
    }
}

/// The error for an image that could not be made.
pub fn explained(path: &FilePath, fault: RasterFault) -> (errx: Errx)
    ensures
        errx@ == raster_error(path@, fault),
        errx.traced(),
{
    match fault {
        RasterFault::Parsing(fault) => Errx::e_any(
            fault,
            cat("parsing ", path.display().as_str()),
        ),
        RasterFault::NoArea => Errx::any(
            cat(path.display().as_str(), " has no drawable area"),
        ),
        RasterFault::TooShort => Errx::any(cat("rasterizing ", path.display().as_str())),
    }
}

/// What comes of the SVG at `path`, drawn at this size: a picture of it, where there can
/// be one, and else the error that there is no area to draw.
pub open spec fn picture_at(path: Seq<u8>, size: (u32, u32), pixels: Resultx<Pixels>) -> bool {
    match pixels {
        Ok(pixels) => drawable(size.0, size.1) && has_room(size) && measures(pixels, size),
        Err(errx) => !(drawable(size.0, size.1) && has_room(size)) && errx@ == raster_error(
            path,
            RasterFault::NoArea,
        ),
    }
}

/// What may come of rasterizing the SVG at `path`: where the bytes are no drawing, that
/// is the error; where they are one, it is drawn at its size.
pub open spec fn raster_outcome(path: Seq<u8>, data: Seq<u8>, pixels: Resultx<Pixels>) -> bool {
    if svg_parses(data) {
        exists|size: (u32, u32)| #[trigger]
            may_measure(data, size) && picture_at(path, size, pixels)
    } else {
        pixels matches Err(errx) && exists|fault: Fault| #[trigger]
            raster_error(path, RasterFault::Parsing(fault)) == errx@
    }
}

/// The SVG at `path` as pixels, at its natural size. `data` is what came back when
/// the file was read.
pub fn rasterize_svg(path: &FilePath, data: Result<Vec<u8>, Fault>) -> (pixels: Resultx<Pixels>)
    ensures
        data matches Err(fault) ==> (pixels matches Err(errx) && errx@ == error::io_error(
            fault@,
            "reading "@ + text::lossy_text(path@),
        )),
        pixels matches Ok(pixels) ==> pixels.wf() && drawable(pixels.width, pixels.height),
        pixels matches Err(errx) ==> errx.traced(),
        data matches Ok(data) ==> raster_outcome(path@, data@, pixels),
{
    match data {
        Err(fault) => Err(Errx::e_io(fault, cat("reading ", path.display().as_str()))),
        Ok(data) => match rasterized(data.as_slice()) {
            Ok(pixels) => Ok(pixels),
            Err(fault) => {
                let ghost given = fault;
                let errx = explained(path, fault);
                proof {
                    if let RasterFault::Parsing(fault) = given {
                        assert(raster_error(path@, RasterFault::Parsing(fault)) == errx@);
                    }
                }
                Err(errx)
            },
        },
    }
}

/// The error over a bitmap that could not be decoded.
pub open spec fn undecoded(path: Seq<u8>, fault: FaultView) -> ErrxView {
    error::over(KindxView::Any("decoding "@ + text::lossy_text(path)), fault)
}

/// The bitmap at `path` as pixels, out of what decoding it gave.
pub fn bitmap(path: &FilePath, decoded: Result<(u32, u32, Vec<u8>), Fault>) -> (pixels: Resultx<
    Pixels,
>)
    requires
        decoded matches Ok(parts) ==> parts.0 * parts.1 * 4 <= parts.2@.len(),
    ensures
        match decoded {
            Ok(parts) => pixels matches Ok(pixels) && pixels.wf() && pixels.width == parts.0
                && pixels.height == parts.1 && pixels.rgba@ == parts.2@,
            Err(fault) => pixels matches Err(errx) && errx@ == undecoded(path@, fault@)
                && errx.traced(),
        },
{
    match decoded {
        Ok((width, height, rgba)) => Ok(Pixels { width, height, rgba }),
        Err(fault) => Err(Errx::e_any(fault, cat("decoding ", path.display().as_str()))),
    }
}

/// What may come of decoding the bitmap at `path`: pixels where there is a bitmap, as
/// wide and as high as it is, and the error where there is none.
pub open spec fn bitmap_outcome(
    path: Seq<u8>,
    size: Option<(u32, u32)>,
    pixels: Resultx<Pixels>,
) -> bool {
    match (size, pixels) {
        (Some(size), Ok(pixels)) => pixels.width == size.0 && pixels.height == size.1,
        (None, Err(errx)) => exists|fault: FaultView| #[trigger]
            undecoded(path, fault) == errx@,
        _ => false,
    }
}

/// Decodes the file at `path` into pixels: an SVG is rasterized at its natural size.
/// `data` is what came back when the file was read.
pub fn load(path: &FilePath, data: Result<Vec<u8>, Fault>) -> (pixels: Resultx<Pixels>)
    ensures
        data matches Err(fault) ==> (pixels matches Err(errx) && errx@ == if named_svg(path@) {
            error::io_error(fault@, "reading "@ + text::lossy_text(path@))
        } else {
            undecoded(path@, fault@)
        }),
        pixels matches Ok(pixels) ==> pixels.wf(),
        pixels matches Ok(pixels) ==> (named_svg(path@) ==> drawable(pixels.width, pixels.height)),
        pixels matches Err(errx) ==> errx.traced(),
        data matches Ok(data) ==> if named_svg(path@) {
            raster_outcome(path@, data@, pixels)
        } else {
            bitmap_outcome(path@, bitmap_size(text::lossy_text(path@), data@), pixels)
        },
{
    if is_svg(path) {
        return rasterize_svg(path, data);
    }
    let decoded = match data {
        Err(fault) => Err(fault),
        Ok(data) => match decode_bitmap(path.display().as_str(), data.as_slice()) {
            Ok(parts) => Ok(parts),
            Err(error) => Err(image_fault(&error)),
        },
    };
    let ghost told = decoded;
    let pixels = bitmap(path, decoded);
    proof {
        assert(told matches Err(fault) ==> undecoded(path@, fault@) == pixels->Err_0@);
    }
    pixels
}

} // verus!
