//! Turning an SVG document into an image.

use crate::markup;
use crate::number;
use crate::staticmap::Format;
use resvg::tiny_skia::Pixmap;
use resvg::usvg::fontdb::Database;
use resvg::usvg::Tree;
use std::sync::Arc;
use vstd::prelude::*;
use vstd::string::*;
use vstd::utf8::*;

verus! {

/// `fontdb::Database`, the fonts that texts are set in.
#[verifier::external_type_specification]
#[verifier::external_body]
pub struct ExDatabase(Database);

/// `usvg::Tree`, a parsed document.
#[verifier::external_type_specification]
#[verifier::external_body]
pub struct ExTree(Tree);

/// `usvg::Error`, why a document cannot be parsed.
#[verifier::external_type_specification]
#[verifier::external_body]
pub struct ExSvgError(resvg::usvg::Error);

/// `tiny_skia::Pixmap`, an image in memory.
#[verifier::external_type_specification]
#[verifier::external_body]
pub struct ExPixmap(Pixmap);

/// Whether the parser accepts a document.
pub uninterp spec fn svg_accepted(svg: Seq<char>) -> bool;

/// Whether a tree is what the parser makes of a document, with the given
/// default font family and the given fonts.
pub uninterp spec fn parses_to(
    svg: Seq<char>,
    font_family: Seq<char>,
    fonts: Database,
    tree: Tree,
) -> bool;

/// An empty pixmap of the given width and height.
pub uninterp spec fn blank(width: u32, height: u32) -> Pixmap;

/// Whether a pixmap is what drawing a tree makes of another one. The renderer
/// may round differently from one machine to the next.
pub uninterp spec fn draws(before: Pixmap, tree: Tree, after: Pixmap) -> bool;

/// A pixmap as a PNG file, if it can be encoded.
pub uninterp spec fn png_of(pixmap: Pixmap) -> Option<Seq<u8>>;

/// The bytes of a pixmap: its pixels row by row, each as red, green, blue and
/// alpha.
pub uninterp spec fn rgba_of(pixmap: Pixmap) -> Seq<u8>;

/// Pixels, each as red, green and blue, as a JPEG file of the given width,
/// height and quality.
pub uninterp spec fn jpeg_of(rgb: Seq<u8>, width: u32, height: u32, quality: u8) -> Seq<u8>;

/// Whether a pixmap can have this size: neither side is zero, and the bytes of
/// a row can be counted in 31 bits.
pub open spec fn pixmap_fits(width: u32, height: u32) -> bool {
    width > 0 && height > 0 && 4 * width <= i32::MAX
}

/// Whether a JPEG file can have this size: either side is counted in 16 bits
/// and is not zero.
pub open spec fn jpeg_fits(width: u32, height: u32) -> bool {
    0 < width <= u16::MAX && 0 < height <= u16::MAX
}

/// `resvg::usvg::Tree::from_str`, with the default options but for the fonts
/// and the default font family: a tree that the parser makes of the document.
/// Whether there is one depends on the document alone: it is refused where it
/// is not well-formed XML, where it has too many elements or nests them too
/// deep, and where its root has no valid size. Which documents these are is
/// named and not spelled out, and so is what the tree holds. Documents with
/// other elements and attributes than maps have are left out: the parser panics
/// on some filters.
#[verifier::external_body]
fn parse_svg(svg: &str, font_family: &str, fonts: &Arc<Database>) -> (r: Result<
    Tree,
    resvg::usvg::Error,
>)
    requires
        markup::drawable(svg@),
    ensures
        r is Ok <==> svg_accepted(svg@),
        r matches Ok(tree) ==> parses_to(svg@, font_family@, **fonts, tree),
{
    let mut options = resvg::usvg::Options::default();
    options.fontdb = fonts.clone();
    options.font_family = font_family.to_string();
    Tree::from_str(svg, &options)
}

/// What an error of `resvg::usvg` says of itself. Nothing is promised of the
/// text.
#[verifier::external_body]
fn svg_error_text(e: &resvg::usvg::Error) -> String {
    e.to_string()
}

/// `resvg::tiny_skia::Pixmap::new`: an empty pixmap of the given size, if a
/// pixmap can have it; its bytes, four for each pixel, are zero. Sizes whose
/// bytes cannot be counted are left out: there the allocation panics.
#[verifier::external_body]
fn new_pixmap(width: u32, height: u32) -> (r: Option<Pixmap>)
    requires
        4 * width * height <= isize::MAX,
    ensures
        r == if pixmap_fits(width, height) {
            Some(blank(width, height))
        } else {
            None
        },
        r matches Some(p) ==> rgba_of(p) == Seq::new((4 * width * height) as nat, |i: int| 0u8),
{
    Pixmap::new(width, height)
}

/// Whether a tree is made of a document that can be drawn.
pub open spec fn drawable_tree(tree: Tree) -> bool {
    exists|svg: Seq<char>, font_family: Seq<char>, fonts: Database| #[trigger]
        parses_to(svg, font_family, fonts, tree) && markup::drawable(svg)
}

/// `resvg::render`, without a transformation: it draws a tree over what the
/// pixmap shows, whose size stays. What the result shows is named and not
/// spelled out. Trees of other documents are left out: the renderer can
/// overflow in some filters.
#[verifier::external_body]
fn draw_tree(tree: &Tree, pixmap: &mut Pixmap)
    requires
        drawable_tree(*tree),
    ensures
        draws(*old(pixmap), *tree, *final(pixmap)),
        rgba_of(*final(pixmap)).len() == rgba_of(*old(pixmap)).len(),
{
    resvg::render(tree, resvg::tiny_skia::Transform::default(), &mut pixmap.as_mut());
}

/// `resvg::tiny_skia::Pixmap::encode_png`: a PNG file, or what the encoder says
/// is wrong. Nothing is promised of that text.
#[verifier::external_body]
fn encode_png(pixmap: &Pixmap) -> (r: Result<Vec<u8>, String>)
    ensures
        match r {
            Ok(bytes) => png_of(*pixmap) == Some(bytes@),
            Err(_) => png_of(*pixmap) is None,
        },
{
    pixmap.encode_png().map_err(|e| e.to_string())
}

/// `resvg::tiny_skia::Pixmap::data`: the bytes of a pixmap.
#[verifier::external_body]
fn pixmap_bytes(pixmap: &Pixmap) -> (r: &[u8])
    ensures
        r@ == rgba_of(*pixmap),
{
    pixmap.data()
}

/// `image::codecs::jpeg::JpegEncoder::encode`, with the given quality: a JPEG
/// file, or what the encoder says is wrong. Sizes that a JPEG file cannot have
/// are all that is wrong; nothing is promised of the text. Pixels that do not
/// fill the size are left out: there the encoder panics.
#[verifier::external_body]
fn encode_jpeg(rgb: &[u8], width: u32, height: u32, quality: u8) -> (r: Result<Vec<u8>, String>)
    requires
        rgb@.len() == 3 * width * height,
    ensures
        match r {
            Ok(bytes) => jpeg_fits(width, height) && bytes@ == jpeg_of(rgb@, width, height, quality),
            Err(_) => !jpeg_fits(width, height),
        },
{
    let mut file = Vec::new();
    let mut encoder = image::codecs::jpeg::JpegEncoder::new_with_quality(&mut file, quality);
    match encoder.encode(rgb, width, height, image::ExtendedColorType::Rgb8) {
        Ok(()) => Ok(file),
        Err(e) => Err(e.to_string()),
    }
}

/// Why a document cannot be turned into an image.
#[derive(Debug)]
pub enum RasterError {
    /// The document is not an SVG document.
    Svg { cause: String },
    /// There is no pixmap of that size.
    Pixmap { width: u32, height: u32 },
    /// The image cannot be encoded as a PNG file.
    Png { cause: String },
    /// The image cannot be encoded as a JPEG file.
    Jpeg { cause: String },
}

/// The text of an error.
pub open spec fn raster_error_text(e: RasterError) -> Seq<char> {
    match e {
        RasterError::Svg { cause } => cause@,
        RasterError::Pixmap { width, height } => "failed to allocate "@ + number::decimal(
            width as nat,
        ) + "x"@ + number::decimal(height as nat) + " pixmap"@,
        RasterError::Png { cause } => "failed to encode png: "@ + cause@,
        RasterError::Jpeg { cause } => cause@,
    }
}

impl RasterError {
    /// What the error says.
    pub fn message(&self) -> (r: String)
        ensures
            r@ == raster_error_text(*self),
    {
        match self {
            RasterError::Svg { cause } => cause.clone(),
            RasterError::Pixmap { width, height } => {
                let w = number::to_decimal(*width as u64);
                let h = number::to_decimal(*height as u64);
                let mut r = "failed to allocate ".to_owned();
                r.append(w.as_str());
                r.append("x");
                r.append(h.as_str());
                r.append(" pixmap");
                r
            },
            RasterError::Jpeg { cause } => cause.clone(),
            RasterError::Png { cause } => {
                let mut r = "failed to encode png: ".to_owned();
                r.append(cause.as_str());
                r
            },
        }
    }
}

/// Whether a pixmap of the given size shows a document and nothing else, with
/// texts set in the given fonts.
pub open spec fn shows(
    pixmap: Pixmap,
    svg: Seq<char>,
    fonts: Database,
    width: u32,
    height: u32,
) -> bool {
    exists|tree: Tree| #[trigger]
        parses_to(svg, "Arial"@, fonts, tree) && draws(blank(width, height), tree, pixmap)
}

/// Draws a parsed document on a pixmap of the given size.
pub fn draw_document(tree: &Tree, width: u32, height: u32) -> (r: Result<Pixmap, RasterError>)
    requires
        drawable_tree(*tree),
        4 * width * height <= isize::MAX,
    ensures
        match r {
            Ok(p) => {
                &&& pixmap_fits(width, height)
                &&& draws(blank(width, height), *tree, p)
                &&& rgba_of(p).len() == 4 * width * height
            },
            Err(e) => !pixmap_fits(width, height) && e == (RasterError::Pixmap { width, height }),
        },
{
    match new_pixmap(width, height) {
        Some(mut pixmap) => {
            draw_tree(tree, &mut pixmap);
            Ok(pixmap)
        },
        None => Err(RasterError::Pixmap { width, height }),
    }
}

/// Draws a document on a pixmap of the given size. Texts without a font family
/// are set in Arial.
pub fn rasterize(svg: &str, width: u32, height: u32, fonts: &Arc<Database>) -> (r: Result<
    Pixmap,
    RasterError,
>)
    requires
        markup::drawable(svg@),
        4 * width * height <= isize::MAX,
    ensures
        match r {
            Ok(p) => {
                &&& svg_accepted(svg@)
                &&& pixmap_fits(width, height)
                &&& shows(p, svg@, **fonts, width, height)
                &&& rgba_of(p).len() == 4 * width * height
            },
            Err(RasterError::Svg { .. }) => !svg_accepted(svg@),
            Err(e) => {
                &&& svg_accepted(svg@)
                &&& !pixmap_fits(width, height)
                &&& e == (RasterError::Pixmap { width, height })
            },
        },
{
    match parse_svg(svg, "Arial", fonts) {
        Ok(tree) => draw_document(&tree, width, height),
        Err(e) => Err(RasterError::Svg { cause: svg_error_text(&e) }),
    }
}

/// Whether a result is what comes of turning a document into a PNG file.
pub open spec fn png_outcome(
    r: Result<Vec<u8>, RasterError>,
    svg: Seq<char>,
    width: u32,
    height: u32,
    fonts: Database,
) -> bool {
    match r {
        Ok(bytes) => {
            &&& svg_accepted(svg)
            &&& pixmap_fits(width, height)
            &&& exists|p: Pixmap| #[trigger]
                shows(p, svg, fonts, width, height) && png_of(p) == Some(bytes@)
        },
        Err(RasterError::Svg { .. }) => !svg_accepted(svg),
        Err(RasterError::Pixmap { width: w, height: h }) => {
            &&& svg_accepted(svg)
            &&& !pixmap_fits(width, height)
            &&& w == width
            &&& h == height
        },
        Err(RasterError::Png { .. }) => {
            &&& svg_accepted(svg)
            &&& pixmap_fits(width, height)
            &&& exists|p: Pixmap| #[trigger]
                shows(p, svg, fonts, width, height) && png_of(p) is None
        },
        Err(RasterError::Jpeg { .. }) => false,
    }
}

/// Turns a document into a PNG file of the given size.
pub fn svg_to_png(svg: &str, width: u32, height: u32, fonts: &Arc<Database>) -> (r: Result<
    Vec<u8>,
    RasterError,
>)
    requires
        markup::drawable(svg@),
        4 * width * height <= isize::MAX,
    ensures
        png_outcome(r, svg@, width, height, **fonts),
{
    match rasterize(svg, width, height, fonts) {
        Ok(pixmap) => match encode_png(&pixmap) {
            Ok(bytes) => Ok(bytes),
            Err(cause) => Err(RasterError::Png { cause }),
        },
        Err(e) => Err(e),
    }
}

/// Pixels without their alpha: of each four bytes the first three.
pub open spec fn without_alpha(rgba: Seq<u8>) -> Seq<u8> {
    Seq::new(3 * (rgba.len() / 4), |i: int| rgba[4 * (i / 3) + i % 3])
}

/// Drops the alpha of each pixel. An incomplete pixel at the end is dropped.
pub fn drop_alpha(rgba: &[u8]) -> (r: Vec<u8>)
    ensures
        r@ == without_alpha(rgba@),
{
    let len: usize = rgba.len();
    let pixels: usize = len / 4;
    let mut rgb: Vec<u8> = Vec::new();
    let mut i: usize = 0;
    while i < pixels
        invariant
            i <= pixels == len / 4,
            len == rgba@.len(),
            rgb@ == without_alpha(rgba@).take(3 * i),
        decreases pixels - i,
    {
        rgb.push(rgba[4 * i]);
        rgb.push(rgba[4 * i + 1]);
        rgb.push(rgba[4 * i + 2]);
        i += 1;
        assert(rgb@ =~= without_alpha(rgba@).take(3 * i));
    }
    assert(without_alpha(rgba@).take(3 * i) =~= without_alpha(rgba@));
    rgb
}

/// Whether a result is what comes of turning a document into a JPEG file of the
/// given quality.
pub open spec fn jpeg_outcome(
    r: Result<Vec<u8>, RasterError>,
    svg: Seq<char>,
    width: u32,
    height: u32,
    quality: u8,
    fonts: Database,
) -> bool {
    match r {
        Ok(bytes) => {
            &&& svg_accepted(svg)
            &&& pixmap_fits(width, height)
            &&& jpeg_fits(width, height)
            &&& exists|p: Pixmap| #[trigger]
                shows(p, svg, fonts, width, height) && bytes@ == jpeg_of(
                    without_alpha(rgba_of(p)),
                    width,
                    height,
                    quality,
                )
        },
        Err(RasterError::Svg { .. }) => !svg_accepted(svg),
        Err(RasterError::Pixmap { width: w, height: h }) => {
            &&& svg_accepted(svg)
            &&& !pixmap_fits(width, height)
            &&& w == width
            &&& h == height
        },
        Err(RasterError::Png { .. }) => false,
        Err(RasterError::Jpeg { .. }) => {
            &&& svg_accepted(svg)
            &&& pixmap_fits(width, height)
            &&& !jpeg_fits(width, height)
        },
    }
}

/// Turns a document into a JPEG file of the given size and quality (1 is the
/// worst, 100 the best). The document's background is opaque, so the colors do
/// not depend on the alpha.
pub fn svg_to_jpeg(
    svg: &str,
    width: u32,
    height: u32,
    quality: u8,
    fonts: &Arc<Database>,
) -> (r: Result<Vec<u8>, RasterError>)
    requires
        markup::drawable(svg@),
        4 * width * height <= isize::MAX,
    ensures
        jpeg_outcome(r, svg@, width, height, quality, **fonts),
{
    match rasterize(svg, width, height, fonts) {
        Ok(pixmap) => {
            let rgb = drop_alpha(pixmap_bytes(&pixmap));
            assert(rgb@.len() == 3 * width * height) by (nonlinear_arith)
                requires
                    rgb@.len() == 3 * ((4 * width * height) / 4),
            ;
            match encode_jpeg(rgb.as_slice(), width, height, quality) {
                Ok(bytes) => Ok(bytes),
                Err(cause) => Err(RasterError::Jpeg { cause }),
            }
        },
        Err(e) => Err(e),
    }
}

/// The quality of JPEG files: the best, since maps have sharp edges and text.
pub const JPEG_QUALITY: u8 = 100;

/// Encodes a document in a format. An SVG file is the document itself; for the
/// other formats the document must be one that can be drawn, as those of maps
/// are.
pub fn encode_image(
    svg: &str,
    width: u32,
    height: u32,
    format: Format,
    fonts: &Arc<Database>,
) -> (r: Result<Vec<u8>, RasterError>)
    requires
        format is Svg || (markup::drawable(svg@) && 4 * width * height <= isize::MAX),
    ensures
        match format {
            Format::Svg => r matches Ok(bytes) && bytes@ == encode_utf8(svg@),
            Format::Png => png_outcome(r, svg@, width, height, **fonts),
            Format::Jpeg => jpeg_outcome(r, svg@, width, height, JPEG_QUALITY, **fonts),
        },
{
    match format {
        Format::Svg => Ok(svg.as_bytes_vec()),
        Format::Png => svg_to_png(svg, width, height, fonts),
        Format::Jpeg => svg_to_jpeg(svg, width, height, JPEG_QUALITY, fonts),
    }
}

/// A pixel keeps its red, its green and its blue, in its place, and loses its
/// alpha.
pub proof fn pixels_keep_their_colors(rgba: Seq<u8>, k: int)
    requires
        0 <= k,
        4 * k + 4 <= rgba.len(),
    ensures
        without_alpha(rgba).len() == 3 * (rgba.len() / 4),
        without_alpha(rgba)[3 * k] == rgba[4 * k],
        without_alpha(rgba)[3 * k + 1] == rgba[4 * k + 1],
        without_alpha(rgba)[3 * k + 2] == rgba[4 * k + 2],
{
    assert((3 * k) / 3 == k && (3 * k + 1) / 3 == k && (3 * k + 2) / 3 == k);
    assert((3 * k) % 3 == 0 && (3 * k + 1) % 3 == 1 && (3 * k + 2) % 3 == 2);
}

/// A PNG file shows the document that was asked for, at the size that was asked
/// for, in the fonts that were given. No size that fits is refused.
pub proof fn png_shows_the_document(
    r: Result<Vec<u8>, RasterError>,
    svg: Seq<char>,
    width: u32,
    height: u32,
    fonts: Database,
)
    requires
        png_outcome(r, svg, width, height, fonts),
    ensures
        r matches Ok(bytes) ==> exists|tree: Tree, p: Pixmap|
            {
                &&& #[trigger] parses_to(svg, "Arial"@, fonts, tree)
                &&& #[trigger] draws(blank(width, height), tree, p)
                &&& png_of(p) == Some(bytes@)
            },
        svg_accepted(svg) && 0 < width && 0 < height && 4 * width <= i32::MAX ==> r is Ok || (r
            matches Err(RasterError::Png { cause })),
        !svg_accepted(svg) ==> (r matches Err(RasterError::Svg { cause })),
        svg_accepted(svg) && (width == 0 || height == 0) ==> (r matches Err(
            RasterError::Pixmap { width: w, height: h },
        ) && w == width && h == height),
{
    if let Ok(bytes) = r {
        let p = choose|p: Pixmap| #[trigger]
            shows(p, svg, fonts, width, height) && png_of(p) == Some(bytes@);
        let tree = choose|tree: Tree| #[trigger]
            parses_to(svg, "Arial"@, fonts, tree) && draws(blank(width, height), tree, p);
        assert(draws(blank(width, height), tree, p));
    }
}

/// A JPEG file shows the document that was asked for, at the size and in the
/// quality that were asked for, in the fonts that were given. No size that fits
/// is refused.
pub proof fn jpeg_shows_the_document(
    r: Result<Vec<u8>, RasterError>,
    svg: Seq<char>,
    width: u32,
    height: u32,
    quality: u8,
    fonts: Database,
)
    requires
        jpeg_outcome(r, svg, width, height, quality, fonts),
    ensures
        r matches Ok(bytes) ==> exists|tree: Tree, p: Pixmap|
            {
                &&& #[trigger] parses_to(svg, "Arial"@, fonts, tree)
                &&& #[trigger] draws(blank(width, height), tree, p)
                &&& bytes@ == jpeg_of(without_alpha(rgba_of(p)), width, height, quality)
            },
        svg_accepted(svg) && 0 < width <= 65535 && 0 < height <= 65535 ==> r is Ok,
        !svg_accepted(svg) ==> (r matches Err(RasterError::Svg { cause })),
{
    if let Ok(bytes) = r {
        let p = choose|p: Pixmap| #[trigger]
            shows(p, svg, fonts, width, height) && bytes@ == jpeg_of(
                without_alpha(rgba_of(p)),
                width,
                height,
                quality,
            );
        let tree = choose|tree: Tree| #[trigger]
            parses_to(svg, "Arial"@, fonts, tree) && draws(blank(width, height), tree, p);
        assert(draws(blank(width, height), tree, p));
    }
}

} // verus!
