//! Which files are bitmap images.
use crate::globals::{self, extension_of};
use crate::io::{self, is_bitmap_extension, raster, FileKind};
use crate::path::{self, FilePath};
use crate::preview::svg_preview;
use crate::text;
use vstd::prelude::*;

verus! {

broadcast use {vstd::seq::group_seq_axioms, vstd::seq_lib::group_seq_properties};

/// Whether `path` is named as a bitmap image.
pub open spec fn named_image(path: Seq<u8>) -> bool {
    match path::extension(path) {
        Some(ext) => io::bitmap_extension(text::lowercase_text(text::lossy_text(ext))),
        None => false,
    }
}

/// Whether `path` is named as a bitmap image. The case of an ASCII extension does not
/// matter.
pub fn is_image(path: &FilePath) -> (is: bool)
    ensures
        is == named_image(path@),
        globals::ascii_extension(path@) ==> is == io::bitmap_extension(
            globals::ascii_lowered_extension(path@),
        ),
        is ==> !raster::named_svg(path@),
{
    if path.extension().is_none() {
        proof {
            lemma_known_extensions(Seq::empty());
        }
        return false;
    }
    proof {
        lemma_known_extensions(globals::ascii_lowered_extension(path@));
        lemma_drawings_are_named_in_ascii(path@);
    }
    is_bitmap_extension(extension_of(path).as_str())
}

proof fn lemma_known_extensions(ext: Seq<char>)
    ensures
        io::bitmap_extension(ext) ==> ext.len() > 0 && ext != "svg"@,
        ext == "svg"@ ==> ext.len() > 0,
{
    reveal_strlit("png");
    reveal_strlit("jpg");
    reveal_strlit("jpeg");
    reveal_strlit("gif");
    reveal_strlit("bmp");
    reveal_strlit("webp");
    reveal_strlit("ico");
    reveal_strlit("tiff");
    reveal_strlit("tif");
    reveal_strlit("svg");
    let svg = "svg"@;
    assert(svg.len() == 3 && svg[0] == 's');
}

/// The extension of an SVG, with its letters lowered, is `svg`, and it is ASCII. Of the
/// ASCII extensions no other is that.
pub(crate) proof fn lemma_drawings_are_named_in_ascii(path: Seq<u8>)
    ensures
        raster::named_svg(path) ==> globals::ascii_extension(path),
        globals::ascii_extension(path) ==> (raster::named_svg(path)
            <==> globals::ascii_lowered_extension(path) == "svg"@),
{
    match path::extension(path) {
        Some(ext) => {
            svg_preview::law_an_svg_is_named_in_ascii(ext);
            if text::ascii_bytes(ext) {
                text::lemma_ascii_bytes(ext);
            }
        },
        None => {
            lemma_known_extensions(Seq::empty());
        },
    }
}

/// An entry that is no directory is shown as an image exactly when it is named as a
/// bitmap or its extension, in lowercase, is that of an SVG, and never for both
/// reasons. Without an extension it is neither.
pub proof fn law_images_are_bitmaps_and_drawings(path: Seq<u8>)
    ensures
        io::kind_of(path, false) == FileKind::Image <==> (named_image(path)
            || globals::lowered_extension(path) == "svg"@),
        !(named_image(path) && globals::lowered_extension(path) == "svg"@),
        path::extension(path) is None ==> io::kind_of(path, false) == FileKind::Text
            && !named_image(path) && !raster::named_svg(path),
{
    lemma_known_extensions(globals::lowered_extension(path));
}

/// Two entries whose extensions differ in nothing but the case of ASCII letters are
/// both named as an SVG, or neither is.
pub proof fn law_the_case_of_a_drawing_does_not_matter(path: Seq<u8>, other: Seq<u8>)
    requires
        match (path::extension(path), path::extension(other)) {
            (Some(a), Some(b)) => a.len() == b.len() && forall|i: int|
                0 <= i < a.len() ==> raster::same_letter(#[trigger] a[i], b[i]),
            (None, None) => true,
            _ => false,
        },
    ensures
        raster::named_svg(path) == raster::named_svg(other),
{
    if let (Some(a), Some(b)) = (path::extension(path), path::extension(other)) {
        if a.len() == 3 {
            assert(raster::same_letter(a[0], b[0]));
            assert(raster::same_letter(a[1], b[1]));
            assert(raster::same_letter(a[2], b[2]));
        }
    }
}

} // verus!
