//! What is read from the filesystem or asked of another program, as plain data.
//!
//! Nothing here reads or runs anything: each function takes what came back and
//! says what it means, so the rest of the crate can work without knowing how
//! anything was read.
pub mod clipboard;
pub mod clipboard_laws;
pub mod dir;
pub mod file;
pub mod fs_laws;
pub mod fs_ops;
pub mod listing_laws;
pub mod nvim;
pub mod raster;
pub mod tree_laws;
pub mod zoxide;

use crate::globals::{self, extension_of};
use crate::path::FilePath;
use crate::preview::image_preview;
use crate::text::same_text;
use vstd::prelude::*;

verus! {

/// What another program left behind when it ended.
#[derive(Debug)]
pub struct Output {
    pub stdout: Vec<u8>,
    pub stderr: Vec<u8>,
    pub success: bool,
    /// The exit code, unless a signal ended the program.
    pub code: Option<i32>,
}

/// An output over its bytes.
pub struct OutputView {
    pub stdout: Seq<u8>,
    pub stderr: Seq<u8>,
    pub success: bool,
    pub code: Option<i32>,
}

impl View for Output {
    type V = OutputView;

    open spec fn view(&self) -> OutputView {
        OutputView {
            stdout: self.stdout@,
            stderr: self.stderr@,
            success: self.success,
            code: self.code,
        }
    }
}

/// Which preview an entry gets.
#[derive(Debug, Clone, Copy, PartialEq, Eq, Structural)]
pub enum FileKind {
    Dir,
    /// Anything that is turned into pixels: bitmaps and SVGs alike.
    Image,
    Text,
}

/// The extensions of bitmap images, in lowercase.
pub open spec fn bitmap_extension(ext: Seq<char>) -> bool {
    ext == "png"@ || ext == "jpg"@ || ext == "jpeg"@ || ext == "gif"@ || ext == "bmp"@ || ext
        == "webp"@ || ext == "ico"@ || ext == "tiff"@ || ext == "tif"@
}

/// The preview an entry gets by its extension, in lowercase.
pub open spec fn kind_of_extension(ext: Seq<char>) -> FileKind {
    if bitmap_extension(ext) || ext == "svg"@ {
        FileKind::Image
    } else {
        FileKind::Text
    }
}

/// The preview an entry gets.
pub open spec fn kind_of(path: Seq<u8>, is_dir: bool) -> FileKind {
    if is_dir {
        FileKind::Dir
    } else {
        kind_of_extension(globals::lowered_extension(path))
    }
}

/// Whether the extension, in lowercase, is that of a bitmap image.
pub fn is_bitmap_extension(ext: &str) -> (is: bool)
    ensures
        is == bitmap_extension(ext@),
{
    same_text(ext, "png") || same_text(ext, "jpg") || same_text(ext, "jpeg") || same_text(
        ext,
        "gif",
    ) || same_text(ext, "bmp") || same_text(ext, "webp") || same_text(ext, "ico") || same_text(
        ext,
        "tiff",
    ) || same_text(ext, "tif")
}

impl FileKind {
    /// The preview an entry gets by its extension, in lowercase.
    pub fn of_extension(ext: &str) -> (kind: FileKind)
        ensures
            kind == kind_of_extension(ext@),
    {
        if is_bitmap_extension(ext) || same_text(ext, "svg") {
            FileKind::Image
        } else {
            FileKind::Text
        }
    }

    /// The preview an entry gets. The case of an ASCII extension does not matter.
    pub fn of(path: &FilePath, is_dir: bool) -> (kind: FileKind)
        ensures
            kind == kind_of(path@, is_dir),
            !is_dir && globals::ascii_extension(path@) ==> kind == kind_of_extension(
                globals::ascii_lowered_extension(path@),
            ),
            !is_dir && globals::ascii_extension(path@) ==> ((kind == FileKind::Image) <==> (
            image_preview::named_image(path@) || raster::named_svg(path@))),
            !is_dir && (image_preview::named_image(path@) || raster::named_svg(path@))
                ==> kind == FileKind::Image,
    {
        if is_dir {
            return FileKind::Dir;
        }
        let ext = extension_of(path);
        proof {
            image_preview::law_images_are_bitmaps_and_drawings(path@);
            image_preview::lemma_drawings_are_named_in_ascii(path@);
        }
        FileKind::of_extension(ext.as_str())
    }
}

} // verus!
