//! The look of the navigator: sizes, glyphs and colors.
use crate::logging::store::LogLevel;
use crate::path::{self, FilePath};
use crate::text::{self, lossy, lowercase, same_text};
use vstd::prelude::*;

verus! {

broadcast use {vstd::seq::group_seq_axioms, vstd::seq_lib::group_seq_properties};

pub const SCROLL_JUMP: usize = 8;

pub const SCROLL_OFF: usize = 8;

/// The colors a terminal can be asked for.
#[derive(Debug, Clone, Copy, PartialEq, Eq, Structural)]
pub enum Color {
    Reset,
    Black,
    Red,
    Green,
    Yellow,
    Blue,
    Magenta,
    Cyan,
    Gray,
    DarkGray,
    LightRed,
    LightGreen,
    LightYellow,
    LightBlue,
    LightMagenta,
    LightCyan,
    White,
    Rgb(u8, u8, u8),
    Indexed(u8),
}

impl Color {
    /// Whether the terminal's theme decides how the color looks.
    pub open spec fn follows_theme(self) -> bool {
        !(self is Rgb) && !(self is Indexed)
    }
}

// Nerd Font icons
pub const NF_OCT_FILE_DIRECTORY_FILL: &'static str = "\u{f07b}";

/// Borders, separators, hints: everything that should recede.
pub const DIM: Color = Color::DarkGray;

/// Where you are: the cursor bar, and the prompt you are typing at.
pub const ACCENT: Color = Color::Cyan;

/// Entries you have marked.
pub const MARK: Color = Color::Magenta;

/// Behind the part of a name the search matched. The text on top is drawn in
/// [`SEARCH_TEXT`] rather than the file's own color, which a yellow file would
/// otherwise lose against.
pub const SEARCH: Color = Color::Yellow;

pub const SEARCH_TEXT: Color = Color::Black;

/// The bar drawn beside the row under the cursor.
pub const CURSOR_BAR: &'static str = "\u{258d}";

/// The dot beside a marked entry.
pub const MARK_DOT: &'static str = "\u{25cf}";

/// The color of files with this extension, which is given in lowercase.
pub open spec fn extension_color(ext: Seq<char>) -> Color {
    if is_archive(ext) {
        Color::Red
    } else if is_picture(ext) {
        Color::Magenta
    } else if is_audio(ext) {
        Color::LightRed
    } else if is_document(ext) {
        Color::Yellow
    } else if is_code(ext) {
        Color::Green
    } else if is_data(ext) {
        Color::Cyan
    } else {
        Color::Reset
    }
}

/// Archives.
pub open spec fn is_archive(ext: Seq<char>) -> bool {
    ext == "zip"@ || ext == "tar"@ || ext == "gz"@ || ext == "bz2"@ || ext == "xz"@ || ext == "7z"@
        || ext == "rar"@ || ext == "zst"@
}

/// Images and videos.
pub open spec fn is_picture(ext: Seq<char>) -> bool {
    ext == "png"@ || ext == "jpg"@ || ext == "jpeg"@ || ext == "gif"@ || ext == "bmp"@ || ext
        == "webp"@ || ext == "ico"@ || ext == "svg"@ || ext == "tiff"@ || ext == "tif"@ || ext
        == "mp4"@ || ext == "mkv"@ || ext == "webm"@ || ext == "avi"@ || ext == "mov"@ || ext
        == "flv"@ || ext == "wmv"@
}

/// Audio.
pub open spec fn is_audio(ext: Seq<char>) -> bool {
    ext == "mp3"@ || ext == "flac"@ || ext == "wav"@ || ext == "ogg"@ || ext == "m4a"@ || ext
        == "aac"@ || ext == "wma"@
}

/// Documents.
pub open spec fn is_document(ext: Seq<char>) -> bool {
    ext == "pdf"@ || ext == "doc"@ || ext == "docx"@ || ext == "xls"@ || ext == "xlsx"@ || ext
        == "ppt"@ || ext == "pptx"@ || ext == "odt"@
}

/// Code.
pub open spec fn is_code(ext: Seq<char>) -> bool {
    ext == "rs"@ || ext == "go"@ || ext == "py"@ || ext == "js"@ || ext == "ts"@ || ext == "jsx"@
        || ext == "tsx"@ || ext == "c"@ || ext == "cpp"@ || ext == "h"@ || ext == "hpp"@ || ext
        == "java"@ || ext == "rb"@ || ext == "sh"@ || ext == "bash"@ || ext == "zsh"@ || ext
        == "lua"@ || ext == "vim"@ || ext == "ex"@ || ext == "exs"@
}

/// Config and data.
pub open spec fn is_data(ext: Seq<char>) -> bool {
    ext == "json"@ || ext == "yaml"@ || ext == "yml"@ || ext == "toml"@ || ext == "xml"@ || ext
        == "html"@ || ext == "css"@ || ext == "scss"@
}

/// The extension of `path` in lowercase, or nothing when it has none.
pub open spec fn lowered_extension(path: Seq<u8>) -> Seq<char> {
    match path::extension(path) {
        Some(ext) => text::lowercase_text(text::lossy_text(ext)),
        None => Seq::empty(),
    }
}

/// Whether the extension of `path` is written in ASCII, as far as there is one.
pub open spec fn ascii_extension(path: Seq<u8>) -> bool {
    path::extension(path) matches Some(ext) ==> text::ascii_bytes(ext)
}

/// The extension of `path` with its ASCII letters lowered, or nothing when it has none.
pub open spec fn ascii_lowered_extension(path: Seq<u8>) -> Seq<char> {
    match path::extension(path) {
        Some(ext) => text::ascii_lowered(text::lossy_text(ext)),
        None => Seq::empty(),
    }
}

/// The color a name is listed in.
pub open spec fn name_color(name: Seq<char>, is_dir: bool) -> Color {
    if is_dir {
        Color::Blue
    } else if name.len() > 0 && name[0] == '.' {
        Color::DarkGray
    } else {
        extension_color(lowered_extension(vstd::utf8::encode_utf8(name)))
    }
}

/// The color of a level.
pub open spec fn color_of_level(level: LogLevel) -> Color {
    match level {
        LogLevel::Error => Color::Red,
        LogLevel::Warn => Color::Yellow,
        LogLevel::Info => Color::Green,
        LogLevel::Debug => Color::Blue,
        LogLevel::Trace => Color::DarkGray,
    }
}

/// The extension of `path` in lowercase, or nothing when it has none.
pub fn extension_of(path: &FilePath) -> (ext: String)
    ensures
        ext@ == lowered_extension(path@),
        ascii_extension(path@) ==> ext@ == ascii_lowered_extension(path@),
{
    match path.extension() {
        Some(ext) => {
            proof {
                if text::ascii_bytes(ext@) {
                    text::lemma_ascii_bytes(ext@);
                }
            }
            lowercase(lossy(ext.as_slice()).as_str())
        },
        None => String::new(),
    }
}

/// The color of files with this extension, which is given in lowercase.
pub fn color_of_extension(ext: &str) -> (color: Color)
    ensures
        color == extension_color(ext@),
{
    let archive = same_text(ext, "zip") || same_text(ext, "tar") || same_text(ext, "gz")
        || same_text(ext, "bz2") || same_text(ext, "xz") || same_text(ext, "7z") || same_text(
        ext,
        "rar",
    ) || same_text(ext, "zst");
    let picture = same_text(ext, "png") || same_text(ext, "jpg") || same_text(ext, "jpeg")
        || same_text(ext, "gif") || same_text(ext, "bmp") || same_text(ext, "webp") || same_text(
        ext,
        "ico",
    ) || same_text(ext, "svg") || same_text(ext, "tiff") || same_text(ext, "tif") || same_text(
        ext,
        "mp4",
    ) || same_text(ext, "mkv") || same_text(ext, "webm") || same_text(ext, "avi") || same_text(
        ext,
        "mov",
    ) || same_text(ext, "flv") || same_text(ext, "wmv");
    let audio = same_text(ext, "mp3") || same_text(ext, "flac") || same_text(ext, "wav")
        || same_text(ext, "ogg") || same_text(ext, "m4a") || same_text(ext, "aac") || same_text(
        ext,
        "wma",
    );
    let document = same_text(ext, "pdf") || same_text(ext, "doc") || same_text(ext, "docx")
        || same_text(ext, "xls") || same_text(ext, "xlsx") || same_text(ext, "ppt") || same_text(
        ext,
        "pptx",
    ) || same_text(ext, "odt");
    let code = same_text(ext, "rs") || same_text(ext, "go") || same_text(ext, "py") || same_text(
        ext,
        "js",
    ) || same_text(ext, "ts") || same_text(ext, "jsx") || same_text(ext, "tsx") || same_text(
        ext,
        "c",
    ) || same_text(ext, "cpp") || same_text(ext, "h") || same_text(ext, "hpp") || same_text(
        ext,
        "java",
    ) || same_text(ext, "rb") || same_text(ext, "sh") || same_text(ext, "bash") || same_text(
        ext,
        "zsh",
    ) || same_text(ext, "lua") || same_text(ext, "vim") || same_text(ext, "ex") || same_text(
        ext,
        "exs",
    );
    let data = same_text(ext, "json") || same_text(ext, "yaml") || same_text(ext, "yml")
        || same_text(ext, "toml") || same_text(ext, "xml") || same_text(ext, "html") || same_text(
        ext,
        "css",
    ) || same_text(ext, "scss");
    if archive {
        Color::Red
    } else if picture {
        Color::Magenta
    } else if audio {
        Color::LightRed
    } else if document {
        Color::Yellow
    } else if code {
        Color::Green
    } else if data {
        Color::Cyan
    } else {
        // Anything else keeps the terminal's default foreground.
        Color::Reset
    }
}

/// Colors come from the terminal's own 16-color palette rather than fixed RGB
/// values, so the navigator follows whatever theme the emulator is set to.
pub fn file_color(name: &str, is_dir: bool) -> (color: Color)
    ensures
        color == name_color(name@, is_dir),
        color.follows_theme(),
{
    if is_dir {
        return Color::Blue;
    }
    let chars = text::chars_of(name);
    if chars.len() > 0 && chars[0] == '.' {
        return Color::DarkGray;
    }
    // The extension, not the tail after the last dot: a file named `rs` or `c`
    // has no extension at all, and is not source code for having that name.
    let ext = extension_of(&FilePath::new(name));
    color_of_extension(ext.as_str())
}

pub fn level_color(level: LogLevel) -> (color: Color)
    ensures
        color == color_of_level(level),
        color.follows_theme(),
{
    match level {
        LogLevel::Error => Color::Red,
        LogLevel::Warn => Color::Yellow,
        LogLevel::Info => Color::Green,
        LogLevel::Debug => Color::Blue,
        LogLevel::Trace => Color::DarkGray,
    }
}

} // verus!
