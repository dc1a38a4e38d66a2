use navigator::io::{raster, FileKind};
use navigator::path::FilePath;
use navigator::preview::{image_preview, svg_preview};

fn kind_of(name: &str) -> FileKind {
    FileKind::of(&FilePath::new(name), false)
}

#[test]
fn a_directory_wins_over_its_name() {
    assert_eq!(
        FileKind::of(&FilePath::new("assets.png"), true),
        FileKind::Dir
    );
}

#[test]
fn bitmaps_and_svgs_are_both_images() {
    for name in [
        "a.png", "a.jpg", "a.jpeg", "a.gif", "a.bmp", "a.webp", "a.ico", "a.tiff", "a.tif",
        "a.svg",
    ] {
        assert_eq!(kind_of(name), FileKind::Image, "{name}");
    }
}

#[test]
fn mod_extensions_are_matched_case_insensitively() {
    assert_eq!(kind_of("PHOTO.PNG"), FileKind::Image);
    assert_eq!(kind_of("Logo.SvG"), FileKind::Image);
}

#[test]
fn anything_else_is_text() {
    for name in ["main.rs", "README", "Makefile", "notes.txt", "a.pngx"] {
        assert_eq!(kind_of(name), FileKind::Text, "{name}");
    }
}

#[test]
fn a_dotfile_extension_does_not_count_as_an_extension() {
    // There is no extension here, so `.png` is the whole file name.
    assert_eq!(kind_of(".png"), FileKind::Text);
}

#[test]
fn only_the_last_extension_matters() {
    assert_eq!(kind_of("archive.png.gz"), FileKind::Text);
    assert_eq!(kind_of("sprite.tar.png"), FileKind::Image);
}

#[test]
fn a_picture_is_known_by_its_name() {
    for name in ["/a/x.png", "x.JPG", "x.jpeg", "x.gif", "x.bmp", "x.webp", "x.ico", "x.tiff", "x.tif"] {
        assert!(image_preview::is_image(&FilePath::new(name)), "{name}");
    }
    for name in ["x.svg", "x", ".png", "x.pngx", "png"] {
        assert!(!image_preview::is_image(&FilePath::new(name)), "{name}");
    }
}

#[test]
fn a_drawing_is_known_by_its_name() {
    assert!(svg_preview::is_svg(&FilePath::new("x.svg")));
    assert!(svg_preview::is_svg(&FilePath::new("x.SVG")));
    assert!(!svg_preview::is_svg(&FilePath::new("x.png")));
    assert!(!svg_preview::is_svg(&FilePath::new("svg")));
}

#[test]
fn a_lowercase_that_needs_more_than_ascii_is_not_a_known_extension() {
    // The Kelvin sign lowers to an ascii k, which no known extension holds.
    assert_eq!(kind_of("x.\u{212a}"), FileKind::Text);
}

#[test]
fn an_image_is_a_bitmap_or_a_drawing_and_never_both() {
    for name in [
        "x.png", "x.PNG", "x.Jpeg", "x.svg", "x.SVG", "x.sVg", "x", "svg", ".svg", "x.", "x.svgz", "x.txt",
        "x.png.svg", "x.svg.png", "x.\u{212a}", "x.\u{e4}", "x.\u{17f}vg", "/a.svg/x",
    ] {
        let path = FilePath::new(name);
        let bitmap = image_preview::is_image(&path);
        let drawing = svg_preview::is_svg(&path);
        assert!(!(bitmap && drawing), "{name}");
        assert_eq!(
            FileKind::of(&path, false) == FileKind::Image,
            bitmap || drawing,
            "{name}"
        );
    }
}

#[test]
fn both_ways_of_asking_for_a_drawing_agree() {
    let names: [&[u8]; 8] = [
        b"x.svg", b"x.SvG", b"x.sv\xff", b"x.\xffsvg", b"x.svg\xc3", b"x.s\xc3\xa4g", b"x", b"x.svgz",
    ];
    for name in names {
        let path = FilePath { bytes: name.to_vec() };
        assert_eq!(svg_preview::is_svg(&path), raster::is_svg(&path), "{name:?}");
    }
    assert!(svg_preview::is_svg(&FilePath { bytes: b"x.SvG".to_vec() }));
    assert!(!svg_preview::is_svg(&FilePath { bytes: b"x.sv\xff".to_vec() }));
}
