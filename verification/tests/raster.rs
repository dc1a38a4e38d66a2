use navigator::error::Fault;
use navigator::io::raster::{at_size, drawn, explained, fits, framed, load, Pixels, RasterFault};
use navigator::path::FilePath;
use navigator::preview::svg_preview;
use navigator::preview::text_file_preview::read_text_file_preview;

/// A 2x1 PNG: one red pixel, one blue one.
const PNG: [u8; 70] = [
    0x89, 0x50, 0x4e, 0x47, 0x0d, 0x0a, 0x1a, 0x0a, 0x00, 0x00, 0x00, 0x0d, 0x49, 0x48, 0x44,
    0x52, 0x00, 0x00, 0x00, 0x02, 0x00, 0x00, 0x00, 0x01, 0x08, 0x02, 0x00, 0x00, 0x00, 0x7b,
    0x40, 0xe8, 0xdd, 0x00, 0x00, 0x00, 0x0d, 0x49, 0x44, 0x41, 0x54, 0x78, 0x9c, 0x63, 0xf8,
    0xcf, 0x00, 0x04, 0xff, 0x01, 0x07, 0x00, 0x01, 0xff, 0xe2, 0x23, 0x9e, 0x59, 0x00, 0x00,
    0x00, 0x00, 0x49, 0x45, 0x4e, 0x44, 0xae, 0x42, 0x60, 0x82,
];

const SVG: &str = r#"<svg xmlns="http://www.w3.org/2000/svg" width="40" height="20">
    <rect width="40" height="20" fill="red"/>
</svg>"#;

fn bytes(contents: impl AsRef<[u8]>) -> Vec<u8> {
    contents.as_ref().to_vec()
}

fn missing() -> Fault {
    Fault { text: "not found".to_string(), causes: vec![], code: Some(2) }
}

#[test]
fn decodes_a_png() {
    let (path, contents) = (FilePath::new("pixel.png"), bytes(PNG));

    let img = load(&path, Ok(contents)).unwrap();

    assert_eq!((img.width, img.height), (2, 1));
}

#[test]
fn rasterizes_an_svg_at_its_natural_size() {
    let (path, contents) = (FilePath::new("box.svg"), bytes(SVG));

    let img = load(&path, Ok(contents)).unwrap();

    assert_eq!((img.width, img.height), (40, 20));
}

#[test]
fn recognises_svgs_regardless_of_extension_case() {
    let (path, contents) = (FilePath::new("box.SVG"), bytes(SVG));

    // A bitmap decoder would reject this content, so succeeding proves it took the SVG path.
    assert!(load(&path, Ok(contents)).is_ok());
}

#[test]
fn a_malformed_svg_fails() {
    let (path, contents) = (FilePath::new("broken.svg"), bytes("<svg><unclosed>"));

    assert!(load(&path, Ok(contents)).is_err());
}

#[test]
fn an_svg_extension_on_non_svg_content_fails() {
    let (path, contents) = (FilePath::new("liar.svg"), bytes(PNG));

    assert!(load(&path, Ok(contents)).is_err());
}

#[test]
fn a_truncated_png_fails() {
    let (path, contents) = (FilePath::new("cut.png"), bytes(&PNG[..30]));

    assert!(load(&path, Ok(contents)).is_err());
}

#[test]
fn a_text_file_named_png_fails() {
    let (path, contents) = (FilePath::new("notreally.png"), bytes("just some words"));

    assert!(load(&path, Ok(contents)).is_err());
}

#[test]
fn a_missing_file_fails() {

    assert!(load(&FilePath::new("gone.png"), Err(missing())).is_err());
    assert!(load(&FilePath::new("gone.svg"), Err(missing())).is_err());
}

#[test]
fn the_pixels_are_those_of_the_picture() {
    let img = load(&FilePath::new("pixel.png"), Ok(bytes(PNG))).unwrap();

    assert_eq!(img.rgba, [255, 0, 0, 255, 0, 0, 255, 255]);
}

#[test]
fn the_drawing_is_drawn() {
    let img = load(&FilePath::new("box.svg"), Ok(bytes(SVG))).unwrap();

    assert_eq!(img.rgba.len(), 40 * 20 * 4);
    assert!(img.rgba.chunks(4).all(|pixel| pixel == [255, 0, 0, 255]));
}

#[test]
fn each_failure_says_what_was_being_done() {
    let svg = FilePath::new("/a/x.svg");
    let png = FilePath::new("/a/x.png");

    assert_eq!(load(&svg, Err(missing())).unwrap_err().chain(), ["IO: reading /a/x.svg", "not found"]);
    assert_eq!(
        load(&png, Err(missing())).unwrap_err().chain(),
        ["Any: decoding /a/x.png", "not found"]
    );
    let parsing = load(&svg, Ok(bytes("<svg"))).unwrap_err().chain();
    assert_eq!(parsing[0], "Any: parsing /a/x.svg");
    assert!(parsing.len() > 1 && !parsing[1].is_empty());
    let decoding = load(&png, Ok(bytes("words"))).unwrap_err().chain();
    assert_eq!(decoding[0], "Any: decoding /a/x.png");
    assert!(decoding.len() > 1 && !decoding[1].is_empty());
    assert_eq!(
        explained(&svg, RasterFault::NoArea).to_text(),
        "Any: /a/x.svg has no drawable area"
    );
    assert_eq!(explained(&svg, RasterFault::TooShort).to_text(), "Any: rasterizing /a/x.svg");
}

#[test]
fn a_drawing_too_large_to_be_drawn_has_no_area() {
    let wide = SVG.replace("width=\"40\"", "width=\"4000000000\"");

    let errx = load(&FilePath::new("wide.svg"), Ok(bytes(wide))).unwrap_err();

    assert_eq!(errx.to_text(), "Any: wide.svg has no drawable area");
}

#[test]
fn a_format_that_is_not_known_is_refused() {
    assert!(load(&FilePath::new("x.txt"), Ok(bytes(PNG))).is_err());
    assert!(load(&FilePath::new("x"), Ok(bytes(PNG))).is_err());
    assert!(load(&FilePath::new("X.PNG"), Ok(bytes(PNG))).is_ok());
}

#[test]
fn too_few_bytes_make_no_picture() {
    assert!(framed(2, 2, vec![0; 15]).is_none());
    assert_eq!(framed(2, 2, vec![7; 16]).unwrap().rgba, vec![7; 16]);
}

#[test]
fn a_drawing_is_previewed_only_if_it_can_be_read() {
    assert!(svg_preview::rasterize_svg(None).is_none());
    assert!(svg_preview::rasterize_svg(Some(bytes("<svg"))).is_none());
    let pixels = svg_preview::rasterize_svg(Some(bytes(SVG))).unwrap();
    assert_eq!((pixels.width, pixels.height), (40, 20));
}

#[test]
fn the_start_of_a_text_file_is_shown() {
    assert_eq!(read_text_file_preview(Some(bytes("one\ntwo\nthree")), 2), "one\ntwo");
    assert_eq!(read_text_file_preview(None, 2), "(cannot read file)");
    assert_eq!(read_text_file_preview(Some(bytes([0u8, 1])), 2), "(binary file)");
    assert_eq!(read_text_file_preview(Some(bytes([0xffu8])), 2), "(binary file)");
    assert_eq!(read_text_file_preview(Some(bytes([0x0bu8, b'x'])), 2), "\u{b}x");
}

#[test]
fn what_drawing_gave_decides_the_picture() {
    assert!(matches!(drawn((1, 1), None), Err(RasterFault::NoArea)));
    assert!(matches!(drawn((1, 1), Some(vec![0; 3])), Err(RasterFault::TooShort)));
    assert_eq!(drawn((1, 1), Some(vec![9; 4])).unwrap().rgba, [9, 9, 9, 9]);
    let wide = drawn((2, 1), Some(vec![0; 8])).unwrap();
    assert_eq!((wide.width, wide.height), (2, 1));
    assert!(fits((2, 1)));
    assert!(!fits((u32::MAX, u32::MAX)));
}

#[test]
fn a_picture_is_shown_where_everything_went_well() {
    let pixels = Pixels { width: 1, height: 1, rgba: vec![1, 2, 3, 4] };

    assert_eq!(svg_preview::shown(Some(Ok(pixels))).unwrap().rgba, [1, 2, 3, 4]);
    assert!(svg_preview::shown(Some(Err(RasterFault::NoArea))).is_none());
    assert!(svg_preview::shown(None).is_none());
}

#[test]
fn bytes_that_are_no_text_are_no_drawing() {
    assert!(svg_preview::rasterize_svg(Some(vec![0xff, 0xfe])).is_none());
}

#[test]
fn a_drawing_is_drawn_at_the_size_it_is_given() {
    let options = resvg::usvg::Options::default();
    let tree = resvg::usvg::Tree::from_data(SVG.as_bytes(), &options).unwrap();

    let pixels = at_size(&tree, (3, 5)).unwrap();
    assert_eq!((pixels.width, pixels.height, pixels.rgba.len()), (3, 5, 60));
    assert!(matches!(at_size(&tree, (0, 5)), Err(RasterFault::NoArea)));
    assert!(matches!(at_size(&tree, (5, 0)), Err(RasterFault::NoArea)));
    assert!(matches!(at_size(&tree, (u32::MAX, u32::MAX)), Err(RasterFault::NoArea)));
}

#[test]
fn a_drawing_is_as_large_as_it_says_or_as_what_it_holds() {
    let size = |text: &str| {
        let img = load(&FilePath::new("x.svg"), Ok(bytes(text))).unwrap();
        (img.width, img.height)
    };
    let root = "<svg xmlns=\"http://www.w3.org/2000/svg\"";
    let held = "<rect width=\"7\" height=\"9\"/></svg>";

    assert_eq!(size(&format!("{root} width=\"40\" height=\"20\">{held}")), (40, 20));
    assert_eq!(size(&format!("{root} viewBox=\"0 0 30 10\">{held}")), (30, 10));
    assert_eq!(size(&format!("{root}>{held}")), (7, 9));
}
