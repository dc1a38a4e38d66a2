//! SVG files as pixels.
use crate::io::raster::{self, rasterized, Pixels, RasterFault};
use crate::path::{self, FilePath};
use crate::text::{self, chars_of, lossy};
use vstd::prelude::*;

verus! {

broadcast use {vstd::seq::group_seq_axioms, vstd::seq_lib::group_seq_properties};

/// Whether an extension is `svg`, in whatever case, is the same question of its bytes and
/// of the text they are shown as.
pub proof fn law_an_svg_is_named_in_ascii(ext: Seq<u8>)
    ensures
        raster::svg_extension(ext) ==> text::ascii_bytes(ext),
        vstd::utf8::valid_utf8(ext) ==> (raster::svg_extension(ext) <==> text::ascii_lowered(
            text::lossy_text(ext),
        ) == "svg"@),
{
    reveal_strlit("svg");
    let shown = text::lossy_text(ext);
    let low = text::ascii_lowered(shown);
    if raster::svg_extension(ext) {
        text::lemma_ascii_bytes(ext);
        assert(shown[0] as u32 == ext[0] && shown[1] as u32 == ext[1] && shown[2] as u32
            == ext[2]);
        assert(low =~= "svg"@);
    } else if vstd::utf8::valid_utf8(ext) && low == "svg"@ {
        assert(low.len() == 3 && low[0] == 's' && low[1] == 'v' && low[2] == 'g');
        assert forall|i: int| 0 <= i < shown.len() implies (#[trigger] shown[i] as u32) < 128 by {
            assert(low[i] == text::ascii_lower(shown[i]));
        }
        text::lemma_ascii_text(ext);
        text::lemma_ascii_bytes(ext);
        assert(shown[0] as u32 == ext[0] && shown[1] as u32 == ext[1] && shown[2] as u32
            == ext[2]);
    }
}

/// Whether `path` is named as an SVG.
pub fn is_svg(path: &FilePath) -> (is: bool)
    ensures
        is == raster::named_svg(path@),
{
    match path.extension() {
        Some(ext) => {
            let shown = chars_of(lossy(ext.as_slice()).as_str());
            proof {
                reveal_strlit("svg");
                law_an_svg_is_named_in_ascii(ext@);
                if text::ascii_bytes(ext@) {
                    text::lemma_ascii_bytes(ext@);
                }
            }
            let is = shown.len() == 3 && (shown[0] == 's' || shown[0] == 'S') && (shown[1] == 'v'
                || shown[1] == 'V') && (shown[2] == 'g' || shown[2] == 'G');
            proof {
                let low = text::ascii_lowered(shown@);
                if is {
                    assert(low =~= "svg"@);
                } else if low == "svg"@ {
                    assert(low.len() == 3);
                    assert(low[0] == 's' && low[1] == 'v' && low[2] == 'g');
                }
            }
            is
        },
        None => false,
    }
}

/// What is shown of a drawing of this size, its width first: a picture of it, where there
/// can be one.
pub open spec fn shown_at(size: (u32, u32), pixels: Option<Pixels>) -> bool {
    match pixels {
        Some(pixels) => raster::drawable(size.0, size.1) && raster::has_room(size)
            && raster::measures(pixels, size),
        None => !(raster::drawable(size.0, size.1) && raster::has_room(size)),
    }
}

/// The drawing in `data` as pixels, at its natural size. `data` is what came back
/// when the file was read.
pub fn rasterize_svg(data: Option<Vec<u8>>) -> (pixels: Option<Pixels>)
    ensures
        data is None ==> pixels is None,
        data matches Some(data) ==> (!raster::svg_parses(data@) ==> pixels is None),
        data matches Some(data) ==> (raster::svg_parses(data@) ==> exists|size: (u32, u32)|
            #[trigger]
            raster::may_measure(data@, size) && shown_at(size, pixels)),
        data matches Some(data) ==> (raster::not_text(data@) ==> pixels is None),
        pixels matches Some(pixels) ==> pixels.wf(),
{
    let outcome = match data {
        None => None,
        Some(data) => Some(rasterized(data.as_slice())),
    };
    shown(outcome)
}

/// What is shown of a drawing: its pixels, where the file was read and drawing it went
/// well.
pub fn shown(outcome: Option<Result<Pixels, RasterFault>>) -> (pixels: Option<Pixels>)
    ensures
        pixels == match outcome {
            Some(Ok(pixels)) => Some(pixels),
            _ => None,
        },
{
    match outcome {
        Some(Ok(pixels)) => Some(pixels),
        _ => None,
    }
}

} // verus!
