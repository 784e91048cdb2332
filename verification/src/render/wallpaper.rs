//! Wallpapers: which asset a layout names, and the frame that is made of it.
use crate::media;
use crate::media::{VideoFrame, MAX_FRAME_DIM};
use crate::project::layout;
use crate::project::layout::{
    names_url,
    validate_wallpaper_relative,
    EditLayout,
    MAX_WALLPAPER_BYTES,
};
use crate::text;
use vstd::prelude::*;
use vstd::string::*;

verus! {

/// The wallpaper that a layout names, if it has one; or why it cannot be used.
pub open spec fn wallpaper_asset_of(l: EditLayout) -> Result<Option<Seq<char>>, Seq<char>> {
    if l.background_type@ != "wallpaper"@ {
        Ok(None)
    } else {
        match l.wallpaper_asset {
            None => Err("Wallpaper background requires a project asset"@),
            Some(asset) => if layout::is_url(asset@) {
                Err("Wallpaper cannot be an external URL"@)
            } else {
                match layout::wallpaper_fault(asset@) {
                    Some(e) => Err(e),
                    None => Ok(Some(asset@)),
                }
            },
        }
    }
}

/// The wallpaper that a layout names, relative to its project.
pub fn wallpaper_asset(l: &EditLayout) -> (r: Result<Option<String>, String>)
    ensures
        match r {
            Ok(Some(s)) => wallpaper_asset_of(*l) == Ok::<Option<Seq<char>>, Seq<char>>(Some(s@)),
            Ok(None) => wallpaper_asset_of(*l) == Ok::<Option<Seq<char>>, Seq<char>>(None),
            Err(e) => wallpaper_asset_of(*l) == Err::<Option<Seq<char>>, Seq<char>>(e@),
        },
{
    if !text::str_eq(l.background_type.as_str(), "wallpaper") {
        return Ok(None);
    }
    match &l.wallpaper_asset {
        None => Err("Wallpaper background requires a project asset".to_owned()),
        Some(asset) => {
            if names_url(asset.as_str()) {
                return Err("Wallpaper cannot be an external URL".to_owned());
            }
            match validate_wallpaper_relative(asset.as_str()) {
                Ok(()) => Ok(Some(asset.clone())),
                Err(e) => Err(e),
            }
        },
    }
}

/// A decoded picture: rows of pixels, each of red, green, blue and opacity.
#[derive(Debug)]
pub struct DecodedImage {
    pub width: u32,
    pub height: u32,
    pub data: Vec<u8>,
}

/// Whether decoding the bytes of a picture file can come to this: a width, a height and the
/// pixels, or the reason of a failure. One file may come to more than one of them.
pub uninterp spec fn can_decode_as(
    bytes: Seq<u8>,
    outcome: Result<(u32, u32, Seq<u8>), Seq<char>>,
) -> bool;

/// What decoding came to, with pixels and reason as sequences.
pub open spec fn outcome_of(r: Result<DecodedImage, String>) -> Result<
    (u32, u32, Seq<u8>),
    Seq<char>,
> {
    match r {
        Ok(img) => Ok((img.width, img.height, img.data@)),
        Err(e) => Err(e@),
    }
}

/// Decodes a picture file by `image::load_from_memory`, and its pixels by
/// `DynamicImage::to_rgba8`: what comes out is one of the things that these very bytes can
/// come to, and the buffer of an image holds four bytes for each of its pixels. Which one it
/// is, is left unsaid: a process can register detection hooks with the crate, which come
/// before its own decoders, and those choose their code by the processor that they run on.
#[verifier::external_body]
fn decode_image(bytes: &Vec<u8>) -> (r: Result<DecodedImage, String>)
    ensures
        can_decode_as(bytes@, outcome_of(r)),
        r matches Ok(img) ==> 4 * img.width * img.height <= img.data@.len(),
{
    match image::load_from_memory(bytes) {
        Ok(img) => {
            let rgba = img.to_rgba8();
            Ok(DecodedImage { width: rgba.width(), height: rgba.height(), data: rgba.into_raw() })
        },
        Err(e) => Err(e.to_string()),
    }
}

/// Whether a wallpaper has an acceptable size.
pub open spec fn size_ok(bytes: Seq<u8>) -> bool {
    0 < bytes.len() <= MAX_WALLPAPER_BYTES
}

/// Whether `f` shows an image, without its opacity.
pub open spec fn shows_image(f: VideoFrame, img: DecodedImage) -> bool {
    &&& f.wf()
    &&& f.pts_us == 0
    &&& f.width == img.width
    &&& f.height == img.height
    &&& f.stride == 4 * img.width
    &&& media::is_rec709(f.color)
    &&& f.data@.len() == 4 * img.width * img.height
    &&& forall|k: int|
        0 <= k < f.data@.len() ==> #[trigger] f.data@[k] == if k % 4 == 0 {
            img.data@[k + 2]
        } else if k % 4 == 1 {
            img.data@[k]
        } else if k % 4 == 2 {
            img.data@[k - 2]
        } else {
            255
        }
}

/// Makes a frame of a decoded picture.
pub fn frame_of_image(img: &DecodedImage) -> (r: Result<VideoFrame, String>)
    requires
        4 * img.width * img.height <= img.data@.len(),
    ensures
        match r {
            Ok(f) => media::valid_dim(img.width, img.height) && shows_image(f, *img),
            Err(e) => !media::valid_dim(img.width, img.height) && e@
                == "Wallpaper exceeds compositor working-set limit"@,
        },
{
    if img.width > MAX_FRAME_DIM || img.height > MAX_FRAME_DIM || img.width == 0 || img.height
        == 0 {
        return Err("Wallpaper exceeds compositor working-set limit".to_owned());
    }
    let mut frame: VideoFrame = match VideoFrame::solid(img.width, img.height, 0, 0, 0, 0) {
        Ok(f) => f,
        Err(e) => {
            return Err(e);
        },
    };
    let n: usize = frame.data.len();
    let len: usize = img.data.len();
    let ghost first = frame;
    assert((4 * img.width) * img.height == 4 * (img.width * img.height)) by (nonlinear_arith);
    let mut i: usize = 0;
    while i < n
        invariant
            n == frame.data@.len() == first.data@.len(),
            n == 4 * img.width * img.height,
            n % 4 == 0,
            i <= n <= len,
            len == img.data@.len(),
            i % 4 == 0,
            frame == (VideoFrame { data: frame.data, ..first }),
            forall|k: int| i <= k < n ==> #[trigger] frame.data@[k] == first.data@[k],
            forall|k: int|
                0 <= k < i ==> #[trigger] frame.data@[k] == if k % 4 == 0 {
                    img.data@[k + 2]
                } else if k % 4 == 1 {
                    img.data@[k]
                } else if k % 4 == 2 {
                    img.data@[k - 2]
                } else {
                    255
                },
        decreases n - i,
    {
        frame.data.set(i, img.data[i + 2]);
        frame.data.set(i + 1, img.data[i + 1]);
        frame.data.set(i + 2, img.data[i]);
        frame.data.set(i + 3, 255);
        i = i + 4;
    }
    Ok(frame)
}

/// The message for a wallpaper that cannot be decoded.
pub open spec fn decode_failure(reason: Seq<char>) -> Seq<char> {
    "Wallpaper decode failed: "@ + reason
}

/// Whether `r` is what a wallpaper gives whose decoding came to `decoded`.
pub open spec fn follows_decoding(
    r: Result<VideoFrame, String>,
    decoded: Result<DecodedImage, String>,
) -> bool {
    match decoded {
        Ok(img) => match r {
            Ok(f) => media::valid_dim(img.width, img.height) && shows_image(f, img),
            Err(e) => !media::valid_dim(img.width, img.height) && e@
                == "Wallpaper exceeds compositor working-set limit"@,
        },
        Err(reason) => r matches Err(e) && e@ == decode_failure(reason@),
    }
}

/// Makes a frame of what the decoding of a wallpaper came to.
pub fn frame_of_decoded(decoded: Result<DecodedImage, String>) -> (r: Result<VideoFrame, String>)
    requires
        decoded matches Ok(img) ==> 4 * img.width * img.height <= img.data@.len(),
    ensures
        follows_decoding(r, decoded),
{
    match decoded {
        Ok(img) => frame_of_image(&img),
        Err(e) => {
            let mut message: String = "Wallpaper decode failed: ".to_owned();
            message.append(e.as_str());
            Err(message)
        },
    }
}

/// Makes a frame of a wallpaper's file: of something that its bytes can be decoded as.
pub fn load_wallpaper_frame(bytes: &Vec<u8>) -> (r: Result<VideoFrame, String>)
    ensures
        if size_ok(bytes@) {
            exists|decoded: Result<DecodedImage, String>|
                can_decode_as(bytes@, outcome_of(decoded)) && #[trigger] follows_decoding(
                    r,
                    decoded,
                )
        } else {
            r matches Err(e) && e@ == "Wallpaper exceeds size limit"@
        },
{
    if bytes.is_empty() || bytes.len() as u64 > MAX_WALLPAPER_BYTES {
        return Err("Wallpaper exceeds size limit".to_owned());
    }
    let decoded: Result<DecodedImage, String> = decode_image(bytes);
    let ghost came_to = decoded;
    let r = frame_of_decoded(decoded);
    assert(follows_decoding(r, came_to));
    r
}

/// A wallpaper is shown with the colors of its picture, pixel by pixel, and nothing shines
/// through it.
pub proof fn wallpapers_show_their_picture(f: VideoFrame, img: DecodedImage, x: int, y: int)
    requires
        shows_image(f, img),
        0 <= x < img.width,
        0 <= y < img.height,
    ensures
        ({
            let at = 4 * (y * img.width + x);
            &&& f.width == img.width
            &&& f.height == img.height
            &&& f.byte(x, y, 0) == img.data@[at + 2]
            &&& f.byte(x, y, 1) == img.data@[at + 1]
            &&& f.byte(x, y, 2) == img.data@[at]
            &&& f.byte(x, y, 3) == 255
        }),
{
    let (w, h) = (img.width as int, img.height as int);
    let at = 4 * (y * w + x);
    assert(y * (4 * w) + x * 4 == at) by (nonlinear_arith)
        requires
            at == 4 * (y * w + x),
    ;
    assert(0 <= y * w + x < w * h) by (nonlinear_arith)
        requires
            0 <= x < w,
            0 <= y < h,
    ;
    assert(4 * w * h == 4 * (w * h)) by (nonlinear_arith);
    assert(f.data@[at] == img.data@[at + 2]);
    assert(f.data@[at + 1] == img.data@[at + 1]);
    assert(f.data@[at + 2] == img.data@[at]);
    assert(f.data@[at + 3] == 255);
}

/// A wallpaper is read exactly where the layout asks for one and names a picture among the
/// project's own.
pub proof fn wallpapers_are_the_projects_own(l: EditLayout)
    ensures
        l.background_type@ != "wallpaper"@ ==> wallpaper_asset_of(l) == Ok::<
            Option<Seq<char>>,
            Seq<char>,
        >(None),
        l.background_type@ == "wallpaper"@ ==> (wallpaper_asset_of(l) is Ok
            <==> l.wallpaper_asset is Some && !layout::is_url(l.wallpaper_asset->0@)
            && layout::wallpaper_fault(l.wallpaper_asset->0@) is None),
        wallpaper_asset_of(l) matches Ok(Some(path)) ==> path == l.wallpaper_asset->0@,
{
}

} // verus!
