//! Compositing: which layers a scene has, where they lie, and how they are clipped. What is
//! computed in floating point is handed in as rounded numbers.
use crate::media;
use crate::media::validate_dim;
use crate::project::layout;
use crate::project::layout::{parse_hex_rgb, EditLayout};
use crate::text;
use crate::timeline;
use vstd::prelude::*;
use vstd::string::*;

pub mod blit;
pub mod pixels;
pub mod wallpaper;

verus! {

pub const MAX_LAYERS: usize = 4;

/// The blur of the webcam's shadow, in pixels.
pub const WEBCAM_SHADOW_BLUR_PX: u32 = 16;

/// The opacity of the webcam's shadow, 0.55, as a single-precision bit pattern.
pub const WEBCAM_SHADOW_OPACITY: u32 = 0x3f0c_cccd;

#[derive(Debug, Clone, Copy, PartialEq, Eq, Structural)]
pub enum LayerRole {
    Background,
    Screen,
    WebcamBorder,
    Webcam,
}

#[derive(Debug, Clone, Copy, PartialEq, Eq, Structural)]
pub enum ClipMode {
    Unclipped,
    RoundedRect,
    Circle,
    Squircle,
}

/// The number of a clip mode, as shaders know it.
pub open spec fn clip_number(clip: ClipMode) -> int {
    match clip {
        ClipMode::Unclipped => 0,
        ClipMode::RoundedRect => 1,
        ClipMode::Circle => 2,
        ClipMode::Squircle => 3,
    }
}

/// The number of a clip mode, as shaders know it.
pub fn clip_code(clip: ClipMode) -> (r: u32)
    ensures
        r == clip_number(clip),
{
    match clip {
        ClipMode::Unclipped => 0,
        ClipMode::RoundedRect => 1,
        ClipMode::Circle => 2,
        ClipMode::Squircle => 3,
    }
}

/// What a layer shows.
#[derive(Debug, Clone, Copy, PartialEq, Eq, Structural)]
pub enum LayerContent {
    Wallpaper,
    Gradient,
    Screen,
    Color { blue: u8, green: u8, red: u8 },
    Webcam,
}

/// A shadow: its blur in pixels, and its opacity as a single-precision bit pattern.
#[derive(Debug, Clone, Copy, PartialEq, Eq, Structural)]
pub struct Shadow {
    pub blur_px: u32,
    pub opacity: u32,
}

#[derive(Debug, Clone, Copy, PartialEq, Eq, Structural)]
pub struct Rect {
    pub x: u32,
    pub y: u32,
    pub width: u32,
    pub height: u32,
}

/// A layer of a scene.
#[derive(Debug, Clone, Copy, PartialEq, Eq, Structural)]
pub struct Layer {
    pub content: LayerContent,
    pub place: Rect,
    pub role: LayerRole,
    pub clip: ClipMode,
    pub radius_px: u32,
    /// Whether what it shows is cropped to cover its place, rather than stretched.
    pub cover: bool,
    pub mirrored: bool,
    pub shadow: Option<Shadow>,
}

/// A layer that shows something at a place, and nothing more.
pub open spec fn plain_layer(content: LayerContent, place: Rect, role: LayerRole) -> Layer {
    Layer {
        content,
        place,
        role,
        clip: ClipMode::Unclipped,
        radius_px: 0,
        cover: false,
        mirrored: false,
        shadow: None,
    }
}

impl Layer {
    /// A layer that shows something at a place.
    pub fn placed(content: LayerContent, place: Rect, role: LayerRole) -> (r: Self)
        ensures
            r == plain_layer(content, place, role),
    {
        Layer {
            content,
            place,
            role,
            clip: ClipMode::Unclipped,
            radius_px: 0,
            cover: false,
            mirrored: false,
            shadow: None,
        }
    }
}

/// What is drawn on a canvas.
#[derive(Debug, PartialEq)]
pub struct Scene {
    pub width: u32,
    pub height: u32,
    /// Red, green and blue of what lies behind all layers.
    pub background: [u8; 3],
    /// Red, green and blue at the other end of a gradient.
    pub background_end: Option<[u8; 3]>,
    pub layers: Vec<Layer>,
}

/// A picture that is to be fitted into a place: its size, whether it is wider than the
/// place, and its other side once it is scaled to touch two sides of the place.
#[derive(Debug, Clone, Copy, PartialEq, Eq, Structural)]
pub struct SourceFit {
    pub width: u32,
    pub height: u32,
    pub wider: bool,
    pub scaled: u32,
}

/// The number from 1 to `top` that is closest.
pub open spec fn clamped(n: int, top: int) -> int {
    timeline::max(1, timeline::min(n, top))
}

fn smaller(a: u32, b: u32) -> (r: u32)
    ensures
        r == timeline::min(a as int, b as int),
{
    if a <= b {
        a
    } else {
        b
    }
}

fn larger(a: u32, b: u32) -> (r: u32)
    ensures
        r == timeline::max(a as int, b as int),
{
    if a >= b {
        a
    } else {
        b
    }
}

/// Where a picture lies when it is fitted into a place, in its middle.
pub open spec fn fitted(f: SourceFit, dest: Rect) -> Rect {
    if f.width == 0 || f.height == 0 || dest.width == 0 || dest.height == 0 {
        Rect {
            width: timeline::max(1, dest.width as int) as u32,
            height: timeline::max(1, dest.height as int) as u32,
            ..dest
        }
    } else {
        let w = if f.wider {
            dest.width as int
        } else {
            clamped(f.scaled as int, dest.width as int)
        };
        let h = if f.wider {
            clamped(f.scaled as int, dest.height as int)
        } else {
            dest.height as int
        };
        Rect {
            x: (dest.x + (dest.width - w) / 2) as u32,
            y: (dest.y + (dest.height - h) / 2) as u32,
            width: w as u32,
            height: h as u32,
        }
    }
}

/// Fits a picture into a place.
pub fn fit_inside(f: SourceFit, dest: Rect) -> (r: Rect)
    requires
        dest.x + dest.width <= u32::MAX,
        dest.y + dest.height <= u32::MAX,
    ensures
        r == fitted(f, dest),
{
    if f.width == 0 || f.height == 0 || dest.width == 0 || dest.height == 0 {
        return Rect {
            x: dest.x,
            y: dest.y,
            width: larger(1, dest.width),
            height: larger(1, dest.height),
        };
    }
    let width: u32 = if f.wider {
        dest.width
    } else {
        larger(1, smaller(f.scaled, dest.width))
    };
    let height: u32 = if f.wider {
        larger(1, smaller(f.scaled, dest.height))
    } else {
        dest.height
    };
    Rect {
        x: dest.x + (dest.width - width) / 2,
        y: dest.y + (dest.height - height) / 2,
        width,
        height,
    }
}

/// Whether one place lies in another.
pub open spec fn lies_in(a: Rect, b: Rect) -> bool {
    &&& b.x <= a.x
    &&& b.y <= a.y
    &&& a.x + a.width <= b.x + b.width
    &&& a.y + a.height <= b.y + b.height
}

/// A fitted picture lies in its place, and touches two of its sides.
pub proof fn fitted_pictures_stay_inside(f: SourceFit, dest: Rect)
    requires
        f.width > 0,
        f.height > 0,
        dest.width > 0,
        dest.height > 0,
        dest.x + dest.width <= u32::MAX,
        dest.y + dest.height <= u32::MAX,
    ensures
        lies_in(fitted(f, dest), dest),
        fitted(f, dest).width == dest.width || fitted(f, dest).height == dest.height,
        fitted(f, dest).width > 0,
        fitted(f, dest).height > 0,
{
}

/// The webcam's share of the canvas, in thousandths.
pub open spec fn webcam_share(size: Seq<char>) -> int {
    if size == "sm"@ {
        125
    } else if size == "lg"@ {
        280
    } else if size == "xl"@ {
        360
    } else {
        200
    }
}

/// The webcam's share of the canvas, in thousandths.
pub fn webcam_permille(size: &str) -> (r: u32)
    ensures
        r == webcam_share(size@),
{
    if text::str_eq(size, "sm") {
        125
    } else if text::str_eq(size, "lg") {
        280
    } else if text::str_eq(size, "xl") {
        360
    } else {
        200
    }
}

/// Whether a webcam of this shape is as wide as it is high.
pub open spec fn square_shape(shape: Seq<char>) -> bool {
    shape == "circle"@ || shape == "squircle"@
}

fn is_square_shape(shape: &str) -> (r: bool)
    ensures
        r == square_shape(shape@),
{
    text::str_eq(shape, "circle") || text::str_eq(shape, "squircle")
}

/// How a webcam of this shape is clipped.
pub open spec fn webcam_clip_of(shape: Seq<char>) -> ClipMode {
    if shape == "circle"@ {
        ClipMode::Circle
    } else if shape == "squircle"@ {
        ClipMode::Squircle
    } else {
        ClipMode::Unclipped
    }
}

fn webcam_clip(shape: &str) -> (r: ClipMode)
    ensures
        r == webcam_clip_of(shape@),
{
    if text::str_eq(shape, "circle") {
        ClipMode::Circle
    } else if text::str_eq(shape, "squircle") {
        ClipMode::Squircle
    } else {
        ClipMode::Unclipped
    }
}

/// A picture of the webcam: its size, its share of the canvas in pixels, its shorter
/// side once its longer one has that share, and where it lies when its place was
/// chosen freely.
#[derive(Debug, Clone, Copy, PartialEq, Eq, Structural)]
pub struct WebcamLook {
    pub width: u32,
    pub height: u32,
    pub target: u32,
    pub scaled: u32,
    pub custom_x: u32,
    pub custom_y: u32,
}

impl WebcamLook {
    /// Whether a border fits around the picture. An empty one takes its share of the canvas
    /// as it is, so that has to leave room.
    pub open spec fn has_room(self) -> bool {
        self.width > 0 && self.height > 0 || self.target <= u32::MAX - 2 * layout::MAX_BORDER_WIDTH
    }
}

/// The size of the webcam on a canvas.
pub open spec fn bubble_size(canvas_w: int, canvas_h: int, look: WebcamLook, square: bool) -> (
    int,
    int,
) {
    let target = timeline::max(8, look.target as int);
    let scaled = timeline::max(8, look.scaled as int);
    if look.width == 0 || look.height == 0 {
        (target, target)
    } else {
        let w = clamped(
            if look.width >= look.height {
                target
            } else {
                scaled
            },
            canvas_w,
        );
        let h = clamped(
            if look.width >= look.height {
                scaled
            } else {
                target
            },
            canvas_h,
        );
        if square {
            let side = timeline::max(8, timeline::min(w, h));
            (clamped(side, canvas_w), clamped(side, canvas_h))
        } else {
            (w, h)
        }
    }
}

/// The size of the webcam on a canvas.
pub fn webcam_bubble_size(canvas_w: u32, canvas_h: u32, look: WebcamLook, shape: &str) -> (r: (
    u32,
    u32,
))
    ensures
        (r.0 as int, r.1 as int) == bubble_size(
            canvas_w as int,
            canvas_h as int,
            look,
            square_shape(shape@),
        ),
{
    let target: u32 = larger(8, look.target);
    let scaled: u32 = larger(8, look.scaled);
    if look.width == 0 || look.height == 0 {
        return (target, target);
    }
    let across: bool = look.width >= look.height;
    let w: u32 = larger(
        1,
        smaller(
            if across {
                target
            } else {
                scaled
            },
            canvas_w,
        ),
    );
    let h: u32 = larger(
        1,
        smaller(
            if across {
                scaled
            } else {
                target
            },
            canvas_h,
        ),
    );
    if is_square_shape(shape) {
        let side: u32 = larger(8, smaller(w, h));
        return (larger(1, smaller(side, canvas_w)), larger(1, smaller(side, canvas_h)));
    }
    (w, h)
}

/// What a webcam leaves of the canvas.
pub open spec fn spare(canvas: int, bubble: int) -> int {
    timeline::max(0, canvas - bubble)
}

/// Where the webcam lies on a canvas that it leaves so much of.
pub open spec fn bubble_origin(max_x: int, max_y: int, position: Seq<char>, look: WebcamLook) -> (
    int,
    int,
) {
    let margin = timeline::min(8, timeline::min(max_x / 2, max_y / 2));
    if position == "top-left"@ {
        (margin, margin)
    } else if position == "top-right"@ {
        (max_x - margin, margin)
    } else if position == "bottom-left"@ {
        (margin, max_y - margin)
    } else if position == "custom"@ {
        (timeline::min(look.custom_x as int, max_x), timeline::min(look.custom_y as int, max_y))
    } else {
        (max_x - margin, max_y - margin)
    }
}

/// Where the webcam lies on a canvas.
pub fn webcam_origin(
    canvas_w: u32,
    canvas_h: u32,
    bubble_w: u32,
    bubble_h: u32,
    position: &str,
    look: WebcamLook,
) -> (r: (u32, u32))
    ensures
        (r.0 as int, r.1 as int) == bubble_origin(
            spare(canvas_w as int, bubble_w as int),
            spare(canvas_h as int, bubble_h as int),
            position@,
            look,
        ),
{
    let max_x: u32 = if canvas_w >= bubble_w {
        canvas_w - bubble_w
    } else {
        0
    };
    let max_y: u32 = if canvas_h >= bubble_h {
        canvas_h - bubble_h
    } else {
        0
    };
    let margin: u32 = smaller(8, smaller(max_x / 2, max_y / 2));
    if text::str_eq(position, "top-left") {
        (margin, margin)
    } else if text::str_eq(position, "top-right") {
        (max_x - margin, margin)
    } else if text::str_eq(position, "bottom-left") {
        (margin, max_y - margin)
    } else if text::str_eq(position, "custom") {
        (smaller(look.custom_x, max_x), smaller(look.custom_y, max_y))
    } else {
        (max_x - margin, max_y - margin)
    }
}

/// Where the webcam lies on a canvas.
pub open spec fn bubble_place(width: int, height: int, l: EditLayout, look: WebcamLook) -> Rect {
    let size = bubble_size(width, height, look, square_shape(l.webcam_shape@));
    let at = bubble_origin(
        spare(width, size.0),
        spare(height, size.1),
        l.webcam_position@,
        look,
    );
    Rect { x: at.0 as u32, y: at.1 as u32, width: size.0 as u32, height: size.1 as u32 }
}

/// The webcam never leaves the canvas.
pub proof fn webcams_stay_on_the_canvas(width: u32, height: u32, l: EditLayout, look: WebcamLook)
    requires
        width > 0,
        height > 0,
        look.width > 0,
        look.height > 0,
    ensures
        lies_in(
            bubble_place(width as int, height as int, l, look),
            Rect { x: 0, y: 0, width, height },
        ),
{
}

/// The place of the webcam's border: `inset` further on each side, as far as the canvas
/// goes.
pub open spec fn border_place(width: int, height: int, place: Rect, inset: int) -> Rect {
    let x = timeline::max(0, place.x - inset);
    let y = timeline::max(0, place.y - inset);
    Rect {
        x: x as u32,
        y: y as u32,
        width: clamped(place.width + 2 * inset, timeline::max(0, width - x)) as u32,
        height: clamped(place.height + 2 * inset, timeline::max(0, height - y)) as u32,
    }
}

fn place_border(width: u32, height: u32, place: Rect, inset: u32) -> (r: Rect)
    requires
        inset <= layout::MAX_BORDER_WIDTH,
        place.width + 16 <= u32::MAX,
        place.height + 16 <= u32::MAX,
    ensures
        r == border_place(width as int, height as int, place, inset as int),
{
    let x: u32 = if place.x >= inset {
        place.x - inset
    } else {
        0
    };
    let y: u32 = if place.y >= inset {
        place.y - inset
    } else {
        0
    };
    let left: u32 = if width >= x {
        width - x
    } else {
        0
    };
    let below: u32 = if height >= y {
        height - y
    } else {
        0
    };
    Rect {
        x,
        y,
        width: larger(1, smaller(place.width + inset * 2, left)),
        height: larger(1, smaller(place.height + inset * 2, below)),
    }
}

/// Why nothing can be drawn; `None` when something can.
pub open spec fn scene_fault(width: u32, height: u32, l: EditLayout) -> Option<Seq<char>> {
    if !media::valid_dim(width, height) {
        Some("Invalid media frame dimensions"@)
    } else if l.fault() is Some {
        l.fault()
    } else if 2 * l.padding_px >= width || 2 * l.padding_px >= height {
        Some("Export padding leaves no content rectangle"@)
    } else {
        None
    }
}

/// What the padding leaves of a canvas.
pub open spec fn content_of(width: u32, height: u32, l: EditLayout) -> Rect {
    Rect {
        x: l.padding_px,
        y: l.padding_px,
        width: (width - 2 * l.padding_px) as u32,
        height: (height - 2 * l.padding_px) as u32,
    }
}

/// What the padding leaves of a canvas.
pub fn content_rect(width: u32, height: u32, l: &EditLayout) -> (r: Result<Rect, String>)
    ensures
        match r {
            Ok(c) => scene_fault(width, height, *l) is None && c == content_of(width, height, *l),
            Err(e) => scene_fault(width, height, *l) == Some(e@),
        },
{
    match validate_dim(width, height) {
        Ok(()) => {},
        Err(e) => {
            return Err(e);
        },
    }
    match l.validate() {
        Ok(()) => {},
        Err(e) => {
            return Err(e);
        },
    }
    if l.padding_px * 2 >= width || l.padding_px * 2 >= height {
        return Err("Export padding leaves no content rectangle".to_owned());
    }
    Ok(
        Rect {
            x: l.padding_px,
            y: l.padding_px,
            width: width - l.padding_px * 2,
            height: height - l.padding_px * 2,
        },
    )
}

/// The layer behind all others, if there is one.
pub open spec fn back_layers(width: u32, height: u32, l: EditLayout, wallpaper: bool) -> Seq<Layer> {
    let all = Rect { x: 0, y: 0, width, height };
    if wallpaper {
        seq![
            Layer {
                cover: true,
                ..plain_layer(LayerContent::Wallpaper, all, LayerRole::Background)
            },
        ]
    } else if l.background_type@ == "gradient"@ {
        seq![plain_layer(LayerContent::Gradient, all, LayerRole::Background)]
    } else {
        Seq::empty()
    }
}

/// Whether a single-precision bit pattern that is not negative is that of zero.
pub open spec fn is_zero(bits: u32) -> bool {
    bits == 0 || bits == 0x8000_0000
}

/// The layer of the screen, if there is one.
pub open spec fn screen_layers(
    width: u32,
    height: u32,
    l: EditLayout,
    screen: Option<SourceFit>,
) -> Seq<Layer> {
    match screen {
        Some(f) => seq![
            Layer {
                clip: if l.corner_radius_px > 0 {
                    ClipMode::RoundedRect
                } else {
                    ClipMode::Unclipped
                },
                radius_px: l.corner_radius_px,
                shadow: if l.shadow_blur_px > 0 && !is_zero(l.shadow_opacity) {
                    Some(Shadow { blur_px: l.shadow_blur_px, opacity: l.shadow_opacity })
                } else {
                    None
                },
                ..plain_layer(
                    LayerContent::Screen,
                    fitted(f, content_of(width, height, l)),
                    LayerRole::Screen,
                )
            },
        ],
        None => Seq::empty(),
    }
}

/// The webcam's shadow.
pub open spec fn webcam_shadow(l: EditLayout) -> Option<Shadow> {
    if l.webcam_shadow {
        Some(Shadow { blur_px: WEBCAM_SHADOW_BLUR_PX, opacity: WEBCAM_SHADOW_OPACITY })
    } else {
        None
    }
}

/// The layers of the webcam, if it is shown: its border, if it has one, and itself. The
/// shadow belongs to the outer one.
pub open spec fn webcam_layers(
    width: u32,
    height: u32,
    l: EditLayout,
    webcam: Option<WebcamLook>,
) -> Seq<Layer> {
    if l.webcam_enabled && webcam is Some {
        let place = bubble_place(width as int, height as int, l, webcam.unwrap());
        let clip = webcam_clip_of(l.webcam_shape@);
        let bordered = l.webcam_border_width > 0;
        let c = l.webcam_border_color@;
        let border = Layer {
            clip,
            shadow: webcam_shadow(l),
            ..plain_layer(
                LayerContent::Color {
                    blue: layout::channel(c, 4) as u8,
                    green: layout::channel(c, 2) as u8,
                    red: layout::channel(c, 0) as u8,
                },
                border_place(width as int, height as int, place, l.webcam_border_width as int),
                LayerRole::WebcamBorder,
            )
        };
        let bubble = Layer {
            clip,
            cover: square_shape(l.webcam_shape@),
            mirrored: l.webcam_mirror,
            shadow: if bordered {
                None
            } else {
                webcam_shadow(l)
            },
            ..plain_layer(LayerContent::Webcam, place, LayerRole::Webcam)
        };
        if bordered {
            seq![border, bubble]
        } else {
            seq![bubble]
        }
    } else {
        Seq::empty()
    }
}

/// The layers of a scene, from the back.
pub open spec fn layers_of(
    width: u32,
    height: u32,
    l: EditLayout,
    screen: Option<SourceFit>,
    webcam: Option<WebcamLook>,
    wallpaper: bool,
) -> Seq<Layer> {
    back_layers(width, height, l, wallpaper) + screen_layers(width, height, l, screen)
        + webcam_layers(width, height, l, webcam)
}

/// A scene has at most four layers.
pub proof fn scenes_have_few_layers(
    width: u32,
    height: u32,
    l: EditLayout,
    screen: Option<SourceFit>,
    webcam: Option<WebcamLook>,
    wallpaper: bool,
)
    ensures
        layers_of(width, height, l, screen, webcam, wallpaper).len() <= MAX_LAYERS,
{
}

/// Nothing is drawn outside the canvas.
pub proof fn layers_stay_on_the_canvas(
    width: u32,
    height: u32,
    l: EditLayout,
    screen: Option<SourceFit>,
    webcam: Option<WebcamLook>,
    wallpaper: bool,
    i: int,
)
    requires
        scene_fault(width, height, l) is None,
        screen matches Some(f) ==> f.width > 0 && f.height > 0,
        webcam matches Some(w) ==> w.width > 0 && w.height > 0,
        0 <= i < layers_of(width, height, l, screen, webcam, wallpaper).len(),
    ensures
        lies_in(
            layers_of(width, height, l, screen, webcam, wallpaper)[i].place,
            Rect { x: 0, y: 0, width, height },
        ),
{
    if screen is Some {
        fitted_pictures_stay_inside(screen.unwrap(), content_of(width, height, l));
    }
    if webcam is Some {
        webcams_stay_on_the_canvas(width, height, l, webcam.unwrap());
    }
}

impl Scene {
    /// A small scene to compare ways of drawing by: the screen on a blue canvas, and the
    /// webcam at its top right if there is one.
    pub fn styled_preview(webcam: bool) -> (r: Scene)
        ensures
            r.width == 64,
            r.height == 64,
            r.background@ == seq![13u8, 31, 71],
            r.background_end is None,
            ({
                let screen = plain_layer(
                    LayerContent::Screen,
                    Rect { x: 12, y: 16, width: 40, height: 32 },
                    LayerRole::Screen,
                );
                let bubble = plain_layer(
                    LayerContent::Webcam,
                    Rect { x: 46, y: 4, width: 12, height: 12 },
                    LayerRole::Screen,
                );
                r.layers@ == if webcam {
                    seq![screen, bubble]
                } else {
                    seq![screen]
                }
            }),
    {
        let mut layers: Vec<Layer> = vec![
            Layer::placed(
                LayerContent::Screen,
                Rect { x: 12, y: 16, width: 40, height: 32 },
                LayerRole::Screen,
            ),
        ];
        if webcam {
            layers.push(
                Layer::placed(
                    LayerContent::Webcam,
                    Rect { x: 46, y: 4, width: 12, height: 12 },
                    LayerRole::Screen,
                ),
            );
        }
        let r = Scene { width: 64, height: 64, background: [13, 31, 71], background_end: None, layers };
        assert(r.background@ =~= seq![13u8, 31, 71]);
        r
    }

    /// What is drawn on a canvas in a layout, of the pictures that there are.
    pub fn from_layout_with_wallpaper(
        width: u32,
        height: u32,
        l: &EditLayout,
        screen: Option<SourceFit>,
        webcam: Option<WebcamLook>,
        wallpaper: bool,
    ) -> (r: Result<Scene, String>)
        requires
            webcam matches Some(w) ==> w.has_room(),
        ensures
            match r {
                Ok(s) => {
                    &&& scene_fault(width, height, *l) is None
                    &&& s.width == width
                    &&& s.height == height
                    &&& s.background@[0] == layout::channel(l.color_start@, 0)
                    &&& s.background@[1] == layout::channel(l.color_start@, 2)
                    &&& s.background@[2] == layout::channel(l.color_start@, 4)
                    &&& (s.background_end is Some) == (l.background_type@ == "gradient"@)
                    &&& s.background_end matches Some(c) ==> c@[0] == layout::channel(
                        l.color_end@,
                        0,
                    ) && c@[1] == layout::channel(l.color_end@, 2) && c@[2] == layout::channel(
                        l.color_end@,
                        4,
                    )
                    &&& s.layers@ == layers_of(width, height, *l, screen, webcam, wallpaper)
                },
                Err(e) => scene_fault(width, height, *l) == Some(e@),
            },
    {
        let content: Rect = match content_rect(width, height, l) {
            Ok(c) => c,
            Err(e) => {
                return Err(e);
            },
        };
        let (background, background_end) = match l.background_rgb() {
            Ok(p) => p,
            Err(e) => {
                return Err(e);
            },
        };
        let all = Rect { x: 0, y: 0, width, height };
        let mut layers: Vec<Layer> = Vec::new();
        if wallpaper {
            let mut layer = Layer::placed(LayerContent::Wallpaper, all, LayerRole::Background);
            layer.cover = true;
            layers.push(layer);
        } else if background_end.is_some() {
            layers.push(Layer::placed(LayerContent::Gradient, all, LayerRole::Background));
        }
        assert(layers@ =~= back_layers(width, height, *l, wallpaper));
        match screen {
            Some(f) => {
                let mut layer = Layer::placed(
                    LayerContent::Screen,
                    fit_inside(f, content),
                    LayerRole::Screen,
                );
                if l.corner_radius_px > 0 {
                    layer.clip = ClipMode::RoundedRect;
                }
                layer.radius_px = l.corner_radius_px;
                if l.shadow_blur_px > 0 && l.shadow_opacity != 0 && l.shadow_opacity
                    != 0x8000_0000 {
                    layer.shadow = Some(
                        Shadow { blur_px: l.shadow_blur_px, opacity: l.shadow_opacity },
                    );
                }
                layers.push(layer);
            },
            None => {},
        }
        let ghost so_far = back_layers(width, height, *l, wallpaper) + screen_layers(
            width,
            height,
            *l,
            screen,
        );
        assert(layers@ =~= so_far);
        if l.webcam_enabled {
            match webcam {
                Some(look) => {
                    match push_webcam(&mut layers, width, height, l, look) {
                        Ok(()) => {},
                        Err(e) => {
                            return Err(e);
                        },
                    }
                },
                None => {},
            }
        }
        assert(layers@ =~= so_far + webcam_layers(width, height, *l, webcam));
        Ok(Scene { width, height, background, background_end, layers })
    }
}

/// Puts the webcam on top of what is drawn.
fn push_webcam(
    layers: &mut Vec<Layer>,
    width: u32,
    height: u32,
    l: &EditLayout,
    look: WebcamLook,
) -> (r: Result<(), String>)
    requires
        scene_fault(width, height, *l) is None,
        l.webcam_enabled,
        look.has_room(),
    ensures
        r is Ok,
        final(layers)@ == old(layers)@ + webcam_layers(width, height, *l, Some(look)),
{
    let (bw, bh) = webcam_bubble_size(width, height, look, l.webcam_shape.as_str());
    let (x, y) = webcam_origin(width, height, bw, bh, l.webcam_position.as_str(), look);
    let place = Rect { x, y, width: bw, height: bh };
    assert(place == bubble_place(width as int, height as int, *l, look));
    let clip: ClipMode = webcam_clip(l.webcam_shape.as_str());
    let shadow: Option<Shadow> = if l.webcam_shadow {
        Some(Shadow { blur_px: WEBCAM_SHADOW_BLUR_PX, opacity: WEBCAM_SHADOW_OPACITY })
    } else {
        None
    };
    let mut bubble = Layer::placed(LayerContent::Webcam, place, LayerRole::Webcam);
    bubble.clip = clip;
    bubble.cover = is_square_shape(l.webcam_shape.as_str());
    bubble.mirrored = l.webcam_mirror;
    let ghost before = layers@;
    if l.webcam_border_width > 0 {
        let color: [u8; 3] = match parse_hex_rgb(l.webcam_border_color.as_str()) {
            Ok(c) => c,
            Err(e) => {
                return Err(e);
            },
        };
        let mut border = Layer::placed(
            LayerContent::Color { blue: color[2], green: color[1], red: color[0] },
            place_border(width, height, place, l.webcam_border_width),
            LayerRole::WebcamBorder,
        );
        border.clip = clip;
        border.shadow = shadow;
        layers.push(border);
    } else {
        bubble.shadow = shadow;
    }
    layers.push(bubble);
    assert(layers@ =~= before + webcam_layers(width, height, *l, Some(look)));
    Ok(())
}

/// A fitted picture lies in the middle of its place: what is left on both sides of it differs
/// by no more than a pixel. One side fills the place, the other is what the picture's shape
/// asks for, as far as there is room.
pub proof fn fitted_pictures_lie_in_the_middle(f: SourceFit, dest: Rect)
    requires
        f.width > 0,
        f.height > 0,
        dest.width > 0,
        dest.height > 0,
        dest.x + dest.width <= u32::MAX,
        dest.y + dest.height <= u32::MAX,
    ensures
        ({
            let r = fitted(f, dest);
            let left = r.x - dest.x;
            let right = dest.x + dest.width - (r.x + r.width);
            let above = r.y - dest.y;
            let below = dest.y + dest.height - (r.y + r.height);
            &&& 0 <= right - left <= 1
            &&& 0 <= below - above <= 1
            &&& f.wider ==> r.width == dest.width
            &&& !f.wider ==> r.height == dest.height
            &&& f.wider && 0 < f.scaled <= dest.height ==> r.height == f.scaled
            &&& !f.wider && 0 < f.scaled <= dest.width ==> r.width == f.scaled
            &&& f.wider && f.scaled > dest.height ==> r.height == dest.height
            &&& !f.wider && f.scaled > dest.width ==> r.width == dest.width
        }),
{
}

/// The content lies inside the padding, which is the same on all four sides.
pub proof fn padding_is_the_same_on_all_sides(width: u32, height: u32, l: EditLayout)
    requires
        scene_fault(width, height, l) is None,
    ensures
        ({
            let c = content_of(width, height, l);
            &&& c.x == l.padding_px
            &&& c.y == l.padding_px
            &&& width - (c.x + c.width) == l.padding_px
            &&& height - (c.y + c.height) == l.padding_px
            &&& c.width > 0
            &&& c.height > 0
        }),
{
}

/// The longer side of the webcam's picture has the size that is asked for, the other follows
/// its shape, and both stay on the canvas. A square or round webcam is as high as wide, and
/// as large as the shorter side.
pub proof fn webcams_have_the_size_that_is_asked_for(
    canvas_w: u32,
    canvas_h: u32,
    look: WebcamLook,
    square: bool,
)
    requires
        canvas_w >= 8,
        canvas_h >= 8,
        look.width > 0,
        look.height > 0,
    ensures
        ({
            let free = bubble_size(canvas_w as int, canvas_h as int, look, false);
            let r = bubble_size(canvas_w as int, canvas_h as int, look, square);
            &&& 8 <= r.0 <= canvas_w
            &&& 8 <= r.1 <= canvas_h
            &&& !square ==> r == free
            &&& square ==> r.0 == r.1 && r.0 == timeline::min(free.0, free.1)
            &&& look.width >= look.height && 8 <= look.target <= canvas_w ==> free.0 == look.target
            &&& look.width >= look.height && 8 <= look.scaled <= canvas_h ==> free.1 == look.scaled
            &&& look.width < look.height && 8 <= look.target <= canvas_h ==> free.1 == look.target
            &&& look.width < look.height && 8 <= look.scaled <= canvas_w ==> free.0 == look.scaled
        }),
{
}

/// A webcam in a corner is as far from both edges there, by eight pixels or by what room
/// there is; the four corners mirror each other. One that is placed by hand lies where it was
/// put, or as far over as the canvas allows.
pub proof fn webcams_lie_in_their_corner(max_x: int, max_y: int, look: WebcamLook)
    requires
        0 <= max_x,
        0 <= max_y,
    ensures
        ({
            let tl = bubble_origin(max_x, max_y, "top-left"@, look);
            let tr = bubble_origin(max_x, max_y, "top-right"@, look);
            let bl = bubble_origin(max_x, max_y, "bottom-left"@, look);
            let br = bubble_origin(max_x, max_y, "bottom-right"@, look);
            let by_hand = bubble_origin(max_x, max_y, "custom"@, look);
            &&& tl.0 == tl.1 && 0 <= tl.0 <= 8
            &&& 16 <= max_x && 16 <= max_y ==> tl.0 == 8
            &&& 2 * tl.0 <= max_x && 2 * tl.0 <= max_y
            &&& tl.0 < 8 ==> 2 * tl.0 + 2 > max_x || 2 * tl.0 + 2 > max_y
            &&& tr.0 == max_x - tl.0 && tr.1 == tl.1
            &&& bl.0 == tl.0 && bl.1 == max_y - tl.1
            &&& br.0 == max_x - tl.0 && br.1 == max_y - tl.1
            &&& look.custom_x <= max_x ==> by_hand.0 == look.custom_x
            &&& look.custom_y <= max_y ==> by_hand.1 == look.custom_y
            &&& look.custom_x > max_x ==> by_hand.0 == max_x
            &&& look.custom_y > max_y ==> by_hand.1 == max_y
        }),
{
    reveal_strlit("top-left");
    reveal_strlit("top-right");
    reveal_strlit("bottom-left");
    reveal_strlit("bottom-right");
    reveal_strlit("custom");
    assert("top-left"@.len() != "top-right"@.len());
    assert("bottom-left"@.len() != "bottom-right"@.len());
    assert("top-left"@.len() != "bottom-left"@.len() && "top-right"@.len() != "bottom-left"@.len());
    assert("custom"@.len() == 6 && "bottom-right"@.len() == 12 && "top-right"@.len() == 9);
    assert("top-left"@.len() == 8 && "bottom-left"@.len() == 11);
}

/// The border reaches over the webcam by its width on every side where the canvas has room
/// for it.
pub proof fn borders_reach_around_the_webcam(width: u32, height: u32, place: Rect, inset: u32)
    requires
        inset <= place.x,
        inset <= place.y,
        0 < place.width,
        0 < place.height,
        place.x + place.width + inset <= width,
        place.y + place.height + inset <= height,
    ensures
        ({
            let b = border_place(width as int, height as int, place, inset as int);
            &&& b.x + inset == place.x
            &&& b.y + inset == place.y
            &&& b.x + b.width == place.x + place.width + inset
            &&& b.y + b.height == place.y + place.height + inset
        }),
{
}

/// The screen is drawn once, in its rounded and shadowed place, over the background; without
/// a screen picture there is none.
pub proof fn the_screen_is_styled_as_laid_out(
    width: u32,
    height: u32,
    l: EditLayout,
    screen: Option<SourceFit>,
    webcam: Option<WebcamLook>,
    wallpaper: bool,
    i: int,
)
    requires
        0 <= i < layers_of(width, height, l, screen, webcam, wallpaper).len(),
    ensures
        ({
            let layers = layers_of(width, height, l, screen, webcam, wallpaper);
            let behind = if wallpaper || l.background_type@ == "gradient"@ {
                1int
            } else {
                0
            };
            &&& layers[i].role == LayerRole::Screen <==> screen is Some && i == behind
            &&& layers[i].role == LayerRole::Background <==> i < behind
            &&& i < behind ==> layers[i].place == (Rect { x: 0, y: 0, width, height })
                && layers[i].cover == wallpaper && layers[i].content == if wallpaper {
                LayerContent::Wallpaper
            } else {
                LayerContent::Gradient
            }
            &&& layers[i].role == LayerRole::Screen ==> {
                &&& layers[i].content == LayerContent::Screen
                &&& layers[i].place == fitted(screen->0, content_of(width, height, l))
                &&& layers[i].radius_px == l.corner_radius_px
                &&& (layers[i].clip == ClipMode::RoundedRect) == (l.corner_radius_px > 0)
                &&& (layers[i].clip == ClipMode::Unclipped) == (l.corner_radius_px == 0)
                &&& (layers[i].shadow is Some) == (l.shadow_blur_px > 0 && l.shadow_opacity != 0
                    && l.shadow_opacity != 0x8000_0000)
                &&& layers[i].shadow matches Some(s) ==> s.blur_px == l.shadow_blur_px && s.opacity
                    == l.shadow_opacity
                &&& !layers[i].mirrored
                &&& !layers[i].cover
            }
        }),
{
}

/// A webcam that is switched on and recorded lies on top of everything, mirrored and clipped
/// as laid out, with its border right behind it where it has one. Its shadow is cast once, by
/// the border or else by the webcam. One that is switched off leaves nothing.
pub proof fn the_webcam_is_styled_as_laid_out(
    width: u32,
    height: u32,
    l: EditLayout,
    screen: Option<SourceFit>,
    webcam: Option<WebcamLook>,
    wallpaper: bool,
)
    ensures
        ({
            let layers = layers_of(width, height, l, screen, webcam, wallpaper);
            let n = layers.len() as int;
            let shown = l.webcam_enabled && webcam is Some;
            let bordered = l.webcam_border_width > 0;
            &&& !shown ==> forall|i: int|
                0 <= i < n ==> (#[trigger] layers[i]).role != LayerRole::Webcam && layers[i].role
                    != LayerRole::WebcamBorder
            &&& shown ==> {
                let top = layers[n - 1];
                let place = bubble_place(width as int, height as int, l, webcam->0);
                &&& n > 0
                &&& top.role == LayerRole::Webcam
                &&& top.content == LayerContent::Webcam
                &&& top.place == place
                &&& top.mirrored == l.webcam_mirror
                &&& (top.clip == ClipMode::Circle) == (l.webcam_shape@ == "circle"@)
                &&& top.clip == ClipMode::Squircle ==> l.webcam_shape@ == "squircle"@
                &&& top.clip == ClipMode::Unclipped ==> !top.cover
                &&& top.clip != ClipMode::Unclipped ==> top.cover
                &&& (top.shadow is Some) == (l.webcam_shadow && !bordered)
                &&& bordered ==> {
                    let border = layers[n - 2];
                    &&& n > 1
                    &&& border.role == LayerRole::WebcamBorder
                    &&& border.place == border_place(
                        width as int,
                        height as int,
                        place,
                        l.webcam_border_width as int,
                    )
                    &&& border.clip == top.clip
                    &&& (border.shadow is Some) == l.webcam_shadow
                }
                &&& !bordered ==> forall|i: int|
                    0 <= i < n ==> (#[trigger] layers[i]).role != LayerRole::WebcamBorder
            }
        }),
{
    let layers = layers_of(width, height, l, screen, webcam, wallpaper);
    let under = back_layers(width, height, l, wallpaper) + screen_layers(width, height, l, screen);
    let top = webcam_layers(width, height, l, webcam);
    assert(layers == under + top);
    assert forall|i: int| 0 <= i < under.len() implies (#[trigger] layers[i]).role
        != LayerRole::Webcam && layers[i].role != LayerRole::WebcamBorder by {
        assert(layers[i] == under[i]);
    }
    if top.len() > 0 {
        assert(layers[layers.len() - 1] == top[top.len() - 1]);
        if top.len() > 1 {
            assert(layers[layers.len() - 2] == top[top.len() - 2]);
        }
    }
}

/// The border of the webcam has the color that is laid out for it.
pub proof fn borders_have_their_color(
    width: u32,
    height: u32,
    l: EditLayout,
    look: WebcamLook,
)
    requires
        l.webcam_enabled,
        l.webcam_border_width > 0,
        layout::is_color(l.webcam_border_color@),
    ensures
        webcam_layers(width, height, l, Some(look)).len() == 2,
        webcam_layers(width, height, l, Some(look))[0].content matches LayerContent::Color {
            blue,
            green,
            red,
        } && red == layout::channel(l.webcam_border_color@, 0) && green == layout::channel(
            l.webcam_border_color@,
            2,
        ) && blue == layout::channel(l.webcam_border_color@, 4),
{
    let h = layout::bare_color(l.webcam_border_color@);
    assert(layout::hex_value(h[0]) is Some && layout::hex_value(h[1]) is Some);
    assert(layout::hex_value(h[2]) is Some && layout::hex_value(h[3]) is Some);
    assert(layout::hex_value(h[4]) is Some && layout::hex_value(h[5]) is Some);
}

/// Larger webcams take a larger share of the canvas, and none takes half of it.
pub proof fn webcam_sizes_grow()
    ensures
        0 < webcam_share("sm"@) < webcam_share("md"@) < webcam_share("lg"@) < webcam_share("xl"@)
            < 500,
{
    reveal_strlit("sm");
    reveal_strlit("md");
    reveal_strlit("lg");
    reveal_strlit("xl");
    assert("sm"@[0] == 's' && "md"@[0] == 'm' && "lg"@[0] == 'l' && "xl"@[0] == 'x');
}

} // verus!
