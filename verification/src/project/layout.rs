//! The canvas and webcam layout of an edit.
use crate::ids;
use crate::paths;
use crate::text;
use vstd::prelude::*;
use vstd::string::*;

verus! {

pub const MAX_PADDING_PX: u32 = 80;

pub const MAX_CORNER_RADIUS_PX: u32 = 32;

pub const MAX_SHADOW_BLUR_PX: u32 = 40;

pub const MAX_BORDER_WIDTH: u32 = 8;

pub const MAX_WALLPAPER_BYTES: u64 = 8 * 1024 * 1024;

/// Single-precision bit patterns: a half, one, eighty, and a hundred.
pub const HALF_BITS: u32 = 0x3f00_0000;

pub const ONE_BITS: u32 = 0x3f80_0000;

pub const EIGHTY_BITS: u32 = 0x42a0_0000;

pub const HUNDRED_BITS: u32 = 0x42c8_0000;

/// The canvas and webcam layout. Fractions are single-precision bit patterns.
#[derive(Debug, PartialEq)]
pub struct EditLayout {
    pub aspect_ratio: String,
    pub padding_px: u32,
    pub background_type: String,
    pub color_start: String,
    pub color_end: String,
    pub corner_radius_px: u32,
    pub shadow_blur_px: u32,
    pub shadow_opacity: u32,
    pub wallpaper_asset: Option<String>,
    pub webcam_enabled: bool,
    pub webcam_shape: String,
    pub webcam_size: String,
    pub webcam_position: String,
    pub webcam_custom_x: u32,
    pub webcam_custom_y: u32,
    pub webcam_border_color: String,
    pub webcam_border_width: u32,
    pub webcam_mirror: bool,
    pub webcam_shadow: bool,
}

fn clone_text(s: &Option<String>) -> (r: Option<String>)
    ensures
        r == *s,
{
    match s {
        Some(s) => Some(s.clone()),
        None => None,
    }
}

impl Clone for EditLayout {
    fn clone(&self) -> (r: Self)
        ensures
            r == *self,
    {
        EditLayout {
            aspect_ratio: self.aspect_ratio.clone(),
            padding_px: self.padding_px,
            background_type: self.background_type.clone(),
            color_start: self.color_start.clone(),
            color_end: self.color_end.clone(),
            corner_radius_px: self.corner_radius_px,
            shadow_blur_px: self.shadow_blur_px,
            shadow_opacity: self.shadow_opacity,
            wallpaper_asset: clone_text(&self.wallpaper_asset),
            webcam_enabled: self.webcam_enabled,
            webcam_shape: self.webcam_shape.clone(),
            webcam_size: self.webcam_size.clone(),
            webcam_position: self.webcam_position.clone(),
            webcam_custom_x: self.webcam_custom_x,
            webcam_custom_y: self.webcam_custom_y,
            webcam_border_color: self.webcam_border_color.clone(),
            webcam_border_width: self.webcam_border_width,
            webcam_mirror: self.webcam_mirror,
            webcam_shadow: self.webcam_shadow,
        }
    }
}

/// Whether a layout has the values of a new one.
pub open spec fn is_new(r: EditLayout) -> bool {
    &&& r.aspect_ratio@ == "16:9"@
    &&& r.padding_px == 0
    &&& r.background_type@ == "gradient"@
    &&& r.color_start@ == "#312e81"@
    &&& r.color_end@ == "#0f172a"@
    &&& r.corner_radius_px == 0
    &&& r.shadow_blur_px == 0
    &&& r.shadow_opacity == HALF_BITS
    &&& r.wallpaper_asset is None
    &&& r.webcam_enabled
    &&& r.webcam_shape@ == "rect"@
    &&& r.webcam_size@ == "md"@
    &&& r.webcam_position@ == "bottom-right"@
    &&& r.webcam_custom_x == EIGHTY_BITS
    &&& r.webcam_custom_y == EIGHTY_BITS
    &&& r.webcam_border_color@ == "#6366f1"@
    &&& r.webcam_border_width == 0
    &&& r.webcam_mirror
    &&& !r.webcam_shadow
}

impl Default for EditLayout {
    fn default() -> (r: Self)
        ensures
            is_new(r),
    {
        EditLayout {
            aspect_ratio: "16:9".to_owned(),
            padding_px: 0,
            background_type: "gradient".to_owned(),
            color_start: "#312e81".to_owned(),
            color_end: "#0f172a".to_owned(),
            corner_radius_px: 0,
            shadow_blur_px: 0,
            shadow_opacity: HALF_BITS,
            wallpaper_asset: None,
            webcam_enabled: true,
            webcam_shape: "rect".to_owned(),
            webcam_size: "md".to_owned(),
            webcam_position: "bottom-right".to_owned(),
            webcam_custom_x: EIGHTY_BITS,
            webcam_custom_y: EIGHTY_BITS,
            webcam_border_color: "#6366f1".to_owned(),
            webcam_border_width: 0,
            webcam_mirror: true,
            webcam_shadow: false,
        }
    }
}

/// Whether a bit pattern is that of a number from zero to the positive number with
/// pattern `top`. Patterns of positive numbers are ordered like the numbers; the
/// pattern with only the sign set is zero too.
pub open spec fn from_zero_to(bits: u32, top: u32) -> bool {
    bits <= top || bits == 0x8000_0000
}

/// Whether two bit patterns stand for the same number; neither is that of no number.
pub open spec fn same_number(a: u32, b: u32) -> bool {
    a == b || (from_zero_to(a, 0) && from_zero_to(b, 0))
}

fn is_from_zero_to(bits: u32, top: u32) -> (r: bool)
    ensures
        r == from_zero_to(bits, top),
{
    bits <= top || bits == 0x8000_0000
}

fn is_same_number(a: u32, b: u32) -> (r: bool)
    ensures
        r == same_number(a, b),
{
    a == b || (is_from_zero_to(a, 0) && is_from_zero_to(b, 0))
}

/// The value of a hexadecimal digit, of either case.
pub open spec fn hex_value(c: char) -> Option<nat> {
    let n = c as nat;
    if 48 <= n <= 57 {
        Some((n - 48) as nat)
    } else if 65 <= n <= 70 {
        Some((n - 55) as nat)
    } else if 97 <= n <= 102 {
        Some((n - 87) as nat)
    } else {
        None
    }
}

/// The value of a hexadecimal digit.
pub fn hex_digit(c: char) -> (r: Option<u8>)
    ensures
        match r {
            Some(v) => hex_value(c) == Some(v as nat) && v < 16,
            None => hex_value(c) is None,
        },
{
    let n: u32 = c as u32;
    if 48 <= n && n <= 57 {
        Some((n - 48) as u8)
    } else if 65 <= n && n <= 70 {
        Some((n - 55) as u8)
    } else if 97 <= n && n <= 102 {
        Some((n - 87) as u8)
    } else {
        None
    }
}

/// A color without its leading number sign.
pub open spec fn bare_color(s: Seq<char>) -> Seq<char> {
    if s.len() > 0 && s[0] == '#' {
        s.skip(1)
    } else {
        s
    }
}

/// Whether a color is six hexadecimal digits, behind an optional number sign.
pub open spec fn is_color(s: Seq<char>) -> bool {
    let h = bare_color(s);
    h.len() == 6 && forall|i: int| 0 <= i < 6 ==> hex_value(#[trigger] h[i]) is Some
}

/// The channel of a color whose digits start at `i`.
pub open spec fn channel(s: Seq<char>, i: int) -> nat {
    let h = bare_color(s);
    hex_value(h[i])->0 * 16 + hex_value(h[i + 1])->0
}

/// Reads a color: red, green and blue.
pub fn parse_hex_rgb(s: &str) -> (r: Result<[u8; 3], String>)
    ensures
        match r {
            Ok(rgb) => is_color(s@) && rgb@[0] == channel(s@, 0) && rgb@[1] == channel(s@, 2)
                && rgb@[2] == channel(s@, 4),
            Err(e) => !is_color(s@) && e@ == "Color must be #RRGGBB"@,
        },
{
    let v = text::to_chars(s);
    let from: usize = if v.len() > 0 && v[0] == '#' {
        1
    } else {
        0
    };
    let ghost h = bare_color(s@);
    assert(h =~= v@.skip(from as int));
    if v.len() - from != 6 {
        return Err("Color must be #RRGGBB".to_owned());
    }
    let mut digits: Vec<u8> = Vec::new();
    let mut i: usize = 0;
    while i < 6
        invariant
            i <= 6,
            from <= 1,
            v@.len() == from + 6,
            h == bare_color(s@),
            h == v@.skip(from as int),
            digits@.len() == i,
            forall|k: int| 0 <= k < i ==> hex_value(h[k]) == Some(#[trigger] digits@[k] as nat) && digits@[k] < 16,
        decreases 6 - i,
    {
        match hex_digit(v[from + i]) {
            Some(d) => {
                digits.push(d);
            },
            None => {
                assert(hex_value(h[i as int]) is None);
                return Err("Color must be #RRGGBB".to_owned());
            },
        }
        i = i + 1;
    }
    assert(forall|k: int| 0 <= k < 6 ==> hex_value(#[trigger] h[k]) == Some(digits@[k] as nat));
    let red: u8 = digits[0] * 16 + digits[1];
    let green: u8 = digits[2] * 16 + digits[3];
    let blue: u8 = digits[4] * 16 + digits[5];
    Ok([red, green, blue])
}

/// The place of the last full stop.
pub open spec fn last_dot(s: Seq<char>) -> Option<int>
    decreases s.len(),
{
    if s.len() == 0 {
        None
    } else if s.last() == '.' {
        Some(s.len() - 1)
    } else {
        last_dot(s.drop_last())
    }
}

/// The extension of a file name: what follows its last full stop, unless that is
/// its first character.
pub open spec fn extension(name: Seq<char>) -> Seq<char> {
    match last_dot(name) {
        Some(p) if p > 0 => name.skip(p + 1),
        _ => Seq::empty(),
    }
}

/// The extension of a file name.
pub fn file_extension(name: &str) -> (r: String)
    ensures
        r@ == extension(name@),
{
    let v = text::to_chars(name);
    let mut n: usize = v.len();
    assert(v@.take(n as int) =~= v@);
    while n > 0 && v[n - 1] != '.'
        invariant
            n <= v@.len(),
            last_dot(v@) == last_dot(v@.take(n as int)),
        ensures
            n <= v@.len(),
            last_dot(v@) == if n > 0 {
                Some(n - 1)
            } else {
                None
            },
        decreases n,
    {
        assert(v@.take(n as int).drop_last() =~= v@.take(n - 1));
        n = n - 1;
    }
    if n > 1 {
        assert(v@.subrange(n as int, v@.len() as int) =~= name@.skip(n as int));
        text::from_chars(&v, n, v.len())
    } else {
        String::new()
    }
}

/// Whether an extension, in any case, is that of an image that can be a wallpaper.
pub open spec fn is_image(ext: Seq<char>) -> bool {
    let e = text::lowered(ext);
    e == "png"@ || e == "jpg"@ || e == "jpeg"@
}

/// The bytes of a text.
pub open spec fn byte_len(s: Seq<char>) -> usize {
    vstd::utf8::encode_utf8(s).len() as usize
}

/// Why a path is not that of a wallpaper asset; `None` when it is.
pub open spec fn wallpaper_fault(s: Seq<char>) -> Option<Seq<char>> {
    let p = paths::parts(s);
    if paths::has_char(s, '\\') || paths::has_char(s, ':') {
        Some("Wallpaper cannot be an external URL"@)
    } else if p.len() < 1 || p[0] != paths::Part::Normal("assets"@) {
        Some("Wallpaper asset must live under assets/"@)
    } else if p.len() < 2 || !(p[1] is Normal) {
        Some("Wallpaper asset name is missing"@)
    } else if p.len() > 2 {
        Some("Wallpaper asset path is too deep"@)
    } else if byte_len(p[1]->Normal_0) > 128 || paths::has_char(p[1]->Normal_0, '\0') {
        Some("Invalid wallpaper asset name"@)
    } else if !is_image(extension(p[1]->Normal_0)) {
        Some("Wallpaper must be PNG or JPEG"@)
    } else {
        None
    }
}

fn image_extension(ext: &str) -> (r: bool)
    ensures
        r == is_image(ext@),
{
    let e = text::to_ascii_lowercase(ext);
    text::str_eq(e.as_str(), "png") || text::str_eq(e.as_str(), "jpg") || text::str_eq(
        e.as_str(),
        "jpeg",
    )
}

/// Checks that a path is that of a wallpaper asset: an image directly in `assets`.
pub fn validate_wallpaper_relative(relative: &str) -> (r: Result<(), String>)
    ensures
        match r {
            Ok(()) => wallpaper_fault(relative@) is None,
            Err(e) => wallpaper_fault(relative@) == Some(e@),
        },
{
    if paths::contains_char(relative, '\\') || paths::contains_char(relative, ':') {
        return Err("Wallpaper cannot be an external URL".to_owned());
    }
    let v = paths::components(relative);
    let ghost p = paths::parts(relative@);
    assert(v@.len() == p.len());
    if v.len() == 0 {
        return Err("Wallpaper asset must live under assets/".to_owned());
    }
    assert(p[0] == v@[0]@);
    let rooted: bool = match &v[0] {
        paths::PathPart::Normal(s) => text::str_eq(s.as_str(), "assets"),
        _ => false,
    };
    if !rooted {
        return Err("Wallpaper asset must live under assets/".to_owned());
    }
    if v.len() < 2 {
        return Err("Wallpaper asset name is missing".to_owned());
    }
    assert(p[1] == v@[1]@);
    match &v[1] {
        paths::PathPart::Normal(name) => {
            if v.len() > 2 {
                return Err("Wallpaper asset path is too deep".to_owned());
            }
            if name.as_str().len() > 128 || paths::contains_char(name.as_str(), '\0') {
                return Err("Invalid wallpaper asset name".to_owned());
            }
            if !image_extension(file_extension(name.as_str()).as_str()) {
                return Err("Wallpaper must be PNG or JPEG".to_owned());
            }
            Ok(())
        },
        _ => Err("Wallpaper asset name is missing".to_owned()),
    }
}

/// The canvas sizes of the supported aspect ratios.
pub open spec fn canvas(aspect: Seq<char>) -> Option<(u32, u32)> {
    if aspect == "16:9"@ {
        Some((1920, 1080))
    } else if aspect == "9:16"@ {
        Some((1080, 1920))
    } else if aspect == "4:3"@ {
        Some((1440, 1080))
    } else if aspect == "1:1"@ {
        Some((1080, 1080))
    } else {
        None
    }
}

pub open spec fn known_shape(s: Seq<char>) -> bool {
    s == "rect"@ || s == "circle"@ || s == "squircle"@ || s == "rect_16_9"@
}

pub open spec fn known_size(s: Seq<char>) -> bool {
    s == "sm"@ || s == "md"@ || s == "lg"@ || s == "xl"@
}

pub open spec fn known_position(s: Seq<char>) -> bool {
    s == "top-left"@ || s == "top-right"@ || s == "bottom-left"@ || s == "bottom-right"@ || s
        == "custom"@
}

/// `n` without its last bit.
pub open spec fn even(n: int) -> int {
    n - n % 2
}

impl EditLayout {
    /// Why the background cannot be drawn; `None` when it can.
    pub open spec fn background_fault(self) -> Option<Seq<char>> {
        if self.background_type@ == "solid"@ || self.background_type@ == "gradient"@ {
            None
        } else if self.background_type@ == "wallpaper"@ {
            match self.wallpaper_asset {
                None => Some("Wallpaper background requires a project asset"@),
                Some(asset) => wallpaper_fault(asset@),
            }
        } else {
            Some("Unknown background type: "@ + self.background_type@)
        }
    }

    /// Why the canvas cannot be drawn; `None` when it can.
    pub open spec fn canvas_fault(self) -> Option<Seq<char>> {
        if canvas(self.aspect_ratio@) is None {
            Some("Unknown aspect ratio: "@ + self.aspect_ratio@)
        } else if self.padding_px > MAX_PADDING_PX {
            Some("Canvas padding is out of range"@)
        } else if self.corner_radius_px > MAX_CORNER_RADIUS_PX {
            Some("Corner radius is out of range"@)
        } else if self.shadow_blur_px > MAX_SHADOW_BLUR_PX {
            Some("Shadow blur is out of range"@)
        } else if !from_zero_to(self.shadow_opacity, ONE_BITS) {
            Some("Shadow opacity is out of range"@)
        } else if self.background_fault() is Some {
            self.background_fault()
        } else if !is_color(self.color_start@) || !is_color(self.color_end@) {
            Some("Color must be #RRGGBB"@)
        } else {
            None
        }
    }

    /// Why the webcam cannot be drawn; `None` when it can.
    pub open spec fn webcam_fault(self) -> Option<Seq<char>> {
        if !known_shape(self.webcam_shape@) {
            Some("Unknown webcam shape: "@ + self.webcam_shape@)
        } else if !known_size(self.webcam_size@) {
            Some("Unknown webcam size: "@ + self.webcam_size@)
        } else if !known_position(self.webcam_position@) {
            Some("Unknown webcam position: "@ + self.webcam_position@)
        } else if !from_zero_to(self.webcam_custom_x, HUNDRED_BITS) {
            Some("Webcam custom X is out of range"@)
        } else if !from_zero_to(self.webcam_custom_y, HUNDRED_BITS) {
            Some("Webcam custom Y is out of range"@)
        } else if self.webcam_border_width > MAX_BORDER_WIDTH {
            Some("Webcam border width is out of range"@)
        } else if !is_color(self.webcam_border_color@) {
            Some("Color must be #RRGGBB"@)
        } else {
            None
        }
    }

    /// Why the layout cannot be used; `None` when it can.
    pub open spec fn fault(self) -> Option<Seq<char>> {
        if self.canvas_fault() is Some {
            self.canvas_fault()
        } else {
            self.webcam_fault()
        }
    }

    /// Whether two layouts are the same, fractions taken as numbers.
    pub open spec fn same(self, other: EditLayout) -> bool {
        &&& self.aspect_ratio@ == other.aspect_ratio@
        &&& self.padding_px == other.padding_px
        &&& self.background_type@ == other.background_type@
        &&& self.color_start@ == other.color_start@
        &&& self.color_end@ == other.color_end@
        &&& self.corner_radius_px == other.corner_radius_px
        &&& self.shadow_blur_px == other.shadow_blur_px
        &&& same_number(self.shadow_opacity, other.shadow_opacity)
        &&& match (self.wallpaper_asset, other.wallpaper_asset) {
            (Some(a), Some(b)) => a@ == b@,
            (None, None) => true,
            _ => false,
        }
        &&& self.webcam_enabled == other.webcam_enabled
        &&& self.webcam_shape@ == other.webcam_shape@
        &&& self.webcam_size@ == other.webcam_size@
        &&& self.webcam_position@ == other.webcam_position@
        &&& same_number(self.webcam_custom_x, other.webcam_custom_x)
        &&& same_number(self.webcam_custom_y, other.webcam_custom_y)
        &&& self.webcam_border_color@ == other.webcam_border_color@
        &&& self.webcam_border_width == other.webcam_border_width
        &&& self.webcam_mirror == other.webcam_mirror
        &&& self.webcam_shadow == other.webcam_shadow
    }

    /// Whether two layouts are the same, fractions taken as numbers.
    pub fn same_as(&self, other: &EditLayout) -> (r: bool)
        ensures
            r == self.same(*other),
    {
        let asset: bool = match (&self.wallpaper_asset, &other.wallpaper_asset) {
            (Some(a), Some(b)) => text::str_eq(a.as_str(), b.as_str()),
            (None, None) => true,
            _ => false,
        };
        asset && self.padding_px == other.padding_px && self.corner_radius_px
            == other.corner_radius_px && self.shadow_blur_px == other.shadow_blur_px
            && is_same_number(self.shadow_opacity, other.shadow_opacity) && self.webcam_enabled
            == other.webcam_enabled && is_same_number(self.webcam_custom_x, other.webcam_custom_x)
            && is_same_number(self.webcam_custom_y, other.webcam_custom_y)
            && self.webcam_border_width == other.webcam_border_width && self.webcam_mirror
            == other.webcam_mirror && self.webcam_shadow == other.webcam_shadow && text::str_eq(
            self.aspect_ratio.as_str(),
            other.aspect_ratio.as_str(),
        ) && text::str_eq(self.background_type.as_str(), other.background_type.as_str())
            && text::str_eq(self.color_start.as_str(), other.color_start.as_str())
            && text::str_eq(self.color_end.as_str(), other.color_end.as_str()) && text::str_eq(
            self.webcam_shape.as_str(),
            other.webcam_shape.as_str(),
        ) && text::str_eq(self.webcam_size.as_str(), other.webcam_size.as_str()) && text::str_eq(
            self.webcam_position.as_str(),
            other.webcam_position.as_str(),
        ) && text::str_eq(
            self.webcam_border_color.as_str(),
            other.webcam_border_color.as_str(),
        )
    }

    /// The canvas of a preview.
    pub fn preview_dimensions(&self) -> (r: Result<(u32, u32), String>)
        ensures
            match r {
                Ok(size) => canvas(self.aspect_ratio@) == Some(size),
                Err(e) => canvas(self.aspect_ratio@) is None && e@ == "Unknown aspect ratio: "@
                    + self.aspect_ratio@,
            },
    {
        let aspect = self.aspect_ratio.as_str();
        if text::str_eq(aspect, "16:9") {
            Ok((1920, 1080))
        } else if text::str_eq(aspect, "9:16") {
            Ok((1080, 1920))
        } else if text::str_eq(aspect, "4:3") {
            Ok((1440, 1080))
        } else if text::str_eq(aspect, "1:1") {
            Ok((1080, 1080))
        } else {
            let mut t: String = "Unknown aspect ratio: ".to_owned();
            t.append(aspect);
            Err(t)
        }
    }

    /// The size of an export: custom sizes are kept, and the standard landscape
    /// sizes are turned into the layout's shape with the same height, or, in
    /// portrait, with that height as their width. Both sides are even.
    pub open spec fn export_size(self, width: u32, height: u32) -> (int, int) {
        let standard = (width == 1280 && height == 720) || (width == 1920 && height == 1080) || (
        width == 3840 && height == 2160);
        if !standard {
            (width as int, height as int)
        } else if self.aspect_ratio@ == "9:16"@ {
            (even(height as int), even(height * 16 / 9))
        } else if self.aspect_ratio@ == "4:3"@ {
            (even(height * 4 / 3), even(height as int))
        } else if self.aspect_ratio@ == "1:1"@ {
            (even(height as int), even(height as int))
        } else {
            (even(width as int), even(height as int))
        }
    }

    /// The size of an export.
    pub fn fit_export_size(&self, width: u32, height: u32) -> (r: Result<(u32, u32), String>)
        ensures
            match r {
                Ok(size) => self.fault() is None && (size.0 as int, size.1 as int)
                    == self.export_size(width, height),
                Err(e) => self.fault() == Some(e@),
            },
    {
        match self.validate() {
            Ok(()) => {},
            Err(e) => {
                return Err(e);
            },
        }
        let standard: bool = (width == 1280 && height == 720) || (width == 1920 && height == 1080)
            || (width == 3840 && height == 2160);
        if !standard {
            return Ok((width, height));
        }
        proof {
            reveal_strlit("9:16");
            reveal_strlit("4:3");
            reveal_strlit("1:1");
        }
        let (w, h): (u32, u32) = if text::str_eq(self.aspect_ratio.as_str(), "9:16") {
            (height, height * 16 / 9)
        } else if text::str_eq(self.aspect_ratio.as_str(), "4:3") {
            (height * 4 / 3, height)
        } else if text::str_eq(self.aspect_ratio.as_str(), "1:1") {
            (height, height)
        } else {
            (width, height)
        };
        Ok((w - w % 2, h - h % 2))
    }

    fn check_background(&self) -> (r: Result<(), String>)
        ensures
            match r {
                Ok(()) => self.background_fault() is None,
                Err(e) => self.background_fault() == Some(e@),
            },
    {
        let kind = self.background_type.as_str();
        if text::str_eq(kind, "solid") || text::str_eq(kind, "gradient") {
            Ok(())
        } else if text::str_eq(kind, "wallpaper") {
            match &self.wallpaper_asset {
                None => Err("Wallpaper background requires a project asset".to_owned()),
                Some(asset) => validate_wallpaper_relative(asset.as_str()),
            }
        } else {
            let mut t: String = "Unknown background type: ".to_owned();
            t.append(kind);
            Err(t)
        }
    }

    fn check_canvas(&self) -> (r: Result<(), String>)
        ensures
            match r {
                Ok(()) => self.canvas_fault() is None,
                Err(e) => self.canvas_fault() == Some(e@),
            },
    {
        match self.preview_dimensions() {
            Ok(_) => {},
            Err(e) => {
                return Err(e);
            },
        }
        if self.padding_px > MAX_PADDING_PX {
            return Err("Canvas padding is out of range".to_owned());
        }
        if self.corner_radius_px > MAX_CORNER_RADIUS_PX {
            return Err("Corner radius is out of range".to_owned());
        }
        if self.shadow_blur_px > MAX_SHADOW_BLUR_PX {
            return Err("Shadow blur is out of range".to_owned());
        }
        if !is_from_zero_to(self.shadow_opacity, ONE_BITS) {
            return Err("Shadow opacity is out of range".to_owned());
        }
        match self.check_background() {
            Ok(()) => {},
            Err(e) => {
                return Err(e);
            },
        }
        match parse_hex_rgb(self.color_start.as_str()) {
            Ok(_) => {},
            Err(e) => {
                return Err(e);
            },
        }
        match parse_hex_rgb(self.color_end.as_str()) {
            Ok(_) => Ok(()),
            Err(e) => Err(e),
        }
    }

    fn check_webcam(&self) -> (r: Result<(), String>)
        ensures
            match r {
                Ok(()) => self.webcam_fault() is None,
                Err(e) => self.webcam_fault() == Some(e@),
            },
    {
        let shape = self.webcam_shape.as_str();
        if !(text::str_eq(shape, "rect") || text::str_eq(shape, "circle") || text::str_eq(
            shape,
            "squircle",
        ) || text::str_eq(shape, "rect_16_9")) {
            let mut t: String = "Unknown webcam shape: ".to_owned();
            t.append(shape);
            return Err(t);
        }
        let size = self.webcam_size.as_str();
        if !(text::str_eq(size, "sm") || text::str_eq(size, "md") || text::str_eq(size, "lg")
            || text::str_eq(size, "xl")) {
            let mut t: String = "Unknown webcam size: ".to_owned();
            t.append(size);
            return Err(t);
        }
        let position = self.webcam_position.as_str();
        if !(text::str_eq(position, "top-left") || text::str_eq(position, "top-right")
            || text::str_eq(position, "bottom-left") || text::str_eq(position, "bottom-right")
            || text::str_eq(position, "custom")) {
            let mut t: String = "Unknown webcam position: ".to_owned();
            t.append(position);
            return Err(t);
        }
        if !is_from_zero_to(self.webcam_custom_x, HUNDRED_BITS) {
            return Err("Webcam custom X is out of range".to_owned());
        }
        if !is_from_zero_to(self.webcam_custom_y, HUNDRED_BITS) {
            return Err("Webcam custom Y is out of range".to_owned());
        }
        if self.webcam_border_width > MAX_BORDER_WIDTH {
            return Err("Webcam border width is out of range".to_owned());
        }
        match parse_hex_rgb(self.webcam_border_color.as_str()) {
            Ok(_) => Ok(()),
            Err(e) => Err(e),
        }
    }

    /// Checks that the layout can be used.
    pub fn validate(&self) -> (r: Result<(), String>)
        ensures
            match r {
                Ok(()) => self.fault() is None,
                Err(e) => self.fault() == Some(e@),
            },
    {
        match self.check_canvas() {
            Ok(()) => self.check_webcam(),
            Err(e) => Err(e),
        }
    }

    /// The background's colors, each as red, green and blue: the clear color, and
    /// where it is a gradient, the color at its end.
    pub fn background_rgb(&self) -> (r: Result<([u8; 3], Option<[u8; 3]>), String>)
        ensures
            match r {
                Ok((start, end)) => {
                    &&& is_color(self.color_start@)
                    &&& start@[0] == channel(self.color_start@, 0)
                    &&& start@[1] == channel(self.color_start@, 2)
                    &&& start@[2] == channel(self.color_start@, 4)
                    &&& (end is Some) == (self.background_type@ == "gradient"@)
                    &&& end matches Some(c) ==> is_color(self.color_end@) && c@[0] == channel(
                        self.color_end@,
                        0,
                    ) && c@[1] == channel(self.color_end@, 2) && c@[2] == channel(
                        self.color_end@,
                        4,
                    )
                },
                Err(e) => e@ == "Color must be #RRGGBB"@ && (!is_color(self.color_start@) || (
                self.background_type@ == "gradient"@ && !is_color(self.color_end@))),
            },
    {
        let start: [u8; 3] = match parse_hex_rgb(self.color_start.as_str()) {
            Ok(c) => c,
            Err(e) => {
                return Err(e);
            },
        };
        if text::str_eq(self.background_type.as_str(), "gradient") {
            match parse_hex_rgb(self.color_end.as_str()) {
                Ok(c) => Ok((start, Some(c))),
                Err(e) => Err(e),
            }
        } else {
            Ok((start, None))
        }
    }
}

/// Checks that a layout can be used.
pub fn validate_layout(layout: &EditLayout) -> (r: Result<(), String>)
    ensures
        match r {
            Ok(()) => layout.fault() is None,
            Err(e) => layout.fault() == Some(e@),
        },
{
    layout.validate()
}

/// What the file system says of a file: of the path itself, links not followed.
#[derive(Debug, PartialEq, Eq)]
pub enum FileLook {
    /// It could not be looked at, and why.
    Failed(String),
    Symlink,
    /// A regular file of so many bytes.
    Regular(u64),
    Directory,
    Other,
}

/// Whether a path names a place on a network: it holds a colon and two slashes.
pub open spec fn is_url(s: Seq<char>) -> bool {
    exists|i: int|
        0 <= i && i + 2 < s.len() && #[trigger] s[i] == ':' && s[i + 1] == '/' && s[i + 2] == '/'
}

/// Whether a path names a place on a network.
pub fn names_url(s: &str) -> (r: bool)
    ensures
        r == is_url(s@),
{
    let v = text::to_chars(s);
    let mut i: usize = 0;
    while i < v.len() && v.len() - i > 2
        invariant
            i <= v@.len(),
            v@ == s@,
            forall|k: int|
                0 <= k < i && k + 2 < s@.len() ==> !(#[trigger] s@[k] == ':' && s@[k + 1] == '/'
                    && s@[k + 2] == '/'),
        decreases v@.len() - i,
    {
        if v[i] == ':' && v[i + 1] == '/' && v[i + 2] == '/' {
            assert(s@[i as int] == ':');
            return true;
        }
        i = i + 1;
    }
    false
}

/// The extension of a path's last part, in lower case.
pub open spec fn path_extension(s: Seq<char>) -> Seq<char> {
    match paths::file_name_of(s) {
        Some(name) => text::lowered(extension(name)),
        None => Seq::empty(),
    }
}

/// The extension of the image at `source`, which can become a wallpaper, or why it
/// cannot.
pub open spec fn wallpaper_source(source: Seq<char>, look: FileLook) -> Result<
    Seq<char>,
    Seq<char>,
> {
    if source.len() == 0 || is_url(source) {
        Err("Wallpaper cannot be an external URL"@)
    } else {
        match look {
            FileLook::Failed(e) => Err(e@),
            FileLook::Symlink => Err("Wallpaper cannot be a symlink"@),
            FileLook::Regular(len) => if len == 0 || len > MAX_WALLPAPER_BYTES {
                Err("Wallpaper exceeds size limit"@)
            } else if !is_image(path_extension(source)) {
                Err("Wallpaper must be PNG or JPEG"@)
            } else {
                Ok(path_extension(source))
            },
            _ => Err("Wallpaper must be a regular file"@),
        }
    }
}

/// Checks that the file at `source` can become a wallpaper, and gives its
/// extension.
pub fn check_wallpaper_source(source: &str, look: &FileLook) -> (r: Result<String, String>)
    ensures
        match r {
            Ok(ext) => {
                &&& wallpaper_source(source@, *look) == Ok::<Seq<char>, Seq<char>>(ext@)
                &&& is_image(ext@)
                &&& text::lowered(ext@) == ext@
            },
            Err(e) => wallpaper_source(source@, *look) == Err::<Seq<char>, Seq<char>>(e@),
        },
{
    if source.is_empty() || names_url(source) {
        return Err("Wallpaper cannot be an external URL".to_owned());
    }
    match look {
        FileLook::Failed(e) => Err(e.clone()),
        FileLook::Symlink => Err("Wallpaper cannot be a symlink".to_owned()),
        FileLook::Regular(len) => {
            if *len == 0 || *len > MAX_WALLPAPER_BYTES {
                return Err("Wallpaper exceeds size limit".to_owned());
            }
            let ext: String = match paths::file_name(source) {
                Some(name) => text::to_ascii_lowercase(file_extension(name.as_str()).as_str()),
                None => String::new(),
            };
            assert(ext@ == path_extension(source@));
            if !image_extension(ext.as_str()) {
                return Err("Wallpaper must be PNG or JPEG".to_owned());
            }
            assert(text::lowered(ext@) =~= ext@);
            Ok(ext)
        },
        _ => Err("Wallpaper must be a regular file".to_owned()),
    }
}

/// Why a project's directory of assets cannot be used; `None` when it can, or when
/// it is not there yet.
pub open spec fn assets_fault(look: FileLook) -> Option<Seq<char>> {
    match look {
        FileLook::Failed(_) => None,
        FileLook::Directory => None,
        FileLook::Symlink => Some("Project assets directory cannot be a symlink"@),
        _ => Some("Project assets path is not a directory"@),
    }
}

/// Checks that a project's directory of assets can be used or made.
pub fn check_assets_dir(look: &FileLook) -> (r: Result<(), String>)
    ensures
        match r {
            Ok(()) => assets_fault(*look) is None,
            Err(e) => assets_fault(*look) == Some(e@),
        },
{
    match look {
        FileLook::Failed(_) => Ok(()),
        FileLook::Directory => Ok(()),
        FileLook::Symlink => Err("Project assets directory cannot be a symlink".to_owned()),
        _ => Err("Project assets path is not a directory".to_owned()),
    }
}

/// The path of a wallpaper asset.
pub open spec fn wallpaper_path(id: Seq<char>, ext: Seq<char>) -> Seq<char> {
    "assets/wallpaper-"@ + id + "."@ + ext
}

/// The path that a wallpaper of `len` bytes gets: a fresh name in the project's
/// directory of assets.
pub fn ingest_wallpaper(ext: &str, len: u64) -> (r: Result<String, String>)
    requires
        is_image(ext@),
        text::lowered(ext@) == ext@,
    ensures
        match r {
            Ok(path) => {
                &&& 0 < len <= MAX_WALLPAPER_BYTES
                &&& wallpaper_fault(path@) is None
                &&& exists|id: Seq<char>|
                    ids::is_id(id) && path@ == #[trigger] wallpaper_path(id, ext@)
            },
            Err(e) => !(0 < len <= MAX_WALLPAPER_BYTES) && e@ == "Wallpaper exceeds size limit"@,
        },
{
    if len == 0 || len > MAX_WALLPAPER_BYTES {
        return Err("Wallpaper exceeds size limit".to_owned());
    }
    let id = ids::new_id();
    let mut path: String = "assets/wallpaper-".to_owned();
    path.append(id.as_str());
    path.append(".");
    path.append(ext);
    proof {
        a_fresh_wallpaper_path_is_valid(id@, ext@);
        assert(path@ == wallpaper_path(id@, ext@));
    }
    match validate_wallpaper_relative(path.as_str()) {
        Ok(()) => Ok(path),
        Err(e) => Err(e),
    }
}

proof fn lemma_last_dot(a: Seq<char>, b: Seq<char>)
    requires
        !paths::has_char(b, '.'),
    ensures
        last_dot(a.push('.') + b) == Some(a.len() as int),
    decreases b.len(),
{
    let s = a.push('.') + b;
    if b.len() == 0 {
        assert(s =~= a.push('.'));
    } else {
        assert(paths::has_char(b, b.last()));
        assert forall|i: int| 0 <= i < b.len() - 1 implies b.drop_last()[i] != '.' by {
            assert(paths::has_char(b, b[i]));
        }
        lemma_last_dot(a, b.drop_last());
        assert(s.drop_last() =~= a.push('.') + b.drop_last());
    }
}

/// A path made of an identifier and an image's extension is that of a wallpaper
/// asset.
pub proof fn a_fresh_wallpaper_path_is_valid(id: Seq<char>, ext: Seq<char>)
    requires
        ids::is_id(id),
        is_image(ext),
        text::lowered(ext) == ext,
    ensures
        wallpaper_fault(wallpaper_path(id, ext)) is None,
{
    reveal_strlit("assets/wallpaper-");
    reveal_strlit("assets");
    reveal_strlit("wallpaper-");
    reveal_strlit(".");
    reveal_strlit("..");
    reveal_strlit("png");
    reveal_strlit("jpg");
    reveal_strlit("jpeg");
    let stem = "wallpaper-"@ + id;
    let name = stem.push('.') + ext;
    let path = wallpaper_path(id, ext);
    assert(path =~= "assets"@.push('/') + name);
    assert forall|i: int| 0 <= i < name.len() implies name[i] != '/' && name[i] != '\\' && name[i]
        != ':' && name[i] != '\0' && '\0' <= #[trigger] name[i] <= '\u{7f}' by {
        if i < 10 {
            assert(name[i] == "wallpaper-"@[i]);
            assert(i == 0 || i == 1 || i == 2 || i == 3 || i == 4 || i == 5 || i == 6 || i == 7
                || i == 8 || i == 9);
        } else if i < 46 {
            assert(name[i] == id[i - 10]);
        } else if i > 46 {
            let k = i - 47;
            assert(name[i] == ext[k]);
            assert(k == 0 || k == 1 || k == 2 || k == 3);
        }
    }
    paths::a_plain_name_is_one_part("assets"@);
    assert(name[0] == 'w');
    paths::joining_a_name_adds_a_part("assets"@, name);
    assert(paths::parts(path) =~= seq![paths::Part::Normal("assets"@), paths::Part::Normal(name)]);
    assert forall|i: int| 0 <= i < ext.len() implies ext[i] != '.' by {
        assert(i == 0 || i == 1 || i == 2 || i == 3);
    }
    lemma_last_dot(stem, ext);
    assert(name.skip((stem.len() + 1) as int) =~= ext);
    assert(vstd::utf8::is_ascii_chars(name));
    vstd::utf8::is_ascii_chars_encode_utf8(name);
}

/// The standard sizes keep their height as the shorter or the only free side and take the
/// shape of the layout, to the even pixel. Other sizes are kept as they are.
pub proof fn exports_take_the_shape_of_the_layout(l: EditLayout, width: u32, height: u32)
    requires
        width <= 16_384,
        height <= 16_384,
    ensures
        ({
            let (w, h) = l.export_size(width, height);
            let standard = (width, height) == (1280u32, 720u32) || (width, height) == (
                1920u32,
                1080u32,
            ) || (width, height) == (3840u32, 2160u32);
            &&& !standard ==> w == width && h == height
            &&& standard ==> w % 2 == 0 && h % 2 == 0
            &&& standard && l.aspect_ratio@ == "16:9"@ ==> w * 9 == h * 16 && h == height
            &&& standard && l.aspect_ratio@ == "9:16"@ ==> w == height && h * 9 <= w * 16 < (h + 2)
                * 9
            &&& standard && l.aspect_ratio@ == "4:3"@ ==> h == height && w * 3 == h * 4
            &&& standard && l.aspect_ratio@ == "1:1"@ ==> w == h && h == height
        }),
{
    reveal_strlit("16:9");
    reveal_strlit("9:16");
    reveal_strlit("4:3");
    reveal_strlit("1:1");
    assert("16:9"@[0] != "9:16"@[0]);
    assert("4:3"@[0] != "1:1"@[0]);
    assert("16:9"@.len() != "4:3"@.len() && "16:9"@.len() != "1:1"@.len());
    assert("9:16"@.len() != "4:3"@.len() && "9:16"@.len() != "1:1"@.len());
}

/// A preview has the shape of the layout, with 1080 pixels on its shorter side.
pub proof fn previews_have_the_shape_of_the_layout(aspect: Seq<char>)
    ensures
        match canvas(aspect) {
            Some((w, h)) => {
                &&& w == 1080 || h == 1080
                &&& w >= 1080 && h >= 1080
                &&& aspect == "16:9"@ ==> w * 9 == h * 16
                &&& aspect == "9:16"@ ==> w * 16 == h * 9
                &&& aspect == "4:3"@ ==> w * 3 == h * 4
                &&& aspect == "1:1"@ ==> w == h
            },
            None => aspect != "16:9"@ && aspect != "9:16"@ && aspect != "4:3"@ && aspect != "1:1"@,
        },
{
    reveal_strlit("16:9");
    reveal_strlit("9:16");
    reveal_strlit("4:3");
    reveal_strlit("1:1");
    assert("16:9"@[0] != "9:16"@[0]);
    assert("4:3"@[0] != "1:1"@[0]);
    assert("16:9"@.len() != "4:3"@.len() && "16:9"@.len() != "1:1"@.len());
    assert("9:16"@.len() != "4:3"@.len() && "9:16"@.len() != "1:1"@.len());
}

/// Hexadecimal digits count from zero to fifteen, each more than the one before it, and
/// capital letters as small ones.
pub proof fn hexadecimal_digits_count(c: char, d: char)
    ensures
        hex_value('0') == Some(0nat),
        hex_value('9') == Some(9nat),
        hex_value('a') == Some(10nat),
        hex_value('f') == Some(15nat),
        hex_value('A') == Some(10nat),
        hex_value('F') == Some(15nat),
        hex_value(c) is Some <==> '0' <= c <= '9' || 'a' <= c <= 'f' || 'A' <= c <= 'F',
        '0' <= c < d <= '9' || 'a' <= c < d <= 'f' || 'A' <= c < d <= 'F' ==> hex_value(d)->0
            - hex_value(c)->0 == d as int - c as int,
{
}

/// The number sign before a color is optional, and the colors are two digits each, the first
/// of them sixteen times the second.
pub proof fn colors_are_read_with_or_without_their_sign(h: Seq<char>, i: int)
    requires
        h.len() == 6,
        h[0] != '#',
        0 <= i < 5,
    ensures
        is_color(seq!['#'] + h) == is_color(h),
        channel(seq!['#'] + h, i) == channel(h, i),
        is_color(h) ==> channel(h, i) <= 255 && channel(h, i) / 16 == hex_value(h[i])->0 && channel(
            h,
            i,
        ) % 16 == hex_value(h[i + 1])->0,
{
    assert((seq!['#'] + h).skip(1) =~= h);
    if is_color(h) {
        assert(hex_value(h[i]) is Some && hex_value(h[i + 1]) is Some);
    }
}

proof fn lemma_dot_before(stem: Seq<char>, ext: Seq<char>)
    requires
        forall|i: int| 0 <= i < ext.len() ==> #[trigger] ext[i] != '.',
    ensures
        last_dot(stem + seq!['.'] + ext) == Some(stem.len() as int),
    decreases ext.len(),
{
    let name = stem + seq!['.'] + ext;
    if ext.len() > 0 {
        assert(name.last() == ext[ext.len() - 1]);
        assert(name.drop_last() =~= stem + seq!['.'] + ext.drop_last());
        lemma_dot_before(stem, ext.drop_last());
    } else {
        assert(name.last() == '.');
    }
}

/// The extension of a name is what follows its last dot, and a name that only starts with a
/// dot has none.
pub proof fn extensions_follow_the_last_dot(stem: Seq<char>, ext: Seq<char>)
    requires
        forall|i: int| 0 <= i < ext.len() ==> #[trigger] ext[i] != '.',
    ensures
        stem.len() > 0 ==> extension(stem + seq!['.'] + ext) == ext,
        stem.len() == 0 ==> extension(stem + seq!['.'] + ext) == Seq::<char>::empty(),
{
    lemma_dot_before(stem, ext);
    assert((stem + seq!['.'] + ext).skip((stem.len() + 1) as int) =~= ext);
}

/// Two layouts are the same only where they agree in everything, and each is the same as
/// itself; zero is zero with either sign.
pub proof fn layouts_that_are_the_same_look_the_same(a: EditLayout, b: EditLayout)
    ensures
        a.same(a),
        a.same(b) == b.same(a),
        a.same(b) ==> a.aspect_ratio@ == b.aspect_ratio@ && a.padding_px == b.padding_px
            && a.background_type@ == b.background_type@ && a.color_start@ == b.color_start@
            && a.color_end@ == b.color_end@ && a.corner_radius_px == b.corner_radius_px
            && a.shadow_blur_px == b.shadow_blur_px && a.webcam_enabled == b.webcam_enabled
            && a.webcam_shape@ == b.webcam_shape@ && a.webcam_size@ == b.webcam_size@
            && a.webcam_position@ == b.webcam_position@ && a.webcam_border_color@
            == b.webcam_border_color@ && a.webcam_border_width == b.webcam_border_width
            && a.webcam_mirror == b.webcam_mirror && a.webcam_shadow == b.webcam_shadow,
        a.same(b) ==> (a.wallpaper_asset is Some) == (b.wallpaper_asset is Some) && (
        a.wallpaper_asset is Some ==> a.wallpaper_asset->0@ == b.wallpaper_asset->0@),
        a.same(b) ==> a.shadow_opacity % 0x8000_0000 == b.shadow_opacity % 0x8000_0000
            && a.webcam_custom_x % 0x8000_0000 == b.webcam_custom_x % 0x8000_0000
            && a.webcam_custom_y % 0x8000_0000 == b.webcam_custom_y % 0x8000_0000,
{
}

/// A layout stands exactly where all that it says is known and in range.
pub proof fn layouts_in_range_stand(l: EditLayout)
    ensures
        l.fault() is None ==> {
            &&& canvas(l.aspect_ratio@) is Some
            &&& l.padding_px <= 80
            &&& l.corner_radius_px <= 32
            &&& l.shadow_blur_px <= 40
            &&& l.webcam_border_width <= 8
            &&& l.background_type@ == "solid"@ || l.background_type@ == "gradient"@ || (
            l.background_type@ == "wallpaper"@ && (l.wallpaper_asset matches Some(a)
                && wallpaper_fault(a@) is None))
            &&& is_color(l.color_start@) && is_color(l.color_end@) && is_color(
                l.webcam_border_color@,
            )
            &&& known_shape(l.webcam_shape@) && known_size(l.webcam_size@) && known_position(
                l.webcam_position@,
            )
            &&& l.shadow_opacity <= ONE_BITS || l.shadow_opacity == 0x8000_0000
            &&& l.webcam_custom_x <= HUNDRED_BITS || l.webcam_custom_x == 0x8000_0000
            &&& l.webcam_custom_y <= HUNDRED_BITS || l.webcam_custom_y == 0x8000_0000
        },
        is_new(l) ==> l.fault() is None,
{
    reveal_strlit("#312e81");
    reveal_strlit("#0f172a");
    reveal_strlit("#6366f1");
    assert("#312e81"@.skip(1) =~= seq!['3', '1', '2', 'e', '8', '1']);
    assert("#0f172a"@.skip(1) =~= seq!['0', 'f', '1', '7', '2', 'a']);
    assert("#6366f1"@.skip(1) =~= seq!['6', '3', '6', '6', 'f', '1']);
    assert(is_color("#312e81"@) && is_color("#0f172a"@) && is_color("#6366f1"@));
}

} // verus!
