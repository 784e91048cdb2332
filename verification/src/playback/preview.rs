//! The native preview surface: who owns it, where it lies, and what was shown on it.
//! Coordinates are held as the bits of 64-bit floating-point numbers.
use crate::text;
use vstd::prelude::*;
use vstd::string::*;

verus! {

/// The bits of 8192.
pub const MAX_VIEWPORT_BITS: u64 = 0x40c0_0000_0000_0000;

/// The bits of 8.
pub const MAX_SCALE_BITS: u64 = 0x4020_0000_0000_0000;

/// The bits of 1.
pub const ONE_SCALE_BITS: u64 = 0x3ff0_0000_0000_0000;

/// The bits of infinity.
pub const INFINITY_BITS: u64 = 0x7ff0_0000_0000_0000;

/// The bits of zero with a negative sign.
pub const NEGATIVE_ZERO_BITS: u64 = 0x8000_0000_0000_0000;

#[derive(Debug, Clone, Copy, PartialEq, Eq, Structural)]
pub struct Clip {
    pub x: u64,
    pub y: u64,
    pub width: u64,
    pub height: u64,
}

/// Where the surface lies in its window.
#[derive(Debug, PartialEq)]
pub struct PreviewViewport {
    pub window_label: String,
    pub x: u64,
    pub y: u64,
    pub width: u64,
    pub height: u64,
    pub backing_scale: u64,
    pub visible: bool,
    pub occluded: bool,
    pub revision: u64,
    pub generation: u64,
    pub clip: Option<Clip>,
}

#[derive(Debug, Clone, Copy, PartialEq, Eq, Structural)]
pub struct PhysicalRect {
    pub x: i32,
    pub y: i32,
    pub width: u32,
    pub height: u32,
}

/// What the surface does with clicks.
#[derive(Debug, Clone, Copy, PartialEq, Eq, Structural)]
pub enum PreviewHitMode {
    Consume,
    Circle,
    PassThrough,
    CirclePassThrough,
    SquirclePassThrough,
}

/// How the surface is doing.
#[derive(Debug, PartialEq)]
pub struct PreviewStatus {
    pub attached: bool,
    pub window_label: Option<String>,
    pub generation: u64,
    pub layout_revision: u64,
    pub arrangement: String,
    pub supported: bool,
    pub presented_kind: String,
    pub copies_per_present: u32,
    pub copies: u64,
    pub presented_bytes: u64,
    pub backing_scale: u64,
    pub physical: Option<PhysicalRect>,
    pub visible: bool,
    pub occluded: bool,
    pub hit_mode: PreviewHitMode,
    pub diagnostics: Vec<String>,
}

/// Whether bits are those of a finite number.
pub open spec fn finite(bits: u64) -> bool {
    bits < INFINITY_BITS || NEGATIVE_ZERO_BITS <= bits < NEGATIVE_ZERO_BITS + INFINITY_BITS
}

fn is_finite(bits: u64) -> (r: bool)
    ensures
        r == finite(bits),
{
    bits < INFINITY_BITS || (bits >= NEGATIVE_ZERO_BITS && bits - NEGATIVE_ZERO_BITS
        < INFINITY_BITS)
}

/// Whether bits are those of a number above zero and up to `top`.
pub open spec fn positive_upto(bits: u64, top: u64) -> bool {
    0 < bits <= top
}

/// Whether bits of a finite number are those of one below zero.
pub open spec fn negative(bits: u64) -> bool {
    bits > NEGATIVE_ZERO_BITS
}

/// Whether what the surface is clipped to makes sense.
pub open spec fn clip_ok(c: Clip) -> bool {
    &&& finite(c.x)
    &&& finite(c.y)
    &&& finite(c.width)
    &&& finite(c.height)
    &&& !negative(c.width)
    &&& !negative(c.height)
}

impl PreviewViewport {
    /// Whether the place makes sense.
    pub open spec fn placed(self) -> bool {
        &&& finite(self.x)
        &&& finite(self.y)
        &&& positive_upto(self.width, MAX_VIEWPORT_BITS)
        &&& positive_upto(self.height, MAX_VIEWPORT_BITS)
        &&& positive_upto(self.backing_scale, MAX_SCALE_BITS)
        &&& match self.clip {
            Some(c) => clip_ok(c),
            None => true,
        }
    }

    /// Why a viewport is refused; `None` when it is not.
    pub open spec fn fault(self) -> Option<Seq<char>> {
        if text::trimmed(self.window_label@).len() == 0 {
            Some("Preview window label is required"@)
        } else if !self.placed() {
            Some("Invalid preview viewport"@)
        } else {
            None
        }
    }
}

/// Checks a viewport.
pub fn validate_viewport(viewport: &PreviewViewport) -> (r: Result<(), String>)
    ensures
        match r {
            Ok(()) => viewport.fault() is None,
            Err(e) => viewport.fault() == Some(e@),
        },
{
    let label = text::trim(viewport.window_label.as_str());
    if label.as_str().is_empty() {
        return Err("Preview window label is required".to_owned());
    }
    let clip: bool = match viewport.clip {
        Some(c) => is_finite(c.x) && is_finite(c.y) && is_finite(c.width) && is_finite(c.height)
            && c.width <= NEGATIVE_ZERO_BITS && c.height <= NEGATIVE_ZERO_BITS,
        None => true,
    };
    if !is_finite(viewport.x) || !is_finite(viewport.y) || !clip || viewport.width == 0
        || viewport.width > MAX_VIEWPORT_BITS || viewport.height == 0 || viewport.height
        > MAX_VIEWPORT_BITS || viewport.backing_scale == 0 || viewport.backing_scale
        > MAX_SCALE_BITS {
        return Err("Invalid preview viewport".to_owned());
    }
    Ok(())
}

/// The surface, and who owns it.
#[derive(Debug)]
pub struct PreviewOwner {
    pub generation: u64,
    pub window_label: Option<String>,
    pub viewport: Option<PreviewViewport>,
    pub attached: bool,
    /// Whether there is a native view.
    pub native: bool,
    pub presented_kind: String,
    pub copies: u64,
    pub presented_bytes: u64,
    pub hit_mode: PreviewHitMode,
    pub supported: bool,
}

/// One more, unless there is no more.
pub open spec fn one_more(n: u64) -> u64 {
    if n < u64::MAX {
        (n + 1) as u64
    } else {
        n
    }
}

fn add_one(n: u64) -> (r: u64)
    ensures
        r == one_more(n),
{
    if n < u64::MAX {
        n + 1
    } else {
        n
    }
}

impl PreviewOwner {
    /// No surface, on a platform that may have one.
    pub fn new(supported: bool) -> (r: Self)
        ensures
            r.generation == 0,
            r.window_label is None,
            r.viewport is None,
            !r.attached,
            !r.native,
            r.presented_kind@ == "none"@,
            r.copies == 0,
            r.presented_bytes == 0,
            r.hit_mode == PreviewHitMode::Consume,
            r.supported == supported,
    {
        PreviewOwner {
            generation: 0,
            window_label: None,
            viewport: None,
            attached: false,
            native: false,
            presented_kind: "none".to_owned(),
            copies: 0,
            presented_bytes: 0,
            hit_mode: PreviewHitMode::Consume,
            supported,
        }
    }

    /// How the surface is doing, when its viewport is `physical` in pixels.
    pub fn status(&self, physical: Option<PhysicalRect>) -> (r: PreviewStatus)
        ensures
            r.attached == self.attached,
            r.window_label == self.window_label,
            r.generation == self.generation,
            r.layout_revision == match self.viewport {
                Some(v) => v.revision,
                None => 0,
            },
            r.arrangement@ == "child_overlay"@,
            r.supported == self.supported,
            r.presented_kind == self.presented_kind,
            r.copies_per_present == 1,
            r.copies == self.copies,
            r.presented_bytes == self.presented_bytes,
            r.backing_scale == match self.viewport {
                Some(v) => v.backing_scale,
                None => ONE_SCALE_BITS,
            },
            r.physical == match self.viewport {
                Some(_) => physical,
                None => None,
            },
            r.visible == (self.viewport matches Some(v) && v.visible),
            r.occluded == (self.viewport matches Some(v) && v.occluded),
            r.hit_mode == self.hit_mode,
            r.diagnostics@.len() == 0,
    {
        let mut r = PreviewStatus {
            attached: self.attached,
            window_label: match &self.window_label {
                Some(l) => Some(l.clone()),
                None => None,
            },
            generation: self.generation,
            layout_revision: 0,
            arrangement: "child_overlay".to_owned(),
            supported: self.supported,
            presented_kind: self.presented_kind.clone(),
            copies_per_present: 1,
            copies: self.copies,
            presented_bytes: self.presented_bytes,
            backing_scale: ONE_SCALE_BITS,
            physical: None,
            visible: false,
            occluded: false,
            hit_mode: self.hit_mode,
            diagnostics: Vec::new(),
        };
        match &self.viewport {
            Some(v) => {
                r.layout_revision = v.revision;
                r.backing_scale = v.backing_scale;
                r.physical = physical;
                r.visible = v.visible;
                r.occluded = v.occluded;
            },
            None => {},
        }
        r
    }

    /// Lets the surface go.
    pub fn detach(&mut self)
        ensures
            *final(self) == (PreviewOwner {
                native: false,
                attached: false,
                window_label: None,
                viewport: None,
                presented_kind: final(self).presented_kind,
                generation: one_more(old(self).generation),
                ..*old(self)
            }),
            final(self).presented_kind@ == "none"@,
    {
        self.native = false;
        self.attached = false;
        self.window_label = None;
        self.viewport = None;
        self.presented_kind = "none".to_owned();
        self.generation = add_one(self.generation);
    }

    /// Makes room for a surface in a window: what was attached is let go. Gives back the
    /// generation of the new one.
    pub fn attach(&mut self, window_label: String, hit_mode: PreviewHitMode) -> (r: Result<
        u64,
        String,
    >)
        ensures
            match r {
                Ok(generation) => {
                    &&& old(self).supported
                    &&& generation == one_more(one_more(old(self).generation))
                    &&& *final(self) == (PreviewOwner {
                        generation,
                        window_label: Some(window_label),
                        viewport: None,
                        attached: false,
                        native: false,
                        presented_kind: final(self).presented_kind,
                        copies: 0,
                        presented_bytes: 0,
                        hit_mode,
                        ..*old(self)
                    })
                    &&& final(self).presented_kind@ == "none"@
                },
                Err(e) => !old(self).supported && *final(self) == *old(self) && e@
                    == "Native preview is not implemented on this platform"@,
            },
    {
        if !self.supported {
            return Err("Native preview is not implemented on this platform".to_owned());
        }
        self.detach();
        self.generation = add_one(self.generation);
        self.window_label = Some(window_label);
        self.hit_mode = hit_mode;
        self.copies = 0;
        self.presented_bytes = 0;
        Ok(self.generation)
    }

    /// Notes that the surface is attached, with a native view or without.
    pub fn attached(&mut self, native: bool)
        ensures
            *final(self) == (PreviewOwner { native, attached: true, ..*old(self) }),
    {
        self.native = native;
        self.attached = true;
    }

    /// Why nothing can be shown; `None` when something can.
    pub open spec fn present_fault(self, generation: u64) -> Option<Seq<char>> {
        if !self.attached {
            Some("Preview is not attached"@)
        } else if generation != 0 && generation != self.generation {
            Some("Stale preview generation"@)
        } else {
            None
        }
    }

    /// Checks that something of a generation can be shown.
    pub fn check_present(&self, generation: u64) -> (r: Result<(), String>)
        ensures
            match r {
                Ok(()) => self.present_fault(generation) is None,
                Err(e) => self.present_fault(generation) == Some(e@),
            },
    {
        if !self.attached {
            return Err("Preview is not attached".to_owned());
        }
        if generation != 0 && generation != self.generation {
            return Err("Stale preview generation".to_owned());
        }
        Ok(())
    }

    /// Why the surface cannot be laid out; `None` when it can.
    pub open spec fn layout_fault(self, v: PreviewViewport) -> Option<Seq<char>> {
        if !self.attached {
            Some("Preview is not attached"@)
        } else if !(self.window_label matches Some(l) && l@ == v.window_label@) {
            Some("Stale preview window label"@)
        } else if v.generation != 0 && v.generation != self.generation {
            Some("Stale preview generation"@)
        } else if v.fault() is Some {
            v.fault()
        } else if self.viewport matches Some(old_v) && v.revision < old_v.revision {
            Some("Stale preview layout revision"@)
        } else {
            None
        }
    }

    /// Checks that the surface can be laid out.
    pub fn check_layout(&self, viewport: &PreviewViewport) -> (r: Result<(), String>)
        ensures
            match r {
                Ok(()) => self.layout_fault(*viewport) is None,
                Err(e) => self.layout_fault(*viewport) == Some(e@),
            },
    {
        if !self.attached {
            return Err("Preview is not attached".to_owned());
        }
        let same: bool = match &self.window_label {
            Some(l) => text::str_eq(l.as_str(), viewport.window_label.as_str()),
            None => false,
        };
        if !same {
            return Err("Stale preview window label".to_owned());
        }
        match self.check_present(viewport.generation) {
            Ok(()) => {},
            Err(e) => {
                return Err(e);
            },
        }
        match validate_viewport(viewport) {
            Ok(()) => {},
            Err(e) => {
                return Err(e);
            },
        }
        match &self.viewport {
            Some(v) => {
                if viewport.revision < v.revision {
                    return Err("Stale preview layout revision".to_owned());
                }
            },
            None => {},
        }
        Ok(())
    }

    /// Notes where the surface lies.
    pub fn layout(&mut self, viewport: PreviewViewport)
        requires
            old(self).layout_fault(viewport) is None,
        ensures
            *final(self) == (PreviewOwner { viewport: Some(viewport), ..*old(self) }),
    {
        self.viewport = Some(viewport);
    }

    /// Notes that a color was shown.
    pub fn present_fixed(&mut self)
        ensures
            final(self).presented_kind@ == "fixed"@,
            *final(self) == (PreviewOwner {
                presented_kind: final(self).presented_kind,
                copies: one_more(old(self).copies),
                presented_bytes: 0,
                ..*old(self)
            }),
    {
        self.presented_kind = "fixed".to_owned();
        self.copies = add_one(self.copies);
        self.presented_bytes = 0;
    }

    /// Why a picture of a file cannot be shown; `None` when it can.
    pub open spec fn fixture_fault(self, path: Seq<char>, generation: u64) -> Option<Seq<char>> {
        if self.present_fault(generation) is Some {
            self.present_fault(generation)
        } else if text::trimmed(path).len() == 0 {
            Some("Decode fixture path is required"@)
        } else if !self.native {
            Some("Native preview view is required to decode a fixture"@)
        } else {
            None
        }
    }

    /// Checks that a picture of a file can be shown.
    pub fn check_fixture(&self, path: &str, generation: u64) -> (r: Result<(), String>)
        ensures
            match r {
                Ok(()) => self.fixture_fault(path@, generation) is None,
                Err(e) => self.fixture_fault(path@, generation) == Some(e@),
            },
    {
        match self.check_present(generation) {
            Ok(()) => {},
            Err(e) => {
                return Err(e);
            },
        }
        let name = text::trim(path);
        if name.as_str().is_empty() {
            return Err("Decode fixture path is required".to_owned());
        }
        if !self.native {
            return Err("Native preview view is required to decode a fixture".to_owned());
        }
        Ok(())
    }

    /// Notes that a picture of a file was shown.
    pub fn present_fixture(&mut self)
        ensures
            final(self).presented_kind@ == "decoded"@,
            *final(self) == (PreviewOwner {
                presented_kind: final(self).presented_kind,
                copies: one_more(old(self).copies),
                ..*old(self)
            }),
    {
        self.presented_kind = "decoded".to_owned();
        self.copies = add_one(self.copies);
    }

    /// Why a frame cannot be shown; `None` when it can.
    pub open spec fn frame_fault(self, generation: u64) -> Option<Seq<char>> {
        if self.present_fault(generation) is Some {
            self.present_fault(generation)
        } else if !self.native {
            Some("No native surface"@)
        } else {
            None
        }
    }

    /// Checks that a frame can be shown.
    pub fn check_frame(&self, generation: u64) -> (r: Result<(), String>)
        ensures
            match r {
                Ok(()) => self.frame_fault(generation) is None,
                Err(e) => self.frame_fault(generation) == Some(e@),
            },
    {
        match self.check_present(generation) {
            Ok(()) => {},
            Err(e) => {
                return Err(e);
            },
        }
        if !self.native {
            return Err("No native surface".to_owned());
        }
        Ok(())
    }

    /// Notes that a frame of so many bytes was shown.
    pub fn present_frame(&mut self, bytes: u64)
        requires
            old(self).copies < u64::MAX,
        ensures
            final(self).presented_kind@ == "project"@,
            *final(self) == (PreviewOwner {
                presented_kind: final(self).presented_kind,
                copies: (old(self).copies + 1) as u64,
                presented_bytes: bytes,
                ..*old(self)
            }),
    {
        self.presented_kind = "project".to_owned();
        self.copies = self.copies + 1;
        self.presented_bytes = bytes;
    }

    /// Whether the surface takes a click that lies inside what it is clipped to, inside
    /// its rectangle, or inside its ellipse.
    pub open spec fn takes(self, in_clip: bool, in_rect: bool, in_ellipse: bool) -> bool {
        match self.viewport {
            Some(v) => v.visible && !v.occluded && (v.clip is Some ==> in_clip) && (
            if self.hit_mode == PreviewHitMode::Consume {
                in_rect
            } else {
                self.hit_mode == PreviewHitMode::Circle && in_ellipse
            }),
            None => false,
        }
    }

    /// Decides whether the surface takes a click.
    pub fn hit_test(&self, in_clip: bool, in_rect: bool, in_ellipse: bool) -> (r: bool)
        ensures
            r == self.takes(in_clip, in_rect, in_ellipse),
    {
        match &self.viewport {
            Some(v) => {
                if !v.visible || v.occluded {
                    return false;
                }
                if v.clip.is_some() && !in_clip {
                    return false;
                }
                match self.hit_mode {
                    PreviewHitMode::Consume => in_rect,
                    PreviewHitMode::Circle => in_ellipse,
                    PreviewHitMode::PassThrough
                    | PreviewHitMode::CirclePassThrough
                    | PreviewHitMode::SquirclePassThrough => false,
                }
            },
            None => false,
        }
    }
}

/// The number of a hit mode, as the native view knows it.
pub open spec fn mode_number(mode: PreviewHitMode) -> int {
    match mode {
        PreviewHitMode::Consume => 0,
        PreviewHitMode::Circle => 1,
        PreviewHitMode::PassThrough => 2,
        PreviewHitMode::CirclePassThrough => 3,
        PreviewHitMode::SquirclePassThrough => 4,
    }
}

/// The number of a hit mode, as the native view knows it.
pub fn hit_mode_code(mode: PreviewHitMode) -> (r: i32)
    ensures
        r == mode_number(mode),
{
    match mode {
        PreviewHitMode::Consume => 0,
        PreviewHitMode::Circle => 1,
        PreviewHitMode::PassThrough => 2,
        PreviewHitMode::CirclePassThrough => 3,
        PreviewHitMode::SquirclePassThrough => 4,
    }
}

/// What the native view means by a number; `None` when all went well.
pub open spec fn native_fault(code: int) -> Option<Seq<char>> {
    if code == 0 {
        None
    } else if code == 2 {
        Some("Stale preview generation"@)
    } else if code == 3 {
        Some("Stale preview layout revision"@)
    } else if code == 4 {
        Some("Invalid preview viewport"@)
    } else if code == 6 {
        Some("Failed to decode preview fixture"@)
    } else {
        Some("Native preview adapter failed"@)
    }
}

/// Reads what the native view gave back.
pub fn map_status(code: i32) -> (r: Result<(), String>)
    ensures
        match r {
            Ok(()) => native_fault(code as int) is None,
            Err(e) => native_fault(code as int) == Some(e@),
        },
{
    match code {
        0 => Ok(()),
        2 => Err("Stale preview generation".to_owned()),
        3 => Err("Stale preview layout revision".to_owned()),
        4 => Err("Invalid preview viewport".to_owned()),
        6 => Err("Failed to decode preview fixture".to_owned()),
        _ => Err("Native preview adapter failed".to_owned()),
    }
}

/// Nothing made for a surface is shown on the one that is attached after it.
pub proof fn attaching_makes_frames_stale(before: PreviewOwner, after: PreviewOwner)
    requires
        before.generation < u64::MAX - 1,
        before.generation != 0,
        after.generation == one_more(one_more(before.generation)),
    ensures
        after.present_fault(before.generation) is Some,
        after.frame_fault(before.generation) is Some,
{
}

/// What passes clicks through never takes one.
pub proof fn pass_through_takes_nothing(
    o: PreviewOwner,
    in_clip: bool,
    in_rect: bool,
    in_ellipse: bool,
)
    requires
        o.hit_mode != PreviewHitMode::Consume,
        o.hit_mode != PreviewHitMode::Circle,
    ensures
        !o.takes(in_clip, in_rect, in_ellipse),
{
}

/// A number is finite unless its exponent is the largest there is.
pub proof fn finite_numbers_have_an_exponent(bits: u64)
    ensures
        finite(bits) <==> (bits / 0x10_0000_0000_0000) % 2_048 != 2_047,
        finite(bits) ==> (negative(bits) <==> bits > 0x8000_0000_0000_0000),
{
}

/// The preview takes a click exactly where it can be seen: inside its clip, and inside its
/// rectangle or its circle as it is shaped.
pub proof fn clicks_are_taken_where_the_preview_is_seen(
    o: PreviewOwner,
    in_clip: bool,
    in_rect: bool,
    in_ellipse: bool,
)
    ensures
        o.takes(in_clip, in_rect, in_ellipse) ==> {
            &&& o.viewport is Some
            &&& o.viewport->0.visible
            &&& !o.viewport->0.occluded
            &&& o.viewport->0.clip is Some ==> in_clip
        },
        o.viewport matches Some(v) && v.visible && !v.occluded && (v.clip is None || in_clip) ==> {
            &&& o.hit_mode == PreviewHitMode::Consume ==> o.takes(in_clip, in_rect, in_ellipse)
                == in_rect
            &&& o.hit_mode == PreviewHitMode::Circle ==> o.takes(in_clip, in_rect, in_ellipse)
                == in_ellipse
        },
{
}

/// A layout is taken exactly where the preview is attached to that window, the layout is of
/// its generation or of none, can be shown, and is no older than the one before.
pub proof fn current_layouts_are_taken(o: PreviewOwner, v: PreviewViewport)
    ensures
        o.layout_fault(v) is None <==> {
            &&& o.attached
            &&& o.window_label is Some
            &&& o.window_label->0@ == v.window_label@
            &&& v.generation == 0 || v.generation == o.generation
            &&& v.fault() is None
            &&& o.viewport is Some ==> o.viewport->0.revision <= v.revision
        },
        v.fault() is None ==> text::trimmed(v.window_label@).len() > 0 && finite(v.x) && finite(v.y)
            && 0 < v.width <= MAX_VIEWPORT_BITS && 0 < v.height <= MAX_VIEWPORT_BITS && 0
            < v.backing_scale <= MAX_SCALE_BITS,
        o.present_fault(v.generation) is None <==> o.attached && (v.generation == 0 || v.generation
            == o.generation),
        o.frame_fault(v.generation) is None <==> o.attached && o.native && (v.generation == 0
            || v.generation == o.generation),
{
}

/// A viewport stands exactly where its window has a name, it lies and reaches where it can,
/// its scale is in range, and its clip, if it has one, is no less than empty.
pub proof fn viewports_in_range_stand(v: PreviewViewport)
    ensures
        v.fault() is None <==> {
            &&& text::trimmed(v.window_label@).len() > 0
            &&& finite(v.x) && finite(v.y)
            &&& 0 < v.width <= 0x40c0_0000_0000_0000
            &&& 0 < v.height <= 0x40c0_0000_0000_0000
            &&& 0 < v.backing_scale <= 0x4020_0000_0000_0000
            &&& v.clip is Some ==> finite(v.clip->0.x) && finite(v.clip->0.y) && finite(
                v.clip->0.width,
            ) && finite(v.clip->0.height) && v.clip->0.width <= 0x8000_0000_0000_0000
                && v.clip->0.height <= 0x8000_0000_0000_0000
        },
{
}

/// Each way to take clicks has a code of its own.
pub proof fn hit_modes_are_told_apart(a: PreviewHitMode, b: PreviewHitMode)
    ensures
        mode_number(a) == mode_number(b) ==> a == b,
        0 <= mode_number(a) < 5,
{
}

} // verus!
