//! The native export session: what it is opened for, and what may be written to it.
use crate::media;
use crate::media::{validate_dim, VideoFrame};
use vstd::prelude::*;
use vstd::string::*;

verus! {

/// A native session, which writes one size of frame until it is finished.
#[derive(Debug, Clone, Copy, PartialEq, Eq, Structural)]
pub struct NativeExport {
    pub open: bool,
    pub width: u32,
    pub height: u32,
}

/// Why no session can be opened; `None` when one can.
pub open spec fn begin_fault(width: u32, height: u32) -> Option<Seq<char>> {
    if !media::valid_dim(width, height) {
        Some("Invalid media frame dimensions"@)
    } else if width % 2 != 0 || height % 2 != 0 {
        Some("H.264 export requires even dimensions"@)
    } else {
        None
    }
}

impl NativeExport {
    /// A session for frames of one size.
    pub fn begin(width: u32, height: u32) -> (r: Result<NativeExport, String>)
        ensures
            match r {
                Ok(s) => begin_fault(width, height) is None && s == (NativeExport {
                    open: true,
                    width,
                    height,
                }),
                Err(e) => begin_fault(width, height) == Some(e@),
            },
    {
        match validate_dim(width, height) {
            Ok(()) => {},
            Err(e) => {
                return Err(e);
            },
        }
        if width % 2 != 0 || height % 2 != 0 {
            return Err("H.264 export requires even dimensions".to_owned());
        }
        Ok(NativeExport { open: true, width, height })
    }

    /// Why a frame is not written; `None` when it is.
    pub open spec fn video_fault(self, f: VideoFrame) -> Option<Seq<char>> {
        if !self.open {
            Some("Export session is closed"@)
        } else if f.width != self.width || f.height != self.height {
            Some("Export frame geometry does not match the session"@)
        } else if f.data@.len() < f.stride * f.height {
            Some("Export frame buffer is truncated"@)
        } else {
            None
        }
    }

    /// Checks a frame; gives back how many of its bytes are written.
    pub fn write_video(&self, frame: &VideoFrame) -> (r: Result<usize, String>)
        ensures
            match r {
                Ok(len) => self.video_fault(*frame) is None && len == frame.stride * frame.height,
                Err(e) => self.video_fault(*frame) == Some(e@),
            },
    {
        if !self.open {
            return Err("Export session is closed".to_owned());
        }
        if frame.width != self.width || frame.height != self.height {
            return Err("Export frame geometry does not match the session".to_owned());
        }
        assert(0 <= frame.stride * frame.height <= 0xffff_ffff * 0xffff_ffff) by (nonlinear_arith)
            requires
                0 <= frame.stride <= 0xffff_ffff,
                0 <= frame.height <= 0xffff_ffff,
        ;
        let len: u64 = (frame.stride as u64) * (frame.height as u64);
        if (frame.data.len() as u64) < len {
            return Err("Export frame buffer is truncated".to_owned());
        }
        Ok(len as usize)
    }

    /// Why sound is not written; `None` when it is, or when there is none to write.
    pub open spec fn audio_fault(self, samples: int, frames: int, channels: int) -> Option<
        Seq<char>,
    > {
        if !self.open {
            Some("Export session is closed"@)
        } else if frames > 0 && samples < frames * if channels == 0 {
            1
        } else {
            channels
        } {
            Some("Export audio buffer is truncated"@)
        } else {
            None
        }
    }

    /// Checks sound; gives back whether there is any to write.
    pub fn write_audio(&self, samples: usize, frames: u32, channels: u16) -> (r: Result<
        bool,
        String,
    >)
        ensures
            match r {
                Ok(any) => self.audio_fault(samples as int, frames as int, channels as int) is None
                    && any == (frames > 0),
                Err(e) => self.audio_fault(samples as int, frames as int, channels as int) == Some(
                    e@,
                ),
            },
    {
        if !self.open {
            return Err("Export session is closed".to_owned());
        }
        if frames == 0 {
            return Ok(false);
        }
        let each: u64 = if channels == 0 {
            1
        } else {
            channels as u64
        };
        assert(0 <= frames * each <= 0xffff_ffff * 0x1_0000) by (nonlinear_arith)
            requires
                0 <= frames <= 0xffff_ffff,
                0 <= each <= 0x1_0000,
        ;
        if (samples as u64) < (frames as u64) * each {
            return Err("Export audio buffer is truncated".to_owned());
        }
        Ok(true)
    }

    /// Ends the session.
    pub fn finish(&mut self) -> (r: Result<(), String>)
        ensures
            *final(self) == (NativeExport { open: false, ..*old(self) }),
            match r {
                Ok(()) => old(self).open,
                Err(e) => !old(self).open && e@ == "Export session is closed"@,
            },
    {
        if !self.open {
            return Err("Export session is closed".to_owned());
        }
        self.open = false;
        Ok(())
    }
}

/// Nothing is written to a session once it is finished.
pub proof fn finished_sessions_take_nothing(s: NativeExport, f: VideoFrame, samples: int)
    requires
        !s.open,
    ensures
        s.video_fault(f) is Some,
        s.audio_fault(samples, 1, 1) is Some,
{
}

/// A picture is taken exactly while the session is open, where it has the session's size and
/// all of its rows; sound, where each of its frames has a sample for each channel. A session
/// is begun only for a size that can be encoded.
pub proof fn sessions_take_what_fits(
    s: NativeExport,
    f: VideoFrame,
    samples: int,
    frames: int,
    channels: int,
)
    requires
        0 <= frames,
        0 < channels,
        0 <= samples,
    ensures
        s.video_fault(f) is None <==> s.open && f.width == s.width && f.height == s.height
            && f.stride * f.height <= f.data@.len(),
        s.audio_fault(samples, frames, channels) is None <==> s.open && frames * channels <= samples,
        begin_fault(s.width, s.height) is None <==> 2 <= s.width <= 4096 && 2 <= s.height <= 4096
            && s.width % 2 == 0 && s.height % 2 == 0,
{
    if frames == 0 {
        assert(frames * channels == 0) by (nonlinear_arith)
            requires
                frames == 0,
        ;
    }
}

} // verus!
