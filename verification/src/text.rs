//! Text on its own track above the clips: titles, captions and labels that
//! sit anywhere in time and anywhere in the frame, independent of clips.
//!
//! Geometry is stored as integer fractions of the frame (1/10 000) so a
//! text looks the same at every resolution. Items later in
//! `Project::texts` are drawn on top.

use vstd::prelude::*;

use crate::digits::push_str;
use crate::ids::TextId;
use crate::time::{fits_i64, Ticks, FLICKS_PER_MILLI};

verus! {

/// Fractions of the frame are stored in these units (10 000 = whole frame).
pub const FRAME_UNITS: i32 = 10_000;

/// The bundled fonts (all SIL Open Font License). New fonts are appended.
#[derive(Copy, Clone, Debug, Default, PartialEq, Eq, Hash, Structural)]
pub enum Font {
    /// Neutral sans serif.
    #[default]
    Inter,
    /// Geometric sans, popular for video titles.
    Montserrat,
    /// High-contrast serif.
    PlayfairDisplay,
    /// Tall condensed capitals.
    BebasNeue,
    /// Flowing script.
    DancingScript,
    /// Casual handwriting.
    Caveat,
}

pub const FONTS: usize = 6;

pub open spec fn font_index(f: Font) -> nat {
    match f {
        Font::Inter => 0,
        Font::Montserrat => 1,
        Font::PlayfairDisplay => 2,
        Font::BebasNeue => 3,
        Font::DancingScript => 4,
        Font::Caveat => 5,
    }
}

impl Font {
    pub fn all() -> (v: Vec<Font>)
        ensures
            v@.len() == FONTS,
            forall|i: int| 0 <= i < v@.len() ==> font_index(#[trigger] v@[i]) == i,
    {
        vec![
            Font::Inter,
            Font::Montserrat,
            Font::PlayfairDisplay,
            Font::BebasNeue,
            Font::DancingScript,
            Font::Caveat,
        ]
    }

    pub fn index(self) -> (i: usize)
        ensures
            i == font_index(self),
    {
        match self {
            Font::Inter => 0,
            Font::Montserrat => 1,
            Font::PlayfairDisplay => 2,
            Font::BebasNeue => 3,
            Font::DancingScript => 4,
            Font::Caveat => 5,
        }
    }

    pub fn from_index(index: usize) -> (f: Font)
        ensures
            index < FONTS ==> font_index(f) == index,
            index >= FONTS ==> f == Font::Inter,
    {
        match index {
            1 => Font::Montserrat,
            2 => Font::PlayfairDisplay,
            3 => Font::BebasNeue,
            4 => Font::DancingScript,
            5 => Font::Caveat,
            _ => Font::Inter,
        }
    }
}

/// Horizontal alignment of the lines inside the text box.
#[derive(Copy, Clone, Debug, Default, PartialEq, Eq, Hash, Structural)]
pub enum TextAlign {
    Left,
    #[default]
    Center,
    Right,
}

pub const TEXT_ALIGNS: usize = 3;

pub open spec fn text_align_index(a: TextAlign) -> nat {
    match a {
        TextAlign::Left => 0,
        TextAlign::Center => 1,
        TextAlign::Right => 2,
    }
}

impl TextAlign {
    pub fn all() -> (v: Vec<TextAlign>)
        ensures
            v@.len() == TEXT_ALIGNS,
            forall|i: int| 0 <= i < v@.len() ==> text_align_index(#[trigger] v@[i]) == i,
    {
        vec![TextAlign::Left, TextAlign::Center, TextAlign::Right]
    }

    pub fn index(self) -> (i: usize)
        ensures
            i == text_align_index(self),
    {
        match self {
            TextAlign::Left => 0,
            TextAlign::Center => 1,
            TextAlign::Right => 2,
        }
    }

    /// Alignment for a picker index; out-of-range means centred.
    pub fn from_index(index: usize) -> (a: TextAlign)
        ensures
            index < TEXT_ALIGNS ==> text_align_index(a) == index,
            index >= TEXT_ALIGNS ==> a == TextAlign::Center,
    {
        match index {
            0 => TextAlign::Left,
            2 => TextAlign::Right,
            _ => TextAlign::Center,
        }
    }
}

/// How a text looks.
#[derive(Debug, PartialEq, Eq, Hash)]
pub struct TextStyle {
    pub font: Font,
    /// Font size in 1/10 000 of the frame's short side (600 = 6 %).
    pub size: u16,
    pub bold: bool,
    pub italic: bool,
    /// Straight-alpha RGBA.
    pub color: [u8; 4],
    pub align: TextAlign,
    /// A box behind the text (straight-alpha RGBA), or none.
    pub background: Option<[u8; 4]>,
    /// Soft drop shadow for legibility over pictures.
    pub shadow: bool,
}

pub const TEXT_DEFAULT_SIZE: u16 = 600;
pub const TEXT_MIN_SIZE: u16 = 150;
pub const TEXT_MAX_SIZE: u16 = 3000;

impl Clone for TextStyle {
    fn clone(&self) -> (r: Self)
        ensures
            r == *self,
    {
        TextStyle {
            font: self.font,
            size: self.size,
            bold: self.bold,
            italic: self.italic,
            color: self.color,
            align: self.align,
            background: self.background,
            shadow: self.shadow,
        }
    }
}

impl TextStyle {
    /// Inter at 6 %, white, centred, no box, with a shadow.
    pub fn default_style() -> (s: TextStyle)
        ensures
            s.font == Font::Inter,
            s.size == TEXT_DEFAULT_SIZE,
            !s.bold && !s.italic,
            s.color@ == seq![255u8, 255u8, 255u8, 255u8],
            s.align == TextAlign::Center,
            s.background is None,
            s.shadow,
    {
        let s = TextStyle {
            font: Font::Inter,
            size: TEXT_DEFAULT_SIZE,
            bold: false,
            italic: false,
            color: [255u8, 255u8, 255u8, 255u8],
            align: TextAlign::Center,
            background: None,
            shadow: true,
        };
        assert(s.color@ =~= seq![255u8, 255u8, 255u8, 255u8]);
        s
    }
}

/// How a text appears or disappears; the same movements as clip
/// transitions, applied to the text alone.
#[derive(Copy, Clone, Debug, Default, PartialEq, Eq, Hash, Structural)]
pub enum TextMotion {
    /// Appears / disappears at once.
    Cut,
    #[default]
    Fade,
    SlideLeft,
    SlideRight,
    SlideUp,
    SlideDown,
    WipeLeft,
    WipeRight,
    WipeUp,
    WipeDown,
    Zoom,
}

pub const TEXT_MOTIONS: usize = 11;

pub open spec fn text_motion_index(m: TextMotion) -> nat {
    match m {
        TextMotion::Cut => 0,
        TextMotion::Fade => 1,
        TextMotion::SlideLeft => 2,
        TextMotion::SlideRight => 3,
        TextMotion::SlideUp => 4,
        TextMotion::SlideDown => 5,
        TextMotion::WipeLeft => 6,
        TextMotion::WipeRight => 7,
        TextMotion::WipeUp => 8,
        TextMotion::WipeDown => 9,
        TextMotion::Zoom => 10,
    }
}

impl TextMotion {
    pub fn all() -> (v: Vec<TextMotion>)
        ensures
            v@.len() == TEXT_MOTIONS,
            forall|i: int| 0 <= i < v@.len() ==> text_motion_index(#[trigger] v@[i]) == i,
    {
        vec![
            TextMotion::Cut,
            TextMotion::Fade,
            TextMotion::SlideLeft,
            TextMotion::SlideRight,
            TextMotion::SlideUp,
            TextMotion::SlideDown,
            TextMotion::WipeLeft,
            TextMotion::WipeRight,
            TextMotion::WipeUp,
            TextMotion::WipeDown,
            TextMotion::Zoom,
        ]
    }

    pub fn index(self) -> (i: usize)
        ensures
            i == text_motion_index(self),
    {
        match self {
            TextMotion::Cut => 0,
            TextMotion::Fade => 1,
            TextMotion::SlideLeft => 2,
            TextMotion::SlideRight => 3,
            TextMotion::SlideUp => 4,
            TextMotion::SlideDown => 5,
            TextMotion::WipeLeft => 6,
            TextMotion::WipeRight => 7,
            TextMotion::WipeUp => 8,
            TextMotion::WipeDown => 9,
            TextMotion::Zoom => 10,
        }
    }

    /// Movement for a picker index; out-of-range means a cut.
    pub fn from_index(index: usize) -> (m: TextMotion)
        ensures
            index < TEXT_MOTIONS ==> text_motion_index(m) == index,
            index >= TEXT_MOTIONS ==> m == TextMotion::Cut,
    {
        match index {
            1 => TextMotion::Fade,
            2 => TextMotion::SlideLeft,
            3 => TextMotion::SlideRight,
            4 => TextMotion::SlideUp,
            5 => TextMotion::SlideDown,
            6 => TextMotion::WipeLeft,
            7 => TextMotion::WipeRight,
            8 => TextMotion::WipeUp,
            9 => TextMotion::WipeDown,
            10 => TextMotion::Zoom,
            _ => TextMotion::Cut,
        }
    }
}

/// An appearance or disappearance and how long it takes.
#[derive(Copy, Clone, Debug, PartialEq, Eq, Hash, Structural)]
pub struct TextAnimation {
    pub kind: TextMotion,
    pub duration: Ticks,
}

impl TextAnimation {
    /// A half-second fade.
    pub fn default_animation() -> (a: TextAnimation)
        ensures
            a.kind == TextMotion::Fade,
            a.duration.0 == 500 * FLICKS_PER_MILLI,
    {
        TextAnimation { kind: TextMotion::Fade, duration: Ticks::from_millis(500) }
    }
}

/// One text on the text track.
#[derive(Debug, PartialEq, Eq, Hash)]
pub struct TextItem {
    pub id: TextId,
    /// Line breaks are kept.
    pub text: String,
    /// Timeline position.
    pub start: Ticks,
    pub duration: Ticks,
    /// Centre of the text box, in 1/10 000 of the frame width / height.
    pub x: i32,
    pub y: i32,
    /// Width of the text box (lines wrap inside), 1/10 000 of frame width.
    pub width: i32,
    pub style: TextStyle,
    pub enter: TextAnimation,
    pub exit: TextAnimation,
}

impl Clone for TextItem {
    fn clone(&self) -> (r: Self)
        ensures
            r == *self,
    {
        TextItem {
            id: self.id,
            text: self.text.clone(),
            start: self.start,
            duration: self.duration,
            x: self.x,
            y: self.y,
            width: self.width,
            style: self.style.clone(),
            enter: self.enter,
            exit: self.exit,
        }
    }
}

/// Shortest text that can be placed: 200 ms.
pub open spec fn text_min_duration() -> int {
    200 * FLICKS_PER_MILLI
}

pub const TEXT_MIN_WIDTH: i32 = 500;

/// Which range check a text item fails first, if any.
pub open spec fn text_problem(t: TextItem) -> Option<Seq<char>> {
    if t.duration.0 < text_min_duration() {
        Some("text is too short"@)
    } else if t.start.0 < 0 {
        Some("text starts before the show"@)
    } else if t.width < TEXT_MIN_WIDTH || t.width > 2 * FRAME_UNITS {
        Some("text box width out of range"@)
    } else if t.style.size < TEXT_MIN_SIZE || t.style.size > TEXT_MAX_SIZE {
        Some("font size out of range"@)
    } else if t.enter.duration.0 < 0 || t.exit.duration.0 < 0 {
        Some("negative animation"@)
    } else {
        None
    }
}

/// `t` shows `text` from `start` for `duration`, centred with the default
/// style and half-second fades; only its id is free.
pub open spec fn fresh_text(t: TextItem, text: Seq<char>, start: Ticks, duration: Ticks) -> bool {
    &&& t.text@ == text
    &&& t.start == start
    &&& t.duration == duration
    &&& t.x == FRAME_UNITS / 2
    &&& t.y == FRAME_UNITS / 2
    &&& t.width == FRAME_UNITS * 8 / 10
    &&& t.style.font == Font::Inter
    &&& t.style.size == TEXT_DEFAULT_SIZE
    &&& !t.style.bold && !t.style.italic
    &&& t.style.color@ == seq![255u8, 255u8, 255u8, 255u8]
    &&& t.style.align == TextAlign::Center
    &&& t.style.background is None
    &&& t.style.shadow
    &&& t.enter.kind == TextMotion::Fade
    &&& t.enter.duration.0 == 500 * FLICKS_PER_MILLI
    &&& t.exit.kind == TextMotion::Fade
    &&& t.exit.duration.0 == 500 * FLICKS_PER_MILLI
}

impl TextItem {
    /// A centred text with the default style (and a fresh random id).
    pub fn new(text: String, start: Ticks, duration: Ticks) -> (t: TextItem)
        ensures
            t.text == text,
            fresh_text(t, text@, start, duration),
    {
        TextItem {
            id: TextId::new(),
            text,
            start,
            duration,
            x: FRAME_UNITS / 2,
            y: FRAME_UNITS / 2,
            width: FRAME_UNITS * 8 / 10,
            style: TextStyle::default_style(),
            enter: TextAnimation::default_animation(),
            exit: TextAnimation::default_animation(),
        }
    }

    pub fn end(&self) -> (e: Ticks)
        requires
            fits_i64(self.start.0 + self.duration.0),
        ensures
            e.0 == self.start.0 + self.duration.0,
    {
        self.start.plus(self.duration)
    }

    /// Whether the item is on screen at `t`: from its start up to (not
    /// including) its end.
    pub fn visible_at(&self, t: Ticks) -> (b: bool)
        requires
            fits_i64(self.start.0 + self.duration.0),
        ensures
            b == (self.start.0 <= t.0 && t.0 < self.start.0 + self.duration.0),
    {
        t.0 >= self.start.0 && t.0 < self.end().0
    }

    /// Checks value ranges; the message names the first problem.
    pub fn validate(&self) -> (r: Result<(), String>)
        ensures
            match text_problem(*self) {
                None => r is Ok,
                Some(msg) => r matches Err(e) && e@ == msg,
            },
    {
        let msg: &str;
        if self.duration.0 < 200 * FLICKS_PER_MILLI {
            msg = "text is too short";
        } else if self.start.0 < 0 {
            msg = "text starts before the show";
        } else if self.width < TEXT_MIN_WIDTH || self.width > 2 * FRAME_UNITS {
            msg = "text box width out of range";
        } else if self.style.size < TEXT_MIN_SIZE || self.style.size > TEXT_MAX_SIZE {
            msg = "font size out of range";
        } else if self.enter.duration.0 < 0 || self.exit.duration.0 < 0 {
            msg = "negative animation";
        } else {
            return Ok(());
        }
        let mut s = String::new();
        push_str(&mut s, msg);
        Err(s)
    }

    /// How far the entrance has come at `t`, as `(elapsed, span)`: the
    /// entrance is complete when `elapsed >= span`, and a span of zero
    /// means it is shown at once. Each animation takes at most half the
    /// item, and a cut takes no time.
    pub fn enter_progress(&self, t: Ticks) -> (p: (Ticks, Ticks))
        requires
            fits_i64(t.0 - self.start.0),
        ensures
            p.0.0 == t.0 - self.start.0,
            p.1.0 == animation_span(self.enter, self.duration.0 as int),
    {
        let span = animation_span_exec(self.enter, self.duration);
        (t.minus(self.start), span)
    }

    /// How far the exit has to go at `t`, as `(remaining, span)`: fully
    /// shown while `remaining >= span`.
    pub fn exit_progress(&self, t: Ticks) -> (p: (Ticks, Ticks))
        requires
            fits_i64(self.start.0 + self.duration.0),
            fits_i64(self.start.0 + self.duration.0 - t.0),
        ensures
            p.0.0 == self.start.0 + self.duration.0 - t.0,
            p.1.0 == animation_span(self.exit, self.duration.0 as int),
    {
        let span = animation_span_exec(self.exit, self.duration);
        (self.end().minus(t), span)
    }

    /// Animation state at `t`: each motion with how far it has come (see
    /// `enter_progress` and `exit_progress`).
    pub fn phase_at(&self, t: Ticks) -> (ph: TextPhase)
        requires
            fits_i64(t.0 - self.start.0),
            fits_i64(self.start.0 + self.duration.0),
            fits_i64(self.start.0 + self.duration.0 - t.0),
        ensures
            ph.enter.0 == self.enter.kind,
            ph.enter.1.0.0 == t.0 - self.start.0,
            ph.enter.1.1.0 == animation_span(self.enter, self.duration.0 as int),
            ph.exit.0 == self.exit.kind,
            ph.exit.1.0.0 == self.start.0 + self.duration.0 - t.0,
            ph.exit.1.1.0 == animation_span(self.exit, self.duration.0 as int),
    {
        TextPhase { enter: (self.enter.kind, self.enter_progress(t)), exit: (self.exit.kind, self.exit_progress(t)) }
    }
}

/// Where a text's entrance and exit stand at an instant: each motion with
/// `(elapsed or remaining, span)`; an animation is complete once the first
/// reaches the second.
#[derive(Copy, Clone, Debug, PartialEq, Eq)]
pub struct TextPhase {
    pub enter: (TextMotion, (Ticks, Ticks)),
    pub exit: (TextMotion, (Ticks, Ticks)),
}

/// Time an animation takes on an item of `duration`: none for a cut, its
/// own duration capped at half the item otherwise (never negative).
pub open spec fn animation_span(a: TextAnimation, duration: int) -> int {
    let half = duration / 2;
    let d = if a.duration.0 <= half { a.duration.0 as int } else { half };
    if a.kind == TextMotion::Cut || d <= 0 {
        0
    } else {
        d
    }
}

fn animation_span_exec(a: TextAnimation, duration: Ticks) -> (s: Ticks)
    ensures
        s.0 == animation_span(a, duration.0 as int),
{
    if duration.0 <= 0 {
        return Ticks(0);
    }
    let half = Ticks(duration.0 / 2);
    let d = a.duration.min(half);
    if a.kind == TextMotion::Cut || d.0 <= 0 {
        Ticks(0)
    } else {
        d
    }
}

} // verus!
