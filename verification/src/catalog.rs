//! The small closed vocabularies of the project model: how a picture is
//! fitted and rotated, the transition and movement presets, caption and
//! title looks. Each preset list has a stable picker order; `index` and
//! `from_index` convert between a preset and its position there.

use vstd::prelude::*;

verus! {

/// What kind of media a reference points to.
#[derive(Copy, Clone, Debug, PartialEq, Eq, Hash, Structural)]
pub enum RefKind {
    Photo,
    Video,
    Audio,
}

/// How a picture is placed into the frame.
#[derive(Copy, Clone, Debug, Default, PartialEq, Eq, Hash, Structural)]
pub enum Fit {
    /// Whole picture visible, bars where the aspect differs.
    #[default]
    Contain,
    /// Frame filled, picture cropped where the aspect differs.
    Cover,
}

/// Quarter-turn rotation applied on top of the file's own orientation.
#[derive(Copy, Clone, Debug, Default, PartialEq, Eq, Hash, Structural)]
pub enum Quarter {
    /// No extra rotation.
    #[default]
    Upright,
    Cw90,
    Cw180,
    Cw270,
}

/// Number of quarter turns clockwise.
pub open spec fn quarter_turns(q: Quarter) -> nat {
    match q {
        Quarter::Upright => 0,
        Quarter::Cw90 => 1,
        Quarter::Cw180 => 2,
        Quarter::Cw270 => 3,
    }
}

impl Quarter {
    /// The next quarter turn clockwise.
    pub fn next(self) -> (r: Quarter)
        ensures
            quarter_turns(r) == (quarter_turns(self) + 1) % 4,
    {
        match self {
            Quarter::Upright => Quarter::Cw90,
            Quarter::Cw90 => Quarter::Cw180,
            Quarter::Cw180 => Quarter::Cw270,
            Quarter::Cw270 => Quarter::Upright,
        }
    }

    /// Whether width and height trade places.
    pub fn swaps_dimensions(self) -> (b: bool)
        ensures
            b == (quarter_turns(self) % 2 == 1),
    {
        match self {
            Quarter::Cw90 | Quarter::Cw270 => true,
            _ => false,
        }
    }
}

/// Four quarter turns bring a rotation back to where it started.
pub proof fn four_quarter_turns_are_identity(q: Quarter)
    ensures
        (quarter_turns(q) + 4) % 4 == quarter_turns(q),
{
}

/// Kind of transition into a clip. New kinds are appended, never renamed.
#[derive(Copy, Clone, Debug, Default, PartialEq, Eq, Hash, Structural)]
pub enum TransitionKind {
    #[default]
    Cut,
    CrossDissolve,
    FadeThroughBlack,
    FadeThroughWhite,
    /// The incoming clip pushes the outgoing one out towards the left.
    SlideLeft,
    SlideRight,
    SlideUp,
    SlideDown,
    /// A straight edge moving to the left reveals the incoming clip.
    WipeLeft,
    WipeRight,
    WipeUp,
    WipeDown,
    /// The incoming clip grows from the centre while fading in.
    Zoom,
}

/// Number of transition kinds.
pub const TRANSITION_KINDS: usize = 13;

/// Position of a kind in the picker order.
pub open spec fn transition_index(k: TransitionKind) -> nat {
    match k {
        TransitionKind::Cut => 0,
        TransitionKind::CrossDissolve => 1,
        TransitionKind::FadeThroughBlack => 2,
        TransitionKind::FadeThroughWhite => 3,
        TransitionKind::SlideLeft => 4,
        TransitionKind::SlideRight => 5,
        TransitionKind::SlideUp => 6,
        TransitionKind::SlideDown => 7,
        TransitionKind::WipeLeft => 8,
        TransitionKind::WipeRight => 9,
        TransitionKind::WipeUp => 10,
        TransitionKind::WipeDown => 11,
        TransitionKind::Zoom => 12,
    }
}

impl TransitionKind {
    /// Every kind, in the order the transition picker lists them.
    pub fn all() -> (v: Vec<TransitionKind>)
        ensures
            v@.len() == TRANSITION_KINDS,
            forall|i: int| 0 <= i < v@.len() ==> transition_index(#[trigger] v@[i]) == i,
    {
        let v = vec![
            TransitionKind::Cut,
            TransitionKind::CrossDissolve,
            TransitionKind::FadeThroughBlack,
            TransitionKind::FadeThroughWhite,
            TransitionKind::SlideLeft,
            TransitionKind::SlideRight,
            TransitionKind::SlideUp,
            TransitionKind::SlideDown,
            TransitionKind::WipeLeft,
            TransitionKind::WipeRight,
            TransitionKind::WipeUp,
            TransitionKind::WipeDown,
            TransitionKind::Zoom,
        ];
        v
    }

    /// Kinds the "shuffle" action picks from: everything but the cut, in
    /// picker order.
    pub fn shuffle_pool() -> (v: Vec<TransitionKind>)
        ensures
            v@.len() == TRANSITION_KINDS - 1,
            forall|i: int| 0 <= i < v@.len() ==> transition_index(#[trigger] v@[i]) == i + 1,
    {
        let v = vec![
            TransitionKind::CrossDissolve,
            TransitionKind::FadeThroughBlack,
            TransitionKind::FadeThroughWhite,
            TransitionKind::SlideLeft,
            TransitionKind::SlideRight,
            TransitionKind::SlideUp,
            TransitionKind::SlideDown,
            TransitionKind::WipeLeft,
            TransitionKind::WipeRight,
            TransitionKind::WipeUp,
            TransitionKind::WipeDown,
            TransitionKind::Zoom,
        ];
        v
    }

    /// Position in the picker order.
    pub fn index(self) -> (i: usize)
        ensures
            i == transition_index(self),
    {
        match self {
            TransitionKind::Cut => 0,
            TransitionKind::CrossDissolve => 1,
            TransitionKind::FadeThroughBlack => 2,
            TransitionKind::FadeThroughWhite => 3,
            TransitionKind::SlideLeft => 4,
            TransitionKind::SlideRight => 5,
            TransitionKind::SlideUp => 6,
            TransitionKind::SlideDown => 7,
            TransitionKind::WipeLeft => 8,
            TransitionKind::WipeRight => 9,
            TransitionKind::WipeUp => 10,
            TransitionKind::WipeDown => 11,
            TransitionKind::Zoom => 12,
        }
    }

    /// Kind for a picker index; out-of-range means `Cut`.
    pub fn from_index(index: usize) -> (k: TransitionKind)
        ensures
            index < TRANSITION_KINDS ==> transition_index(k) == index,
            index >= TRANSITION_KINDS ==> k == TransitionKind::Cut,
    {
        match index {
            0 => TransitionKind::Cut,
            1 => TransitionKind::CrossDissolve,
            2 => TransitionKind::FadeThroughBlack,
            3 => TransitionKind::FadeThroughWhite,
            4 => TransitionKind::SlideLeft,
            5 => TransitionKind::SlideRight,
            6 => TransitionKind::SlideUp,
            7 => TransitionKind::SlideDown,
            8 => TransitionKind::WipeLeft,
            9 => TransitionKind::WipeRight,
            10 => TransitionKind::WipeUp,
            11 => TransitionKind::WipeDown,
            12 => TransitionKind::Zoom,
            _ => TransitionKind::Cut,
        }
    }

    /// Transitions that pass through a solid colour between the clips.
    pub fn is_fade(self) -> (b: bool)
        ensures
            b == (self == TransitionKind::FadeThroughBlack || self == TransitionKind::FadeThroughWhite),
    {
        match self {
            TransitionKind::FadeThroughBlack | TransitionKind::FadeThroughWhite => true,
            _ => false,
        }
    }
}

/// The picker index identifies a transition kind: reading a kind back from
/// its index gives the same kind.
pub proof fn transition_index_round_trip(k: TransitionKind)
    ensures
        transition_index(k) < TRANSITION_KINDS,
        forall|j: TransitionKind| transition_index(j) == transition_index(k) ==> j == k,
{
}

/// Slow camera movement over a photo ("Ken Burns"). The movement spans
/// the whole time the clip is visible, including transition overlaps.
#[derive(Copy, Clone, Debug, Default, PartialEq, Eq, Hash, Structural)]
pub enum Motion {
    /// No movement.
    #[default]
    Still,
    ZoomIn,
    ZoomOut,
    PanLeft,
    PanRight,
    PanUp,
    PanDown,
}

/// Number of movement presets.
pub const MOTIONS: usize = 7;

/// Position of a movement in the picker order.
pub open spec fn motion_index(m: Motion) -> nat {
    match m {
        Motion::Still => 0,
        Motion::ZoomIn => 1,
        Motion::ZoomOut => 2,
        Motion::PanLeft => 3,
        Motion::PanRight => 4,
        Motion::PanUp => 5,
        Motion::PanDown => 6,
    }
}

impl Motion {
    /// Every preset, in picker order.
    pub fn all() -> (v: Vec<Motion>)
        ensures
            v@.len() == MOTIONS,
            forall|i: int| 0 <= i < v@.len() ==> motion_index(#[trigger] v@[i]) == i,
    {
        vec![
            Motion::Still,
            Motion::ZoomIn,
            Motion::ZoomOut,
            Motion::PanLeft,
            Motion::PanRight,
            Motion::PanUp,
            Motion::PanDown,
        ]
    }

    /// Presets the shuffle action picks from: every movement, in order.
    pub fn shuffle_pool() -> (v: Vec<Motion>)
        ensures
            v@.len() == MOTIONS - 1,
            forall|i: int| 0 <= i < v@.len() ==> motion_index(#[trigger] v@[i]) == i + 1,
    {
        vec![
            Motion::ZoomIn,
            Motion::ZoomOut,
            Motion::PanLeft,
            Motion::PanRight,
            Motion::PanUp,
            Motion::PanDown,
        ]
    }

    pub fn index(self) -> (i: usize)
        ensures
            i == motion_index(self),
    {
        match self {
            Motion::Still => 0,
            Motion::ZoomIn => 1,
            Motion::ZoomOut => 2,
            Motion::PanLeft => 3,
            Motion::PanRight => 4,
            Motion::PanUp => 5,
            Motion::PanDown => 6,
        }
    }

    /// Preset for a picker index; out-of-range means no movement.
    pub fn from_index(index: usize) -> (m: Motion)
        ensures
            index < MOTIONS ==> motion_index(m) == index,
            index >= MOTIONS ==> m == Motion::Still,
    {
        match index {
            1 => Motion::ZoomIn,
            2 => Motion::ZoomOut,
            3 => Motion::PanLeft,
            4 => Motion::PanRight,
            5 => Motion::PanUp,
            6 => Motion::PanDown,
            _ => Motion::Still,
        }
    }
}

/// Look of a caption or title text.
#[derive(Copy, Clone, Debug, Default, PartialEq, Eq, Hash, Structural)]
pub enum CaptionStyle {
    /// White text with a soft shadow, centred near the bottom.
    #[default]
    Classic,
    /// Text on a dark translucent band across the bottom.
    Banner,
    /// Large bold text in the centre; further lines smaller. Title cards.
    Headline,
    /// Small text in the bottom-left corner.
    Corner,
}

pub const CAPTION_STYLES: usize = 4;

pub open spec fn caption_style_index(s: CaptionStyle) -> nat {
    match s {
        CaptionStyle::Classic => 0,
        CaptionStyle::Banner => 1,
        CaptionStyle::Headline => 2,
        CaptionStyle::Corner => 3,
    }
}

impl CaptionStyle {
    pub fn all() -> (v: Vec<CaptionStyle>)
        ensures
            v@.len() == CAPTION_STYLES,
            forall|i: int| 0 <= i < v@.len() ==> caption_style_index(#[trigger] v@[i]) == i,
    {
        vec![CaptionStyle::Classic, CaptionStyle::Banner, CaptionStyle::Headline, CaptionStyle::Corner]
    }

    pub fn index(self) -> (i: usize)
        ensures
            i == caption_style_index(self),
    {
        match self {
            CaptionStyle::Classic => 0,
            CaptionStyle::Banner => 1,
            CaptionStyle::Headline => 2,
            CaptionStyle::Corner => 3,
        }
    }

    pub fn from_index(index: usize) -> (s: CaptionStyle)
        ensures
            index < CAPTION_STYLES ==> caption_style_index(s) == index,
            index >= CAPTION_STYLES ==> s == CaptionStyle::Classic,
    {
        match index {
            1 => CaptionStyle::Banner,
            2 => CaptionStyle::Headline,
            3 => CaptionStyle::Corner,
            _ => CaptionStyle::Classic,
        }
    }
}

/// Background colour of a title card.
#[derive(Copy, Clone, Debug, Default, PartialEq, Eq, Hash, Structural)]
pub enum TitleBackground {
    #[default]
    Black,
    Charcoal,
    Blue,
    Red,
    White,
}

pub const TITLE_BACKGROUNDS: usize = 5;

pub open spec fn title_background_index(b: TitleBackground) -> nat {
    match b {
        TitleBackground::Black => 0,
        TitleBackground::Charcoal => 1,
        TitleBackground::Blue => 2,
        TitleBackground::Red => 3,
        TitleBackground::White => 4,
    }
}

impl TitleBackground {
    pub fn all() -> (v: Vec<TitleBackground>)
        ensures
            v@.len() == TITLE_BACKGROUNDS,
            forall|i: int| 0 <= i < v@.len() ==> title_background_index(#[trigger] v@[i]) == i,
    {
        vec![
            TitleBackground::Black,
            TitleBackground::Charcoal,
            TitleBackground::Blue,
            TitleBackground::Red,
            TitleBackground::White,
        ]
    }

    pub fn index(self) -> (i: usize)
        ensures
            i == title_background_index(self),
    {
        match self {
            TitleBackground::Black => 0,
            TitleBackground::Charcoal => 1,
            TitleBackground::Blue => 2,
            TitleBackground::Red => 3,
            TitleBackground::White => 4,
        }
    }

    pub fn from_index(index: usize) -> (b: TitleBackground)
        ensures
            index < TITLE_BACKGROUNDS ==> title_background_index(b) == index,
            index >= TITLE_BACKGROUNDS ==> b == TitleBackground::Black,
    {
        match index {
            1 => TitleBackground::Charcoal,
            2 => TitleBackground::Blue,
            3 => TitleBackground::Red,
            4 => TitleBackground::White,
            _ => TitleBackground::Black,
        }
    }

    /// Light backgrounds need dark text.
    pub fn is_light(self) -> (b: bool)
        ensures
            b == (self == TitleBackground::White),
    {
        match self {
            TitleBackground::White => true,
            _ => false,
        }
    }
}

} // verus!
