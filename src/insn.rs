//! The instruction model of the notation, and its parser.
use vstd::prelude::*;

use crate::number::Decimal;
use crate::span::{Sp, Span};

pub mod grammar;
pub mod parser;

pub use parser::{parse_maidata_insns, ParseError};


verus! {

/// One of the eight lane keys.
#[derive(Copy, Clone, Eq, PartialEq, Hash, Debug, Structural)]
pub enum Key {
    K1,
    K2,
    K3,
    K4,
    K5,
    K6,
    K7,
    K8,
}

/// Why a character is no key.
#[derive(Clone, Debug)]
pub enum KeyParseError {
    InvalidKey(char),
}

/// The key that a digit names, if any.
pub open spec fn key_of(c: char) -> Option<Key> {
    if c == '1' {
        Some(Key::K1)
    } else if c == '2' {
        Some(Key::K2)
    } else if c == '3' {
        Some(Key::K3)
    } else if c == '4' {
        Some(Key::K4)
    } else if c == '5' {
        Some(Key::K5)
    } else if c == '6' {
        Some(Key::K6)
    } else if c == '7' {
        Some(Key::K7)
    } else if c == '8' {
        Some(Key::K8)
    } else {
        None
    }
}

impl Key {
    /// The key named by one of the digits `1` to `8`.
    pub fn try_from(x: char) -> (r: Result<Key, KeyParseError>)
        ensures
            r == (match key_of(x) {
                Some(k) => Ok(k),
                None => Err(KeyParseError::InvalidKey(x)),
            }),
    {
        match x {
            '1' => Ok(Key::K1),
            '2' => Ok(Key::K2),
            '3' => Ok(Key::K3),
            '4' => Ok(Key::K4),
            '5' => Ok(Key::K5),
            '6' => Ok(Key::K6),
            '7' => Ok(Key::K7),
            '8' => Ok(Key::K8),
            _ => Err(KeyParseError::InvalidKey(x)),
        }
    }
}

/// One of the touch sensor regions.
#[derive(Copy, Clone, Eq, PartialEq, Hash, Debug, Structural)]
pub enum TouchSensor {
    A1,
    A2,
    A3,
    A4,
    A5,
    A6,
    A7,
    A8,
    B1,
    B2,
    B3,
    B4,
    B5,
    B6,
    B7,
    B8,
    C,
    D1,
    D2,
    D3,
    D4,
    D5,
    D6,
    D7,
    D8,
    E1,
    E2,
    E3,
    E4,
    E5,
    E6,
    E7,
    E8,
}

/// `num` parts of a whole note (four beats) split into `divisor` parts.
#[derive(Copy, Clone, Eq, PartialEq, Hash, Debug, Structural)]
pub struct NumBeatsParams {
    pub divisor: u8,
    pub num: u8,
}

/// How long a note lasts.
#[derive(Copy, Clone, Eq, PartialEq, Hash, Debug, Structural)]
pub enum Length {
    NumBeats(NumBeatsParams),
    Seconds(Decimal),
}

#[derive(Copy, Clone, Eq, PartialEq, Hash, Debug, Structural)]
pub enum TapVariant {
    Tap,
    Break,
}

#[derive(Copy, Clone, Eq, PartialEq, Hash, Debug, Structural)]
pub struct TapParams {
    pub variant: TapVariant,
    pub key: Key,
}

#[derive(Copy, Clone, Eq, PartialEq, Hash, Debug, Structural)]
pub struct HoldParams {
    pub key: Key,
    pub len: Length,
}

/// An explicit stop time of a slide track: the duration of one beat at a tempo, or seconds.
#[derive(Copy, Clone, Eq, PartialEq, Hash, Debug, Structural)]
pub enum SlideStopTimeSpec {
    Bpm(Decimal),
    Seconds(Decimal),
}

/// The length of a slide track, with its stop time where one is given.
#[derive(Copy, Clone, Eq, PartialEq, Hash, Debug, Structural)]
pub enum SlideLength {
    Simple(Length),
    Custom(SlideStopTimeSpec, Length),
}

impl SlideLength {
    pub open spec fn spec_slide_duration(self) -> Length {
        match self {
            SlideLength::Simple(l) => l,
            SlideLength::Custom(_, l) => l,
        }
    }

    /// How long the track itself travels.
    pub fn slide_duration(&self) -> (r: Length)
        ensures
            r == self.spec_slide_duration(),
    {
        match self {
            SlideLength::Simple(l) => *l,
            SlideLength::Custom(_, l) => *l,
        }
    }
}

#[derive(Copy, Clone, Eq, PartialEq, Hash, Debug, Structural)]
pub struct SlideTrackParams {
    pub destination: TapParams,
    pub interim: Option<TapParams>,
    pub len: SlideLength,
}

/// The shape of a slide track.
#[derive(Copy, Clone, Eq, PartialEq, Hash, Debug, Structural)]
pub enum SlideShape {
    Line,
    Arc,
    CircumferenceLeft,
    CircumferenceRight,
    V,
    P,
    Q,
    S,
    Z,
    Pp,
    Qq,
    Angle,
    Spread,
}

/// One segment of a slide: a shape with its parameters.
#[derive(Copy, Clone, Eq, PartialEq, Hash, Debug, Structural)]
pub enum SlideTrack {
    Line(SlideTrackParams),
    Arc(SlideTrackParams),
    CircumferenceLeft(SlideTrackParams),
    CircumferenceRight(SlideTrackParams),
    V(SlideTrackParams),
    P(SlideTrackParams),
    Q(SlideTrackParams),
    S(SlideTrackParams),
    Z(SlideTrackParams),
    Pp(SlideTrackParams),
    Qq(SlideTrackParams),
    Angle(SlideTrackParams),
    Spread(SlideTrackParams),
}

/// The track of a shape with given parameters.
pub open spec fn track_of(shape: SlideShape, p: SlideTrackParams) -> SlideTrack {
    match shape {
        SlideShape::Line => SlideTrack::Line(p),
        SlideShape::Arc => SlideTrack::Arc(p),
        SlideShape::CircumferenceLeft => SlideTrack::CircumferenceLeft(p),
        SlideShape::CircumferenceRight => SlideTrack::CircumferenceRight(p),
        SlideShape::V => SlideTrack::V(p),
        SlideShape::P => SlideTrack::P(p),
        SlideShape::Q => SlideTrack::Q(p),
        SlideShape::S => SlideTrack::S(p),
        SlideShape::Z => SlideTrack::Z(p),
        SlideShape::Pp => SlideTrack::Pp(p),
        SlideShape::Qq => SlideTrack::Qq(p),
        SlideShape::Angle => SlideTrack::Angle(p),
        SlideShape::Spread => SlideTrack::Spread(p),
    }
}

impl SlideTrack {
    pub open spec fn spec_shape(self) -> SlideShape {
        match self {
            SlideTrack::Line(_) => SlideShape::Line,
            SlideTrack::Arc(_) => SlideShape::Arc,
            SlideTrack::CircumferenceLeft(_) => SlideShape::CircumferenceLeft,
            SlideTrack::CircumferenceRight(_) => SlideShape::CircumferenceRight,
            SlideTrack::V(_) => SlideShape::V,
            SlideTrack::P(_) => SlideShape::P,
            SlideTrack::Q(_) => SlideShape::Q,
            SlideTrack::S(_) => SlideShape::S,
            SlideTrack::Z(_) => SlideShape::Z,
            SlideTrack::Pp(_) => SlideShape::Pp,
            SlideTrack::Qq(_) => SlideShape::Qq,
            SlideTrack::Angle(_) => SlideShape::Angle,
            SlideTrack::Spread(_) => SlideShape::Spread,
        }
    }

    pub open spec fn spec_params(self) -> SlideTrackParams {
        match self {
            SlideTrack::Line(p) => p,
            SlideTrack::Arc(p) => p,
            SlideTrack::CircumferenceLeft(p) => p,
            SlideTrack::CircumferenceRight(p) => p,
            SlideTrack::V(p) => p,
            SlideTrack::P(p) => p,
            SlideTrack::Q(p) => p,
            SlideTrack::S(p) => p,
            SlideTrack::Z(p) => p,
            SlideTrack::Pp(p) => p,
            SlideTrack::Qq(p) => p,
            SlideTrack::Angle(p) => p,
            SlideTrack::Spread(p) => p,
        }
    }

    /// The shape of the track.
    pub fn shape(&self) -> (r: SlideShape)
        ensures
            r == self.spec_shape(),
            track_of(r, self.spec_params()) == *self,
    {
        match self {
            SlideTrack::Line(_) => SlideShape::Line,
            SlideTrack::Arc(_) => SlideShape::Arc,
            SlideTrack::CircumferenceLeft(_) => SlideShape::CircumferenceLeft,
            SlideTrack::CircumferenceRight(_) => SlideShape::CircumferenceRight,
            SlideTrack::V(_) => SlideShape::V,
            SlideTrack::P(_) => SlideShape::P,
            SlideTrack::Q(_) => SlideShape::Q,
            SlideTrack::S(_) => SlideShape::S,
            SlideTrack::Z(_) => SlideShape::Z,
            SlideTrack::Pp(_) => SlideShape::Pp,
            SlideTrack::Qq(_) => SlideShape::Qq,
            SlideTrack::Angle(_) => SlideShape::Angle,
            SlideTrack::Spread(_) => SlideShape::Spread,
        }
    }

    /// The track of a shape with given parameters.
    pub fn from_shape(shape: SlideShape, p: SlideTrackParams) -> (r: SlideTrack)
        ensures
            r == track_of(shape, p),
    {
        match shape {
            SlideShape::Line => SlideTrack::Line(p),
            SlideShape::Arc => SlideTrack::Arc(p),
            SlideShape::CircumferenceLeft => SlideTrack::CircumferenceLeft(p),
            SlideShape::CircumferenceRight => SlideTrack::CircumferenceRight(p),
            SlideShape::V => SlideTrack::V(p),
            SlideShape::P => SlideTrack::P(p),
            SlideShape::Q => SlideTrack::Q(p),
            SlideShape::S => SlideTrack::S(p),
            SlideShape::Z => SlideTrack::Z(p),
            SlideShape::Pp => SlideTrack::Pp(p),
            SlideShape::Qq => SlideTrack::Qq(p),
            SlideShape::Angle => SlideTrack::Angle(p),
            SlideShape::Spread => SlideTrack::Spread(p),
        }
    }

    /// The parameters of the track.
    pub fn params(&self) -> (r: &SlideTrackParams)
        ensures
            *r == self.spec_params(),
    {
        match self {
            SlideTrack::Line(p) => p,
            SlideTrack::Arc(p) => p,
            SlideTrack::CircumferenceLeft(p) => p,
            SlideTrack::CircumferenceRight(p) => p,
            SlideTrack::V(p) => p,
            SlideTrack::P(p) => p,
            SlideTrack::Q(p) => p,
            SlideTrack::S(p) => p,
            SlideTrack::Z(p) => p,
            SlideTrack::Pp(p) => p,
            SlideTrack::Qq(p) => p,
            SlideTrack::Angle(p) => p,
            SlideTrack::Spread(p) => p,
        }
    }
}

impl From<SlideTrack> for SlideShape {
    fn from(x: SlideTrack) -> (r: SlideShape)
        ensures
            r == x.spec_shape(),
    {
        x.shape()
    }
}

impl vstd::std_specs::convert::FromSpecImpl<SlideTrack> for SlideShape {
    open spec fn obeys_from_spec() -> bool {
        true
    }

    open spec fn from_spec(x: SlideTrack) -> SlideShape {
        x.spec_shape()
    }
}

/// A slide: its star and its tracks, in order.
#[derive(Clone, PartialEq, Debug)]
pub struct SlideParams {
    pub start: TapParams,
    pub tracks: Vec<SlideTrack>,
}

/// [`SlideParams`] with its tracks as a sequence.
pub struct SlideParamsView {
    pub start: TapParams,
    pub tracks: Seq<SlideTrack>,
}

impl View for SlideParams {
    type V = SlideParamsView;

    open spec fn view(&self) -> SlideParamsView {
        SlideParamsView { start: self.start, tracks: self.tracks@ }
    }
}

/// The views of a sequence of notes.
pub open spec fn notes_view(v: Seq<Sp<RawNoteInsn>>) -> Seq<Sp<RawNoteInsnView>> {
    v.map_values(|n: Sp<RawNoteInsn>| n@)
}

/// The views of a sequence of instructions.
pub open spec fn insns_view(v: Seq<Sp<RawInsn>>) -> Seq<Sp<RawInsnView>> {
    v.map_values(|n: Sp<RawInsn>| n@)
}

/// A note that can occupy one time slot.
#[derive(Clone, PartialEq, Debug)]
pub enum RawNoteInsn {
    Tap(TapParams),
    Hold(HoldParams),
    Slide(SlideParams),
}

/// [`RawNoteInsn`] with sequences in place of vectors.
pub enum RawNoteInsnView {
    Tap(TapParams),
    Hold(HoldParams),
    Slide(SlideParamsView),
}

impl View for RawNoteInsn {
    type V = RawNoteInsnView;

    open spec fn view(&self) -> RawNoteInsnView {
        match self {
            RawNoteInsn::Tap(p) => RawNoteInsnView::Tap(*p),
            RawNoteInsn::Hold(p) => RawNoteInsnView::Hold(*p),
            RawNoteInsn::Slide(p) => RawNoteInsnView::Slide(p@),
        }
    }
}

#[derive(Copy, Clone, Eq, PartialEq, Hash, Debug, Structural)]
pub struct BpmParams {
    pub new_bpm: Decimal,
}

/// A new slot length: a split of the whole note, or an absolute duration in seconds.
#[derive(Copy, Clone, Eq, PartialEq, Hash, Debug, Structural)]
pub enum BeatDivisorParams {
    NewDivisor(u8),
    NewAbsoluteDuration(Decimal),
}

/// One instruction of a chart.
#[derive(Clone, PartialEq, Debug)]
pub enum RawInsn {
    Bpm(BpmParams),
    BeatDivisor(BeatDivisorParams),
    Rest,
    Note(Sp<RawNoteInsn>),
    NoteBundle(Vec<Sp<RawNoteInsn>>),
    EndMark,
}

/// [`RawInsn`] with sequences in place of vectors.
pub enum RawInsnView {
    Bpm(BpmParams),
    BeatDivisor(BeatDivisorParams),
    Rest,
    Note(Sp<RawNoteInsnView>),
    NoteBundle(Seq<Sp<RawNoteInsnView>>),
    EndMark,
}

impl View for RawInsn {
    type V = RawInsnView;

    open spec fn view(&self) -> RawInsnView {
        match self {
            RawInsn::Bpm(p) => RawInsnView::Bpm(*p),
            RawInsn::BeatDivisor(p) => RawInsnView::BeatDivisor(*p),
            RawInsn::Rest => RawInsnView::Rest,
            RawInsn::Note(n) => RawInsnView::Note(n@),
            RawInsn::NoteBundle(ns) => RawInsnView::NoteBundle(notes_view(ns@)),
            RawInsn::EndMark => RawInsnView::EndMark,
        }
    }
}

impl RawInsn {
    /// The instruction with a span attached.
    pub fn with_span(self, span: Span) -> (r: Sp<RawInsn>)
        ensures
            r.0 == self,
            r.1 == span,
    {
        Sp::new(self, span)
    }
}

impl RawNoteInsn {
    /// The note with a span attached.
    pub fn with_span(self, span: Span) -> (r: Sp<RawNoteInsn>)
        ensures
            r.0 == self,
            r.1 == span,
    {
        Sp::new(self, span)
    }
}

} // verus!
