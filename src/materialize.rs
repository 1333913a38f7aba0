//! Materialization: replaying instructions as a timeline, into absolutely timed notes.
use vstd::prelude::*;

use crate::insn::{
    insns_view, Key, Length, RawInsn, RawInsnView, RawNoteInsn, RawNoteInsnView, BeatDivisorParams,
    HoldParams, SlideLength, SlideParams, SlideParamsView, SlideShape, SlideStopTimeSpec,
    SlideTrack, TapParams, TapVariant,
};
use crate::number::{
    sum, lemma_decimal_den, lemma_decimal_positive, lemma_make_rational, rational_add, rational_div_into,
    rational_of_decimal, rational_scale, scale, div_into, Decimal, Rational,
};
use crate::span::{Sp, Span};

verus! {

#[derive(Copy, Clone, Eq, PartialEq, Hash, Debug, Structural)]
pub enum MaterializedTapShape {
    Ring,
    Break,
    Star,
}

/// A tap at `ts` seconds.
#[derive(Copy, Clone, Eq, PartialEq, Hash, Debug, Structural)]
pub struct MaterializedTap {
    pub ts: Rational,
    pub key: Key,
    pub shape: MaterializedTapShape,
}

/// A hold from `ts` seconds, lasting `dur` seconds.
#[derive(Copy, Clone, Eq, PartialEq, Hash, Debug, Structural)]
pub struct MaterializedHold {
    pub ts: Rational,
    pub dur: Rational,
    pub key: Key,
}

/// A slide track whose star appears at `ts`, and which travels from `start_ts` for `dur`
/// seconds.
#[derive(Copy, Clone, Eq, PartialEq, Hash, Debug, Structural)]
pub struct MaterializedSlideTrack {
    pub ts: Rational,
    pub start_ts: Rational,
    pub dur: Rational,
    pub start: Key,
    pub destination: Key,
    pub interim: Option<Key>,
    pub shape: SlideShape,
}

/// A note with absolute timing.
#[derive(Copy, Clone, Eq, PartialEq, Hash, Debug, Structural)]
pub enum Note {
    Tap(MaterializedTap),
    Hold(MaterializedHold),
    SlideTrack(MaterializedSlideTrack),
}

impl Note {
    pub open spec fn spec_ts(self) -> Rational {
        match self {
            Note::Tap(n) => n.ts,
            Note::Hold(n) => n.ts,
            Note::SlideTrack(n) => n.ts,
        }
    }

    /// When the note appears.
    pub fn ts(&self) -> (r: Rational)
        ensures
            r == self.spec_ts(),
    {
        match self {
            Note::Tap(n) => n.ts,
            Note::Hold(n) => n.ts,
            Note::SlideTrack(n) => n.ts,
        }
    }
}

/// Why materialization stopped.
#[derive(Copy, Clone, Eq, PartialEq, Hash, Debug, Structural)]
pub enum MaterializeErrorKind {
    /// A beat length was needed before any tempo was set.
    MissingTempo,
    /// A time slot was needed before any subdivision was set.
    MissingSubdivision,
    /// A tempo that is zero or negative.
    NonPositiveTempo,
    /// A divisor of zero.
    NonPositiveDivisor,
    /// A timing value whose lowest terms leave the range of [`Rational`].
    OutOfRange,
}

/// An error, with the span of the instruction or note that caused it.
#[derive(Copy, Clone, Eq, PartialEq, Hash, Debug, Structural)]
pub struct MaterializeError {
    pub kind: MaterializeErrorKind,
    pub span: Span,
}

/// The timing state threaded through the instructions: the length of a beat and of a time
/// slot, where set, and the time of the next slot.
#[derive(Copy, Clone, Eq, PartialEq, Hash, Debug, Structural)]
pub struct MaterializationContext {
    pub curr_beat_dur: Option<Rational>,
    pub curr_note_dur: Option<Rational>,
    pub curr_ts: Rational,
}

/// A rational in range, or the error for one out of range.
pub open spec fn in_range(x: Option<Rational>) -> Result<Rational, MaterializeErrorKind> {
    match x {
        Some(r) => Ok(r),
        None => Err(MaterializeErrorKind::OutOfRange),
    }
}

/// The length of a beat at a tempo: `60 / bpm` seconds.
pub open spec fn spec_bpm_to_beat_dur(bpm: Decimal) -> Result<Rational, MaterializeErrorKind> {
    if !bpm.spec_is_positive() {
        Err(MaterializeErrorKind::NonPositiveTempo)
    } else {
        match rational_of_decimal(bpm) {
            Some(x) => in_range(rational_div_into(60, x)),
            None => Err(MaterializeErrorKind::OutOfRange),
        }
    }
}

/// The length of one of `divisor` parts of a whole note (four beats): `4 * beat / divisor`.
pub open spec fn spec_divide_beat(beat: Option<Rational>, divisor: u8) -> Result<
    Rational,
    MaterializeErrorKind,
> {
    if divisor == 0 {
        Err(MaterializeErrorKind::NonPositiveDivisor)
    } else {
        match beat {
            Some(b) => in_range(rational_scale(b, 4, divisor as int)),
            None => Err(MaterializeErrorKind::MissingTempo),
        }
    }
}

/// A length in seconds: `count` parts of a whole note split into `divisor`, or seconds as given.
pub open spec fn spec_duration(len: Length, beat: Option<Rational>) -> Result<
    Rational,
    MaterializeErrorKind,
> {
    match len {
        Length::NumBeats(p) => if p.divisor == 0 {
            Err(MaterializeErrorKind::NonPositiveDivisor)
        } else {
            match beat {
                Some(b) => in_range(rational_scale(b, 4 * p.num, p.divisor as int)),
                None => Err(MaterializeErrorKind::MissingTempo),
            }
        },
        Length::Seconds(x) => in_range(rational_of_decimal(x)),
    }
}

/// The stop time of a slide track: one beat where none is given, else the given one.
pub open spec fn spec_stop_time(len: SlideLength, beat: Option<Rational>) -> Result<
    Rational,
    MaterializeErrorKind,
> {
    match len {
        SlideLength::Simple(_) => match beat {
            Some(b) => Ok(b),
            None => Err(MaterializeErrorKind::MissingTempo),
        },
        SlideLength::Custom(x, _) => spec_given_stop_time(x),
    }
}

/// A stop time that is given: the length of a beat at a tempo, or seconds.
pub open spec fn spec_given_stop_time(x: SlideStopTimeSpec) -> Result<Rational, MaterializeErrorKind> {
    match x {
        SlideStopTimeSpec::Bpm(bpm) => spec_bpm_to_beat_dur(bpm),
        SlideStopTimeSpec::Seconds(s) => in_range(rational_of_decimal(s)),
    }
}

/// A tap: a star where it begins a slide, else a ring or a break.
pub open spec fn spec_tap(ts: Rational, p: TapParams, is_slide_star: bool) -> MaterializedTap {
    MaterializedTap {
        ts,
        key: p.key,
        shape: if is_slide_star {
            MaterializedTapShape::Star
        } else if p.variant == TapVariant::Break {
            MaterializedTapShape::Break
        } else {
            MaterializedTapShape::Ring
        },
    }
}

/// The interim key of a track, where it has one.
pub open spec fn interim_key(p: Option<TapParams>) -> Option<Key> {
    match p {
        Some(i) => Some(i.key),
        None => None,
    }
}

/// One track of a slide whose star is at `ts`.
pub open spec fn spec_slide_track(
    ts: Rational,
    beat: Option<Rational>,
    start: Key,
    track: SlideTrack,
) -> Result<MaterializedSlideTrack, MaterializeErrorKind> {
    let p = track.spec_params();
    match spec_stop_time(p.len, beat) {
        Ok(stop) => match rational_add(ts, stop) {
            Some(start_ts) => match spec_duration(p.len.spec_slide_duration(), beat) {
                Ok(dur) => Ok(
                    MaterializedSlideTrack {
                        ts,
                        start_ts,
                        dur,
                        start,
                        destination: p.destination.key,
                        interim: interim_key(p.interim),
                        shape: track.spec_shape(),
                    },
                ),
                Err(k) => Err(k),
            },
            None => Err(MaterializeErrorKind::OutOfRange),
        },
        Err(k) => Err(k),
    }
}

/// The tracks of a slide, in order.
pub open spec fn spec_slide_tracks(
    ts: Rational,
    beat: Option<Rational>,
    start: Key,
    tracks: Seq<SlideTrack>,
) -> Result<Seq<Note>, MaterializeErrorKind>
    decreases tracks.len(),
{
    if tracks.len() == 0 {
        Ok(seq![])
    } else {
        match spec_slide_track(ts, beat, start, tracks[0]) {
            Ok(m) => match spec_slide_tracks(ts, beat, start, tracks.drop_first()) {
                Ok(rest) => Ok(seq![Note::SlideTrack(m)] + rest),
                Err(k) => Err(k),
            },
            Err(k) => Err(k),
        }
    }
}

/// A slide: its star, then its tracks.
pub open spec fn spec_slide(ts: Rational, beat: Option<Rational>, p: SlideParamsView) -> Result<
    Seq<Note>,
    MaterializeErrorKind,
> {
    match spec_slide_tracks(ts, beat, p.start.key, p.tracks) {
        Ok(tracks) => Ok(seq![Note::Tap(spec_tap(ts, p.start, true))] + tracks),
        Err(k) => Err(k),
    }
}

/// The notes of one raw note at `ts`.
pub open spec fn spec_note(ts: Rational, beat: Option<Rational>, n: RawNoteInsnView) -> Result<
    Seq<Note>,
    MaterializeErrorKind,
> {
    match n {
        RawNoteInsnView::Tap(p) => Ok(seq![Note::Tap(spec_tap(ts, p, false))]),
        RawNoteInsnView::Hold(p) => match spec_duration(p.len, beat) {
            Ok(dur) => Ok(seq![Note::Hold(MaterializedHold { ts, dur, key: p.key })]),
            Err(k) => Err(k),
        },
        RawNoteInsnView::Slide(p) => spec_slide(ts, beat, p),
    }
}

/// The notes of raw notes that share the time `ts`, in order.
pub open spec fn spec_bundle(
    ts: Rational,
    beat: Option<Rational>,
    notes: Seq<Sp<RawNoteInsnView>>,
) -> Result<Seq<Note>, MaterializeError>
    decreases notes.len(),
{
    if notes.len() == 0 {
        Ok(seq![])
    } else {
        match spec_note(ts, beat, notes[0].0) {
            Ok(ns) => match spec_bundle(ts, beat, notes.drop_first()) {
                Ok(rest) => Ok(ns + rest),
                Err(e) => Err(e),
            },
            Err(k) => Err(MaterializeError { kind: k, span: notes[0].1 }),
        }
    }
}

impl MaterializationContext {
    /// Every timing value is within range.
    pub open spec fn wf(self) -> bool {
        &&& self.curr_ts.wf()
        &&& (self.curr_beat_dur matches Some(b) ==> b.wf())
        &&& (self.curr_note_dur matches Some(s) ==> s.wf())
    }

    /// Takes one time slot: the slot's time, and the state with the time of the next slot. A
    /// slot needs a tempo, and then a subdivision, set before it.
    pub open spec fn spec_advance(self) -> Result<(Rational, MaterializationContext), MaterializeErrorKind> {
        if self.curr_beat_dur is None {
            Err(MaterializeErrorKind::MissingTempo)
        } else {
            match self.curr_note_dur {
                Some(slot) => match rational_add(self.curr_ts, slot) {
                    Some(next) => Ok((self.curr_ts, MaterializationContext { curr_ts: next, ..self })),
                    None => Err(MaterializeErrorKind::OutOfRange),
                },
                None => Err(MaterializeErrorKind::MissingSubdivision),
            }
        }
    }

    /// One instruction: the state after it, and its notes.
    #[verifier::opaque]
    pub open spec fn spec_step(self, insn: Sp<RawInsnView>) -> Result<
        (MaterializationContext, Seq<Note>),
        MaterializeError,
    > {
        match insn.0 {
            RawInsnView::Bpm(p) => match spec_bpm_to_beat_dur(p.new_bpm) {
                Ok(b) => Ok((MaterializationContext { curr_beat_dur: Some(b), ..self }, seq![])),
                Err(k) => Err(MaterializeError { kind: k, span: insn.1 }),
            },
            RawInsnView::BeatDivisor(BeatDivisorParams::NewDivisor(d)) => match spec_divide_beat(
                self.curr_beat_dur,
                d,
            ) {
                Ok(s) => Ok((MaterializationContext { curr_note_dur: Some(s), ..self }, seq![])),
                Err(k) => Err(MaterializeError { kind: k, span: insn.1 }),
            },
            RawInsnView::BeatDivisor(BeatDivisorParams::NewAbsoluteDuration(x)) => match in_range(
                rational_of_decimal(x),
            ) {
                Ok(s) => Ok((MaterializationContext { curr_note_dur: Some(s), ..self }, seq![])),
                Err(k) => Err(MaterializeError { kind: k, span: insn.1 }),
            },
            RawInsnView::Rest => match self.spec_advance() {
                Ok((_, next)) => Ok((next, seq![])),
                Err(k) => Err(MaterializeError { kind: k, span: insn.1 }),
            },
            RawInsnView::Note(n) => match self.spec_advance() {
                Ok((ts, next)) => match spec_note(ts, next.curr_beat_dur, n.0) {
                    Ok(ns) => Ok((next, ns)),
                    Err(k) => Err(MaterializeError { kind: k, span: n.1 }),
                },
                Err(k) => Err(MaterializeError { kind: k, span: insn.1 }),
            },
            RawInsnView::NoteBundle(notes) => match self.spec_advance() {
                Ok((ts, next)) => match spec_bundle(ts, next.curr_beat_dur, notes) {
                    Ok(ns) => Ok((next, ns)),
                    Err(e) => Err(e),
                },
                Err(k) => Err(MaterializeError { kind: k, span: insn.1 }),
            },
            RawInsnView::EndMark => Ok((self, seq![])),
        }
    }

    /// Instructions in order: the state after the last, and all their notes in order; or the
    /// first error.
    pub open spec fn spec_run(self, insns: Seq<Sp<RawInsnView>>) -> Result<
        (MaterializationContext, Seq<Note>),
        MaterializeError,
    >
        decreases insns.len(),
    {
        if insns.len() == 0 {
            Ok((self, seq![]))
        } else {
            match self.spec_step(insns[0]) {
                Ok((next, ns)) => match next.spec_run(insns.drop_first()) {
                    Ok((last, rest)) => Ok((last, ns + rest)),
                    Err(e) => Err(e),
                },
                Err(e) => Err(e),
            }
        }
    }
}

/// Notes gathered so far, ahead of the outcome for the rest.
pub open spec fn after_notes<E>(acc: Seq<Note>, r: Result<Seq<Note>, E>) -> Result<Seq<Note>, E> {
    match r {
        Ok(rest) => Ok(acc + rest),
        Err(e) => Err(e),
    }
}

fn in_range_exec(x: Option<Rational>) -> (r: Result<Rational, MaterializeErrorKind>)
    ensures
        r == in_range(x),
{
    match x {
        Some(v) => Ok(v),
        None => Err(MaterializeErrorKind::OutOfRange),
    }
}

/// The length of a beat at a tempo: a beat times the tempo is sixty seconds.
pub fn bpm_to_beat_dur(bpm: Decimal) -> (r: Result<Rational, MaterializeErrorKind>)
    ensures
        r == spec_bpm_to_beat_dur(bpm),
        r matches Ok(b) ==> {
            let x = rational_of_decimal(bpm)->0;
            &&& b.wf()
            &&& b.num > 0
            &&& b.num * x.num == 60 * b.den * x.den
        },
{
    if !bpm.is_positive() {
        return Err(MaterializeErrorKind::NonPositiveTempo);
    }
    match bpm.to_rational() {
        Some(x) => {
            proof {
                lemma_decimal_positive(bpm);
                lemma_make_rational(bpm.spec_num(), bpm.spec_den() as int);
            }
            let r = div_into(60, x);
            proof {
                if r is Some {
                    lemma_make_rational(60 * x.den, x.num as int);
                    let b = r->0;
                    assert(b.num * x.num == 60 * b.den * x.den) by (nonlinear_arith)
                        requires
                            b.num * x.num == (60 * x.den) * b.den,
                    ;
                }
            }
            in_range_exec(r)
        },
        None => Err(MaterializeErrorKind::OutOfRange),
    }
}

/// The length of one of `divisor` parts of a whole note: a slot times the divisor is four
/// beats.
pub fn divide_beat(beat: Option<Rational>, divisor: u8) -> (r: Result<Rational, MaterializeErrorKind>)
    requires
        beat matches Some(b) ==> b.wf(),
    ensures
        r == spec_divide_beat(beat, divisor),
        r matches Ok(s) ==> {
            let b = beat->0;
            &&& s.wf()
            &&& s.num * divisor * b.den == 4 * b.num * s.den
            &&& (b.num > 0 ==> s.num > 0)
        },
{
    if divisor == 0 {
        return Err(MaterializeErrorKind::NonPositiveDivisor);
    }
    match beat {
        Some(b) => {
            let r = scale(b, 4, divisor as i64);
            proof {
                if r is Some {
                    assert(b.den * divisor > 0) by (nonlinear_arith)
                        requires
                            b.den > 0,
                            divisor > 0,
                    ;
                    lemma_make_rational(b.num * 4, b.den * divisor);
                    let s = r->0;
                    assert(s.num * divisor * b.den == 4 * b.num * s.den) by (nonlinear_arith)
                        requires
                            s.num * (b.den * divisor) == (b.num * 4) * s.den,
                    ;
                }
            }
            in_range_exec(r)
        },
        None => Err(MaterializeErrorKind::MissingTempo),
    }
}

/// A length in seconds, at the current beat length.
pub fn materialize_duration(x: Length, beat: Option<Rational>) -> (r: Result<Rational, MaterializeErrorKind>)
    requires
        beat matches Some(b) ==> b.wf(),
    ensures
        r == spec_duration(x, beat),
        r matches Ok(d) ==> d.wf(),
{
    match x {
        Length::NumBeats(p) => {
            if p.divisor == 0 {
                return Err(MaterializeErrorKind::NonPositiveDivisor);
            }
            match beat {
                Some(b) => {
                    let r = scale(b, 4 * p.num as i64, p.divisor as i64);
                    proof {
                        if r is Some {
                            assert(b.den * p.divisor > 0) by (nonlinear_arith)
                                requires
                                    b.den > 0,
                                    p.divisor > 0,
                            ;
                            lemma_make_rational(b.num * (4 * p.num), b.den * p.divisor);
                        }
                    }
                    in_range_exec(r)
                },
                None => Err(MaterializeErrorKind::MissingTempo),
            }
        },
        Length::Seconds(s) => {
            let r = s.to_rational();
            proof {
                if r is Some {
                    lemma_decimal_den(s);
                    lemma_make_rational(s.spec_num(), s.spec_den() as int);
                }
            }
            in_range_exec(r)
        },
    }
}

/// A stop time that is given: the length of a beat at a tempo, or seconds.
pub fn stop_time_spec_to_dur(x: SlideStopTimeSpec) -> (r: Result<Rational, MaterializeErrorKind>)
    ensures
        r == spec_given_stop_time(x),
        r matches Ok(d) ==> d.wf(),
{
    match x {
        SlideStopTimeSpec::Bpm(bpm) => bpm_to_beat_dur(bpm),
        SlideStopTimeSpec::Seconds(s) => {
            let r = s.to_rational();
            proof {
                if r is Some {
                    lemma_decimal_den(s);
                    lemma_make_rational(s.spec_num(), s.spec_den() as int);
                }
            }
            in_range_exec(r)
        },
    }
}

/// A tap at `ts`.
pub fn materialize_tap_params(ts: Rational, p: &TapParams, is_slide_star: bool) -> (r: MaterializedTap)
    ensures
        r == spec_tap(ts, *p, is_slide_star),
{
    let shape = if is_slide_star {
        MaterializedTapShape::Star
    } else {
        match p.variant {
            TapVariant::Break => MaterializedTapShape::Break,
            TapVariant::Tap => MaterializedTapShape::Ring,
        }
    };
    MaterializedTap { ts, key: p.key, shape }
}

/// One track of a slide whose star is at `ts`: it starts travelling one stop time later.
pub fn materialize_slide_track_params(
    ts: Rational,
    beat: Option<Rational>,
    start_key: Key,
    track: &SlideTrack,
) -> (r: Result<MaterializedSlideTrack, MaterializeErrorKind>)
    requires
        ts.wf(),
        beat matches Some(b) ==> b.wf(),
    ensures
        r == spec_slide_track(ts, beat, start_key, *track),
{
    let shape = track.shape();
    let params = track.params();
    let stop_time = match params.len {
        SlideLength::Simple(_) => match beat {
            Some(b) => b,
            None => {
                return Err(MaterializeErrorKind::MissingTempo);
            },
        },
        SlideLength::Custom(st, _) => match stop_time_spec_to_dur(st) {
            Ok(d) => d,
            Err(k) => {
                return Err(k);
            },
        },
    };
    let start_ts = match sum(ts, stop_time) {
        Some(v) => v,
        None => {
            return Err(MaterializeErrorKind::OutOfRange);
        },
    };
    let dur = match materialize_duration(params.len.slide_duration(), beat) {
        Ok(d) => d,
        Err(k) => {
            return Err(k);
        },
    };
    let interim = match params.interim {
        Some(i) => Some(i.key),
        None => None,
    };
    Ok(
        MaterializedSlideTrack {
            ts,
            start_ts,
            dur,
            start: start_key,
            destination: params.destination.key,
            interim,
            shape,
        },
    )
}

/// A slide: its star, then one note per track, all at `ts`.
pub fn materialize_slide(ts: Rational, beat: Option<Rational>, p: &SlideParams) -> (r: Result<
    Vec<Note>,
    MaterializeErrorKind,
>)
    requires
        ts.wf(),
        beat matches Some(b) ==> b.wf(),
    ensures
        match (r, spec_slide(ts, beat, p@)) {
            (Ok(v), Ok(ns)) => v@ == ns,
            (Err(k), Err(k2)) => k == k2,
            _ => false,
        },
{
    let mut result: Vec<Note> = Vec::new();
    result.push(Note::Tap(materialize_tap_params(ts, &p.start, true)));
    let start_key = p.start.key;
    let ghost tracks = p.tracks@;
    let mut i: usize = 0;
    assert(tracks.subrange(0, tracks.len() as int) =~= tracks);
    while i < p.tracks.len()
        invariant
            ts.wf(),
            beat matches Some(b) ==> b.wf(),
            i <= tracks.len(),
            tracks == p.tracks@,
            start_key == p.start.key,
            spec_slide(ts, beat, p@) == after_notes(
                result@,
                spec_slide_tracks(ts, beat, start_key, tracks.subrange(i as int, tracks.len() as int)),
            ),
        decreases tracks.len() - i,
    {
        let ghost rest = tracks.subrange(i as int, tracks.len() as int);
        assert(rest.drop_first() =~= tracks.subrange(i + 1, tracks.len() as int));
        match materialize_slide_track_params(ts, beat, start_key, &p.tracks[i]) {
            Ok(m) => {
                proof {
                    match spec_slide_tracks(ts, beat, start_key, rest.drop_first()) {
                        Ok(more) => {
                            assert(result@ + (seq![Note::SlideTrack(m)] + more) =~= result@.push(
                                Note::SlideTrack(m),
                            ) + more);
                        },
                        Err(_) => {},
                    }
                }
                result.push(Note::SlideTrack(m));
            },
            Err(k) => {
                return Err(k);
            },
        }
        i = i + 1;
    }
    assert(tracks.subrange(i as int, tracks.len() as int) =~= Seq::<SlideTrack>::empty());
    assert(result@ + Seq::<Note>::empty() =~= result@);
    Ok(result)
}

/// A hold from `ts`.
pub fn materialize_hold_params(ts: Rational, beat: Option<Rational>, p: &HoldParams) -> (r: Result<
    MaterializedHold,
    MaterializeErrorKind,
>)
    requires
        beat matches Some(b) ==> b.wf(),
    ensures
        match (r, spec_duration(p.len, beat)) {
            (Ok(h), Ok(dur)) => h == (MaterializedHold { ts, dur, key: p.key }),
            (Err(k), Err(k2)) => k == k2,
            _ => false,
        },
{
    match materialize_duration(p.len, beat) {
        Ok(dur) => Ok(MaterializedHold { ts, dur, key: p.key }),
        Err(k) => Err(k),
    }
}

impl MaterializationContext {
    /// The state before the first instruction: no tempo, no subdivision, and the first slot at
    /// `offset_secs`.
    pub fn with_offset(offset_secs: Rational) -> (r: MaterializationContext)
        ensures
            r == (MaterializationContext {
                curr_beat_dur: None,
                curr_note_dur: None,
                curr_ts: offset_secs,
            }),
    {
        MaterializationContext { curr_beat_dur: None, curr_note_dur: None, curr_ts: offset_secs }
    }

    fn set_bpm(&mut self, new_bpm: Decimal) -> (r: Result<(), MaterializeErrorKind>)
        requires
            old(self).wf(),
        ensures
            final(self).wf(),
            match spec_bpm_to_beat_dur(new_bpm) {
                Ok(b) => r is Ok && *final(self) == (MaterializationContext {
                    curr_beat_dur: Some(b),
                    ..*old(self)
                }),
                Err(k) => r == Err::<(), MaterializeErrorKind>(k) && *final(self) == *old(self),
            },
    {
        let b = bpm_to_beat_dur(new_bpm)?;
        self.curr_beat_dur = Some(b);
        Ok(())
    }

    fn set_beat_divisor(&mut self, new_divisor: u8) -> (r: Result<(), MaterializeErrorKind>)
        requires
            old(self).wf(),
        ensures
            final(self).wf(),
            match spec_divide_beat(old(self).curr_beat_dur, new_divisor) {
                Ok(s) => r is Ok && *final(self) == (MaterializationContext {
                    curr_note_dur: Some(s),
                    ..*old(self)
                }),
                Err(k) => r == Err::<(), MaterializeErrorKind>(k) && *final(self) == *old(self),
            },
    {
        let s = divide_beat(self.curr_beat_dur, new_divisor)?;
        self.curr_note_dur = Some(s);
        Ok(())
    }

    /// Takes one time slot: gives its time, the time before advancing, and moves the time of
    /// the next slot on by one slot.
    fn advance_time(&mut self) -> (r: Result<Rational, MaterializeErrorKind>)
        requires
            old(self).wf(),
        ensures
            final(self).wf(),
            match old(self).spec_advance() {
                Ok((ts, next)) => r == Ok::<Rational, MaterializeErrorKind>(ts) && *final(self)
                    == next,
                Err(k) => r == Err::<Rational, MaterializeErrorKind>(k) && *final(self) == *old(
                    self,
                ),
            },
    {
        if self.curr_beat_dur.is_none() {
            return Err(MaterializeErrorKind::MissingTempo);
        }
        let slot = match self.curr_note_dur {
            Some(s) => s,
            None => {
                return Err(MaterializeErrorKind::MissingSubdivision);
            },
        };
        let res = self.curr_ts;
        match sum(res, slot) {
            Some(next) => {
                proof {
                    assert(res.den * slot.den > 0) by (nonlinear_arith)
                        requires
                            res.den > 0,
                            slot.den > 0,
                    ;
                    lemma_make_rational(
                        res.num * slot.den + slot.num * res.den,
                        res.den * slot.den,
                    );
                }
                self.curr_ts = next;
                Ok(res)
            },
            None => Err(MaterializeErrorKind::OutOfRange),
        }
    }

    /// The notes of one raw note at `ts`, at the current beat length.
    fn materialize_raw_note(&self, ts: Rational, raw_note: &RawNoteInsn) -> (r: Result<
        Vec<Note>,
        MaterializeErrorKind,
    >)
        requires
            self.wf(),
            ts.wf(),
        ensures
            match (r, spec_note(ts, self.curr_beat_dur, raw_note@)) {
                (Ok(v), Ok(ns)) => v@ == ns,
                (Err(k), Err(k2)) => k == k2,
                _ => false,
            },
    {
        match raw_note {
            RawNoteInsn::Tap(params) => {
                let m = materialize_tap_params(ts, params, false);
                let mut v: Vec<Note> = Vec::new();
                v.push(Note::Tap(m));
                Ok(v)
            },
            RawNoteInsn::Slide(params) => materialize_slide(ts, self.curr_beat_dur, params),
            RawNoteInsn::Hold(params) => {
                let m = materialize_hold_params(ts, self.curr_beat_dur, params)?;
                let mut v: Vec<Note> = Vec::new();
                v.push(Note::Hold(m));
                Ok(v)
            },
        }
    }

    /// The notes of raw notes that share the time `ts`, in order.
    fn materialize_bundle(&self, ts: Rational, raw_notes: &Vec<Sp<RawNoteInsn>>) -> (r: Result<
        Vec<Note>,
        MaterializeError,
    >)
        requires
            self.wf(),
            ts.wf(),
        ensures
            match (r, spec_bundle(ts, self.curr_beat_dur, crate::insn::notes_view(raw_notes@))) {
                (Ok(v), Ok(ns)) => v@ == ns,
                (Err(e), Err(e2)) => e == e2,
                _ => false,
            },
    {
        let ghost notes = crate::insn::notes_view(raw_notes@);
        let mut result: Vec<Note> = Vec::new();
        let mut i: usize = 0;
        assert(notes.subrange(0, notes.len() as int) =~= notes);
        assert(Seq::<Note>::empty() + Seq::<Note>::empty() =~= Seq::<Note>::empty());
        while i < raw_notes.len()
            invariant
                self.wf(),
                ts.wf(),
                i <= raw_notes@.len(),
                notes == crate::insn::notes_view(raw_notes@),
                spec_bundle(ts, self.curr_beat_dur, notes) == after_notes(
                    result@,
                    spec_bundle(ts, self.curr_beat_dur, notes.subrange(i as int, notes.len() as int)),
                ),
            decreases raw_notes@.len() - i,
        {
            let ghost rest = notes.subrange(i as int, notes.len() as int);
            assert(rest.drop_first() =~= notes.subrange(i + 1, notes.len() as int));
            assert(rest[0] == raw_notes@[i as int]@);
            let note = &raw_notes[i];
            match self.materialize_raw_note(ts, &note.0) {
                Ok(ns) => {
                    let mut ns = ns;
                    let ghost ns_view = ns@;
                    proof {
                        match spec_bundle(ts, self.curr_beat_dur, rest.drop_first()) {
                            Ok(more) => {
                                assert(result@ + (ns_view + more) =~= (result@ + ns_view) + more);
                            },
                            Err(_) => {},
                        }
                    }
                    result.append(&mut ns);
                },
                Err(k) => {
                    return Err(MaterializeError { kind: k, span: note.1 });
                },
            }
            i = i + 1;
        }
        assert(notes.subrange(i as int, notes.len() as int) =~= Seq::<Sp<RawNoteInsnView>>::empty());
        assert(result@ + Seq::<Note>::empty() =~= result@);
        Ok(result)
    }

    /// Reads one instruction, moving the timing state on, and gives its notes.
    fn materialize_raw_insn(&mut self, insn: &Sp<RawInsn>) -> (r: Result<Vec<Note>, MaterializeError>)
        requires
            old(self).wf(),
        ensures
            final(self).wf(),
            match (r, old(self).spec_step(insn@)) {
                (Ok(v), Ok((next, ns))) => v@ == ns && *final(self) == next,
                (Err(e), Err(e2)) => e == e2,
                _ => false,
            },
    {
        reveal(MaterializationContext::spec_step);
        let span = insn.1;
        match &insn.0 {
            RawInsn::Bpm(params) => match self.set_bpm(params.new_bpm) {
                Ok(()) => Ok(Vec::new()),
                Err(kind) => Err(MaterializeError { kind, span }),
            },
            RawInsn::BeatDivisor(params) => match params {
                BeatDivisorParams::NewDivisor(new_divisor) => match self.set_beat_divisor(
                    *new_divisor,
                ) {
                    Ok(()) => Ok(Vec::new()),
                    Err(kind) => Err(MaterializeError { kind, span }),
                },
                BeatDivisorParams::NewAbsoluteDuration(new_note_dur) => {
                    match new_note_dur.to_rational() {
                        Some(s) => {
                            proof {
                                lemma_decimal_den(*new_note_dur);
                                lemma_make_rational(
                                    new_note_dur.spec_num(),
                                    new_note_dur.spec_den() as int,
                                );
                            }
                            self.curr_note_dur = Some(s);
                            Ok(Vec::new())
                        },
                        None => Err(MaterializeError { kind: MaterializeErrorKind::OutOfRange, span }),
                    }
                },
            },
            RawInsn::Rest => match self.advance_time() {
                Ok(_) => Ok(Vec::new()),
                Err(kind) => Err(MaterializeError { kind, span }),
            },
            RawInsn::EndMark => Ok(Vec::new()),
            RawInsn::Note(raw_note) => match self.advance_time() {
                Ok(ts) => match self.materialize_raw_note(ts, &raw_note.0) {
                    Ok(v) => Ok(v),
                    Err(kind) => Err(MaterializeError { kind, span: raw_note.1 }),
                },
                Err(kind) => Err(MaterializeError { kind, span }),
            },
            RawInsn::NoteBundle(raw_notes) => match self.advance_time() {
                Ok(ts) => self.materialize_bundle(ts, raw_notes),
                Err(kind) => Err(MaterializeError { kind, span }),
            },
        }
    }

    /// Materializes instructions in order into notes, in the order their notes appear: the
    /// notes of a bundle share one time and keep their order, and a slide's star comes before
    /// its tracks. On success the state is the one after the last instruction; on the first
    /// error nothing is changed.
    pub fn materialize_insns(&mut self, insns: &Vec<Sp<RawInsn>>) -> (r: Result<
        Vec<Note>,
        MaterializeError,
    >)
        requires
            old(self).wf(),
        ensures
            final(self).wf(),
            match old(self).spec_run(insns_view(insns@)) {
                Ok((last, notes)) => r matches Ok(v) && v@ == notes && *final(self) == last,
                Err(e) => r == Err::<Vec<Note>, MaterializeError>(e) && *final(self) == *old(self),
            },
    {
        let ghost all = insns_view(insns@);
        let mut ctx = *self;
        let mut result: Vec<Note> = Vec::new();
        let mut i: usize = 0;
        assert(all.subrange(0, all.len() as int) =~= all);
        assert(Seq::<Note>::empty() + Seq::<Note>::empty() =~= Seq::<Note>::empty());
        proof {
            match ctx.spec_run(all) {
                Ok((last, ns)) => {
                    assert(Seq::<Note>::empty() + ns =~= ns);
                },
                Err(_) => {},
            }
        }
        while i < insns.len()
            invariant
                ctx.wf(),
                self.wf(),
                i <= insns@.len(),
                all == insns_view(insns@),
                self.spec_run(all) == match ctx.spec_run(all.subrange(i as int, all.len() as int)) {
                    Ok((last, ns)) => Ok((last, result@ + ns)),
                    Err(e) => Err(e),
                },
            decreases insns@.len() - i,
        {
            let ghost rest = all.subrange(i as int, all.len() as int);
            assert(rest.drop_first() =~= all.subrange(i + 1, all.len() as int));
            assert(rest[0] == insns@[i as int]@);
            let ghost before = ctx;
            match ctx.materialize_raw_insn(&insns[i]) {
                Ok(ns) => {
                    let mut ns = ns;
                    let ghost ns_view = ns@;
                    proof {
                        match ctx.spec_run(rest.drop_first()) {
                            Ok((last, more)) => {
                                assert(result@ + (ns_view + more) =~= (result@ + ns_view) + more);
                            },
                            Err(_) => {},
                        }
                    }
                    result.append(&mut ns);
                },
                Err(e) => {
                    return Err(e);
                },
            }
            i = i + 1;
        }
        assert(all.subrange(i as int, all.len() as int) =~= Seq::<Sp<RawInsnView>>::empty());
        assert(result@ + Seq::<Note>::empty() =~= result@);
        *self = ctx;
        Ok(result)
    }
}

/// Materializes instructions from a start time: the notes in order, or the first error.
pub fn materialize(offset_secs: Rational, insns: &Vec<Sp<RawInsn>>) -> (r: Result<
    Vec<Note>,
    MaterializeError,
>)
    requires
        offset_secs.wf(),
    ensures
        match MaterializationContext::with_offset_spec(offset_secs).spec_run(insns_view(insns@)) {
            Ok((_, notes)) => r matches Ok(v) && v@ == notes,
            Err(e) => r == Err::<Vec<Note>, MaterializeError>(e),
        },
{
    let mut ctx = MaterializationContext::with_offset(offset_secs);
    ctx.materialize_insns(insns)
}

impl MaterializationContext {
    /// The state before the first instruction.
    pub open spec fn with_offset_spec(offset_secs: Rational) -> MaterializationContext {
        MaterializationContext { curr_beat_dur: None, curr_note_dur: None, curr_ts: offset_secs }
    }
}

} // verus!
