//! The notation's grammar, as spec functions over the characters of a text.
//!
//! Each rule reads `t` from index `i` and gives the parsed value with the index just after its
//! last character, or else the index where it fails: where a token it needs is missing, or where
//! a number it needs begins. Of alternatives that all fail, the one that failed furthest on
//! counts. Whitespace may stand between any two tokens; a rule starts at its first token, and
//! callers skip whitespace before it.
use vstd::prelude::*;

use crate::insn::{
    key_of, track_of, BeatDivisorParams, BpmParams, HoldParams, Key, Length, NumBeatsParams,
    RawInsnView, RawNoteInsnView, SlideLength, SlideParamsView, SlideShape, SlideStopTimeSpec,
    SlideTrack, SlideTrackParams, TapParams, TapVariant,
};
use crate::number::{Decimal, EXPONENT_LIMIT, MANTISSA_LIMIT};
use crate::span::{span_of, Sp};

verus! {

pub open spec fn is_ws(c: char) -> bool {
    c == ' ' || c == '\t' || c == '\n' || c == '\r'
}

/// The number of whitespace characters from `i` on.
pub open spec fn ws_len(t: Seq<char>, i: int) -> nat
    decreases t.len() - i,
{
    if 0 <= i < t.len() && is_ws(t[i]) {
        1 + ws_len(t, i + 1)
    } else {
        0
    }
}

/// The index of the first character at or after `i` that is no whitespace.
pub open spec fn skip_ws(t: Seq<char>, i: int) -> int {
    i + ws_len(t, i)
}

/// The character `c` at `i`.
pub open spec fn lit(t: Seq<char>, i: int, c: char) -> Result<int, int> {
    if 0 <= i < t.len() && t[i] == c {
        Ok(i + 1)
    } else {
        Err(i)
    }
}

pub open spec fn is_digit(c: char) -> bool {
    '0' <= c <= '9'
}

pub open spec fn digit_value(c: char) -> nat {
    (c as u32 - '0' as u32) as nat
}

/// The number of decimal digits from `i` on.
pub open spec fn digits_len(t: Seq<char>, i: int) -> nat
    decreases t.len() - i,
{
    if 0 <= i < t.len() && is_digit(t[i]) {
        1 + digits_len(t, i + 1)
    } else {
        0
    }
}

/// The number that a string of decimal digits denotes.
pub open spec fn digits_value(s: Seq<char>) -> nat
    decreases s.len(),
{
    if s.len() == 0 {
        0
    } else {
        10 * digits_value(s.drop_last()) + digit_value(s.last())
    }
}

/// A run of one or more digits, as a number that fits a byte.
pub open spec fn spec_u8(t: Seq<char>, i: int) -> Result<(u8, int), int> {
    let n = digits_len(t, i);
    let v = digits_value(t.subrange(i, i + n));
    if n > 0 && v <= 255 {
        Ok((v as u8, i + n))
    } else {
        Err(i)
    }
}

/// The digits of a floating-point literal from `a`: `D+ ('.' D*)? | '.' D*`, where `D` is a
/// decimal digit. Gives the number that all its digits denote, the numbers of digits before and
/// after the point, and where it ends.
pub open spec fn spec_float_digits(t: Seq<char>, a: int) -> (nat, nat, nat, int) {
    let n1 = digits_len(t, a);
    if lit(t, a + n1, '.') is Ok {
        let n2 = digits_len(t, a + n1 + 1);
        let b = a + n1 + 1 + n2;
        (digits_value(t.subrange(a, a + n1) + t.subrange(a + n1 + 1, b)), n1, n2, b)
    } else {
        (digits_value(t.subrange(a, a + n1)), n1, 0, a + n1)
    }
}

/// The exponent part of a floating-point literal from `b`, `([eE] [+-]? D+)?`: its value, zero
/// where there is none, and where it ends. `None` where `e` has no digits after it.
pub open spec fn spec_float_exp(t: Seq<char>, b: int) -> Option<(int, int)> {
    if lit(t, b, 'e') is Ok || lit(t, b, 'E') is Ok {
        let negative = lit(t, b + 1, '-') is Ok;
        let c = if negative || lit(t, b + 1, '+') is Ok {
            b + 2
        } else {
            b + 1
        };
        let n = digits_len(t, c);
        let e = digits_value(t.subrange(c, c + n));
        if n == 0 {
            None
        } else {
            Some((if negative {
                -e
            } else {
                e as int
            }, c + n))
        }
    } else {
        Some((0, b))
    }
}

/// A floating-point literal: a sign, digits with at most one point among them, and an exponent.
/// Its digits form the mantissa, and the literal is in range where the mantissa is under
/// [`MANTISSA_LIMIT`] and the decimal exponent at most [`EXPONENT_LIMIT`] in magnitude.
pub open spec fn spec_float(t: Seq<char>, i: int) -> Result<(Decimal, int), int> {
    let negative = lit(t, i, '-') is Ok;
    let a = if negative || lit(t, i, '+') is Ok {
        i + 1
    } else {
        i
    };
    let (mantissa, n1, n2, b) = spec_float_digits(t, a);
    if n1 + n2 == 0 {
        Err(i)
    } else {
        match spec_float_exp(t, b) {
            Some((e, end)) => {
                let exponent = e - n2;
                if mantissa < MANTISSA_LIMIT && -EXPONENT_LIMIT <= exponent <= EXPONENT_LIMIT {
                    Ok(
                        (
                            Decimal { negative, mantissa: mantissa as u64, exponent: exponent as i64 },
                            end,
                        ),
                    )
                } else {
                    Err(i)
                }
            },
            None => Err(i),
        }
    }
}

/// A key: one of the digits `1` to `8`.
pub open spec fn spec_key(t: Seq<char>, i: int) -> Result<(Key, int), int> {
    if 0 <= i < t.len() && key_of(t[i]) is Some {
        Ok((key_of(t[i])->0, i + 1))
    } else {
        Err(i)
    }
}

/// A key, then `b` for a break.
pub open spec fn spec_tap_param(t: Seq<char>, i: int) -> Result<(TapParams, int), int> {
    match spec_key(t, i) {
        Ok((key, e)) => match lit(t, skip_ws(t, e), 'b') {
            Ok(e2) => Ok((TapParams { variant: TapVariant::Break, key }, e2)),
            Err(_) => Ok((TapParams { variant: TapVariant::Tap, key }, e)),
        },
        Err(f) => Err(f),
    }
}

/// `divisor : count`.
pub open spec fn spec_len_beats(t: Seq<char>, i: int) -> Result<(Length, int), int> {
    match spec_u8(t, i) {
        Ok((divisor, e1)) => match lit(t, skip_ws(t, e1), ':') {
            Ok(e2) => match spec_u8(t, skip_ws(t, e2)) {
                Ok((num, e3)) => Ok((Length::NumBeats(NumBeatsParams { divisor, num }), e3)),
                Err(f) => Err(f),
            },
            Err(f) => Err(f),
        },
        Err(f) => Err(f),
    }
}

/// `#` then seconds.
pub open spec fn spec_len_seconds(t: Seq<char>, i: int) -> Result<(Length, int), int> {
    match lit(t, i, '#') {
        Ok(e1) => match spec_float(t, skip_ws(t, e1)) {
            Ok((x, e2)) => Ok((Length::Seconds(x), e2)),
            Err(f) => Err(f),
        },
        Err(f) => Err(f),
    }
}

/// `divisor : count`, or `#` then seconds.
pub open spec fn spec_len_spec(t: Seq<char>, i: int) -> Result<(Length, int), int> {
    first_of(spec_len_beats(t, i), spec_len_seconds(t, i))
}

/// A length in brackets.
pub open spec fn spec_len(t: Seq<char>, i: int) -> Result<(Length, int), int> {
    match lit(t, i, '[') {
        Ok(e1) => match spec_len_spec(t, skip_ws(t, e1)) {
            Ok((len, e2)) => match lit(t, skip_ws(t, e2), ']') {
                Ok(e3) => Ok((len, e3)),
                Err(f) => Err(f),
            },
            Err(f) => Err(f),
        },
        Err(f) => Err(f),
    }
}

/// The stop time given with a length: a tempo beside beats, seconds beside seconds.
pub open spec fn stop_time_for(x: Decimal, len: Length) -> SlideStopTimeSpec {
    match len {
        Length::NumBeats(_) => SlideStopTimeSpec::Bpm(x),
        Length::Seconds(_) => SlideStopTimeSpec::Seconds(x),
    }
}

/// A plain length in brackets, as a slide length.
pub open spec fn spec_slide_len_simple(t: Seq<char>, i: int) -> Result<(SlideLength, int), int> {
    match spec_len(t, i) {
        Ok((len, e)) => Ok((SlideLength::Simple(len), e)),
        Err(f) => Err(f),
    }
}

/// `[x # length]`: a length with a stop time `x`.
pub open spec fn spec_slide_len_custom(t: Seq<char>, i: int) -> Result<(SlideLength, int), int> {
    match lit(t, i, '[') {
        Ok(e1) => match spec_float(t, skip_ws(t, e1)) {
            Ok((x, e2)) => match lit(t, skip_ws(t, e2), '#') {
                Ok(e3) => match spec_len_spec(t, skip_ws(t, e3)) {
                    Ok((len, e4)) => match lit(t, skip_ws(t, e4), ']') {
                        Ok(e5) => Ok((SlideLength::Custom(stop_time_for(x, len), len), e5)),
                        Err(f) => Err(f),
                    },
                    Err(f) => Err(f),
                },
                Err(f) => Err(f),
            },
            Err(f) => Err(f),
        },
        Err(f) => Err(f),
    }
}

/// A slide length: a plain length in brackets, or else `[x # length]` with a stop time `x`.
pub open spec fn spec_slide_len(t: Seq<char>, i: int) -> Result<(SlideLength, int), int> {
    first_of(spec_slide_len_simple(t, i), spec_slide_len_custom(t, i))
}

/// A hold: key, `h`, length.
pub open spec fn spec_hold(t: Seq<char>, i: int) -> Result<(HoldParams, int), int> {
    match spec_key(t, i) {
        Ok((key, e1)) => match lit(t, skip_ws(t, e1), 'h') {
            Ok(e2) => match spec_len(t, skip_ws(t, e2)) {
                Ok((len, e3)) => Ok((HoldParams { key, len }, e3)),
                Err(f) => Err(f),
            },
            Err(f) => Err(f),
        },
        Err(f) => Err(f),
    }
}

/// The marker of a track shape. The two-letter markers are tried before the one-letter ones.
pub open spec fn spec_shape_marker(t: Seq<char>, i: int) -> Result<(SlideShape, int), int> {
    if lit(t, i, 'p') is Ok && lit(t, i + 1, 'p') is Ok {
        Ok((SlideShape::Pp, i + 2))
    } else if lit(t, i, 'q') is Ok && lit(t, i + 1, 'q') is Ok {
        Ok((SlideShape::Qq, i + 2))
    } else if 0 <= i < t.len() {
        let c = t[i];
        if c == '-' {
            Ok((SlideShape::Line, i + 1))
        } else if c == '^' {
            Ok((SlideShape::Arc, i + 1))
        } else if c == '<' {
            Ok((SlideShape::CircumferenceLeft, i + 1))
        } else if c == '>' {
            Ok((SlideShape::CircumferenceRight, i + 1))
        } else if c == 'v' {
            Ok((SlideShape::V, i + 1))
        } else if c == 'p' {
            Ok((SlideShape::P, i + 1))
        } else if c == 'q' {
            Ok((SlideShape::Q, i + 1))
        } else if c == 's' {
            Ok((SlideShape::S, i + 1))
        } else if c == 'z' {
            Ok((SlideShape::Z, i + 1))
        } else if c == 'V' {
            Ok((SlideShape::Angle, i + 1))
        } else if c == 'w' {
            Ok((SlideShape::Spread, i + 1))
        } else {
            Err(i)
        }
    } else {
        Err(i)
    }
}

/// A slide track: shape marker, destination (after an interim point for the angle shape), and
/// slide length. After a one-letter `p` or `q` comes a key, never another `p` or `q`, so taking
/// the two-letter marker first decides the shape before the rest is read.
pub open spec fn spec_track(t: Seq<char>, i: int) -> Result<(SlideTrack, int), int> {
    match spec_shape_marker(t, i) {
        Ok((shape, e1)) => match spec_tap_param(t, skip_ws(t, e1)) {
            Ok((first, e2)) => if shape == SlideShape::Angle {
                match spec_tap_param(t, skip_ws(t, e2)) {
                    Ok((destination, e3)) => match spec_slide_len(t, skip_ws(t, e3)) {
                        Ok((len, e4)) => Ok(
                            (
                                track_of(
                                    shape,
                                    SlideTrackParams { destination, interim: Some(first), len },
                                ),
                                e4,
                            ),
                        ),
                        Err(f) => Err(f),
                    },
                    Err(f) => Err(f),
                }
            } else {
                match spec_slide_len(t, skip_ws(t, e2)) {
                    Ok((len, e3)) => Ok(
                        (
                            track_of(
                                shape,
                                SlideTrackParams { destination: first, interim: None, len },
                            ),
                            e3,
                        ),
                    ),
                    Err(f) => Err(f),
                }
            },
            Err(f) => Err(f),
        },
        Err(f) => Err(f),
    }
}

/// Further tracks of a slide, each after `*`; as many as there are.
pub open spec fn spec_more_tracks(t: Seq<char>, i: int) -> (Seq<SlideTrack>, int)
    decreases t.len() - i,
{
    match lit(t, skip_ws(t, i), '*') {
        Ok(e1) => match spec_track(t, skip_ws(t, e1)) {
            Ok((track, e2)) => if i < e2 <= t.len() {
                let (rest, e3) = spec_more_tracks(t, e2);
                (seq![track] + rest, e3)
            } else {
                (seq![], i)
            },
            Err(_) => (seq![], i),
        },
        Err(_) => (seq![], i),
    }
}

/// A slide: its star, then one or more tracks.
pub open spec fn spec_slide(t: Seq<char>, i: int) -> Result<(SlideParamsView, int), int> {
    match spec_tap_param(t, i) {
        Ok((start, e1)) => match spec_track(t, skip_ws(t, e1)) {
            Ok((first, e2)) => {
                let (rest, e3) = spec_more_tracks(t, e2);
                Ok((SlideParamsView { start, tracks: seq![first] + rest }, e3))
            },
            Err(f) => Err(f),
        },
        Err(f) => Err(f),
    }
}

/// A tap note, with its span.
pub open spec fn spec_tap(t: Seq<char>, i: int) -> Result<(Sp<RawNoteInsnView>, int), int> {
    match spec_tap_param(t, i) {
        Ok((p, e)) => Ok((Sp(RawNoteInsnView::Tap(p), span_of(t, i, e)), e)),
        Err(f) => Err(f),
    }
}

/// A hold note, with its span.
pub open spec fn spec_hold_note(t: Seq<char>, i: int) -> Result<(Sp<RawNoteInsnView>, int), int> {
    match spec_hold(t, i) {
        Ok((p, e)) => Ok((Sp(RawNoteInsnView::Hold(p), span_of(t, i, e)), e)),
        Err(f) => Err(f),
    }
}

/// A slide note, with its span.
pub open spec fn spec_slide_note(t: Seq<char>, i: int) -> Result<(Sp<RawNoteInsnView>, int), int> {
    match spec_slide(t, i) {
        Ok((p, e)) => Ok((Sp(RawNoteInsnView::Slide(p), span_of(t, i, e)), e)),
        Err(f) => Err(f),
    }
}

/// One note of a bundle: a hold, else a slide, else a tap.
pub open spec fn spec_bundle_note(t: Seq<char>, i: int) -> Result<(Sp<RawNoteInsnView>, int), int> {
    first_of(spec_hold_note(t, i), first_of(spec_slide_note(t, i), spec_tap(t, i)))
}

/// Further notes of a bundle, each after `/`; as many as there are.
pub open spec fn spec_more_notes(t: Seq<char>, i: int) -> (Seq<Sp<RawNoteInsnView>>, int)
    decreases t.len() - i,
{
    match lit(t, skip_ws(t, i), '/') {
        Ok(e1) => match spec_bundle_note(t, skip_ws(t, e1)) {
            Ok((note, e2)) => if i < e2 <= t.len() {
                let (rest, e3) = spec_more_notes(t, e2);
                (seq![note] + rest, e3)
            } else {
                (seq![], i)
            },
            Err(_) => (seq![], i),
        },
        Err(_) => (seq![], i),
    }
}

/// Keys written side by side, each a tap of its own; as many as there are.
pub open spec fn spec_keys(t: Seq<char>, i: int) -> (Seq<Sp<RawNoteInsnView>>, int)
    decreases t.len() - i,
{
    match spec_key(t, i) {
        Ok((key, e)) => if skip_ws(t, e) <= t.len() {
            let note = Sp(
                RawNoteInsnView::Tap(TapParams { variant: TapVariant::Tap, key }),
                span_of(t, i, e),
            );
            let (rest, e2) = spec_keys(t, skip_ws(t, e));
            (seq![note] + rest, if rest.len() == 0 {
                e
            } else {
                e2
            })
        } else {
            (seq![], i)
        },
        Err(_) => (seq![], i),
    }
}

/// A note followed by the comma that ends its time slot.
pub open spec fn spec_single(t: Seq<char>, i: int, note: Result<(Sp<RawNoteInsnView>, int), int>) -> Result<(Sp<RawInsnView>, int), int> {
    match note {
        Ok((n, e1)) => match lit(t, skip_ws(t, e1), ',') {
            Ok(e2) => Ok((Sp(RawInsnView::Note(n), span_of(t, i, e2)), e2)),
            Err(f) => Err(f),
        },
        Err(f) => Err(f),
    }
}

/// A tempo change: `(` tempo `)`.
pub open spec fn spec_bpm(t: Seq<char>, i: int) -> Result<(Sp<RawInsnView>, int), int> {
    match lit(t, i, '(') {
        Ok(e1) => match spec_float(t, skip_ws(t, e1)) {
            Ok((x, e2)) => match lit(t, skip_ws(t, e2), ')') {
                Ok(e3) => Ok(
                    (Sp(RawInsnView::Bpm(BpmParams { new_bpm: x }), span_of(t, i, e3)), e3),
                ),
                Err(f) => Err(f),
            },
            Err(f) => Err(f),
        },
        Err(f) => Err(f),
    }
}

/// A divisor, as the body of a subdivision change.
pub open spec fn spec_beat_divisor_int(t: Seq<char>, i: int) -> Result<(BeatDivisorParams, int), int> {
    match spec_u8(t, i) {
        Ok((d, e)) => Ok((BeatDivisorParams::NewDivisor(d), e)),
        Err(f) => Err(f),
    }
}

/// `#` and seconds, as the body of a subdivision change.
pub open spec fn spec_beat_divisor_float(t: Seq<char>, i: int) -> Result<
    (BeatDivisorParams, int),
    int,
> {
    match lit(t, i, '#') {
        Ok(e1) => match spec_float(t, skip_ws(t, e1)) {
            Ok((x, e2)) => Ok((BeatDivisorParams::NewAbsoluteDuration(x), e2)),
            Err(f) => Err(f),
        },
        Err(f) => Err(f),
    }
}

/// The body of a subdivision change: a divisor, else `#` and seconds.
pub open spec fn spec_beat_divisor_param(t: Seq<char>, i: int) -> Result<(BeatDivisorParams, int), int> {
    first_of(spec_beat_divisor_int(t, i), spec_beat_divisor_float(t, i))
}

/// A subdivision change: `{` body `}`.
pub open spec fn spec_beat_divisor(t: Seq<char>, i: int) -> Result<(Sp<RawInsnView>, int), int> {
    match lit(t, i, '{') {
        Ok(e1) => match spec_beat_divisor_param(t, skip_ws(t, e1)) {
            Ok((p, e2)) => match lit(t, skip_ws(t, e2), '}') {
                Ok(e3) => Ok((Sp(RawInsnView::BeatDivisor(p), span_of(t, i, e3)), e3)),
                Err(f) => Err(f),
            },
            Err(f) => Err(f),
        },
        Err(f) => Err(f),
    }
}

/// A rest: a bare comma.
pub open spec fn spec_rest(t: Seq<char>, i: int) -> Result<(Sp<RawInsnView>, int), int> {
    match lit(t, i, ',') {
        Ok(e) => Ok((Sp(RawInsnView::Rest, span_of(t, i, e)), e)),
        Err(f) => Err(f),
    }
}

/// One or more keys side by side, then a comma. A single key before a comma is taken by the
/// single tap rule, which is tried first, so in an instruction this rule gathers two or more.
pub open spec fn spec_tap_multi(t: Seq<char>, i: int) -> Result<(Sp<RawInsnView>, int), int> {
    let (notes, e1) = spec_keys(t, i);
    if notes.len() == 0 {
        Err(i)
    } else {
        match lit(t, skip_ws(t, e1), ',') {
            Ok(e2) => Ok((Sp(RawInsnView::NoteBundle(notes), span_of(t, i, e2)), e2)),
            Err(f) => Err(f),
        }
    }
}

/// Notes joined by `/`, then a comma.
pub open spec fn spec_bundle(t: Seq<char>, i: int) -> Result<(Sp<RawInsnView>, int), int> {
    match spec_bundle_note(t, i) {
        Ok((first, e1)) => {
            let (rest, e2) = spec_more_notes(t, e1);
            if rest.len() == 0 {
                Err(skip_ws(t, e2))
            } else {
                match lit(t, skip_ws(t, e2), ',') {
                    Ok(e3) => Ok(
                        (Sp(RawInsnView::NoteBundle(seq![first] + rest), span_of(t, i, e3)), e3),
                    ),
                    Err(f) => Err(f),
                }
            }
        },
        Err(f) => Err(f),
    }
}

/// The end marker `E`.
pub open spec fn spec_end_mark(t: Seq<char>, i: int) -> Result<(Sp<RawInsnView>, int), int> {
    match lit(t, i, 'E') {
        Ok(e) => Ok((Sp(RawInsnView::EndMark, span_of(t, i, e)), e)),
        Err(f) => Err(f),
    }
}

/// The first of two alternatives that matches; where neither does, the furthest failure.
pub open spec fn first_of<V>(a: Result<(V, int), int>, b: Result<(V, int), int>) -> Result<
    (V, int),
    int,
> {
    match a {
        Ok(r) => Ok(r),
        Err(p) => match b {
            Ok(r) => Ok(r),
            Err(q) => Err(if p >= q {
                p
            } else {
                q
            }),
        },
    }
}

/// One instruction; the alternatives are tried in this order.
pub open spec fn spec_insn(t: Seq<char>, i: int) -> Result<(Sp<RawInsnView>, int), int> {
    first_of(spec_bpm(t, i),
    first_of(spec_beat_divisor(t, i),
    first_of(spec_rest(t, i),
    first_of(spec_single(t, i, spec_tap(t, i)),
    first_of(spec_tap_multi(t, i),
    first_of(spec_single(t, i, spec_hold_note(t, i)),
    first_of(spec_single(t, i, spec_slide_note(t, i)),
    first_of(spec_bundle(t, i),
    spec_end_mark(t, i)))))))))
}

/// Instructions from `i`, a position after whitespace, to the end of the text: all of them, or
/// the index where the first one that does not parse fails.
pub open spec fn spec_insns_from(t: Seq<char>, i: int) -> Result<Seq<Sp<RawInsnView>>, int>
    decreases t.len() - i,
{
    if i >= t.len() {
        Ok(seq![])
    } else {
        match spec_insn(t, i) {
            Ok((insn, e)) => if i < e && skip_ws(t, e) <= t.len() {
                match spec_insns_from(t, skip_ws(t, e)) {
                    Ok(rest) => Ok(seq![insn] + rest),
                    Err(at) => Err(at),
                }
            } else {
                Err(i)
            },
            Err(f) => Err(f),
        }
    }
}

/// A whole text of instructions.
pub open spec fn spec_parse(t: Seq<char>) -> Result<Seq<Sp<RawInsnView>>, int> {
    spec_insns_from(t, skip_ws(t, 0))
}

} // verus!
