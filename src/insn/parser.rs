//! The parser: each function reads one rule of [`crate::insn::grammar`] from a position of the
//! text, and gives what the rule gives there.
use vstd::prelude::*;
use vstd::std_specs::iter::IteratorSpec;

use crate::insn::grammar::{
    digit_value, digits_len, digits_value, is_ws, lit, skip_ws as spec_skip_ws, spec_float,
    spec_float_digits, spec_float_exp, spec_hold, spec_len_beats, spec_len_seconds,
    spec_slide_len_custom, spec_beat_divisor_int, spec_beat_divisor_float, spec_key, spec_len, spec_len_spec,
    spec_more_tracks, spec_shape_marker, spec_slide, spec_slide_len, spec_tap_param, spec_track,
    spec_u8, spec_bpm, spec_beat_divisor, spec_beat_divisor_param, spec_bundle,
    spec_bundle_note, spec_end_mark, spec_hold_note, spec_insn, spec_insns_from, spec_keys,
    spec_more_notes, spec_parse, spec_rest, spec_single, spec_slide_note, spec_tap,
    spec_tap_multi,
};
use crate::insn::{
    insns_view, notes_view, BeatDivisorParams, BpmParams, RawInsn, RawNoteInsn, HoldParams, Key, Length, NumBeatsParams, SlideLength, SlideParams, SlideShape,
    SlideStopTimeSpec, SlideTrack, SlideTrackParams, TapParams, TapVariant,
};
use crate::number::{Decimal, EXPONENT_LIMIT, MANTISSA_LIMIT};
use crate::span::{loc_at, Pos, Sp, Span, TEXT_LIMIT};

verus! {

/// `p` is a position of `t`, a text short enough to be scanned.
pub open spec fn at(t: Seq<char>, p: Pos) -> bool {
    t.len() <= TEXT_LIMIT && p.wf(t)
}

/// An exec result matches a rule's result: the same value, ending at the same index; or a
/// failure at the same index.
pub open spec fn agrees<V>(t: Seq<char>, r: Result<(V, Pos), Pos>, s: Result<(V, int), int>) -> bool {
    match (r, s) {
        (Err(q), Err(f)) => q.idx == f && q.wf(t),
        (Ok((v, q)), Ok((w, e))) => v == w && q.idx == e && q.wf(t),
        _ => false,
    }
}

/// As [`agrees`], comparing the value's view.
pub open spec fn agrees_view<V: View>(
    t: Seq<char>,
    r: Result<(V, Pos), Pos>,
    s: Result<(V::V, int), int>,
) -> bool {
    match (r, s) {
        (Err(q), Err(f)) => q.idx == f && q.wf(t),
        (Ok((v, q)), Ok((w, e))) => v@ == w && q.idx == e && q.wf(t),
        _ => false,
    }
}

/// As [`agrees`], for a rule that gives only where it ends.
pub open spec fn agrees_pos(t: Seq<char>, r: Result<Pos, Pos>, s: Result<int, int>) -> bool {
    match (r, s) {
        (Err(q), Err(f)) => q.idx == f && q.wf(t),
        (Ok(q), Ok(e)) => q.idx == e && q.wf(t),
        _ => false,
    }
}

/// The further on of two failures.
fn furthest(p: Pos, q: Pos) -> (r: Pos)
    ensures
        r == (if p.idx >= q.idx {
            p
        } else {
            q
        }),
{
    if p.idx >= q.idx {
        p
    } else {
        q
    }
}

/// Whitespace ends within the text.
pub(crate) proof fn lemma_skip_ws_bound(t: Seq<char>, i: int)
    requires
        0 <= i <= t.len(),
    ensures
        i <= spec_skip_ws(t, i) <= t.len(),
    decreases t.len() - i,
{
    if i < t.len() && is_ws(t[i]) {
        lemma_skip_ws_bound(t, i + 1);
    }
}

/// Skips whitespace.
pub(crate) fn skip_ws(t: &[char], p: Pos) -> (r: Pos)
    requires
        at(t@, p),
    ensures
        r.idx >= p.idx,
        r.wf(t@),
        r.idx == spec_skip_ws(t@, p.idx as int),
{
    let mut q = p;
    while q.idx < t.len() && (t[q.idx] == ' ' || t[q.idx] == '\t' || t[q.idx] == '\n' || t[q.idx] == '\r')
        invariant
            at(t@, q),
            q.idx >= p.idx,
            spec_skip_ws(t@, q.idx as int) == spec_skip_ws(t@, p.idx as int),
        decreases t@.len() - q.idx,
    {
        q = q.bump(t);
    }
    q
}

/// The character `c`.
pub(crate) fn t_char(t: &[char], p: Pos, c: char) -> (r: Result<Pos, Pos>)
    requires
        at(t@, p),
    ensures
        agrees_pos(t@, r, lit(t@, p.idx as int, c)),
{
    if p.idx < t.len() && t[p.idx] == c {
        Ok(p.bump(t))
    } else {
        Err(p)
    }
}

/// Whether the character at `p` is `c`.
pub(crate) fn peek(t: &[char], p: Pos, c: char) -> (r: bool)
    requires
        at(t@, p),
    ensures
        r == (lit(t@, p.idx as int, c) is Ok),
{
    p.idx < t.len() && t[p.idx] == c
}

/// A run of digits read on after `prefix`: the number that `prefix` and the run denote
/// together, or `cap` where that is `cap` or more. `acc` is that for `prefix` alone.
fn t_digits(t: &[char], p: Pos, acc: u64, cap: u64, Ghost(prefix): Ghost<Seq<char>>) -> (r: (
    u64,
    Pos,
))
    requires
        at(t@, p),
        1 <= cap <= MANTISSA_LIMIT,
        acc == (if digits_value(prefix) < cap {
            digits_value(prefix)
        } else {
            cap as nat
        }),
    ensures
        r.1.wf(t@),
        r.1.idx == p.idx + digits_len(t@, p.idx as int),
        ({
            let v = digits_value(prefix + t@.subrange(p.idx as int, r.1.idx as int));
            r.0 == (if v < cap {
                v
            } else {
                cap as nat
            })
        }),
{
    let mut q = p;
    let mut v: u64 = acc;
    assert(prefix + t@.subrange(p.idx as int, p.idx as int) =~= prefix);
    while q.idx < t.len() && '0' <= t[q.idx] && t[q.idx] <= '9'
        invariant
            at(t@, q),
            p.idx <= q.idx,
            1 <= cap <= MANTISSA_LIMIT,
            digits_len(t@, p.idx as int) == (q.idx - p.idx) + digits_len(t@, q.idx as int),
            ({
                let w = digits_value(prefix + t@.subrange(p.idx as int, q.idx as int));
                v == (if w < cap {
                    w
                } else {
                    cap as nat
                })
            }),
        decreases t@.len() - q.idx,
    {
        let ghost old_seq = prefix + t@.subrange(p.idx as int, q.idx as int);
        let ghost new_seq = prefix + t@.subrange(p.idx as int, q.idx + 1);
        assert(new_seq.drop_last() =~= old_seq);
        assert(new_seq.last() == t@[q.idx as int]);
        let d: u64 = (t[q.idx] as u32 - '0' as u32) as u64;
        assert(d == digit_value(t@[q.idx as int]));
        if v < cap {
            let n: u64 = v * 10 + d;
            v = if n < cap {
                n
            } else {
                cap
            };
        } else {
            assert(digits_value(new_seq) >= cap) by (nonlinear_arith)
                requires
                    digits_value(new_seq) == 10 * digits_value(old_seq) + digit_value(
                        t@[q.idx as int],
                    ),
                    digits_value(old_seq) >= cap,
            ;
        }
        q = q.bump(t);
    }
    (v, q)
}

/// A run of one or more digits that denotes a byte.
pub(crate) fn t_u8(t: &[char], p: Pos) -> (r: Result<(u8, Pos), Pos>)
    requires
        at(t@, p),
    ensures
        agrees(t@, r, spec_u8(t@, p.idx as int)),
{
    let (v, q) = t_digits(t, p, 0, 256, Ghost(Seq::empty()));
    assert(Seq::<char>::empty() + t@.subrange(p.idx as int, q.idx as int) =~= t@.subrange(p.idx as int, q.idx as int));
    if q.idx > p.idx && v <= 255 {
        Ok((v as u8, q))
    } else {
        Err(p)
    }
}

/// The largest decimal exponent that is read exactly; any larger one is out of range.
const EXPONENT_CAP: u64 = 0x100_0000_0000;

/// The digits of a floating-point literal, with the mantissa capped at [`MANTISSA_LIMIT`].
fn t_float_digits(t: &[char], a: Pos) -> (r: (u64, usize, usize, Pos))
    requires
        at(t@, a),
    ensures
        ({
            let (m, n1, n2, b) = spec_float_digits(t@, a.idx as int);
            &&& r.0 == (if m < MANTISSA_LIMIT {
                m
            } else {
                MANTISSA_LIMIT as nat
            })
            &&& r.1 == n1
            &&& r.2 == n2
            &&& r.3.idx == b
            &&& r.3.wf(t@)
        }),
{
    let ghost tt = t@;
    let (m1, q1) = t_digits(t, a, 0, MANTISSA_LIMIT, Ghost(Seq::empty()));
    let ghost int_part = tt.subrange(a.idx as int, q1.idx as int);
    assert(Seq::<char>::empty() + int_part =~= int_part);
    let n1 = q1.idx - a.idx;
    if peek(t, q1, '.') {
        let f = q1.bump(t);
        let (m2, q2) = t_digits(t, f, m1, MANTISSA_LIMIT, Ghost(int_part));
        (m2, n1, q2.idx - f.idx, q2)
    } else {
        (m1, n1, 0, q1)
    }
}

/// The exponent part of a floating-point literal, with its magnitude capped at
/// [`EXPONENT_CAP`].
fn t_float_exp(t: &[char], b: Pos) -> (r: Option<(i64, Pos)>)
    requires
        at(t@, b),
    ensures
        match (r, spec_float_exp(t@, b.idx as int)) {
            (None, None) => true,
            (Some((v, q)), Some((e, end))) => {
                &&& q.idx == end
                &&& q.wf(t@)
                &&& -(EXPONENT_CAP as int) <= v <= EXPONENT_CAP
                &&& (-(EXPONENT_CAP as int) < e < EXPONENT_CAP ==> v == e)
                &&& (e >= EXPONENT_CAP ==> v == EXPONENT_CAP)
                &&& (e <= -(EXPONENT_CAP as int) ==> v == -(EXPONENT_CAP as int))
            },
            _ => false,
        },
{
    if peek(t, b, 'e') || peek(t, b, 'E') {
        let c0 = b.bump(t);
        let negative = peek(t, c0, '-');
        let c = if negative || peek(t, c0, '+') {
            c0.bump(t)
        } else {
            c0
        };
        let (e, d) = t_digits(t, c, 0, EXPONENT_CAP, Ghost(Seq::empty()));
        assert(Seq::<char>::empty() + t@.subrange(c.idx as int, d.idx as int) =~= t@.subrange(
            c.idx as int,
            d.idx as int,
        ));
        if d.idx == c.idx {
            None
        } else if negative {
            Some((0 - e as i64, d))
        } else {
            Some((e as i64, d))
        }
    } else {
        Some((0, b))
    }
}

/// A floating-point literal.
pub(crate) fn t_float(t: &[char], p: Pos) -> (r: Result<(Decimal, Pos), Pos>)
    requires
        at(t@, p),
    ensures
        agrees(t@, r, spec_float(t@, p.idx as int)),
{
    let negative = peek(t, p, '-');
    let a = if negative || peek(t, p, '+') {
        p.bump(t)
    } else {
        p
    };
    let (mantissa, n1, n2, b) = t_float_digits(t, a);
    if n1 + n2 == 0 {
        return Err(p);
    }
    proof {
        crate::span::lemma_loc_bounds(t@, b.idx as int);
    }
    match t_float_exp(t, b) {
        Some((e, end)) => {
            let exponent: i64 = e - n2 as i64;
            if mantissa < MANTISSA_LIMIT && -EXPONENT_LIMIT <= exponent && exponent
                <= EXPONENT_LIMIT {
                Ok((Decimal { negative, mantissa, exponent }, end))
            } else {
                Err(p)
            }
        },
        None => Err(p),
    }
}

/// A key.
fn t_key(t: &[char], p: Pos) -> (r: Result<(Key, Pos), Pos>)
    requires
        at(t@, p),
    ensures
        agrees(t@, r, spec_key(t@, p.idx as int)),
{
    if p.idx < t.len() {
        match Key::try_from(t[p.idx]) {
            Ok(k) => Ok((k, p.bump(t))),
            Err(_) => Err(p),
        }
    } else {
        Err(p)
    }
}

/// A key, then `b` for a break.
fn t_tap_param(t: &[char], p: Pos) -> (r: Result<(TapParams, Pos), Pos>)
    requires
        at(t@, p),
    ensures
        r matches Ok((_, q)) ==> q.idx > p.idx,
        agrees(t@, r, spec_tap_param(t@, p.idx as int)),
{
    match t_key(t, p) {
        Ok((key, e)) => match t_char(t, skip_ws(t, e), 'b') {
            Ok(e2) => Ok((TapParams { variant: TapVariant::Break, key }, e2)),
            Err(_) => Ok((TapParams { variant: TapVariant::Tap, key }, e)),
        },
        Err(f) => Err(f),
    }
}

/// `divisor : count`.
fn t_len_spec_beats(t: &[char], p: Pos) -> (r: Result<(Length, Pos), Pos>)
    requires
        at(t@, p),
    ensures
        agrees(t@, r, spec_len_beats(t@, p.idx as int)),
{
    match t_u8(t, p) {
        Ok((divisor, e1)) => match t_char(t, skip_ws(t, e1), ':') {
            Ok(e2) => match t_u8(t, skip_ws(t, e2)) {
                Ok((num, e3)) => Ok((Length::NumBeats(NumBeatsParams { divisor, num }), e3)),
                Err(f) => Err(f),
            },
            Err(f) => Err(f),
        },
        Err(f) => Err(f),
    }
}

/// `#` then seconds.
fn t_len_spec_absolute(t: &[char], p: Pos) -> (r: Result<(Length, Pos), Pos>)
    requires
        at(t@, p),
    ensures
        agrees(t@, r, spec_len_seconds(t@, p.idx as int)),
{
    match t_char(t, p, '#') {
        Ok(e1) => match t_float(t, skip_ws(t, e1)) {
            Ok((x, e2)) => Ok((Length::Seconds(x), e2)),
            Err(f) => Err(f),
        },
        Err(f) => Err(f),
    }
}

/// `divisor : count`, or `#` then seconds.
fn t_len_spec(t: &[char], p: Pos) -> (r: Result<(Length, Pos), Pos>)
    requires
        at(t@, p),
    ensures
        agrees(t@, r, spec_len_spec(t@, p.idx as int)),
{
    match t_len_spec_beats(t, p) {
        Ok(r) => Ok(r),
        Err(f1) => match t_len_spec_absolute(t, p) {
            Ok(r) => Ok(r),
            Err(f2) => Err(furthest(f1, f2)),
        },
    }
}

/// A length in brackets.
fn t_len(t: &[char], p: Pos) -> (r: Result<(Length, Pos), Pos>)
    requires
        at(t@, p),
    ensures
        r matches Ok((_, q)) ==> q.idx > p.idx,
        agrees(t@, r, spec_len(t@, p.idx as int)),
{
    match t_char(t, p, '[') {
        Ok(e1) => match t_len_spec(t, skip_ws(t, e1)) {
            Ok((len, e2)) => match t_char(t, skip_ws(t, e2), ']') {
                Ok(e3) => Ok((len, e3)),
                Err(f) => Err(f),
            },
            Err(f) => Err(f),
        },
        Err(f) => Err(f),
    }
}

/// `[x # length]`: a length with a stop time `x`.
fn t_slide_len_custom(t: &[char], p: Pos) -> (r: Result<(SlideLength, Pos), Pos>)
    requires
        at(t@, p),
    ensures
        r matches Ok((_, q)) ==> q.idx > p.idx,
        agrees(t@, r, spec_slide_len_custom(t@, p.idx as int)),
{
    match t_char(t, p, '[') {
        Ok(e1) => match t_float(t, skip_ws(t, e1)) {
            Ok((x, e2)) => match t_char(t, skip_ws(t, e2), '#') {
                Ok(e3) => match t_len_spec(t, skip_ws(t, e3)) {
                    Ok((len, e4)) => match t_char(t, skip_ws(t, e4), ']') {
                        Ok(e5) => {
                            let stop = match len {
                                Length::NumBeats(_) => SlideStopTimeSpec::Bpm(x),
                                Length::Seconds(_) => SlideStopTimeSpec::Seconds(x),
                            };
                            Ok((SlideLength::Custom(stop, len), e5))
                        },
                        Err(f) => Err(f),
                    },
                    Err(f) => Err(f),
                },
                Err(f) => Err(f),
            },
            Err(f) => Err(f),
        },
        Err(f) => Err(f),
    }
}

/// A slide length, with a stop time where one is given.
fn t_slide_len(t: &[char], p: Pos) -> (r: Result<(SlideLength, Pos), Pos>)
    requires
        at(t@, p),
    ensures
        r matches Ok((_, q)) ==> q.idx > p.idx,
        agrees(t@, r, spec_slide_len(t@, p.idx as int)),
{
    match t_len(t, p) {
        Ok((len, e)) => Ok((SlideLength::Simple(len), e)),
        Err(f1) => match t_slide_len_custom(t, p) {
            Ok(r) => Ok(r),
            Err(f2) => Err(furthest(f1, f2)),
        },
    }
}

/// A hold: key, `h`, length.
fn t_hold(t: &[char], p: Pos) -> (r: Result<(HoldParams, Pos), Pos>)
    requires
        at(t@, p),
    ensures
        r matches Ok((_, q)) ==> q.idx > p.idx,
        agrees(t@, r, spec_hold(t@, p.idx as int)),
{
    match t_key(t, p) {
        Ok((key, e1)) => match t_char(t, skip_ws(t, e1), 'h') {
            Ok(e2) => match t_len(t, skip_ws(t, e2)) {
                Ok((len, e3)) => Ok((HoldParams { key, len }, e3)),
                Err(f) => Err(f),
            },
            Err(f) => Err(f),
        },
        Err(f) => Err(f),
    }
}

/// The marker of a track shape.
fn t_shape_marker(t: &[char], p: Pos) -> (r: Result<(SlideShape, Pos), Pos>)
    requires
        at(t@, p),
    ensures
        r matches Ok((_, q)) ==> q.idx > p.idx,
        agrees(t@, r, spec_shape_marker(t@, p.idx as int)),
{
    if p.idx < t.len() {
        let c = t[p.idx];
        let q = p.bump(t);
        if c == 'p' && peek(t, q, 'p') {
            return Ok((SlideShape::Pp, q.bump(t)));
        }
        if c == 'q' && peek(t, q, 'q') {
            return Ok((SlideShape::Qq, q.bump(t)));
        }
        let shape = match c {
            '-' => SlideShape::Line,
            '^' => SlideShape::Arc,
            '<' => SlideShape::CircumferenceLeft,
            '>' => SlideShape::CircumferenceRight,
            'v' => SlideShape::V,
            'p' => SlideShape::P,
            'q' => SlideShape::Q,
            's' => SlideShape::S,
            'z' => SlideShape::Z,
            'V' => SlideShape::Angle,
            'w' => SlideShape::Spread,
            _ => {
                return Err(p);
            },
        };
        Ok((shape, q))
    } else {
        Err(p)
    }
}

/// A slide track.
#[verifier::rlimit(40)]
fn t_slide_track(t: &[char], p: Pos) -> (r: Result<(SlideTrack, Pos), Pos>)
    requires
        at(t@, p),
    ensures
        r matches Ok((_, q)) ==> q.idx > p.idx,
        agrees(t@, r, spec_track(t@, p.idx as int)),
{
    match t_shape_marker(t, p) {
        Ok((shape, e1)) => match t_tap_param(t, skip_ws(t, e1)) {
            Ok((first, e2)) => if shape == SlideShape::Angle {
                match t_tap_param(t, skip_ws(t, e2)) {
                    Ok((destination, e3)) => match t_slide_len(t, skip_ws(t, e3)) {
                        Ok((len, e4)) => Ok(
                            (
                                SlideTrack::from_shape(
                                    shape,
                                    SlideTrackParams { destination, interim: Some(first), len },
                                ),
                                e4,
                            ),
                        ),
                        Err(f) => Err(f),
                    },
                    Err(f) => Err(f),
                }
            } else {
                match t_slide_len(t, skip_ws(t, e2)) {
                    Ok((len, e3)) => Ok(
                        (
                            SlideTrack::from_shape(
                                shape,
                                SlideTrackParams { destination: first, interim: None, len },
                            ),
                            e3,
                        ),
                    ),
                    Err(f) => Err(f),
                }
            },
            Err(f) => Err(f),
        },
        Err(f) => Err(f),
    }
}

/// Further tracks of a slide, each after `*`.
fn t_more_tracks(t: &[char], p: Pos) -> (r: (Vec<SlideTrack>, Pos))
    requires
        at(t@, p),
    ensures
        r.1.idx >= p.idx,
        r.0@ == spec_more_tracks(t@, p.idx as int).0,
        r.1.idx == spec_more_tracks(t@, p.idx as int).1,
        r.1.wf(t@),
{
    let mut acc: Vec<SlideTrack> = Vec::new();
    let mut q = p;
    loop
        invariant
            at(t@, q),
            q.idx >= p.idx,
            spec_more_tracks(t@, p.idx as int) == (
            acc@ + spec_more_tracks(t@, q.idx as int).0,
            spec_more_tracks(t@, q.idx as int).1,
            ),
        ensures
            at(t@, q),
            q.idx >= p.idx,
            spec_more_tracks(t@, q.idx as int) == (Seq::<SlideTrack>::empty(), q.idx as int),
            spec_more_tracks(t@, p.idx as int) == (acc@, q.idx as int),
        decreases t@.len() - q.idx,
    {
        let ghost rest = spec_more_tracks(t@, q.idx as int);
        match t_char(t, skip_ws(t, q), '*') {
            Ok(e1) => match t_slide_track(t, skip_ws(t, e1)) {
                Ok((track, e2)) => {
                    if q.idx < e2.idx {
                        proof {
                            let next = spec_more_tracks(t@, e2.idx as int);
                            assert(rest.0 == seq![track] + next.0);
                            assert(acc@ + rest.0 =~= acc@.push(track) + next.0);
                        }
                        acc.push(track);
                        q = e2;
                    } else {
                        proof {
                            assert(acc@ + rest.0 =~= acc@);
                        }
                        break;
                    }
                },
                Err(_) => {
                    proof {
                        assert(acc@ + rest.0 =~= acc@);
                    }
                    break;
                },
            },
            Err(_) => {
                proof {
                    assert(acc@ + rest.0 =~= acc@);
                }
                break;
            },
        }
    }
    (acc, q)
}

/// A slide: its star, then one or more tracks.
fn t_slide(t: &[char], p: Pos) -> (r: Result<(SlideParams, Pos), Pos>)
    requires
        at(t@, p),
    ensures
        r matches Ok((_, q)) ==> q.idx > p.idx,
        agrees_view(t@, r, spec_slide(t@, p.idx as int)),
{
    match t_tap_param(t, p) {
        Ok((start, e1)) => match t_slide_track(t, skip_ws(t, e1)) {
            Ok((first, e2)) => {
                let (rest, e3) = t_more_tracks(t, e2);
                let mut tracks: Vec<SlideTrack> = Vec::new();
                tracks.push(first);
                let mut rest = rest;
                tracks.append(&mut rest);
                proof {
                    assert(tracks@ =~= seq![first] + spec_more_tracks(t@, e2.idx as int).0);
                }
                Ok((SlideParams { start, tracks }, e3))
            },
            Err(f) => Err(f),
        },
        Err(f) => Err(f),
    }
}

/// A tap note, with its span.
fn t_tap(t: &[char], p: Pos) -> (r: Result<(Sp<RawNoteInsn>, Pos), Pos>)
    requires
        at(t@, p),
    ensures
        r matches Ok((_, q)) ==> q.idx > p.idx,
        agrees_view(t@, r, spec_tap(t@, p.idx as int)),
{
    match t_tap_param(t, p) {
        Ok((params, e)) => Ok((RawNoteInsn::Tap(params).with_span(Span::from_start_end(p, e, t)), e)),
        Err(f) => Err(f),
    }
}

/// A hold note, with its span.
fn t_hold_note(t: &[char], p: Pos) -> (r: Result<(Sp<RawNoteInsn>, Pos), Pos>)
    requires
        at(t@, p),
    ensures
        r matches Ok((_, q)) ==> q.idx > p.idx,
        agrees_view(t@, r, spec_hold_note(t@, p.idx as int)),
{
    match t_hold(t, p) {
        Ok((params, e)) => Ok(
            (RawNoteInsn::Hold(params).with_span(Span::from_start_end(p, e, t)), e),
        ),
        Err(f) => Err(f),
    }
}

/// A slide note, with its span.
fn t_slide_note(t: &[char], p: Pos) -> (r: Result<(Sp<RawNoteInsn>, Pos), Pos>)
    requires
        at(t@, p),
    ensures
        r matches Ok((_, q)) ==> q.idx > p.idx,
        agrees_view(t@, r, spec_slide_note(t@, p.idx as int)),
{
    match t_slide(t, p) {
        Ok((params, e)) => Ok(
            (RawNoteInsn::Slide(params).with_span(Span::from_start_end(p, e, t)), e),
        ),
        Err(f) => Err(f),
    }
}

/// One note of a bundle: a hold, else a slide, else a tap.
fn t_bundle_note(t: &[char], p: Pos) -> (r: Result<(Sp<RawNoteInsn>, Pos), Pos>)
    requires
        at(t@, p),
    ensures
        r matches Ok((_, q)) ==> q.idx > p.idx,
        agrees_view(t@, r, spec_bundle_note(t@, p.idx as int)),
{
    match t_hold_note(t, p) {
        Ok(r) => Ok(r),
        Err(f1) => match t_slide_note(t, p) {
            Ok(r) => Ok(r),
            Err(f2) => match t_tap(t, p) {
                Ok(r) => Ok(r),
                Err(f3) => Err(furthest(f1, furthest(f2, f3))),
            },
        },
    }
}

/// Further notes of a bundle, each after `/`.
fn t_more_notes(t: &[char], p: Pos) -> (r: (Vec<Sp<RawNoteInsn>>, Pos))
    requires
        at(t@, p),
    ensures
        r.1.idx >= p.idx,
        notes_view(r.0@) == spec_more_notes(t@, p.idx as int).0,
        r.1.idx == spec_more_notes(t@, p.idx as int).1,
        r.1.wf(t@),
{
    let mut acc: Vec<Sp<RawNoteInsn>> = Vec::new();
    let mut q = p;
    assert(notes_view(acc@) =~= Seq::empty());
    loop
        invariant
            at(t@, q),
            q.idx >= p.idx,
            spec_more_notes(t@, p.idx as int) == (
            notes_view(acc@) + spec_more_notes(t@, q.idx as int).0,
            spec_more_notes(t@, q.idx as int).1,
            ),
        ensures
            at(t@, q),
            q.idx >= p.idx,
            spec_more_notes(t@, p.idx as int) == (notes_view(acc@), q.idx as int),
        decreases t@.len() - q.idx,
    {
        let ghost rest = spec_more_notes(t@, q.idx as int);
        match t_char(t, skip_ws(t, q), '/') {
            Ok(e1) => match t_bundle_note(t, skip_ws(t, e1)) {
                Ok((note, e2)) => {
                    if q.idx < e2.idx {
                        proof {
                            let next = spec_more_notes(t@, e2.idx as int);
                            assert(rest.0 == seq![note@] + next.0);
                            assert(notes_view(acc@.push(note)) =~= notes_view(acc@).push(note@));
                            assert(notes_view(acc@) + rest.0 =~= notes_view(acc@).push(note@)
                                + next.0);
                        }
                        acc.push(note);
                        q = e2;
                    } else {
                        proof {
                            assert(notes_view(acc@) + rest.0 =~= notes_view(acc@));
                        }
                        break;
                    }
                },
                Err(_) => {
                    proof {
                        assert(notes_view(acc@) + rest.0 =~= notes_view(acc@));
                    }
                    break;
                },
            },
            Err(_) => {
                proof {
                    assert(notes_view(acc@) + rest.0 =~= notes_view(acc@));
                }
                break;
            },
        }
    }
    (acc, q)
}

/// Keys written side by side, each a tap of its own.
fn t_keys(t: &[char], p: Pos) -> (r: (Vec<Sp<RawNoteInsn>>, Pos))
    requires
        at(t@, p),
    ensures
        notes_view(r.0@) == spec_keys(t@, p.idx as int).0,
        r.1.idx == spec_keys(t@, p.idx as int).1,
        r.1.wf(t@),
{
    let mut acc: Vec<Sp<RawNoteInsn>> = Vec::new();
    let mut q = p;
    let mut end = p;
    assert(notes_view(acc@) =~= Seq::empty());
    loop
        invariant
            at(t@, q),
            end.wf(t@),
            spec_keys(t@, p.idx as int).0 == notes_view(acc@) + spec_keys(t@, q.idx as int).0,
            spec_keys(t@, p.idx as int).1 == (if spec_keys(t@, q.idx as int).0.len() == 0 {
                end.idx as int
            } else {
                spec_keys(t@, q.idx as int).1
            }),
            acc@.len() == 0 ==> end.idx == p.idx && q.idx == p.idx,
        ensures
            at(t@, q),
            end.wf(t@),
            spec_keys(t@, p.idx as int) == (notes_view(acc@), end.idx as int),
        decreases t@.len() - q.idx,
    {
        let ghost rest = spec_keys(t@, q.idx as int);
        match t_key(t, q) {
            Ok((key, e)) => {
                let note = RawNoteInsn::Tap(TapParams { variant: TapVariant::Tap, key }).with_span(
                    Span::from_start_end(q, e, t),
                );
                let next_q = skip_ws(t, e);
                proof {
                    lemma_skip_ws_bound(t@, e.idx as int);
                    let next = spec_keys(t@, next_q.idx as int);
                    assert(rest.0 == seq![note@] + next.0);
                    assert(notes_view(acc@.push(note)) =~= notes_view(acc@).push(note@));
                    assert(notes_view(acc@) + rest.0 =~= notes_view(acc@).push(note@) + next.0);
                }
                acc.push(note);
                end = e;
                q = next_q;
            },
            Err(_) => {
                proof {
                    assert(notes_view(acc@) + rest.0 =~= notes_view(acc@));
                }
                break;
            },
        }
    }
    (acc, end)
}

/// A note followed by the comma that ends its time slot.
fn t_single(t: &[char], p: Pos, note: Result<(Sp<RawNoteInsn>, Pos), Pos>, Ghost(s): Ghost<
    Result<(Sp<crate::insn::RawNoteInsnView>, int), int>,
>) -> (r: Result<(Sp<RawInsn>, Pos), Pos>)
    requires
        at(t@, p),
        agrees_view(t@, note, s),
        s matches Ok((_, e)) ==> p.idx <= e,
    ensures
        agrees_view(t@, r, spec_single(t@, p.idx as int, s)),
{
    match note {
        Ok((n, e1)) => match t_char(t, skip_ws(t, e1), ',') {
            Ok(e2) => {
                proof {
                    lemma_skip_ws_bound(t@, e1.idx as int);
                }
                Ok((RawInsn::Note(n).with_span(Span::from_start_end(p, e2, t)), e2))
            },
            Err(f) => Err(f),
        },
        Err(f) => Err(f),
    }
}

/// A tempo change: `(` tempo `)`.
fn t_bpm(t: &[char], p: Pos) -> (r: Result<(Sp<RawInsn>, Pos), Pos>)
    requires
        at(t@, p),
    ensures
        agrees_view(t@, r, spec_bpm(t@, p.idx as int)),
{
    match t_char(t, p, '(') {
        Ok(e1) => match t_float(t, skip_ws(t, e1)) {
            Ok((x, e2)) => match t_char(t, skip_ws(t, e2), ')') {
                Ok(e3) => Ok(
                    (
                        RawInsn::Bpm(BpmParams { new_bpm: x }).with_span(
                            Span::from_start_end(p, e3, t),
                        ),
                        e3,
                    ),
                ),
                Err(f) => Err(f),
            },
            Err(f) => Err(f),
        },
        Err(f) => Err(f),
    }
}

/// A divisor, as the body of a subdivision change.
fn t_beat_divisor_param_int(t: &[char], p: Pos) -> (r: Result<(BeatDivisorParams, Pos), Pos>)
    requires
        at(t@, p),
    ensures
        agrees(t@, r, spec_beat_divisor_int(t@, p.idx as int)),
{
    match t_u8(t, p) {
        Ok((d, e)) => Ok((BeatDivisorParams::NewDivisor(d), e)),
        Err(f) => Err(f),
    }
}

/// `#` and seconds, as the body of a subdivision change.
fn t_beat_divisor_param_float(t: &[char], p: Pos) -> (r: Result<(BeatDivisorParams, Pos), Pos>)
    requires
        at(t@, p),
    ensures
        agrees(t@, r, spec_beat_divisor_float(t@, p.idx as int)),
{
    match t_char(t, p, '#') {
        Ok(e1) => match t_float(t, skip_ws(t, e1)) {
            Ok((x, e2)) => Ok((BeatDivisorParams::NewAbsoluteDuration(x), e2)),
            Err(f) => Err(f),
        },
        Err(f) => Err(f),
    }
}

/// The body of a subdivision change: a divisor, else `#` and seconds.
fn t_beat_divisor_param(t: &[char], p: Pos) -> (r: Result<(BeatDivisorParams, Pos), Pos>)
    requires
        at(t@, p),
    ensures
        agrees(t@, r, spec_beat_divisor_param(t@, p.idx as int)),
{
    match t_beat_divisor_param_int(t, p) {
        Ok(r) => Ok(r),
        Err(f1) => match t_beat_divisor_param_float(t, p) {
            Ok(r) => Ok(r),
            Err(f2) => Err(furthest(f1, f2)),
        },
    }
}

/// A subdivision change: `{` body `}`.
fn t_beat_divisor(t: &[char], p: Pos) -> (r: Result<(Sp<RawInsn>, Pos), Pos>)
    requires
        at(t@, p),
    ensures
        agrees_view(t@, r, spec_beat_divisor(t@, p.idx as int)),
{
    match t_char(t, p, '{') {
        Ok(e1) => match t_beat_divisor_param(t, skip_ws(t, e1)) {
            Ok((params, e2)) => match t_char(t, skip_ws(t, e2), '}') {
                Ok(e3) => Ok(
                    (RawInsn::BeatDivisor(params).with_span(Span::from_start_end(p, e3, t)), e3),
                ),
                Err(f) => Err(f),
            },
            Err(f) => Err(f),
        },
        Err(f) => Err(f),
    }
}

/// A rest: a bare comma.
fn t_rest(t: &[char], p: Pos) -> (r: Result<(Sp<RawInsn>, Pos), Pos>)
    requires
        at(t@, p),
    ensures
        agrees_view(t@, r, spec_rest(t@, p.idx as int)),
{
    match t_char(t, p, ',') {
        Ok(e) => Ok((RawInsn::Rest.with_span(Span::from_start_end(p, e, t)), e)),
        Err(f) => Err(f),
    }
}

/// Keys side by side, then a comma.
fn t_tap_multi_simplified(t: &[char], p: Pos) -> (r: Result<(Sp<RawInsn>, Pos), Pos>)
    requires
        at(t@, p),
    ensures
        agrees_view(t@, r, spec_tap_multi(t@, p.idx as int)),
{
    let (notes, e1) = t_keys(t, p);
    if notes.len() == 0 {
        return Err(p);
    }
    match t_char(t, skip_ws(t, e1), ',') {
        Ok(e2) => {
            proof {
                lemma_keys_progress(t@, p.idx as int);
            }
            Ok((RawInsn::NoteBundle(notes).with_span(Span::from_start_end(p, e2, t)), e2))
        },
        Err(f) => Err(f),
    }
}

/// Where a run of keys ends.
proof fn lemma_keys_progress(t: Seq<char>, i: int)
    requires
        0 <= i <= t.len(),
    ensures
        spec_keys(t, i).1 >= i,
    decreases t.len() - i,
{
    match spec_key(t, i) {
        Ok((_, e)) => {
            lemma_skip_ws_bound(t, e);
            if spec_skip_ws(t, e) <= t.len() {
                lemma_keys_progress(t, spec_skip_ws(t, e));
            }
        },
        Err(_) => {},
    }
}

/// Notes joined by `/`, then a comma.
fn t_bundle(t: &[char], p: Pos) -> (r: Result<(Sp<RawInsn>, Pos), Pos>)
    requires
        at(t@, p),
    ensures
        agrees_view(t@, r, spec_bundle(t@, p.idx as int)),
{
    match t_bundle_note(t, p) {
        Ok((first, e1)) => {
            let (rest, e2) = t_more_notes(t, e1);
            let sep = skip_ws(t, e2);
            if rest.len() == 0 {
                return Err(sep);
            }
            match t_char(t, sep, ',') {
                Ok(e3) => {
                    let mut notes: Vec<Sp<RawNoteInsn>> = Vec::new();
                    notes.push(first);
                    let mut rest = rest;
                    let ghost rest_view = notes_view(rest@);
                    notes.append(&mut rest);
                    proof {
                        assert(notes_view(notes@) =~= seq![notes@[0]@] + rest_view);
                    }
                    Ok((RawInsn::NoteBundle(notes).with_span(Span::from_start_end(p, e3, t)), e3))
                },
                Err(f) => Err(f),
            }
        },
        Err(f) => Err(f),
    }
}

/// The end marker `E`.
fn t_end_mark(t: &[char], p: Pos) -> (r: Result<(Sp<RawInsn>, Pos), Pos>)
    requires
        at(t@, p),
    ensures
        agrees_view(t@, r, spec_end_mark(t@, p.idx as int)),
{
    match t_char(t, p, 'E') {
        Ok(e) => Ok((RawInsn::EndMark.with_span(Span::from_start_end(p, e, t)), e)),
        Err(f) => Err(f),
    }
}

/// One instruction, trying the alternatives in order.
fn parse_one_maidata_insn(t: &[char], p: Pos) -> (r: Result<(Sp<RawInsn>, Pos), Pos>)
    requires
        at(t@, p),
    ensures
        agrees_view(t@, r, spec_insn(t@, p.idx as int)),
{
    let ghost i = p.idx as int;
    let f1 = match t_bpm(t, p) {
        Ok(r) => {
            return Ok(r);
        },
        Err(f) => f,
    };
    let f2 = match t_beat_divisor(t, p) {
        Ok(r) => {
            return Ok(r);
        },
        Err(f) => f,
    };
    let f3 = match t_rest(t, p) {
        Ok(r) => {
            return Ok(r);
        },
        Err(f) => f,
    };
    let f4 = match t_single(t, p, t_tap(t, p), Ghost(spec_tap(t@, i))) {
        Ok(r) => {
            return Ok(r);
        },
        Err(f) => f,
    };
    let f5 = match t_tap_multi_simplified(t, p) {
        Ok(r) => {
            return Ok(r);
        },
        Err(f) => f,
    };
    let f6 = match t_single(t, p, t_hold_note(t, p), Ghost(spec_hold_note(t@, i))) {
        Ok(r) => {
            return Ok(r);
        },
        Err(f) => f,
    };
    let f7 = match t_single(t, p, t_slide_note(t, p), Ghost(spec_slide_note(t@, i))) {
        Ok(r) => {
            return Ok(r);
        },
        Err(f) => f,
    };
    let f8 = match t_bundle(t, p) {
        Ok(r) => {
            return Ok(r);
        },
        Err(f) => f,
    };
    match t_end_mark(t, p) {
        Ok(r) => Ok(r),
        Err(f9) => Err(
            furthest(
                f1,
                furthest(
                    f2,
                    furthest(
                        f3,
                        furthest(f4, furthest(f5, furthest(f6, furthest(f7, furthest(f8, f9))))),
                    ),
                ),
            ),
        ),
    }
}

/// Where a text of instructions failed to parse: the location where the first instruction
/// that does not parse fails, the furthest that any of its forms got.
#[derive(Copy, Clone, Eq, PartialEq, Hash, Debug, Structural)]
pub struct ParseError {
    pub byte_offset: usize,
    pub line: usize,
    pub col: usize,
}

/// The error for a failure at index `i` of `t`.
pub open spec fn parse_error_at(t: Seq<char>, i: int) -> ParseError {
    let l = loc_at(t, i);
    ParseError { byte_offset: l.byte as usize, line: l.line as usize, col: l.col as usize }
}

/// The outcome that [`spec_parse`] describes.
pub open spec fn parse_result_matches(
    t: Seq<char>,
    r: Result<Vec<Sp<RawInsn>>, ParseError>,
) -> bool {
    match spec_parse(t) {
        Ok(insns) => r matches Ok(v) && insns_view(v@) == insns,
        Err(i) => r == Err::<Vec<Sp<RawInsn>>, ParseError>(parse_error_at(t, i)),
    }
}

/// Parses a whole text of instructions, given as its characters.
pub fn parse_insns(t: &[char]) -> (r: Result<Vec<Sp<RawInsn>>, ParseError>)
    requires
        t@.len() <= TEXT_LIMIT,
    ensures
        parse_result_matches(t@, r),
{
    let mut acc: Vec<Sp<RawInsn>> = Vec::new();
    let mut q = skip_ws(t, Pos::start(t));
    assert(insns_view(acc@) =~= Seq::empty());
    proof {
        lemma_skip_ws_bound(t@, 0);
    }
    loop
        invariant
            at(t@, q),
            spec_parse(t@) == match spec_insns_from(t@, q.idx as int) {
                Ok(rest) => Ok(insns_view(acc@) + rest),
                Err(i) => Err(i),
            },
        decreases t@.len() - q.idx,
    {
        if q.idx >= t.len() {
            assert(insns_view(acc@) + Seq::empty() =~= insns_view(acc@));
            return Ok(acc);
        }
        match parse_one_maidata_insn(t, q) {
            Ok((insn, e)) => {
                if q.idx < e.idx {
                    let next_q = skip_ws(t, e);
                    proof {
                        lemma_skip_ws_bound(t@, e.idx as int);
                        assert(insns_view(acc@.push(insn)) =~= insns_view(acc@).push(insn@));
                        match spec_insns_from(t@, next_q.idx as int) {
                            Ok(rest) => {
                                assert(insns_view(acc@) + (seq![insn@] + rest) =~= insns_view(
                                    acc@,
                                ).push(insn@) + rest);
                            },
                            Err(_) => {},
                        }
                    }
                    acc.push(insn);
                    q = next_q;
                } else {
                    let l = q;
                    return Err(ParseError { byte_offset: l.byte, line: l.line, col: l.col });
                }
            },
            Err(l) => {
                return Err(ParseError { byte_offset: l.byte, line: l.line, col: l.col });
            },
        }
    }
}

/// The characters of a text, in order.
pub(crate) fn chars_of(s: &str) -> (r: Vec<char>)
    ensures
        r@ == s@,
{
    broadcast use vstd::string::axiom_spec_iter, vstd::string::next_postcondition;

    let mut it = s.chars();
    let mut r: Vec<char> = Vec::new();
    loop
        invariant
            r@ + it.remaining() == s@,
            it.decrease() is Some,
        ensures
            r@ == s@,
        decreases it.decrease()->0,
    {
        let ghost before = it.remaining();
        match it.next() {
            Some(c) => {
                assert(r@.push(c) + it.remaining() =~= r@ + before);
                r.push(c);
            },
            None => {
                assert(r@ + before =~= r@);
                break;
            },
        }
    }
    r
}

/// Parses one difficulty's text of instructions into its instructions, each with its span.
///
/// Whitespace may stand between any two tokens. The instructions are tried at each position in
/// this order: tempo change, subdivision change, rest, single tap, taps side by side, single
/// hold, single slide, bundle, end marker. On failure, gives the first unparseable position:
/// where the first instruction that does not parse fails, the furthest that any of its forms
/// got. That is where a needed token is missing, or where a number out of range begins.
pub fn parse_maidata_insns(text: &str) -> (r: Result<Vec<Sp<RawInsn>>, ParseError>)
    requires
        text@.len() <= TEXT_LIMIT,
    ensures
        parse_result_matches(text@, r),
{
    let chars = chars_of(text);
    parse_insns(chars.as_slice())
}

} // verus!
