//! Laws of materialization, proved over the spec functions that its contracts use.
use vstd::prelude::*;

use crate::insn::{
    BeatDivisorParams, Length, NumBeatsParams, RawInsnView, RawNoteInsnView, SlideParamsView,
    SlideTrack,
};
use crate::materialize::{
    spec_bpm_to_beat_dur, spec_divide_beat, spec_duration, spec_tap, spec_bundle, spec_note, spec_slide, spec_slide_tracks, MaterializationContext,
    MaterializeError, MaterializeErrorKind, MaterializedTapShape, Note,
};
use crate::number::{
    abs, fits, gcd, is_sum, lemma_gcd_positive, lemma_lowest_terms_same_value, lemma_scale_by_one,
    lowest_terms, same_value, Decimal, lemma_decimal_den, lemma_decimal_positive, lemma_pow10_positive, pow10, lemma_make_rational, lemma_sum_grows, less_than,
    rational_of_decimal, Rational,
};
use crate::span::Sp;

verus! {

/// The notes of a slide track all appear at the slot time.
proof fn lemma_slide_tracks_at(ts: Rational, beat: Option<Rational>, start: crate::insn::Key, tracks: Seq<SlideTrack>)
    requires
        spec_slide_tracks(ts, beat, start, tracks) is Ok,
    ensures
        ({
            let ns = spec_slide_tracks(ts, beat, start, tracks)->Ok_0;
            &&& ns.len() == tracks.len()
            &&& forall|k: int|
                0 <= k < ns.len() ==> (#[trigger] ns[k] matches Note::SlideTrack(m) && m.ts == ts
                    && m.shape == tracks[k].spec_shape() && m.start == start)
        }),
    decreases tracks.len(),
{
    if tracks.len() > 0 {
        lemma_slide_tracks_at(ts, beat, start, tracks.drop_first());
        let ns = spec_slide_tracks(ts, beat, start, tracks)->Ok_0;
        let rest = spec_slide_tracks(ts, beat, start, tracks.drop_first())->Ok_0;
        assert forall|k: int| 0 <= k < ns.len() implies (#[trigger] ns[k] matches Note::SlideTrack(m) && m.ts
            == ts && m.shape == tracks[k].spec_shape() && m.start == start) by {
            if k > 0 {
                assert(ns[k] == rest[k - 1]);
                assert(tracks.drop_first()[k - 1] == tracks[k]);
            }
        }
    }
}

/// Materializing a slide emits its star, a tap of shape star at the slide's key, then one
/// track per track of the slide, in order: one more note than the slide has tracks. All of them
/// appear at the slot time.
pub proof fn lemma_slide_star(ts: Rational, beat: Option<Rational>, p: SlideParamsView)
    requires
        spec_slide(ts, beat, p) is Ok,
    ensures
        ({
            let ns = spec_slide(ts, beat, p)->Ok_0;
            &&& ns.len() == 1 + p.tracks.len()
            &&& ns[0] matches Note::Tap(t) && t.shape == MaterializedTapShape::Star && t.key
                == p.start.key && t.ts == ts
            &&& forall|k: int|
                1 <= k < ns.len() ==> (#[trigger] ns[k] matches Note::SlideTrack(m) && m.ts == ts
                    && m.shape == p.tracks[k - 1].spec_shape())
        }),
{
    lemma_slide_tracks_at(ts, beat, p.start.key, p.tracks);
    let ns = spec_slide(ts, beat, p)->Ok_0;
    let tracks = spec_slide_tracks(ts, beat, p.start.key, p.tracks)->Ok_0;
    assert forall|k: int| 1 <= k < ns.len() implies (#[trigger] ns[k] matches Note::SlideTrack(m) && m.ts == ts
        && m.shape == p.tracks[k - 1].spec_shape()) by {
        assert(ns[k] == tracks[k - 1]);
    }
}

/// Every note of one raw note appears at the slot time.
pub proof fn lemma_note_at(ts: Rational, beat: Option<Rational>, n: RawNoteInsnView)
    requires
        spec_note(ts, beat, n) is Ok,
    ensures
        forall|k: int|
            0 <= k < spec_note(ts, beat, n)->Ok_0.len() ==> (#[trigger] spec_note(
                ts,
                beat,
                n,
            )->Ok_0[k]).spec_ts() == ts,
{
    match n {
        RawNoteInsnView::Slide(p) => {
            lemma_slide_star(ts, beat, p);
        },
        _ => {},
    }
}

/// Every note of a bundle appears at the slot time.
proof fn lemma_bundle_at(ts: Rational, beat: Option<Rational>, notes: Seq<Sp<RawNoteInsnView>>)
    requires
        spec_bundle(ts, beat, notes) is Ok,
    ensures
        forall|k: int|
            0 <= k < spec_bundle(ts, beat, notes)->Ok_0.len() ==> (#[trigger] spec_bundle(
                ts,
                beat,
                notes,
            )->Ok_0[k]).spec_ts() == ts,
    decreases notes.len(),
{
    if notes.len() > 0 {
        lemma_note_at(ts, beat, notes[0].0);
        lemma_bundle_at(ts, beat, notes.drop_first());
        let first = spec_note(ts, beat, notes[0].0)->Ok_0;
        let rest = spec_bundle(ts, beat, notes.drop_first())->Ok_0;
        let all = spec_bundle(ts, beat, notes)->Ok_0;
        assert(all == first + rest);
        assert forall|k: int| 0 <= k < all.len() implies (#[trigger] all[k]).spec_ts() == ts by {
            if k < first.len() {
                assert(all[k] == first[k]);
            } else {
                assert(all[k] == rest[k - first.len()]);
            }
        }
    }
}

/// All notes of one bundle share one time: the time of the slot that the bundle takes.
pub proof fn lemma_bundle_simultaneous(ctx: MaterializationContext, insn: Sp<RawInsnView>)
    requires
        insn.0 is NoteBundle,
        ctx.spec_step(insn) is Ok,
    ensures
        forall|k: int|
            0 <= k < ctx.spec_step(insn)->Ok_0.1.len() ==> (#[trigger] ctx.spec_step(
                insn,
            )->Ok_0.1[k]).spec_ts() == ctx.curr_ts,
{
    reveal(MaterializationContext::spec_step);
    let (ts, next) = ctx.spec_advance()->Ok_0;
    lemma_bundle_at(ts, next.curr_beat_dur, insn.0->NoteBundle_0);
}

/// A tempo of zero or below fails, at the tempo change, and sets no beat length.
pub proof fn lemma_non_positive_tempo_fails(ctx: MaterializationContext, insn: Sp<RawInsnView>)
    requires
        insn.0 matches RawInsnView::Bpm(p) && !p.new_bpm.spec_is_positive(),
    ensures
        ctx.spec_step(insn) == Err::<(MaterializationContext, Seq<Note>), MaterializeError>(
            MaterializeError { kind: MaterializeErrorKind::NonPositiveTempo, span: insn.1 },
        ),
{
    reveal(MaterializationContext::spec_step);
}

/// A rest, a note or a bundle before any tempo change fails, at that instruction, for want of
/// a tempo: a time slot is never taken with the beat length unset.
pub proof fn lemma_slot_needs_tempo(ctx: MaterializationContext, insn: Sp<RawInsnView>)
    requires
        ctx.curr_beat_dur is None,
        insn.0 is Rest || insn.0 is Note || insn.0 is NoteBundle,
    ensures
        ctx.spec_step(insn) == Err::<(MaterializationContext, Seq<Note>), MaterializeError>(
            MaterializeError { kind: MaterializeErrorKind::MissingTempo, span: insn.1 },
        ),
{
    reveal(MaterializationContext::spec_step);
}

/// A tempo change, a subdivision change by a divisor, a rest, or a single tap.
pub open spec fn is_rest_or_timing(insn: RawInsnView) -> bool {
    match insn {
        RawInsnView::Bpm(_) => true,
        RawInsnView::BeatDivisor(BeatDivisorParams::NewDivisor(_)) => true,
        RawInsnView::Rest => true,
        RawInsnView::Note(n) => n.0 is Tap,
        _ => false,
    }
}

/// An instruction that takes a time slot.
pub open spec fn takes_slot(insn: RawInsnView) -> bool {
    insn is Rest || insn is Note || insn is NoteBundle
}

/// The notes of each instruction, as far as materialization goes.
pub open spec fn outputs(ctx: MaterializationContext, insns: Seq<Sp<RawInsnView>>) -> Seq<
    Seq<Note>,
>
    decreases insns.len(),
{
    if insns.len() == 0 {
        seq![]
    } else {
        match ctx.spec_step(insns[0]) {
            Ok((next, ns)) => seq![ns] + outputs(next, insns.drop_first()),
            Err(_) => seq![],
        }
    }
}

/// A successful run is its steps in order: instruction `k` steps from the `k`-th state to the
/// next, and the notes of the run are the notes of the steps, one after another.
pub proof fn lemma_run_by_steps(ctx: MaterializationContext, insns: Seq<Sp<RawInsnView>>)
    requires
        ctx.spec_run(insns) is Ok,
    ensures
        states(ctx, insns).len() == insns.len() + 1,
        outputs(ctx, insns).len() == insns.len(),
        states(ctx, insns)[0] == ctx,
        ctx.spec_run(insns)->Ok_0 == (
            states(ctx, insns)[insns.len() as int],
            outputs(ctx, insns).flatten(),
        ),
        forall|k: int|
            0 <= k < insns.len() ==> #[trigger] states(ctx, insns)[k].spec_step(insns[k]) == Ok::<
                (MaterializationContext, Seq<Note>),
                MaterializeError,
            >((states(ctx, insns)[k + 1], outputs(ctx, insns)[k])),
    decreases insns.len(),
{
    if insns.len() > 0 {
        let (next, ns) = ctx.spec_step(insns[0])->Ok_0;
        let rest = insns.drop_first();
        lemma_run_by_steps(next, rest);
        let st = states(ctx, insns);
        let out = outputs(ctx, insns);
        assert(st == seq![ctx] + states(next, rest));
        assert(out == seq![ns] + outputs(next, rest));
        assert(out.drop_first() =~= outputs(next, rest));
        assert forall|k: int| 0 <= k < insns.len() implies #[trigger] st[k].spec_step(insns[k])
            == Ok::<(MaterializationContext, Seq<Note>), MaterializeError>((st[k + 1], out[k])) by {
            if k > 0 {
                assert(st[k] == states(next, rest)[k - 1]);
                assert(st[k + 1] == states(next, rest)[k]);
                assert(out[k] == outputs(next, rest)[k - 1]);
                assert(insns[k] == rest[k - 1]);
            }
        }
        assert(st[insns.len() as int] == states(next, rest)[rest.len() as int]);
    }
}

/// In a successful run, every note of a bundle appears at the time of the slot that the bundle
/// takes, the time of the state before it.
pub proof fn lemma_run_bundles_simultaneous(ctx: MaterializationContext, insns: Seq<Sp<RawInsnView>>)
    requires
        ctx.spec_run(insns) is Ok,
    ensures
        forall|k: int, j: int|
            0 <= k < insns.len() && insns[k].0 is NoteBundle && 0 <= j < outputs(ctx, insns)[k].len()
                ==> (#[trigger] outputs(ctx, insns)[k][j]).spec_ts() == states(ctx, insns)[k].curr_ts,
{
    lemma_run_by_steps(ctx, insns);
    assert forall|k: int, j: int|
        0 <= k < insns.len() && insns[k].0 is NoteBundle && 0 <= j < outputs(ctx, insns)[k].len()
        implies (#[trigger] outputs(ctx, insns)[k][j]).spec_ts() == states(ctx, insns)[k].curr_ts by {
        let st = states(ctx, insns);
        assert(st[k].spec_step(insns[k]) is Ok);
        lemma_bundle_simultaneous(st[k], insns[k]);
        assert(st[k].spec_step(insns[k])->Ok_0.1 == outputs(ctx, insns)[k]);
    }
}

/// The states before each instruction, and after the last, as far as materialization goes.
pub open spec fn states(ctx: MaterializationContext, insns: Seq<Sp<RawInsnView>>) -> Seq<
    MaterializationContext,
>
    decreases insns.len(),
{
    if insns.len() == 0 {
        seq![ctx]
    } else {
        match ctx.spec_step(insns[0]) {
            Ok((next, _)) => seq![ctx] + states(next, insns.drop_first()),
            Err(_) => seq![ctx],
        }
    }
}

/// Beat and slot lengths, where set, are positive.
pub open spec fn positive_lengths(ctx: MaterializationContext) -> bool {
    &&& (ctx.curr_beat_dur matches Some(b) ==> b.num > 0)
    &&& (ctx.curr_note_dur matches Some(s) ==> s.num > 0)
}

/// Over rests, single taps and changes of tempo or divisor, the slots follow each other at the
/// slot length then in force: each rest or tap takes a slot that is positive, and moves the time
/// on by exactly that slot, so the times of the slots strictly increase. Each tap is emitted at
/// the time of its slot, and rests and changes emit nothing.
pub proof fn lemma_rests_evenly_spaced(ctx: MaterializationContext, insns: Seq<Sp<RawInsnView>>)
    requires
        ctx.wf(),
        positive_lengths(ctx),
        forall|k: int| 0 <= k < insns.len() ==> is_rest_or_timing(#[trigger] insns[k].0),
        ctx.spec_run(insns) is Ok,
    ensures
        states(ctx, insns).len() == insns.len() + 1,
        outputs(ctx, insns).len() == insns.len(),
        forall|k: int|
            0 <= k < insns.len() && takes_slot((#[trigger] insns[k]).0) ==> {
                let before = states(ctx, insns)[k];
                let after = states(ctx, insns)[k + 1];
                &&& before.curr_note_dur matches Some(slot)
                &&& slot.num > 0
                &&& is_sum(after.curr_ts, before.curr_ts, slot)
                &&& less_than(before.curr_ts, after.curr_ts)
            },
        forall|k: int|
            0 <= k < insns.len() ==> (#[trigger] outputs(ctx, insns)[k]) == match insns[k].0 {
                RawInsnView::Note(n) => match n.0 {
                    RawNoteInsnView::Tap(p) => seq![
                        Note::Tap(spec_tap(states(ctx, insns)[k].curr_ts, p, false)),
                    ],
                    _ => seq![],
                },
                _ => seq![],
            },
    decreases insns.len(),
{
    if insns.len() > 0 {
        reveal(MaterializationContext::spec_step);
        let insn = insns[0];
        let (next, _) = ctx.spec_step(insn)->Ok_0;
        lemma_step_keeps(ctx, insn);
        assert forall|k: int| 0 <= k < insns.drop_first().len() implies is_rest_or_timing(
            #[trigger] insns.drop_first()[k].0,
        ) by {
            assert(insns.drop_first()[k] == insns[k + 1]);
        }
        lemma_rests_evenly_spaced(next, insns.drop_first());
        let all = states(ctx, insns);
        let rest = states(next, insns.drop_first());
        assert(all == seq![ctx] + rest);
        let out = outputs(ctx, insns);
        let out_rest = outputs(next, insns.drop_first());
        assert(out == seq![ctx.spec_step(insn)->Ok_0.1] + out_rest);
        assert forall|k: int| 0 <= k < insns.len() implies (#[trigger] out[k]) == match insns[k].0 {
            RawInsnView::Note(n) => match n.0 {
                RawNoteInsnView::Tap(p) => seq![Note::Tap(spec_tap(all[k].curr_ts, p, false))],
                _ => seq![],
            },
            _ => seq![],
        } by {
            if k > 0 {
                assert(insns.drop_first()[k - 1] == insns[k]);
                assert(all[k] == rest[k - 1]);
                assert(out[k] == out_rest[k - 1]);
            }
        }
        assert forall|k: int| 0 <= k < insns.len() && takes_slot((#[trigger] insns[k]).0) implies {
            let before = all[k];
            let after = all[k + 1];
            &&& before.curr_note_dur matches Some(slot)
            &&& slot.num > 0
            &&& is_sum(after.curr_ts, before.curr_ts, slot)
            &&& less_than(before.curr_ts, after.curr_ts)
        } by {
            if k == 0 {
                assert(all[1] == rest[0]);
                let slot = ctx.curr_note_dur->0;
                assert(ctx.curr_ts.den * slot.den > 0) by (nonlinear_arith)
                    requires
                        ctx.curr_ts.den > 0,
                        slot.den > 0,
                ;
                lemma_make_rational(
                    ctx.curr_ts.num * slot.den + slot.num * ctx.curr_ts.den,
                    ctx.curr_ts.den * slot.den,
                );
                lemma_sum_grows(next.curr_ts, ctx.curr_ts, slot);
            } else {
                assert(insns.drop_first()[k - 1] == insns[k]);
                assert(all[k] == rest[k - 1]);
                assert(all[k + 1] == rest[k]);
            }
        }
    }
}

/// A step over a rest, a single tap, or a change of tempo or divisor keeps lengths positive
/// and values in range.
proof fn lemma_step_keeps(ctx: MaterializationContext, insn: Sp<RawInsnView>)
    requires
        ctx.wf(),
        positive_lengths(ctx),
        is_rest_or_timing(insn.0),
        ctx.spec_step(insn) is Ok,
    ensures
        ctx.spec_step(insn)->Ok_0.0.wf(),
        positive_lengths(ctx.spec_step(insn)->Ok_0.0),
        takes_slot(insn.0) ==> (ctx.curr_note_dur matches Some(slot) && slot.num > 0),
{
    reveal(MaterializationContext::spec_step);
    match insn.0 {
        RawInsnView::Bpm(p) => {
            let x = p.new_bpm;
            lemma_decimal_positive(x);
            lemma_make_rational(x.spec_num(), x.spec_den() as int);
            let r = rational_of_decimal(x)->0;
            assert(60 * r.den > 0);
            lemma_make_rational(60 * r.den, r.num as int);
        },
        RawInsnView::BeatDivisor(BeatDivisorParams::NewDivisor(d)) => {
            let b = ctx.curr_beat_dur->0;
            assert(b.den * d > 0) by (nonlinear_arith)
                requires
                    b.den > 0,
                    d > 0,
            ;
            assert(b.num * 4 > 0);
            lemma_make_rational(b.num * 4, b.den * d);
        },
        RawInsnView::Rest | RawInsnView::Note(_) => {
            let slot = ctx.curr_note_dur->0;
            assert(ctx.curr_ts.den * slot.den > 0) by (nonlinear_arith)
                requires
                    ctx.curr_ts.den > 0,
                    slot.den > 0,
            ;
            lemma_make_rational(
                ctx.curr_ts.num * slot.den + slot.num * ctx.curr_ts.den,
                ctx.curr_ts.den * slot.den,
            );
        },
        _ => {},
    }
}

/// A duration counted in beats, at a positive beat length, is never negative, and is positive
/// for a positive count.
pub proof fn lemma_beats_duration_sign(p: NumBeatsParams, b: Rational)
    requires
        b.wf(),
        b.num > 0,
        spec_duration(Length::NumBeats(p), Some(b)) is Ok,
    ensures
        spec_duration(Length::NumBeats(p), Some(b))->Ok_0.num >= 0,
        p.num > 0 ==> spec_duration(Length::NumBeats(p), Some(b))->Ok_0.num > 0,
{
    assert(b.den * p.divisor > 0) by (nonlinear_arith)
        requires
            b.den > 0,
            p.divisor > 0,
    ;
    assert(b.num * (4 * p.num) >= 0 && (p.num > 0 ==> b.num * (4 * p.num) > 0)) by (nonlinear_arith)
        requires
            b.num > 0,
            p.num >= 0,
    ;
    lemma_make_rational(b.num * (4 * p.num), b.den * p.divisor);
}

/// A step keeps every timing value in range and the beat length, where set, positive.
proof fn lemma_step_keeps_beat(ctx: MaterializationContext, insn: Sp<RawInsnView>)
    requires
        ctx.wf(),
        ctx.curr_beat_dur matches Some(b) ==> b.num > 0,
        ctx.spec_step(insn) is Ok,
    ensures
        ctx.spec_step(insn)->Ok_0.0.wf(),
        ctx.spec_step(insn)->Ok_0.0.curr_beat_dur matches Some(b) ==> b.num > 0,
{
    reveal(MaterializationContext::spec_step);
    match insn.0 {
        RawInsnView::Bpm(p) => {
            let x = p.new_bpm;
            lemma_decimal_positive(x);
            lemma_make_rational(x.spec_num(), x.spec_den() as int);
            let r = rational_of_decimal(x)->0;
            assert(60 * r.den > 0);
            lemma_make_rational(60 * r.den, r.num as int);
        },
        RawInsnView::BeatDivisor(BeatDivisorParams::NewDivisor(d)) => {
            let b = ctx.curr_beat_dur->0;
            assert(b.den * d > 0) by (nonlinear_arith)
                requires
                    b.den > 0,
                    d > 0,
            ;
            lemma_make_rational(b.num * 4, b.den * d);
        },
        RawInsnView::BeatDivisor(BeatDivisorParams::NewAbsoluteDuration(x)) => {
            lemma_decimal_den(x);
            lemma_make_rational(x.spec_num(), x.spec_den() as int);
        },
        RawInsnView::EndMark => {},
        _ => {
            let slot = ctx.curr_note_dur->0;
            assert(ctx.curr_ts.den * slot.den > 0) by (nonlinear_arith)
                requires
                    ctx.curr_ts.den > 0,
                    slot.den > 0,
            ;
            lemma_make_rational(
                ctx.curr_ts.num * slot.den + slot.num * ctx.curr_ts.den,
                ctx.curr_ts.den * slot.den,
            );
        },
    }
}

/// Through a successful run from a state whose beat length, if set, is positive, every state
/// keeps its timing values in range and its beat length, if set, positive: so every duration
/// counted in beats is never negative.
pub proof fn lemma_run_beat_positive(ctx: MaterializationContext, insns: Seq<Sp<RawInsnView>>)
    requires
        ctx.wf(),
        ctx.curr_beat_dur matches Some(b) ==> b.num > 0,
        ctx.spec_run(insns) is Ok,
    ensures
        forall|k: int|
            0 <= k < states(ctx, insns).len() ==> (#[trigger] states(ctx, insns)[k]).wf() && (
            states(ctx, insns)[k].curr_beat_dur matches Some(b) ==> b.num > 0),
    decreases insns.len(),
{
    if insns.len() > 0 {
        lemma_step_keeps_beat(ctx, insns[0]);
        let (next, _) = ctx.spec_step(insns[0])->Ok_0;
        lemma_run_beat_positive(next, insns.drop_first());
        let all = states(ctx, insns);
        let rest = states(next, insns.drop_first());
        assert(all == seq![ctx] + rest);
        assert forall|k: int| 0 <= k < all.len() implies (#[trigger] all[k]).wf() && (
        all[k].curr_beat_dur matches Some(b) ==> b.num > 0) by {
            if k > 0 {
                assert(all[k] == rest[k - 1]);
            }
        }
    }
}

/// A length given in seconds is not negative.
pub open spec fn length_non_negative(l: Length) -> bool {
    l matches Length::Seconds(x) ==> !x.negative
}

/// Every length in seconds of a note, and of each track of a slide, is not negative.
pub open spec fn note_lengths_non_negative(n: RawNoteInsnView) -> bool {
    match n {
        RawNoteInsnView::Tap(_) => true,
        RawNoteInsnView::Hold(p) => length_non_negative(p.len),
        RawNoteInsnView::Slide(p) => forall|k: int|
            0 <= k < p.tracks.len() ==> length_non_negative(
                (#[trigger] p.tracks[k]).spec_params().len.spec_slide_duration(),
            ),
    }
}

/// Every length in seconds of the notes of an instruction is not negative.
pub open spec fn insn_lengths_non_negative(i: RawInsnView) -> bool {
    match i {
        RawInsnView::Note(n) => note_lengths_non_negative(n.0),
        RawInsnView::NoteBundle(ns) => forall|k: int|
            0 <= k < ns.len() ==> note_lengths_non_negative((#[trigger] ns[k]).0),
        _ => true,
    }
}

/// The duration of a hold or a slide track is not negative.
pub open spec fn dur_non_negative(n: Note) -> bool {
    match n {
        Note::Tap(_) => true,
        Note::Hold(h) => h.dur.num >= 0,
        Note::SlideTrack(t) => t.dur.num >= 0,
    }
}

/// The beat length, if set, is positive and in range.
pub open spec fn beat_ok(beat: Option<Rational>) -> bool {
    beat matches Some(b) ==> b.wf() && b.num > 0
}

proof fn lemma_duration_non_negative(len: Length, beat: Option<Rational>)
    requires
        beat_ok(beat),
        length_non_negative(len),
        spec_duration(len, beat) is Ok,
    ensures
        spec_duration(len, beat)->Ok_0.num >= 0,
{
    match len {
        Length::NumBeats(p) => {
            lemma_beats_duration_sign(p, beat->0);
        },
        Length::Seconds(x) => {
            lemma_decimal_den(x);
            lemma_pow10_positive(abs(x.exponent as int));
            if x.exponent >= 0 {
                let q = pow10(x.exponent as nat);
                assert(x.mantissa * q >= 0) by (nonlinear_arith)
                    requires
                        q >= 1,
                ;
            }
            lemma_make_rational(x.spec_num(), x.spec_den() as int);
        },
    }
}

proof fn lemma_tracks_non_negative(
    ts: Rational,
    beat: Option<Rational>,
    start: crate::insn::Key,
    tracks: Seq<SlideTrack>,
)
    requires
        beat_ok(beat),
        forall|k: int|
            0 <= k < tracks.len() ==> length_non_negative(
                (#[trigger] tracks[k]).spec_params().len.spec_slide_duration(),
            ),
        spec_slide_tracks(ts, beat, start, tracks) is Ok,
    ensures
        forall|j: int|
            0 <= j < spec_slide_tracks(ts, beat, start, tracks)->Ok_0.len() ==> dur_non_negative(
                #[trigger] spec_slide_tracks(ts, beat, start, tracks)->Ok_0[j],
            ),
    decreases tracks.len(),
{
    if tracks.len() > 0 {
        let t0 = tracks[0];
        lemma_duration_non_negative(t0.spec_params().len.spec_slide_duration(), beat);
        assert forall|k: int| 0 <= k < tracks.drop_first().len() implies length_non_negative(
            (#[trigger] tracks.drop_first()[k]).spec_params().len.spec_slide_duration(),
        ) by {
            assert(tracks.drop_first()[k] == tracks[k + 1]);
        }
        lemma_tracks_non_negative(ts, beat, start, tracks.drop_first());
        let all = spec_slide_tracks(ts, beat, start, tracks)->Ok_0;
        let rest = spec_slide_tracks(ts, beat, start, tracks.drop_first())->Ok_0;
        assert forall|j: int| 0 <= j < all.len() implies dur_non_negative(#[trigger] all[j]) by {
            if j > 0 {
                assert(all[j] == rest[j - 1]);
            }
        }
    }
}

proof fn lemma_note_non_negative(ts: Rational, beat: Option<Rational>, n: RawNoteInsnView)
    requires
        beat_ok(beat),
        note_lengths_non_negative(n),
        spec_note(ts, beat, n) is Ok,
    ensures
        forall|j: int|
            0 <= j < spec_note(ts, beat, n)->Ok_0.len() ==> dur_non_negative(
                #[trigger] spec_note(ts, beat, n)->Ok_0[j],
            ),
{
    match n {
        RawNoteInsnView::Hold(p) => {
            lemma_duration_non_negative(p.len, beat);
        },
        RawNoteInsnView::Slide(p) => {
            lemma_tracks_non_negative(ts, beat, p.start.key, p.tracks);
            let all = spec_note(ts, beat, n)->Ok_0;
            let tracks = spec_slide_tracks(ts, beat, p.start.key, p.tracks)->Ok_0;
            assert forall|j: int| 0 <= j < all.len() implies dur_non_negative(#[trigger] all[j]) by {
                if j > 0 {
                    assert(all[j] == tracks[j - 1]);
                }
            }
        },
        RawNoteInsnView::Tap(_) => {},
    }
}

proof fn lemma_bundle_non_negative(
    ts: Rational,
    beat: Option<Rational>,
    notes: Seq<Sp<RawNoteInsnView>>,
)
    requires
        beat_ok(beat),
        forall|k: int| 0 <= k < notes.len() ==> note_lengths_non_negative((#[trigger] notes[k]).0),
        spec_bundle(ts, beat, notes) is Ok,
    ensures
        forall|j: int|
            0 <= j < spec_bundle(ts, beat, notes)->Ok_0.len() ==> dur_non_negative(
                #[trigger] spec_bundle(ts, beat, notes)->Ok_0[j],
            ),
    decreases notes.len(),
{
    if notes.len() > 0 {
        assert(note_lengths_non_negative(notes[0].0));
        lemma_note_non_negative(ts, beat, notes[0].0);
        assert forall|k: int| 0 <= k < notes.drop_first().len() implies note_lengths_non_negative(
            (#[trigger] notes.drop_first()[k]).0,
        ) by {
            assert(notes.drop_first()[k] == notes[k + 1]);
        }
        lemma_bundle_non_negative(ts, beat, notes.drop_first());
        let first = spec_note(ts, beat, notes[0].0)->Ok_0;
        let rest = spec_bundle(ts, beat, notes.drop_first())->Ok_0;
        let all = spec_bundle(ts, beat, notes)->Ok_0;
        assert(all == first + rest);
        assert forall|j: int| 0 <= j < all.len() implies dur_non_negative(#[trigger] all[j]) by {
            if j < first.len() {
                assert(all[j] == first[j]);
            } else {
                assert(all[j] == rest[j - first.len()]);
            }
        }
    }
}

/// In a successful run from a state whose beat length, if set, is positive, no hold or slide
/// track lasts a negative time, unless its length was given as a negative number of seconds:
/// a duration counted in beats is never negative.
pub proof fn lemma_run_durations_non_negative(
    ctx: MaterializationContext,
    insns: Seq<Sp<RawInsnView>>,
)
    requires
        ctx.wf(),
        ctx.curr_beat_dur matches Some(b) ==> b.num > 0,
        ctx.spec_run(insns) is Ok,
    ensures
        forall|k: int, j: int|
            0 <= k < insns.len() && insn_lengths_non_negative(insns[k].0) && 0 <= j < outputs(
                ctx,
                insns,
            )[k].len() ==> dur_non_negative(#[trigger] outputs(ctx, insns)[k][j]),
{
    lemma_run_by_steps(ctx, insns);
    lemma_run_beat_positive(ctx, insns);
    assert forall|k: int, j: int|
        0 <= k < insns.len() && insn_lengths_non_negative(insns[k].0) && 0 <= j < outputs(
            ctx,
            insns,
        )[k].len() implies dur_non_negative(#[trigger] outputs(ctx, insns)[k][j]) by {
        reveal(MaterializationContext::spec_step);
        let st = states(ctx, insns)[k];
        assert(st.spec_step(insns[k]) is Ok);
        assert(st.wf());
        let (ts, next) = st.spec_advance()->Ok_0;
        match insns[k].0 {
            RawInsnView::Note(n) => {
                lemma_note_non_negative(ts, next.curr_beat_dur, n.0);
            },
            RawInsnView::NoteBundle(ns) => {
                lemma_bundle_non_negative(ts, next.curr_beat_dur, ns);
            },
            _ => {},
        }
    }
}

/// Splitting a whole note (four beats) into four gives one slot per beat: the slot length is
/// always in range, and equals the beat length.
pub proof fn lemma_divisor_four_keeps_beat(b: Rational)
    requires
        b.wf(),
    ensures
        spec_divide_beat(Some(b), 4) is Ok,
        same_value(
            spec_divide_beat(Some(b), 4)->Ok_0.num as int,
            spec_divide_beat(Some(b), 4)->Ok_0.den as int,
            b.num as int,
            b.den as int,
        ),
{
    lemma_scale_by_one(b, 4);
}

/// A whole-number tempo always gives a beat length in range: `60 / T` seconds, positive.
pub proof fn lemma_integer_tempo(x: Decimal)
    requires
        x.wf(),
        x.spec_is_positive(),
        x.exponent == 0,
    ensures
        spec_bpm_to_beat_dur(x) is Ok,
        spec_bpm_to_beat_dur(x)->Ok_0.num > 0,
        spec_bpm_to_beat_dur(x)->Ok_0.num * x.mantissa == 60 * spec_bpm_to_beat_dur(x)->Ok_0.den,
{
    let m = x.mantissa as int;
    assert(pow10(x.exponent as nat) == 1);
    assert(x.spec_num() == m * 1);
    assert(x.spec_den() == 1);
    assert(gcd(m as nat, 1) == 1) by {
        assert(gcd(1, (m as nat) % 1) == 1);
    }
    assert(abs(m) == m);
    assert(lowest_terms(m, 1) == (m, 1int));
    let r = rational_of_decimal(x);
    assert(r == Some(Rational { num: m as i64, den: 1 }));
    let g = gcd(60, m as nat) as int;
    lemma_gcd_positive(60, m as nat);
    vstd::arithmetic::div_mod::lemma_div_is_ordered_by_denominator(60, 1, g);
    vstd::arithmetic::div_mod::lemma_div_is_ordered_by_denominator(m, 1, g);
    lemma_lowest_terms_same_value(60, m);
    let (a, b) = lowest_terms(60, m);
    assert(fits(a, b));
    lemma_make_rational(60, m);
}

} // verus!
