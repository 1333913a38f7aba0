use maidata::insn::parse_maidata_insns;
use maidata::materialize::{
    bpm_to_beat_dur, divide_beat, materialize, MaterializationContext, MaterializeErrorKind,
    MaterializedTapShape, Note,
};
use maidata::insn::Key;
use maidata::number::{Decimal, Rational};

fn q(num: i64, den: i64) -> Rational {
    Rational { num, den }
}

fn run(text: &str) -> Result<Vec<Note>, maidata::materialize::MaterializeError> {
    let insns = parse_maidata_insns(text).expect("chart text parses");
    materialize(Rational::zero(), &insns)
}

fn seconds(r: Rational) -> f64 {
    r.num as f64 / r.den as f64
}

#[test]
fn beat_duration_is_sixty_over_tempo() {
    let d = |m: u64| Decimal { negative: false, mantissa: m, exponent: 0 };
    assert_eq!(bpm_to_beat_dur(d(120)), Ok(q(1, 2)));
    assert_eq!(bpm_to_beat_dur(d(60)), Ok(q(1, 1)));
    assert_eq!(bpm_to_beat_dur(d(180)), Ok(q(1, 3)));
    assert_eq!(
        bpm_to_beat_dur(Decimal { negative: false, mantissa: 1505, exponent: -1 }),
        Ok(q(120, 301))
    );
}

#[test]
fn slot_duration_is_four_beats_over_divisor() {
    assert_eq!(divide_beat(Some(q(1, 2)), 4), Ok(q(1, 2)));
    assert_eq!(divide_beat(Some(q(1, 2)), 8), Ok(q(1, 4)));
    assert_eq!(divide_beat(Some(q(1, 2)), 3), Ok(q(2, 3)));
    assert_eq!(divide_beat(Some(q(1, 2)), 0), Err(MaterializeErrorKind::NonPositiveDivisor));
    assert_eq!(divide_beat(None, 4), Err(MaterializeErrorKind::MissingTempo));
}

#[test]
fn taps_one_slot_apart() {
    let notes = run("(120){4}1,2,").unwrap();
    assert_eq!(notes.len(), 2);
    match (notes[0], notes[1]) {
        (Note::Tap(a), Note::Tap(b)) => {
            assert_eq!((a.ts, a.key, a.shape), (q(0, 1), Key::K1, MaterializedTapShape::Ring));
            assert_eq!((b.ts, b.key, b.shape), (q(1, 2), Key::K2, MaterializedTapShape::Ring));
            assert_eq!(seconds(b.ts), 0.5);
        }
        other => panic!("expected two taps, got {:?}", other),
    }
}

#[test]
fn simplified_bundle_shares_its_slot() {
    let notes = run("(120){8}12,").unwrap();
    assert_eq!(notes.len(), 2);
    match (notes[0], notes[1]) {
        (Note::Tap(a), Note::Tap(b)) => {
            assert_eq!((a.ts, a.key), (q(0, 1), Key::K1));
            assert_eq!((b.ts, b.key), (q(0, 1), Key::K2));
        }
        other => panic!("expected two taps, got {:?}", other),
    }
}

#[test]
fn hold_of_four_beats() {
    let notes = run("(60){4}1h[4:4],").unwrap();
    match notes[0] {
        Note::Hold(h) => {
            assert_eq!(h.dur, q(4, 1));
            assert_eq!(seconds(h.dur), 4.0);
            assert_eq!(h.key, Key::K1);
        }
        other => panic!("expected a hold, got {:?}", other),
    }
}

#[test]
fn slide_waits_one_beat_by_default() {
    let notes = run("(60){4},1-5[4:1],").unwrap();
    assert_eq!(notes.len(), 2);
    match (notes[0], notes[1]) {
        (Note::Tap(star), Note::SlideTrack(t)) => {
            assert_eq!(star.shape, MaterializedTapShape::Star);
            assert_eq!(star.ts, q(1, 1));
            assert_eq!(t.ts, q(1, 1));
            assert_eq!(t.start_ts, q(2, 1));
            assert_eq!(t.dur, q(1, 1));
            assert_eq!((t.start, t.destination, t.interim), (Key::K1, Key::K5, None));
        }
        other => panic!("expected a star and a track, got {:?}", other),
    }
}

#[test]
fn slide_emits_star_then_each_track() {
    let notes = run("(120){4}1b-5[8:1]*V37[4:1]*w5[#2],").unwrap();
    assert_eq!(notes.len(), 4);
    assert!(matches!(notes[0], Note::Tap(t) if t.shape == MaterializedTapShape::Star && t.key == Key::K1));
    match (notes[1], notes[2], notes[3]) {
        (Note::SlideTrack(a), Note::SlideTrack(b), Note::SlideTrack(c)) => {
            assert_eq!(a.dur, q(1, 4));
            assert_eq!(b.interim, Some(Key::K3));
            assert_eq!(b.destination, Key::K7);
            assert_eq!(b.dur, q(1, 2));
            assert_eq!(c.dur, q(2, 1));
            assert_eq!(c.start_ts, q(1, 2));
        }
        other => panic!("expected three tracks, got {:?}", other),
    }
}

#[test]
fn slide_stop_time_overrides_apply() {
    let notes = run("(120){4}1-5[160#8:3],1-5[3##1.5],").unwrap();
    match (notes[1], notes[3]) {
        (Note::SlideTrack(a), Note::SlideTrack(b)) => {
            assert_eq!(a.start_ts, q(3, 8));
            assert_eq!(a.dur, q(3, 4));
            assert_eq!(b.ts, q(1, 2));
            assert_eq!(b.start_ts, q(7, 2));
            assert_eq!(b.dur, q(3, 2));
        }
        other => panic!("expected tracks, got {:?}", other),
    }
}

#[test]
fn mixed_bundle_shares_one_time() {
    let notes = run("(120){4},1b/2h[4:1]/3-5[4:1],").unwrap();
    assert_eq!(notes.len(), 4);
    for n in &notes {
        assert_eq!(n.ts(), q(1, 2));
    }
    assert!(matches!(notes[0], Note::Tap(t) if t.shape == MaterializedTapShape::Break));
    assert!(matches!(notes[1], Note::Hold(_)));
    assert!(matches!(notes[2], Note::Tap(t) if t.shape == MaterializedTapShape::Star));
    assert!(matches!(notes[3], Note::SlideTrack(_)));
}

#[test]
fn rests_advance_by_the_slot_in_force() {
    let insns = parse_maidata_insns("(120){4},,(60),{8},,").unwrap();
    let mut ctx = MaterializationContext::with_offset(q(1, 10));
    let mut times = Vec::new();
    for insn in &insns {
        ctx.materialize_insns(&vec![insn.clone()]).unwrap();
        times.push(ctx.curr_ts);
    }
    assert_eq!(
        times,
        vec![q(1, 10), q(1, 10), q(3, 5), q(11, 10), q(11, 10), q(8, 5), q(8, 5), q(21, 10), q(13, 5)]
    );
}

#[test]
fn offset_shifts_every_time() {
    let insns = parse_maidata_insns("(120){4}1,").unwrap();
    let notes = materialize(q(-3, 2), &insns).unwrap();
    assert_eq!(notes[0].ts(), q(-3, 2));
}

#[test]
fn end_marker_changes_nothing() {
    let notes = run("(120){4}1,E2,").unwrap();
    assert_eq!(notes.len(), 2);
    assert_eq!(notes[1].ts(), q(1, 2));
}

#[test]
fn absolute_subdivision_ignores_tempo() {
    let notes = run("(120){#0.3}1,2,").unwrap();
    assert_eq!(notes[1].ts(), q(3, 10));
}

#[test]
fn non_positive_tempo_fails() {
    let e = run("(0){4}1,").unwrap_err();
    assert_eq!(e.kind, MaterializeErrorKind::NonPositiveTempo);
    assert_eq!((e.span.byte_offset, e.span.len), (0, 3));
    let e = run("(-120){4}1,").unwrap_err();
    assert_eq!(e.kind, MaterializeErrorKind::NonPositiveTempo);
    let e = run("(120){4}1-5[0#4:1],").unwrap_err();
    assert_eq!(e.kind, MaterializeErrorKind::NonPositiveTempo);
    assert_eq!(e.span.col, 9);
}

#[test]
fn each_error_kind() {
    assert_eq!(run("(120)1,").unwrap_err().kind, MaterializeErrorKind::MissingSubdivision);
    assert_eq!(run("{4}").unwrap_err().kind, MaterializeErrorKind::MissingTempo);
    assert_eq!(run("{#0.5}1h[4:1],").unwrap_err().kind, MaterializeErrorKind::MissingTempo);
    assert_eq!(run("(120){0}").unwrap_err().kind, MaterializeErrorKind::NonPositiveDivisor);
    assert_eq!(run("(120){4}1h[0:1],").unwrap_err().kind, MaterializeErrorKind::NonPositiveDivisor);
    assert_eq!(
        run("(0.000000000000000001)").unwrap_err().kind,
        MaterializeErrorKind::OutOfRange
    );
}

#[test]
fn slot_without_tempo_fails() {
    let e = run("{#1},").unwrap_err();
    assert_eq!(e.kind, MaterializeErrorKind::MissingTempo);
    assert_eq!((e.span.col, e.span.len), (5, 1));
    assert_eq!(run("{#1}1,").unwrap_err().kind, MaterializeErrorKind::MissingTempo);
    assert_eq!(run("{#1}12,").unwrap_err().kind, MaterializeErrorKind::MissingTempo);
    assert_eq!(run("1,").unwrap_err().kind, MaterializeErrorKind::MissingTempo);
    assert_eq!(run("(60){#1}1,").unwrap()[0].ts(), q(0, 1));
}

#[test]
fn error_in_bundle_names_the_note() {
    let e = run("(120){4}1/2h[0:1],").unwrap_err();
    assert_eq!(e.kind, MaterializeErrorKind::NonPositiveDivisor);
    assert_eq!((e.span.col, e.span.end_col), (11, 18));
}

#[test]
fn failed_run_leaves_the_state_unchanged() {
    let insns = parse_maidata_insns("(120){4}1,(0)").unwrap();
    let mut ctx = MaterializationContext::with_offset(Rational::zero());
    assert!(ctx.materialize_insns(&insns).is_err());
    assert_eq!(ctx, MaterializationContext::with_offset(Rational::zero()));
}

#[test]
fn rationals_in_lowest_terms() {
    assert_eq!(Rational::new(2, 4), Some(q(1, 2)));
    assert_eq!(Rational::new(-6, 3), Some(q(-2, 1)));
    assert_eq!(Rational::new(0, 7), Some(q(0, 1)));
    assert_eq!(
        Decimal { negative: true, mantissa: 25, exponent: -1 }.to_rational(),
        Some(q(-5, 2))
    );
    assert_eq!(Decimal { negative: false, mantissa: 3, exponent: 2 }.to_rational(), Some(q(300, 1)));
    assert_eq!(Decimal { negative: false, mantissa: 1, exponent: 19 }.to_rational(), None);
}
