use maidata::insn::{
    parse_maidata_insns, BeatDivisorParams, HoldParams, Key, KeyParseError, Length,
    NumBeatsParams, RawInsn, RawNoteInsn, SlideLength, SlideShape, SlideStopTimeSpec, SlideTrack,
    TapParams, TapVariant,
};
use maidata::number::Decimal;
use maidata::Span;

fn tap(key: Key) -> RawNoteInsn {
    RawNoteInsn::Tap(TapParams { variant: TapVariant::Tap, key })
}

fn dec(negative: bool, mantissa: u64, exponent: i64) -> Decimal {
    Decimal { negative, mantissa, exponent }
}

#[test]
fn key_from_digit() {
    assert_eq!(Key::try_from('1').ok(), Some(Key::K1));
    assert_eq!(Key::try_from('8').ok(), Some(Key::K8));
    assert!(matches!(Key::try_from('9'), Err(KeyParseError::InvalidKey('9'))));
    assert!(matches!(Key::try_from('0'), Err(KeyParseError::InvalidKey('0'))));
}

#[test]
fn empty_and_blank_texts_have_no_instructions() {
    assert_eq!(parse_maidata_insns("").unwrap().len(), 0);
    assert_eq!(parse_maidata_insns(" \r\n\t").unwrap().len(), 0);
}

#[test]
fn adjacent_keys_form_a_simplified_bundle() {
    let insns = parse_maidata_insns("12,").unwrap();
    assert_eq!(insns.len(), 1);
    match &insns[0].0 {
        RawInsn::NoteBundle(notes) => {
            assert_eq!(notes.len(), 2);
            assert_eq!(notes[0].0, tap(Key::K1));
            assert_eq!(notes[1].0, tap(Key::K2));
            assert_eq!(notes[0].1.col, 1);
            assert_eq!(notes[1].1.col, 2);
        }
        other => panic!("expected a bundle, got {:?}", other),
    }
}

#[test]
fn hold_is_not_a_tap_with_leftover_text() {
    let insns = parse_maidata_insns("1h[4:4],").unwrap();
    assert_eq!(insns.len(), 1);
    match &insns[0].0 {
        RawInsn::Note(n) => assert_eq!(
            n.0,
            RawNoteInsn::Hold(HoldParams {
                key: Key::K1,
                len: Length::NumBeats(NumBeatsParams { divisor: 4, num: 4 }),
            })
        ),
        other => panic!("expected a hold, got {:?}", other),
    }
}

#[test]
fn tempo_subdivision_and_taps() {
    let insns = parse_maidata_insns("(120){4}1,2,").unwrap();
    assert_eq!(insns.len(), 4);
    assert_eq!(
        insns[0].0,
        RawInsn::Bpm(maidata::insn::BpmParams { new_bpm: dec(false, 120, 0) })
    );
    assert_eq!(insns[1].0, RawInsn::BeatDivisor(BeatDivisorParams::NewDivisor(4)));
    assert_eq!(
        insns[0].1,
        Span { byte_offset: 0, line: 1, col: 1, end_line: 1, end_col: 6, len: 5 }
    );
    assert_eq!(
        insns[2].1,
        Span { byte_offset: 8, line: 1, col: 9, end_line: 1, end_col: 11, len: 2 }
    );
}

#[test]
fn decimal_tempo_and_absolute_subdivision() {
    let insns = parse_maidata_insns("(150.5){#0.25}(1.5e2)(-3)").unwrap();
    assert_eq!(insns[0].0, RawInsn::Bpm(maidata::insn::BpmParams { new_bpm: dec(false, 1505, -1) }));
    assert_eq!(
        insns[1].0,
        RawInsn::BeatDivisor(BeatDivisorParams::NewAbsoluteDuration(dec(false, 25, -2)))
    );
    assert_eq!(insns[2].0, RawInsn::Bpm(maidata::insn::BpmParams { new_bpm: dec(false, 15, 1) }));
    assert_eq!(insns[3].0, RawInsn::Bpm(maidata::insn::BpmParams { new_bpm: dec(true, 3, 0) }));
}

#[test]
fn whitespace_between_tokens() {
    let insns = parse_maidata_insns(" ( 120 )\n{ 4 }\n1 b ,\n1 h [ 4 : 1 ] ,\nE").unwrap();
    assert_eq!(insns.len(), 5);
    match &insns[2].0 {
        RawInsn::Note(n) => {
            assert_eq!(n.0, RawNoteInsn::Tap(TapParams { variant: TapVariant::Break, key: Key::K1 }))
        }
        other => panic!("expected a break tap, got {:?}", other),
    }
    assert!(matches!(&insns[3].0, RawInsn::Note(n) if matches!(n.0, RawNoteInsn::Hold(_))));
    assert_eq!(insns[4].0, RawInsn::EndMark);
    assert_eq!(insns[4].1.line, 5);
}

#[test]
fn slide_with_chained_tracks() {
    let insns = parse_maidata_insns("1-5[4:1]*pp3[8:1]*V35[2:1],").unwrap();
    match &insns[0].0 {
        RawInsn::Note(n) => match &n.0 {
            RawNoteInsn::Slide(p) => {
                assert_eq!(p.start.key, Key::K1);
                assert_eq!(p.tracks.len(), 3);
                assert_eq!(p.tracks[0].shape(), SlideShape::Line);
                assert_eq!(p.tracks[1].shape(), SlideShape::Pp);
                assert_eq!(p.tracks[2].shape(), SlideShape::Angle);
                let angle = p.tracks[2].params();
                assert_eq!(angle.interim.map(|t| t.key), Some(Key::K3));
                assert_eq!(angle.destination.key, Key::K5);
                assert_eq!(SlideShape::from(p.tracks[0]), SlideShape::Line);
            }
            other => panic!("expected a slide, got {:?}", other),
        },
        other => panic!("expected a note, got {:?}", other),
    }
}

#[test]
fn single_letter_shapes() {
    let insns = parse_maidata_insns("1p3[4:1],1q3[4:1],1s5[4:1],1z5[4:1],1w5[4:1],1^3[4:1],1<3[4:1],1>3[4:1],1v3[4:1],1qq3[4:1],").unwrap();
    let shapes: Vec<SlideShape> = insns
        .iter()
        .map(|i| match &i.0 {
            RawInsn::Note(n) => match &n.0 {
                RawNoteInsn::Slide(p) => p.tracks[0].shape(),
                _ => panic!("expected a slide"),
            },
            _ => panic!("expected a note"),
        })
        .collect();
    assert_eq!(
        shapes,
        vec![
            SlideShape::P,
            SlideShape::Q,
            SlideShape::S,
            SlideShape::Z,
            SlideShape::Spread,
            SlideShape::Arc,
            SlideShape::CircumferenceLeft,
            SlideShape::CircumferenceRight,
            SlideShape::V,
            SlideShape::Qq,
        ]
    );
}

#[test]
fn slide_stop_time_overrides() {
    let insns = parse_maidata_insns("1-5[160#8:3],1-5[3##1.5],").unwrap();
    let lens: Vec<SlideLength> = insns
        .iter()
        .map(|i| match &i.0 {
            RawInsn::Note(n) => match &n.0 {
                RawNoteInsn::Slide(p) => p.tracks[0].params().len,
                _ => panic!("expected a slide"),
            },
            _ => panic!("expected a note"),
        })
        .collect();
    assert_eq!(
        lens[0],
        SlideLength::Custom(
            SlideStopTimeSpec::Bpm(dec(false, 160, 0)),
            Length::NumBeats(NumBeatsParams { divisor: 8, num: 3 })
        )
    );
    assert_eq!(
        lens[1],
        SlideLength::Custom(
            SlideStopTimeSpec::Seconds(dec(false, 3, 0)),
            Length::Seconds(dec(false, 15, -1))
        )
    );
    assert_eq!(lens[1].slide_duration(), Length::Seconds(dec(false, 15, -1)));
}

#[test]
fn mixed_bundle_keeps_source_order() {
    let e = parse_maidata_insns("1/2h[4:1]/3-5[4:1]b,").unwrap_err();
    assert_eq!(e.col, 19);
    let insns = parse_maidata_insns("1/2h[4:1]/3-5[4:1],").unwrap();
    match &insns[0].0 {
        RawInsn::NoteBundle(notes) => {
            assert_eq!(notes.len(), 3);
            assert_eq!(notes[0].0, tap(Key::K1));
            assert!(matches!(notes[1].0, RawNoteInsn::Hold(_)));
            assert!(matches!(notes[2].0, RawNoteInsn::Slide(_)));
            assert_eq!(notes[2].1.col, 11);
        }
        other => panic!("expected a bundle, got {:?}", other),
    }
}

#[test]
fn error_at_first_unparsable_instruction() {
    let e = parse_maidata_insns("(120){4}\n1,x,").unwrap_err();
    assert_eq!((e.line, e.col, e.byte_offset), (2, 3, 11));
    let e = parse_maidata_insns("1h 4,").unwrap_err();
    assert_eq!((e.line, e.col, e.byte_offset), (1, 4, 3));
}

#[test]
fn error_at_the_furthest_failure() {
    let e = parse_maidata_insns("{300}").unwrap_err();
    assert_eq!((e.col, e.byte_offset), (2, 1));
    let e = parse_maidata_insns("(120){4}1h[4:x],").unwrap_err();
    assert_eq!(e.col, 14);
    let e = parse_maidata_insns("(1e30)").unwrap_err();
    assert_eq!(e.col, 2);
    let e = parse_maidata_insns("1-5[4:1]*?3[4:1],").unwrap_err();
    assert_eq!(e.col, 9);
}

#[test]
fn spans_do_not_decide_equality() {
    let a = parse_maidata_insns("1,").unwrap();
    let b = parse_maidata_insns("  1 ,").unwrap();
    assert_ne!(a[0].1, b[0].1);
    assert_eq!(a, b);
}

#[test]
fn out_of_range_numbers_do_not_parse() {
    assert!(parse_maidata_insns("{256}").is_err());
    assert!(parse_maidata_insns("{255}").is_ok());
    assert!(parse_maidata_insns("1h[4:300],").is_err());
    assert!(parse_maidata_insns("(1e19)").is_err());
    assert!(parse_maidata_insns("(1e18)").is_ok());
    assert!(parse_maidata_insns("(1e)").is_err());
}

#[test]
fn multibyte_text_locates_errors() {
    let e = parse_maidata_insns("1,\u{3042}").unwrap_err();
    assert_eq!((e.line, e.col, e.byte_offset), (1, 3, 2));
    let e = parse_maidata_insns("\u{3042}").unwrap_err();
    assert_eq!(e.byte_offset, 0);
    let e = parse_maidata_insns("\u{e9},").unwrap_err();
    assert_eq!(e.col, 1);
    let insns = parse_maidata_insns("(120)");
    assert!(insns.is_ok());
    let e = parse_maidata_insns("(120)\u{e9}").unwrap_err();
    assert_eq!((e.col, e.byte_offset), (6, 5));
    let e = parse_maidata_insns("\u{e9}(120)").unwrap_err();
    assert_eq!((e.col, e.byte_offset), (1, 0));
}

#[test]
fn track_from_shape_keeps_shape_and_params() {
    let params = maidata::insn::SlideTrackParams {
        destination: TapParams { variant: TapVariant::Tap, key: Key::K5 },
        interim: None,
        len: SlideLength::Simple(Length::NumBeats(NumBeatsParams { divisor: 4, num: 1 })),
    };
    let track = SlideTrack::from_shape(SlideShape::Spread, params);
    assert_eq!(track, SlideTrack::Spread(params));
    assert_eq!(track.shape(), SlideShape::Spread);
    assert_eq!(*track.params(), params);
}

#[test]
fn span_after_multibyte_characters() {
    let insns = parse_maidata_insns("\u{3042}").ok();
    assert!(insns.is_none());
    let insns = parse_maidata_insns("1,\n2,").unwrap();
    assert_eq!(
        insns[1].1,
        Span { byte_offset: 3, line: 2, col: 1, end_line: 2, end_col: 3, len: 2 }
    );
}
