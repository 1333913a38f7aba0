use maidata::container::num_rightmost_whitespaces;

#[test]
fn test_num_rightmost_whitespaces() {
    assert_eq!(num_rightmost_whitespaces(""), 0);
    assert_eq!(num_rightmost_whitespaces("foo"), 0);
    assert_eq!(num_rightmost_whitespaces("\r\n\r\n"), 4);
    assert_eq!(num_rightmost_whitespaces("foo\r\n\r\n"), 4);
    assert_eq!(num_rightmost_whitespaces("foo\r\n\r\nbar"), 0);
    assert_eq!(num_rightmost_whitespaces("\n\n\nfoo\n\nbar\n"), 1);
}

#[test]
fn trailing_tabs_and_spaces_count() {
    assert_eq!(num_rightmost_whitespaces("a \t "), 3);
    assert_eq!(num_rightmost_whitespaces("a\u{3000}"), 0);
}

use maidata::container::{lex_maidata, ContainerError};
use maidata::insn::RawInsn;
use maidata::number::Decimal;
use maidata::{Difficulty, Level};

const CHART: &str = "\u{feff}&title=Song\r\n&artist=Someone  \n&first=0.5\n&des=Chart Maker\n&lv_4=12+\n&des_4=Guest\n&inote_4=(120){4}1,2,\nE\n&lv_5=\u{203b}?\n&first_5=1.25\n&inote_5=(150)\n&unknown=whatever\n";

#[test]
fn reads_a_chart() {
    let m = lex_maidata(CHART).unwrap();
    assert_eq!(m.title(), "Song");
    assert_eq!(m.artist(), "Someone");
    let diffs = m.iter_difficulties();
    assert_eq!(diffs.len(), 2);
    let expert = &diffs[0];
    assert_eq!(expert.difficulty(), Difficulty::Expert);
    assert_eq!(expert.level(), Some(Level::Plus(12)));
    assert_eq!(expert.designer(), Some("Guest"));
    assert_eq!(expert.offset(), Some(Decimal { negative: false, mantissa: 5, exponent: -1 }));
    assert_eq!(expert.single_message(), None);
    assert_eq!(expert.iter_insns().len(), 5);
    assert_eq!(expert.iter_insns()[4].0, RawInsn::EndMark);
    let master = &diffs[1];
    assert_eq!(master.difficulty(), Difficulty::Master);
    assert_eq!(master.level(), Some(Level::Char('?')));
    assert_eq!(master.designer(), Some("Chart Maker"));
    assert_eq!(master.offset(), Some(Decimal { negative: false, mantissa: 125, exponent: -2 }));
}

#[test]
fn chart_errors() {
    assert_eq!(
        lex_maidata("&inote_2=(120)x").err(),
        Some(ContainerError::Insns(
            Difficulty::Basic,
            maidata::insn::ParseError { byte_offset: 5, line: 1, col: 6 }
        ))
    );
    assert_eq!(lex_maidata("&first_3=soon").err(), Some(ContainerError::Offset(Difficulty::Advanced)));
    assert!(matches!(lex_maidata("title=x"), Err(ContainerError::Syntax(e)) if e.col == 1));
    assert!(matches!(lex_maidata("&title"), Err(ContainerError::Syntax(_))));
    assert!(lex_maidata("").unwrap().iter_difficulties().is_empty());
    assert_eq!(lex_maidata("&first=soon&title=t").unwrap().title(), "t");
}

#[test]
fn level_text() {
    let text = |l: Level| l.to_text().into_iter().collect::<String>();
    assert_eq!(text(Level::Normal(7)), "7");
    assert_eq!(text(Level::Normal(13)), "13");
    assert_eq!(text(Level::Plus(255)), "255+");
    assert_eq!(text(Level::Plus(0)), "0+");
    assert_eq!(text(Level::Char('?')), "?");
}

#[test]
fn level_values() {
    let lv = |s: &str| maidata::container::t_level(&s.chars().collect::<Vec<char>>());
    assert_eq!(lv("13"), Some(Level::Normal(13)));
    assert_eq!(lv("13 +"), Some(Level::Plus(13)));
    assert_eq!(lv("\u{203b} x"), Some(Level::Char('x')));
    assert_eq!(lv("300"), None);
    assert_eq!(lv("\u{203b}"), None);
}

#[test]
fn key_value_ranges() {
    let text = "\u{feff}&a=b \n&title=x";
    let kvs = maidata::container::lex_maidata_inner(text).unwrap();
    assert_eq!(kvs.len(), 2);
    assert_eq!((kvs[0].key_start, kvs[0].key_end, kvs[0].val_start, kvs[0].val_end), (2, 3, 4, 5));
    assert_eq!((kvs[1].key_start, kvs[1].key_end, kvs[1].val_start, kvs[1].val_end), (8, 13, 14, 15));
    assert!(maidata::container::lex_maidata_inner("x").is_err());
}
