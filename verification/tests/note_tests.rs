use gitar::Error;
use gitar::Interval;
use gitar::Note;

#[test]
fn parsing() {
    assert_eq!(Note::parse("C0").unwrap(), Note::new(0));
    assert_eq!(Note::parse("Db3").unwrap(), Note::new(37));
    assert_eq!(Note::parse("Bb10").unwrap(), Note::new(130));
    assert_eq!(Note::parse("Ab").unwrap(), Note::new(8));

    assert!(Note::parse("Cb2").is_err());
    assert!(Note::parse("Gb-2").is_err());
}

#[test]
fn normal() {
    assert_eq!(Note::new(0).format(), "C0");
    assert_eq!(Note::new(37).format(), "Db3");
    assert_eq!(Note::new(76).format(), "E6");
}

#[test]
fn alternate() {
    assert_eq!(Note::new(0).format_class(), "C");
    assert_eq!(Note::new(37).format_class(), "Db");
    assert_eq!(Note::new(76).format_class(), "E");
}

#[test]
fn transposition() {
    assert_eq!(Note::new(10).add_interval(Interval::new(5)).unwrap(), Note::new(15));
    assert_eq!(Note::new(42).add_interval(Interval::new(12)).unwrap(), Note::new(54));
    assert_eq!(Note::new(10).sub_interval(Interval::new(5)).unwrap(), Note::new(5));
    assert_eq!(Note::new(42).sub_interval(Interval::new(12)).unwrap(), Note::new(30));
}

#[test]
fn interval_calculation() {
    assert_eq!(Note::new(10).distance(Note::new(5)), Interval::new(5));
    assert_eq!(Note::new(21).distance(Note::new(27)), Interval::new(6));
    assert_eq!(Note::new(37).distance(Note::new(37)), Interval::new(0));
}

#[test]
fn parse_format_roundtrip_all_names_and_octaves() {
    for pc in 0..12usize {
        for octave in 0..=10usize {
            let note = Note::new(pc + 12 * octave);
            let text = note.format();
            assert_eq!(Note::parse(&text).unwrap(), note);
        }
    }
}

#[test]
fn parse_rejects_malformed_text() {
    assert!(Note::parse("").is_err());
    assert!(Note::parse("H2").is_err());
    assert!(Note::parse("C#4").is_err());
    assert!(Note::parse("Fb1").is_err());
    assert!(Note::parse("b3").is_err());
    assert!(Note::parse("E 4").is_err());
    assert_eq!(Note::parse("x"), Err(Error::ParseError));
}

#[test]
fn parse_rejects_octave_past_the_encoding() {
    assert_eq!(Note::parse("C99999999999999999999999"), Err(Error::ParseError));
}

#[test]
fn parse_defaults_to_octave_zero() {
    assert_eq!(Note::parse("C").unwrap(), Note::new(0));
    assert_eq!(Note::parse("Eb").unwrap(), Note::new(3));
    assert_eq!(Note::parse("B").unwrap(), Note::new(11));
}

#[test]
fn arithmetic_surfaces_domain_errors() {
    assert_eq!(Note::new(3).sub_interval(Interval::new(4)), Err(Error::DomainError));
    assert_eq!(Note::new(usize::MAX).add_interval(Interval::new(1)), Err(Error::DomainError));
    assert_eq!(Note::new(0).sub_interval(Interval::new(0)).unwrap(), Note::new(0));
}

#[test]
fn transpose_then_lower_returns_the_pitch() {
    for v in [0usize, 7, 12, 40, 130] {
        for s in [0usize, 1, 5, 12, 100] {
            let p = Note::new(v);
            let i = Interval::new(s);
            assert_eq!(p.add_interval(i).unwrap().sub_interval(i).unwrap(), p);
        }
    }
}

#[test]
fn distance_is_symmetric() {
    for a in [0usize, 5, 21, 27, 37] {
        for b in [0usize, 5, 21, 27, 37] {
            assert_eq!(Note::new(a).distance(Note::new(b)), Note::new(b).distance(Note::new(a)));
        }
    }
}

#[test]
fn ascent_yields_consecutive_pitches() {
    let mut it = Note::new(5).ascent();
    assert_eq!(it.next(), Note::new(5));
    assert_eq!(it.next(), Note::new(6));
    assert_eq!(it.next(), Note::new(7));

    // a fresh cursor restarts at the source pitch
    let mut again = Note::new(5).ascent();
    assert_eq!(again.next(), Note::new(5));
}

#[test]
fn ascent_prefix_counts_up_from_the_source() {
    let notes = Note::new(40).ascent_prefix(4);
    assert_eq!(notes, vec![Note::new(40), Note::new(41), Note::new(42), Note::new(43)]);
    assert_eq!(Note::new(3).ascent_prefix(0), vec![]);
}

#[test]
fn disregard_octave_keeps_the_pitch_class() {
    assert_eq!(Note::new(37).disregard_octave(), Note::new(1));
    assert_eq!(Note::new(11).disregard_octave(), Note::new(11));
    assert_eq!(Note::new(24).disregard_octave(), Note::new(0));
}
