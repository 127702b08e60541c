use gitar::find_report;
use gitar::standard_tuning;
use gitar::FretDiagram;
use gitar::FretboardLocation;
use gitar::Guitar;
use gitar::GuitarString;
use gitar::Note;
use gitar::Size;

const EMPTY_SMALL: &str = "______  \n|||||| 1\n|||||| 2\n|||||| 3\n|||||| 4\n|||||| 5\n";
const EMPTY_MEDIUM: &str = "______\n------\n||||||  1\n------\n||||||  2\n------\n||||||  3\n------\n||||||  4\n------\n||||||  5\n------\n";
const EMPTY_LARGE: &str = "_|_|_|_|_|_|_\n-|-|-|-|-|-|-\n | | | | | | \n | | | | | |  1\n |-|-|-|-|-| \n | | | | | | \n | | | | | |  2\n |-|-|-|-|-| \n | | | | | | \n | | | | | |  3\n |-|-|-|-|-| \n | | | | | | \n | | | | | |  4\n |-|-|-|-|-| \n | | | | | | \n | | | | | |  5\n |-|-|-|-|-| \n";

#[test]
fn standard_tuning_is_e2_a2_d3_g3_b3_e4() {
    let tuning = standard_tuning();
    let expected = vec![
        Note::parse("E2").unwrap(),
        Note::parse("A2").unwrap(),
        Note::parse("D3").unwrap(),
        Note::parse("G3").unwrap(),
        Note::parse("B3").unwrap(),
        Note::parse("E4").unwrap(),
    ];
    assert_eq!(tuning, expected);
    assert_eq!(tuning[0], Note::new(28));
    assert_eq!(tuning[5], Note::new(52));
}

#[test]
fn guitar_string_frets_rise_from_the_open_pitch() {
    let string = GuitarString::new(Note::new(4), 3);
    assert_eq!(
        string.frets,
        vec![Note::new(4), Note::new(5), Note::new(6), Note::new(7)]
    );
}

#[test]
fn standard_guitar_locates_e4() {
    let guitar = Guitar::new(21, standard_tuning());
    let locations = guitar.locations(Note::parse("E4").unwrap());
    let expected = vec![
        FretboardLocation::new(1, 0),
        FretboardLocation::new(2, 5),
        FretboardLocation::new(3, 9),
        FretboardLocation::new(4, 14),
        FretboardLocation::new(5, 19),
    ];
    assert_eq!(locations, expected);
    assert!(locations.contains(&FretboardLocation::new(1, 0)));
    assert!(!locations.contains(&FretboardLocation::new(2, 12)));
}

#[test]
fn standard_guitar_string_pitches_at_key_frets() {
    let guitar = Guitar::new(21, standard_tuning());
    // string 6 (internal index 5) is the low E2 string
    let low_e = &guitar.strings[5];
    assert_eq!(low_e.frets[0], Note::parse("E2").unwrap());
    assert_eq!(low_e.frets[12], Note::parse("E3").unwrap());
    assert!(!low_e.frets.contains(&Note::parse("E4").unwrap()));
    // string 1 (internal index 0) is the high E4 string
    let high_e = &guitar.strings[0];
    assert_eq!(high_e.frets[0], Note::parse("E4").unwrap());
    assert_eq!(high_e.frets[12], Note::parse("E5").unwrap());
}

#[test]
fn empty_tuning_yields_no_locations() {
    let guitar = Guitar::new(21, vec![]);
    assert_eq!(guitar.locations(Note::new(40)), vec![]);
}

#[test]
fn out_of_range_pitches_yield_no_locations() {
    let guitar = Guitar::new(21, standard_tuning());
    // below the lowest open pitch
    assert_eq!(guitar.locations(Note::new(27)), vec![]);
    // above the highest fretted pitch (E4 is 52, plus 21 frets is 73)
    assert_eq!(guitar.locations(Note::new(74)), vec![]);
}

#[test]
fn location_display() {
    assert_eq!(FretboardLocation::new(2, 3).format(), "String 2, fret 3");
    assert_eq!(FretboardLocation::new(4, 0).format(), "Open 4 string");
}

#[test]
fn one_location_small_diagram() {
    let diagram = FretDiagram::new(vec![FretboardLocation::new(1, 3)], Size::Small);
    assert_eq!(
        diagram.render(),
        "______  \n|||||| 1\n|||||| 2\n|||||* 3\n|||||| 4\n|||||| 5\n"
    );
}

#[test]
fn one_location_medium_diagram() {
    let diagram = FretDiagram::new(vec![FretboardLocation::new(1, 3)], Size::Medium);
    assert_eq!(
        diagram.render(),
        "______\n------\n||||||  1\n------\n||||||  2\n------\n|||||*  3\n------\n||||||  4\n------\n||||||  5\n------\n"
    );
}

#[test]
fn one_location_large_diagram() {
    let diagram = FretDiagram::new(vec![FretboardLocation::new(1, 3)], Size::Large);
    assert_eq!(
        diagram.render(),
        "_|_|_|_|_|_|_\n-|-|-|-|-|-|-\n | | | | | | \n | | | | | |  1\n |-|-|-|-|-| \n | | | | | | \n | | | | | |  2\n |-|-|-|-|-| \n | | | | | | \n | | | | | *  3\n |-|-|-|-|-| \n | | | | | | \n | | | | | |  4\n |-|-|-|-|-| \n | | | | | | \n | | | | | |  5\n |-|-|-|-|-| \n"
    );
}

#[test]
fn empty_locations_render_five_unmarked_rows_in_all_sizes() {
    assert_eq!(FretDiagram::new(vec![], Size::Small).render(), EMPTY_SMALL);
    assert_eq!(FretDiagram::new(vec![], Size::Medium).render(), EMPTY_MEDIUM);
    assert_eq!(FretDiagram::new(vec![], Size::Large).render(), EMPTY_LARGE);
}

#[test]
fn rendering_is_deterministic() {
    let locations = vec![
        FretboardLocation::new(1, 0),
        FretboardLocation::new(2, 5),
        FretboardLocation::new(3, 9),
    ];
    for size in [Size::Small, Size::Medium, Size::Large] {
        let a = FretDiagram::new(locations.clone(), size).render();
        let b = FretDiagram::new(locations.clone(), size).render();
        assert_eq!(a, b);
    }
}

#[test]
fn renderer_ignores_strings_outside_the_six() {
    let diagram = FretDiagram::new(vec![FretboardLocation::new(7, 2)], Size::Small);
    assert_eq!(diagram.render(), EMPTY_SMALL);
}

#[test]
fn renderer_does_not_draw_open_strings() {
    let diagram = FretDiagram::new(vec![FretboardLocation::new(1, 0)], Size::Small);
    assert_eq!(diagram.render(), EMPTY_SMALL);
}

#[test]
fn diagram_extends_past_five_frets_when_needed() {
    let diagram = FretDiagram::new(vec![FretboardLocation::new(6, 7)], Size::Small);
    assert_eq!(
        diagram.render(),
        "______  \n|||||| 1\n|||||| 2\n|||||| 3\n|||||| 4\n|||||| 5\n|||||| 6\n*||||| 7\n"
    );
}

#[test]
fn find_report_prints_the_small_diagram_for_a_present_note() {
    let note = Note::parse("E4").unwrap();
    let report = find_report(note, 21, standard_tuning());
    let locations = Guitar::new(21, standard_tuning()).locations(note);
    let mut expected = FretDiagram::new(locations, Size::Small).render();
    expected.push('\n');
    assert_eq!(report, expected);
}

#[test]
fn find_report_on_an_absent_note_names_no_occurrences() {
    let report = find_report(Note::parse("C0").unwrap(), 21, standard_tuning());
    assert_eq!(report, "No occurences.\n");
}
