use note_store::note::ScanError;
use note_store::scan::{is_note_file, scan, RawDocument};

fn doc(name: &str, content: &str) -> RawDocument {
    RawDocument { name: name.to_string(), content: content.to_string() }
}

#[test]
fn note_extension_is_exact_and_case_sensitive() {
    assert!(is_note_file("a.markdown"));
    assert!(is_note_file("notes.old.markdown"));
    assert!(!is_note_file("notes.txt"));
    assert!(!is_note_file("amarkdown"));
    assert!(!is_note_file(".markdown"));
    assert!(!is_note_file("a.Markdown"));
    assert!(!is_note_file("a.markdown.bak"));
}

#[test]
fn scan_parses_one_note() {
    let docs = vec![doc("a.markdown", "name: Hello\ndate: 2020-01-01 10:00\n\n# Hi")];
    let notes = scan(&docs).unwrap();
    assert_eq!(notes.len(), 1);
    assert_eq!(notes[0].title, "Hello");
    assert_eq!(notes[0].date, 1577872800);
    assert!(notes[0].content.contains("<h1>Hi</h1>"));
}

#[test]
fn scan_ignores_non_matching_files() {
    let docs = vec![
        doc("notes.txt", "this is not even close to a note"),
        doc("a.markdown", "name: Hello\ndate: 2020-01-01 10:00\n\n# Hi"),
    ];
    let notes = scan(&docs).unwrap();
    assert_eq!(notes.len(), 1);
    assert_eq!(notes[0].title, "Hello");

    let only_other = vec![doc("notes.txt", "no colon\nno separator either")];
    assert!(scan(&only_other).unwrap().is_empty());
}

#[test]
fn scan_sorts_newest_first_and_is_stable() {
    let docs = vec![
        doc("a.markdown", "name: Oldest\ndate: 2019-05-01 08:00\n\nx"),
        doc("b.markdown", "name: TieFirst\ndate: 2020-01-01 10:00\n\nx"),
        doc("c.markdown", "name: Newest\ndate: 2021-07-15 23:59\n\nx"),
        doc("d.markdown", "name: TieSecond\ndate: 2020-01-01 10:00\n\nx"),
    ];
    let notes = scan(&docs).unwrap();
    let titles: Vec<&str> = notes.iter().map(|n| n.title.as_str()).collect();
    assert_eq!(titles, vec!["Newest", "TieFirst", "TieSecond", "Oldest"]);
    for pair in notes.windows(2) {
        assert!(pair[0].date >= pair[1].date);
    }
}

#[test]
fn scan_is_all_or_nothing() {
    let docs = vec![
        doc("a.markdown", "name: Good\n\nx"),
        doc("b.markdown", "no separator in this one"),
    ];
    match scan(&docs) {
        Err(ScanError::NoteFailed { path, .. }) => assert_eq!(path, "b.markdown"),
        _ => panic!("expected NoteFailed"),
    }
}

#[test]
fn empty_listing_scans_to_empty_snapshot() {
    let docs: Vec<RawDocument> = vec![];
    assert!(scan(&docs).unwrap().is_empty());
}
