use note_store::note::ParseError;
use note_store::parse::parse_note;

#[test]
fn title_is_trimmed_name_value() {
    let note = parse_note("name:   Hello, world!  \n\nbody").unwrap();
    assert_eq!(note.title, "Hello, world!");
    assert_eq!(note.date, 0);
}

#[test]
fn later_name_line_wins() {
    let note = parse_note("name: First\nname: Second\n\nbody").unwrap();
    assert_eq!(note.title, "Second");
}

#[test]
fn missing_separator_is_rejected() {
    let r = parse_note("name: Hello");
    assert!(matches!(r, Err(ParseError::MissingSeparator)));
    let r = parse_note("name: Hello\nbody on next line");
    assert!(matches!(r, Err(ParseError::MissingSeparator)));
}

#[test]
fn header_line_without_colon_is_rejected() {
    match parse_note("name: Hello\nno colon here\n\nbody") {
        Err(ParseError::MalformedHeaderLine(line)) => assert_eq!(line, "no colon here"),
        other => panic!("expected MalformedHeaderLine, got {:?}", other.is_ok()),
    }
}

#[test]
fn empty_header_is_one_malformed_line() {
    match parse_note("\n\nbody") {
        Err(ParseError::MalformedHeaderLine(line)) => assert_eq!(line, ""),
        _ => panic!("expected MalformedHeaderLine"),
    }
}

#[test]
fn unknown_header_key_is_rejected() {
    match parse_note("author: someone\n\nbody") {
        Err(ParseError::UnknownHeaderKey(key)) => assert_eq!(key, "author"),
        _ => panic!("expected UnknownHeaderKey"),
    }
}

#[test]
fn date_is_epoch_seconds() {
    let note = parse_note("name: X\ndate: 2020-01-01 10:00\n\nbody").unwrap();
    assert_eq!(note.date, 1577872800);
    let note = parse_note("date: 1970-01-01 00:01\n\nbody").unwrap();
    assert_eq!(note.date, 60);
}

#[test]
fn bad_date_is_rejected() {
    match parse_note("date: yesterday\n\nbody") {
        Err(ParseError::InvalidDate(v)) => assert_eq!(v, "yesterday"),
        _ => panic!("expected InvalidDate"),
    }
}

#[test]
fn body_is_rendered_to_html() {
    let note = parse_note("name: Hello\n\n# Hi").unwrap();
    assert!(note.content.contains("<h1>Hi</h1>"));
    assert!(!note.content.contains("# Hi"));
}

#[test]
fn whitespace_around_value_is_trimmed() {
    let note = parse_note("name:\t Tabbed \t\n\nx").unwrap();
    assert_eq!(note.title, "Tabbed");
    let note = parse_note("name:NoSpace\n\nx").unwrap();
    assert_eq!(note.title, "NoSpace");
}
