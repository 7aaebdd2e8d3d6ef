use volunteer_log::encode::encode_entries;
use volunteer_log::entry::VolunteerEntry;
use volunteer_log::number::check_number_token;
use volunteer_log::parse::decode_entries;
use volunteer_log::store::get_entries;

fn entry(id: &str, place: &str, date: &str, hours: &str, notes: &str) -> VolunteerEntry {
    VolunteerEntry {
        id: id.to_string(),
        place: place.to_string(),
        date: date.to_string(),
        hours: hours.to_string(),
        notes: notes.to_string(),
    }
}

#[test]
fn round_trip_empty_collection() {
    let entries: Vec<VolunteerEntry> = Vec::new();
    let text = encode_entries(&entries);
    assert_eq!(text, "[]");
    let back = decode_entries(&text).expect("empty document must parse");
    assert_eq!(back.len(), 0);
}

#[test]
fn round_trip_one_entry() {
    let entries = vec![entry(
        "17a2f0c9b3d4e5-1a2b3c4d",
        "Community Food Bank",
        "2024-03-15",
        "3.5",
        "Sorted donations",
    )];
    let text = encode_entries(&entries);
    let back = decode_entries(&text).expect("document must parse");
    assert_eq!(back, entries);
}

#[test]
fn round_trip_many_entries_preserves_order() {
    let entries = vec![
        entry("a-1", "Library", "2024-01-10", "2", "Shelved books"),
        entry("b-2", "Shelter", "2024-01-11", "4.25", "Meals"),
        entry("c-3", "Park", "2024-01-12", "-1e2", ""),
    ];
    let text = encode_entries(&entries);
    let back = decode_entries(&text).expect("document must parse");
    assert_eq!(back, entries);
}

#[test]
fn round_trip_escaped_characters() {
    let entries = vec![entry(
        "x-1",
        "A \"quoted\" place \\ with backslash",
        "2024-02-29",
        "0.5",
        "line one\nline two\ttabbed\r\u{08}\u{0c}\u{01}\u{1f} caf\u{e9} \u{1f600}",
    )];
    let text = encode_entries(&entries);
    let back = decode_entries(&text).expect("document must parse");
    assert_eq!(back, entries);
}

#[test]
fn exact_document_shape() {
    let entries = vec![entry("a-1", "Library", "2024-01-10", "2.5", "Books")];
    let text = encode_entries(&entries);
    let expected = "[\n  {\n    \"id\": \"a-1\",\n    \"place\": \"Library\",\n    \"date\": \"2024-01-10\",\n    \"hours\": 2.5,\n    \"notes\": \"Books\"\n  }\n]";
    assert_eq!(text, expected);
}

#[test]
fn parser_accepts_extra_whitespace() {
    let text = "  [ \n {\n\"id\" : \"a-1\" ,\n \"place\": \"L\", \"date\": \"d\", \"hours\" :\n 2 , \"notes\": \"n\" } \n ]  ";
    let back = decode_entries(text).expect("whitespace must be tolerated");
    assert_eq!(back, vec![entry("a-1", "L", "d", "2", "n")]);
}

#[test]
fn parser_rejects_malformed_documents() {
    assert!(decode_entries("").is_none());
    assert!(decode_entries("{").is_none());
    assert!(decode_entries("[").is_none());
    assert!(decode_entries("[]x").is_none());
    assert!(decode_entries("[{}]").is_none());
    assert!(decode_entries("[{\"id\": \"a\"}]").is_none());
    // members out of order
    assert!(decode_entries(
        "[{\"place\": \"L\", \"id\": \"a\", \"date\": \"d\", \"hours\": 1, \"notes\": \"n\"}]"
    )
    .is_none());
    // bad number token
    assert!(decode_entries(
        "[{\"id\": \"a\", \"place\": \"L\", \"date\": \"d\", \"hours\": 01, \"notes\": \"n\"}]"
    )
    .is_none());
    // unterminated string
    assert!(decode_entries(
        "[{\"id\": \"a\", \"place\": \"L\", \"date\": \"d\", \"hours\": 1, \"notes\": \"n]"
    )
    .is_none());
    // unknown escape
    assert!(decode_entries(
        "[{\"id\": \"a\\q\", \"place\": \"L\", \"date\": \"d\", \"hours\": 1, \"notes\": \"n\"}]"
    )
    .is_none());
    // trailing comma
    assert!(decode_entries(
        "[{\"id\": \"a\", \"place\": \"L\", \"date\": \"d\", \"hours\": 1, \"notes\": \"n\"},]"
    )
    .is_none());
}

#[test]
fn parser_reads_unicode_escapes() {
    let text =
        "[{\"id\": \"a\", \"place\": \"L\\u0009M\", \"date\": \"d\", \"hours\": 1, \"notes\": \"\\\"\\\\\\/\\b\\f\\n\\r\\t\"}]";
    let back = decode_entries(text).expect("escapes must parse");
    assert_eq!(back[0].place, "L\tM");
    assert_eq!(back[0].notes, "\"\\/\u{08}\u{0c}\n\r\t");
}

#[test]
fn number_token_grammar() {
    for good in [
        "0", "-0", "1", "-1", "3.5", "-3.5", "10.25", "2", "1e5", "1E5", "1e+5", "1e-5",
        "0.5", "-0.125", "123456789", "1.5e300",
    ] {
        assert!(check_number_token(good), "{good} should be a number token");
    }
    for bad in [
        "", "-", "+1", "01", "1.", ".5", "1e", "1e+", "--1", "1.2.3", "NaN", "inf", "0x10",
        " 1", "1 ",
    ] {
        assert!(!check_number_token(bad), "{bad} should not be a number token");
    }
}

#[test]
fn load_recovers_from_missing_or_malformed_file() {
    assert_eq!(get_entries(None).len(), 0);
    assert_eq!(get_entries(Some("not json at all")).len(), 0);
    assert_eq!(get_entries(Some("[{\"id\":")).len(), 0);
    let good = "[\n  {\n    \"id\": \"a-1\",\n    \"place\": \"L\",\n    \"date\": \"d\",\n    \"hours\": 1,\n    \"notes\": \"n\"\n  }\n]";
    let loaded = get_entries(Some(good));
    assert_eq!(loaded, vec![entry("a-1", "L", "d", "1", "n")]);
}
