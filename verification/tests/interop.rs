//! The codec against serde_json: what the library writes is ordinary
//! JSON, in the same pretty format, and what serde_json writes for the
//! same data is read back by the library.
use serde_json::{Number, Value};
use volunteer_log::encode::encode_entries;
use volunteer_log::entry::VolunteerEntry;
use volunteer_log::parse::decode_entries;

fn entry(id: &str, place: &str, date: &str, hours: &str, notes: &str) -> VolunteerEntry {
    VolunteerEntry {
        id: id.to_string(),
        place: place.to_string(),
        date: date.to_string(),
        hours: hours.to_string(),
        notes: notes.to_string(),
    }
}

fn value_of(e: &VolunteerEntry) -> Value {
    let mut m = serde_json::Map::new();
    m.insert("id".to_string(), Value::String(e.id.clone()));
    m.insert("place".to_string(), Value::String(e.place.clone()));
    m.insert("date".to_string(), Value::String(e.date.clone()));
    let n: Number = e.hours.parse().expect("hours token is a JSON number");
    m.insert("hours".to_string(), Value::Number(n));
    m.insert("notes".to_string(), Value::String(e.notes.clone()));
    Value::Object(m)
}

#[test]
fn encoder_output_is_json_serde_can_read() {
    let entries = vec![
        entry("a-1", "Community \"Food\" Bank", "2024-03-15", "3.5", "Sorted\ndonations"),
        entry("b-2", "Shelter", "2024-03-16", "2", ""),
    ];
    let text = encode_entries(&entries);
    let v: Value = serde_json::from_str(&text).expect("library output must be valid JSON");
    let arr = v.as_array().expect("top level is an array");
    assert_eq!(arr.len(), 2);
    assert_eq!(arr[0]["id"], "a-1");
    assert_eq!(arr[0]["place"], "Community \"Food\" Bank");
    assert_eq!(arr[0]["hours"].as_f64(), Some(3.5));
    assert_eq!(arr[0]["notes"], "Sorted\ndonations");
    assert_eq!(arr[1]["hours"].as_f64(), Some(2.0));
}

#[test]
fn encoder_agrees_with_serde_values() {
    // serde_json's Value sorts object members, while the store keeps the
    // record's field order, so the comparison is structural: same
    // members, same values
    let entries = vec![
        entry("a-1", "Library", "2024-01-10", "2.5", "Books"),
        entry("b-2", "Park", "2024-01-11", "4", "Trails \u{1f333}"),
    ];
    let text = encode_entries(&entries);
    let parsed: Value = serde_json::from_str(&text).expect("library output must be valid JSON");
    let values: Vec<Value> = entries.iter().map(value_of).collect();
    assert_eq!(parsed, Value::Array(values));

    let empty: Vec<VolunteerEntry> = Vec::new();
    let none: Vec<Value> = Vec::new();
    assert_eq!(
        encode_entries(&empty),
        serde_json::to_string_pretty(&Value::Array(none)).unwrap()
    );
}

#[test]
fn decoder_reads_serde_escapes() {
    // a document serde_json would produce for these values, with the
    // members in the record's field order
    let quoted = serde_json::to_string(&Value::String("quote \" and slash \\\ttab".to_string()))
        .unwrap();
    let text = format!(
        "[\n  {{\n    \"id\": \"a-1\",\n    \"place\": {quoted},\n    \"date\": \"d\",\n    \"hours\": -0.25,\n    \"notes\": \"\"\n  }}\n]"
    );
    let back = decode_entries(&text).expect("the document must parse");
    assert_eq!(back, vec![entry("a-1", "quote \" and slash \\\ttab", "d", "-0.25", "")]);
}
