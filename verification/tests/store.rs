use volunteer_log::encode::encode_entries;
use volunteer_log::entry::VolunteerEntry;
use volunteer_log::parse::decode_entries;
use volunteer_log::store::{add_entry, delete_entry, get_entries, rand_u32, update_entry, uuid_v4};

fn s(x: &str) -> String {
    x.to_string()
}

#[test]
fn add_increases_count_and_appends() {
    let empty: Vec<VolunteerEntry> = Vec::new();
    let one = add_entry(empty, s("Library"), s("2024-01-10"), s("2"), s("Shelved books"));
    assert_eq!(one.len(), 1);
    assert_eq!(one[0].place, "Library");
    assert_eq!(one[0].date, "2024-01-10");
    assert_eq!(one[0].hours, "2");
    assert_eq!(one[0].notes, "Shelved books");
    let first = one[0].clone();
    let two = add_entry(one, s("Shelter"), s("2024-01-11"), s("4.5"), s(""));
    assert_eq!(two.len(), 2);
    assert_eq!(two[0], first, "prior entries stay in place");
    assert_eq!(two[1].place, "Shelter");
    assert_ne!(two[1].id, two[0].id, "the new id is distinct from prior ids");
}

#[test]
fn ids_distinct_after_many_adds() {
    let mut entries: Vec<VolunteerEntry> = Vec::new();
    for k in 0..12 {
        entries = add_entry(entries, format!("place {k}"), s("2024-01-01"), s("1"), s(""));
    }
    assert_eq!(entries.len(), 12);
    for a in 0..entries.len() {
        for b in 0..entries.len() {
            if a != b {
                assert_ne!(entries[a].id, entries[b].id);
            }
        }
    }
}

#[test]
fn delete_removes_the_matching_entry() {
    let entries = add_entry(Vec::new(), s("A"), s("d1"), s("1"), s(""));
    let entries = add_entry(entries, s("B"), s("d2"), s("2"), s(""));
    let doomed = entries[0].id.clone();
    let kept = entries[1].clone();
    let after = delete_entry(entries, &doomed);
    assert_eq!(after, vec![kept]);
}

#[test]
fn delete_of_missing_id_changes_nothing() {
    let entries = add_entry(Vec::new(), s("A"), s("d1"), s("1"), s(""));
    let before = entries.clone();
    let after = delete_entry(entries, &s("no-such-id"));
    assert_eq!(after, before);
}

#[test]
fn delete_twice_equals_delete_once() {
    let entries = add_entry(Vec::new(), s("A"), s("d1"), s("1"), s(""));
    let entries = add_entry(entries, s("B"), s("d2"), s("2"), s(""));
    let id = entries[0].id.clone();
    let once = delete_entry(entries.clone(), &id);
    let twice = delete_entry(delete_entry(entries, &id), &id);
    assert_eq!(once, twice);
}

#[test]
fn update_of_missing_id_changes_nothing() {
    let entries = add_entry(Vec::new(), s("A"), s("d1"), s("1"), s("n1"));
    let before = entries.clone();
    let after = update_entry(entries, &s("no-such-id"), s("X"), s("dX"), s("9"), s("nX"));
    assert_eq!(after, before);
}

#[test]
fn update_mutates_exactly_one_entry() {
    let entries = add_entry(Vec::new(), s("A"), s("d1"), s("1"), s("n1"));
    let entries = add_entry(entries, s("B"), s("d2"), s("2"), s("n2"));
    let target = entries[0].id.clone();
    let untouched = entries[1].clone();
    let after = update_entry(entries, &target, s("A2"), s("d9"), s("7.5"), s("edited"));
    assert_eq!(after.len(), 2);
    assert_eq!(after[0].id, target, "the id never changes");
    assert_eq!(after[0].place, "A2");
    assert_eq!(after[0].date, "d9");
    assert_eq!(after[0].hours, "7.5");
    assert_eq!(after[0].notes, "edited");
    assert_eq!(after[1], untouched, "the other entry is untouched");
}

#[test]
fn end_to_end_scenario() {
    // start with the empty collection, persisting after every step as
    // the store does
    let entries = get_entries(None);
    assert_eq!(entries.len(), 0);

    let entries = add_entry(entries, s("Library"), s("2024-01-10"), s("2.0"), s("Shelved books"));
    let saved = encode_entries(&entries);
    let entries = get_entries(Some(&saved));
    assert_eq!(entries.len(), 1);
    assert_eq!(entries[0].place, "Library");
    assert_eq!(entries[0].date, "2024-01-10");
    assert_eq!(entries[0].hours, "2.0");
    assert_eq!(entries[0].notes, "Shelved books");
    let id = entries[0].id.clone();

    let entries = update_entry(
        entries,
        &id,
        s("Library"),
        s("2024-01-11"),
        s("2.5"),
        s("Shelved books, sorted"),
    );
    let saved = encode_entries(&entries);
    let entries = get_entries(Some(&saved));
    assert_eq!(entries.len(), 1);
    assert_eq!(entries[0].id, id, "same id after update");
    assert_eq!(entries[0].date, "2024-01-11");
    assert_eq!(entries[0].hours, "2.5");
    assert_eq!(entries[0].notes, "Shelved books, sorted");

    let entries = delete_entry(entries, &id);
    let saved = encode_entries(&entries);
    let entries = get_entries(Some(&saved));
    assert_eq!(entries.len(), 0, "collection empty again");
}

#[test]
fn uuid_has_two_hex_parts() {
    let id = uuid_v4();
    let parts: Vec<&str> = id.split('-').collect();
    assert_eq!(parts.len(), 2, "one dash: {id}");
    for part in parts {
        assert!(!part.is_empty());
        assert!(part
            .chars()
            .all(|c| c.is_ascii_digit() || ('a'..='f').contains(&c)));
    }
}

#[test]
fn uuid_values_differ_between_calls() {
    let a = uuid_v4();
    let b = uuid_v4();
    let c = uuid_v4();
    assert!(a != b || b != c, "three identical generated ids: {a}");
}

#[test]
fn rand_u32_runs() {
    // nothing is promised of the value; draw a few without panicking
    let _ = rand_u32();
    let _ = rand_u32();
    let _ = rand_u32();
}
