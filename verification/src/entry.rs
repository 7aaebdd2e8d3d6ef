//! The volunteer-activity record and its mathematical view.
use vstd::prelude::*;
use crate::number::is_number_token;

verus! {

/// One volunteer-activity record.
///
/// `hours` is carried as the literal JSON number token (for example
/// `"3.5"`): the codec writes it into the file verbatim and reads it
/// back unchanged, so no numeric precision is lost in a round trip.
/// The surrounding application converts between that token and its
/// numeric type at the boundary.
#[derive(Clone, Debug, PartialEq)]
pub struct VolunteerEntry {
    pub id: String,
    pub place: String,
    pub date: String,
    pub hours: String,
    pub notes: String,
}

/// The view of an entry: its five fields as character sequences.
pub struct EntryView {
    pub id: Seq<char>,
    pub place: Seq<char>,
    pub date: Seq<char>,
    pub hours: Seq<char>,
    pub notes: Seq<char>,
}

impl View for VolunteerEntry {
    type V = EntryView;

    open spec fn view(&self) -> EntryView {
        EntryView {
            id: self.id@,
            place: self.place@,
            date: self.date@,
            hours: self.hours@,
            notes: self.notes@,
        }
    }
}

/// The views of a sequence of entries.
pub open spec fn views(s: Seq<VolunteerEntry>) -> Seq<EntryView> {
    s.map_values(|e: VolunteerEntry| e@)
}

/// An entry is well formed when its `hours` field is a JSON number
/// token; only then can it be written to the file and read back.
pub open spec fn wf_entry(e: EntryView) -> bool {
    is_number_token(e.hours)
}

/// Every entry of the collection is well formed.
pub open spec fn wf_entries(vs: Seq<EntryView>) -> bool {
    forall|i: int| 0 <= i < vs.len() ==> wf_entry(#[trigger] vs[i])
}

/// All identifiers in the collection are pairwise distinct.
pub open spec fn unique_ids(vs: Seq<EntryView>) -> bool {
    forall|i: int, j: int|
        0 <= i < vs.len() && 0 <= j < vs.len() && i != j ==> vs[i].id != vs[j].id
}

/// Some entry of the collection carries the identifier `id`.
pub open spec fn has_id(vs: Seq<EntryView>, id: Seq<char>) -> bool {
    exists|i: int| 0 <= i < vs.len() && vs[i].id == id
}

} // verus!
