//! The four collection operations of the store, and the identifier
//! generator. Each operation works on a loaded collection and returns
//! the collection to persist; the surrounding application reads the
//! backing file before and writes it back after.
use vstd::prelude::*;
use vstd::assert_seqs_equal;
use vstd::string::StringExecFns;
use std::collections::hash_map::RandomState;
use std::hash::{BuildHasher, Hasher};
use std::time::{SystemTime, UNIX_EPOCH};
use crate::entry::{VolunteerEntry, EntryView, views, wf_entries, unique_ids, has_id};
use crate::hex::{hex_seq, push_hex_u128};
use crate::number::is_number_token;
use crate::parse::{parse_entries, lemma_parse_entries_wf};
use crate::strutil::chars_to_string;

verus! {

/// Relies on `std::time::SystemTime::now` and
/// `Duration::as_nanos`: the nanoseconds since the Unix epoch, or 0 on
/// a clock that stands before it. Nothing can be promised of a clock
/// reading.
#[verifier::external_body]
fn nanos_now() -> u128 {
    SystemTime::now().duration_since(UNIX_EPOCH).map(|d| d.as_nanos()).unwrap_or(0)
}

/// Relies on `RandomState::new().build_hasher().finish()`: a hasher
/// seeded at random by the process, read out as 64 bits. Nothing can be
/// promised of a random value.
#[verifier::external_body]
fn random_seed() -> u64 {
    RandomState::new().build_hasher().finish()
}

/// A pseudo-random 32-bit value drawn from a freshly seeded hasher.
pub fn rand_u32() -> u32 {
    let s = random_seed();
    (s % 0x1_0000_0000u64) as u32
}

/// An identifier has the shape the generator produces: a hexadecimal
/// timestamp and a hexadecimal 32-bit value, joined by a dash.
pub open spec fn is_id_form(s: Seq<char>) -> bool {
    exists|t: nat, x: nat| x < 0x1_0000_0000 && s == hex_seq(t) + seq!['-'] + hex_seq(x)
}

/// A fresh identifier: a nanosecond timestamp and a pseudo-random
/// value, both in lowercase hexadecimal, joined by a dash.
pub fn uuid_v4() -> (r: String)
    ensures
        is_id_form(r@),
{
    let t = nanos_now();
    let x = rand_u32();
    let mut v: Vec<char> = Vec::new();
    push_hex_u128(t, &mut v);
    v.push('-');
    push_hex_u128(x as u128, &mut v);
    proof {
        assert(v@ =~= hex_seq(t as nat) + seq!['-'] + hex_seq(x as nat));
        assert((x as nat) < 0x1_0000_0000);
    }
    chars_to_string(&v)
}

/// Whether some entry carries the identifier `id`.
fn contains_id(entries: &Vec<VolunteerEntry>, id: &String) -> (b: bool)
    ensures
        b == has_id(views(entries@), id@),
{
    let mut i: usize = 0;
    while i < entries.len()
        invariant
            0 <= i <= entries@.len(),
            forall|k: int| 0 <= k < i ==> views(entries@)[k].id != id@,
        decreases entries@.len() - i,
    {
        if entries[i].id == *id {
            proof {
                assert(views(entries@)[i as int].id == id@);
            }
            return true;
        }
        i = i + 1;
    }
    false
}

/// An identifier carried by no entry of the collection: a generated
/// identifier and, should it collide with an existing one, that
/// identifier extended until it is longer than every identifier in use.
fn fresh_id(entries: &Vec<VolunteerEntry>) -> (id: String)
    ensures
        !has_id(views(entries@), id@),
{
    let id = uuid_v4();
    if !contains_id(entries, &id) {
        return id;
    }
    let mut maxlen: usize = 0;
    let mut k: usize = 0;
    while k < entries.len()
        invariant
            0 <= k <= entries@.len(),
            forall|m: int| 0 <= m < k ==> views(entries@)[m].id.len() <= maxlen,
        decreases entries@.len() - k,
    {
        let l = entries[k].id.as_str().unicode_len();
        if l > maxlen {
            maxlen = l;
        }
        k = k + 1;
    }
    let mut id2 = id;
    while id2.as_str().unicode_len() <= maxlen
        invariant
            true,
        decreases maxlen + 1 - id2@.len(),
    {
        proof {
            reveal_strlit("0");
        }
        id2.append("0");
    }
    proof {
        assert forall|m: int| 0 <= m < views(entries@).len() implies views(entries@)[m].id
            != id2@ by {
            assert(views(entries@)[m].id.len() <= maxlen);
        }
    }
    id2
}

/// The collection a load yields: the parsed entries when the text is a
/// well-formed document, and the empty collection when the file is
/// missing (`None`) or malformed. A load never fails outward.
pub fn get_entries(data: Option<&str>) -> (r: Vec<VolunteerEntry>)
    ensures
        match data {
            Option::Some(s) => match parse_entries(s@) {
                Option::Some(vs) => views(r@) == vs,
                Option::None => r@.len() == 0,
            },
            Option::None => r@.len() == 0,
        },
        wf_entries(views(r@)),
{
    match data {
        Option::None => Vec::new(),
        Option::Some(s) => match crate::parse::decode_entries(s) {
            Option::None => Vec::new(),
            Option::Some(es) => {
                proof {
                    lemma_parse_entries_wf(s@);
                }
                es
            },
        },
    }
}

/// Appends a new entry built from the four fields under a fresh
/// identifier: the collection grows by exactly one, every prior entry
/// is unchanged in place, the new entry is last and carries the given
/// fields, its identifier is distinct from every prior identifier, and
/// pairwise-distinct identifiers stay pairwise distinct.
pub fn add_entry(
    entries: Vec<VolunteerEntry>,
    place: String,
    date: String,
    hours: String,
    notes: String,
) -> (r: Vec<VolunteerEntry>)
    requires
        is_number_token(hours@),
    ensures
        r@.len() == entries@.len() + 1,
        forall|i: int| 0 <= i < entries@.len() ==> r@[i] == entries@[i],
        r@.last()@.place == place@,
        r@.last()@.date == date@,
        r@.last()@.hours == hours@,
        r@.last()@.notes == notes@,
        !has_id(views(entries@), r@.last()@.id),
        unique_ids(views(entries@)) ==> unique_ids(views(r@)),
        wf_entries(views(entries@)) ==> wf_entries(views(r@)),
{
    let id = fresh_id(&entries);
    let e = VolunteerEntry { id, place, date, hours, notes };
    let mut r = entries;
    r.push(e);
    proof {
        let vs = views(entries@);
        let rv = views(r@);
        assert(forall|i: int| 0 <= i < vs.len() ==> rv[i] == vs[i]);
        assert(rv.last() == r@.last()@);
        assert(unique_ids(vs) ==> unique_ids(rv)) by {
            if unique_ids(vs) {
                assert forall|i: int, j: int|
                    0 <= i < rv.len() && 0 <= j < rv.len() && i != j implies rv[i].id
                    != rv[j].id by {
                    if i < vs.len() && j < vs.len() {
                    } else if i < vs.len() {
                        assert(rv[j].id == r@.last()@.id);
                    } else {
                        assert(rv[i].id == r@.last()@.id);
                    }
                }
            }
        }
    }
    r
}

/// The predicate that keeps every entry whose identifier is not `id`.
pub open spec fn others(id: Seq<char>) -> spec_fn(EntryView) -> bool {
    |e: EntryView| e.id != id
}

/// Removes every entry whose identifier equals `id`, keeping the order
/// of the rest; on a collection without that identifier this returns
/// the collection unchanged, so a second identical delete changes
/// nothing further.
pub fn delete_entry(entries: Vec<VolunteerEntry>, id: &String) -> (r: Vec<VolunteerEntry>)
    ensures
        views(r@) == views(entries@).filter(others(id@)),
        wf_entries(views(entries@)) ==> wf_entries(views(r@)),
        unique_ids(views(entries@)) ==> unique_ids(views(r@)),
{
    let ghost vs = views(entries@);
    let mut rest = entries;
    let mut out: Vec<VolunteerEntry> = Vec::new();
    let ghost n = vs.len();
    proof {
        assert(vs.take(0).filter(others(id@)) =~= Seq::<EntryView>::empty());
        assert(views(out@) =~= Seq::<EntryView>::empty());
    }
    let ghost mut i: int = 0;
    while rest.len() > 0
        invariant
            vs == views(entries@),
            0 <= i <= n,
            n == vs.len(),
            rest@ == entries@.skip(i),
            views(out@) == vs.take(i).filter(others(id@)),
            rest@.len() == n - i,
        decreases rest@.len(),
    {
        let e = rest.remove(0);
        proof {
            reveal(Seq::filter);
            assert(e == entries@[i]);
            assert(rest@ =~= entries@.skip(i + 1));
            let t = vs.take(i + 1);
            assert(t.drop_last() =~= vs.take(i));
            assert(t.last() == vs[i]);
            assert(vs[i] == e@);
        }
        if e.id == *id {
            proof {
                reveal(Seq::filter);
                assert(e@.id == id@);
                assert(others(id@)(e@) == (e@.id != id@));
                assert(!others(id@)(e@));
                let t = vs.take(i + 1);
                assert(t.drop_last() =~= vs.take(i));
                assert(t.last() == e@);
                assert(t.filter(others(id@)) == vs.take(i).filter(others(id@)));
            }
        } else {
            let ghost prev = out@;
            out.push(e);
            proof {
                reveal(Seq::filter);
                assert(out@ == prev.push(e));
                assert(views(out@).len() == prev.len() + 1);
                assert(forall|m: int| 0 <= m < prev.len() ==> views(out@)[m] == #[trigger] out@[m]@);
                assert(forall|m: int| 0 <= m < prev.len() ==> views(prev)[m] == #[trigger] prev[m]@);
                assert(views(out@)[prev.len() as int] == e@);
                assert(views(out@) =~= views(prev).push(e@));
                assert(others(id@)(e@));
                let t = vs.take(i + 1);
                assert(t.drop_last() =~= vs.take(i));
                assert(t.last() == e@);
                assert(t.filter(others(id@)) == vs.take(i).filter(others(id@)).push(e@));
            }
        }
        proof {
            i = i + 1;
        }
    }
    proof {
        assert(vs.take(n as int) =~= vs);
        let f = vs.filter(others(id@));
        assert(wf_entries(vs) ==> wf_entries(views(out@))) by {
            if wf_entries(vs) {
                assert forall|k: int| 0 <= k < f.len() implies crate::entry::wf_entry(
                    #[trigger] f[k],
                ) by {
                    assert(f.contains(f[k])) by {
                        assert(0 <= k < f.len() && f[k] == f[k]);
                    }
                    vs.lemma_filter_contains_rev(others(id@), f[k]);
                    let m = choose|m: int| 0 <= m < vs.len() && vs[m] == f[k];
                    assert(crate::entry::wf_entry(vs[m]));
                }
            }
        }
        assert(unique_ids(vs) ==> unique_ids(views(out@))) by {
            if unique_ids(vs) {
                lemma_filter_unique(vs, others(id@));
            }
        }
    }
    out
}

/// A filtered collection of pairwise-distinct identifiers keeps them
/// pairwise distinct.
proof fn lemma_filter_unique(vs: Seq<EntryView>, pred: spec_fn(EntryView) -> bool)
    requires
        unique_ids(vs),
    ensures
        unique_ids(vs.filter(pred)),
    decreases vs.len(),
{
    reveal(Seq::filter);
    let f = vs.filter(pred);
    if vs.len() > 0 {
        let d = vs.drop_last();
        assert(forall|i: int| 0 <= i < d.len() ==> d[i] == vs[i]);
        assert(unique_ids(d));
        lemma_filter_unique(d, pred);
        let fd = d.filter(pred);
        if pred(vs.last()) {
            assert(f == fd.push(vs.last()));
            assert forall|i: int, j: int|
                0 <= i < f.len() && 0 <= j < f.len() && i != j implies f[i].id != f[j].id by {
                if i < fd.len() && j < fd.len() {
                    assert(f[i] == fd[i] && f[j] == fd[j]);
                } else {
                    let a = if i < fd.len() { i } else { j };
                    assert(f[a] == fd[a]);
                    assert(fd.contains(fd[a])) by {
                        assert(0 <= a < fd.len() && fd[a] == fd[a]);
                    }
                    d.lemma_filter_contains_rev(pred, fd[a]);
                    let m = choose|m: int| 0 <= m < d.len() && d[m] == fd[a];
                    assert(vs[m] == fd[a]);
                    assert(vs[m].id != vs.last().id);
                }
            }
        } else {
            assert(f == fd);
        }
    }
}

/// `k` is the position of the first entry whose identifier is `id`.
pub open spec fn is_first_match(vs: Seq<EntryView>, id: Seq<char>, k: int) -> bool {
    &&& 0 <= k < vs.len()
    &&& vs[k].id == id
    &&& forall|j: int| 0 <= j < k ==> vs[j].id != id
}

/// Overwrites the four mutable fields of the first entry whose
/// identifier is `id`, keeping its identifier and its position; every
/// other entry is unchanged, and a collection without that identifier
/// is returned unchanged.
#[verifier::loop_isolation(false)]
pub fn update_entry(
    entries: Vec<VolunteerEntry>,
    id: &String,
    place: String,
    date: String,
    hours: String,
    notes: String,
) -> (r: Vec<VolunteerEntry>)
    requires
        is_number_token(hours@),
    ensures
        r@.len() == entries@.len(),
        !has_id(views(entries@), id@) ==> r@ == entries@,
        forall|k: int|
            is_first_match(views(entries@), id@, k) ==> views(r@) == views(entries@).update(
                k,
                EntryView {
                    id: id@,
                    place: place@,
                    date: date@,
                    hours: hours@,
                    notes: notes@,
                },
            ),
        wf_entries(views(entries@)) ==> wf_entries(views(r@)),
        unique_ids(views(entries@)) ==> unique_ids(views(r@)),
{
    let ghost vs = views(entries@);
    let ghost place0 = place@;
    let ghost date0 = date@;
    let ghost hours0 = hours@;
    let ghost notes0 = notes@;
    let mut r = entries;
    let mut i: usize = 0;
    while i < r.len()
        invariant
            r@ == entries@,
            vs == views(entries@),
            0 <= i <= vs.len(),
            forall|j: int| 0 <= j < i ==> vs[j].id != id@,
        decreases vs.len() - i,
    {
        if r[i].id == *id {
            proof {
                assert(vs[i as int].id == id@);
            }
            let ghost prev = r@;
            let old_e = r.remove(i);
            let e = VolunteerEntry { id: old_e.id, place, date, hours, notes };
            r.insert(i, e);
            proof {
                let k = i as int;
                assert(is_first_match(vs, id@, k));
                assert forall|k2: int| is_first_match(vs, id@, k2) implies k2 == k by {}
                let upd = EntryView {
                    id: id@,
                    place: place0,
                    date: date0,
                    hours: hours0,
                    notes: notes0,
                };
                assert(r@ == prev.remove(k).insert(k, e));
                prev.remove_ensures(k);
                let rem = prev.remove(k);
                rem.insert_ensures(k, e);
                assert forall|m: int| 0 <= m < prev.len() implies r@[m] == prev.update(k, e)[m] by {
                    if m < k {
                        assert(r@[m] == rem[m]);
                    } else if m == k {
                        assert(r@[m] == e);
                    } else {
                        assert(rem.insert(k, e)[(m - 1) + 1] == rem[m - 1]);
                        assert(rem[m - 1] == prev[m]);
                    }
                }
                assert(r@ =~= prev.update(k, e));
                assert(e@ == upd);
                assert(views(r@).len() == vs.len());
                assert_seqs_equal!(views(r@) == vs.update(k, upd), m => {
                    assert(views(r@)[m] == r@[m]@);
                    if m != k {
                        assert(r@[m] == prev[m]);
                        assert(vs[m] == prev[m]@);
                    }
                });
                assert(crate::entry::wf_entry(upd));
                assert(views(r@) == vs.update(k, upd));
                assert(wf_entries(vs) ==> wf_entries(views(r@))) by {
                    if wf_entries(vs) {
                        assert forall|m: int|
                            0 <= m < views(r@).len() implies crate::entry::wf_entry(
                            #[trigger] views(r@)[m],
                        ) by {
                            if m == k {
                                assert(views(r@)[m] == upd);
                            } else {
                                assert(views(r@)[m] == vs[m]);
                            }
                        }
                    }
                }
                assert(unique_ids(vs) ==> unique_ids(views(r@))) by {
                    if unique_ids(vs) {
                        assert forall|a: int, b: int|
                            0 <= a < views(r@).len() && 0 <= b < views(r@).len() && a
                            != b implies views(r@)[a].id != views(r@)[b].id by {
                            assert(views(r@)[a].id == vs[a].id);
                            assert(views(r@)[b].id == vs[b].id);
                        }
                    }
                }
            }
            return r;
        }
        i = i + 1;
    }
    proof {
        assert(!has_id(vs, id@));
        assert(forall|k: int| !is_first_match(vs, id@, k));
    }
    r
}

/// The empty collection trivially has pairwise-distinct identifiers:
/// together with the guarantee of `add_entry` this gives distinct
/// identifiers after any sequence of adds that starts from nothing.
pub proof fn lemma_unique_ids_empty()
    ensures
        unique_ids(Seq::<EntryView>::empty()),
{
}

} // verus!

