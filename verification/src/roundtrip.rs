//! The codec round trip: parsing the rendering of any well-formed
//! collection gives back exactly that collection.
use vstd::prelude::*;
use crate::entry::{EntryView, wf_entry, wf_entries};
use crate::escape::{escape_string, lemma_parse_escaped};
use crate::encode::{
    quoted, lit_id, lit_place, lit_date, lit_hours, lit_notes, lit_close, encode_entry,
    encode_rest, encoding,
};
use crate::number::{is_number_token, is_number_char, lemma_token_chars, NumState, num_run};
use crate::parse::{
    is_ws, skip_ws, expect, expect_seq, scan_number, parse_number, parse_string_member,
    parse_number_member, parse_entry, parse_more, parse_entries, key_id, key_place, key_date,
    key_hours, key_notes,
};

verus! {

/// The whitespace the encoder writes before each member key.
pub open spec fn ws5() -> Seq<char> {
    seq!['\n', ' ', ' ', ' ', ' ']
}

/// Skipping whitespace passes over any all-whitespace prefix.
proof fn lemma_skip_ws_concat(w: Seq<char>, t: Seq<char>)
    requires
        forall|i: int| 0 <= i < w.len() ==> is_ws(#[trigger] w[i]),
    ensures
        skip_ws(w + t) == skip_ws(t),
    decreases w.len(),
{
    if w.len() == 0 {
        assert(w + t =~= t);
    } else {
        assert((w + t)[0] == w[0]);
        assert((w + t).skip(1) =~= w.skip(1) + t);
        lemma_skip_ws_concat(w.skip(1), t);
    }
}

/// Skipping whitespace does nothing on input that starts with none.
proof fn lemma_skip_ws_id(t: Seq<char>)
    requires
        t.len() > 0,
        !is_ws(t[0]),
    ensures
        skip_ws(t) == t,
{
}

/// Expecting a pattern consumes exactly that prefix.
proof fn lemma_expect_seq_prefix(pat: Seq<char>, t: Seq<char>)
    ensures
        expect_seq(pat + t, pat) == Some(t),
    decreases pat.len(),
{
    if pat.len() == 0 {
        assert(pat + t =~= t);
    } else {
        assert((pat + t)[0] == pat[0]);
        assert((pat + t).skip(1) =~= pat.skip(1) + t);
        lemma_expect_seq_prefix(pat.skip(1), t);
        assert(expect(pat + t, pat[0]) == Some(pat.skip(1) + t));
    }
}

/// The number scan takes exactly a number-character prefix when what
/// follows is not a number character.
proof fn lemma_scan_of_token(t: Seq<char>, rest: Seq<char>)
    requires
        forall|i: int| 0 <= i < t.len() ==> is_number_char(#[trigger] t[i]),
        rest.len() > 0,
        !is_number_char(rest[0]),
    ensures
        scan_number(t + rest) == (t, rest),
    decreases t.len(),
{
    if t.len() == 0 {
        assert(t + rest =~= rest);
        assert(scan_number(rest) == (Seq::<char>::empty(), rest));
        assert(Seq::<char>::empty() =~= t);
    } else {
        assert((t + rest)[0] == t[0]);
        assert((t + rest).skip(1) =~= t.skip(1) + rest);
        lemma_scan_of_token(t.skip(1), rest);
        assert(seq![t[0]] + t.skip(1) =~= t);
    }
}

/// A string member of the encoder's shape parses to its value.
proof fn lemma_string_member(key: Seq<char>, value: Seq<char>, rest: Seq<char>)
    requires
        key.len() > 0,
        !is_ws(key[0]),
    ensures
        parse_string_member(ws5() + key + seq![':', ' '] + quoted(value) + rest, key) == Some::<
            (Seq<char>, Seq<char>),
        >((value, rest)),
{
    let s = ws5() + key + seq![':', ' '] + quoted(value) + rest;
    let t1 = key + (seq![':', ' '] + quoted(value) + rest);
    assert(s =~= ws5() + t1);
    lemma_skip_ws_concat(ws5(), t1);
    assert(t1[0] == key[0]);
    lemma_skip_ws_id(t1);
    let t2 = seq![':', ' '] + quoted(value) + rest;
    assert(t1 =~= key + t2);
    lemma_expect_seq_prefix(key, t2);
    assert(t2[0] == ':');
    lemma_skip_ws_id(t2);
    let t3 = seq![' '] + (seq!['"'] + (escape_string(value) + seq!['"'] + rest));
    assert(t2.skip(1) =~= t3);
    assert(expect(t2, ':') == Some(t3));
    let t4 = seq!['"'] + (escape_string(value) + seq!['"'] + rest);
    lemma_skip_ws_concat(seq![' '], t4);
    assert(t4[0] == '"');
    lemma_skip_ws_id(t4);
    let t5 = escape_string(value) + seq!['"'] + rest;
    assert(t4.skip(1) =~= t5);
    assert(expect(t4, '"') == Some(t5));
    lemma_parse_escaped(value, rest);
}

/// A number member of the encoder's shape parses to its token.
proof fn lemma_number_member(key: Seq<char>, token: Seq<char>, rest: Seq<char>)
    requires
        key.len() > 0,
        !is_ws(key[0]),
        is_number_token(token),
        rest.len() > 0,
        !is_number_char(rest[0]),
    ensures
        parse_number_member(ws5() + key + seq![':', ' '] + token + rest, key) == Some::<
            (Seq<char>, Seq<char>),
        >((token, rest)),
{
    let s = ws5() + key + seq![':', ' '] + token + rest;
    let t1 = key + (seq![':', ' '] + token + rest);
    assert(s =~= ws5() + t1);
    lemma_skip_ws_concat(ws5(), t1);
    assert(t1[0] == key[0]);
    lemma_skip_ws_id(t1);
    let t2 = seq![':', ' '] + token + rest;
    assert(t1 =~= key + t2);
    lemma_expect_seq_prefix(key, t2);
    assert(t2[0] == ':');
    lemma_skip_ws_id(t2);
    assert(token.len() > 0) by {
        assert(num_run(NumState::Start, Seq::<char>::empty()) == NumState::Start);
    }
    lemma_token_chars(token);
    let t4 = token + rest;
    let t3 = seq![' '] + t4;
    assert(t2.skip(1) =~= t3);
    assert(expect(t2, ':') == Some(t3));
    assert(t4[0] == token[0]);
    assert(!is_ws(t4[0]));
    lemma_skip_ws_concat(seq![' '], t4);
    lemma_skip_ws_id(t4);
    lemma_scan_of_token(token, rest);
    assert(parse_number(t4) == Some::<(Seq<char>, Seq<char>)>((token, rest)));
}

/// An encoded entry parses back to itself, whatever follows it and
/// whatever whitespace stands before it.
#[verifier::rlimit(100)]
proof fn lemma_parse_entry_of_encoding(e: EntryView, s: Seq<char>, rest: Seq<char>)
    requires
        wf_entry(e),
        skip_ws(s) == encode_entry(e) + rest,
    ensures
        parse_entry(s) == Some::<(EntryView, Seq<char>)>((e, rest)),
{
    let enc = encode_entry(e) + rest;
    let rest1 = lit_place() + quoted(e.place) + lit_date() + quoted(e.date) + lit_hours() + e.hours
        + lit_notes() + quoted(e.notes) + lit_close() + rest;
    assert(enc[0] == '{');
    let s0 = ws5() + key_id() + seq![':', ' '] + quoted(e.id) + rest1;
    assert(enc.skip(1) =~= s0);
    assert(expect(skip_ws(s), '{') == Some(s0));
    lemma_string_member(key_id(), e.id, rest1);
    assert(parse_string_member(s0, key_id()) == Some::<(Seq<char>, Seq<char>)>((e.id, rest1)));

    assert(rest1[0] == ',');
    lemma_skip_ws_id(rest1);
    let rest2 = lit_date() + quoted(e.date) + lit_hours() + e.hours + lit_notes() + quoted(e.notes)
        + lit_close() + rest;
    let s1 = ws5() + key_place() + seq![':', ' '] + quoted(e.place) + rest2;
    assert(rest1.skip(1) =~= s1);
    assert(expect(skip_ws(rest1), ',') == Some(s1));
    lemma_string_member(key_place(), e.place, rest2);

    assert(rest2[0] == ',');
    lemma_skip_ws_id(rest2);
    let rest3 = lit_hours() + e.hours + lit_notes() + quoted(e.notes) + lit_close() + rest;
    let s2 = ws5() + key_date() + seq![':', ' '] + quoted(e.date) + rest3;
    assert(rest2.skip(1) =~= s2);
    assert(expect(skip_ws(rest2), ',') == Some(s2));
    lemma_string_member(key_date(), e.date, rest3);

    assert(rest3[0] == ',');
    lemma_skip_ws_id(rest3);
    let rest4 = lit_notes() + quoted(e.notes) + lit_close() + rest;
    let s3 = ws5() + key_hours() + seq![':', ' '] + e.hours + rest4;
    assert(rest3.skip(1) =~= s3);
    assert(expect(skip_ws(rest3), ',') == Some(s3));
    assert(rest4[0] == ',');
    assert(!is_number_char(rest4[0]));
    lemma_number_member(key_hours(), e.hours, rest4);

    lemma_skip_ws_id(rest4);
    let rest5 = lit_close() + rest;
    let s4 = ws5() + key_notes() + seq![':', ' '] + quoted(e.notes) + rest5;
    assert(rest4.skip(1) =~= s4);
    assert(expect(skip_ws(rest4), ',') == Some(s4));
    lemma_string_member(key_notes(), e.notes, rest5);

    let t = seq!['}'] + rest;
    assert(rest5 =~= seq!['\n', ' ', ' '] + t);
    lemma_skip_ws_concat(seq!['\n', ' ', ' '], t);
    assert(t[0] == '}');
    lemma_skip_ws_id(t);
    assert(t.skip(1) =~= rest);
    assert(expect(skip_ws(rest5), '}') == Some(rest));
    assert((EntryView {
        id: e.id,
        place: e.place,
        date: e.date,
        hours: e.hours,
        notes: e.notes,
    }) == e);
}

/// The tail of the array, as the encoder writes it, parses back to the
/// remaining entries, under any sufficient fuel.
#[verifier::rlimit(100)]
proof fn lemma_parse_more_of_encoding(vs: Seq<EntryView>, fuel: nat)
    requires
        wf_entries(vs),
        fuel >= vs.len() + 1,
    ensures
        parse_more(encode_rest(vs) + seq!['\n', ']'], fuel) == Some(vs),
    decreases vs.len(),
{
    let s = encode_rest(vs) + seq!['\n', ']'];
    if vs.len() == 0 {
        assert(s =~= seq!['\n'] + seq![']'] + Seq::<char>::empty());
        assert(s =~= seq!['\n', ']']);
        let t = seq![']'];
        assert(s =~= seq!['\n'] + t);
        lemma_skip_ws_concat(seq!['\n'], t);
        lemma_skip_ws_id(t);
        assert(skip_ws(s) == t);
        assert(t.skip(1) =~= Seq::<char>::empty());
        assert(skip_ws(t.skip(1)).len() == 0);
        assert(parse_more(s, fuel) == Some(Seq::<EntryView>::empty()));
        assert(Seq::<EntryView>::empty() =~= vs);
    } else {
        let tail = encode_rest(vs.skip(1)) + seq!['\n', ']'];
        assert(s =~= seq![','] + (seq!['\n', ' ', ' '] + (encode_entry(vs[0]) + tail)));
        assert(s[0] == ',');
        lemma_skip_ws_id(s);
        let s1 = seq!['\n', ' ', ' '] + (encode_entry(vs[0]) + tail);
        assert(s.skip(1) =~= s1);
        assert(expect(skip_ws(s), ',') == Some(s1));
        lemma_skip_ws_concat(seq!['\n', ' ', ' '], encode_entry(vs[0]) + tail);
        assert((encode_entry(vs[0]) + tail)[0] == '{');
        lemma_skip_ws_id(encode_entry(vs[0]) + tail);
        assert(wf_entry(vs[0]));
        lemma_parse_entry_of_encoding(vs[0], s1, tail);
        assert(wf_entries(vs.skip(1))) by {
            assert(forall|i: int| 0 <= i < vs.skip(1).len() ==> vs.skip(1)[i] == vs[i + 1]);
        }
        lemma_parse_more_of_encoding(vs.skip(1), (fuel - 1) as nat);
        assert(parse_more(s, fuel) == Some(seq![vs[0]] + vs.skip(1)));
        assert(seq![vs[0]] + vs.skip(1) =~= vs);
    }
}

/// Each entry's rendering is at least as long as one character, so the
/// rendering of the tail bounds the number of remaining entries.
proof fn lemma_encode_rest_len(vs: Seq<EntryView>)
    ensures
        encode_rest(vs).len() >= vs.len(),
    decreases vs.len(),
{
    if vs.len() > 0 {
        lemma_encode_rest_len(vs.skip(1));
    }
}

/// The codec round trip: the rendering of any well-formed collection
/// parses back to exactly that collection, order and fields preserved.
/// The empty collection renders as the empty array and parses back
/// empty.
#[verifier::rlimit(100)]
pub proof fn lemma_round_trip(vs: Seq<EntryView>)
    requires
        wf_entries(vs),
    ensures
        parse_entries(encoding(vs)) == Some(vs),
{
    let s = encoding(vs);
    if vs.len() == 0 {
        assert(s == seq!['[', ']']);
        assert(s[0] == '[');
        lemma_skip_ws_id(s);
        let t = seq![']'];
        assert(s.skip(1) =~= t);
        assert(expect(skip_ws(s), '[') == Some(t));
        lemma_skip_ws_id(t);
        assert(t.skip(1) =~= Seq::<char>::empty());
        assert(skip_ws(t.skip(1)).len() == 0);
        assert(parse_entries(s) == Some(Seq::<EntryView>::empty()));
        assert(Seq::<EntryView>::empty() =~= vs);
    } else {
        let tail = encode_rest(vs.skip(1)) + seq!['\n', ']'];
        assert(s[0] == '[');
        lemma_skip_ws_id(s);
        let s0 = seq!['\n', ' ', ' '] + (encode_entry(vs[0]) + tail);
        assert(s.skip(1) =~= s0);
        assert(expect(skip_ws(s), '[') == Some(s0));
        lemma_skip_ws_concat(seq!['\n', ' ', ' '], encode_entry(vs[0]) + tail);
        assert((encode_entry(vs[0]) + tail)[0] == '{');
        lemma_skip_ws_id(encode_entry(vs[0]) + tail);
        assert(skip_ws(s0)[0] == '{');
        lemma_parse_entry_of_encoding(vs[0], s0, tail);
        assert(wf_entries(vs.skip(1))) by {
            assert(forall|i: int| 0 <= i < vs.skip(1).len() ==> vs.skip(1)[i] == vs[i + 1]);
        }
        lemma_encode_rest_len(vs.skip(1));
        lemma_parse_more_of_encoding(vs.skip(1), tail.len() + 1);
        assert(parse_entries(s) == Some(seq![vs[0]] + vs.skip(1)));
        assert(seq![vs[0]] + vs.skip(1) =~= vs);
    }
}

} // verus!
