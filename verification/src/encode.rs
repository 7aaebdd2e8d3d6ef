//! Rendering a collection of entries as an indented JSON document: a
//! top-level array of objects whose members are, in order, `id`,
//! `place`, `date`, `hours` and `notes`.
use vstd::prelude::*;
use vstd::string::StrSliceExecFns;
use crate::entry::{EntryView, VolunteerEntry, views};
use crate::escape::{escape_string, escape_char, lemma_escape_snoc, push_escape_char};
use crate::strutil::chars_to_string;

verus! {

/// A string value as it appears in the document: quoted and escaped.
pub open spec fn quoted(s: Seq<char>) -> Seq<char> {
    seq!['"'] + escape_string(s) + seq!['"']
}

/// The text between the object's opening brace and the `id` value.
pub open spec fn lit_id() -> Seq<char> {
    seq!['{', '\n', ' ', ' ', ' ', ' ', '"', 'i', 'd', '"', ':', ' ']
}

/// The text between the `id` value and the `place` value.
pub open spec fn lit_place() -> Seq<char> {
    seq![',', '\n', ' ', ' ', ' ', ' ', '"', 'p', 'l', 'a', 'c', 'e', '"', ':', ' ']
}

/// The text between the `place` value and the `date` value.
pub open spec fn lit_date() -> Seq<char> {
    seq![',', '\n', ' ', ' ', ' ', ' ', '"', 'd', 'a', 't', 'e', '"', ':', ' ']
}

/// The text between the `date` value and the `hours` value.
pub open spec fn lit_hours() -> Seq<char> {
    seq![',', '\n', ' ', ' ', ' ', ' ', '"', 'h', 'o', 'u', 'r', 's', '"', ':', ' ']
}

/// The text between the `hours` value and the `notes` value.
pub open spec fn lit_notes() -> Seq<char> {
    seq![',', '\n', ' ', ' ', ' ', ' ', '"', 'n', 'o', 't', 'e', 's', '"', ':', ' ']
}

/// The text that closes an object.
pub open spec fn lit_close() -> Seq<char> {
    seq!['\n', ' ', ' ', '}']
}

/// The rendering of one entry, starting at its opening brace.
pub open spec fn encode_entry(e: EntryView) -> Seq<char> {
    lit_id() + quoted(e.id) + lit_place() + quoted(e.place) + lit_date() + quoted(e.date)
        + lit_hours() + e.hours + lit_notes() + quoted(e.notes) + lit_close()
}

/// The rendering of every entry after the first, each preceded by the
/// separator and the array indentation.
pub open spec fn encode_rest(vs: Seq<EntryView>) -> Seq<char>
    decreases vs.len(),
{
    if vs.len() == 0 {
        Seq::empty()
    } else {
        seq![',', '\n', ' ', ' '] + encode_entry(vs[0]) + encode_rest(vs.skip(1))
    }
}

/// The rendering of the whole collection: `[]` when it is empty, and
/// otherwise the entries under two-space indentation.
pub open spec fn encoding(vs: Seq<EntryView>) -> Seq<char> {
    if vs.len() == 0 {
        seq!['[', ']']
    } else {
        seq!['[', '\n', ' ', ' '] + encode_entry(vs[0]) + encode_rest(vs.skip(1)) + seq!['\n', ']']
    }
}

/// Appending one entry to the tail extends its rendering at the end.
pub proof fn lemma_encode_rest_snoc(vs: Seq<EntryView>, e: EntryView)
    ensures
        encode_rest(vs.push(e)) == encode_rest(vs) + (seq![',', '\n', ' ', ' '] + encode_entry(e)),
    decreases vs.len(),
{
    if vs.len() == 0 {
        assert(vs.push(e)[0] == e);
        assert(vs.push(e).skip(1) =~= Seq::<EntryView>::empty());
        assert(encode_rest(Seq::<EntryView>::empty()) == Seq::<char>::empty());
        assert(encode_rest(vs.push(e)) == seq![',', '\n', ' ', ' '] + encode_entry(e)
            + Seq::<char>::empty());
        assert(seq![',', '\n', ' ', ' '] + encode_entry(e) + Seq::<char>::empty() =~= encode_rest(
            vs,
        ) + (seq![',', '\n', ' ', ' '] + encode_entry(e)));
    } else {
        assert(vs.push(e)[0] == vs[0]);
        assert(vs.push(e).skip(1) =~= vs.skip(1).push(e));
        lemma_encode_rest_snoc(vs.skip(1), e);
        assert(seq![',', '\n', ' ', ' '] + encode_entry(vs[0]) + (encode_rest(vs.skip(1)) + (seq![
            ',',
            '\n',
            ' ',
            ' ',
        ] + encode_entry(e))) =~= encode_rest(vs) + (seq![',', '\n', ' ', ' '] + encode_entry(e)));
    }
}

/// Appends the characters of `s` unchanged.
fn push_str_chars(out: &mut Vec<char>, s: &str)
    ensures
        final(out)@ == old(out)@ + s@,
{
    let n = s.unicode_len();
    let mut i: usize = 0;
    while i < n
        invariant
            0 <= i <= n,
            n == s@.len(),
            out@ == old(out)@ + s@.take(i as int),
        decreases n - i,
    {
        out.push(s.get_char(i));
        proof {
            assert(old(out)@ + s@.take(i as int) + seq![s@[i as int]] =~= old(out)@ + s@.take(
                i + 1,
            ));
        }
        i = i + 1;
    }
    proof {
        assert(old(out)@ + s@.take(n as int) =~= old(out)@ + s@);
    }
}

/// Appends the escaped rendering of the characters of `s`.
fn push_escaped(out: &mut Vec<char>, s: &str)
    ensures
        final(out)@ == old(out)@ + escape_string(s@),
{
    let n = s.unicode_len();
    let mut i: usize = 0;
    proof {
        assert(s@.take(0) =~= Seq::<char>::empty());
        assert(out@ =~= old(out)@ + escape_string(s@.take(0)));
    }
    while i < n
        invariant
            0 <= i <= n,
            n == s@.len(),
            out@ == old(out)@ + escape_string(s@.take(i as int)),
        decreases n - i,
    {
        let c = s.get_char(i);
        push_escape_char(out, c);
        proof {
            assert(s@.take(i + 1) =~= s@.take(i as int).push(c));
            lemma_escape_snoc(s@.take(i as int), c);
            assert(old(out)@ + escape_string(s@.take(i as int)) + escape_char(c) =~= old(out)@
                + escape_string(s@.take(i + 1)));
        }
        i = i + 1;
    }
    proof {
        assert(s@.take(n as int) =~= s@);
    }
}

/// Appends `s` as a quoted, escaped JSON string.
fn push_quoted(out: &mut Vec<char>, s: &str)
    ensures
        final(out)@ == old(out)@ + quoted(s@),
{
    out.push('"');
    push_escaped(out, s);
    out.push('"');
    assert(final(out)@ =~= old(out)@ + quoted(s@));
}

/// Appends the rendering of one entry.
fn push_entry(out: &mut Vec<char>, e: &VolunteerEntry)
    ensures
        final(out)@ == old(out)@ + encode_entry(e@),
{
    push_str_chars(out, "{\n    \"id\": ");
    proof {
        reveal_strlit("{\n    \"id\": ");
        assert(("{\n    \"id\": ")@ =~= lit_id());
    }
    push_quoted(out, e.id.as_str());
    push_str_chars(out, ",\n    \"place\": ");
    proof {
        reveal_strlit(",\n    \"place\": ");
        assert((",\n    \"place\": ")@ =~= lit_place());
    }
    push_quoted(out, e.place.as_str());
    push_str_chars(out, ",\n    \"date\": ");
    proof {
        reveal_strlit(",\n    \"date\": ");
        assert((",\n    \"date\": ")@ =~= lit_date());
    }
    push_quoted(out, e.date.as_str());
    push_str_chars(out, ",\n    \"hours\": ");
    proof {
        reveal_strlit(",\n    \"hours\": ");
        assert((",\n    \"hours\": ")@ =~= lit_hours());
    }
    push_str_chars(out, e.hours.as_str());
    push_str_chars(out, ",\n    \"notes\": ");
    proof {
        reveal_strlit(",\n    \"notes\": ");
        assert((",\n    \"notes\": ")@ =~= lit_notes());
    }
    push_quoted(out, e.notes.as_str());
    push_str_chars(out, "\n  }");
    proof {
        reveal_strlit("\n  }");
        assert(("\n  }")@ =~= lit_close());
        assert(final(out)@ =~= old(out)@ + encode_entry(e@));
    }
}

/// Renders the whole collection as the JSON document the store persists.
pub fn encode_entries(entries: &Vec<VolunteerEntry>) -> (s: String)
    ensures
        s@ == encoding(views(entries@)),
{
    let ghost vs = views(entries@);
    let mut out: Vec<char> = Vec::new();
    out.push('[');
    if entries.len() == 0 {
        out.push(']');
        proof {
            assert(out@ =~= encoding(vs));
        }
    } else {
        out.push('\n');
        out.push(' ');
        out.push(' ');
        push_entry(&mut out, &entries[0]);
        proof {
            assert(vs[0] == entries@[0]@);
            assert(out@ =~= seq!['[', '\n', ' ', ' '] + encode_entry(vs[0]) + encode_rest(
                vs.subrange(1, 1),
            ));
        }
        let mut i: usize = 1;
        while i < entries.len()
            invariant
                1 <= i <= entries@.len(),
                vs == views(entries@),
                vs.len() == entries@.len(),
                out@ == seq!['[', '\n', ' ', ' '] + encode_entry(vs[0]) + encode_rest(
                    vs.subrange(1, i as int),
                ),
            decreases entries@.len() - i,
        {
            out.push(',');
            out.push('\n');
            out.push(' ');
            out.push(' ');
            push_entry(&mut out, &entries[i]);
            proof {
                assert(vs[i as int] == entries@[i as int]@);
                assert(vs.subrange(1, i + 1) =~= vs.subrange(1, i as int).push(vs[i as int]));
                lemma_encode_rest_snoc(vs.subrange(1, i as int), vs[i as int]);
                assert(out@ =~= seq!['[', '\n', ' ', ' '] + encode_entry(vs[0]) + encode_rest(
                    vs.subrange(1, i + 1),
                ));
            }
            i = i + 1;
        }
        out.push('\n');
        out.push(']');
        proof {
            assert(vs.subrange(1, vs.len() as int) =~= vs.skip(1));
            assert(out@ =~= encoding(vs));
        }
    }
    chars_to_string(&out)
}

} // verus!
