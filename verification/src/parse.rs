//! Parsing the JSON document back into entries. The parser accepts any
//! amount of whitespace between tokens, the object members in the fixed
//! order `id`, `place`, `date`, `hours`, `notes`, string values with the
//! short escapes and `\u00XX`, and number tokens of the JSON grammar.
//! Anything else is a malformed document.
use vstd::prelude::*;
use vstd::string::StrSliceExecFns;
use crate::entry::{EntryView, VolunteerEntry, views};
use crate::escape::{parse_string_body, parse_string_body_exec};
use crate::number::{is_number_char, is_number_token, is_number_char_exec, check_number_chars};
use crate::strutil::{string_to_chars, chars_to_string};

verus! {

pub open spec fn is_ws(c: char) -> bool {
    c == ' ' || c == '\n' || c == '\t' || c == '\r'
}

/// Drops leading whitespace.
pub open spec fn skip_ws(s: Seq<char>) -> Seq<char>
    decreases s.len(),
{
    if s.len() > 0 && is_ws(s[0]) {
        skip_ws(s.skip(1))
    } else {
        s
    }
}

/// Consumes one expected character.
pub open spec fn expect(s: Seq<char>, c: char) -> Option<Seq<char>> {
    if s.len() > 0 && s[0] == c {
        Some(s.skip(1))
    } else {
        None
    }
}

/// Consumes an expected sequence of characters.
pub open spec fn expect_seq(s: Seq<char>, pat: Seq<char>) -> Option<Seq<char>>
    decreases pat.len(),
{
    if pat.len() == 0 {
        Some(s)
    } else {
        match expect(s, pat[0]) {
            Option::None => None,
            Option::Some(r) => expect_seq(r, pat.skip(1)),
        }
    }
}

/// Splits off the longest prefix of number characters.
pub open spec fn scan_number(s: Seq<char>) -> (Seq<char>, Seq<char>)
    decreases s.len(),
{
    if s.len() > 0 && is_number_char(s[0]) {
        let p = scan_number(s.skip(1));
        (seq![s[0]] + p.0, p.1)
    } else {
        (Seq::empty(), s)
    }
}

/// Consumes a number token: the longest prefix of number characters,
/// which must form a token of the JSON number grammar.
pub open spec fn parse_number(s: Seq<char>) -> Option<(Seq<char>, Seq<char>)> {
    let p = scan_number(s);
    if is_number_token(p.0) {
        Some(p)
    } else {
        None
    }
}

pub open spec fn key_id() -> Seq<char> {
    seq!['"', 'i', 'd', '"']
}

pub open spec fn key_place() -> Seq<char> {
    seq!['"', 'p', 'l', 'a', 'c', 'e', '"']
}

pub open spec fn key_date() -> Seq<char> {
    seq!['"', 'd', 'a', 't', 'e', '"']
}

pub open spec fn key_hours() -> Seq<char> {
    seq!['"', 'h', 'o', 'u', 'r', 's', '"']
}

pub open spec fn key_notes() -> Seq<char> {
    seq!['"', 'n', 'o', 't', 'e', 's', '"']
}

/// Consumes `"key": "value"` and returns the unescaped value.
pub open spec fn parse_string_member(s: Seq<char>, pat: Seq<char>) -> Option<
    (Seq<char>, Seq<char>),
> {
    match expect_seq(skip_ws(s), pat) {
        Option::None => None,
        Option::Some(s1) => match expect(skip_ws(s1), ':') {
            Option::None => None,
            Option::Some(s2) => match expect(skip_ws(s2), '"') {
                Option::None => None,
                Option::Some(s3) => parse_string_body(s3),
            },
        },
    }
}

/// Consumes `"key": number` and returns the number token.
pub open spec fn parse_number_member(s: Seq<char>, pat: Seq<char>) -> Option<
    (Seq<char>, Seq<char>),
> {
    match expect_seq(skip_ws(s), pat) {
        Option::None => None,
        Option::Some(s1) => match expect(skip_ws(s1), ':') {
            Option::None => None,
            Option::Some(s2) => parse_number(skip_ws(s2)),
        },
    }
}

/// Consumes one entry object, members in fixed order.
pub open spec fn parse_entry(s: Seq<char>) -> Option<(EntryView, Seq<char>)> {
    match expect(skip_ws(s), '{') {
        Option::None => None,
        Option::Some(s0) => match parse_string_member(s0, key_id()) {
            Option::None => None,
            Option::Some((id, s1)) => match expect(skip_ws(s1), ',') {
                Option::None => None,
                Option::Some(s1b) => match parse_string_member(s1b, key_place()) {
                    Option::None => None,
                    Option::Some((place, s2)) => match expect(skip_ws(s2), ',') {
                        Option::None => None,
                        Option::Some(s2b) => match parse_string_member(s2b, key_date()) {
                            Option::None => None,
                            Option::Some((date, s3)) => match expect(skip_ws(s3), ',') {
                                Option::None => None,
                                Option::Some(s3b) => match parse_number_member(s3b, key_hours()) {
                                    Option::None => None,
                                    Option::Some((hours, s4)) => match expect(skip_ws(s4), ',') {
                                        Option::None => None,
                                        Option::Some(s4b) => match parse_string_member(
                                            s4b,
                                            key_notes(),
                                        ) {
                                            Option::None => None,
                                            Option::Some((notes, s5)) => match expect(
                                                skip_ws(s5),
                                                '}',
                                            ) {
                                                Option::None => None,
                                                Option::Some(s6) => Some(
                                                    (
                                                        EntryView { id, place, date, hours, notes },
                                                        s6,
                                                    ),
                                                ),
                                            },
                                        },
                                    },
                                },
                            },
                        },
                    },
                },
            },
        },
    }
}

/// After one entry: either the closing bracket ends the document, or a
/// comma introduces the next entry. `fuel` bounds the recursion; any
/// fuel larger than the input length gives the same answer.
pub open spec fn parse_more(s: Seq<char>, fuel: nat) -> Option<Seq<EntryView>>
    decreases fuel,
{
    if fuel == 0 {
        None
    } else {
        let sw = skip_ws(s);
        if sw.len() > 0 && sw[0] == ']' {
            if skip_ws(sw.skip(1)).len() == 0 {
                Some(Seq::empty())
            } else {
                None
            }
        } else {
            match expect(sw, ',') {
                Option::None => None,
                Option::Some(s1) => match parse_entry(s1) {
                    Option::None => None,
                    Option::Some((e, s2)) => match parse_more(s2, (fuel - 1) as nat) {
                        Option::None => None,
                        Option::Some(es) => Some(seq![e] + es),
                    },
                },
            }
        }
    }
}

/// Parses the whole document: a JSON array of entry objects, with
/// nothing but whitespace after it.
pub open spec fn parse_entries(s: Seq<char>) -> Option<Seq<EntryView>> {
    match expect(skip_ws(s), '[') {
        Option::None => None,
        Option::Some(s0) => {
            let sw = skip_ws(s0);
            if sw.len() > 0 && sw[0] == ']' {
                if skip_ws(sw.skip(1)).len() == 0 {
                    Some(Seq::empty())
                } else {
                    None
                }
            } else {
                match parse_entry(s0) {
                    Option::None => None,
                    Option::Some((e, s1)) => match parse_more(s1, s1.len() + 1) {
                        Option::None => None,
                        Option::Some(es) => Some(seq![e] + es),
                    },
                }
            }
        },
    }
}

// ------------------------------------------------------------------
// Length facts: every parser returns a suffix no longer than its input,
// and a successful entry parse consumes at least one character. These
// facts justify the recursion fuel.
// ------------------------------------------------------------------

pub proof fn lemma_skip_ws_len(s: Seq<char>)
    ensures
        skip_ws(s).len() <= s.len(),
    decreases s.len(),
{
    if s.len() > 0 && is_ws(s[0]) {
        lemma_skip_ws_len(s.skip(1));
    }
}

pub proof fn lemma_expect_seq_len(s: Seq<char>, pat: Seq<char>)
    ensures
        expect_seq(s, pat) matches Some(r) ==> r.len() == s.len() - pat.len(),
    decreases pat.len(),
{
    if pat.len() > 0 {
        match expect(s, pat[0]) {
            Option::None => {},
            Option::Some(r) => {
                lemma_expect_seq_len(r, pat.skip(1));
            },
        }
    }
}

pub proof fn lemma_parse_string_body_len(s: Seq<char>)
    ensures
        parse_string_body(s) matches Some((t, r)) ==> r.len() < s.len(),
    decreases s.len(),
{
    if s.len() == 0 {
    } else if s[0] == '"' {
    } else if s[0] == '\\' {
        if s.len() < 2 {
        } else if s[1] == 'u' {
            if s.len() >= 6 {
                lemma_parse_string_body_len(s.skip(6));
            }
        } else {
            lemma_parse_string_body_len(s.skip(2));
        }
    } else {
        lemma_parse_string_body_len(s.skip(1));
    }
}

pub proof fn lemma_scan_number_len(s: Seq<char>)
    ensures
        scan_number(s).0.len() + scan_number(s).1.len() == s.len(),
    decreases s.len(),
{
    if s.len() > 0 && is_number_char(s[0]) {
        lemma_scan_number_len(s.skip(1));
    }
}

pub proof fn lemma_parse_string_member_len(s: Seq<char>, pat: Seq<char>)
    requires
        pat.len() > 0,
    ensures
        parse_string_member(s, pat) matches Some((t, r)) ==> r.len() < s.len(),
{
    lemma_skip_ws_len(s);
    lemma_expect_seq_len(skip_ws(s), pat);
    match expect_seq(skip_ws(s), pat) {
        Option::None => {},
        Option::Some(s1) => {
            lemma_skip_ws_len(s1);
            match expect(skip_ws(s1), ':') {
                Option::None => {},
                Option::Some(s2) => {
                    lemma_skip_ws_len(s2);
                    match expect(skip_ws(s2), '"') {
                        Option::None => {},
                        Option::Some(s3) => {
                            lemma_parse_string_body_len(s3);
                        },
                    }
                },
            }
        },
    }
}

pub proof fn lemma_parse_number_member_len(s: Seq<char>, pat: Seq<char>)
    requires
        pat.len() > 0,
    ensures
        parse_number_member(s, pat) matches Some((t, r)) ==> r.len() < s.len(),
{
    lemma_skip_ws_len(s);
    lemma_expect_seq_len(skip_ws(s), pat);
    match expect_seq(skip_ws(s), pat) {
        Option::None => {},
        Option::Some(s1) => {
            lemma_skip_ws_len(s1);
            match expect(skip_ws(s1), ':') {
                Option::None => {},
                Option::Some(s2) => {
                    lemma_skip_ws_len(s2);
                    lemma_scan_number_len(skip_ws(s2));
                    assert(!is_number_token(Seq::<char>::empty()));
                },
            }
        },
    }
}

pub proof fn lemma_parse_entry_len(s: Seq<char>)
    ensures
        parse_entry(s) matches Some((e, r)) ==> r.len() < s.len(),
{
    lemma_skip_ws_len(s);
    match expect(skip_ws(s), '{') {
        Option::None => {},
        Option::Some(s0) => {
            lemma_parse_string_member_len(s0, key_id());
            match parse_string_member(s0, key_id()) {
                Option::None => {},
                Option::Some((id, s1)) => {
                    lemma_skip_ws_len(s1);
                    match expect(skip_ws(s1), ',') {
                        Option::None => {},
                        Option::Some(s1b) => {
                            lemma_parse_string_member_len(s1b, key_place());
                            match parse_string_member(s1b, key_place()) {
                                Option::None => {},
                                Option::Some((place, s2)) => {
                                    lemma_skip_ws_len(s2);
                                    match expect(skip_ws(s2), ',') {
                                        Option::None => {},
                                        Option::Some(s2b) => {
                                            lemma_parse_string_member_len(s2b, key_date());
                                            match parse_string_member(s2b, key_date()) {
                                                Option::None => {},
                                                Option::Some((date, s3)) => {
                                                    lemma_skip_ws_len(s3);
                                                    match expect(skip_ws(s3), ',') {
                                                        Option::None => {},
                                                        Option::Some(s3b) => {
                                                            lemma_parse_entry_len_tail(s, s3b);
                                                        },
                                                    }
                                                },
                                            }
                                        },
                                    }
                                },
                            }
                        },
                    }
                },
            }
        },
    }
}

proof fn lemma_parse_entry_len_tail(s: Seq<char>, s3b: Seq<char>)
    requires
        s3b.len() < s.len(),
    ensures
        (match parse_number_member(s3b, key_hours()) {
            Option::None => true,
            Option::Some((hours, s4)) => match expect(skip_ws(s4), ',') {
                Option::None => true,
                Option::Some(s4b) => match parse_string_member(s4b, key_notes()) {
                    Option::None => true,
                    Option::Some((notes, s5)) => match expect(skip_ws(s5), '}') {
                        Option::None => true,
                        Option::Some(s6) => s6.len() < s.len(),
                    },
                },
            },
        }),
{
    lemma_parse_number_member_len(s3b, key_hours());
    match parse_number_member(s3b, key_hours()) {
        Option::None => {},
        Option::Some((hours, s4)) => {
            lemma_skip_ws_len(s4);
            match expect(skip_ws(s4), ',') {
                Option::None => {},
                Option::Some(s4b) => {
                    lemma_parse_string_member_len(s4b, key_notes());
                    match parse_string_member(s4b, key_notes()) {
                        Option::None => {},
                        Option::Some((notes, s5)) => {
                            lemma_skip_ws_len(s5);
                        },
                    }
                },
            }
        },
    }
}

/// The fuel does not matter as long as it exceeds the input length.
pub proof fn lemma_parse_more_fuel(s: Seq<char>, f1: nat, f2: nat)
    requires
        f1 > s.len(),
        f2 > s.len(),
    ensures
        parse_more(s, f1) == parse_more(s, f2),
    decreases f1,
{
    lemma_skip_ws_len(s);
    let sw = skip_ws(s);
    if sw.len() > 0 && sw[0] == ']' {
    } else {
        match expect(sw, ',') {
            Option::None => {},
            Option::Some(s1) => {
                lemma_parse_entry_len(s1);
                match parse_entry(s1) {
                    Option::None => {},
                    Option::Some((e, s2)) => {
                        lemma_parse_more_fuel(s2, (f1 - 1) as nat, (f2 - 1) as nat);
                    },
                }
            },
        }
    }
}

// ------------------------------------------------------------------
// Executable parser.
// ------------------------------------------------------------------

/// Advances past whitespace.
fn skip_ws_exec(v: &Vec<char>, i: usize) -> (j: usize)
    requires
        i <= v@.len(),
    ensures
        i <= j <= v@.len(),
        v@.skip(j as int) == skip_ws(v@.skip(i as int)),
{
    let mut j = i;
    while j < v.len() && (v[j] == ' ' || v[j] == '\n' || v[j] == '\t' || v[j] == '\r')
        invariant
            i <= j <= v@.len(),
            skip_ws(v@.skip(i as int)) == skip_ws(v@.skip(j as int)),
        decreases v@.len() - j,
    {
        proof {
            assert(v@.skip(j as int)[0] == v@[j as int]);
            assert(v@.skip(j as int).skip(1) =~= v@.skip(j + 1));
        }
        j = j + 1;
    }
    proof {
        if j < v.len() {
            assert(v@.skip(j as int)[0] == v@[j as int]);
        }
        assert(skip_ws(v@.skip(j as int)) == v@.skip(j as int));
    }
    j
}

/// Consumes one expected character.
fn expect_exec(v: &Vec<char>, i: usize, c: char) -> (r: Option<usize>)
    requires
        i <= v@.len(),
    ensures
        match r {
            Option::Some(j) => i < j <= v@.len() && expect(v@.skip(i as int), c) == Some(
                v@.skip(j as int),
            ),
            Option::None => expect(v@.skip(i as int), c) is None,
        },
{
    if i < v.len() && v[i] == c {
        proof {
            assert(v@.skip(i as int)[0] == v@[i as int]);
            assert(v@.skip(i as int).skip(1) =~= v@.skip(i + 1));
        }
        Some(i + 1)
    } else {
        proof {
            if i < v@.len() {
                assert(v@.skip(i as int)[0] == v@[i as int]);
            }
        }
        None
    }
}

/// Consumes an expected pattern.
fn expect_seq_exec(v: &Vec<char>, i: usize, pat: &str) -> (r: Option<usize>)
    requires
        i <= v@.len(),
    ensures
        match r {
            Option::Some(j) => i <= j <= v@.len() && expect_seq(v@.skip(i as int), pat@) == Some(
                v@.skip(j as int),
            ),
            Option::None => expect_seq(v@.skip(i as int), pat@) is None,
        },
{
    let n = pat.unicode_len();
    let mut k: usize = 0;
    proof {
        assert(pat@.skip(0) =~= pat@);
        assert(v@.skip(i + 0) =~= v@.skip(i as int));
    }
    while k < n
        invariant
            0 <= k <= n,
            n == pat@.len(),
            i <= v@.len(),
            i + k <= v@.len(),
            expect_seq(v@.skip(i as int), pat@) == expect_seq(
                v@.skip(i + k),
                pat@.skip(k as int),
            ),
        decreases n - k,
    {
        let ghost sk = v@.skip(i + k);
        let ghost pk = pat@.skip(k as int);
        proof {
            assert(pk[0] == pat@[k as int]);
        }
        if v.len() - i == k {
            proof {
                assert(sk.len() == 0);
                assert(expect(sk, pk[0]) is None);
            }
            return None;
        }
        let pc = pat.get_char(k);
        proof {
            assert(sk[0] == v@[i + k]);
        }
        if v[i + k] != pc {
            proof {
                assert(expect(sk, pk[0]) is None);
            }
            return None;
        }
        proof {
            assert(sk.skip(1) =~= v@.skip(i + k + 1));
            assert(pk.skip(1) =~= pat@.skip(k + 1));
            assert(expect(sk, pk[0]) == Some(v@.skip(i + k + 1)));
        }
        k = k + 1;
    }
    proof {
        assert(pat@.skip(n as int) =~= Seq::<char>::empty());
        assert(expect_seq(v@.skip(i + n), Seq::<char>::empty()) == Some(v@.skip(i + n)));
    }
    let vl = v.len();
    proof {
        assert(i + k <= vl);
    }
    Some(i + k)
}

/// Consumes a number token.
fn parse_number_exec(v: &Vec<char>, i: usize) -> (r: Option<(Vec<char>, usize)>)
    requires
        i <= v@.len(),
    ensures
        match r {
            Option::Some((t, j)) => i <= j <= v@.len() && parse_number(v@.skip(i as int)) == Some::<
                (Seq<char>, Seq<char>),
            >((t@, v@.skip(j as int))),
            Option::None => parse_number(v@.skip(i as int)) is None,
        },
{
    let mut t: Vec<char> = Vec::new();
    let mut j = i;
    proof {
        assert(t@ + scan_number(v@.skip(i as int)).0 =~= scan_number(v@.skip(i as int)).0);
    }
    while j < v.len() && is_number_char_exec(v[j])
        invariant
            i <= j <= v@.len(),
            scan_number(v@.skip(i as int)).0 == t@ + scan_number(v@.skip(j as int)).0,
            scan_number(v@.skip(i as int)).1 == scan_number(v@.skip(j as int)).1,
        decreases v@.len() - j,
    {
        let ghost sj = v@.skip(j as int);
        proof {
            assert(sj[0] == v@[j as int]);
            assert(sj.skip(1) =~= v@.skip(j + 1));
            assert(scan_number(sj).0 == seq![v@[j as int]] + scan_number(v@.skip(j + 1)).0);
            assert(t@ + (seq![v@[j as int]] + scan_number(v@.skip(j + 1)).0) =~= t@.push(
                v@[j as int],
            ) + scan_number(v@.skip(j + 1)).0);
        }
        t.push(v[j]);
        j = j + 1;
    }
    proof {
        let sj = v@.skip(j as int);
        if j < v@.len() {
            assert(sj[0] == v@[j as int]);
        }
        assert(scan_number(sj).0 =~= Seq::<char>::empty());
        assert(scan_number(sj).1 == sj);
        assert(t@ + Seq::<char>::empty() =~= t@);
    }
    if check_number_chars(&t) {
        Some((t, j))
    } else {
        None
    }
}

/// Consumes `"key": "value"`.
fn parse_string_member_exec(v: &Vec<char>, i: usize, pat: &str) -> (r: Option<(Vec<char>, usize)>)
    requires
        i <= v@.len(),
    ensures
        match r {
            Option::Some((t, j)) => i <= j <= v@.len() && parse_string_member(
                v@.skip(i as int),
                pat@,
            ) == Some::<(Seq<char>, Seq<char>)>((t@, v@.skip(j as int))),
            Option::None => parse_string_member(v@.skip(i as int), pat@) is None,
        },
{
    let j0 = skip_ws_exec(v, i);
    let j1 = match expect_seq_exec(v, j0, pat) {
        Option::None => {
            return None;
        },
        Option::Some(j) => j,
    };
    let j2 = skip_ws_exec(v, j1);
    let j3 = match expect_exec(v, j2, ':') {
        Option::None => {
            return None;
        },
        Option::Some(j) => j,
    };
    let j4 = skip_ws_exec(v, j3);
    let j5 = match expect_exec(v, j4, '"') {
        Option::None => {
            return None;
        },
        Option::Some(j) => j,
    };
    parse_string_body_exec(v, j5)
}

/// Consumes `"key": number`.
fn parse_number_member_exec(v: &Vec<char>, i: usize, pat: &str) -> (r: Option<(Vec<char>, usize)>)
    requires
        i <= v@.len(),
    ensures
        match r {
            Option::Some((t, j)) => i <= j <= v@.len() && parse_number_member(
                v@.skip(i as int),
                pat@,
            ) == Some::<(Seq<char>, Seq<char>)>((t@, v@.skip(j as int))),
            Option::None => parse_number_member(v@.skip(i as int), pat@) is None,
        },
{
    let j0 = skip_ws_exec(v, i);
    let j1 = match expect_seq_exec(v, j0, pat) {
        Option::None => {
            return None;
        },
        Option::Some(j) => j,
    };
    let j2 = skip_ws_exec(v, j1);
    let j3 = match expect_exec(v, j2, ':') {
        Option::None => {
            return None;
        },
        Option::Some(j) => j,
    };
    let j4 = skip_ws_exec(v, j3);
    parse_number_exec(v, j4)
}

/// Consumes one entry object.
fn parse_entry_exec(v: &Vec<char>, i: usize) -> (r: Option<(VolunteerEntry, usize)>)
    requires
        i <= v@.len(),
    ensures
        match r {
            Option::Some((e, j)) => i <= j <= v@.len() && parse_entry(v@.skip(i as int)) == Some::<
                (EntryView, Seq<char>),
            >((e@, v@.skip(j as int))),
            Option::None => parse_entry(v@.skip(i as int)) is None,
        },
{
    let j0 = skip_ws_exec(v, i);
    let j1 = match expect_exec(v, j0, '{') {
        Option::None => {
            return None;
        },
        Option::Some(j) => j,
    };
    proof {
        reveal_strlit("\"id\"");
        assert(("\"id\"")@ =~= key_id());
    }
    let (id, j2) = match parse_string_member_exec(v, j1, "\"id\"") {
        Option::None => {
            return None;
        },
        Option::Some(p) => p,
    };
    let j2b = match sep_comma(v, j2) {
        Option::None => {
            return None;
        },
        Option::Some(j) => j,
    };
    proof {
        reveal_strlit("\"place\"");
        assert(("\"place\"")@ =~= key_place());
    }
    let (place, j3) = match parse_string_member_exec(v, j2b, "\"place\"") {
        Option::None => {
            return None;
        },
        Option::Some(p) => p,
    };
    let j3b = match sep_comma(v, j3) {
        Option::None => {
            return None;
        },
        Option::Some(j) => j,
    };
    proof {
        reveal_strlit("\"date\"");
        assert(("\"date\"")@ =~= key_date());
    }
    let (date, j4) = match parse_string_member_exec(v, j3b, "\"date\"") {
        Option::None => {
            return None;
        },
        Option::Some(p) => p,
    };
    let j4b = match sep_comma(v, j4) {
        Option::None => {
            return None;
        },
        Option::Some(j) => j,
    };
    proof {
        reveal_strlit("\"hours\"");
        assert(("\"hours\"")@ =~= key_hours());
    }
    let (hours, j5) = match parse_number_member_exec(v, j4b, "\"hours\"") {
        Option::None => {
            return None;
        },
        Option::Some(p) => p,
    };
    let j5b = match sep_comma(v, j5) {
        Option::None => {
            return None;
        },
        Option::Some(j) => j,
    };
    proof {
        reveal_strlit("\"notes\"");
        assert(("\"notes\"")@ =~= key_notes());
    }
    let (notes, j6) = match parse_string_member_exec(v, j5b, "\"notes\"") {
        Option::None => {
            return None;
        },
        Option::Some(p) => p,
    };
    let j7 = skip_ws_exec(v, j6);
    let j8 = match expect_exec(v, j7, '}') {
        Option::None => {
            return None;
        },
        Option::Some(j) => j,
    };
    let e = VolunteerEntry {
        id: chars_to_string(&id),
        place: chars_to_string(&place),
        date: chars_to_string(&date),
        hours: chars_to_string(&hours),
        notes: chars_to_string(&notes),
    };
    Some((e, j8))
}

/// Consumes whitespace and a comma.
fn sep_comma(v: &Vec<char>, i: usize) -> (r: Option<usize>)
    requires
        i <= v@.len(),
    ensures
        match r {
            Option::Some(j) => i <= j <= v@.len() && expect(skip_ws(v@.skip(i as int)), ',')
                == Some(v@.skip(j as int)),
            Option::None => expect(skip_ws(v@.skip(i as int)), ',') is None,
        },
{
    let j = skip_ws_exec(v, i);
    expect_exec(v, j, ',')
}

/// Parses the rest of the array after one entry, collecting the
/// remaining entries.
fn parse_more_exec(v: &Vec<char>, i: usize) -> (r: Option<Vec<VolunteerEntry>>)
    requires
        i <= v@.len(),
    ensures
        match r {
            Option::Some(es) => parse_more(v@.skip(i as int), (v@.len() - i + 1) as nat) == Some(
                views(es@),
            ),
            Option::None => parse_more(v@.skip(i as int), (v@.len() - i + 1) as nat) is None,
        },
    decreases v@.len() - i,
{
    let ghost si = v@.skip(i as int);
    let ghost fuel = (v@.len() - i + 1) as nat;
    proof {
        lemma_skip_ws_len(si);
    }
    let sw = skip_ws_exec(v, i);
    if sw < v.len() && v[sw] == ']' {
        proof {
            assert(v@.skip(sw as int)[0] == v@[sw as int]);
            assert(v@.skip(sw as int).skip(1) =~= v@.skip(sw + 1));
        }
        let e = skip_ws_exec(v, sw + 1);
        if e == v.len() {
            let empty: Vec<VolunteerEntry> = Vec::new();
            proof {
                assert(v@.skip(e as int).len() == 0);
                assert(views(empty@) =~= Seq::<EntryView>::empty());
            }
            return Some(empty);
        } else {
            proof {
                assert(v@.skip(e as int).len() > 0);
            }
            return None;
        }
    }
    proof {
        if sw < v@.len() {
            assert(v@.skip(sw as int)[0] == v@[sw as int]);
        }
    }
    let s1 = match expect_exec(v, sw, ',') {
        Option::None => {
            return None;
        },
        Option::Some(j) => j,
    };
    let (e, s2) = match parse_entry_exec(v, s1) {
        Option::None => {
            return None;
        },
        Option::Some(p) => p,
    };
    proof {
        lemma_parse_entry_len(v@.skip(s1 as int));
        assert(v@.skip(s2 as int).len() < v@.skip(s1 as int).len());
    }
    let rec = match parse_more_exec(v, s2) {
        Option::None => {
            proof {
                lemma_parse_more_fuel(v@.skip(s2 as int), (v@.len() - s2 + 1) as nat, (fuel
                    - 1) as nat);
            }
            return None;
        },
        Option::Some(es) => es,
    };
    proof {
        lemma_parse_more_fuel(v@.skip(s2 as int), (v@.len() - s2 + 1) as nat, (fuel - 1) as nat);
    }
    let mut out = rec;
    out.insert(0, e);
    proof {
        assert(views(out@) =~= seq![e@] + views(out@.skip(1)));
        assert(out@.skip(1) =~= out@.subrange(1, out@.len() as int));
    }
    Some(out)
}

/// Parses a whole document. Returns the entries on success and `None`
/// when the text is not a well-formed entry collection.
#[verifier::rlimit(50)]
pub fn decode_entries(s: &str) -> (r: Option<Vec<VolunteerEntry>>)
    ensures
        match r {
            Option::Some(es) => parse_entries(s@) == Some(views(es@)),
            Option::None => parse_entries(s@) is None,
        },
{
    let v = string_to_chars(s);
    proof {
        assert(v@.skip(0) =~= s@);
    }
    let j0 = skip_ws_exec(&v, 0);
    let j1 = match expect_exec(&v, j0, '[') {
        Option::None => {
            return None;
        },
        Option::Some(j) => j,
    };
    let sw = skip_ws_exec(&v, j1);
    if sw < v.len() && v[sw] == ']' {
        proof {
            assert(v@.skip(sw as int)[0] == v@[sw as int]);
            assert(v@.skip(sw as int).skip(1) =~= v@.skip(sw + 1));
        }
        let e = skip_ws_exec(&v, sw + 1);
        if e == v.len() {
            let empty: Vec<VolunteerEntry> = Vec::new();
            proof {
                assert(v@.skip(e as int).len() == 0);
                assert(views(empty@) =~= Seq::<EntryView>::empty());
            }
            return Some(empty);
        } else {
            proof {
                assert(v@.skip(e as int).len() > 0);
            }
            return None;
        }
    }
    proof {
        if sw < v@.len() {
            assert(v@.skip(sw as int)[0] == v@[sw as int]);
        }
    }
    let (e, s1) = match parse_entry_exec(&v, j1) {
        Option::None => {
            return None;
        },
        Option::Some(p) => p,
    };
    let rec = match parse_more_exec(&v, s1) {
        Option::None => {
            proof {
                lemma_parse_more_fuel(v@.skip(s1 as int), (v@.len() - s1 + 1) as nat, (v@.skip(
                    s1 as int,
                ).len() + 1) as nat);
            }
            return None;
        },
        Option::Some(es) => es,
    };
    proof {
        lemma_parse_more_fuel(v@.skip(s1 as int), (v@.len() - s1 + 1) as nat, (v@.skip(
            s1 as int,
        ).len() + 1) as nat);
    }
    let mut out = rec;
    out.insert(0, e);
    proof {
        assert(views(out@) =~= seq![e@] + views(out@.subrange(1, out@.len() as int)));
    }
    Some(out)
}


/// A parsed entry carries a valid number token in `hours`.
pub proof fn lemma_parse_entry_wf(s: Seq<char>)
    ensures
        parse_entry(s) matches Some((e, r)) ==> is_number_token(e.hours),
{
    match expect(skip_ws(s), '{') {
        Option::None => {},
        Option::Some(s0) => match parse_string_member(s0, key_id()) {
            Option::None => {},
            Option::Some((id, s1)) => match expect(skip_ws(s1), ',') {
                Option::None => {},
                Option::Some(s1b) => match parse_string_member(s1b, key_place()) {
                    Option::None => {},
                    Option::Some((place, s2)) => match expect(skip_ws(s2), ',') {
                        Option::None => {},
                        Option::Some(s2b) => match parse_string_member(s2b, key_date()) {
                            Option::None => {},
                            Option::Some((date, s3)) => match expect(skip_ws(s3), ',') {
                                Option::None => {},
                                Option::Some(s3b) => {
                                    match parse_number_member(s3b, key_hours()) {
                                        Option::None => {},
                                        Option::Some((hours, s4)) => {
                                            assert(is_number_token(hours));
                                        },
                                    }
                                },
                            },
                        },
                    },
                },
            },
        },
    }
}

/// Every entry of a parsed tail carries a valid number token.
pub proof fn lemma_parse_more_wf(s: Seq<char>, fuel: nat)
    ensures
        parse_more(s, fuel) matches Some(es) ==> forall|i: int|
            0 <= i < es.len() ==> is_number_token(#[trigger] es[i].hours),
    decreases fuel,
{
    if fuel == 0 {
    } else {
        let sw = skip_ws(s);
        if sw.len() > 0 && sw[0] == ']' {
        } else {
            match expect(sw, ',') {
                Option::None => {},
                Option::Some(s1) => match parse_entry(s1) {
                    Option::None => {},
                    Option::Some((e, s2)) => {
                        lemma_parse_entry_wf(s1);
                        lemma_parse_more_wf(s2, (fuel - 1) as nat);
                        match parse_more(s2, (fuel - 1) as nat) {
                            Option::None => {},
                            Option::Some(es) => {
                                assert(forall|i: int|
                                    0 <= i < es.len() ==> (seq![e] + es)[i + 1] == es[i]);
                                assert((seq![e] + es)[0] == e);
                            },
                        }
                    },
                },
            }
        }
    }
}

/// Every entry of a parsed document carries a valid number token, so a
/// loaded collection is well formed.
pub proof fn lemma_parse_entries_wf(s: Seq<char>)
    ensures
        parse_entries(s) matches Some(vs) ==> crate::entry::wf_entries(vs),
{
    match expect(skip_ws(s), '[') {
        Option::None => {},
        Option::Some(s0) => {
            let sw = skip_ws(s0);
            if sw.len() > 0 && sw[0] == ']' {
            } else {
                match parse_entry(s0) {
                    Option::None => {},
                    Option::Some((e, s1)) => {
                        lemma_parse_entry_wf(s0);
                        lemma_parse_more_wf(s1, s1.len() + 1);
                        match parse_more(s1, s1.len() + 1) {
                            Option::None => {},
                            Option::Some(es) => {
                                assert(forall|i: int|
                                    0 <= i < es.len() ==> (seq![e] + es)[i + 1] == es[i]);
                                assert((seq![e] + es)[0] == e);
                            },
                        }
                    },
                }
            }
        },
    }
}

} // verus!
