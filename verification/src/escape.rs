//! JSON string escaping and its inverse. The encoder escapes the quote,
//! the backslash and all control characters; the parser understands the
//! short escapes, `\u00XX`, and plain characters.
use vstd::prelude::*;
use crate::hex::{hex_digit, hex_val, is_hex_digit, hex_digit_exec, lemma_hex_digit_val};

verus! {

/// The escape sequence a character is written as inside a JSON string:
/// itself when it needs no escape, a two-character short escape, or
/// `\u00XX` for the remaining control characters.
pub open spec fn escape_char(c: char) -> Seq<char> {
    if c == '"' {
        seq!['\\', '"']
    } else if c == '\\' {
        seq!['\\', '\\']
    } else if c == '\u{08}' {
        seq!['\\', 'b']
    } else if c == '\u{0c}' {
        seq!['\\', 'f']
    } else if c == '\n' {
        seq!['\\', 'n']
    } else if c == '\r' {
        seq!['\\', 'r']
    } else if c == '\t' {
        seq!['\\', 't']
    } else if (c as u32) < 0x20 {
        seq!['\\', 'u', '0', '0', hex_digit(((c as u32) / 16) as nat), hex_digit(
            ((c as u32) % 16) as nat,
        )]
    } else {
        seq![c]
    }
}

/// The body of the JSON string that renders `s`.
pub open spec fn escape_string(s: Seq<char>) -> Seq<char>
    decreases s.len(),
{
    if s.len() == 0 {
        Seq::empty()
    } else {
        escape_char(s[0]) + escape_string(s.skip(1))
    }
}

/// Escaping character by character from the left is the same as
/// escaping the last character after the rest.
pub proof fn lemma_escape_snoc(s: Seq<char>, c: char)
    ensures
        escape_string(s.push(c)) == escape_string(s) + escape_char(c),
    decreases s.len(),
{
    if s.len() == 0 {
        assert(s.push(c)[0] == c);
        assert(s.push(c).skip(1) =~= Seq::<char>::empty());
        assert(escape_string(s.push(c)) == escape_char(c) + escape_string(Seq::<char>::empty()));
        assert(escape_char(c) + Seq::<char>::empty() =~= escape_char(c));
        assert(escape_string(s) + escape_char(c) =~= escape_char(c));
    } else {
        assert(s.push(c)[0] == s[0]);
        assert(s.push(c).skip(1) =~= s.skip(1).push(c));
        lemma_escape_snoc(s.skip(1), c);
        assert(escape_char(s[0]) + (escape_string(s.skip(1)) + escape_char(c)) =~= (escape_char(
            s[0],
        ) + escape_string(s.skip(1))) + escape_char(c));
    }
}

/// The character a short escape code stands for.
pub open spec fn unescape_code(c: char) -> Option<char> {
    if c == '"' {
        Some('"')
    } else if c == '\\' {
        Some('\\')
    } else if c == '/' {
        Some('/')
    } else if c == 'b' {
        Some('\u{08}')
    } else if c == 'f' {
        Some('\u{0c}')
    } else if c == 'n' {
        Some('\n')
    } else if c == 'r' {
        Some('\r')
    } else if c == 't' {
        Some('\t')
    } else {
        None
    }
}

/// Parses the body of a JSON string up to and including the closing
/// quote. Returns the unescaped content and the remaining input, or
/// `None` when the input up to the next quote is not a well-formed
/// string body (an unknown escape, a `\u` escape outside `\u00XX`, a
/// raw control character, or no closing quote at all).
pub open spec fn parse_string_body(s: Seq<char>) -> Option<(Seq<char>, Seq<char>)>
    decreases s.len(),
{
    if s.len() == 0 {
        None
    } else if s[0] == '"' {
        Some((Seq::empty(), s.skip(1)))
    } else if s[0] == '\\' {
        if s.len() < 2 {
            None
        } else if s[1] == 'u' {
            if s.len() < 6 {
                None
            } else if s[2] == '0' && s[3] == '0' && is_hex_digit(s[4]) && is_hex_digit(s[5]) {
                prepend_parsed(
                    (((16 * hex_val(s[4]) + hex_val(s[5])) as u32) as char),
                    parse_string_body(s.skip(6)),
                )
            } else {
                None
            }
        } else {
            match unescape_code(s[1]) {
                Option::None => None,
                Option::Some(ch) => prepend_parsed(ch, parse_string_body(s.skip(2))),
            }
        }
    } else if (s[0] as u32) < 0x20 {
        None
    } else {
        prepend_parsed(s[0], parse_string_body(s.skip(1)))
    }
}

/// Prepends one parsed character to the content of a parse result.
pub open spec fn prepend_parsed(c: char, o: Option<(Seq<char>, Seq<char>)>) -> Option<
    (Seq<char>, Seq<char>),
> {
    match o {
        Option::None => None,
        Option::Some((t, r)) => Some((seq![c] + t, r)),
    }
}

/// Prepends a whole sequence to the content of a parse result.
pub open spec fn prepend_all(pre: Seq<char>, o: Option<(Seq<char>, Seq<char>)>) -> Option<
    (Seq<char>, Seq<char>),
> {
    match o {
        Option::None => None,
        Option::Some((t, r)) => Some((pre + t, r)),
    }
}

pub proof fn lemma_prepend_all_empty(o: Option<(Seq<char>, Seq<char>)>)
    ensures
        prepend_all(Seq::empty(), o) == o,
{
    match o {
        Option::None => {},
        Option::Some((t, r)) => {
            assert(Seq::<char>::empty() + t =~= t);
        },
    }
}

pub proof fn lemma_prepend_all_one(pre: Seq<char>, c: char, o: Option<(Seq<char>, Seq<char>)>)
    ensures
        prepend_all(pre, prepend_parsed(c, o)) == prepend_all(pre.push(c), o),
{
    match o {
        Option::None => {},
        Option::Some((t, r)) => {
            assert(pre + (seq![c] + t) =~= pre.push(c) + t);
        },
    }
}

/// The string parser undoes the escaper: the escaped rendering of any
/// content, followed by the closing quote and anything after it, parses
/// back to exactly that content.
#[verifier::rlimit(50)]
pub proof fn lemma_parse_escaped(content: Seq<char>, rest: Seq<char>)
    ensures
        parse_string_body(escape_string(content) + seq!['"'] + rest) == Some::<
            (Seq<char>, Seq<char>),
        >((content, rest)),
    decreases content.len(),
{
    if content.len() == 0 {
        let s = escape_string(content) + seq!['"'] + rest;
        assert(s =~= seq!['"'] + rest);
        assert(s[0] == '"');
        assert(s.skip(1) =~= rest);
        assert(Seq::<char>::empty() =~= content);
    } else {
        let c0 = content[0];
        let e = escape_char(c0);
        let tail = escape_string(content.skip(1)) + seq!['"'] + rest;
        let s = escape_string(content) + seq!['"'] + rest;
        assert(s =~= e + tail);
        lemma_parse_escaped(content.skip(1), rest);
        assert(seq![c0] + content.skip(1) =~= content);
        if c0 == '"' || c0 == '\\' || c0 == '\u{08}' || c0 == '\u{0c}' || c0 == '\n' || c0 == '\r'
            || c0 == '\t' {
            assert(e.len() == 2 && e[0] == '\\' && s[0] == '\\' && s[1] == e[1]);
            assert(s.skip(2) =~= tail);
            assert(unescape_code(e[1]) == Some(c0));
            assert(parse_string_body(s) == prepend_parsed(c0, parse_string_body(s.skip(2))));
        } else if (c0 as u32) < 0x20 {
            let u = c0 as u32;
            assert(e == seq!['\\', 'u', '0', '0', hex_digit((u / 16) as nat), hex_digit(
                (u % 16) as nat,
            )]);
            assert(s[0] == '\\' && s[1] == 'u' && s[2] == '0' && s[3] == '0');
            assert(s[4] == hex_digit((u / 16) as nat) && s[5] == hex_digit((u % 16) as nat));
            lemma_hex_digit_val((u / 16) as nat);
            lemma_hex_digit_val((u % 16) as nat);
            assert(16 * hex_val(s[4]) + hex_val(s[5]) == u);
            vstd::utf8::char_u32_cast(c0, u);
            assert(((u as u32) as char) == c0);
            assert(s.skip(6) =~= tail);
            assert(parse_string_body(s) == prepend_parsed(
                (((16 * hex_val(s[4]) + hex_val(s[5])) as u32) as char),
                parse_string_body(s.skip(6)),
            ));
        } else {
            assert(e == seq![c0]);
            assert(s[0] == c0);
            assert(s.skip(1) =~= tail);
            assert(parse_string_body(s) == prepend_parsed(c0, parse_string_body(s.skip(1))));
        }
    }
}

/// The executable counterpart of `unescape_code`.
fn unescape_code_exec(c: char) -> (r: Option<char>)
    ensures
        r == unescape_code(c),
{
    if c == '"' {
        Some('"')
    } else if c == '\\' {
        Some('\\')
    } else if c == '/' {
        Some('/')
    } else if c == 'b' {
        Some('\u{08}')
    } else if c == 'f' {
        Some('\u{0c}')
    } else if c == 'n' {
        Some('\n')
    } else if c == 'r' {
        Some('\r')
    } else if c == 't' {
        Some('\t')
    } else {
        None
    }
}

/// The executable counterpart of `hex_val`.
fn hex_val_exec(c: char) -> (d: u8)
    ensures
        d as nat == hex_val(c),
{
    let u = c as u32;
    if ('0' as u32) <= u && u <= ('9' as u32) {
        (u - ('0' as u32)) as u8
    } else if ('a' as u32) <= u && u <= ('f' as u32) {
        (u - ('a' as u32) + 10) as u8
    } else {
        16
    }
}

/// Appends the escaped rendering of one character.
pub fn push_escape_char(out: &mut Vec<char>, c: char)
    ensures
        final(out)@ == old(out)@ + escape_char(c),
{
    if c == '"' {
        out.push('\\');
        out.push('"');
    } else if c == '\\' {
        out.push('\\');
        out.push('\\');
    } else if c == '\u{08}' {
        out.push('\\');
        out.push('b');
    } else if c == '\u{0c}' {
        out.push('\\');
        out.push('f');
    } else if c == '\n' {
        out.push('\\');
        out.push('n');
    } else if c == '\r' {
        out.push('\\');
        out.push('r');
    } else if c == '\t' {
        out.push('\\');
        out.push('t');
    } else if (c as u32) < 0x20 {
        let u = c as u32;
        out.push('\\');
        out.push('u');
        out.push('0');
        out.push('0');
        out.push(hex_digit_exec((u / 16) as u8));
        out.push(hex_digit_exec((u % 16) as u8));
    } else {
        out.push(c);
    }
    assert(final(out)@ =~= old(out)@ + escape_char(c));
}

/// Parses a string body out of `v` starting at `i` (just past the
/// opening quote); on success returns the content and the position just
/// past the closing quote.
pub fn parse_string_body_exec(v: &Vec<char>, i: usize) -> (r: Option<(Vec<char>, usize)>)
    requires
        i <= v@.len(),
    ensures
        match r {
            Option::Some((t, j)) => i <= j <= v@.len() && parse_string_body(v@.skip(i as int))
                == Some::<(Seq<char>, Seq<char>)>((t@, v@.skip(j as int))),
            Option::None => parse_string_body(v@.skip(i as int)) is None,
        },
{
    let ghost s0 = v@.skip(i as int);
    let mut acc: Vec<char> = Vec::new();
    let mut j: usize = i;
    proof {
        lemma_prepend_all_empty(parse_string_body(s0));
    }
    loop
        invariant
            i <= j <= v@.len(),
            s0 == v@.skip(i as int),
            parse_string_body(s0) == prepend_all(acc@, parse_string_body(v@.skip(j as int))),
        decreases v@.len() - j,
    {
        let ghost sj = v@.skip(j as int);
        if j == v.len() {
            proof {
                assert(sj.len() == 0);
            }
            return None;
        }
        proof {
            assert(sj.len() > 0 && sj[0] == v@[j as int]);
        }
        let c = v[j];
        if c == '"' {
            proof {
                assert(sj.skip(1) =~= v@.skip(j + 1));
                assert(parse_string_body(sj) == Some::<(Seq<char>, Seq<char>)>(
                    (Seq::empty(), v@.skip(j + 1)),
                ));
                assert(acc@ + Seq::<char>::empty() =~= acc@);
            }
            return Some((acc, j + 1));
        } else if c == '\\' {
            if j + 1 >= v.len() {
                proof {
                    assert(sj.len() < 2);
                }
                return None;
            }
            proof {
                assert(sj[1] == v@[j + 1]);
            }
            let c2 = v[j + 1];
            if c2 == 'u' {
                if v.len() - j < 6 {
                    proof {
                        assert(sj.len() < 6);
                    }
                    return None;
                }
                proof {
                    assert(sj[2] == v@[j + 2] && sj[3] == v@[j + 3] && sj[4] == v@[j + 4] && sj[5]
                        == v@[j + 5]);
                }
                let d1 = hex_val_exec(v[j + 4]);
                let d2 = hex_val_exec(v[j + 5]);
                if !(v[j + 2] == '0' && v[j + 3] == '0' && d1 < 16 && d2 < 16) {
                    return None;
                }
                let code: u8 = 16 * d1 + d2;
                let ch = code as char;
                proof {
                    assert(ch == (((16 * hex_val(sj[4]) + hex_val(sj[5])) as u32) as char));
                    assert(parse_string_body(sj) == prepend_parsed(
                        ch,
                        parse_string_body(sj.skip(6)),
                    ));
                    assert(sj.skip(6) =~= v@.skip(j + 6));
                    lemma_prepend_all_one(acc@, ch, parse_string_body(v@.skip(j + 6)));
                }
                acc.push(ch);
                j = j + 5;
                j = j + 1;
            } else {
                match unescape_code_exec(c2) {
                    Option::None => {
                        return None;
                    },
                    Option::Some(ch) => {
                        proof {
                            assert(parse_string_body(sj) == prepend_parsed(
                                ch,
                                parse_string_body(sj.skip(2)),
                            ));
                            assert(sj.skip(2) =~= v@.skip(j + 2));
                            lemma_prepend_all_one(acc@, ch, parse_string_body(v@.skip(j + 2)));
                        }
                        acc.push(ch);
                        j = j + 2;
                    },
                }
            }
        } else if (c as u32) < 0x20 {
            return None;
        } else {
            proof {
                assert(parse_string_body(sj) == prepend_parsed(c, parse_string_body(sj.skip(1))));
                assert(sj.skip(1) =~= v@.skip(j + 1));
                lemma_prepend_all_one(acc@, c, parse_string_body(v@.skip(j + 1)));
            }
            acc.push(c);
            j = j + 1;
        }
    }
}

} // verus!
