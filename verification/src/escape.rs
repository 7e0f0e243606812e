use vstd::prelude::*;

use crate::text::push_char;

verus! {

/// The lowercase hexadecimal digit character for `d` (meaningful for
/// `0 <= d < 16`).
pub open spec fn hex_char(d: int) -> char {
    if d < 10 {
        ((48 + d) as u8) as char
    } else {
        ((87 + d) as u8) as char
    }
}

pub open spec fn spec_is_hex_lower(c: char) -> bool {
    48 <= (c as u32) <= 57 || 97 <= (c as u32) <= 102
}

pub open spec fn hex_val(c: char) -> int {
    if (c as u32) <= 57 {
        (c as u32) - 48
    } else {
        (c as u32) - 87
    }
}

/// How one character appears inside a JSON string literal: quote, backslash
/// and the named control characters get a two-character escape, any other
/// control character a `\u00..` escape, and everything else stands as itself.
pub open spec fn spec_escape_char(c: char) -> Seq<char> {
    if c == '"' {
        seq!['\\', '"']
    } else if c == '\\' {
        seq!['\\', '\\']
    } else if (c as u32) == 8 {
        seq!['\\', 'b']
    } else if c == '\t' {
        seq!['\\', 't']
    } else if c == '\n' {
        seq!['\\', 'n']
    } else if (c as u32) == 12 {
        seq!['\\', 'f']
    } else if c == '\r' {
        seq!['\\', 'r']
    } else if (c as u32) < 32 {
        seq!['\\', 'u', '0', '0', hex_char(((c as u32) / 16) as int), hex_char(
            ((c as u32) % 16) as int,
        )]
    } else {
        seq![c]
    }
}

/// The body of a JSON string literal for the text `s`: each character escaped
/// as JSON asks, without the surrounding quotes.
pub open spec fn spec_escape(s: Seq<char>) -> Seq<char>
    decreases s.len(),
{
    if s.len() == 0 {
        Seq::empty()
    } else {
        spec_escape_char(s[0]) + spec_escape(s.drop_first())
    }
}

pub open spec fn unescape_named(e: char) -> char {
    if e == 'b' {
        (8 as u8) as char
    } else if e == 't' {
        '\t'
    } else if e == 'n' {
        '\n'
    } else if e == 'f' {
        (12 as u8) as char
    } else if e == 'r' {
        '\r'
    } else {
        e
    }
}

/// Parses a JSON string literal body starting at `i` (after the opening
/// quote): the decoded text and the position after the closing quote.
pub open spec fn parse_string_body(s: Seq<char>, i: int) -> Option<(Seq<char>, int)>
    decreases s.len() - i,
{
    if i < 0 || i >= s.len() {
        None
    } else if s[i] == '"' {
        Some((Seq::empty(), i + 1))
    } else if s[i] == '\\' {
        if i + 1 < s.len() {
            let e = s[i + 1];
            if e == '"' || e == '\\' || e == 'b' || e == 't' || e == 'n' || e == 'f' || e == 'r' {
                match parse_string_body(s, i + 2) {
                    Some(t) => Some((seq![unescape_named(e)] + t.0, t.1)),
                    None => None,
                }
            } else if e == 'u' {
                if i + 5 < s.len() && s[i + 2] == '0' && s[i + 3] == '0' && spec_is_hex_lower(
                    s[i + 4],
                ) && spec_is_hex_lower(s[i + 5]) {
                    let c = ((hex_val(s[i + 4]) * 16 + hex_val(s[i + 5])) as u8) as char;
                    match parse_string_body(s, i + 6) {
                        Some(t) => Some((seq![c] + t.0, t.1)),
                        None => None,
                    }
                } else {
                    None
                }
            } else {
                None
            }
        } else {
            None
        }
    } else {
        match parse_string_body(s, i + 1) {
            Some(t) => Some((seq![s[i]] + t.0, t.1)),
            None => None,
        }
    }
}

pub(crate) proof fn lemma_char_inj(a: char, b: char)
    requires
        (a as u32) == (b as u32),
    ensures
        a == b,
{
}

proof fn lemma_hex_roundtrip(d: int)
    requires
        0 <= d < 16,
    ensures
        spec_is_hex_lower(hex_char(d)),
        hex_val(hex_char(d)) == d,
{
}

/// Escaping distributes over appending one character at the end.
pub proof fn lemma_escape_snoc(t: Seq<char>, c: char)
    ensures
        spec_escape(t.push(c)) == spec_escape(t) + spec_escape_char(c),
    decreases t.len(),
{
    let tc = t.push(c);
    assert(tc.len() == t.len() + 1);
    assert(spec_escape(tc) == spec_escape_char(tc[0]) + spec_escape(tc.drop_first()));
    if t.len() == 0 {
        assert(tc[0] == c);
        assert(tc.drop_first() =~= Seq::<char>::empty());
        assert(spec_escape(t) =~= Seq::<char>::empty());
        assert(spec_escape_char(c) + Seq::<char>::empty() =~= spec_escape(t) + spec_escape_char(
            c,
        ));
    } else {
        assert(tc.drop_first() =~= t.drop_first().push(c));
        lemma_escape_snoc(t.drop_first(), c);
        assert(tc[0] == t[0]);
        assert(spec_escape(t) == spec_escape_char(t[0]) + spec_escape(t.drop_first()));
        assert(spec_escape_char(t[0]) + (spec_escape(t.drop_first()) + spec_escape_char(c))
            =~= (spec_escape_char(t[0]) + spec_escape(t.drop_first())) + spec_escape_char(c));
    }
}

/// Parsing a string body reads back exactly the text whose escaped form it
/// was given, up to the closing quote.
pub proof fn lemma_parse_escaped(content: Seq<char>, s: Seq<char>, i: int)
    requires
        0 <= i,
        i + spec_escape(content).len() + 1 <= s.len(),
        s.subrange(i, i + spec_escape(content).len() as int) == spec_escape(content),
        s[i + spec_escape(content).len() as int] == '"',
    ensures
        parse_string_body(s, i) == Some(
            (content, i + spec_escape(content).len() + 1),
        ),
    decreases content.len(),
{
    let esc = spec_escape(content);
    if content.len() == 0 {
        assert(s[i] == '"');
    } else {
        let c = content[0];
        let ec = spec_escape_char(c);
        let rest = content.drop_first();
        let esc_rest = spec_escape(rest);
        assert(esc == ec + esc_rest);
        assert forall|k: int| 0 <= k < ec.len() implies s[i + k] == ec[k] by {
            assert(s.subrange(i, i + esc.len() as int)[k] == s[i + k]);
            assert(esc[k] == ec[k]);
        }
        let i2 = i + ec.len() as int;
        assert(s.subrange(i2, i2 + esc_rest.len() as int) =~= esc_rest) by {
            assert(forall|k: int|
                0 <= k < esc_rest.len() ==> s.subrange(i2, i2 + esc_rest.len() as int)[k] == s[i2
                    + k] && s.subrange(i, i + esc.len() as int)[ec.len() + k] == s[i2 + k]
                    && esc[ec.len() + k] == #[trigger] esc_rest[k]);
        }
        lemma_parse_escaped(rest, s, i2);
        assert(seq![c] + rest =~= content);
        if c == '"' || c == '\\' {
            assert(s[i] == ec[0] && s[i + 1] == ec[1]);
            assert(ec[0] == '\\' && ec[1] == c);
            assert(unescape_named(c) == c);
        } else if (c as u32) == 8 || c == '\t' || c == '\n' || (c as u32) == 12 || c == '\r' {
            assert(s[i] == ec[0] && s[i + 1] == ec[1]);
            assert(ec[0] == '\\');
            if (c as u32) == 8 {
                assert(ec[1] == 'b');
                assert(unescape_named('b') == ((8 as u8) as char));
                assert(((8 as u8) as char) as u32 == 8);
                lemma_char_inj(unescape_named(s[i + 1]), c);
                assert(unescape_named(s[i + 1]) == c);
            } else if c == '\t' {
                assert(ec[1] == 't');
                assert(unescape_named(s[i + 1]) == c);
            } else if c == '\n' {
                assert(ec[1] == 'n');
                assert(unescape_named(s[i + 1]) == c);
            } else if (c as u32) == 12 {
                assert(ec[1] == 'f');
                assert(unescape_named('f') == ((12 as u8) as char));
                assert(((12 as u8) as char) as u32 == 12);
                lemma_char_inj(unescape_named(s[i + 1]), c);
                assert(unescape_named(s[i + 1]) == c);
            } else {
                assert(ec[1] == 'r');
                assert(unescape_named(s[i + 1]) == c);
            }
        } else if (c as u32) < 32 {
            let u = c as u32;
            let h1 = (u / 16) as int;
            let h2 = (u % 16) as int;
            lemma_hex_roundtrip(h1);
            lemma_hex_roundtrip(h2);
            assert(s[i] == ec[0] && s[i + 1] == ec[1] && s[i + 2] == ec[2] && s[i + 3] == ec[3]
                && s[i + 4] == ec[4] && s[i + 5] == ec[5]);
            assert(ec[0] == '\\' && ec[1] == 'u' && ec[2] == '0' && ec[3] == '0');
            assert(ec[4] == hex_char(h1) && ec[5] == hex_char(h2));
            assert(hex_val(s[i + 4]) == h1 && hex_val(s[i + 5]) == h2);
            assert(hex_val(s[i + 4]) * 16 + hex_val(s[i + 5]) == u);
            assert((((hex_val(s[i + 4]) * 16 + hex_val(s[i + 5])) as u8) as char) as u32 == u);
            lemma_char_inj(((hex_val(s[i + 4]) * 16 + hex_val(s[i + 5])) as u8) as char, c);
            assert(((hex_val(s[i + 4]) * 16 + hex_val(s[i + 5])) as u8) as char == c);
        } else {
            assert(s[i] == ec[0]);
            assert(ec[0] == c);
            assert(c != '"' && c != '\\');
        }
    }
}

fn hex_char_exec(d: u32) -> (c: char)
    requires
        d < 16,
    ensures
        c == hex_char(d as int),
{
    if d < 10 {
        ((48 + d) as u8) as char
    } else {
        ((87 + d) as u8) as char
    }
}

/// Appends the escaped form of `s` to `out`.
pub fn append_escaped(out: &mut String, s: &str)
    ensures
        final(out)@ == old(out)@ + spec_escape(s@),
{
    let n = s.unicode_len();
    let mut i: usize = 0;
    proof {
        assert(s@.subrange(0, 0) =~= Seq::<char>::empty());
        assert(out@ =~= out@ + spec_escape(s@.subrange(0, 0)));
    }
    while i < n
        invariant
            i <= n,
            n as int == s@.len(),
            out@ == old(out)@ + spec_escape(s@.subrange(0, i as int)),
        decreases n - i,
    {
        let c = s.get_char(i);
        let u = c as u32;
        if u == 34 {
            push_char(out, '\\');
            push_char(out, '"');
        } else if u == 92 {
            push_char(out, '\\');
            push_char(out, '\\');
        } else if u == 8 {
            push_char(out, '\\');
            push_char(out, 'b');
        } else if u == 9 {
            push_char(out, '\\');
            push_char(out, 't');
        } else if u == 10 {
            push_char(out, '\\');
            push_char(out, 'n');
        } else if u == 12 {
            push_char(out, '\\');
            push_char(out, 'f');
        } else if u == 13 {
            push_char(out, '\\');
            push_char(out, 'r');
        } else if u < 32 {
            push_char(out, '\\');
            push_char(out, 'u');
            push_char(out, '0');
            push_char(out, '0');
            push_char(out, hex_char_exec(u / 16));
            push_char(out, hex_char_exec(u % 16));
        } else {
            push_char(out, c);
        }
        proof {
            lemma_escape_snoc(s@.subrange(0, i as int), c);
            assert(s@.subrange(0, i + 1) =~= s@.subrange(0, i as int).push(c));
            assert(out@ =~= old(out)@ + spec_escape(s@.subrange(0, i + 1)));
        }
        i = i + 1;
    }
    proof {
        assert(s@.subrange(0, n as int) =~= s@);
    }
}

/// Reads a JSON string literal body at `i` (after the opening quote).
/// Returns the decoded text and the position after the closing quote.
pub fn parse_string_at(s: &str, i: usize, n: usize) -> (r: Option<(String, usize)>)
    requires
        n as int == s@.len(),
        i <= n,
    ensures
        match r {
            Some(t) => parse_string_body(s@, i as int) == Some((t.0@, t.1 as int)) && t.1 <= n,
            None => parse_string_body(s@, i as int) is None,
        },
{
    let mut out = String::new();
    let mut k: usize = i;
    loop
        invariant
            i <= k <= n,
            n as int == s@.len(),
            match parse_string_body(s@, k as int) {
                Some(t) => parse_string_body(s@, i as int) == Some((out@ + t.0, t.1)),
                None => parse_string_body(s@, i as int) is None,
            },
        decreases n - k,
    {
        if k == n {
            return None;
        }
        let c = s.get_char(k);
        let u = c as u32;
        if u == 34 {
            proof {
                assert(out@ + Seq::<char>::empty() =~= out@);
            }
            return Some((out, k + 1));
        }
        if u == 92 {
            if k + 1 == n {
                return None;
            }
            let e = s.get_char(k + 1);
            let eu = e as u32;
            if eu == 34 || eu == 92 || eu == 98 || eu == 116 || eu == 110 || eu == 102 || eu
                == 114 {
                let decoded = if eu == 98 {
                    (8 as u8) as char
                } else if eu == 116 {
                    '\t'
                } else if eu == 110 {
                    '\n'
                } else if eu == 102 {
                    (12 as u8) as char
                } else if eu == 114 {
                    '\r'
                } else {
                    e
                };
                proof {
                    assert(decoded == unescape_named(s@[k + 1]));
                    match parse_string_body(s@, k + 2) {
                        Some(t) => {
                            assert(out@.push(decoded) + t.0 =~= out@ + (seq![decoded] + t.0));
                        },
                        None => {},
                    }
                }
                push_char(&mut out, decoded);
                k = k + 2;
            } else if eu == 117 {
                if n - k <= 5 {
                    return None;
                }
                let z1 = s.get_char(k + 2);
                let z2 = s.get_char(k + 3);
                if (z1 as u32) != 48 || (z2 as u32) != 48 {
                    return None;
                }
                let h1 = s.get_char(k + 4);
                let h2 = s.get_char(k + 5);
                let h1u = h1 as u32;
                let h2u = h2 as u32;
                let h1_ok = (48 <= h1u && h1u <= 57) || (97 <= h1u && h1u <= 102);
                let h2_ok = (48 <= h2u && h2u <= 57) || (97 <= h2u && h2u <= 102);
                if !h1_ok || !h2_ok {
                    return None;
                }
                let v1 = if h1u <= 57 {
                    h1u - 48
                } else {
                    h1u - 87
                };
                let v2 = if h2u <= 57 {
                    h2u - 48
                } else {
                    h2u - 87
                };
                let decoded = ((v1 * 16 + v2) as u8) as char;
                proof {
                    assert(v1 as int == hex_val(s@[k + 4]) && v2 as int == hex_val(s@[k + 5]));
                    match parse_string_body(s@, k + 6) {
                        Some(t) => {
                            assert(out@.push(decoded) + t.0 =~= out@ + (seq![decoded] + t.0));
                        },
                        None => {},
                    }
                }
                push_char(&mut out, decoded);
                k = k + 6;
            } else {
                return None;
            }
        } else {
            proof {
                match parse_string_body(s@, k + 1) {
                    Some(t) => {
                        assert(out@.push(c) + t.0 =~= out@ + (seq![c] + t.0));
                    },
                    None => {},
                }
            }
            push_char(&mut out, c);
            k = k + 1;
        }
    }
}

} // verus!
