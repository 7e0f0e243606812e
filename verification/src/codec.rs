use vstd::prelude::*;

use crate::escape::{append_escaped, parse_string_at, parse_string_body, spec_escape};
use crate::job_model::{JobData, JobView};
use crate::numerals::{
    append_dec_i64, append_dec_u64, parse_i64_at, parse_signed, parse_u64_at, parse_unsigned,
    spec_dec_int, spec_dec_nat,
};
use crate::text::push_char;

verus! {

// The job wire format is one JSON object with exactly the fields of the data
// model, in a fixed order, with absent optionals written as `null`. The
// literal runs between the values are named here once; the encoder writes
// them and the decoder demands them.
pub open spec fn tok_open_id() -> Seq<char> {
    seq!['{', '"', 'i', 'd', '"', ':', '"']
}

pub open spec fn tok_message() -> Seq<char> {
    seq![',', '"', 'm', 'e', 's', 's', 'a', 'g', 'e', '"', ':', '"']
}

pub open spec fn tok_timestamp() -> Seq<char> {
    seq![',', '"', 't', 'i', 'm', 'e', 's', 't', 'a', 'm', 'p', '"', ':', '"']
}

pub open spec fn tok_priority() -> Seq<char> {
    seq![',', '"', 'p', 'r', 'i', 'o', 'r', 'i', 't', 'y', '"', ':']
}

pub open spec fn tok_delay() -> Seq<char> {
    seq![',', '"', 'd', 'e', 'l', 'a', 'y', '"', ':']
}

pub open spec fn tok_retries() -> Seq<char> {
    seq![',', '"', 'r', 'e', 't', 'r', 'i', 'e', 's', '"', ':']
}

pub open spec fn tok_expires_in() -> Seq<char> {
    seq![',', '"', 'e', 'x', 'p', 'i', 'r', 'e', 's', '_', 'i', 'n', '"', ':']
}

pub open spec fn tok_progress() -> Seq<char> {
    seq![',', '"', 'p', 'r', 'o', 'g', 'r', 'e', 's', 's', '"', ':']
}

pub open spec fn tok_null() -> Seq<char> {
    seq!['n', 'u', 'l', 'l']
}

pub open spec fn quote_seq() -> Seq<char> {
    seq!['"']
}

pub open spec fn close_seq() -> Seq<char> {
    seq!['}']
}

pub open spec fn spec_opt_u32_text(o: Option<u32>) -> Seq<char> {
    match o {
        Option::None => tok_null(),
        Option::Some(v) => spec_dec_nat(v as nat),
    }
}

pub open spec fn spec_opt_i32_text(o: Option<i32>) -> Seq<char> {
    match o {
        Option::None => tok_null(),
        Option::Some(v) => spec_dec_int(v as int),
    }
}

pub open spec fn spec_opt_i64_text(o: Option<i64>) -> Seq<char> {
    match o {
        Option::None => tok_null(),
        Option::Some(v) => spec_dec_int(v as int),
    }
}

/// The serialized form of a job: what the encoder returns, character for
/// character.
pub open spec fn spec_encode_job(v: JobView) -> Seq<char> {
    tok_open_id() + spec_escape(v.id) + quote_seq() + tok_message() + spec_escape(v.message)
        + quote_seq() + tok_timestamp() + spec_escape(v.timestamp) + quote_seq() + tok_priority()
        + spec_opt_i32_text(v.priority) + tok_delay() + spec_opt_i64_text(v.delay) + tok_retries()
        + spec_opt_u32_text(v.retries) + tok_expires_in() + spec_opt_i64_text(v.expires_in)
        + tok_progress() + spec_opt_u32_text(v.progress) + close_seq()
}

/// Demands the literal run `tok` at position `i`; the position after it.
pub open spec fn parse_lit(s: Seq<char>, i: int, tok: Seq<char>) -> Option<int> {
    if 0 <= i && i + tok.len() <= s.len() && s.subrange(i, i + tok.len() as int) == tok {
        Some(i + tok.len() as int)
    } else {
        None
    }
}

pub open spec fn parse_opt_u32(s: Seq<char>, i: int) -> Option<(Option<u32>, int)> {
    match parse_lit(s, i, tok_null()) {
        Some(j) => Some((Option::None, j)),
        None => match parse_unsigned(s, i) {
            Some(vj) => if vj.0 <= u32::MAX {
                Some((Option::Some(vj.0 as u32), vj.1))
            } else {
                None
            },
            None => None,
        },
    }
}

pub open spec fn parse_opt_i32(s: Seq<char>, i: int) -> Option<(Option<i32>, int)> {
    match parse_lit(s, i, tok_null()) {
        Some(j) => Some((Option::None, j)),
        None => match parse_signed(s, i) {
            Some(vj) => if i32::MIN <= vj.0 <= i32::MAX {
                Some((Option::Some(vj.0 as i32), vj.1))
            } else {
                None
            },
            None => None,
        },
    }
}

pub open spec fn parse_opt_i64(s: Seq<char>, i: int) -> Option<(Option<i64>, int)> {
    match parse_lit(s, i, tok_null()) {
        Some(j) => Some((Option::None, j)),
        None => match parse_signed(s, i) {
            Some(vj) => if i64::MIN <= vj.0 <= i64::MAX {
                Some((Option::Some(vj.0 as i64), vj.1))
            } else {
                None
            },
            None => None,
        },
    }
}

/// The meaning of a serialized payload: the job it denotes, or nothing when
/// the text is not a serialized job.
pub open spec fn spec_decode_job(s: Seq<char>) -> Option<JobView> {
    match parse_lit(s, 0, tok_open_id()) {
        None => None,
        Some(i1) => match parse_string_body(s, i1) {
            None => None,
            Some(id_i) => match parse_lit(s, id_i.1, tok_message()) {
                None => None,
                Some(i2) => match parse_string_body(s, i2) {
                    None => None,
                    Some(msg_i) => match parse_lit(s, msg_i.1, tok_timestamp()) {
                        None => None,
                        Some(i3) => match parse_string_body(s, i3) {
                            None => None,
                            Some(ts_i) => match parse_lit(s, ts_i.1, tok_priority()) {
                                None => None,
                                Some(i4) => match parse_opt_i32(s, i4) {
                                    None => None,
                                    Some(pr_i) => match parse_lit(s, pr_i.1, tok_delay()) {
                                        None => None,
                                        Some(i5) => match parse_opt_i64(s, i5) {
                                            None => None,
                                            Some(dl_i) => match parse_lit(
                                                s,
                                                dl_i.1,
                                                tok_retries(),
                                            ) {
                                                None => None,
                                                Some(i6) => match parse_opt_u32(s, i6) {
                                                    None => None,
                                                    Some(rt_i) => match parse_lit(
                                                        s,
                                                        rt_i.1,
                                                        tok_expires_in(),
                                                    ) {
                                                        None => None,
                                                        Some(i7) => match parse_opt_i64(s, i7) {
                                                            None => None,
                                                            Some(ex_i) => match parse_lit(
                                                                s,
                                                                ex_i.1,
                                                                tok_progress(),
                                                            ) {
                                                                None => None,
                                                                Some(i8) => match parse_opt_u32(
                                                                    s,
                                                                    i8,
                                                                ) {
                                                                    None => None,
                                                                    Some(pg_i) => match parse_lit(
                                                                        s,
                                                                        pg_i.1,
                                                                        close_seq(),
                                                                    ) {
                                                                        None => None,
                                                                        Some(end) => if end
                                                                            == s.len() {
                                                                            Some(
                                                                                JobView {
                                                                                    id: id_i.0,
                                                                                    message: msg_i.0,
                                                                                    timestamp: ts_i.0,
                                                                                    priority: pr_i.0,
                                                                                    delay: dl_i.0,
                                                                                    retries: rt_i.0,
                                                                                    expires_in: ex_i.0,
                                                                                    progress: pg_i.0,
                                                                                },
                                                                            )
                                                                        } else {
                                                                            None
                                                                        },
                                                                    },
                                                                },
                                                            },
                                                        },
                                                    },
                                                },
                                            },
                                        },
                                    },
                                },
                            },
                        },
                    },
                },
            },
        },
    }
}

/// Demands the literal run `tok` at position `i` of `s`.
fn eat_lit(s: &str, i: usize, n: usize, tok: &str) -> (r: Option<usize>)
    requires
        n as int == s@.len(),
        i <= n,
    ensures
        match r {
            Some(j) => parse_lit(s@, i as int, tok@) == Some(j as int) && i <= j <= n,
            None => parse_lit(s@, i as int, tok@) is None,
        },
{
    let m = tok.unicode_len();
    if n - i < m {
        return None;
    }
    let mut k: usize = 0;
    while k < m
        invariant
            k <= m,
            m as int == tok@.len(),
            n as int == s@.len(),
            i <= n,
            i + m <= n,
            forall|t: int| 0 <= t < k ==> s@[i + t] == tok@[t],
        decreases m - k,
    {
        let a = s.get_char(i + k);
        let b = tok.get_char(k);
        if (a as u32) != (b as u32) {
            proof {
                assert(s@[i + k] != tok@[k as int]);
                if parse_lit(s@, i as int, tok@) is Some {
                    assert(s@.subrange(i as int, i + tok@.len() as int)[k as int] == tok@[k as int]);
                }
            }
            return None;
        }
        proof {
            crate::escape::lemma_char_inj(a, b);
        }
        k = k + 1;
    }
    proof {
        assert(s@.subrange(i as int, i + tok@.len() as int) =~= tok@);
    }
    Some(i + m)
}

/// Reads an optional unsigned field value at `i`: `null` or a numeral that
/// fits a `u32`.
fn parse_opt_u32_at(s: &str, i: usize, n: usize) -> (r: Option<(Option<u32>, usize)>)
    requires
        n as int == s@.len(),
        i <= n,
    ensures
        match r {
            Some(vj) => parse_opt_u32(s@, i as int) == Some((vj.0, vj.1 as int)) && vj.1 <= n,
            None => parse_opt_u32(s@, i as int) is None,
        },
{
    proof {
        reveal_strlit("null");
        assert("null"@ =~= tok_null());
    }
    match eat_lit(s, i, n, "null") {
        Some(j) => Some((None, j)),
        None => {
            match parse_u64_at(s, i, n) {
                Some((v, j)) => {
                    if v <= 0xFFFF_FFFFu64 {
                        proof {
                            crate::numerals::lemma_digits_end_props(s@, i as int);
                        }
                        Some((Some(v as u32), j))
                    } else {
                        None
                    }
                },
                None => None,
            }
        },
    }
}

/// Reads an optional signed field value at `i`: `null` or a numeral that fits
/// an `i64`.
fn parse_opt_i64_at(s: &str, i: usize, n: usize) -> (r: Option<(Option<i64>, usize)>)
    requires
        n as int == s@.len(),
        i <= n,
    ensures
        match r {
            Some(vj) => parse_opt_i64(s@, i as int) == Some((vj.0, vj.1 as int)) && vj.1 <= n,
            None => parse_opt_i64(s@, i as int) is None,
        },
{
    proof {
        reveal_strlit("null");
        assert("null"@ =~= tok_null());
    }
    match eat_lit(s, i, n, "null") {
        Some(j) => Some((None, j)),
        None => {
            match parse_i64_at(s, i, n) {
                Some((v, j)) => {
                    proof {
                        lemma_parse_signed_end(s@, i as int);
                    }
                    Some((Some(v), j))
                },
                None => None,
            }
        },
    }
}

/// Reads an optional signed field value at `i`: `null` or a numeral that fits
/// an `i32`.
fn parse_opt_i32_at(s: &str, i: usize, n: usize) -> (r: Option<(Option<i32>, usize)>)
    requires
        n as int == s@.len(),
        i <= n,
    ensures
        match r {
            Some(vj) => parse_opt_i32(s@, i as int) == Some((vj.0, vj.1 as int)) && vj.1 <= n,
            None => parse_opt_i32(s@, i as int) is None,
        },
{
    proof {
        reveal_strlit("null");
        assert("null"@ =~= tok_null());
    }
    match eat_lit(s, i, n, "null") {
        Some(j) => Some((None, j)),
        None => {
            match parse_i64_at(s, i, n) {
                Some((v, j)) => {
                    if -2147483648i64 <= v && v <= 2147483647i64 {
                        proof {
                            lemma_parse_signed_end(s@, i as int);
                        }
                        Some((Some(v as i32), j))
                    } else {
                        None
                    }
                },
                None => None,
            }
        },
    }
}

/// The position after a parsed numeral never passes the end of the text.
proof fn lemma_parse_signed_end(s: Seq<char>, i: int)
    requires
        0 <= i <= s.len(),
    ensures
        match parse_signed(s, i) {
            Some(vj) => i <= vj.1 <= s.len(),
            None => true,
        },
{
    crate::numerals::lemma_digits_end_props(s, i);
    if i < s.len() && s[i] == '-' {
        crate::numerals::lemma_digits_end_props(s, i + 1);
    }
}

/// Deserializes a payload, accepting exactly the texts that
/// [`spec_decode_job`] gives a meaning.
pub fn decode_job(s: &str) -> (r: Option<JobData>)
    ensures
        match r {
            Some(j) => spec_decode_job(s@) == Some(j@),
            None => spec_decode_job(s@) is None,
        },
{
    proof {
        reveal_strlit("{\"id\":\"");
        assert("{\"id\":\""@ =~= tok_open_id());
        reveal_strlit(",\"message\":\"");
        assert(",\"message\":\""@ =~= tok_message());
        reveal_strlit(",\"timestamp\":\"");
        assert(",\"timestamp\":\""@ =~= tok_timestamp());
        reveal_strlit(",\"priority\":");
        assert(",\"priority\":"@ =~= tok_priority());
        reveal_strlit(",\"delay\":");
        assert(",\"delay\":"@ =~= tok_delay());
        reveal_strlit(",\"retries\":");
        assert(",\"retries\":"@ =~= tok_retries());
        reveal_strlit(",\"expires_in\":");
        assert(",\"expires_in\":"@ =~= tok_expires_in());
        reveal_strlit(",\"progress\":");
        assert(",\"progress\":"@ =~= tok_progress());
        reveal_strlit("}");
        assert("}"@ =~= close_seq());
    }
    let n = s.unicode_len();
    let i1 = match eat_lit(s, 0, n, "{\"id\":\"") {
        Some(j) => j,
        None => {
            return None;
        },
    };
    let (id, i1b) = match parse_string_at(s, i1, n) {
        Some(t) => t,
        None => {
            return None;
        },
    };
    let i2 = match eat_lit(s, i1b, n, ",\"message\":\"") {
        Some(j) => j,
        None => {
            return None;
        },
    };
    let (message, i2b) = match parse_string_at(s, i2, n) {
        Some(t) => t,
        None => {
            return None;
        },
    };
    let i3 = match eat_lit(s, i2b, n, ",\"timestamp\":\"") {
        Some(j) => j,
        None => {
            return None;
        },
    };
    let (timestamp, i3b) = match parse_string_at(s, i3, n) {
        Some(t) => t,
        None => {
            return None;
        },
    };
    let i4 = match eat_lit(s, i3b, n, ",\"priority\":") {
        Some(j) => j,
        None => {
            return None;
        },
    };
    let (priority, i4b) = match parse_opt_i32_at(s, i4, n) {
        Some(t) => t,
        None => {
            return None;
        },
    };
    let i5 = match eat_lit(s, i4b, n, ",\"delay\":") {
        Some(j) => j,
        None => {
            return None;
        },
    };
    let (delay, i5b) = match parse_opt_i64_at(s, i5, n) {
        Some(t) => t,
        None => {
            return None;
        },
    };
    let i6 = match eat_lit(s, i5b, n, ",\"retries\":") {
        Some(j) => j,
        None => {
            return None;
        },
    };
    let (retries, i6b) = match parse_opt_u32_at(s, i6, n) {
        Some(t) => t,
        None => {
            return None;
        },
    };
    let i7 = match eat_lit(s, i6b, n, ",\"expires_in\":") {
        Some(j) => j,
        None => {
            return None;
        },
    };
    let (expires_in, i7b) = match parse_opt_i64_at(s, i7, n) {
        Some(t) => t,
        None => {
            return None;
        },
    };
    let i8 = match eat_lit(s, i7b, n, ",\"progress\":") {
        Some(j) => j,
        None => {
            return None;
        },
    };
    let (progress, i8b) = match parse_opt_u32_at(s, i8, n) {
        Some(t) => t,
        None => {
            return None;
        },
    };
    let end = match eat_lit(s, i8b, n, "}") {
        Some(j) => j,
        None => {
            return None;
        },
    };
    if end != n {
        return None;
    }
    Some(
        JobData {
            id,
            message,
            timestamp,
            priority,
            delay,
            retries,
            expires_in,
            progress,
        },
    )
}

proof fn lemma_parse_signed_of_dec(m: int, s: Seq<char>, i: int)
    requires
        0 <= i,
        i + spec_dec_int(m).len() <= s.len(),
        s.subrange(i, i + spec_dec_int(m).len() as int) == spec_dec_int(m),
        i + spec_dec_int(m).len() == s.len() || !crate::numerals::spec_is_digit(
            s[i + spec_dec_int(m).len() as int],
        ),
    ensures
        parse_signed(s, i) == Some((m, i + spec_dec_int(m).len() as int)),
{
    let d = spec_dec_int(m);
    if m >= 0 {
        crate::numerals::lemma_dec_nat_digits(m as nat);
        assert(s[i] == d[0]) by {
            assert(s.subrange(i, i + d.len() as int)[0] == d[0]);
        }
        assert(crate::numerals::spec_is_digit(s[i]));
        assert(('-' as u32) == 45);
        assert(s[i] != '-');
        crate::numerals::lemma_parse_unsigned_of_dec(m as nat, s, i);
    } else {
        let u = spec_dec_nat((-m) as nat);
        assert(d == seq!['-'] + u);
        assert(s[i] == d[0]) by {
            assert(s.subrange(i, i + d.len() as int)[0] == d[0]);
        }
        assert(s[i] == '-');
        assert(s.subrange(i + 1, i + 1 + u.len() as int) =~= u) by {
            assert(forall|k: int|
                0 <= k < u.len() ==> s.subrange(i + 1, i + 1 + u.len() as int)[k] == s[i + 1 + k]
                    && s.subrange(i, i + d.len() as int)[1 + k] == s[i + 1 + k] && d[1 + k]
                    == #[trigger] u[k]);
        }
        crate::numerals::lemma_parse_unsigned_of_dec((-m) as nat, s, i + 1);
    }
}

proof fn lemma_null_mismatch(s: Seq<char>, i: int, c: char)
    requires
        0 <= i < s.len(),
        s[i] == c,
        crate::numerals::spec_is_digit(c) || c == '-',
    ensures
        parse_lit(s, i, tok_null()) is None,
{
    assert(('n' as u32) == 110);
    assert(('-' as u32) == 45);
    assert(s[i] != 'n');
    if parse_lit(s, i, tok_null()) is Some {
        assert(s.subrange(i, i + tok_null().len() as int)[0] == tok_null()[0]);
    }
}

proof fn lemma_parse_opt_u32_of(o: Option<u32>, s: Seq<char>, i: int)
    requires
        0 <= i,
        i + spec_opt_u32_text(o).len() < s.len(),
        s.subrange(i, i + spec_opt_u32_text(o).len() as int) == spec_opt_u32_text(o),
        !crate::numerals::spec_is_digit(s[i + spec_opt_u32_text(o).len() as int]),
    ensures
        parse_opt_u32(s, i) == Some((o, i + spec_opt_u32_text(o).len() as int)),
{
    match o {
        Option::None => {
            assert(parse_lit(s, i, tok_null()) == Some(i + tok_null().len() as int));
        },
        Option::Some(u) => {
            let d = spec_dec_nat(u as nat);
            crate::numerals::lemma_dec_nat_digits(u as nat);
            assert(s[i] == d[0]) by {
                assert(s.subrange(i, i + d.len() as int)[0] == d[0]);
            }
            lemma_null_mismatch(s, i, s[i]);
            crate::numerals::lemma_parse_unsigned_of_dec(u as nat, s, i);
        },
    }
}

proof fn lemma_parse_opt_i64_of(o: Option<i64>, s: Seq<char>, i: int)
    requires
        0 <= i,
        i + spec_opt_i64_text(o).len() < s.len(),
        s.subrange(i, i + spec_opt_i64_text(o).len() as int) == spec_opt_i64_text(o),
        !crate::numerals::spec_is_digit(s[i + spec_opt_i64_text(o).len() as int]),
    ensures
        parse_opt_i64(s, i) == Some((o, i + spec_opt_i64_text(o).len() as int)),
{
    match o {
        Option::None => {
            assert(parse_lit(s, i, tok_null()) == Some(i + tok_null().len() as int));
        },
        Option::Some(m) => {
            let d = spec_dec_int(m as int);
            assert(s[i] == d[0]) by {
                assert(s.subrange(i, i + d.len() as int)[0] == d[0]);
            }
            if m >= 0 {
                crate::numerals::lemma_dec_nat_digits(m as nat);
            }
            lemma_null_mismatch(s, i, s[i]);
            lemma_parse_signed_of_dec(m as int, s, i);
        },
    }
}

proof fn lemma_parse_opt_i32_of(o: Option<i32>, s: Seq<char>, i: int)
    requires
        0 <= i,
        i + spec_opt_i32_text(o).len() < s.len(),
        s.subrange(i, i + spec_opt_i32_text(o).len() as int) == spec_opt_i32_text(o),
        !crate::numerals::spec_is_digit(s[i + spec_opt_i32_text(o).len() as int]),
    ensures
        parse_opt_i32(s, i) == Some((o, i + spec_opt_i32_text(o).len() as int)),
{
    match o {
        Option::None => {
            assert(parse_lit(s, i, tok_null()) == Some(i + tok_null().len() as int));
        },
        Option::Some(m) => {
            let d = spec_dec_int(m as int);
            assert(s[i] == d[0]) by {
                assert(s.subrange(i, i + d.len() as int)[0] == d[0]);
            }
            if m >= 0 {
                crate::numerals::lemma_dec_nat_digits(m as nat);
            }
            lemma_null_mismatch(s, i, s[i]);
            lemma_parse_signed_of_dec(m as int, s, i);
        },
    }
}

proof fn lemma_concat_assoc(a: Seq<char>, b: Seq<char>, c: Seq<char>)
    ensures
        (a + b) + c == a + (b + c),
{
    assert((a + b) + c =~= a + (b + c));
}

proof fn lemma_extract_first(p: Seq<char>, t: Seq<char>, s: Seq<char>)
    requires
        s == p + t,
    ensures
        s.subrange(0, p.len() as int) == p,
{
    assert(s.subrange(0, p.len() as int) =~= p);
}

proof fn lemma_extract_last(pre: Seq<char>, p: Seq<char>, s: Seq<char>)
    requires
        s == pre + p,
    ensures
        s.subrange(pre.len() as int, pre.len() + p.len() as int) == p,
        p.len() > 0 ==> s[pre.len() as int] == p[0],
        s.len() == pre.len() + p.len(),
{
    assert(s.subrange(pre.len() as int, pre.len() + p.len() as int) =~= p);
}

proof fn lemma_extract(pre: Seq<char>, p: Seq<char>, t: Seq<char>, s: Seq<char>)
    requires
        s == pre + (p + t),
    ensures
        s.subrange(pre.len() as int, pre.len() + p.len() as int) == p,
        p.len() > 0 ==> s[pre.len() as int] == p[0],
        s.len() == pre.len() + p.len() + t.len(),
{
    assert(s.subrange(pre.len() as int, pre.len() + p.len() as int) =~= p);
}

/// Where each piece of an encoded job stands in the whole: the literal runs,
/// the escaped strings and the numerals, each at its cumulative offset.
spec fn enc_pieces_ok(v: JobView, s: Seq<char>) -> bool {
    let p1 = spec_escape(v.id);
    let p4 = spec_escape(v.message);
    let p7 = spec_escape(v.timestamp);
    let p10 = spec_opt_i32_text(v.priority);
    let p12 = spec_opt_i64_text(v.delay);
    let p14 = spec_opt_u32_text(v.retries);
    let p16 = spec_opt_i64_text(v.expires_in);
    let p18 = spec_opt_u32_text(v.progress);
    let o1 = tok_open_id().len() as int;
    let o2 = o1 + p1.len();
    let o3 = o2 + 1;
    let o4 = o3 + tok_message().len();
    let o5 = o4 + p4.len();
    let o6 = o5 + 1;
    let o7 = o6 + tok_timestamp().len();
    let o8 = o7 + p7.len();
    let o9 = o8 + 1;
    let o10 = o9 + tok_priority().len();
    let o11 = o10 + p10.len();
    let o12 = o11 + tok_delay().len();
    let o13 = o12 + p12.len();
    let o14 = o13 + tok_retries().len();
    let o15 = o14 + p14.len();
    let o16 = o15 + tok_expires_in().len();
    let o17 = o16 + p16.len();
    let o18 = o17 + tok_progress().len();
    let o19 = o18 + p18.len();
    let o20 = o19 + 1;
    &&& s.len() == o20
    &&& s.subrange(0, o1) == tok_open_id()
    &&& s.subrange(o1, o2) == p1
    &&& s[o2] == '"'
    &&& s.subrange(o3, o4) == tok_message()
    &&& s.subrange(o4, o5) == p4
    &&& s[o5] == '"'
    &&& s.subrange(o6, o7) == tok_timestamp()
    &&& s.subrange(o7, o8) == p7
    &&& s[o8] == '"'
    &&& s.subrange(o9, o10) == tok_priority()
    &&& s.subrange(o10, o11) == p10
    &&& s.subrange(o11, o12) == tok_delay()
    &&& s.subrange(o12, o13) == p12
    &&& s.subrange(o13, o14) == tok_retries()
    &&& s.subrange(o14, o15) == p14
    &&& s.subrange(o15, o16) == tok_expires_in()
    &&& s.subrange(o16, o17) == p16
    &&& s.subrange(o17, o18) == tok_progress()
    &&& s.subrange(o18, o19) == p18
    &&& s.subrange(o19, o20) == close_seq()
    &&& s[o11] == ','
    &&& s[o13] == ','
    &&& s[o15] == ','
    &&& s[o17] == ','
    &&& s[o19] == '}'
}

/// Piece `k` of an encoded job, leftmost first: the literal runs, the
/// escaped strings, and the numerals.
spec fn enc_piece(v: JobView, k: int) -> Seq<char> {
    if k == 0 {
        tok_open_id()
    } else if k == 1 {
        spec_escape(v.id)
    } else if k == 2 {
        quote_seq()
    } else if k == 3 {
        tok_message()
    } else if k == 4 {
        spec_escape(v.message)
    } else if k == 5 {
        quote_seq()
    } else if k == 6 {
        tok_timestamp()
    } else if k == 7 {
        spec_escape(v.timestamp)
    } else if k == 8 {
        quote_seq()
    } else if k == 9 {
        tok_priority()
    } else if k == 10 {
        spec_opt_i32_text(v.priority)
    } else if k == 11 {
        tok_delay()
    } else if k == 12 {
        spec_opt_i64_text(v.delay)
    } else if k == 13 {
        tok_retries()
    } else if k == 14 {
        spec_opt_u32_text(v.retries)
    } else if k == 15 {
        tok_expires_in()
    } else if k == 16 {
        spec_opt_i64_text(v.expires_in)
    } else if k == 17 {
        tok_progress()
    } else if k == 18 {
        spec_opt_u32_text(v.progress)
    } else if k == 19 {
        close_seq()
    } else {
        Seq::empty()
    }
}

/// The first `k` pieces of an encoded job, in order.
spec fn enc_cut(v: JobView, k: int) -> Seq<char>
    decreases k,
{
    if k <= 0 {
        Seq::empty()
    } else {
        enc_cut(v, k - 1) + enc_piece(v, k - 1)
    }
}

/// The pieces of an encoded job from `k` on, in order.
spec fn enc_tail(v: JobView, k: int) -> Seq<char>
    decreases 20 - k,
{
    if k >= 20 || k < 0 {
        Seq::empty()
    } else {
        enc_piece(v, k) + enc_tail(v, k + 1)
    }
}

proof fn lemma_encode_is_cut(v: JobView)
    ensures
        spec_encode_job(v) == enc_cut(v, 20),
{
    reveal_with_fuel(enc_cut, 21);
    assert(Seq::<char>::empty() + tok_open_id() =~= tok_open_id());
}

proof fn lemma_cut_tail(v: JobView, k: int)
    requires
        0 <= k <= 20,
    ensures
        enc_cut(v, 20) == enc_cut(v, k) + enc_tail(v, k),
    decreases 20 - k,
{
    if k == 20 {
        assert(enc_cut(v, 20) + Seq::<char>::empty() =~= enc_cut(v, 20));
    } else {
        lemma_cut_tail(v, k + 1);
        lemma_concat_assoc(enc_cut(v, k), enc_piece(v, k), enc_tail(v, k + 1));
    }
}

proof fn lemma_piece_at(v: JobView, k: int)
    requires
        0 <= k < 20,
    ensures
        spec_encode_job(v).subrange(
            enc_cut(v, k).len() as int,
            enc_cut(v, k).len() + enc_piece(v, k).len() as int,
        ) == enc_piece(v, k),
        enc_piece(v, k).len() > 0 ==> spec_encode_job(v)[enc_cut(v, k).len() as int]
            == enc_piece(v, k)[0],
        spec_encode_job(v).len() == enc_cut(v, k).len() + enc_tail(v, k).len(),
{
    lemma_encode_is_cut(v);
    lemma_cut_tail(v, k);
    lemma_extract(enc_cut(v, k), enc_piece(v, k), enc_tail(v, k + 1), spec_encode_job(v));
}

#[verifier::rlimit(100)]
proof fn lemma_enc_pieces(v: JobView)
    ensures
        enc_pieces_ok(v, spec_encode_job(v)),
{
    let s = spec_encode_job(v);
    lemma_piece_at(v, 0);
    lemma_piece_at(v, 1);
    lemma_piece_at(v, 2);
    lemma_piece_at(v, 3);
    lemma_piece_at(v, 4);
    lemma_piece_at(v, 5);
    lemma_piece_at(v, 6);
    lemma_piece_at(v, 7);
    lemma_piece_at(v, 8);
    lemma_piece_at(v, 9);
    lemma_piece_at(v, 10);
    lemma_piece_at(v, 11);
    lemma_piece_at(v, 12);
    lemma_piece_at(v, 13);
    lemma_piece_at(v, 14);
    lemma_piece_at(v, 15);
    lemma_piece_at(v, 16);
    lemma_piece_at(v, 17);
    lemma_piece_at(v, 18);
    lemma_piece_at(v, 19);
    lemma_encode_is_cut(v);
    lemma_cut_tail(v, 20);
    assert(enc_cut(v, 20) + Seq::<char>::empty() =~= enc_cut(v, 20));
    reveal_with_fuel(enc_cut, 21);
}

/// The round trip of the wire format: decoding reads back exactly the job
/// that encoding wrote, for every job value.
#[verifier::rlimit(100)]
pub proof fn lemma_decode_encode(v: JobView)
    ensures
        spec_decode_job(spec_encode_job(v)) == Some(v),
{
    lemma_enc_pieces(v);
    let s = spec_encode_job(v);
    let p0 = tok_open_id();
    let p1 = spec_escape(v.id);
    let p3 = tok_message();
    let p4 = spec_escape(v.message);
    let p6 = tok_timestamp();
    let p7 = spec_escape(v.timestamp);
    let p9 = tok_priority();
    let p10 = spec_opt_i32_text(v.priority);
    let p11 = tok_delay();
    let p12 = spec_opt_i64_text(v.delay);
    let p13 = tok_retries();
    let p14 = spec_opt_u32_text(v.retries);
    let p15 = tok_expires_in();
    let p16 = spec_opt_i64_text(v.expires_in);
    let p17 = tok_progress();
    let p18 = spec_opt_u32_text(v.progress);
    let o1 = p0.len() as int;
    let o2 = o1 + p1.len();
    let o3 = o2 + 1;
    let o4 = o3 + p3.len();
    let o5 = o4 + p4.len();
    let o6 = o5 + 1;
    let o7 = o6 + p6.len();
    let o8 = o7 + p7.len();
    let o9 = o8 + 1;
    let o10 = o9 + p9.len();
    let o11 = o10 + p10.len();
    let o12 = o11 + p11.len();
    let o13 = o12 + p12.len();
    let o14 = o13 + p13.len();
    let o15 = o14 + p14.len();
    let o16 = o15 + p15.len();
    let o17 = o16 + p16.len();
    let o18 = o17 + p17.len();
    let o19 = o18 + p18.len();
    let o20 = o19 + 1;
    assert((',' as u32) == 44 && ('}' as u32) == 125);
    assert(parse_lit(s, 0, p0) == Some(o1));
    crate::escape::lemma_parse_escaped(v.id, s, o1);
    assert(parse_string_body(s, o1) == Some((v.id, o3)));
    assert(parse_lit(s, o3, p3) == Some(o4));
    crate::escape::lemma_parse_escaped(v.message, s, o4);
    assert(parse_string_body(s, o4) == Some((v.message, o6)));
    assert(parse_lit(s, o6, p6) == Some(o7));
    crate::escape::lemma_parse_escaped(v.timestamp, s, o7);
    assert(parse_string_body(s, o7) == Some((v.timestamp, o9)));
    assert(parse_lit(s, o9, p9) == Some(o10));
    lemma_parse_opt_i32_of(v.priority, s, o10);
    assert(parse_opt_i32(s, o10) == Some((v.priority, o11)));
    assert(parse_lit(s, o11, p11) == Some(o12));
    lemma_parse_opt_i64_of(v.delay, s, o12);
    assert(parse_opt_i64(s, o12) == Some((v.delay, o13)));
    assert(parse_lit(s, o13, p13) == Some(o14));
    lemma_parse_opt_u32_of(v.retries, s, o14);
    assert(parse_opt_u32(s, o14) == Some((v.retries, o15)));
    assert(parse_lit(s, o15, p15) == Some(o16));
    lemma_parse_opt_i64_of(v.expires_in, s, o16);
    assert(parse_opt_i64(s, o16) == Some((v.expires_in, o17)));
    assert(parse_lit(s, o17, p17) == Some(o18));
    lemma_parse_opt_u32_of(v.progress, s, o18);
    assert(parse_opt_u32(s, o18) == Some((v.progress, o19)));
    assert(parse_lit(s, o19, close_seq()) == Some(o20));
    assert(spec_decode_job(s) == Some(
        JobView {
            id: v.id,
            message: v.message,
            timestamp: v.timestamp,
            priority: v.priority,
            delay: v.delay,
            retries: v.retries,
            expires_in: v.expires_in,
            progress: v.progress,
        },
    ));
    assert(JobView {
        id: v.id,
        message: v.message,
        timestamp: v.timestamp,
        priority: v.priority,
        delay: v.delay,
        retries: v.retries,
        expires_in: v.expires_in,
        progress: v.progress,
    } == v);
}

fn append_opt_u32(out: &mut String, o: &Option<u32>)
    ensures
        final(out)@ == old(out)@ + spec_opt_u32_text(*o),
{
    match o {
        Option::None => {
            out.append("null");
            proof {
                reveal_strlit("null");
                assert("null"@ =~= tok_null());
            }
        },
        Option::Some(v) => {
            append_dec_u64(out, *v as u64);
        },
    }
}

fn append_opt_i32(out: &mut String, o: &Option<i32>)
    ensures
        final(out)@ == old(out)@ + spec_opt_i32_text(*o),
{
    match o {
        Option::None => {
            out.append("null");
            proof {
                reveal_strlit("null");
                assert("null"@ =~= tok_null());
            }
        },
        Option::Some(v) => {
            append_dec_i64(out, *v as i64);
        },
    }
}

fn append_opt_i64(out: &mut String, o: &Option<i64>)
    ensures
        final(out)@ == old(out)@ + spec_opt_i64_text(*o),
{
    match o {
        Option::None => {
            out.append("null");
            proof {
                reveal_strlit("null");
                assert("null"@ =~= tok_null());
            }
        },
        Option::Some(v) => {
            append_dec_i64(out, *v);
        },
    }
}

/// Serializes a job into its wire form.
pub fn encode_job(job: &JobData) -> (r: String)
    ensures
        r@ == spec_encode_job(job@),
{
    let mut out = String::new();
    out.append("{\"id\":\"");
    proof {
        reveal_strlit("{\"id\":\"");
        assert("{\"id\":\""@ =~= tok_open_id());
        assert(out@ =~= tok_open_id());
    }
    append_escaped(&mut out, job.id.as_str());
    let ghost pre1 = out@;
    push_char(&mut out, '"');
    proof {
        assert(out@ =~= pre1 + quote_seq());
    }
    out.append(",\"message\":\"");
    proof {
        reveal_strlit(",\"message\":\"");
        assert(",\"message\":\""@ =~= tok_message());
    }
    append_escaped(&mut out, job.message.as_str());
    let ghost pre2 = out@;
    push_char(&mut out, '"');
    proof {
        assert(out@ =~= pre2 + quote_seq());
    }
    out.append(",\"timestamp\":\"");
    proof {
        reveal_strlit(",\"timestamp\":\"");
        assert(",\"timestamp\":\""@ =~= tok_timestamp());
    }
    append_escaped(&mut out, job.timestamp.as_str());
    let ghost pre3 = out@;
    push_char(&mut out, '"');
    proof {
        assert(out@ =~= pre3 + quote_seq());
    }
    out.append(",\"priority\":");
    proof {
        reveal_strlit(",\"priority\":");
        assert(",\"priority\":"@ =~= tok_priority());
    }
    append_opt_i32(&mut out, &job.priority);
    out.append(",\"delay\":");
    proof {
        reveal_strlit(",\"delay\":");
        assert(",\"delay\":"@ =~= tok_delay());
    }
    append_opt_i64(&mut out, &job.delay);
    out.append(",\"retries\":");
    proof {
        reveal_strlit(",\"retries\":");
        assert(",\"retries\":"@ =~= tok_retries());
    }
    append_opt_u32(&mut out, &job.retries);
    out.append(",\"expires_in\":");
    proof {
        reveal_strlit(",\"expires_in\":");
        assert(",\"expires_in\":"@ =~= tok_expires_in());
    }
    append_opt_i64(&mut out, &job.expires_in);
    out.append(",\"progress\":");
    proof {
        reveal_strlit(",\"progress\":");
        assert(",\"progress\":"@ =~= tok_progress());
    }
    append_opt_u32(&mut out, &job.progress);
    let ghost pre4 = out@;
    push_char(&mut out, '}');
    proof {
        assert(out@ =~= pre4 + close_seq());
        assert(out@ =~= spec_encode_job(job@));
    }
    out
}

} // verus!
