use vstd::prelude::*;

use crate::text::push_char;

verus! {

/// The decimal digit character for `d` (meaningful for `0 <= d < 10`).
pub open spec fn digit_char(d: int) -> char {
    ((48 + d) as u8) as char
}

/// Whether `c` is a decimal digit.
pub open spec fn spec_is_digit(c: char) -> bool {
    48 <= (c as u32) <= 57
}

/// The numeric value of a digit character.
pub open spec fn digit_val(c: char) -> int {
    (c as u32) - 48
}

/// The decimal numeral of `n`, most significant digit first, no sign and no
/// leading zeros.
pub open spec fn spec_dec_nat(n: nat) -> Seq<char>
    decreases n,
{
    if n < 10 {
        seq![digit_char(n as int)]
    } else {
        spec_dec_nat(n / 10) + seq![digit_char((n % 10) as int)]
    }
}

/// The decimal numeral of `n`, with a leading minus sign when negative.
pub open spec fn spec_dec_int(n: int) -> Seq<char> {
    if n < 0 {
        seq!['-'] + spec_dec_nat((-n) as nat)
    } else {
        spec_dec_nat(n as nat)
    }
}

pub open spec fn pow10(k: nat) -> int
    decreases k,
{
    if k == 0 {
        1
    } else {
        10 * pow10((k - 1) as nat)
    }
}

/// The first position at or after `i` that does not hold a digit.
pub open spec fn digits_end(s: Seq<char>, i: int) -> int
    decreases s.len() - i,
{
    if 0 <= i < s.len() && spec_is_digit(s[i]) {
        digits_end(s, i + 1)
    } else {
        i
    }
}

/// The value of the digit run `s[i..j]`, read as a decimal numeral.
pub open spec fn digits_val(s: Seq<char>, i: int, j: int) -> int
    decreases j - i,
{
    if i < j {
        digits_val(s, i, j - 1) * 10 + digit_val(s[j - 1])
    } else {
        0
    }
}

/// Greedy parse of an unsigned decimal numeral at position `i`: the value and
/// the position after it. Rejects an empty run and a leading zero.
pub open spec fn parse_unsigned(s: Seq<char>, i: int) -> Option<(int, int)> {
    let j = digits_end(s, i);
    if j == i {
        None
    } else if digit_val(s[i]) == 0 && j - i > 1 {
        None
    } else {
        Some((digits_val(s, i, j), j))
    }
}

/// Greedy parse of a decimal numeral with an optional leading minus sign.
pub open spec fn parse_signed(s: Seq<char>, i: int) -> Option<(int, int)> {
    if 0 <= i < s.len() && s[i] == '-' {
        match parse_unsigned(s, i + 1) {
            Some(vj) => Some((-vj.0, vj.1)),
            None => None,
        }
    } else {
        parse_unsigned(s, i)
    }
}

pub proof fn lemma_digits_end_props(s: Seq<char>, i: int)
    requires
        0 <= i <= s.len(),
    ensures
        i <= digits_end(s, i) <= s.len(),
        forall|k: int| i <= k < digits_end(s, i) ==> spec_is_digit(s[k]),
        digits_end(s, i) == s.len() || !spec_is_digit(s[digits_end(s, i)]),
    decreases s.len() - i,
{
    if i < s.len() && spec_is_digit(s[i]) {
        lemma_digits_end_props(s, i + 1);
    }
}

pub proof fn lemma_digits_end_run(s: Seq<char>, i: int, j: int)
    requires
        0 <= i <= j <= s.len(),
        forall|k: int| i <= k < j ==> spec_is_digit(s[k]),
        j == s.len() || !spec_is_digit(s[j]),
    ensures
        digits_end(s, i) == j,
    decreases j - i,
{
    if i < j {
        lemma_digits_end_run(s, i + 1, j);
    }
}

pub proof fn lemma_digits_val_bounds(s: Seq<char>, i: int, j: int)
    requires
        0 <= i <= j <= s.len(),
        forall|k: int| i <= k < j ==> spec_is_digit(s[k]),
    ensures
        0 <= digits_val(s, i, j) < pow10((j - i) as nat),
        i < j && digit_val(s[i]) >= 1 ==> digits_val(s, i, j) >= pow10((j - i - 1) as nat),
    decreases j - i,
{
    if i < j {
        lemma_digits_val_bounds(s, i, j - 1);
    }
}

pub proof fn lemma_dec_nat_digits(n: nat)
    ensures
        spec_dec_nat(n).len() >= 1,
        forall|k: int| 0 <= k < spec_dec_nat(n).len() ==> spec_is_digit(#[trigger] spec_dec_nat(n)[k]),
        n >= 1 ==> digit_val(spec_dec_nat(n)[0]) >= 1,
        n < 10 ==> spec_dec_nat(n).len() == 1,
    decreases n,
{
    if n >= 10 {
        lemma_dec_nat_digits(n / 10);
    }
}

pub proof fn lemma_digits_val_of_dec(n: nat, s: Seq<char>, i: int)
    requires
        0 <= i,
        i + spec_dec_nat(n).len() <= s.len(),
        s.subrange(i, i + spec_dec_nat(n).len() as int) == spec_dec_nat(n),
    ensures
        digits_val(s, i, i + spec_dec_nat(n).len() as int) == n,
    decreases n,
{
    let d = spec_dec_nat(n);
    if n < 10 {
        assert(s[i] == d[0]);
        assert(digits_val(s, i, i + 1) == digits_val(s, i, i) * 10 + digit_val(s[i]));
    } else {
        let hd = spec_dec_nat(n / 10);
        let hl = hd.len() as int;
        assert(s.subrange(i, i + hl) =~= hd) by {
            assert(forall|k: int|
                0 <= k < hl ==> s.subrange(i, i + d.len() as int)[k] == #[trigger] d[k]);
        }
        lemma_digits_val_of_dec(n / 10, s, i);
        assert(s[i + hl] == d[hl]);
        assert(d[hl] == digit_char((n % 10) as int));
        assert(digits_val(s, i, i + d.len() as int) == digits_val(s, i, i + hl) * 10 + digit_val(
            s[i + hl],
        ));
    }
}

/// Parsing reads back exactly the numeral that printing wrote, whatever
/// follows it, provided a non-digit (or the end) follows.
pub proof fn lemma_parse_unsigned_of_dec(n: nat, s: Seq<char>, i: int)
    requires
        0 <= i,
        i + spec_dec_nat(n).len() <= s.len(),
        s.subrange(i, i + spec_dec_nat(n).len() as int) == spec_dec_nat(n),
        i + spec_dec_nat(n).len() == s.len() || !spec_is_digit(
            s[i + spec_dec_nat(n).len() as int],
        ),
    ensures
        parse_unsigned(s, i) == Some((n as int, i + spec_dec_nat(n).len() as int)),
{
    let d = spec_dec_nat(n);
    let j = i + d.len() as int;
    lemma_dec_nat_digits(n);
    assert forall|k: int| i <= k < j implies spec_is_digit(s[k]) by {
        assert(s.subrange(i, j)[k - i] == s[k]);
        assert(d[k - i] == s.subrange(i, j)[k - i]);
        assert(spec_is_digit(d[k - i]));
    }
    lemma_digits_end_run(s, i, j);
    lemma_digits_val_of_dec(n, s, i);
    assert(s[i] == d[0]);
    if n == 0 {
        assert(d.len() == 1);
    } else {
        assert(digit_val(s[i]) >= 1);
    }
}

fn is_digit_exec(c: char) -> (r: bool)
    ensures
        r == spec_is_digit(c),
{
    let u = c as u32;
    48 <= u && u <= 57
}

fn digit_char_exec(d: u64) -> (c: char)
    requires
        d < 10,
    ensures
        c == digit_char(d as int),
{
    (48 + (d as u8)) as char
}

/// Appends the decimal numeral of `n` to `out`.
pub fn append_dec_u64(out: &mut String, n: u64)
    ensures
        final(out)@ == old(out)@ + spec_dec_nat(n as nat),
    decreases n,
{
    if n < 10 {
        push_char(out, digit_char_exec(n));
        assert(final(out)@ =~= old(out)@ + spec_dec_nat(n as nat));
    } else {
        append_dec_u64(out, n / 10);
        push_char(out, digit_char_exec(n % 10));
        assert(final(out)@ =~= old(out)@ + spec_dec_nat(n as nat));
    }
}

/// Appends the decimal numeral of `n`, with a minus sign when negative.
pub fn append_dec_i64(out: &mut String, n: i64)
    ensures
        final(out)@ == old(out)@ + spec_dec_int(n as int),
{
    if n >= 0 {
        append_dec_u64(out, n as u64);
    } else {
        push_char(out, '-');
        let m: u64 = if n == i64::MIN {
            9223372036854775808u64
        } else {
            (-n) as u64
        };
        assert(m as nat == (-(n as int)) as nat);
        append_dec_u64(out, m);
        assert(final(out)@ =~= old(out)@ + spec_dec_int(n as int));
    }
}

/// The position after the digit run starting at `i`.
fn scan_digits(s: &str, i: usize, n: usize) -> (j: usize)
    requires
        n as int == s@.len(),
        i <= n,
    ensures
        j as int == digits_end(s@, i as int),
        i <= j <= n,
{
    proof {
        lemma_digits_end_props(s@, i as int);
    }
    let mut j = i;
    loop
        invariant
            i <= j <= n,
            n as int == s@.len(),
            forall|k: int| i <= k < j ==> spec_is_digit(s@[k]),
            digits_end(s@, i as int) >= j,
        decreases n - j,
    {
        if j == n {
            proof {
                lemma_digits_end_run(s@, i as int, j as int);
            }
            return j;
        }
        let c = s.get_char(j);
        if !is_digit_exec(c) {
            proof {
                lemma_digits_end_run(s@, i as int, j as int);
            }
            return j;
        }
        proof {
            lemma_digits_end_props(s@, i as int);
            if digits_end(s@, i as int) == j {
                assert(!spec_is_digit(s@[j as int]));
            }
        }
        j = j + 1;
    }
}

/// Parses an unsigned decimal numeral at `i`. Returns `None` exactly when the
/// text holds no acceptable numeral there, or holds one too large for any
/// field of this library (at least `10^19`).
pub fn parse_u64_at(s: &str, i: usize, n: usize) -> (r: Option<(u64, usize)>)
    requires
        n as int == s@.len(),
        i <= n,
    ensures
        match r {
            Some(vj) => parse_unsigned(s@, i as int) == Some((vj.0 as int, vj.1 as int)),
            None => match parse_unsigned(s@, i as int) {
                Some(vj) => vj.0 >= 10000000000000000000,
                None => true,
            },
        },
{
    let j = scan_digits(s, i, n);
    proof {
        lemma_digits_end_props(s@, i as int);
    }
    if j == i {
        return None;
    }
    let first = s.get_char(i);
    if (first as u32) == 48 && j - i > 1 {
        return None;
    }
    if j - i > 19 {
        proof {
            lemma_digits_val_bounds(s@, i as int, j as int);
            assert(digit_val(s@[i as int]) >= 1);
            lemma_pow10_increases(19, (j - i - 1) as nat);
            assert(pow10(19) == 10000000000000000000) by {
                reveal_with_fuel(pow10, 20);
            }
        }
        return None;
    }
    let mut acc: u64 = 0;
    let mut k = i;
    proof {
        lemma_digits_val_bounds(s@, i as int, j as int);
        assert(pow10(19) == 10000000000000000000) by {
            reveal_with_fuel(pow10, 20);
        }
    }
    while k < j
        invariant
            i <= k <= j <= n,
            n as int == s@.len(),
            j - i <= 19,
            forall|m: int| i <= m < j ==> spec_is_digit(s@[m]),
            acc as int == digits_val(s@, i as int, k as int),
            (acc as int) < pow10((k - i) as nat),
            pow10(19) == 10000000000000000000,
        decreases j - k,
    {
        let c = s.get_char(k);
        let d = (c as u32) - 48;
        proof {
            lemma_pow10_increases((k - i + 1) as nat, 19);
        }
        acc = acc * 10 + (d as u64);
        k = k + 1;
    }
    Some((acc, j))
}

pub proof fn lemma_pow10_increases(a: nat, b: nat)
    requires
        a <= b,
    ensures
        pow10(a) <= pow10(b),
        pow10(a) >= 1,
    decreases b,
{
    if a < b {
        lemma_pow10_increases(a, (b - 1) as nat);
        assert(pow10(b) == 10 * pow10((b - 1) as nat));
    } else if b > 0 {
        lemma_pow10_increases((a - 1) as nat, (b - 1) as nat);
    }
}

/// Parses a decimal numeral with an optional sign at `i`, accepting exactly
/// the values that fit an `i64`.
pub fn parse_i64_at(s: &str, i: usize, n: usize) -> (r: Option<(i64, usize)>)
    requires
        n as int == s@.len(),
        i <= n,
    ensures
        match r {
            Some(vj) => parse_signed(s@, i as int) == Some((vj.0 as int, vj.1 as int)),
            None => match parse_signed(s@, i as int) {
                Some(vj) => !(i64::MIN <= vj.0 <= i64::MAX),
                None => true,
            },
        },
{
    if i < n && (s.get_char(i) as u32) == 45 {
        assert(s@[i as int] == '-');
        match parse_u64_at(s, i + 1, n) {
            Some((v, j)) => {
                if v <= 9223372036854775807u64 {
                    Some((-(v as i64), j))
                } else if v == 9223372036854775808u64 {
                    Some((i64::MIN, j))
                } else {
                    None
                }
            },
            None => None,
        }
    } else {
        assert(!(0 <= i < s@.len() && s@[i as int] == '-')) by {
            if i < n {
                assert(('-' as u32) == 45);
            }
        }
        match parse_u64_at(s, i, n) {
            Some((v, j)) => {
                if v <= 9223372036854775807u64 {
                    Some((v as i64, j))
                } else {
                    None
                }
            },
            None => None,
        }
    }
}

} // verus!
