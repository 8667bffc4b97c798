//! The number for which a text stands where the database compares it with a numeric key.

use crate::text::{
    dec, digits_value, is_decimal, is_digit, lemma_digits_grow, lemma_run, lemma_run_back,
    parse_i64, parsed_i64, run, to_chars, trim_matches, trimmed_of, unsigned_part,
};
use vstd::arithmetic::div_mod::{
    lemma_div_denominator, lemma_fundamental_div_mod, lemma_mod_bound,
};
use vstd::prelude::*;

verus! {

/// The white space that may stand around a number.
pub open spec fn blank() -> spec_fn(char) -> bool {
    |c: char| '\u{9}' <= c <= '\u{d}' || c == ' '
}

/// How many digits a text begins with.
pub open spec fn digit_run(s: Seq<char>) -> nat {
    run(s, |c: char| is_digit(c))
}

/// The digits behind a decimal point with which a text begins.
pub open spec fn fraction(s: Seq<char>) -> Seq<char> {
    if s.len() > 0 && s[0] == '.' {
        s.skip(1).take(digit_run(s.skip(1)) as int)
    } else {
        Seq::empty()
    }
}

/// What follows the decimal point with which a text begins and the digits behind it.
pub open spec fn behind_fraction(s: Seq<char>) -> Seq<char> {
    if s.len() > 0 && s[0] == '.' {
        s.skip(1).skip(digit_run(s.skip(1)) as int)
    } else {
        s
    }
}

/// The size of an exponent. It is read no further once it has reached ten thousand.
pub open spec fn exponent_size(digits: Seq<char>) -> int
    decreases digits.len(),
{
    if digits.len() == 0 {
        0
    } else {
        let before = exponent_size(digits.drop_last());
        if before < 10000 {
            before * 10 + (digits.last() as int - 48)
        } else {
            10000
        }
    }
}

/// An exponent with its sign.
pub open spec fn exponent(s: Seq<char>) -> int {
    if s.len() > 0 && s[0] == '-' {
        -exponent_size(unsigned_part(s))
    } else {
        exponent_size(unsigned_part(s))
    }
}

/// A number times a power of ten, where that is whole.
pub open spec fn scaled(n: nat, scale: int) -> Option<nat>
    decreases
            if scale < 0 {
                -scale
            } else {
                scale
            },
{
    if scale == 0 {
        Some(n)
    } else if scale > 0 {
        scaled(n * 10, scale - 1)
    } else if n % 10 == 0 {
        scaled(n / 10, scale + 1)
    } else {
        None
    }
}

/// The size of the number that a text writes with digits, a decimal point or not, and an
/// exponent or not, where it is whole.
pub open spec fn whole_size(s: Seq<char>) -> Option<nat> {
    let body = unsigned_part(s);
    let whole = body.take(digit_run(body) as int);
    let tail = body.skip(digit_run(body) as int);
    let digits = whole + fraction(tail);
    let rest = behind_fraction(tail);
    let n = digits_value(digits) as nat;
    if digits.len() == 0 {
        None
    } else if rest.len() == 0 {
        scaled(n, -fraction(tail).len())
    } else if (rest[0] == 'e' || rest[0] == 'E') && is_decimal(rest.skip(1)) {
        scaled(n, exponent(rest.skip(1)) - fraction(tail).len())
    } else {
        None
    }
}

/// The distance between numbers of a size that are held in 53 bits.
pub open spec fn spacing(n: nat) -> nat
    decreases n,
{
    if n < 0x20_0000_0000_0000 {
        1
    } else {
        2 * spacing(n / 2)
    }
}

/// The nearest number that is held in 53 bits, of two the one with the even last bit.
pub open spec fn rounded(n: nat) -> nat {
    let u = spacing(n);
    let q = n / u;
    let r = n % u;
    if 2 * r < u || (2 * r == u && q % 2 == 0) {
        q * u
    } else {
        (q + 1) * u
    }
}

/// The number for which a text stands where it is compared with a key. White space around it
/// does not matter. An integer stands for itself. A text with a decimal point or an exponent
/// stands for its value, held in 53 bits, where that is whole. A text whose value is not whole
/// stands for no key, however small its fraction is; the database drops a fraction that is lost
/// in its floating-point numbers.
pub open spec fn key_number(s: Seq<char>) -> Option<i64> {
    let bare = trimmed_of(s, blank());
    match parsed_i64(bare) {
        Some(n) => Some(n),
        None => match whole_size(bare) {
            Some(n) => if rounded(n) > 0x7fff_ffff_ffff_fc00 {
                None
            } else if bare[0] == '-' {
                Some((-rounded(n)) as i64)
            } else {
                Some(rounded(n) as i64)
            },
            None => None,
        },
    }
}

// ---- scaling ----

/// A number that is scaled up is whole and no smaller, and nothing stays nothing.
proof fn lemma_scaled_up(n: nat, scale: int)
    requires
        scale >= 0,
    ensures
        scaled(n, scale) matches Some(m) && m >= n,
        n == 0 ==> scaled(n, scale) == Some(0nat),
    decreases scale,
{
    if scale > 0 {
        lemma_scaled_up(n * 10, scale - 1);
    }
}

/// Nothing, scaled in whatever way, is nothing.
proof fn lemma_scaled_zero(scale: int)
    ensures
        scaled(0, scale) == Some(0nat),
    decreases
            if scale < 0 {
                -scale
            } else {
                scale
            },
{
    if scale > 0 {
        lemma_scaled_zero(scale - 1);
    } else if scale < 0 {
        lemma_scaled_zero(scale + 1);
    }
}

/// The largest size that is told apart.
const LIMIT: u128 = 0x1_0000_0000_0000_0000;

/// The number that the first digits of a list stand for, up to the largest size that is told
/// apart.
fn read_digits(digits: &Vec<char>, n: usize) -> (r: Option<u128>)
    requires
        n <= digits@.len(),
        forall|k: int| 0 <= k < digits@.len() ==> is_digit(#[trigger] digits@[k]),
    ensures
        digits_value(digits@.take(n as int)) >= 0,
        match r {
            Some(v) => v <= LIMIT && v == digits_value(digits@.take(n as int)),
            None => digits_value(digits@.take(n as int)) > LIMIT,
        },
{
    let ghost all = digits@.take(n as int);
    let mut v: u128 = 0;
    let mut i: usize = 0;
    assert(all.take(0) =~= Seq::<char>::empty());
    proof {
        lemma_digits_grow(all, all.len() as int);
    }
    while i < n
        invariant
            i <= n <= digits@.len(),
            all == digits@.take(n as int),
            forall|k: int| 0 <= k < digits@.len() ==> is_digit(#[trigger] digits@[k]),
            v <= LIMIT,
            v == digits_value(all.take(i as int)),
            digits_value(all) >= 0,
        decreases n - i,
    {
        let c = digits[i];
        assert(is_digit(digits@[i as int]));
        proof {
            assert(all.take(i + 1).drop_last() =~= all.take(i as int));
            assert(all.take(i + 1).last() == c);
            assert forall|k: int| 0 <= k < all.len() implies is_digit(#[trigger] all[k]) by {
                assert(all[k] == digits@[k]);
            }
            lemma_digits_grow(all, i + 1);
        }
        v = v * 10 + (c as u8 - 48) as u128;
        i += 1;
        if v > LIMIT {
            return None;
        }
    }
    assert(all.take(i as int) =~= all);
    Some(v)
}

/// The number of a list of digits times a power of ten, where that is whole, up to the largest
/// size that is told apart.
fn read_scaled(digits: &Vec<char>, scale: i128) -> (r: Option<u128>)
    requires
        forall|k: int| 0 <= k < digits@.len() ==> is_digit(#[trigger] digits@[k]),
        -0x2_0000_0000_0000_0000 <= scale <= 0x2_0000_0000_0000_0000,
    ensures
        match r {
            Some(v) => v <= LIMIT && scaled(digits_value(digits@) as nat, scale as int) == Some(
                v as nat,
            ),
            None => match scaled(digits_value(digits@) as nat, scale as int) {
                Some(v) => v > LIMIT,
                None => true,
            },
        },
{
    let ghost want = scaled(digits_value(digits@) as nat, scale as int);
    let mut n: usize = digits.len();
    let mut left: i128 = scale;
    assert(digits@.take(n as int) =~= digits@);
    while left < 0 && n > 0
        invariant
            n <= digits@.len(),
            forall|k: int| 0 <= k < digits@.len() ==> is_digit(#[trigger] digits@[k]),
            -0x2_0000_0000_0000_0000 <= left <= 0x2_0000_0000_0000_0000,
            want == scaled(digits_value(digits@) as nat, scale as int),
            want == scaled(digits_value(digits@.take(n as int)) as nat, left as int),
        decreases n,
    {
        let ghost s = digits@.take(n as int);
        proof {
            assert forall|k: int| 0 <= k < s.len() implies is_digit(#[trigger] s[k]) by {
                assert(s[k] == digits@[k]);
            }
            lemma_digits_grow(s, n - 1);
            assert(s.take(n - 1) =~= s.drop_last());
            assert(s.drop_last() =~= digits@.take(n - 1));
            assert(is_digit(s[n - 1]));
            assert(digits_value(s) == digits_value(s.drop_last()) * 10 + (s.last() as int - 48));
        }
        if digits[n - 1] != '0' {
            assert((digits_value(s) as nat) % 10 == s.last() as int - 48);
            return None;
        }
        assert((digits_value(s) as nat) / 10 == digits_value(s.drop_last()));
        n -= 1;
        left += 1;
    }
    if left < 0 {
        proof {
            assert(digits@.take(0) =~= Seq::<char>::empty());
            lemma_scaled_zero(left as int);
        }
        return Some(0);
    }
    let mut v: u128 = match read_digits(digits, n) {
        Some(v) => v,
        None => {
            proof {
                lemma_scaled_up(digits_value(digits@.take(n as int)) as nat, left as int);
            }
            return None;
        },
    };
    if v == 0 {
        proof {
            lemma_scaled_zero(left as int);
        }
        return Some(0);
    }
    while left > 0
        invariant
            0 <= left,
            1 <= v <= LIMIT,
            want == scaled(digits_value(digits@) as nat, scale as int),
            want == scaled(v as nat, left as int),
        decreases left,
    {
        v = v * 10;
        left -= 1;
        if v > LIMIT {
            proof {
                lemma_scaled_up(v as nat, left as int);
            }
            return None;
        }
    }
    Some(v)
}

// ---- reading ----

/// Where the digits that begin at a place end.
fn digits_end(cs: &Vec<char>, from: usize) -> (end: usize)
    requires
        from <= cs@.len(),
    ensures
        from <= end <= cs@.len(),
        end - from == digit_run(cs@.skip(from as int)),
        forall|k: int| from <= k < end ==> is_digit(#[trigger] cs@[k]),
{
    let ghost rest = cs@.skip(from as int);
    let ghost p = |c: char| is_digit(c);
    let mut end: usize = from;
    while end < cs.len() && '0' <= cs[end] && cs[end] <= '9'
        invariant
            from <= end <= cs@.len(),
            forall|k: int| from <= k < end ==> is_digit(#[trigger] cs@[k]),
        decreases cs@.len() - end,
    {
        end += 1;
    }
    proof {
        assert forall|k: int| 0 <= k < end - from implies p(#[trigger] rest[k]) by {
            assert(rest[k] == cs@[from + k]);
        }
        lemma_run(rest, p, end - from);
    }
    end
}

/// The exponent that begins at a place and goes on to the end, if one does.
fn read_exponent(cs: &Vec<char>, from: usize) -> (r: Option<i128>)
    requires
        from <= cs@.len(),
    ensures
        r is Some <==> is_decimal(cs@.skip(from as int)),
        r matches Some(e) ==> e == exponent(cs@.skip(from as int)) && -99999 <= e <= 99999,
{
    let ghost rest = cs@.skip(from as int);
    let negative = from < cs.len() && cs[from] == '-';
    let start: usize = if from < cs.len() && (cs[from] == '-' || cs[from] == '+') {
        from + 1
    } else {
        from
    };
    let ghost d = unsigned_part(rest);
    assert(d =~= cs@.skip(start as int));
    if start == cs.len() {
        return None;
    }
    let mut size: i128 = 0;
    let mut i: usize = start;
    assert(d.take(0) =~= Seq::<char>::empty());
    while i < cs.len()
        invariant
            start <= i <= cs@.len(),
            d == cs@.skip(start as int),
            d == unsigned_part(cs@.skip(from as int)),
            0 <= size <= 99999,
            size == exponent_size(d.take(i - start)),
            forall|k: int| 0 <= k < i - start ==> is_digit(#[trigger] d[k]),
        decreases cs@.len() - i,
    {
        let c = cs[i];
        assert(d[i - start] == c);
        if !('0' <= c && c <= '9') {
            return None;
        }
        proof {
            assert(d.take(i + 1 - start).drop_last() =~= d.take(i - start));
            assert(d.take(i + 1 - start).last() == c);
        }
        size = if size < 10000 {
            size * 10 + (c as u8 - 48) as i128
        } else {
            10000
        };
        i += 1;
    }
    assert(d.take(i - start) =~= d);
    Some(
        if negative {
            -size
        } else {
            size
        },
    )
}

/// Puts some digits of a text behind others.
fn add_digits(digits: &mut Vec<char>, cs: &Vec<char>, from: usize, to: usize)
    requires
        from <= to <= cs@.len(),
        forall|k: int| from <= k < to ==> is_digit(#[trigger] cs@[k]),
        forall|k: int| 0 <= k < old(digits)@.len() ==> is_digit(#[trigger] old(digits)@[k]),
    ensures
        final(digits)@ == old(digits)@ + cs@.subrange(from as int, to as int),
        forall|k: int| 0 <= k < final(digits)@.len() ==> is_digit(#[trigger] final(digits)@[k]),
{
    let ghost before = digits@;
    let mut i: usize = from;
    assert(digits@ =~= before + cs@.subrange(from as int, i as int));
    while i < to
        invariant
            from <= i <= to <= cs@.len(),
            digits@ == before + cs@.subrange(from as int, i as int),
            forall|k: int| from <= k < to ==> is_digit(#[trigger] cs@[k]),
            forall|k: int| 0 <= k < digits@.len() ==> is_digit(#[trigger] digits@[k]),
        decreases to - i,
    {
        digits.push(cs[i]);
        i += 1;
        assert(digits@ =~= before + cs@.subrange(from as int, i as int));
    }
}

/// Where the digits behind a decimal point begin and end that stands at a place. Where none
/// stands there, they begin and end at that place.
fn find_fraction(cs: &Vec<char>, a: usize) -> (r: (usize, usize))
    requires
        a <= cs@.len(),
    ensures
        a <= r.0 <= r.1 <= cs@.len(),
        cs@.subrange(r.0 as int, r.1 as int) == fraction(cs@.skip(a as int)),
        cs@.skip(r.1 as int) == behind_fraction(cs@.skip(a as int)),
        forall|k: int| r.0 <= k < r.1 ==> is_digit(#[trigger] cs@[k]),
{
    let ghost tail = cs@.skip(a as int);
    if a < cs.len() && cs[a] == '.' {
        assert(tail[0] == cs@[a as int]);
        let b = digits_end(cs, a + 1);
        proof {
            assert(tail.skip(1) =~= cs@.skip(a + 1));
            assert(cs@.subrange(a + 1, b as int) =~= fraction(tail));
            assert(behind_fraction(tail) =~= cs@.skip(b as int));
        }
        (a + 1, b)
    } else {
        proof {
            if tail.len() > 0 {
                assert(tail[0] == cs@[a as int]);
            }
            assert(cs@.subrange(a as int, a as int) =~= fraction(tail));
        }
        (a, a)
    }
}

/// The size of the number that a text writes, where it is whole, up to the largest size that is
/// told apart.
fn read_whole(cs: &Vec<char>) -> (r: Option<u128>)
    ensures
        match r {
            Some(v) => v <= LIMIT && whole_size(cs@) == Some(v as nat),
            None => match whole_size(cs@) {
                Some(v) => v > LIMIT,
                None => true,
            },
        },
{
    let start: usize = if cs.len() > 0 && (cs[0] == '-' || cs[0] == '+') {
        1
    } else {
        0
    };
    let ghost body = unsigned_part(cs@);
    assert(body =~= cs@.skip(start as int));
    let a = digits_end(cs, start);
    let ghost tail = body.skip(digit_run(body) as int);
    assert(tail =~= cs@.skip(a as int));
    let (from, b) = find_fraction(cs, a);
    let mut digits: Vec<char> = Vec::new();
    add_digits(&mut digits, cs, start, a);
    assert(digits@ =~= body.take(digit_run(body) as int));
    add_digits(&mut digits, cs, from, b);
    assert(digits@ == body.take(digit_run(body) as int) + fraction(tail));
    let places: i128 = (b - from) as i128;
    assert(places == fraction(tail).len());
    if digits.len() == 0 {
        return None;
    }
    let ghost rest = behind_fraction(tail);
    assert(rest == cs@.skip(b as int));
    if b == cs.len() {
        return read_scaled(&digits, -places);
    }
    assert(rest[0] == cs@[b as int]);
    assert(rest.skip(1) =~= cs@.skip(b + 1));
    if cs[b] != 'e' && cs[b] != 'E' {
        return None;
    }
    match read_exponent(cs, b + 1) {
        Some(e) => read_scaled(&digits, e - places),
        None => None,
    }
}

// ---- rounding ----

/// The distance is positive, and beyond 53 bits at most half of the number.
proof fn lemma_spacing(n: nat)
    ensures
        spacing(n) >= 1,
        n >= 0x20_0000_0000_0000 ==> 2 * spacing(n) <= n,
    decreases n,
{
    if n >= 0x20_0000_0000_0000 {
        lemma_spacing(n / 2);
    }
}

/// Rounding changes a number by less than the distance.
proof fn lemma_rounded(n: nat)
    ensures
        n - spacing(n) < rounded(n) <= n + spacing(n),
{
    lemma_spacing(n);
    let u = spacing(n) as int;
    let q = n as int / u;
    lemma_fundamental_div_mod(n as int, u);
    lemma_mod_bound(n as int, u);
    assert((q + 1) * u == q * u + u && q * u == u * q) by (nonlinear_arith);
}

/// The nearest number that is held in 53 bits.
fn round(n: u128) -> (r: u128)
    requires
        n <= LIMIT,
    ensures
        r == rounded(n as nat),
{
    let mut m: u128 = n;
    let mut u: u128 = 1;
    while m >= 0x20_0000_0000_0000
        invariant
            n <= LIMIT,
            1 <= u <= LIMIT,
            m == n as nat / u as nat,
            spacing(n as nat) == u * spacing(m as nat),
        decreases m,
    {
        proof {
            lemma_fundamental_div_mod(n as int, u as int);
            lemma_mod_bound(n as int, u as int);
            lemma_div_denominator(n as int, u as int, 2);
            assert(u * m <= n);
            assert(2 * u <= LIMIT) by (nonlinear_arith)
                requires
                    u * m <= n,
                    n <= LIMIT,
                    m >= 0x20_0000_0000_0000,
                    u >= 1,
            ;
            assert(u * (2 * spacing((m / 2) as nat)) == (u * 2) * spacing((m / 2) as nat))
                by (nonlinear_arith);
        }
        m = m / 2;
        u = u * 2;
    }
    assert(u * 1 == u);
    let q: u128 = n / u;
    let r: u128 = n % u;
    proof {
        lemma_fundamental_div_mod(n as int, u as int);
        lemma_mod_bound(n as int, u as int);
        assert(u * q <= n);
        assert((q + 1) * u == q * u + u && q * u == u * q) by (nonlinear_arith);
    }
    if 2 * r < u || (2 * r == u && q % 2 == 0) {
        q * u
    } else {
        (q + 1) * u
    }
}

/// The number for which a text stands where it is compared with a key.
pub fn read_key(s: &str) -> (r: Option<i64>)
    ensures
        r == key_number(s@),
{
    let bare = trim_matches(
        s,
        |c: char| -> (b: bool) ensures b == blank()(c) {
            ('\u{9}' <= c && c <= '\u{d}') || c == ' '
        },
        Ghost(blank()),
    );
    if let Some(n) = parse_i64(bare.as_str()) {
        return Some(n);
    }
    let cs = to_chars(bare.as_str());
    match read_whole(&cs) {
        Some(n) => {
            let size: u128 = round(n);
            if size > 0x7fff_ffff_ffff_fc00 {
                None
            } else if cs[0] == '-' {
                Some(-(size as i64))
            } else {
                Some(size as i64)
            }
        },
        None => {
            proof {
                if let Some(n) = whole_size(bare@) {
                    lemma_spacing(n);
                    lemma_rounded(n);
                }
            }
            None
        },
    }
}

/// An integer stands for itself.
pub proof fn law_integer_stands_for_itself(n: i64)
    ensures
        key_number(dec(n as int)) == Some(n),
{
    crate::text::law_decimal_round_trip(n);
    let s = dec(n as int);
    let d = unsigned_part(s);
    assert(s[s.len() - 1] == d[d.len() - 1]);
    assert(is_digit(d[d.len() - 1]));
    assert(is_digit(d[0]));
    lemma_run(s, blank(), 0);
    assert(s.skip(0) =~= s);
    lemma_run_back(s, blank(), 0);
    assert(trimmed_of(s, blank()) =~= s);
}

/// A scaled number is the number times the power of ten, or by it where that leaves nothing over.
pub proof fn law_scaled(n: nat, k: nat)
    ensures
        scaled(n, k as int) == Some((n * vstd::arithmetic::power::pow(10, k)) as nat),
        scaled((n * vstd::arithmetic::power::pow(10, k)) as nat, -(k as int)) == Some(n),
        n % 10 != 0 && k > 0 ==> scaled(n, -(k as int)) is None,
    decreases k,
{
    reveal(vstd::arithmetic::power::pow);
    vstd::arithmetic::power::lemma_pow_positive(10, k);
    if k == 0 {
        assert(n * 1 == n);
    } else {
        let j = (k - 1) as nat;
        let p = vstd::arithmetic::power::pow(10, j);
        vstd::arithmetic::power::lemma_pow_positive(10, j);
        assert(vstd::arithmetic::power::pow(10, k) == 10 * p);
        law_scaled(n * 10, j);
        law_scaled(n, j);
        assert((n * 10) * p == n * (10 * p)) by (nonlinear_arith);
        let m = (n * (10 * p)) as nat;
        assert(n * (10 * p) == 10 * (n * p)) by (nonlinear_arith);
        assert(n * p >= 0) by (nonlinear_arith)
            requires
                p > 0,
        ;
        assert(m % 10 == 0 && m / 10 == (n * p) as nat);
    }
}

/// A number of up to 53 bits is held as it is; beyond, it is off by no more than half the distance
/// to the next.
pub proof fn law_rounded(n: nat)
    ensures
        n < 0x20_0000_0000_0000 ==> rounded(n) == n,
        2 * rounded(n) <= 2 * n + spacing(n),
        2 * n <= 2 * rounded(n) + spacing(n),
{
    lemma_spacing(n);
    let u = spacing(n) as int;
    let q = n as int / u;
    lemma_fundamental_div_mod(n as int, u);
    lemma_mod_bound(n as int, u);
    assert((q + 1) * u == q * u + u && q * u == u * q) by (nonlinear_arith);
}

/// White space around a number does not matter.
pub proof fn law_blanks_around_a_number(n: i64, before: Seq<char>, behind: Seq<char>)
    requires
        forall|i: int|
            0 <= i < before.len() ==> #[trigger] before[i] == ' ' || before[i] == '\t' || before[i]
                == '\n',
        forall|i: int|
            0 <= i < behind.len() ==> #[trigger] behind[i] == ' ' || behind[i] == '\t' || behind[i]
                == '\n',
    ensures
        key_number(before + dec(n as int) + behind) == Some(n),
{
    crate::text::law_decimal_round_trip(n);
    let s = dec(n as int);
    let d = unsigned_part(s);
    assert(s[s.len() - 1] == d[d.len() - 1]);
    assert(is_digit(d[d.len() - 1]));
    assert(is_digit(d[0]));
    let whole = before + s + behind;
    let a = before.len() as int;
    assert forall|i: int| 0 <= i < a implies blank()(#[trigger] whole[i]) by {
        assert(whole[i] == before[i]);
    }
    assert(whole[a] == s[0]);
    lemma_run(whole, blank(), a);
    let t = whole.skip(a);
    assert(t =~= s + behind);
    assert forall|i: int| t.len() - behind.len() <= i < t.len() implies blank()(
        #[trigger] t[i],
    ) by {
        assert(t[i] == behind[i - s.len()]);
    }
    assert(t[t.len() - behind.len() - 1] == s[s.len() - 1]);
    lemma_run_back(t, blank(), behind.len() as int);
    assert(t.take(s.len() as int) =~= s);
}

/// A number with one digit behind the decimal point stands for the number before it where the
/// digit is zero, and for none where it is another.
pub proof fn law_decimal_point(n: nat, d: char)
    requires
        n < 0x20_0000_0000_0000,
        is_digit(d),
    ensures
        key_number(dec(n as int) + seq!['.', d]) == if d == '0' {
            Some(n as i64)
        } else {
            None
        },
{
    let w = dec(n as int);
    let s = w + seq!['.', d];
    let p = |c: char| is_digit(c);
    crate::text::law_decimal_round_trip(n as i64);
    let unsigned = unsigned_part(w);
    assert(is_digit(unsigned[0]) && w[0] == unsigned[0]) by {
        if w[0] == '-' || w[0] == '+' {
            lemma_first_digit(n);
        }
    }
    assert(w =~= unsigned);
    assert(s[0] == w[0]);
    assert(s.last() == d);
    lemma_run(s, blank(), 0);
    assert(s.skip(0) =~= s);
    lemma_run_back(s, blank(), 0);
    assert(trimmed_of(s, blank()) =~= s);
    assert(unsigned_part(s) == s);
    assert(s[w.len() as int] == '.');
    assert(!is_decimal(s));
    assert forall|i: int| 0 <= i < w.len() implies p(#[trigger] s[i]) by {
        assert(s[i] == w[i] && is_digit(unsigned[i]));
    }
    lemma_run(s, p, w.len() as int);
    let tail = s.skip(w.len() as int);
    assert(tail =~= seq!['.', d]);
    assert(tail.skip(1) =~= seq![d]);
    lemma_run(tail.skip(1), p, 1);
    assert(fraction(tail) =~= seq![d]);
    assert(behind_fraction(tail) =~= Seq::empty());
    assert(s.take(w.len() as int) =~= w);
    let digits = w + seq![d];
    assert(digits.drop_last() =~= w);
    assert(digits.last() == d);
    assert(digits_value(w) == n);
    let m = (n * 10 + (d as int - 48)) as nat;
    assert(digits_value(digits) == m);
    assert(m % 10 == (d as int - 48) as nat && m / 10 == n);
    assert(scaled(n, 0) == Some(n));
    law_rounded(n);
}

/// The notation of a number that is not negative begins with a digit.
proof fn lemma_first_digit(n: nat)
    ensures
        dec(n as int).len() > 0,
        is_digit(dec(n as int)[0]),
    decreases n,
{
    if n >= 10 {
        lemma_first_digit(n / 10);
    }
}

/// An exponent that is not too large is read as it is written.
proof fn lemma_exponent_size(k: nat)
    requires
        k < 10000,
    ensures
        exponent_size(dec(k as int)) == k,
    decreases k,
{
    let s = dec(k as int);
    if k >= 10 {
        lemma_exponent_size(k / 10);
        assert(s.drop_last() =~= dec((k / 10) as int));
    } else {
        assert(s.drop_last() =~= Seq::empty());
        assert(exponent_size(s.drop_last()) == 0);
    }
}

/// A number with an exponent stands for the number times that power of ten.
pub proof fn law_exponent(n: nat, k: nat, e: char)
    requires
        e == 'e' || e == 'E',
        k < 10000,
        n * vstd::arithmetic::power::pow(10, k) < 0x20_0000_0000_0000,
    ensures
        key_number(dec(n as int).push(e) + dec(k as int)) == Some(
            (n * vstd::arithmetic::power::pow(10, k)) as i64,
        ),
{
    let w = dec(n as int);
    let x = dec(k as int);
    let s = w.push(e) + x;
    let p = |c: char| is_digit(c);
    let power = vstd::arithmetic::power::pow(10, k);
    vstd::arithmetic::power::lemma_pow_positive(10, k);
    assert(n <= n * power) by (nonlinear_arith)
        requires
            power >= 1,
    ;
    crate::text::law_decimal_round_trip(n as i64);
    crate::text::law_decimal_round_trip(k as i64);
    lemma_first_digit(n);
    lemma_first_digit(k);
    assert(unsigned_part(w) == w && unsigned_part(x) == x);
    assert(s[0] == w[0]);
    assert(s.last() == x[x.len() - 1]);
    assert(is_digit(x[x.len() - 1]));
    lemma_run(s, blank(), 0);
    assert(s.skip(0) =~= s);
    lemma_run_back(s, blank(), 0);
    assert(trimmed_of(s, blank()) =~= s);
    assert(unsigned_part(s) == s);
    assert(s[w.len() as int] == e);
    assert(!is_decimal(s));
    assert forall|i: int| 0 <= i < w.len() implies p(#[trigger] s[i]) by {
        assert(s[i] == w[i]);
    }
    lemma_run(s, p, w.len() as int);
    let tail = s.skip(w.len() as int);
    assert(tail[0] == e);
    assert(fraction(tail) =~= Seq::empty());
    assert(behind_fraction(tail) == tail);
    assert(tail.skip(1) =~= x);
    assert(s.take(w.len() as int) =~= w);
    assert(w + Seq::<char>::empty() =~= w);
    assert(digits_value(w) == n);
    lemma_exponent_size(k);
    assert(exponent(x) == k);
    law_scaled(n, k);
    law_rounded((n * power) as nat);
}

/// A text without a digit stands for no key, and so does one with a letter that belongs to no
/// exponent.
pub proof fn law_texts_that_are_no_keys(n: nat, c: char)
    requires
        n < 0x20_0000_0000_0000,
        'a' <= c <= 'z' || 'A' <= c <= 'Z',
    ensures
        key_number(Seq::empty()) is None,
        key_number(seq![c]) is None,
        key_number(dec(n as int).push(c)) is None,
{
    let none = Seq::<char>::empty();
    let p = |c: char| is_digit(c);
    assert(none.skip(0) =~= none);
    assert(trimmed_of(none, blank()) =~= none);
    assert(none.take(0) =~= none && none + none =~= none);
    assert(fraction(none) =~= none);
    assert(whole_size(none) is None);

    let one = seq![c];
    lemma_run(one, blank(), 0);
    assert(one.skip(0) =~= one);
    lemma_run_back(one, blank(), 0);
    assert(trimmed_of(one, blank()) =~= one);
    assert(unsigned_part(one) == one);
    assert(!is_digit(one[0]));
    assert(!is_decimal(one));
    lemma_run(one, p, 0);
    assert(one.take(0) =~= none);
    assert(fraction(one) =~= none);
    assert(whole_size(one) is None);

    let w = dec(n as int);
    let s = w.push(c);
    crate::text::law_decimal_round_trip(n as i64);
    lemma_first_digit(n);
    assert(unsigned_part(w) == w);
    assert(s[0] == w[0] && s.last() == c);
    lemma_run(s, blank(), 0);
    assert(s.skip(0) =~= s);
    lemma_run_back(s, blank(), 0);
    assert(trimmed_of(s, blank()) =~= s);
    assert(unsigned_part(s) == s);
    assert(s[w.len() as int] == c);
    assert(!is_decimal(s));
    assert forall|i: int| 0 <= i < w.len() implies p(#[trigger] s[i]) by {
        assert(s[i] == w[i]);
    }
    lemma_run(s, p, w.len() as int);
    let tail = s.skip(w.len() as int);
    assert(tail =~= seq![c]);
    assert(behind_fraction(tail) == tail);
    assert(tail.skip(1) =~= none);
    assert(!is_decimal(none));
    assert(whole_size(s) is None);
}

/// A negative exponent takes the power of ten away again, and a negative number stands for the
/// negative key.
pub proof fn law_signs(n: nat, k: nat)
    requires
        k < 10000,
        0 < n * vstd::arithmetic::power::pow(10, k) < 0x20_0000_0000_0000,
    ensures
        key_number(
            dec((n * vstd::arithmetic::power::pow(10, k)) as int) + seq!['e', '-'] + dec(k as int),
        ) == Some(n as i64),
        key_number(seq!['-'] + dec(n as int) + seq!['.', '0']) == Some((-(n as int)) as i64),
{
    let power = vstd::arithmetic::power::pow(10, k);
    vstd::arithmetic::power::lemma_pow_positive(10, k);
    let m = (n * power) as nat;
    assert(n <= m) by (nonlinear_arith)
        requires
            m == n * power,
            power >= 1,
    ;
    lemma_negative_exponent(m, k);
    law_scaled(n, k);
    law_rounded(n);
    assert(n > 0) by (nonlinear_arith)
        requires
            0 < n * power,
            power >= 1,
    ;
    lemma_negative_point(n);
}

/// How a number with a negative exponent is read.
proof fn lemma_negative_exponent(m: nat, k: nat)
    requires
        k < 10000,
        m < 0x20_0000_0000_0000,
    ensures
        ({
            let s = dec(m as int) + seq!['e', '-'] + dec(k as int);
            &&& key_number(s) == match scaled(m, -(k as int)) {
                Some(n) => if rounded(n) > 0x7fff_ffff_ffff_fc00 {
                    None
                } else {
                    Some(rounded(n) as i64)
                },
                None => None,
            }
        }),
{
    let w = dec(m as int);
    let x = dec(k as int);
    let s = w + seq!['e', '-'] + x;
    let p = |c: char| is_digit(c);
    crate::text::law_decimal_round_trip(m as i64);
    crate::text::law_decimal_round_trip(k as i64);
    lemma_first_digit(m);
    lemma_first_digit(k);
    assert(unsigned_part(w) == w && unsigned_part(x) == x);
    assert(s[0] == w[0]);
    assert(s.last() == x[x.len() - 1]);
    assert(is_digit(x[x.len() - 1]));
    lemma_run(s, blank(), 0);
    assert(s.skip(0) =~= s);
    lemma_run_back(s, blank(), 0);
    assert(trimmed_of(s, blank()) =~= s);
    assert(unsigned_part(s) == s);
    assert(s[w.len() as int] == 'e');
    assert(!is_decimal(s));
    assert forall|i: int| 0 <= i < w.len() implies p(#[trigger] s[i]) by {
        assert(s[i] == w[i]);
    }
    lemma_run(s, p, w.len() as int);
    let tail = s.skip(w.len() as int);
    assert(tail[0] == 'e');
    assert(fraction(tail) =~= Seq::empty());
    assert(behind_fraction(tail) == tail);
    let y = tail.skip(1);
    assert(y =~= seq!['-'] + x);
    assert(y[0] == '-');
    assert(y.skip(1) =~= x);
    assert(unsigned_part(y) == x);
    assert(is_decimal(y)) by {
        assert(is_decimal(x));
    }
    assert(s.take(w.len() as int) =~= w);
    assert(w + Seq::<char>::empty() =~= w);
    assert(digits_value(w) == m);
    lemma_exponent_size(k);
    assert(exponent(y) == -(k as int));
}

/// How a negative number with a decimal point is read.
proof fn lemma_negative_point(n: nat)
    requires
        n < 0x20_0000_0000_0000,
    ensures
        key_number(seq!['-'] + dec(n as int) + seq!['.', '0']) == Some((-(n as int)) as i64),
{
    let w = dec(n as int);
    let b = w + seq!['.', '0'];
    let s = seq!['-'] + w + seq!['.', '0'];
    let p = |c: char| is_digit(c);
    crate::text::law_decimal_round_trip(n as i64);
    lemma_first_digit(n);
    assert(unsigned_part(w) == w);
    assert(s[0] == '-' && s.last() == '0');
    lemma_run(s, blank(), 0);
    assert(s.skip(0) =~= s);
    lemma_run_back(s, blank(), 0);
    assert(trimmed_of(s, blank()) =~= s);
    assert(s.skip(1) =~= b);
    assert(unsigned_part(s) == b);
    assert(b[w.len() as int] == '.');
    assert(!is_decimal(s));
    assert forall|i: int| 0 <= i < w.len() implies p(#[trigger] b[i]) by {
        assert(b[i] == w[i]);
    }
    lemma_run(b, p, w.len() as int);
    let tail = b.skip(w.len() as int);
    assert(tail =~= seq!['.', '0']);
    assert(tail.skip(1) =~= seq!['0']);
    lemma_run(tail.skip(1), p, 1);
    assert(fraction(tail) =~= seq!['0']);
    assert(behind_fraction(tail) =~= Seq::empty());
    assert(b.take(w.len() as int) =~= w);
    let digits = w + seq!['0'];
    assert(digits.drop_last() =~= w);
    assert(digits.last() == '0');
    assert(digits_value(w) == n);
    let m = n * 10;
    assert(digits_value(digits) == m);
    assert(m % 10 == 0 && m / 10 == n);
    assert(scaled(n, 0) == Some(n));
    law_rounded(n);
}

} // verus!
