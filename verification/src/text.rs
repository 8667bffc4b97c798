//! Text as sequences of characters: comparison, decimal numbers, words, lines.

use vstd::prelude::*;
use vstd::utf8::{encode_utf8, encode_utf8_decode_utf8};

verus! {

/// `String::push`: the character is put behind those already there.
pub assume_specification[ String::push ](s: &mut String, c: char)
    ensures
        final(s)@ == old(s)@.push(c),
;

/// The optional text by its characters.
pub open spec fn opt_text(o: Option<String>) -> Option<Seq<char>> {
    match o {
        Some(s) => Some(s@),
        None => None,
    }
}

/// The texts of a list by their characters.
pub open spec fn texts(list: Seq<String>) -> Seq<Seq<char>> {
    list.map_values(|s: String| s@)
}

/// The characters of an optional text, none where it is absent.
pub open spec fn text_or_empty(o: Option<Seq<char>>) -> Seq<char> {
    match o {
        Some(s) => s,
        None => Seq::empty(),
    }
}

/// Whether two texts hold the same characters.
pub fn same(a: &str, b: &str) -> (r: bool)
    ensures
        r == (a@ == b@),
{
    let x = a.as_bytes();
    let y = b.as_bytes();
    proof {
        encode_utf8_decode_utf8(a@);
        encode_utf8_decode_utf8(b@);
    }
    if x.len() != y.len() {
        return false;
    }
    let mut i: usize = 0;
    while i < x.len()
        invariant
            i <= x@.len(),
            x@.len() == y@.len(),
            x@ == encode_utf8(a@),
            y@ == encode_utf8(b@),
            forall|k: int| 0 <= k < i ==> x@[k] == y@[k],
        decreases x@.len() - i,
    {
        if x[i] != y[i] {
            return false;
        }
        i += 1;
    }
    assert(x@ =~= y@);
    true
}

/// The characters of a text.
pub fn to_chars(s: &str) -> (r: Vec<char>)
    ensures
        r@ == s@,
{
    let mut out: Vec<char> = Vec::new();
    for c in it: s.chars()
        invariant
            out@ == it.seq().take(it.index@ as int),
    {
        out.push(c);
    }
    out
}

/// The text made of the characters `cs[from..to]`.
pub fn from_chars(cs: &Vec<char>, from: usize, to: usize) -> (r: String)
    requires
        from <= to <= cs@.len(),
    ensures
        r@ == cs@.subrange(from as int, to as int),
{
    let mut out = String::new();
    let mut i: usize = from;
    while i < to
        invariant
            from <= i <= to,
            to <= cs@.len(),
            out@ == cs@.subrange(from as int, i as int),
        decreases to - i,
    {
        out.push(cs[i]);
        i += 1;
        assert(out@ =~= cs@.subrange(from as int, i as int));
    }
    out
}

/// Two texts, one behind the other.
pub fn cat2(a: &str, b: &str) -> (r: String)
    ensures
        r@ == a@ + b@,
{
    let mut out = a.to_owned();
    out.append(b);
    out
}

/// Three texts, one behind the other.
pub fn cat3(a: &str, b: &str, c: &str) -> (r: String)
    ensures
        r@ == a@ + b@ + c@,
{
    let mut out = a.to_owned();
    out.append(b);
    out.append(c);
    out
}

/// Five texts, one behind the other.
pub fn cat5(a: &str, b: &str, c: &str, d: &str, e: &str) -> (r: String)
    ensures
        r@ == a@ + b@ + c@ + d@ + e@,
{
    let mut out = a.to_owned();
    out.append(b);
    out.append(c);
    out.append(d);
    out.append(e);
    out
}

/// The optional text again.
pub fn copy_opt(o: &Option<String>) -> (r: Option<String>)
    ensures
        opt_text(r) == opt_text(*o),
{
    match o {
        Some(s) => Some(s.clone()),
        None => None,
    }
}

/// An optional text, by the characters it holds.
pub open spec fn opt_str(o: Option<&str>) -> Option<Seq<char>> {
    match o {
        Some(s) => Some(s@),
        None => None,
    }
}

/// The optional text, owned.
pub fn own_opt(o: Option<&str>) -> (r: Option<String>)
    ensures
        opt_text(r) == opt_str(o),
{
    match o {
        Some(s) => Some(s.to_owned()),
        None => None,
    }
}

// ---- decimal numbers ----

/// The decimal digit `d`, for `d` below ten.
pub open spec fn digit(d: int) -> char {
    ((48 + d) as u8) as char
}

/// The decimal notation of a natural number.
pub open spec fn dec_nat(n: nat) -> Seq<char>
    decreases n,
{
    if n < 10 {
        seq![digit(n as int)]
    } else {
        dec_nat(n / 10).push(digit((n % 10) as int))
    }
}

/// The decimal notation of an integer.
pub open spec fn dec(n: int) -> Seq<char> {
    if n < 0 {
        seq!['-'] + dec_nat((-n) as nat)
    } else {
        dec_nat(n as nat)
    }
}

/// Writes the decimal notation of `n` behind what `out` holds.
fn push_dec(out: &mut String, n: u64)
    ensures
        final(out)@ == old(out)@ + dec_nat(n as nat),
    decreases n,
{
    if n >= 10 {
        push_dec(out, n / 10);
    }
    let d: u8 = (n % 10) as u8;
    out.push((48 + d) as char);
    proof {
        assert(dec_nat(n as nat) == if n < 10 {
            seq![digit(n as int)]
        } else {
            dec_nat(n as nat / 10).push(digit((n as nat % 10) as int))
        });
        assert(out@ =~= old(out)@ + dec_nat(n as nat));
    }
}

/// A signed number in decimal.
pub fn dec_i64(n: i64) -> (r: String)
    ensures
        r@ == dec(n as int),
{
    let mut out = String::new();
    if n < 0 {
        out.push('-');
        if n == i64::MIN {
            push_dec(&mut out, 9223372036854775808);
        } else {
            push_dec(&mut out, (-n) as u64);
        }
    } else {
        push_dec(&mut out, n as u64);
    }
    assert(out@ =~= dec(n as int));
    out
}

/// An unsigned number in decimal.
pub fn dec_u64(n: u64) -> (r: String)
    ensures
        r@ == dec(n as int),
{
    let mut out = String::new();
    push_dec(&mut out, n);
    assert(out@ =~= dec(n as int));
    out
}

/// A count in decimal.
pub fn dec_usize(n: usize) -> (r: String)
    ensures
        r@ == dec(n as int),
{
    dec_u64(n as u64)
}

/// Whether the character is a decimal digit of ASCII.
pub open spec fn is_digit(c: char) -> bool {
    '0' <= c <= '9'
}

/// The number that a sequence of digits stands for.
pub open spec fn digits_value(s: Seq<char>) -> int
    decreases s.len(),
{
    if s.len() == 0 {
        0
    } else {
        digits_value(s.drop_last()) * 10 + (s.last() as int - 48)
    }
}

/// Whether the text is a decimal integer: an optional sign and at least one digit.
pub open spec fn is_decimal(s: Seq<char>) -> bool {
    let d = unsigned_part(s);
    d.len() > 0 && forall|i: int| 0 <= i < d.len() ==> is_digit(#[trigger] d[i])
}

/// The text without its sign, if it has one.
pub open spec fn unsigned_part(s: Seq<char>) -> Seq<char> {
    if s.len() > 0 && (s[0] == '-' || s[0] == '+') {
        s.skip(1)
    } else {
        s
    }
}

/// The value of a decimal integer.
pub open spec fn decimal_value(s: Seq<char>) -> int {
    if s.len() > 0 && s[0] == '-' {
        -digits_value(unsigned_part(s))
    } else {
        digits_value(unsigned_part(s))
    }
}

/// The 64-bit number that the text stands for, where it stands for one.
pub open spec fn parsed_i64(s: Seq<char>) -> Option<i64> {
    if is_decimal(s) && i64::MIN <= decimal_value(s) <= i64::MAX {
        Some(decimal_value(s) as i64)
    } else {
        None
    }
}

/// Appending digits never makes the value smaller.
pub proof fn lemma_digits_grow(s: Seq<char>, k: int)
    requires
        0 <= k <= s.len(),
        forall|i: int| 0 <= i < s.len() ==> is_digit(#[trigger] s[i]),
    ensures
        0 <= digits_value(s.take(k)) <= digits_value(s),
    decreases s.len(),
{
    if s.len() == 0 {
        assert(s.take(k) =~= s);
    } else if k == s.len() {
        assert(s.take(k) =~= s);
        lemma_digits_grow(s.drop_last(), s.len() - 1);
        assert(s.drop_last().take(s.len() - 1) =~= s.drop_last());
    } else {
        lemma_digits_grow(s.drop_last(), k);
        assert(s.drop_last().take(k) =~= s.take(k));
        assert(is_digit(s[s.len() - 1]));
    }
}

/// The digits of a number stand for that number.
proof fn lemma_digits_of(n: nat)
    ensures
        dec_nat(n).len() > 0,
        digits_value(dec_nat(n)) == n,
        forall|i: int| 0 <= i < dec_nat(n).len() ==> is_digit(#[trigger] dec_nat(n)[i]),
    decreases n,
{
    if n >= 10 {
        lemma_digits_of(n / 10);
        let before = dec_nat(n / 10);
        let d = digit((n % 10) as int);
        assert(dec_nat(n) == before.push(d));
        assert(before.push(d).drop_last() =~= before);
        assert(d as int == 48 + n % 10);
        assert forall|i: int| 0 <= i < dec_nat(n).len() implies is_digit(
            #[trigger] dec_nat(n)[i],
        ) by {
            if i < before.len() {
                assert(dec_nat(n)[i] == before[i]);
            }
        }
    } else {
        let one = seq![digit(n as int)];
        assert(one.drop_last() =~= Seq::<char>::empty());
        assert(digits_value(one.drop_last()) == 0);
        assert(one.last() as int == 48 + n);
    }
}

/// A number is read back from its decimal notation.
pub proof fn law_decimal_round_trip(n: i64)
    ensures
        parsed_i64(dec(n as int)) == Some(n),
{
    let s = dec(n as int);
    if n < 0 {
        lemma_digits_of((-n) as nat);
        assert(s[0] == '-');
        assert(s.skip(1) =~= dec_nat((-n) as nat));
    } else {
        lemma_digits_of(n as nat);
        assert(is_digit(s[0]));
        assert(unsigned_part(s) == s);
    }
}

/// Reads a signed decimal number that fits in 64 bits.
pub fn parse_i64(s: &str) -> (r: Option<i64>)
    ensures
        r == parsed_i64(s@),
{
    let cs = to_chars(s);
    let n = cs.len();
    if n == 0 {
        return None;
    }
    let negative = cs[0] == '-';
    let start: usize = if cs[0] == '-' || cs[0] == '+' {
        1
    } else {
        0
    };
    if start == n {
        return None;
    }
    let ghost d = unsigned_part(s@);
    assert(d =~= s@.skip(start as int));
    let mut value: i128 = 0;
    let mut i: usize = start;
    assert(d.take(0) =~= Seq::<char>::empty());
    while i < n
        invariant
            start <= i <= n,
            start <= 1,
            n == cs@.len(),
            cs@ == s@,
            d == s@.skip(start as int),
            d == unsigned_part(s@),
            forall|k: int| 0 <= k < i - start ==> is_digit(#[trigger] d[k]),
            value == digits_value(d.take(i - start)),
            0 <= value <= 9223372036854775808,
        decreases n - i,
    {
        let c = cs[i];
        assert(d[i - start] == c);
        if !('0' <= c && c <= '9') {
            assert(!is_digit(d[i - start]));
            return None;
        }
        value = value * 10 + (c as u32 as i128 - 48);
        proof {
            assert(d.take(i + 1 - start).drop_last() =~= d.take(i - start));
            assert(d.take(i + 1 - start).last() == c);
        }
        i += 1;
        if value > 9223372036854775808 {
            proof {
                if is_decimal(s@) {
                    lemma_digits_grow(d, i - start);
                    assert(digits_value(d) > 9223372036854775808);
                }
            }
            return None;
        }
    }
    assert(d.take(i - start) =~= d);
    let signed: i128 = if negative {
        -value
    } else {
        value
    };
    assert(signed == decimal_value(s@));
    if signed > 9223372036854775807 {
        return None;
    }
    Some(signed as i64)
}

// ---- searching ----

/// Whether `needle` stands in `hay` at position `i`.
pub open spec fn occurs_at(hay: Seq<char>, needle: Seq<char>, i: int) -> bool {
    0 <= i && i + needle.len() <= hay.len() && hay.subrange(i, i + needle.len()) == needle
}

/// Whether `needle` stands anywhere in `hay`.
pub open spec fn occurs(hay: Seq<char>, needle: Seq<char>) -> bool {
    exists|i: int| occurs_at(hay, needle, i)
}

/// Whether `hay` begins with `needle`.
pub open spec fn begins(hay: Seq<char>, needle: Seq<char>) -> bool {
    occurs_at(hay, needle, 0)
}

/// Whether `hay` ends with `needle`.
pub open spec fn ends(hay: Seq<char>, needle: Seq<char>) -> bool {
    occurs_at(hay, needle, hay.len() - needle.len())
}

/// Tests for `needle` at position `i`.
pub fn found_at(hay: &Vec<char>, needle: &Vec<char>, i: usize) -> (r: bool)
    ensures
        r == occurs_at(hay@, needle@, i as int),
{
    if i > hay.len() || needle.len() > hay.len() - i {
        return false;
    }
    let mut k: usize = 0;
    while k < needle.len()
        invariant
            k <= needle@.len(),
            i + needle.len() <= hay.len(),
            hay@.subrange(i as int, i + k) == needle@.take(k as int),
        decreases needle@.len() - k,
    {
        if hay[i + k] != needle[k] {
            proof {
                if hay@.subrange(i as int, i + needle@.len()) == needle@ {
                    assert(hay@.subrange(i as int, i + needle@.len())[k as int] == hay@[i + k]);
                }
            }
            return false;
        }
        k += 1;
        assert(hay@.subrange(i as int, i + k) =~= hay@.subrange(i as int, i + k - 1).push(
            hay@[i + k - 1],
        ));
        assert(needle@.take(k as int) =~= needle@.take(k - 1).push(needle@[k - 1]));
    }
    assert(needle@.take(k as int) =~= needle@);
    true
}

/// Whether `needle` stands anywhere in `hay`.
pub fn contains(hay: &str, needle: &str) -> (r: bool)
    ensures
        r == occurs(hay@, needle@),
{
    let h = to_chars(hay);
    let n = to_chars(needle);
    if n.len() > h.len() {
        return false;
    }
    let mut i: usize = 0;
    while i <= h.len() - n.len()
        invariant
            h@ == hay@,
            n@ == needle@,
            n@.len() <= h@.len(),
            i <= h@.len() - n@.len() + 1,
            forall|k: int| 0 <= k < i ==> !occurs_at(h@, n@, k),
        decreases h@.len() - n@.len() + 1 - i,
    {
        if found_at(&h, &n, i) {
            return true;
        }
        if i == h.len() - n.len() {
            assert forall|k: int| !occurs_at(h@, n@, k) by {
                if occurs_at(h@, n@, k) {
                    assert(0 <= k <= h@.len() - n@.len());
                }
            }
            return false;
        }
        i += 1;
    }
    false
}

/// Whether `hay` begins with `needle`.
pub fn starts_with(hay: &str, needle: &str) -> (r: bool)
    ensures
        r == begins(hay@, needle@),
{
    found_at(&to_chars(hay), &to_chars(needle), 0)
}

/// Whether `hay` ends with `needle`.
pub fn ends_with(hay: &str, needle: &str) -> (r: bool)
    ensures
        r == ends(hay@, needle@),
{
    let h = to_chars(hay);
    let n = to_chars(needle);
    if n.len() > h.len() {
        return false;
    }
    found_at(&h, &n, h.len() - n.len())
}

/// What stands behind the prefix, where the text begins with it.
pub open spec fn after_prefix(s: Seq<char>, prefix: Seq<char>) -> Option<Seq<char>> {
    if begins(s, prefix) {
        Some(s.skip(prefix.len() as int))
    } else {
        None
    }
}

/// What stands behind the prefix, where the text begins with it.
pub fn strip_prefix(s: &str, prefix: &str) -> (r: Option<String>)
    ensures
        opt_text(r) == after_prefix(s@, prefix@),
{
    let cs = to_chars(s);
    let p = to_chars(prefix);
    if found_at(&cs, &p, 0) {
        let rest = from_chars(&cs, p.len(), cs.len());
        assert(rest@ =~= s@.skip(p@.len() as int));
        Some(rest)
    } else {
        None
    }
}

// ---- whitespace ----

/// The characters with the Unicode property White_Space.
pub open spec fn is_space(c: char) -> bool {
    ||| '\u{9}' <= c <= '\u{d}'
    ||| c == ' '
    ||| c == '\u{85}'
    ||| c == '\u{a0}'
    ||| c == '\u{1680}'
    ||| '\u{2000}' <= c <= '\u{200a}'
    ||| c == '\u{2028}'
    ||| c == '\u{2029}'
    ||| c == '\u{202f}'
    ||| c == '\u{205f}'
    ||| c == '\u{3000}'
}

/// Whether the character is white space.
pub fn space(c: char) -> (r: bool)
    ensures
        r == is_space(c),
{
    ('\u{9}' <= c && c <= '\u{d}') || c == ' ' || c == '\u{85}' || c == '\u{a0}' || c == '\u{1680}'
        || ('\u{2000}' <= c && c <= '\u{200a}') || c == '\u{2028}' || c == '\u{2029}' || c
        == '\u{202f}' || c == '\u{205f}' || c == '\u{3000}'
}

/// How many characters at the start of `s` satisfy `p`.
pub open spec fn run(s: Seq<char>, p: spec_fn(char) -> bool) -> nat
    decreases s.len(),
{
    if s.len() > 0 && p(s[0]) {
        1 + run(s.skip(1), p)
    } else {
        0
    }
}

/// How many characters at the end of `s` satisfy `p`.
pub open spec fn run_back(s: Seq<char>, p: spec_fn(char) -> bool) -> nat
    decreases s.len(),
{
    if s.len() > 0 && p(s.last()) {
        1 + run_back(s.drop_last(), p)
    } else {
        0
    }
}

/// A run is as long as the first place where it ends.
pub proof fn lemma_run(s: Seq<char>, p: spec_fn(char) -> bool, k: int)
    requires
        0 <= k <= s.len(),
        forall|i: int| 0 <= i < k ==> p(#[trigger] s[i]),
        k < s.len() ==> !p(s[k]),
    ensures
        run(s, p) == k,
    decreases s.len(),
{
    if k > 0 {
        assert(p(s[0]));
        let t = s.skip(1);
        assert forall|i: int| 0 <= i < k - 1 implies p(#[trigger] t[i]) by {
            assert(t[i] == s[i + 1]);
        }
        lemma_run(t, p, k - 1);
    }
}

/// A run from the back is as long as the last place where it ends.
pub proof fn lemma_run_back(s: Seq<char>, p: spec_fn(char) -> bool, k: int)
    requires
        0 <= k <= s.len(),
        forall|i: int| s.len() - k <= i < s.len() ==> p(#[trigger] s[i]),
        k < s.len() ==> !p(s[s.len() - k - 1]),
    ensures
        run_back(s, p) == k,
    decreases s.len(),
{
    if k > 0 {
        assert(p(s[s.len() - 1]));
        let t = s.drop_last();
        assert forall|i: int| t.len() - (k - 1) <= i < t.len() implies p(#[trigger] t[i]) by {
            assert(t[i] == s[i]);
        }
        lemma_run_back(t, p, k - 1);
    }
}

/// The words of a text: its longest stretches without white space, in order.
pub open spec fn words(s: Seq<char>) -> Seq<Seq<char>>
    decreases s.len(),
{
    if s.len() == 0 {
        Seq::empty()
    } else {
        let k = run(s, |c: char| !is_space(c));
        if k == 0 || k > s.len() {
            words(s.skip(1))
        } else {
            seq![s.take(k as int)] + words(s.skip(k as int))
        }
    }
}

/// The words of a text, in order.
pub fn split_words(s: &str) -> (r: Vec<String>)
    ensures
        texts(r@) == words(s@),
{
    let cs = to_chars(s);
    let ghost p = |c: char| !is_space(c);
    let mut out: Vec<String> = Vec::new();
    let mut i: usize = 0;
    assert(s@.skip(0) =~= s@);
    assert(texts(out@) + words(s@) =~= words(s@));
    while i < cs.len()
        invariant
            cs@ == s@,
            p == (|c: char| !is_space(c)),
            i <= cs@.len(),
            texts(out@) + words(s@.skip(i as int)) == words(s@),
        decreases cs@.len() - i,
    {
        let ghost rest = s@.skip(i as int);
        let mut j: usize = i;
        while j < cs.len() && !space(cs[j])
            invariant
                cs@ == s@,
                i <= j <= cs@.len(),
                forall|k: int| i <= k < j ==> !is_space(#[trigger] cs@[k]),
            decreases cs@.len() - j,
        {
            j += 1;
        }
        proof {
            assert forall|k: int| 0 <= k < j - i implies p(#[trigger] rest[k]) by {
                assert(rest[k] == cs@[i + k]);
            }
            lemma_run(rest, p, j - i);
        }
        if j > i {
            let word = from_chars(&cs, i, j);
            let ghost before = texts(out@);
            out.push(word);
            proof {
                assert(word@ =~= rest.take(j - i));
                assert(rest.skip(j - i) =~= s@.skip(j as int));
                assert(texts(out@) =~= before.push(word@));
                assert(before + (seq![word@] + words(s@.skip(j as int))) =~= before.push(word@)
                    + words(s@.skip(j as int)));
            }
            i = j;
        } else {
            proof {
                assert(rest.skip(1) =~= s@.skip(i + 1));
            }
            i += 1;
        }
    }
    assert(words(s@.skip(i as int)) =~= Seq::<Seq<char>>::empty());
    assert(texts(out@) =~= words(s@));
    out
}

/// The text without the white space at its two ends.
pub open spec fn trimmed(s: Seq<char>) -> Seq<char> {
    trimmed_of(s, |c: char| is_space(c))
}

/// The text without the characters at its two ends that satisfy `p`.
pub open spec fn trimmed_of(s: Seq<char>, p: spec_fn(char) -> bool) -> Seq<char> {
    let t = s.skip(run(s, p) as int);
    t.take(t.len() - run_back(t, p))
}

/// A trimmed text stands in the text, behind what was left out at its start.
pub proof fn lemma_trimmed_within(s: Seq<char>, p: spec_fn(char) -> bool)
    ensures
        run(s, p) + trimmed_of(s, p).len() <= s.len(),
        forall|k: int|
            0 <= k < trimmed_of(s, p).len() ==> #[trigger] trimmed_of(s, p)[k] == s[k + run(s, p)],
{
    lemma_run_len(s, p);
    let t = s.skip(run(s, p) as int);
    lemma_run_back_len(t, p);
}

/// A run is no longer than the text.
pub proof fn lemma_run_len(s: Seq<char>, p: spec_fn(char) -> bool)
    ensures
        run(s, p) <= s.len(),
    decreases s.len(),
{
    if s.len() > 0 && p(s[0]) {
        lemma_run_len(s.skip(1), p);
    }
}

/// A run from the back is no longer than the text.
pub proof fn lemma_run_back_len(s: Seq<char>, p: spec_fn(char) -> bool)
    ensures
        run_back(s, p) <= s.len(),
    decreases s.len(),
{
    if s.len() > 0 && p(s.last()) {
        lemma_run_back_len(s.drop_last(), p);
    }
}

/// The text without the characters at its two ends that pass the test.
pub fn trim_matches<F: Fn(char) -> bool>(
    s: &str,
    f: F,
    Ghost(p): Ghost<spec_fn(char) -> bool>,
) -> (r: String)
    requires
        forall|c: char| f.requires((c,)),
        forall|c: char, b: bool| f.ensures((c,), b) ==> b == p(c),
    ensures
        r@ == trimmed_of(s@, p),
{
    let cs = to_chars(s);
    let mut i: usize = 0;
    while i < cs.len()
        invariant
            cs@ == s@,
            i <= cs@.len(),
            forall|c: char| f.requires((c,)),
            forall|c: char, b: bool| f.ensures((c,), b) ==> b == p(c),
            forall|k: int| 0 <= k < i ==> p(#[trigger] cs@[k]),
        ensures
            i < cs@.len() ==> !p(cs@[i as int]),
        decreases cs@.len() - i,
    {
        if !f(cs[i]) {
            break;
        }
        i += 1;
    }
    proof {
        lemma_run(s@, p, i as int);
    }
    let ghost t = s@.skip(i as int);
    let mut j: usize = cs.len();
    while j > i
        invariant
            cs@ == s@,
            i <= j <= cs@.len(),
            forall|c: char| f.requires((c,)),
            forall|c: char, b: bool| f.ensures((c,), b) ==> b == p(c),
            forall|k: int| j <= k < cs@.len() ==> p(#[trigger] cs@[k]),
        ensures
            j > i ==> !p(cs@[j - 1]),
        decreases j,
    {
        if !f(cs[j - 1]) {
            break;
        }
        j -= 1;
    }
    proof {
        assert forall|k: int| t.len() - (cs@.len() - j) <= k < t.len() implies p(
            #[trigger] t[k],
        ) by {
            assert(t[k] == cs@[i + k]);
        }
        lemma_run_back(t, p, cs@.len() - j);
        assert(t.take(j - i) =~= s@.subrange(i as int, j as int));
    }
    from_chars(&cs, i, j)
}

/// The text without the white space at its two ends.
pub fn trim(s: &str) -> (r: String)
    ensures
        r@ == trimmed(s@),
{
    trim_matches(
        s,
        |c: char| -> (b: bool) ensures b == is_space(c) { space(c) },
        Ghost(|c: char| is_space(c)),
    )
}

/// Every character but `c`.
pub open spec fn all_but(c: char) -> spec_fn(char) -> bool {
    |x: char| x != c
}

/// The position of the first `c` in `s`, or the length of `s`.
pub open spec fn first_char(s: Seq<char>, c: char) -> nat {
    run(s, all_but(c))
}

/// The pieces of a text between the occurrences of `c`, empty ones too.
pub open spec fn pieces(s: Seq<char>, c: char) -> Seq<Seq<char>>
    decreases s.len(),
{
    let k = first_char(s, c) as int;
    if k >= s.len() {
        seq![s]
    } else {
        seq![s.take(k)] + pieces(s.skip(k + 1), c)
    }
}

/// The pieces of a text between the occurrences of `c`, empty ones too.
pub fn split_on(s: &str, c: char) -> (r: Vec<String>)
    ensures
        texts(r@) == pieces(s@, c),
{
    let cs = to_chars(s);
    let ghost p = all_but(c);
    let mut out: Vec<String> = Vec::new();
    let mut i: usize = 0;
    assert(s@.skip(0) =~= s@);
    assert(texts(out@) + pieces(s@, c) =~= pieces(s@, c));
    loop
        invariant
            cs@ == s@,
            p == all_but(c),
            i <= cs@.len(),
            texts(out@) + pieces(s@.skip(i as int), c) == pieces(s@, c),
        decreases cs@.len() - i,
    {
        let ghost rest = s@.skip(i as int);
        let mut j: usize = i;
        while j < cs.len() && cs[j] != c
            invariant
                cs@ == s@,
                i <= j <= cs@.len(),
                forall|k: int| i <= k < j ==> #[trigger] cs@[k] != c,
            decreases cs@.len() - j,
        {
            j += 1;
        }
        proof {
            assert forall|k: int| 0 <= k < j - i implies p(#[trigger] rest[k]) by {
                assert(rest[k] == cs@[i + k]);
            }
            lemma_run(rest, p, j - i);
        }
        let ghost before = texts(out@);
        let piece = from_chars(&cs, i, j);
        out.push(piece);
        proof {
            assert(piece@ =~= rest.take(j - i));
            assert(texts(out@) =~= before.push(piece@));
        }
        if j == cs.len() {
            assert(rest.take(j - i) =~= rest);
            assert(before + seq![rest] =~= before.push(rest));
            return out;
        }
        proof {
            assert(rest.skip(j - i + 1) =~= s@.skip(j + 1));
            assert(before + (seq![piece@] + pieces(s@.skip(j + 1), c)) =~= before.push(piece@)
                + pieces(s@.skip(j + 1), c));
        }
        i = j + 1;
    }
}

/// The texts of the list, with `sep` between each and the next.
pub open spec fn joined(list: Seq<Seq<char>>, sep: Seq<char>) -> Seq<char>
    decreases list.len(),
{
    if list.len() == 0 {
        Seq::empty()
    } else if list.len() == 1 {
        list[0]
    } else {
        joined(list.drop_last(), sep) + sep + list.last()
    }
}

/// The texts of the list, with `sep` between each and the next.
pub fn join(list: &Vec<String>, sep: &str) -> (r: String)
    ensures
        r@ == joined(texts(list@), sep@),
{
    let mut out = String::new();
    let mut i: usize = 0;
    let ghost all = texts(list@);
    while i < list.len()
        invariant
            i <= list@.len(),
            all == texts(list@),
            out@ == joined(all.take(i as int), sep@),
        decreases list@.len() - i,
    {
        if i > 0 {
            out.append(sep);
        }
        out.append(list[i].as_str());
        proof {
            assert(all.take(i + 1).drop_last() =~= all.take(i as int));
            assert(all.take(i + 1).last() == list@[i as int]@);
            if i == 0 {
                assert(out@ =~= list@[0]@);
            }
        }
        i += 1;
    }
    assert(all.take(i as int) =~= all);
    out
}

// ---- lines and replacement ----

/// A line without the carriage return at its end, if it has one.
pub open spec fn without_return(s: Seq<char>) -> Seq<char> {
    if s.len() > 0 && s.last() == '\r' {
        s.drop_last()
    } else {
        s
    }
}

/// The lines of a text. A line feed ends a line, with the carriage return before it, if there
/// is one; what follows the last line feed is a line where it is not empty.
pub open spec fn line_list(s: Seq<char>) -> Seq<Seq<char>>
    decreases s.len(),
{
    let k = first_char(s, '\n') as int;
    if s.len() == 0 {
        Seq::empty()
    } else if k >= s.len() {
        seq![s]
    } else {
        seq![without_return(s.take(k))] + line_list(s.skip(k + 1))
    }
}

/// The lines of a text.
pub fn lines(s: &str) -> (r: Vec<String>)
    ensures
        texts(r@) == line_list(s@),
{
    let cs = to_chars(s);
    let ghost p = all_but('\n');
    let mut out: Vec<String> = Vec::new();
    let mut i: usize = 0;
    assert(s@.skip(0) =~= s@);
    assert(texts(out@) + line_list(s@) =~= line_list(s@));
    while i < cs.len()
        invariant
            cs@ == s@,
            p == all_but('\n'),
            i <= cs@.len(),
            texts(out@) + line_list(s@.skip(i as int)) == line_list(s@),
        decreases cs@.len() - i,
    {
        let ghost rest = s@.skip(i as int);
        let mut j: usize = i;
        while j < cs.len() && cs[j] != '\n'
            invariant
                cs@ == s@,
                i <= j <= cs@.len(),
                forall|k: int| i <= k < j ==> #[trigger] cs@[k] != '\n',
            decreases cs@.len() - j,
        {
            j += 1;
        }
        proof {
            assert forall|k: int| 0 <= k < j - i implies p(#[trigger] rest[k]) by {
                assert(rest[k] == cs@[i + k]);
            }
            lemma_run(rest, p, j - i);
        }
        let ghost before = texts(out@);
        if j == cs.len() {
            let line = from_chars(&cs, i, j);
            out.push(line);
            proof {
                assert(line@ =~= rest);
                assert(texts(out@) =~= before.push(rest));
                assert(before + seq![rest] =~= before.push(rest));
                assert(line_list(s@.skip(j as int)) =~= Seq::<Seq<char>>::empty());
                assert(texts(out@) + line_list(s@.skip(j as int)) =~= texts(out@));
            }
            i = j;
        } else {
            let end: usize = if j > i && cs[j - 1] == '\r' {
                j - 1
            } else {
                j
            };
            let line = from_chars(&cs, i, end);
            out.push(line);
            proof {
                assert(line@ =~= without_return(rest.take(j - i)));
                assert(texts(out@) =~= before.push(line@));
                assert(rest.skip(j - i + 1) =~= s@.skip(j + 1));
                assert(before + (seq![line@] + line_list(s@.skip(j + 1))) =~= before.push(line@)
                    + line_list(s@.skip(j + 1)));
            }
            i = j + 1;
        }
    }
    assert(line_list(s@.skip(i as int)) =~= Seq::<Seq<char>>::empty());
    assert(texts(out@) =~= line_list(s@));
    out
}

/// The text with every occurrence of `needle` replaced, from the left, without overlaps.
pub open spec fn replaced(s: Seq<char>, needle: Seq<char>, by: Seq<char>) -> Seq<char>
    decreases s.len(),
{
    if needle.len() == 0 || s.len() == 0 {
        s
    } else if begins(s, needle) {
        by + replaced(s.skip(needle.len() as int), needle, by)
    } else {
        seq![s[0]] + replaced(s.skip(1), needle, by)
    }
}

/// The text with every occurrence of `needle` replaced, from the left, without overlaps.
pub fn replace(s: &str, needle: &str, by: &str) -> (r: String)
    requires
        needle@.len() > 0,
    ensures
        r@ == replaced(s@, needle@, by@),
{
    let cs = to_chars(s);
    let n = to_chars(needle);
    let mut out = String::new();
    let mut i: usize = 0;
    assert(s@.skip(0) =~= s@);
    assert(out@ + replaced(s@, needle@, by@) =~= replaced(s@, needle@, by@));
    while i < cs.len()
        invariant
            cs@ == s@,
            n@ == needle@,
            needle@.len() > 0,
            i <= cs@.len(),
            out@ + replaced(s@.skip(i as int), needle@, by@) == replaced(s@, needle@, by@),
        decreases cs@.len() - i,
    {
        let ghost rest = s@.skip(i as int);
        let ghost before = out@;
        let hit = found_at(&cs, &n, i);
        proof {
            if i + n@.len() <= cs@.len() {
                assert(rest.subrange(0, n@.len() as int) =~= cs@.subrange(
                    i as int,
                    i + n@.len(),
                ));
            }
            assert(hit == begins(rest, needle@));
        }
        if hit {
            out.append(by);
            i += n.len();
            assert(rest.skip(n@.len() as int) =~= s@.skip(i as int));
            assert(before + (by@ + replaced(s@.skip(i as int), needle@, by@)) =~= out@ + replaced(
                s@.skip(i as int),
                needle@,
                by@,
            ));
        } else {
            out.push(cs[i]);
            i += 1;
            assert(rest.skip(1) =~= s@.skip(i as int));
            assert(before + (seq![rest[0]] + replaced(s@.skip(i as int), needle@, by@)) =~= out@
                + replaced(s@.skip(i as int), needle@, by@));
        }
    }
    assert(replaced(s@.skip(i as int), needle@, by@) =~= Seq::<char>::empty());
    assert(out@ =~= replaced(s@, needle@, by@));
    out
}

/// A text stands in another exactly where that is the text with something before and behind it; it
/// begins the other where nothing stands before, and ends it where nothing stands behind.
pub proof fn law_occurrences(hay: Seq<char>, needle: Seq<char>)
    ensures
        occurs(hay, needle) <==> exists|a: Seq<char>, b: Seq<char>|
            hay == #[trigger] (a + needle + b),
        begins(hay, needle) <==> exists|b: Seq<char>| hay == #[trigger] (needle + b),
        ends(hay, needle) <==> exists|a: Seq<char>| hay == #[trigger] (a + needle),
        forall|b: Seq<char>|
            after_prefix(hay, needle) == Some(b) <==> hay == #[trigger] (needle + b),
{
    let n = needle.len() as int;
    if occurs(hay, needle) {
        let i = choose|i: int| occurs_at(hay, needle, i);
        assert(hay =~= hay.take(i) + hay.subrange(i, i + n) + hay.skip(i + n));
    }
    if exists|a: Seq<char>, b: Seq<char>| hay == #[trigger] (a + needle + b) {
        let (a, b) = choose|a: Seq<char>, b: Seq<char>| hay == #[trigger] (a + needle + b);
        assert(hay.subrange(a.len() as int, a.len() + n) =~= needle);
        assert(occurs_at(hay, needle, a.len() as int));
    }
    if begins(hay, needle) {
        assert(hay =~= hay.subrange(0, n) + hay.skip(n));
    }
    if exists|b: Seq<char>| hay == #[trigger] (needle + b) {
        let b = choose|b: Seq<char>| hay == #[trigger] (needle + b);
        assert(hay.subrange(0, n) =~= needle);
    }
    if ends(hay, needle) {
        let k = hay.len() - n;
        assert(hay =~= hay.take(k) + hay.subrange(k, hay.len() as int));
    }
    if exists|a: Seq<char>| hay == #[trigger] (a + needle) {
        let a = choose|a: Seq<char>| hay == #[trigger] (a + needle);
        assert(hay.subrange(a.len() as int, hay.len() as int) =~= needle);
    }
    assert forall|b: Seq<char>| after_prefix(hay, needle) == Some(b) <==> hay == #[trigger] (needle
        + b) by {
        if hay == needle + b {
            assert(hay.subrange(0, n) =~= needle);
            assert(hay.skip(n) =~= b);
        }
        if begins(hay, needle) {
            assert(hay =~= hay.subrange(0, n) + hay.skip(n));
        }
    }
}

/// A text is cut at every separator: what stands before the first is the first piece, and what
/// stands behind it is cut on.
pub proof fn law_pieces(a: Seq<char>, c: char, b: Seq<char>)
    requires
        forall|i: int| 0 <= i < a.len() ==> #[trigger] a[i] != c,
    ensures
        pieces(a, c) == seq![a],
        pieces(a.push(c) + b, c) == seq![a] + pieces(b, c),
{
    lemma_run(a, all_but(c), a.len() as int);
    let s = a.push(c) + b;
    assert(s.take(a.len() as int) =~= a);
    assert(s.skip(a.len() as int + 1) =~= b);
    lemma_run(s, all_but(c), a.len() as int);
}

/// A line goes up to its line feed, and a carriage return before that does not belong to it. What
/// follows the last line feed is a line where it is not empty.
pub proof fn law_lines(a: Seq<char>, b: Seq<char>)
    requires
        forall|i: int| 0 <= i < a.len() ==> #[trigger] a[i] != '\n',
        a.len() > 0 ==> a.last() != '\r',
    ensures
        line_list(Seq::empty()).len() == 0,
        a.len() > 0 ==> line_list(a) == seq![a],
        line_list(a.push('\n') + b) == seq![a] + line_list(b),
        line_list(a.push('\r').push('\n') + b) == seq![a] + line_list(b),
{
    lemma_run(a, all_but('\n'), a.len() as int);
    let s = a.push('\n') + b;
    assert(s.take(a.len() as int) =~= a);
    assert(s.skip(a.len() as int + 1) =~= b);
    lemma_run(s, all_but('\n'), a.len() as int);
    let r = a.push('\r');
    let t = r.push('\n') + b;
    assert(t.take(r.len() as int) =~= r);
    assert(t.skip(r.len() as int + 1) =~= b);
    assert(r.drop_last() =~= a);
    lemma_run(t, all_but('\n'), r.len() as int);
}

/// White space at the ends of a text goes, and nothing else.
pub proof fn law_trimmed(before: Seq<char>, s: Seq<char>, behind: Seq<char>)
    requires
        forall|i: int|
            0 <= i < before.len() ==> #[trigger] before[i] == ' ' || before[i] == '\t' || before[i]
                == '\n' || before[i] == '\r',
        forall|i: int|
            0 <= i < behind.len() ==> #[trigger] behind[i] == ' ' || behind[i] == '\t' || behind[i]
                == '\n' || behind[i] == '\r',
        s.len() > 0 ==> '!' <= s[0] <= '~' && '!' <= s.last() <= '~',
        s.len() == 0 ==> behind.len() == 0,
    ensures
        trimmed(before + s + behind) == s,
{
    let p = |c: char| is_space(c);
    let whole = before + s + behind;
    let n = before.len() as int;
    assert forall|k: int| 0 <= k < n implies p(#[trigger] whole[k]) by {
        assert(whole[k] == before[k]);
    }
    if s.len() > 0 {
        assert(whole[n] == s[0]);
    }
    lemma_run(whole, p, n);
    let t = whole.skip(n);
    assert(t =~= s + behind);
    lemma_run_back_of(s, behind, p);
    assert(t.take(s.len() as int) =~= s);
}

/// The characters behind a text that satisfy a test, where its last one does not.
proof fn lemma_run_back_of(s: Seq<char>, behind: Seq<char>, p: spec_fn(char) -> bool)
    requires
        s.len() > 0 ==> !p(s.last()),
        forall|i: int| 0 <= i < behind.len() ==> p(#[trigger] behind[i]),
    ensures
        run_back(s + behind, p) == behind.len(),
    decreases behind.len(),
{
    let t = s + behind;
    if behind.len() > 0 {
        assert(t.last() == behind.last());
        assert(t.drop_last() =~= s + behind.drop_last());
        lemma_run_back_of(s, behind.drop_last(), p);
    } else {
        assert(t =~= s);
    }
}

/// A word goes up to the next white space, and white space before a word does not count.
pub proof fn law_words(word: Seq<char>, s: Seq<char>)
    requires
        word.len() > 0,
        forall|i: int| 0 <= i < word.len() ==> '!' <= #[trigger] word[i] <= '~',
    ensures
        words(word) == seq![word],
        words(word.push(' ') + s) == seq![word] + words(s),
        words(seq![' '] + s) == words(s),
        words(Seq::empty()).len() == 0,
{
    let p = |c: char| !is_space(c);
    let n = word.len() as int;
    lemma_run(word, p, n);
    assert(word.take(n) =~= word);
    assert(word.skip(n) =~= Seq::empty());
    assert(words(Seq::empty()) =~= Seq::empty());
    assert(seq![word] + words(word.skip(n)) =~= seq![word]);
    let t = word.push(' ') + s;
    assert forall|k: int| 0 <= k < n implies p(#[trigger] t[k]) by {
        assert(t[k] == word[k]);
    }
    assert(t[n] == ' ');
    lemma_run(t, p, n);
    assert(t.take(n) =~= word);
    let rest = seq![' '] + s;
    assert(t.skip(n) =~= rest);
    assert(rest[0] == ' ');
    assert(run(rest, p) == 0);
    assert(rest.skip(1) =~= s);
    assert(words(rest) == words(s));
    assert(t.len() > 0 && run(t, p) == n);
    assert(words(t) == seq![t.take(n)] + words(t.skip(n)));
}

/// Joined texts stand in their order, with the separator between each and the next.
pub proof fn law_joined(list: Seq<Seq<char>>, item: Seq<char>, sep: Seq<char>)
    ensures
        joined(Seq::empty(), sep).len() == 0,
        joined(seq![item], sep) == item,
        list.len() > 0 ==> joined(list.push(item), sep) == joined(list, sep) + sep + item,
{
    assert(list.push(item).drop_last() =~= list);
}

/// Where a text does not occur, nothing is replaced.
pub proof fn law_nothing_replaced(a: Seq<char>, needle: Seq<char>, by: Seq<char>)
    requires
        !occurs(a, needle),
    ensures
        replaced(a, needle, by) == a,
    decreases a.len(),
{
    let n = needle.len() as int;
    if a.len() > 0 && n > 0 {
        let t = a.skip(1);
        assert(!occurs_at(a, needle, 0));
        assert forall|i: int| !#[trigger] occurs_at(t, needle, i) by {
            if occurs_at(t, needle, i) {
                assert(a.subrange(i + 1, i + 1 + n) =~= t.subrange(i, i + n));
                assert(occurs_at(a, needle, i + 1));
            }
        }
        law_nothing_replaced(t, needle, by);
        assert(seq![a[0]] + t =~= a);
    }
}

/// The first occurrence of a text is replaced, and so on behind it.
pub proof fn law_first_replaced(a: Seq<char>, needle: Seq<char>, b: Seq<char>, by: Seq<char>)
    requires
        needle.len() > 0,
        forall|i: int| 0 <= i < a.len() ==> !#[trigger] occurs_at(a + needle + b, needle, i),
    ensures
        replaced(a + needle + b, needle, by) == a + by + replaced(b, needle, by),
    decreases a.len(),
{
    let s = a + needle + b;
    let n = needle.len() as int;
    let rest = replaced(b, needle, by);
    if a.len() > 0 {
        let t = a.skip(1);
        let u = t + needle + b;
        assert(s.skip(1) =~= u);
        assert(!occurs_at(s, needle, 0));
        assert forall|i: int| 0 <= i < t.len() implies !#[trigger] occurs_at(u, needle, i) by {
            if occurs_at(u, needle, i) {
                assert(s.subrange(i + 1, i + 1 + n) =~= u.subrange(i, i + n));
                assert(occurs_at(s, needle, i + 1));
            }
        }
        law_first_replaced(t, needle, b, by);
        assert(s[0] == a[0]);
        assert(replaced(s, needle, by) == seq![s[0]] + replaced(u, needle, by));
        assert(seq![a[0]] + (t + by + rest) =~= a + by + rest);
    } else {
        assert(s =~= needle + b);
        assert(s.subrange(0, n) =~= needle);
        assert(s.skip(n) =~= b);
        assert(replaced(s, needle, by) == by + rest);
        assert(a + by + rest =~= by + rest);
    }
}

/// A number is written by its digits, the last one last, and a negative one behind a dash.
pub proof fn law_decimal_notation(n: nat, d: int)
    requires
        0 <= d < 10,
    ensures
        dec(d) == seq!["0123456789"@[d]],
        n > 0 ==> dec((n * 10 + d) as int) == dec(n as int).push("0123456789"@[d]),
        n > 0 ==> dec(-(n as int)) == seq!['-'] + dec(n as int),
{
    reveal_strlit("0123456789");
    let m = (n * 10 + d) as nat;
    assert(m / 10 == n && m % 10 == d as nat);
    assert("0123456789"@[d] == digit(d)) by {
        assert("0123456789"@[0] == '0' && "0123456789"@[1] == '1' && "0123456789"@[2] == '2'
            && "0123456789"@[3] == '3' && "0123456789"@[4] == '4' && "0123456789"@[5] == '5'
            && "0123456789"@[6] == '6' && "0123456789"@[7] == '7' && "0123456789"@[8] == '8'
            && "0123456789"@[9] == '9');
    }
}

/// A text is a number only where it has a digit and, behind one sign at most, nothing but digits.
/// A plus before a number does not change it.
pub proof fn law_texts_that_are_no_numbers(s: Seq<char>, i: int, n: i64)
    ensures
        parsed_i64(Seq::empty()) is None,
        parsed_i64(seq!['-']) is None,
        parsed_i64(seq!['+']) is None,
        0 < i < s.len() && !('0' <= s[i] <= '9') ==> parsed_i64(s) is None,
        s.len() > 0 && !('0' <= s[0] <= '9') && s[0] != '-' && s[0] != '+' ==> parsed_i64(s)
            is None,
        n >= 0 ==> parsed_i64(seq!['+'] + dec(n as int)) == Some(n),
{
    assert(seq!['-'].skip(1).len() == 0);
    assert(seq!['+'].skip(1).len() == 0);
    let d = unsigned_part(s);
    if 0 < i < s.len() && !is_digit(s[i]) {
        if s[0] == '-' || s[0] == '+' {
            assert(d[i - 1] == s[i]);
        } else {
            assert(d[i] == s[i]);
        }
    }
    if s.len() > 0 && !is_digit(s[0]) && s[0] != '-' && s[0] != '+' {
        assert(d[0] == s[0]);
    }
    if n >= 0 {
        law_decimal_round_trip(n);
        let w = dec(n as int);
        let t = seq!['+'] + w;
        assert(t[0] == '+');
        assert(t.skip(1) =~= w);
        lemma_starts_with_digit(n as nat);
        assert(unsigned_part(w) == w);
    }
}

/// The notation of a number that is not negative begins with a digit.
proof fn lemma_starts_with_digit(n: nat)
    ensures
        dec_nat(n).len() > 0,
        is_digit(dec_nat(n)[0]),
    decreases n,
{
    if n >= 10 {
        lemma_starts_with_digit(n / 10);
    }
}

} // verus!
