//! Character-level building blocks: decimal rendering and parsing of `u64`,
//! Unicode white space and trimming.

use vstd::prelude::*;

verus! {

/// The code of the character `'0'`.
pub open spec fn zero_code() -> int {
    48
}

/// An ASCII decimal digit, the only digits that `u64::from_str` accepts.
pub open spec fn is_digit(c: char) -> bool {
    48 <= (c as u32) && (c as u32) <= 57
}

/// The value of a decimal digit character.
pub open spec fn digit_value(c: char) -> int {
    (c as u32) - zero_code()
}

/// Every character of `s` is a decimal digit.
pub open spec fn all_digits(s: Seq<char>) -> bool {
    forall|i: int| 0 <= i < s.len() ==> is_digit(#[trigger] s[i])
}

/// The number that the digits `s` denote, most significant first.
pub open spec fn decimal_value(s: Seq<char>) -> int
    decreases s.len(),
{
    if s.len() == 0 {
        0
    } else {
        decimal_value(s.drop_last()) * 10 + digit_value(s.last())
    }
}

/// The character of a digit `d < 10`.
pub open spec fn digit_char(d: nat) -> char {
    ((d + 48) as u8) as char
}

/// The shortest decimal form of `n`, as `u64`'s `Display` writes it.
pub open spec fn decimal_digits(n: nat) -> Seq<char>
    decreases n,
{
    if n < 10 {
        seq![digit_char(n)]
    } else {
        decimal_digits(n / 10).push(digit_char(n % 10))
    }
}

/// The digits that `u64::from_str` reads from `s`: one leading `+` is dropped.
pub open spec fn unsigned_digits(s: Seq<char>) -> Seq<char> {
    if s.len() > 0 && s[0] == '+' {
        s.drop_first()
    } else {
        s
    }
}

/// What `s.parse::<u64>()` gives: an optional `+`, then one or more ASCII
/// digits whose value fits in a `u64`; anything else is refused.
pub open spec fn parse_u64(s: Seq<char>) -> Option<u64> {
    let d = unsigned_digits(s);
    if d.len() > 0 && all_digits(d) && decimal_value(d) <= u64::MAX {
        Some(decimal_value(d) as u64)
    } else {
        None
    }
}

/// Unicode `White_Space`: the characters that `char::is_whitespace` accepts
/// and that `str::trim` removes.
pub open spec fn is_white_space(c: char) -> bool {
    let u = c as u32;
    ||| 0x9 <= u <= 0xD
    ||| u == 0x20
    ||| u == 0x85
    ||| u == 0xA0
    ||| u == 0x1680
    ||| 0x2000 <= u <= 0x200A
    ||| u == 0x2028
    ||| u == 0x2029
    ||| u == 0x202F
    ||| u == 0x205F
    ||| u == 0x3000
}

/// Every character of `s` is white space.
pub open spec fn all_white_space(s: Seq<char>) -> bool {
    forall|i: int| 0 <= i < s.len() ==> is_white_space(#[trigger] s[i])
}

/// `s` without its leading white space.
pub open spec fn trim_start(s: Seq<char>) -> Seq<char>
    decreases s.len(),
{
    if s.len() > 0 && is_white_space(s[0]) {
        trim_start(s.drop_first())
    } else {
        s
    }
}

/// `s` without its trailing white space.
pub open spec fn trim_end(s: Seq<char>) -> Seq<char>
    decreases s.len(),
{
    if s.len() > 0 && is_white_space(s.last()) {
        trim_end(s.drop_last())
    } else {
        s
    }
}

/// What `str::trim` gives: `s` without leading and trailing white space.
pub open spec fn trim(s: Seq<char>) -> Seq<char> {
    trim_end(trim_start(s))
}

proof fn lemma_digit_char(d: nat)
    requires
        d < 10,
    ensures
        is_digit(digit_char(d)),
        digit_value(digit_char(d)) == d,
        !is_white_space(digit_char(d)),
        digit_char(d) != '+',
        digit_char(d) != ':',
        digit_char(d) != '-',
{
}

/// The decimal form of `n` is a non-empty run of digits that denotes `n`.
pub proof fn lemma_decimal_digits(n: nat)
    ensures
        decimal_digits(n).len() > 0,
        all_digits(decimal_digits(n)),
        decimal_value(decimal_digits(n)) == n,
    decreases n,
{
    if n < 10 {
        lemma_digit_char(n);
        assert(decimal_digits(n).drop_last() =~= Seq::<char>::empty());
        assert(decimal_value(decimal_digits(n).drop_last()) == 0);
    } else {
        lemma_decimal_digits(n / 10);
        lemma_digit_char(n % 10);
        let s = decimal_digits(n);
        assert(s.drop_last() =~= decimal_digits(n / 10));
        assert(s.last() == digit_char(n % 10));
        assert(n == (n / 10) * 10 + n % 10);
        assert forall|i: int| 0 <= i < s.len() implies is_digit(#[trigger] s[i]) by {
            if i < s.len() - 1 {
                assert(s[i] == decimal_digits(n / 10)[i]);
            }
        }
    }
}

/// Leading white space is removed, and removal stops at the first other character.
proof fn lemma_trim_start_prefix(w: Seq<char>, t: Seq<char>)
    requires
        all_white_space(w),
        t.len() == 0 || !is_white_space(t[0]),
    ensures
        trim_start(w + t) == t,
    decreases w.len(),
{
    if w.len() == 0 {
        assert(w + t =~= t);
    } else {
        assert((w + t).drop_first() =~= w.drop_first() + t);
        assert((w + t)[0] == w[0]);
        lemma_trim_start_prefix(w.drop_first(), t);
    }
}

/// Trailing white space is removed, and removal stops at the last other character.
proof fn lemma_trim_end_suffix(t: Seq<char>, w: Seq<char>)
    requires
        all_white_space(w),
        t.len() == 0 || !is_white_space(t.last()),
    ensures
        trim_end(t + w) == t,
    decreases w.len(),
{
    if w.len() == 0 {
        assert(t + w =~= t);
    } else {
        assert((t + w).drop_last() =~= t + w.drop_last());
        assert((t + w).last() == w.last());
        lemma_trim_end_suffix(t, w.drop_last());
    }
}

/// Trimming removes exactly the white space around a text that neither starts
/// nor ends with white space.
pub proof fn lemma_trim_surrounded(w1: Seq<char>, d: Seq<char>, w2: Seq<char>)
    requires
        all_white_space(w1),
        all_white_space(w2),
        d.len() > 0,
        !is_white_space(d[0]),
        !is_white_space(d.last()),
    ensures
        trim(w1 + d + w2) == d,
{
    assert(w1 + d + w2 =~= w1 + (d + w2));
    assert((d + w2)[0] == d[0]);
    lemma_trim_start_prefix(w1, d + w2);
    lemma_trim_end_suffix(d, w2);
}

/// The decimal form of `n` reads back as `n`, with or without white space around it.
pub proof fn lemma_parse_decimal_digits(n: u64, w1: Seq<char>, w2: Seq<char>)
    requires
        all_white_space(w1),
        all_white_space(w2),
    ensures
        parse_u64(trim(w1 + decimal_digits(n as nat) + w2)) == Some(n),
{
    let d = decimal_digits(n as nat);
    lemma_decimal_digits(n as nat);
    assert(is_digit(d[0]) && is_digit(d.last()));
    lemma_trim_surrounded(w1, d, w2);
    assert(unsigned_digits(d) == d);
}

/// The decimal form of `n` is the shortest one: it starts with `0` only when
/// it is the single digit of zero.
pub proof fn lemma_decimal_digits_shortest(n: nat)
    ensures
        n == 0 ==> decimal_digits(n) == seq!['0'],
        n > 0 ==> decimal_digits(n)[0] != '0',
        decimal_digits(n)[0] == '0' ==> decimal_digits(n).len() == 1,
    decreases n,
{
    lemma_decimal_digits(n);
    if n < 10 {
        lemma_digit_char(n);
        assert(decimal_digits(n) =~= seq![digit_char(n)]);
        assert(digit_value(decimal_digits(n)[0]) == n);
    } else {
        lemma_decimal_digits_shortest(n / 10);
        lemma_decimal_digits(n / 10);
        assert(decimal_digits(n)[0] == decimal_digits(n / 10)[0]);
        assert(decimal_digits(n).len() > 1);
        assert(n / 10 > 0);
    }
}

/// Any run of ASCII digits whose value fits in a `u64` reads as that value,
/// with or without one leading `+`, and with or without white space around it.
pub proof fn lemma_parse_digits(d: Seq<char>, w1: Seq<char>, w2: Seq<char>)
    requires
        d.len() > 0,
        all_digits(d),
        decimal_value(d) <= u64::MAX,
        all_white_space(w1),
        all_white_space(w2),
    ensures
        parse_u64(d) == Some(decimal_value(d) as u64),
        parse_u64(trim(w1 + d + w2)) == Some(decimal_value(d) as u64),
        parse_u64(trim(w1 + seq!['+'] + d + w2)) == Some(decimal_value(d) as u64),
{
    assert(is_digit(d[0]) && is_digit(d.last()));
    assert(d[0] != '+');
    assert(unsigned_digits(d) == d);
    lemma_trim_surrounded(w1, d, w2);
    let p = seq!['+'] + d;
    assert(p[0] == '+');
    assert(p.last() == d.last());
    assert(w1 + seq!['+'] + d + w2 =~= w1 + p + w2);
    lemma_trim_surrounded(w1, p, w2);
    assert(unsigned_digits(p) =~= d);
}

/// `char::is_whitespace`.
pub fn is_white_space_char(c: char) -> (r: bool)
    ensures
        r == is_white_space(c),
{
    let u = c as u32;
    (0x9 <= u && u <= 0xD) || u == 0x20 || u == 0x85 || u == 0xA0 || u == 0x1680 || (0x2000 <= u
        && u <= 0x200A) || u == 0x2028 || u == 0x2029 || u == 0x202F || u == 0x205F || u == 0x3000
}

/// The characters of `s`, in order.
pub fn chars_of(s: &str) -> (r: Vec<char>)
    ensures
        r@ == s@,
{
    let mut v: Vec<char> = Vec::new();
    for c in it: s.chars()
        invariant
            v@ == it.seq().take(it.index() as int),
    {
        v.push(c);
    }
    v
}

/// The bounds of `str::trim` applied to `chars[from..to]`.
pub fn trimmed_range(chars: &Vec<char>, from: usize, to: usize) -> (r: (usize, usize))
    requires
        from <= to <= chars@.len(),
    ensures
        from <= r.0 <= r.1 <= to,
        chars@.subrange(r.0 as int, r.1 as int) == trim(chars@.subrange(from as int, to as int)),
{
    let ghost whole = chars@.subrange(from as int, to as int);
    let mut lo = from;
    while lo < to && is_white_space_char(chars[lo])
        invariant
            from <= lo <= to <= chars@.len(),
            trim_start(whole) == trim_start(chars@.subrange(lo as int, to as int)),
        decreases to - lo,
    {
        assert(chars@.subrange(lo as int, to as int).drop_first() =~= chars@.subrange(
            lo + 1,
            to as int,
        ));
        lo = lo + 1;
    }
    assert(trim_start(chars@.subrange(lo as int, to as int)) == chars@.subrange(lo as int, to as int));
    let mut hi = to;
    while hi > lo && is_white_space_char(chars[hi - 1])
        invariant
            from <= lo <= hi <= to <= chars@.len(),
            trim(whole) == trim_end(chars@.subrange(lo as int, hi as int)),
        decreases hi - lo,
    {
        assert(chars@.subrange(lo as int, hi as int).drop_last() =~= chars@.subrange(
            lo as int,
            hi - 1,
        ));
        hi = hi - 1;
    }
    (lo, hi)
}

/// More digits never make the value smaller.
proof fn lemma_decimal_value_prefix(s: Seq<char>, k: int)
    requires
        all_digits(s),
        0 <= k <= s.len(),
    ensures
        decimal_value(s.take(k)) <= decimal_value(s),
        0 <= decimal_value(s.take(k)),
    decreases s.len(),
{
    if k < s.len() {
        assert(s.drop_last().take(k) =~= s.take(k));
        assert(is_digit(s[s.len() - 1]));
        lemma_decimal_value_prefix(s.drop_last(), k);
    } else {
        assert(s.take(k) =~= s);
        if s.len() > 0 {
            assert(is_digit(s[s.len() - 1]));
            lemma_decimal_value_prefix(s.drop_last(), k - 1);
            assert(s.drop_last().take(k - 1) =~= s.drop_last());
        }
    }
}

/// `chars[from..to].parse::<u64>()`, as an `Option`.
pub fn parse_u64_range(chars: &Vec<char>, from: usize, to: usize) -> (r: Option<u64>)
    requires
        from <= to <= chars@.len(),
    ensures
        r == parse_u64(chars@.subrange(from as int, to as int)),
{
    let ghost s = chars@.subrange(from as int, to as int);
    let start = if from < to && chars[from] == '+' {
        from + 1
    } else {
        from
    };
    let ghost d = chars@.subrange(start as int, to as int);
    assert(unsigned_digits(s) =~= d);
    if start == to {
        return None;
    }
    let mut v: u64 = 0;
    let mut i = start;
    while i < to
        invariant
            start <= i <= to <= chars@.len(),
            d == chars@.subrange(start as int, to as int),
            s == chars@.subrange(from as int, to as int),
            unsigned_digits(s) == d,
            d.len() > 0,
            all_digits(d.take(i - start)),
            decimal_value(d.take(i - start)) == v,
        decreases to - i,
    {
        let c = chars[i];
        let code = c as u32;
        if !(48 <= code && code <= 57) {
            assert(!is_digit(d[i - start]));
            return None;
        }
        let digit = (code - 48) as u64;
        assert(d.take(i + 1 - start).drop_last() =~= d.take(i - start));
        assert(d.take(i + 1 - start).last() == c);
        if v > (u64::MAX - digit) / 10 {
            proof {
                if all_digits(d) {
                    lemma_decimal_value_prefix(d, i + 1 - start);
                }
            }
            return None;
        }
        v = v * 10 + digit;
        i = i + 1;
    }
    assert(d.take(to - start) =~= d);
    Some(v)
}

/// The character of the digit `d`.
fn digit_to_char(d: u64) -> (c: char)
    requires
        d < 10,
    ensures
        c == digit_char(d as nat),
{
    ((d as u8) + 48u8) as char
}

/// Appends the decimal form of `n` to `out`, as `u64`'s `Display` writes it.
pub fn push_decimal(out: &mut String, n: u64)
    ensures
        final(out)@ == old(out)@ + decimal_digits(n as nat),
    decreases n,
{
    if n >= 10 {
        push_decimal(out, n / 10);
    }
    out.push(digit_to_char(n % 10));
    assert(n < 10 ==> n % 10 == n);
}

/// `String::push` appends one character.
pub assume_specification[ String::push ](string: &mut String, ch: char)
    ensures
        final(string)@ == old(string)@.push(ch),
;

} // verus!
