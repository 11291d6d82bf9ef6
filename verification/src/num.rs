//! Decimal and hexadecimal text for unsigned integers.
use vstd::prelude::*;
use vstd::arithmetic::div_mod::{lemma_breakdown, lemma_div_denominator};

verus! {

pub open spec fn is_digit(c: char) -> bool {
    '0' <= c && c <= '9'
}

pub open spec fn digit_value(c: char) -> nat {
    (c as int - '0' as int) as nat
}

pub open spec fn all_digits(s: Seq<char>) -> bool {
    forall|i: int| 0 <= i < s.len() ==> is_digit(#[trigger] s[i])
}

/// The number written by the decimal digits `s`.
pub open spec fn digits_value(s: Seq<char>) -> nat
    decreases s.len(),
{
    if s.len() == 0 {
        0
    } else {
        digits_value(s.drop_last()) * 10 + digit_value(s.last())
    }
}

/// What `str::parse::<uN>` returns for `s` when `max` is the largest `uN`:
/// an optional `+`, then one or more decimal digits whose value is at most `max`.
pub open spec fn parse_unsigned(s: Seq<char>, max: nat) -> Option<nat> {
    let d = if s.len() > 0 && s[0] == '+' { s.drop_first() } else { s };
    if d.len() > 0 && all_digits(d) && digits_value(d) <= max {
        Some(digits_value(d))
    } else {
        None
    }
}

/// Parses `s` as `str::parse::<uN>` does, `max` being the largest `uN`.
pub fn parse_decimal(s: &[char], max: u64) -> (r: Option<u64>)
    ensures
        match r {
            Some(v) => parse_unsigned(s@, max as nat) == Some(v as nat),
            None => parse_unsigned(s@, max as nat) is None,
        },
{
    let start: usize = if s.len() > 0 && s[0] == '+' { 1 } else { 0 };
    let ghost d = if s@.len() > 0 && s@[0] == '+' { s@.drop_first() } else { s@ };
    assert(d == s@.skip(start as int));
    if start >= s.len() {
        return None;
    }
    let mut value: u64 = 0;
    let mut i = start;
    while i < s.len()
        invariant
            start <= i <= s@.len(),
            d == s@.skip(start as int),
            d == (if s@.len() > 0 && s@[0] == '+' { s@.drop_first() } else { s@ }),
            all_digits(s@.subrange(start as int, i as int)),
            value as nat == digits_value(s@.subrange(start as int, i as int)),
            value <= max,
        decreases s@.len() - i,
    {
        let c = s[i];
        let ghost pre = s@.subrange(start as int, i as int);
        let ghost next = s@.subrange(start as int, i as int + 1);
        assert(next.drop_last() == pre);
        assert(next.last() == c);
        assert(d[i - start] == c);
        assert(d.take(i - start + 1) == next);
        if !('0' <= c && c <= '9') {
            assert(!is_digit(d[i - start]));
            assert(!all_digits(d));
            assert(parse_unsigned(s@, max as nat) is None);
            return None;
        }
        let digit = (c as u32 - '0' as u32) as u64;
        assert(digit as nat == digit_value(c));
        if digit > max || value > (max - digit) / 10 {
            proof {
                assert(digits_value(next) == value * 10 + digit);
                assert(value * 10 + digit > max) by (nonlinear_arith)
                    requires digit > max || value > (max - digit) / 10, digit <= 9;
                lemma_digits_prefix_monotone(d, (i - start) as nat);
                assert(digits_value(d) > max);
                assert(parse_unsigned(s@, max as nat) is None);
            }
            return None;
        }
        assert(value * 10 + digit <= max) by (nonlinear_arith)
            requires value <= (max - digit) / 10, digit <= max;
        value = value * 10 + digit;
        assert(all_digits(next)) by {
            assert forall|j: int| 0 <= j < next.len() implies is_digit(#[trigger] next[j]) by {
                if j < pre.len() {
                    assert(next[j] == pre[j]);
                }
            }
        }
        i = i + 1;
    }
    assert(s@.subrange(start as int, s@.len() as int) == d);
    Some(value)
}

/// A digit string's value is at least the value of any of its prefixes.
proof fn lemma_digits_prefix_monotone(d: Seq<char>, k: nat)
    requires
        k < d.len(),
    ensures
        digits_value(d.take(k as int + 1)) <= digits_value(d),
    decreases d.len(),
{
    if k + 1 < d.len() {
        lemma_digits_prefix_monotone(d.drop_last(), k);
        assert(d.drop_last().take(k as int + 1) == d.take(k as int + 1));
    } else {
        assert(d.take(k as int + 1) == d);
    }
}

pub open spec fn digit_char(v: nat) -> char
    recommends
        v < 10,
{
    (v + '0' as nat) as char
}

/// The decimal text of `n`, as `to_string` writes it.
pub open spec fn decimal(n: nat) -> Seq<char>
    decreases n,
{
    if n < 10 {
        seq![digit_char(n)]
    } else {
        decimal(n / 10).push(digit_char(n % 10))
    }
}

pub proof fn lemma_decimal(n: nat)
    ensures
        decimal(n).len() > 0,
        all_digits(decimal(n)),
        digits_value(decimal(n)) == n,
        decimal(n)[0] != '+',
        n > 0 ==> decimal(n)[0] != '0',
    decreases n,
{
    if n >= 10 {
        lemma_decimal(n / 10);
        let s = decimal(n);
        assert(s.drop_last() == decimal(n / 10));
        assert(s[0] == decimal(n / 10)[0]);
        assert(digit_value(digit_char(n % 10)) == n % 10);
        assert(s.last() == digit_char(n % 10));
        assert(is_digit(s.last()));
        assert(digits_value(s) == digits_value(decimal(n / 10)) * 10 + digit_value(s.last()));
        assert((n / 10) * 10 + n % 10 == n) by (nonlinear_arith);
    } else {
        assert(digit_value(digit_char(n)) == n);
        assert(decimal(n).drop_last() =~= Seq::<char>::empty());
        assert(digits_value(decimal(n)) == digits_value(Seq::<char>::empty()) * 10 + digit_value(decimal(n).last()));
    }
}

pub proof fn lemma_parse_decimal(n: nat, max: nat)
    requires
        n <= max,
    ensures
        parse_unsigned(decimal(n), max) == Some(n),
{
    lemma_decimal(n);
}

/// The decimal text of `n`.
pub fn u64_decimal(n: u64) -> (out: Vec<char>)
    ensures
        out@ == decimal(n as nat),
    decreases n,
{
    if n < 10 {
        let c = char_from_digit(n);
        let mut v = Vec::new();
        v.push(c);
        v
    } else {
        let mut v = u64_decimal(n / 10);
        v.push(char_from_digit(n % 10));
        v
    }
}

fn char_from_digit(d: u64) -> (c: char)
    requires
        d < 16,
    ensures
        c == hex_char(d as nat),
        d < 10 ==> c == digit_char(d as nat),
{
    let table: [char; 16] = ['0', '1', '2', '3', '4', '5', '6', '7', '8', '9', 'a', 'b', 'c', 'd', 'e', 'f'];
    let c = table[d as usize];
    proof {
        assert(c == table@[d as int]);
    }
    c
}

/// Lower-case hexadecimal digit for `v < 16`.
pub open spec fn hex_char(v: nat) -> char {
    if v < 10 {
        (v + '0' as nat) as char
    } else {
        (v - 10 + 'a' as nat) as char
    }
}

pub open spec fn is_hex_digit(c: char) -> bool {
    ('0' <= c && c <= '9') || ('a' <= c && c <= 'f') || ('A' <= c && c <= 'F')
}

pub open spec fn all_hex(s: Seq<char>) -> bool {
    forall|i: int| 0 <= i < s.len() ==> is_hex_digit(#[trigger] s[i])
}

pub open spec fn hex_digit_value(c: char) -> nat {
    if '0' <= c && c <= '9' {
        (c as int - '0' as int) as nat
    } else if 'a' <= c && c <= 'f' {
        (c as int - 'a' as int + 10) as nat
    } else {
        (c as int - 'A' as int + 10) as nat
    }
}

/// The number written by the hexadecimal digits `s`.
pub open spec fn hex_value(s: Seq<char>) -> nat
    decreases s.len(),
{
    if s.len() == 0 {
        0
    } else {
        hex_value(s.drop_last()) * 16 + hex_digit_value(s.last())
    }
}

/// `n` as `width` lower-case hexadecimal digits (`{:0width$x}` for `n < 16^width`).
pub open spec fn hex_fixed(n: nat, width: nat) -> Seq<char>
    decreases width,
{
    if width == 0 {
        seq![]
    } else {
        hex_fixed(n / 16, (width - 1) as nat).push(hex_char(n % 16))
    }
}

pub open spec fn pow16(w: nat) -> nat
    decreases w,
{
    if w == 0 {
        1
    } else {
        16 * pow16((w - 1) as nat)
    }
}

pub proof fn lemma_hex_fixed(n: nat, width: nat)
    ensures
        hex_fixed(n, width).len() == width,
        all_hex(hex_fixed(n, width)),
        hex_value(hex_fixed(n, width)) == n % pow16(width),
        forall|i: int| 0 <= i < width ==> #[trigger] hex_fixed(n, width)[i] != '\n'
            && hex_fixed(n, width)[i] != 'i' && ('0' <= hex_fixed(n, width)[i] <= '9' || 'a' <= hex_fixed(n, width)[i] <= 'f'),
    decreases width,
{
    if width > 0 {
        let w1 = (width - 1) as nat;
        lemma_hex_fixed(n / 16, w1);
        let s = hex_fixed(n, width);
        assert(s.drop_last() == hex_fixed(n / 16, w1));
        assert(pow16(width) == 16 * pow16(w1));
        assert(pow16(w1) > 0) by {
            lemma_pow16_pos(w1);
        }
        lemma_breakdown(n as int, 16, pow16(w1) as int);
        assert(hex_digit_value(hex_char(n % 16)) == n % 16);
    }
}

proof fn lemma_pow16_pos(w: nat)
    ensures
        pow16(w) > 0,
    decreases w,
{
    if w > 0 {
        lemma_pow16_pos((w - 1) as nat);
    }
}

pub proof fn lemma_hex16_value(n: u64)
    ensures
        hex_value(hex_fixed(n as nat, 16)) == n,
        hex_fixed(n as nat, 16).len() == 16,
        all_hex(hex_fixed(n as nat, 16)),
{
    lemma_hex_fixed(n as nat, 16);
    lemma_pow16_16();
}

/// `n` as sixteen lower-case hexadecimal digits (`{:016x}`).
pub fn hex16(n: u64) -> (out: Vec<char>)
    ensures
        out@ == hex_fixed(n as nat, 16),
{
    let mut digits: Vec<char> = Vec::new();
    let mut i: usize = 0;
    let mut rest: u64 = n;
    let mut rev: Vec<char> = Vec::new();
    assert(pow16(0) == 1);
    while i < 16
        invariant
            i <= 16,
            rest as nat == n as nat / pow16(i as nat),
            rev@.len() == i,
            forall|j: int| 0 <= j < i ==> #[trigger] rev@[j] == hex_char((n as nat / pow16(j as nat)) % 16),
        decreases 16 - i,
    {
        let c = char_from_digit(rest % 16);
        rev.push(c);
        proof {
            lemma_pow16_pos(i as nat);
            assert(pow16(i as nat + 1) == 16 * pow16(i as nat));
            lemma_div_denominator(n as int, pow16(i as nat) as int, 16);
            assert(pow16(i as nat) * 16 == 16 * pow16(i as nat));
        }
        rest = rest / 16;
        i = i + 1;
    }
    let mut k: usize = 16;
    while k > 0
        invariant
            k <= 16,
            rev@.len() == 16,
            forall|j: int| 0 <= j < 16 ==> #[trigger] rev@[j] == hex_char((n as nat / pow16(j as nat)) % 16),
            digits@ == hex_fixed(n as nat / pow16(k as nat), (16 - k) as nat),
        decreases k,
    {
        proof {
            let m = n as nat / pow16(k as nat);
            let m1 = n as nat / pow16((k - 1) as nat);
            lemma_pow16_pos((k - 1) as nat);
            assert(pow16(k as nat) == 16 * pow16((k - 1) as nat));
            lemma_div_denominator(n as int, pow16((k - 1) as nat) as int, 16);
            assert(pow16((k - 1) as nat) * 16 == 16 * pow16((k - 1) as nat));
            assert(hex_fixed(m1, (17 - k) as nat) == hex_fixed(m1 / 16, (16 - k) as nat).push(hex_char(m1 % 16)));
        }
        digits.push(rev[k - 1]);
        k = k - 1;
    }
    proof {
        assert(n as nat / pow16(0) == n as nat);
    }
    digits
}

/// Value of a hexadecimal digit character.
pub fn hex_digit(c: char) -> (r: Option<u8>)
    ensures
        match r {
            Some(v) => is_hex_digit(c) && v as nat == hex_digit_value(c),
            None => !is_hex_digit(c),
        },
{
    if '0' <= c && c <= '9' {
        Some((c as u32 - '0' as u32) as u8)
    } else if 'a' <= c && c <= 'f' {
        Some((c as u32 - 'a' as u32 + 10) as u8)
    } else if 'A' <= c && c <= 'F' {
        Some((c as u32 - 'A' as u32 + 10) as u8)
    } else {
        None
    }
}

/// True when every character of `s` is a hexadecimal digit.
pub fn check_all_hex(s: &[char]) -> (r: bool)
    ensures
        r == all_hex(s@),
{
    let mut i: usize = 0;
    while i < s.len()
        invariant
            i <= s@.len(),
            forall|j: int| 0 <= j < i ==> is_hex_digit(#[trigger] s@[j]),
        decreases s@.len() - i,
    {
        if hex_digit(s[i]).is_none() {
            return false;
        }
        i = i + 1;
    }
    true
}

/// The value of sixteen hexadecimal digits.
pub fn parse_hex16(s: &[char]) -> (r: u64)
    requires
        s@.len() == 16,
        all_hex(s@),
    ensures
        r as nat == hex_value(s@),
{
    let mut value: u64 = 0;
    let mut i: usize = 0;
    while i < 16
        invariant
            s@.len() == 16,
            all_hex(s@),
            i <= 16,
            value as nat == hex_value(s@.take(i as int)),
            (value as nat) < pow16(i as nat),
        decreases 16 - i,
    {
        let d = match hex_digit(s[i]) {
            Some(d) => d,
            None => {
                assert(is_hex_digit(s@[i as int]));
                0
            },
        };
        proof {
            assert(s@.take(i as int + 1).drop_last() == s@.take(i as int));
            assert(pow16(i as nat + 1) == 16 * pow16(i as nat));
            lemma_pow16_16();
            lemma_pow16_mono(i as nat + 1, 16);
            assert(value * 16 + d < 16 * pow16(i as nat)) by (nonlinear_arith)
                requires value < pow16(i as nat), d < 16;
        }
        value = value * 16 + d as u64;
        i = i + 1;
    }
    assert(s@.take(16) == s@);
    value
}

proof fn lemma_pow16_16()
    ensures
        pow16(16) == 0x1_0000_0000_0000_0000,
{
    reveal_with_fuel(pow16, 17);
}

proof fn lemma_pow16_mono(a: nat, b: nat)
    requires
        a <= b,
    ensures
        pow16(a) <= pow16(b),
    decreases b,
{
    if a < b {
        lemma_pow16_mono(a, (b - 1) as nat);
        lemma_pow16_pos((b - 1) as nat);
    }
}

/// `b` as two lower-case hexadecimal digits (`{:02x}`).
pub fn hex2(b: u8) -> (out: Vec<char>)
    ensures
        out@ == hex_fixed(b as nat, 2),
        out@ == seq![hex_char(b as nat / 16), hex_char(b as nat % 16)],
{
    let hi = char_from_digit((b / 16) as u64);
    let lo = char_from_digit((b % 16) as u64);
    let mut out: Vec<char> = Vec::new();
    out.push(hi);
    out.push(lo);
    proof {
        let n = b as nat;
        assert(n / 16 < 16);
        assert((n / 16) % 16 == n / 16);
        assert(hex_fixed(n / 16 / 16, 0) == Seq::<char>::empty());
        assert(hex_fixed(n / 16, 1) == seq![hex_char((n / 16) % 16)]);
        assert(hex_fixed(n, 2) == hex_fixed(n / 16, 1).push(hex_char(n % 16)));
        assert(out@ =~= seq![hex_char(n / 16), hex_char(n % 16)]);
    }
    out
}

pub proof fn lemma_hex_char_value(v: nat)
    requires
        v < 16,
    ensures
        is_hex_digit(hex_char(v)),
        hex_digit_value(hex_char(v)) == v,
        hex_char(v) != '\n',
        hex_char(v) != '\r',
{
}

/// Bytes as lower-case hexadecimal, two digits per byte.
pub open spec fn hex_of_bytes(p: Seq<u8>) -> Seq<char>
    decreases p.len(),
{
    if p.len() == 0 {
        seq![]
    } else {
        hex_of_bytes(p.drop_last()) + hex_fixed(p.last() as nat, 2)
    }
}

/// The bytes that pairs of hexadecimal digits write.
pub open spec fn bytes_of_hex(v: Seq<char>) -> Seq<u8> {
    Seq::new(v.len() / 2, |i: int| (hex_digit_value(v[2 * i]) * 16 + hex_digit_value(v[2 * i + 1])) as u8)
}

pub proof fn lemma_hex_of_bytes(p: Seq<u8>)
    ensures
        hex_of_bytes(p).len() == 2 * p.len(),
        forall|i: int| 0 <= i < p.len() ==> #[trigger] hex_of_bytes(p)[2 * i] == hex_char(p[i] as nat / 16)
            && hex_of_bytes(p)[2 * i + 1] == hex_char(p[i] as nat % 16),
    decreases p.len(),
{
    if p.len() > 0 {
        let q = p.drop_last();
        lemma_hex_of_bytes(q);
        let n = p.last() as nat;
        assert(n / 16 < 16);
        assert(hex_fixed(n / 16 / 16, 0) == Seq::<char>::empty());
        assert(hex_fixed(n / 16, 1) == seq![hex_char((n / 16) % 16)]);
        assert(hex_fixed(n, 2) =~= seq![hex_char(n / 16), hex_char(n % 16)]);
        assert forall|i: int| 0 <= i < p.len() implies #[trigger] hex_of_bytes(p)[2 * i] == hex_char(
            p[i] as nat / 16,
        ) && hex_of_bytes(p)[2 * i + 1] == hex_char(p[i] as nat % 16) by {
            let a = hex_of_bytes(q);
            let b = hex_fixed(n, 2);
            assert(hex_of_bytes(p) == a + b);
            if i < q.len() {
                assert(q[i] == p[i]);
                assert((a + b)[2 * i] == a[2 * i]);
                assert((a + b)[2 * i + 1] == a[2 * i + 1]);
            } else {
                assert((a + b)[2 * i] == b[0]);
                assert((a + b)[2 * i + 1] == b[1]);
            }
        }
    }
}

} // verus!
