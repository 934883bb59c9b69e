//! Texts that read as floating point numbers, and how large the numbers are.

use vstd::arithmetic::power::{lemma_pow_adds, lemma_pow_increases, lemma_pow_positive, pow};
use vstd::prelude::*;

use crate::text::{append_chars, digits_value, is_digit, skip_chars, slice_chars, to_chars};

verus! {

/// A power of ten.
pub open spec fn tens(k: nat) -> nat {
    pow(10, k) as nat
}

/// A number without its sign.
pub open spec fn without_sign(s: Seq<char>) -> Seq<char> {
    if s.len() > 0 && (s[0] == '+' || s[0] == '-') {
        s.skip(1)
    } else {
        s
    }
}

/// How many digits a text starts with.
pub open spec fn leading_digits(s: Seq<char>) -> nat
    decreases s.len(),
{
    if s.len() == 0 || !is_digit(s[0]) {
        0
    } else {
        1 + leading_digits(s.skip(1))
    }
}

/// An exponent: nothing, or an `e` with a whole number behind it.
pub open spec fn exponent_of(s: Seq<char>) -> Option<int> {
    if s.len() == 0 {
        Some(0)
    } else if s[0] == 'e' || s[0] == 'E' {
        let digits = without_sign(s.skip(1));
        if digits.len() > 0 && leading_digits(digits) == digits.len() {
            Some(
                if s[1] == '-' {
                    -(digits_value(digits) as int)
                } else {
                    digits_value(digits) as int
                },
            )
        } else {
            None
        }
    } else {
        None
    }
}

/// A decimal number without a sign: its digits, without the point, and the
/// power of ten that the number of these digits is multiplied with. A digit
/// must stand on one side of the point.
pub open spec fn scaled(s: Seq<char>) -> Option<(Seq<char>, int)> {
    let whole = leading_digits(s) as int;
    let pointed = whole < s.len() && s[whole] == '.';
    let rest = s.skip(
        if pointed {
            whole + 1
        } else {
            whole
        },
    );
    let part = if pointed {
        leading_digits(rest) as int
    } else {
        0
    };
    match exponent_of(rest.skip(part)) {
        Some(exponent) => if whole + part > 0 {
            Some((s.take(whole) + rest.take(part), exponent - part))
        } else {
            None
        },
        None => None,
    }
}

pub open spec fn lower(c: char) -> char {
    if 'A' <= c <= 'Z' {
        (c as int + 32) as char
    } else {
        c
    }
}

/// A word for what is no finite number.
pub open spec fn is_word(s: Seq<char>) -> bool {
    let word = s.map_values(|c: char| lower(c));
    word == "inf"@ || word == "infinity"@ || word == "nan"@
}

/// Whether `m` times the power of ten `e` is less than `limit`.
pub open spec fn is_below(m: nat, e: int, limit: nat) -> bool {
    if e >= 0 {
        m * tens(e as nat) < limit
    } else {
        m < limit * tens((-e) as nat)
    }
}

/// The least whole number that rounds to 2^64 as a floating point number of 64
/// bits.
pub const TOO_MANY_SECONDS: u128 = 18_446_744_073_709_550_592;

/// Half the least positive floating point number of 64 bits is two to the power
/// of minus this number. What is no larger is rounded to zero.
pub const ZERO_POWER: u64 = 1075;

/// Whether `m` times the power of ten `e` is rounded to zero as a floating
/// point number of 64 bits.
pub open spec fn rounds_to_zero(m: nat, e: int) -> bool {
    m == 0 || (e < 0 && m * pow(2, ZERO_POWER as nat) <= tens((-e) as nat))
}

/// Whether a text is no floating point number, or one that is a length of time
/// in seconds: not negative, unless it is rounded to zero, and less than 2^64.
pub open spec fn safe_seconds(s: Seq<char>) -> bool {
    &&& !is_word(without_sign(s))
    &&& scaled(without_sign(s)) matches Some((digits, e)) ==> {
        let m = digits_value(digits);
        if s[0] == '-' {
            rounds_to_zero(m, e)
        } else {
            is_below(m, e, TOO_MANY_SECONDS as nat)
        }
    }
}

pub open spec fn all_digits(s: Seq<char>) -> bool {
    forall|i: int| 0 <= i < s.len() ==> is_digit(#[trigger] s[i])
}

pub proof fn lemma_leading_digits(s: Seq<char>)
    ensures
        leading_digits(s) <= s.len(),
        all_digits(s.take(leading_digits(s) as int)),
        leading_digits(s) < s.len() ==> !is_digit(s[leading_digits(s) as int]),
    decreases s.len(),
{
    if s.len() > 0 && is_digit(s[0]) {
        lemma_leading_digits(s.skip(1));
        let n = leading_digits(s) as int;
        assert forall|i: int| 0 <= i < n implies is_digit(#[trigger] s.take(n)[i]) by {
            if i > 0 {
                assert(s.skip(1).take(n - 1)[i - 1] == s[i]);
            }
        }
    }
}

/// A text of digits starts with all of them.
pub proof fn lemma_only_digits(s: Seq<char>)
    requires
        all_digits(s),
    ensures
        leading_digits(s) == s.len(),
    decreases s.len(),
{
    if s.len() > 0 {
        assert(is_digit(s[0]));
        assert forall|i: int| 0 <= i < s.skip(1).len() implies is_digit(
            #[trigger] s.skip(1)[i],
        ) by {
            assert(s.skip(1)[i] == s[i + 1]);
        }
        lemma_only_digits(s.skip(1));
    }
}

proof fn lemma_tens(a: nat, b: nat)
    ensures
        tens(a) > 0,
        tens(a + b) == tens(a) * tens(b),
        a <= b ==> tens(a) <= tens(b),
{
    lemma_pow_positive(10, a);
    lemma_pow_positive(10, b);
    lemma_pow_positive(10, a + b);
    lemma_pow_adds(10, a, b);
    if a <= b {
        lemma_pow_increases(10, a, b);
    }
}

proof fn lemma_ten()
    ensures
        tens(0) == 1,
        tens(1) == 10,
{
    vstd::arithmetic::power::lemma_pow0(10);
    vstd::arithmetic::power::lemma_pow1(10);
}

/// A number is less than the power of ten that has more digits than it, and at
/// least the one with as many where its first digit is not zero.
pub proof fn lemma_magnitude(d: Seq<char>)
    requires
        all_digits(d),
    ensures
        digits_value(d) < tens(d.len()),
        d.len() > 0 && d[0] != '0' ==> digits_value(d) >= tens((d.len() - 1) as nat),
    decreases d.len(),
{
    lemma_ten();
    if d.len() > 0 {
        let shorter = d.drop_last();
        assert forall|i: int| 0 <= i < shorter.len() implies is_digit(#[trigger] shorter[i]) by {
            assert(shorter[i] == d[i]);
        }
        lemma_magnitude(shorter);
        assert(is_digit(d[d.len() - 1]));
        lemma_tens(shorter.len(), 1);
        assert(tens(d.len()) == tens(shorter.len()) * 10);
        if shorter.len() > 0 {
            lemma_tens((shorter.len() - 1) as nat, 1);
            assert(tens(shorter.len()) == tens((shorter.len() - 1) as nat) * 10);
            assert(shorter[0] == d[0]);
        }
    }
}

proof fn lemma_leading_zeros(d: Seq<char>, z: int)
    requires
        all_digits(d),
        0 <= z <= d.len(),
        forall|i: int| 0 <= i < z ==> d[i] == '0',
    ensures
        digits_value(d) == digits_value(d.skip(z)),
    decreases d.len(),
{
    if z < d.len() {
        let shorter = d.drop_last();
        assert forall|i: int| 0 <= i < shorter.len() implies is_digit(#[trigger] shorter[i]) by {
            assert(shorter[i] == d[i]);
        }
        lemma_leading_zeros(shorter, z);
        assert(d.skip(z).drop_last() =~= shorter.skip(z));
        assert(d.skip(z).last() == d.last());
    } else {
        assert(d.skip(z) =~= Seq::<char>::empty());
        if d.len() > 0 {
            let shorter = d.drop_last();
            assert forall|i: int| 0 <= i < shorter.len() implies is_digit(
                #[trigger] shorter[i],
            ) by {
                assert(shorter[i] == d[i]);
            }
            lemma_leading_zeros(shorter, z - 1);
            assert(shorter.skip(z - 1) =~= Seq::<char>::empty());
            assert(d[d.len() - 1] == '0');
        }
    }
}

/// A number of `n` digits, times the power of ten `e`, is less than the limit
/// where it has fewer digits before the point, and not where it has more.
proof fn lemma_is_below(m: nat, n: nat, e: int, limit: nat, places: nat)
    requires
        n > 0,
        tens((n - 1) as nat) <= m < tens(n),
        places > 0,
        tens((places - 1) as nat) < limit <= tens(places),
    ensures
        n + e < places ==> is_below(m, e, limit),
        n + e > places ==> !is_below(m, e, limit),
{
    if e >= 0 {
        let k = e as nat;
        lemma_tens(n, k);
        lemma_tens((n - 1) as nat, k);
        lemma_tens(k, k);
        assert(m * tens(k) < tens(n) * tens(k)) by (nonlinear_arith)
            requires
                m < tens(n),
                tens(k) > 0,
        ;
        assert(m * tens(k) >= tens((n - 1) as nat) * tens(k)) by (nonlinear_arith)
            requires
                m >= tens((n - 1) as nat),
        ;
        if n + e < places {
            lemma_tens(n + k, (places - 1) as nat);
        }
        if n + e > places {
            lemma_tens(places, (n - 1 + k) as nat);
        }
    } else {
        let k = (-e) as nat;
        lemma_tens(k, k);
        if n + e < places {
            // `m` is less than ten to the power of `places - 1 + k`.
            lemma_tens((places - 1) as nat, k);
            lemma_tens(n, (places - 1 + k) as nat);
            assert(limit * tens(k) > tens((places - 1) as nat) * tens(k)) by (nonlinear_arith)
                requires
                    limit > tens((places - 1) as nat),
                    tens(k) > 0,
            ;
        }
        if n + e > places {
            lemma_tens(places, k);
            lemma_tens(places + k, (n - 1) as nat);
            assert(limit * tens(k) <= tens(places) * tens(k)) by (nonlinear_arith)
                requires
                    limit <= tens(places),
            ;
        }
    }
}

proof fn lemma_split_value(d: Seq<char>, k: int)
    requires
        all_digits(d),
        0 <= k <= d.len(),
    ensures
        digits_value(d) == digits_value(d.take(k)) * tens((d.len() - k) as nat) + digits_value(
            d.skip(k),
        ),
        digits_value(d.skip(k)) < tens((d.len() - k) as nat),
    decreases d.len() - k,
{
    lemma_ten();
    let tail = d.skip(k);
    assert forall|i: int| 0 <= i < tail.len() implies is_digit(#[trigger] tail[i]) by {
        assert(tail[i] == d[i + k]);
    }
    lemma_magnitude(tail);
    if k < d.len() {
        let shorter = d.drop_last();
        assert forall|i: int| 0 <= i < shorter.len() implies is_digit(#[trigger] shorter[i]) by {
            assert(shorter[i] == d[i]);
        }
        lemma_split_value(shorter, k);
        assert(shorter.take(k) =~= d.take(k));
        assert(shorter.skip(k) =~= d.skip(k).drop_last());
        assert(is_digit(d[d.len() - 1]));
        let a = digits_value(d.take(k));
        let p = tens((shorter.len() - k) as nat);
        lemma_tens((shorter.len() - k) as nat, 1);
        assert(tens((d.len() - k) as nat) == p * 10);
        assert((a * p) * 10 == a * (p * 10)) by (nonlinear_arith);
    } else {
        assert(d.take(k) =~= d);
        assert(d.skip(k) =~= Seq::<char>::empty());
        let a = digits_value(d);
        assert(a * 1 == a) by (nonlinear_arith);
        assert(digits_value(Seq::<char>::empty()) == 0);
    }
}

fn count_digits(s: &Vec<char>) -> (r: usize)
    ensures
        r == leading_digits(s@),
        r <= s@.len(),
{
    let mut i: usize = 0;
    assert(s@.skip(0) == s@);
    while i < s.len() && '0' <= s[i] && s[i] <= '9'
        invariant
            i <= s@.len(),
            leading_digits(s@) == i + leading_digits(s@.skip(i as int)),
        decreases s@.len() - i,
    {
        assert(s@.skip(i as int).skip(1) == s@.skip(i + 1));
        i += 1;
    }
    i
}

fn skip_sign(s: &Vec<char>) -> (r: Vec<char>)
    ensures
        r@ == without_sign(s@),
{
    if s.len() > 0 && (s[0] == '+' || s[0] == '-') {
        skip_chars(s, 1)
    } else {
        assert(s@.skip(0) == s@);
        skip_chars(s, 0)
    }
}

/// No text has this many digits.
pub const MANY: i128 = 1_000_000_000_000_000_000_000_000;

/// The number that digits stand for, or [`MANY`] where it is more.
fn read_digits(s: &Vec<char>) -> (r: i128)
    requires
        all_digits(s@),
    ensures
        0 <= r <= MANY,
        r < MANY ==> r == digits_value(s@),
        r == MANY ==> digits_value(s@) >= MANY,
{
    let mut value: i128 = 0;
    assert(s@.take(0) == Seq::<char>::empty());
    for i in 0..s.len()
        invariant
            all_digits(s@),
            0 <= value <= MANY,
            value < MANY ==> value == digits_value(s@.take(i as int)),
            value == MANY ==> digits_value(s@.take(i as int)) >= MANY,
    {
        assert(is_digit(s@[i as int]));
        assert(s@.take(i + 1).drop_last() == s@.take(i as int));
        let d = (s[i] as u32 - 48) as i128;
        value = value * 10 + d;
        if value >= MANY {
            value = MANY;
        }
    }
    assert(s@.take(s@.len() as int) == s@);
    value
}

/// The exponent, where it is one; where it lies beyond [`MANY`], that number.
fn read_exponent(s: &Vec<char>) -> (r: Option<i128>)
    ensures
        match r {
            Some(x) => exponent_of(s@) matches Some(exponent) && -MANY <= x <= MANY && (-MANY < x
                < MANY ==> x == exponent) && (x == MANY ==> exponent >= MANY) && (x == -MANY
                ==> exponent <= -MANY),
            None => exponent_of(s@) is None,
        },
{
    if s.len() == 0 {
        return Some(0);
    }
    if s[0] != 'e' && s[0] != 'E' {
        return None;
    }
    let digits = skip_sign(&skip_chars(s, 1));
    if digits.len() == 0 || count_digits(&digits) != digits.len() {
        return None;
    }
    proof {
        lemma_leading_digits(digits@);
        assert(digits@.take(digits@.len() as int) == digits@);
    }
    let value = read_digits(&digits);
    if s[1] == '-' {
        Some(-value)
    } else {
        Some(value)
    }
}

fn check_word(s: &Vec<char>) -> (r: bool)
    ensures
        r == is_word(s@),
{
    let ghost word = s@.map_values(|c: char| lower(c));
    let mut low: Vec<char> = Vec::new();
    for i in 0..s.len()
        invariant
            word == s@.map_values(|c: char| lower(c)),
            low@ == word.take(i as int),
    {
        let c = s[i];
        let l = if 'A' <= c && c <= 'Z' { ((c as u32 as u8) + 32) as char } else { c };
        low.push(l);
        assert(l == lower(c));
        assert(low@ =~= word.take(i + 1));
    }
    assert(word.take(word.len() as int) == word);
    same_chars(&low, "inf") || same_chars(&low, "infinity") || same_chars(&low, "nan")
}

fn same_chars(s: &Vec<char>, text: &str) -> (r: bool)
    ensures
        r == (s@ == text@),
{
    let other = to_chars(text);
    if s.len() != other.len() {
        return false;
    }
    for i in 0..s.len()
        invariant
            s@.len() == other@.len(),
            other@ == text@,
            forall|k: int| 0 <= k < i ==> s@[k] == other@[k],
    {
        if s[i] != other[i] {
            return false;
        }
    }
    assert(s@ =~= other@);
    true
}

/// Whether a number of digits, times the power of ten `e`, is less than
/// `limit`, which has `places` digits.
fn check_below(digits: &Vec<char>, e: i128, limit: u128, places: usize) -> (r: bool)
    requires
        all_digits(digits@),
        digits@.len() > 0,
        digits@[0] != '0',
        -4 * MANY <= e <= 4 * MANY,
        0 < places <= 20,
        tens((places - 1) as nat) < limit <= tens(places as nat),
    ensures
        r == is_below(digits_value(digits@), e as int, limit as nat),
{
    let n = digits.len() as i128;
    proof {
        lemma_magnitude(digits@);
        lemma_ten();
    }
    proof {
        lemma_is_below(digits_value(digits@), digits@.len(), e as int, limit as nat, places as nat);
    }
    if n + e != places as i128 {
        return n + e < places as i128;
    }
    if e >= 0 {
        let mut value = read_short(digits);
        let mut k: i128 = 0;
        let ghost m = digits_value(digits@);
        proof {
            lemma_tens((n - 0) as nat, e as nat);
        }
        assert(m * 1 == m) by (nonlinear_arith);
        while k < e
            invariant
                0 <= k <= e,
                e <= 20,
                n == digits@.len(),
                n + e == places,
                places <= 20,
                m < tens(digits@.len()),
                value == m * tens(k as nat),
            decreases e - k,
        {
            proof {
                lemma_ten();
                lemma_tens(k as nat, 1);
                lemma_tens(digits@.len(), (k + 1) as nat);
                lemma_tens(digits@.len() + (k + 1) as nat, 20);
                lemma_twenty();
                assert(m * tens(k as nat) * 10 == m * (tens(k as nat) * 10)) by (nonlinear_arith);
                assert(m * tens((k + 1) as nat) <= tens(digits@.len()) * tens((k + 1) as nat))
                    by (nonlinear_arith)
                    requires
                        m <= tens(digits@.len()),
                ;
            }
            value = value * 10;
            k = k + 1;
        }
        value < limit
    } else {
        let head = slice_chars(digits, 0, places);
        let ghost d = digits@;
        assert(head@ == d.take(places as int));
        assert forall|i: int| 0 <= i < head@.len() implies is_digit(#[trigger] head@[i]) by {
            assert(head@[i] == d[i]);
        }
        proof {
            lemma_split_value(d, places as int);
            let k = (-e) as nat;
            let a = digits_value(d.take(places as int));
            let b = digits_value(d.skip(places as int));
            lemma_tens(k, k);
            if a < limit {
                assert(a * tens(k) + tens(k) <= limit * tens(k)) by (nonlinear_arith)
                    requires
                        a + 1 <= limit,
                ;
            } else {
                assert(a * tens(k) >= limit * tens(k)) by (nonlinear_arith)
                    requires
                        a >= limit,
                ;
            }
        }
        read_short(&head) < limit
    }
}

proof fn lemma_twenty()
    ensures
        tens(20) == 100_000_000_000_000_000_000,
        tens(19) == 10_000_000_000_000_000_000,
{
    assert(pow(10, 20) == 100_000_000_000_000_000_000 && pow(10, 19)
        == 10_000_000_000_000_000_000) by {
        reveal(pow);
        reveal_with_fuel(pow, 21);
    }
}

/// Twice a number, digit by digit from the left: a digit from 5 on adds one to
/// what stands before it.
fn double(d: &Vec<char>) -> (r: Vec<char>)
    requires
        all_digits(d@),
        d@.len() > 0,
        d@[0] != '0',
    ensures
        all_digits(r@),
        r@.len() > 0,
        r@[0] != '0',
        r@.len() <= d@.len() + 1,
        digits_value(r@) == 2 * digits_value(d@),
{
    let mut r: Vec<char> = Vec::new();
    assert(is_digit(d@[0]));
    if d[0] >= '5' {
        r.push('1');
        assert(r@.drop_last() == Seq::<char>::empty());
    }
    assert(d@.take(0) == Seq::<char>::empty());
    for i in 0..d.len()
        invariant
            all_digits(d@),
            d@.len() > 0,
            d@[0] != '0',
            all_digits(r@),
            r@.len() <= i + 1,
            r@.len() > 0 ==> r@[0] != '0',
            r@.len() == 0 ==> i == 0,
            digits_value(r@) == 2 * digits_value(d@.take(i as int)) + (if i < d@.len()
                && d@[i as int] >= '5' {
                1int
            } else {
                0
            }),
            i == 0 && r@.len() == 0 ==> d@[0] < '5',
    {
        assert(is_digit(d@[i as int]));
        assert(d@.take(i + 1).drop_last() == d@.take(i as int));
        let own: u8 = (d[i] as u32 - 48) as u8;
        let carried: u8 = if i + 1 < d.len() && d[i + 1] >= '5' { 1 } else { 0 };
        let digit: u8 = if own >= 5 { 2 * own - 10 + carried } else { 2 * own + carried };
        let c = (48 + digit) as char;
        let ghost before = r@;
        r.push(c);
        assert(r@.drop_last() == before);
        assert(is_digit(c));
        assert forall|k: int| 0 <= k < r@.len() implies is_digit(#[trigger] r@[k]) by {
            if k < before.len() {
                assert(is_digit(before[k]));
            }
        }
    }
    assert(d@.take(d@.len() as int) == d@);
    r
}

/// Whether digits stand for a power of ten: a one with zeros behind it.
fn is_power_of_ten(d: &Vec<char>) -> (r: bool)
    requires
        all_digits(d@),
        d@.len() > 0,
        d@[0] != '0',
    ensures
        r == (digits_value(d@) == tens((d@.len() - 1) as nat)),
{
    let rest = skip_chars(d, 1);
    let zeros = count_zeros(&rest);
    proof {
        let tail = rest@;
        assert forall|i: int| 0 <= i < tail.len() implies is_digit(#[trigger] tail[i]) by {
            assert(tail[i] == d@[i + 1]);
        }
        lemma_split_value(d@, 1);
        assert(is_digit(d@[0]));
        assert(d@.take(1).drop_last() == Seq::<char>::empty());
        let first = digits_value(d@.take(1));
        assert(digits_value(Seq::<char>::empty()) == 0);
        assert(d@.take(1).last() == d@[0]);
        assert(first == d@[0] as int - 48);
        let p = tens((d@.len() - 1) as nat);
        lemma_tens((d@.len() - 1) as nat, 0);
        lemma_leading_zeros(tail, zeros as int);
        let short = tail.skip(zeros as int);
        assert forall|i: int| 0 <= i < short.len() implies is_digit(#[trigger] short[i]) by {
            assert(short[i] == tail[i + zeros]);
        }
        lemma_magnitude(short);
        if short.len() > 0 {
            lemma_tens((short.len() - 1) as nat, 0);
        }
        if first == 1 {
            assert(first * p == p) by (nonlinear_arith)
                requires
                    first == 1,
            ;
        } else {
            assert(first * p >= 2 * p) by (nonlinear_arith)
                requires
                    first >= 2,
                    p > 0,
            ;
        }
    }
    d[0] == '1' && zeros == rest.len()
}

/// A number of `n` digits is no more than a power of ten where it has no more
/// digits than the power has zeros, or is the power.
proof fn lemma_at_most(v: nat, n: nat, k: nat)
    requires
        n > 0,
        tens((n - 1) as nat) <= v < tens(n),
    ensures
        v <= tens(k) <==> n <= k || (n == k + 1 && v == tens(k)),
{
    if n <= k {
        lemma_tens(n, k);
    } else if n > k + 1 {
        lemma_ten();
        lemma_tens(k, 1);
        lemma_tens(k + 1, (n - 1) as nat);
    }
}

/// Whether a number of digits, times the power of ten `e`, is rounded to zero.
fn check_rounds_to_zero(digits: &Vec<char>, e: i128, Ghost(exponent): Ghost<int>) -> (r: bool)
    requires
        all_digits(digits@),
        digits@.len() > 0,
        digits@[0] != '0',
        -2 * MANY <= e <= 2 * MANY,
        e == exponent || (e >= MANY / 2 && exponent >= MANY / 2) || (e <= -MANY / 2 && exponent
            <= -MANY / 2),
    ensures
        r == rounds_to_zero(digits_value(digits@), exponent),
{
    let ghost m = digits_value(digits@);
    let length = digits.len();
    assert(length == digits@.len());
    proof {
        lemma_magnitude(digits@);
        lemma_tens((digits@.len() - 1) as nat, 0);
    }
    if e >= 0 {
        return false;
    }
    let mut doubled = skip_chars(digits, 0);
    assert(digits@.skip(0) == digits@);
    proof {
        vstd::arithmetic::power::lemma_pow0(2);
        assert(m * 1 == m) by (nonlinear_arith);
    }
    for j in 0..ZERO_POWER
        invariant
            all_digits(doubled@),
            doubled@.len() > 0,
            doubled@[0] != '0',
            doubled@.len() <= length + j,
            digits_value(doubled@) == m * pow(2, j as nat),
    {
        proof {
            lemma_pow_adds(2, j as nat, 1);
            vstd::arithmetic::power::lemma_pow1(2);
            assert(2 * (m * pow(2, j as nat)) == m * (pow(2, j as nat) * 2)) by (nonlinear_arith);
        }
        doubled = double(&doubled);
    }
    let n = doubled.len() as i128;
    proof {
        let v = digits_value(doubled@);
        lemma_magnitude(doubled@);
        lemma_at_most(v, doubled@.len(), (-e) as nat);
        lemma_at_most(v, doubled@.len(), (-exponent) as nat);
    }
    n <= -e || (n == -e + 1 && is_power_of_ten(&doubled))
}

/// The number that at most 20 digits stand for.
fn read_short(s: &Vec<char>) -> (r: u128)
    requires
        all_digits(s@),
        s@.len() <= 20,
    ensures
        r == digits_value(s@),
{
    let value = read_digits(s);
    proof {
        lemma_magnitude(s@);
        lemma_tens(s@.len(), 20);
        lemma_twenty();
    }
    value as u128
}

fn count_zeros(s: &Vec<char>) -> (r: usize)
    ensures
        r <= s@.len(),
        forall|i: int| 0 <= i < r ==> s@[i] == '0',
        r < s@.len() ==> s@[r as int] != '0',
{
    let mut i: usize = 0;
    while i < s.len() && s[i] == '0'
        invariant
            i <= s@.len(),
            forall|k: int| 0 <= k < i ==> s@[k] == '0',
        decreases s@.len() - i,
    {
        i += 1;
    }
    i
}

/// The digits and the exponent of a decimal number; where the exponent lies
/// beyond [`MANY`], that number stands for it.
fn read_scaled(s: &Vec<char>) -> (r: Option<(Vec<char>, i128)>)
    ensures
        match r {
            Some((digits, e)) => {
                &&& scaled(s@) matches Some((d, exponent))
                &&& d == digits@
                &&& all_digits(digits@)
                &&& -2 * MANY <= e <= 2 * MANY
                &&& e == exponent || (e >= MANY / 2 && exponent >= MANY / 2) || (e <= -MANY / 2
                    && exponent <= -MANY / 2)
            },
            None => scaled(s@) is None,
        },
{
    let whole = count_digits(s);
    let pointed = whole < s.len() && s[whole] == '.';
    let rest = skip_chars(s, if pointed { whole + 1 } else { whole });
    let part = if pointed { count_digits(&rest) } else { 0 };
    proof {
        lemma_leading_digits(s@);
        lemma_leading_digits(rest@);
    }
    match read_exponent(&skip_chars(&rest, part)) {
        Some(exponent) => {
            if whole == 0 && part == 0 {
                return None;
            }
            let mut digits = slice_chars(s, 0, whole);
            let more = slice_chars(&rest, 0, part);
            assert(digits@ == s@.take(whole as int));
            assert(more@ == rest@.take(part as int));
            append_chars(&mut digits, &more);
            assert(all_digits(digits@)) by {
                assert forall|i: int| 0 <= i < digits@.len() implies is_digit(
                    #[trigger] digits@[i],
                ) by {
                    if i < whole {
                        assert(is_digit(s@.take(whole as int)[i]));
                    } else {
                        assert(pointed);
                        assert(is_digit(rest@.take(part as int)[i - whole]));
                    }
                }
            }
            Some((digits, exponent - part as i128))
        },
        None => None,
    }
}

pub fn check_seconds(s: &Vec<char>) -> (r: bool)
    ensures
        r == safe_seconds(s@),
{
    let plain = skip_sign(s);
    if check_word(&plain) {
        return false;
    }
    let (digits, e) = match read_scaled(&plain) {
        Some(parts) => parts,
        None => return true,
    };
    let ghost exponent = (scaled(plain@)->0).1;
    let zeros = count_zeros(&digits);
    let short = skip_chars(&digits, zeros);
    proof {
        lemma_leading_zeros(digits@, zeros as int);
        assert forall|i: int| 0 <= i < short@.len() implies is_digit(#[trigger] short@[i]) by {
            assert(short@[i] == digits@[i + zeros]);
        }
        lemma_ten();
        lemma_twenty();
        lemma_magnitude(short@);
    }
    assert(plain@.len() > 0);
    if short.len() == 0 {
        proof {
            assert(digits_value(short@) == 0);
            if exponent < 0 {
                lemma_tens((-exponent) as nat, 0);
                assert(0 < TOO_MANY_SECONDS * tens((-exponent) as nat)) by (nonlinear_arith)
                    requires
                        tens((-exponent) as nat) > 0,
                ;
            } else {
                assert(0 * tens(exponent as nat) == 0);
            }
        }
        return true;
    }
    let ghost m = digits_value(short@);
    let ghost n = short@.len();
    assert(n == short.len() as nat);
    assert(n <= u64::MAX);
    proof {
        lemma_tens((n - 1) as nat, 0);
        assert(m > 0);
    }
    assert(m == digits_value(digits@));
    if s[0] == '-' {
        check_rounds_to_zero(&short, e, Ghost(exponent))
    } else {
        proof {
            lemma_is_below(m, n, exponent, TOO_MANY_SECONDS as nat, 20);
            lemma_is_below(m, n, e as int, TOO_MANY_SECONDS as nat, 20);
            assert(is_below(m, e as int, TOO_MANY_SECONDS as nat) == is_below(
                m,
                exponent,
                TOO_MANY_SECONDS as nat,
            ));
        }
        check_below(&short, e, TOO_MANY_SECONDS, 20)
    }
}

} // verus!
