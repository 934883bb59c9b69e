//! Laws of reading: playlists and documents of ordinary contents are read, and
//! what is refused is only what cannot be counted.

use vstd::prelude::*;

use crate::laws::playlists::begins_with;
use crate::numbers::{all_digits, exponent_of, is_below, is_word, leading_digits, lemma_magnitude,
    lemma_only_digits, lower, safe_seconds, scaled, tens};
use crate::readable::{readable, readable_line, readable_lines, safe_attribute, safe_attributes,
    safe_byte_range, segment_count, value_length};
use crate::text::{decimal, decimal_is_read_back, digits_value, has_part, has_prefix, is_digit,
    lemma_decimal_digits, lemma_until, lemma_until_bound, lines, occurs_at, parsed_u64, trimmed,
    trimmed_start, until};
use crate::vast::{attribute_value, digits, fits_time, short_attribute, short_content,
    short_element, short_time, short_times, short_times_at, until_end_tag};

verus! {

proof fn lemma_leading(d: Seq<char>, rest: Seq<char>)
    requires
        all_digits(d),
        rest.len() == 0 || !is_digit(rest[0]),
    ensures
        leading_digits(d + rest) == d.len(),
    decreases d.len(),
{
    if d.len() > 0 {
        assert(is_digit(d[0]));
        assert((d + rest).skip(1) =~= d.skip(1) + rest);
        assert forall|i: int| 0 <= i < d.skip(1).len() implies is_digit(
            #[trigger] d.skip(1)[i],
        ) by {
            assert(d.skip(1)[i] == d[i + 1]);
        }
        lemma_leading(d.skip(1), rest);
    } else {
        assert(d + rest =~= rest);
    }
}

proof fn lemma_no_word(s: Seq<char>)
    requires
        s.len() > 0,
        is_digit(s[0]),
    ensures
        !is_word(s),
{
    reveal_strlit("inf");
    reveal_strlit("infinity");
    reveal_strlit("nan");
    let word = s.map_values(|c: char| lower(c));
    assert(word[0] == s[0]);
    if is_word(s) {
        assert(word[0] == 'i' || word[0] == 'n');
    }
}

proof fn lemma_scaled(whole: Seq<char>, part: Seq<char>)
    requires
        all_digits(whole),
        all_digits(part),
        whole.len() > 0,
    ensures
        scaled(whole) == Some((whole, 0int)),
        scaled(whole + "."@ + part) == Some((whole + part, -(part.len() as int))),
        !is_word(whole),
        !is_word(whole + "."@ + part),
        is_digit(whole[0]),
{
    reveal_strlit(".");
    assert(is_digit(whole[0]));
    assert(whole + Seq::<char>::empty() =~= whole);
    lemma_no_word(whole);
    lemma_leading(whole, seq![]);
    assert(whole.take(whole.len() as int) =~= whole);
    assert(whole.skip(whole.len() as int) =~= Seq::<char>::empty());
    assert(Seq::<char>::empty().skip(0) =~= Seq::<char>::empty());
    assert(Seq::<char>::empty().take(0) =~= Seq::<char>::empty());
    let s = whole + "."@ + part;
    assert(s[0] == whole[0]);
    lemma_no_word(s);
    assert(s =~= whole + ("."@ + part));
    lemma_leading(whole, "."@ + part);
    assert(s.take(whole.len() as int) =~= whole);
    assert(s.skip(whole.len() as int + 1) =~= part);
    lemma_only_digits(part);
    assert(part.skip(part.len() as int) =~= Seq::<char>::empty());
    assert(part.take(part.len() as int) =~= part);
}

/// A length of time in seconds is read exactly where it is less than what
/// rounds to 2^64.
pub proof fn lengths_of_time_are_read(whole: Seq<char>, part: Seq<char>)
    requires
        all_digits(whole),
        all_digits(part),
        whole.len() > 0,
    ensures
        safe_seconds(whole) <==> digits_value(whole) < 18_446_744_073_709_550_592,
        safe_seconds(whole + "."@ + part) <==> digits_value(whole + part)
            < 18_446_744_073_709_550_592 * tens(part.len()),
{
    lemma_scaled(whole, part);
    vstd::arithmetic::power::lemma_pow0(10);
    let m = digits_value(whole);
    let n = digits_value(whole + part);
    let limit: nat = 18_446_744_073_709_550_592;
    assert(m * tens(0) == m && n * tens(0) == n && limit * tens(0) == limit) by (nonlinear_arith)
        requires
            tens(0) == 1,
    ;
}

/// A length of time of up to 19 digits, however many more stand behind its
/// point, is read.
pub proof fn ordinary_lengths_are_read(whole: Seq<char>, part: Seq<char>)
    requires
        all_digits(whole),
        all_digits(part),
        0 < whole.len() <= 19,
    ensures
        safe_seconds(whole),
        safe_seconds(whole + "."@ + part),
{
    lemma_scaled(whole, part);
    lemma_below(whole, seq![]);
    lemma_below(whole, part);
    assert(whole + Seq::<char>::empty() =~= whole);
}

/// A power of ten behind a number multiplies it, or divides it where it is
/// negative.
#[verifier::rlimit(40)]
pub proof fn powers_of_ten_are_read(whole: Seq<char>, exponent: Seq<char>)
    requires
        all_digits(whole),
        all_digits(exponent),
        0 < whole.len() <= 19,
        exponent.len() > 0,
    ensures
        safe_seconds(whole + "e-"@ + exponent),
        safe_seconds(whole + "e"@ + exponent) <==> digits_value(whole) * tens(
            digits_value(exponent),
        ) < 18_446_744_073_709_550_592,
{
    reveal_strlit("e-");
    reveal_strlit("e");
    assert("e-"@.len() == 2);
    assert("e"@.len() == 1);
    let up = whole + "e"@ + exponent;
    let down = whole + "e-"@ + exponent;
    assert(is_digit(whole[0]));
    assert(up[0] == whole[0] && down[0] == whole[0]);
    lemma_no_word(up);
    lemma_no_word(down);
    lemma_leading(whole, "e"@ + exponent);
    lemma_leading(whole, "e-"@ + exponent);
    assert(up =~= whole + ("e"@ + exponent));
    assert(down =~= whole + ("e-"@ + exponent));
    let n = whole.len() as int;
    assert(up.skip(n) =~= "e"@ + exponent);
    assert(down.skip(n) =~= "e-"@ + exponent);
    assert(up.skip(n).skip(0) =~= up.skip(n));
    assert(down.skip(n).skip(0) =~= down.skip(n));
    assert(("e"@ + exponent).skip(1) =~= exponent);
    assert(("e-"@ + exponent).skip(1) =~= seq!['-'] + exponent);
    assert((seq!['-'] + exponent).skip(1) =~= exponent);
    assert(is_digit(exponent[0]));
    lemma_only_digits(exponent);
    assert(exponent_of("e"@ + exponent) == Some(digits_value(exponent) as int));
    assert(exponent_of("e-"@ + exponent) == Some(-(digits_value(exponent) as int)));
    assert(up.take(n) + up.skip(n).take(0) =~= whole);
    assert(down.take(n) + down.skip(n).take(0) =~= whole);
    assert(scaled(up) == Some((whole, digits_value(exponent) as int)));
    assert(scaled(down) == Some((whole, -(digits_value(exponent) as int))));
    lemma_below(whole, seq![]);
    assert(whole + Seq::<char>::empty() =~= whole);
    vstd::arithmetic::power::lemma_pow0(10);
    vstd::arithmetic::power::lemma_pow_positive(10, digits_value(exponent));
    let m = digits_value(whole);
    let t = tens(digits_value(exponent));
    let limit: nat = 18_446_744_073_709_550_592;
    assert(m * tens(0) == m) by (nonlinear_arith)
        requires
            tens(0) == 1,
    ;
    assert(m < limit * t) by (nonlinear_arith)
        requires
            m < limit,
            t > 0,
    ;
}

/// Whether a letter is `small`, or the same letter as a capital, `large`.
pub open spec fn is_either(c: char, small: char, large: char) -> bool {
    c == small || c == large
}

/// The words for what is no finite number are refused, in capitals or not.
pub proof fn words_are_refused(s: Seq<char>)
    requires
        s.len() == 3,
        (is_either(s[0], 'i', 'I') && is_either(s[1], 'n', 'N') && is_either(s[2], 'f', 'F')) || (
        is_either(s[0], 'n', 'N') && is_either(s[1], 'a', 'A') && is_either(s[2], 'n', 'N')),
    ensures
        !safe_seconds(s),
{
    reveal_strlit("inf");
    reveal_strlit("nan");
    let word = s.map_values(|c: char| lower(c));
    assert(lower('I') == 'i' && lower('N') == 'n' && lower('F') == 'f' && lower('A') == 'a');
    assert(lower('i') == 'i' && lower('n') == 'n' && lower('f') == 'f' && lower('a') == 'a');
    if is_either(s[0], 'i', 'I') {
        assert(word =~= "inf"@);
    } else {
        assert(word =~= "nan"@);
    }
}

/// A length of time is not negative, but for zero.
pub proof fn negative_lengths_are_refused(whole: Seq<char>)
    requires
        all_digits(whole),
        whole.len() > 0,
    ensures
        safe_seconds(seq!['-'] + whole) <==> digits_value(whole) == 0,
{
    let s = seq!['-'] + whole;
    assert(s.skip(1) =~= whole);
    assert(is_digit(whole[0]));
    lemma_no_word(whole);
    lemma_leading(whole, seq![]);
    assert(whole + Seq::<char>::empty() =~= whole);
    assert(whole.take(whole.len() as int) =~= whole);
    assert(whole.skip(whole.len() as int) =~= Seq::<char>::empty());
    assert(Seq::<char>::empty().skip(0) =~= Seq::<char>::empty());
    assert(Seq::<char>::empty().take(0) =~= Seq::<char>::empty());
    assert(scaled(whole) == Some((whole, 0int)));
}

proof fn lemma_below(whole: Seq<char>, part: Seq<char>)
    requires
        all_digits(whole),
        all_digits(part),
        0 < whole.len() <= 19,
    ensures
        is_below(digits_value(whole + part), -(part.len() as int), 18_446_744_073_709_550_592),
{
    let d = whole + part;
    assert forall|i: int| 0 <= i < d.len() implies is_digit(#[trigger] d[i]) by {
        if i < whole.len() {
            assert(d[i] == whole[i]);
        } else {
            assert(d[i] == part[i - whole.len()]);
        }
    }
    lemma_magnitude(d);
    let w = whole.len();
    let p = part.len();
    vstd::arithmetic::power::lemma_pow_adds(10, w, p);
    vstd::arithmetic::power::lemma_pow_positive(10, w);
    vstd::arithmetic::power::lemma_pow_positive(10, p);
    vstd::arithmetic::power::lemma_pow_positive(10, w + p);
    vstd::arithmetic::power::lemma_pow_increases(10, w, 19);
    vstd::arithmetic::power::lemma_pow0(10);
    assert(vstd::arithmetic::power::pow(10, 19) == 10_000_000_000_000_000_000) by {
        reveal(vstd::arithmetic::power::pow);
        reveal_with_fuel(vstd::arithmetic::power::pow, 20);
    }
    let m = digits_value(d);
    let limit: nat = 18_446_744_073_709_550_592;
    assert(tens(w) * tens(p) < limit * tens(p)) by (nonlinear_arith)
        requires
            tens(w) < limit,
            tens(p) > 0,
    ;
    if p == 0 {
        assert(m * tens(0) == m) by (nonlinear_arith)
            requires
                tens(0) == 1,
        ;
    }
}

/// A line without a colon is read, and so is one with a tag whose value is not
/// counted.
pub proof fn ordinary_lines_are_read(
    line: Seq<char>,
    tag: Seq<char>,
    rest: Seq<char>,
    count: nat,
)
    requires
        !tag.contains(':'),
        trimmed(line) == tag || (trimmed(line) == tag + ":"@ + rest && tag != "#EXTINF"@ && tag
            != "#EXT-X-BYTERANGE"@ && tag != "#EXT-X-MEDIA-SEQUENCE"@ && tag
            != "#EXT-X-DATERANGE"@ && tag != "#EXT-X-KEY"@ && tag != "#EXT-X-MAP"@ && tag
            != "#EXT-X-MEDIA"@ && tag != "#EXT-X-STREAM-INF"@ && tag
            != "#EXT-X-I-FRAME-STREAM-INF"@ && tag != "#EXT-X-SESSION-DATA"@ && tag
            != "#EXT-X-SESSION-KEY"@),
    ensures
        readable_line(line, count),
{
    lemma_tag(trimmed(line), tag, rest);
}

proof fn lemma_tag(l: Seq<char>, tag: Seq<char>, rest: Seq<char>)
    requires
        !tag.contains(':'),
    ensures
        l == tag ==> until(l, ':') == l.len(),
        l == tag + ":"@ + rest ==> until(l, ':') == tag.len() && l.take(tag.len() as int) == tag
            && l.skip(tag.len() as int + 1) == rest && tag.len() < l.len(),
{
    reveal_strlit(":");
    assert forall|j: int| 0 <= j < tag.len() implies tag[j] != ':' by {
        assert(tag.contains(tag[j]));
    }
    lemma_until(tag, ':', tag.len());
    let full = tag + ":"@ + rest;
    assert(full[tag.len() as int] == ':');
    lemma_until(full, ':', tag.len());
    assert(full.take(tag.len() as int) =~= tag);
    assert(full.skip(tag.len() as int + 1) =~= rest);
}

proof fn lemma_no_colon()
    ensures
        !"#EXTINF"@.contains(':'),
        !"#EXT-X-BYTERANGE"@.contains(':'),
        !"#EXT-X-MEDIA-SEQUENCE"@.contains(':'),
        "#EXTINF"@.len() == 7,
        "#EXT-X-BYTERANGE"@.len() == 16,
        "#EXT-X-MEDIA-SEQUENCE"@.len() == 21,
{
    reveal_strlit("#EXTINF");
    reveal_strlit("#EXT-X-BYTERANGE");
    reveal_strlit("#EXT-X-MEDIA-SEQUENCE");
    assert("#EXTINF"@.len() == 7);
    assert("#EXT-X-BYTERANGE"@.len() == 16);
    assert("#EXT-X-MEDIA-SEQUENCE"@.len() == 21);
}

/// The line of a segment's length is read exactly where the length in it is.
pub proof fn segment_lengths_are_read(
    line: Seq<char>,
    seconds: Seq<char>,
    title: Seq<char>,
    count: nat,
)
    requires
        trimmed(line) == "#EXTINF"@ + ":"@ + (seconds + ","@ + title),
        !seconds.contains(','),
    ensures
        readable_line(line, count) <==> safe_seconds(seconds),
{
    lemma_no_colon();
    let rest = seconds + ","@ + title;
    lemma_tag(trimmed(line), "#EXTINF"@, rest);
    reveal_strlit(",");
    assert forall|j: int| 0 <= j < seconds.len() implies rest[j] != ',' by {
        assert(rest[j] == seconds[j]);
        assert(seconds.contains(seconds[j]));
    }
    assert(rest[seconds.len() as int] == ',');
    lemma_until(rest, ',', seconds.len());
    assert(rest.take(seconds.len() as int) =~= seconds);
}

proof fn lemma_byte_range(a: u64, b: u64)
    ensures
        safe_byte_range(decimal(a as nat) + "@"@ + decimal(b as nat)) <==> a + b <= usize::MAX,
        safe_byte_range(decimal(a as nat)),
{
    reveal_strlit("@");
    let first = decimal(a as nat);
    let second = decimal(b as nat);
    let range = first + "@"@ + second;
    decimal_is_read_back(a);
    decimal_is_read_back(b);
    lemma_decimal_digits(a as nat);
    assert forall|j: int| 0 <= j < first.len() implies range[j] != '@' && first[j] != '@' by {
        assert(range[j] == first[j]);
        assert(is_digit(first[j]));
    }
    assert(range[first.len() as int] == '@');
    lemma_until(range, '@', first.len());
    lemma_until(first, '@', first.len());
    assert(range.take(first.len() as int) =~= first);
    assert(range.skip(first.len() as int + 1) =~= second);
}

/// A byte range is read exactly where its end can be counted; one without a
/// start always.
#[verifier::rlimit(40)]
pub proof fn byte_ranges_are_read(line: Seq<char>, a: u64, b: u64, count: nat)
    ensures
        trimmed(line) == "#EXT-X-BYTERANGE"@ + ":"@ + (decimal(a as nat) + "@"@ + decimal(b as nat))
            ==> (readable_line(line, count) <==> a + b <= usize::MAX),
        trimmed(line) == "#EXT-X-BYTERANGE"@ + ":"@ + decimal(a as nat) ==> readable_line(
            line,
            count,
        ),
{
    lemma_no_colon();
    lemma_byte_range(a, b);
    let range = decimal(a as nat) + "@"@ + decimal(b as nat);
    lemma_tag(trimmed(line), "#EXT-X-BYTERANGE"@, range);
    lemma_tag(trimmed(line), "#EXT-X-BYTERANGE"@, decimal(a as nat));
}

/// The number of the first segment is read exactly where that of the last can
/// be counted.
pub proof fn sequence_numbers_are_read(line: Seq<char>, n: u64, count: nat)
    requires
        trimmed(line) == "#EXT-X-MEDIA-SEQUENCE"@ + ":"@ + decimal(n as nat),
    ensures
        readable_line(line, count) <==> n + count <= usize::MAX + 1 || count == 0,
{
    lemma_no_colon();
    lemma_tag(trimmed(line), "#EXT-X-MEDIA-SEQUENCE"@, decimal(n as nat));
    decimal_is_read_back(n);
}

proof fn lemma_value_length(value: Seq<char>, rest: Seq<char>)
    requires
        forall|i: int| 0 <= i < value.len() ==> #[trigger] value[i] != ',' && value[i] != '"',
        rest.len() == 0 || rest[0] == ',',
    ensures
        value_length(value + rest, false) == value.len(),
    decreases value.len(),
{
    if value.len() > 0 {
        assert(value[0] != ',' && value[0] != '"');
        assert((value + rest).skip(1) =~= value.skip(1) + rest);
        lemma_value_length(value.skip(1), rest);
    } else {
        assert(value + rest =~= rest);
    }
}

proof fn lemma_quoted_length(inner: Seq<char>, rest: Seq<char>)
    requires
        forall|i: int| 0 <= i < inner.len() ==> #[trigger] inner[i] != '"',
        rest.len() == 0 || rest[0] == ',',
    ensures
        value_length(inner + seq!['"'] + rest, true) == inner.len() + 1,
    decreases inner.len(),
{
    let s = inner + seq!['"'] + rest;
    if inner.len() > 0 {
        assert(inner[0] != '"');
        assert(s.skip(1) =~= inner.skip(1) + seq!['"'] + rest);
        lemma_quoted_length(inner.skip(1), rest);
    } else {
        assert(s.skip(1) =~= rest);
        assert(s[0] == '"');
        assert(value_length(rest, false) == 0);
    }
}

/// Whether a value of an attribute is a text between quotes, or has neither
/// quotes nor commas.
pub open spec fn is_one_value(value: Seq<char>) -> bool {
    ||| forall|i: int| 0 <= i < value.len() ==> #[trigger] value[i] != ',' && value[i] != '"'
    ||| exists|inner: Seq<char>|
        value == seq!['"'] + inner + #[trigger] (inner + seq!['"']).skip(inner.len() as int)
            && forall|i: int| 0 <= i < inner.len() ==> #[trigger] inner[i] != '"'
}

proof fn lemma_one_value(value: Seq<char>, rest: Seq<char>)
    requires
        is_one_value(value),
        rest.len() == 0 || rest[0] == ',',
    ensures
        value_length(value + rest, false) == value.len(),
{
    if forall|i: int| 0 <= i < value.len() ==> #[trigger] value[i] != ',' && value[i] != '"' {
        lemma_value_length(value, rest);
    } else {
        let inner = choose|inner: Seq<char>|
            value == seq!['"'] + inner + #[trigger] (inner + seq!['"']).skip(inner.len() as int)
                && forall|i: int| 0 <= i < inner.len() ==> #[trigger] inner[i] != '"';
        assert((inner + seq!['"']).skip(inner.len() as int) =~= seq!['"']);
        let s = value + rest;
        assert(s[0] == '"');
        assert(s.skip(1) =~= inner + seq!['"'] + rest);
        lemma_quoted_length(inner, rest);
    }
}

/// The attributes of a tag are read one by one: a quoted value may hold commas.
#[verifier::rlimit(40)]
pub proof fn attributes_are_read_one_by_one(
    tag: Seq<char>,
    key: Seq<char>,
    value: Seq<char>,
    rest: Seq<char>,
)
    requires
        key.len() > 0,
        !key.contains('='),
        is_one_value(value),
    ensures
        safe_attributes(tag, key + "="@ + value + ","@ + rest) <==> safe_attribute(
            tag,
            trimmed(key),
            trimmed(value),
        ) && safe_attributes(tag, rest),
        safe_attributes(tag, key + "="@ + value) <==> safe_attribute(
            tag,
            trimmed(key),
            trimmed(value),
        ),
{
    reveal_strlit("=");
    reveal_strlit(",");
    let s = key + "="@ + value + ","@ + rest;
    let single = key + "="@ + value;
    assert forall|j: int| 0 <= j < key.len() implies s[j] != '=' && single[j] != '=' by {
        assert(s[j] == key[j]);
        assert(single[j] == key[j]);
        assert(key.contains(key[j]));
    }
    assert(s[key.len() as int] == '=');
    assert(single[key.len() as int] == '=');
    lemma_until(s, '=', key.len());
    lemma_until(single, '=', key.len());
    assert(s.take(key.len() as int) =~= key);
    assert(single.take(key.len() as int) =~= key);
    let tail = value + (","@ + rest);
    assert(s.skip(key.len() as int + 1) =~= tail);
    assert(single.skip(key.len() as int + 1) =~= value);
    lemma_one_value(value, ","@ + rest);
    lemma_one_value(value, seq![]);
    assert(value + Seq::<char>::empty() =~= value);
    assert(tail.take(value.len() as int) =~= value);
    assert(tail.skip(value.len() as int + 1) =~= rest);
    assert(value.take(value.len() as int) =~= value);
}

/// The value of an attribute is read whatever it is, but for a single quote,
/// the length of a date range, and the byte range of an initialization section.
/// The length of a date range is read where a length of time is.
#[verifier::rlimit(40)]
pub proof fn values_are_read(tag: Seq<char>, key: Seq<char>, value: Seq<char>)
    requires
        value.len() != 1,
    ensures
        !(tag == "#EXT-X-DATERANGE"@ && (key == "DURATION"@ || key == "PLANNED-DURATION"@)) && !(tag
            == "#EXT-X-MAP"@ && key == "BYTERANGE"@) ==> safe_attribute(tag, key, value),
        tag == "#EXT-X-DATERANGE"@ && (key == "DURATION"@ || key == "PLANNED-DURATION"@) ==> (
        safe_attribute(tag, key, value) <==> safe_seconds(value)),
{
    reveal_strlit("#EXT-X-DATERANGE");
    reveal_strlit("#EXT-X-MAP");
    assert("#EXT-X-DATERANGE"@.len() == 16);
    assert("#EXT-X-MAP"@.len() == 10);
}

proof fn lemma_readable_lines(all: Seq<Seq<char>>, address: bool, count: nat)
    requires
        forall|i: int| 0 <= i < all.len() ==> readable_line(#[trigger] all[i], count),
    ensures
        readable_lines(all, address, count),
    decreases all.len(),
{
    if all.len() > 0 {
        assert(readable_line(all[0], count));
        let rest = all.skip(1);
        assert forall|i: int| 0 <= i < rest.len() implies readable_line(
            #[trigger] rest[i],
            count,
        ) by {
            assert(rest[i] == all[i + 1]);
        }
        lemma_readable_lines(rest, true, count);
        lemma_readable_lines(rest, false, count);
    }
}

/// A single quote is no value of an attribute whose value is a quoted text.
#[verifier::rlimit(40)]
pub proof fn single_quotes_are_refused(tag: Seq<char>, key: Seq<char>)
    ensures
        tag == "#EXT-X-DATERANGE"@ && (key == "ID"@ || key == "CLASS"@ || key == "START-DATE"@ || key == "END-DATE"@ || key == "SCTE35-CMD"@ || key == "SCTE35-OUT"@ || key == "SCTE35-IN"@) ==> !safe_attribute(tag, key, seq!['"']),
        tag == "#EXT-X-KEY"@ && (key == "URI"@ || key == "KEYFORMAT"@ || key == "KEYFORMATVERSIONS"@) ==> !safe_attribute(tag, key, seq!['"']),
        tag == "#EXT-X-SESSION-KEY"@ && (key == "URI"@ || key == "KEYFORMAT"@ || key == "KEYFORMATVERSIONS"@) ==> !safe_attribute(tag, key, seq!['"']),
        tag == "#EXT-X-MAP"@ && (key == "URI"@ || key == "BYTERANGE"@) ==> !safe_attribute(tag, key, seq!['"']),
        tag == "#EXT-X-MEDIA"@ && (key == "URI"@ || key == "GROUP-ID"@ || key == "LANGUAGE"@ || key == "ASSOC-LANGUAGE"@ || key == "NAME"@ || key == "INSTREAM-ID"@ || key == "CHARACTERISTICS"@ || key == "CHANNELS"@) ==> !safe_attribute(tag, key, seq!['"']),
        tag == "#EXT-X-STREAM-INF"@ && (key == "CODECS"@ || key == "VIDEO"@ || key == "AUDIO"@ || key == "SUBTITLES"@ || key == "CLOSED-CAPTIONS"@) ==> !safe_attribute(tag, key, seq!['"']),
        tag == "#EXT-X-I-FRAME-STREAM-INF"@ && (key == "URI"@ || key == "CODECS"@ || key == "VIDEO"@) ==> !safe_attribute(tag, key, seq!['"']),
        tag == "#EXT-X-SESSION-DATA"@ && (key == "DATA-ID"@ || key == "VALUE"@ || key == "URI"@ || key == "LANGUAGE"@) ==> !safe_attribute(tag, key, seq!['"']),
        tag == "#EXT-X-DATERANGE"@ && begins_with(key, "X-"@) ==> !safe_attribute(
            tag,
            key,
            seq!['"'],
        ),
{
    reveal_strlit("#EXT-X-DATERANGE");
    reveal_strlit("#EXT-X-KEY");
    reveal_strlit("#EXT-X-SESSION-KEY");
    reveal_strlit("#EXT-X-MAP");
    reveal_strlit("#EXT-X-MEDIA");
    reveal_strlit("#EXT-X-STREAM-INF");
    reveal_strlit("#EXT-X-I-FRAME-STREAM-INF");
    reveal_strlit("#EXT-X-SESSION-DATA");
    assert("#EXT-X-DATERANGE"@.len() == 16);
    assert("#EXT-X-KEY"@.len() == 10);
    assert("#EXT-X-SESSION-KEY"@.len() == 18);
    assert("#EXT-X-MAP"@.len() == 10);
    assert("#EXT-X-MEDIA"@.len() == 12);
    assert("#EXT-X-STREAM-INF"@.len() == 17);
    assert("#EXT-X-I-FRAME-STREAM-INF"@.len() == 25);
    assert("#EXT-X-SESSION-DATA"@.len() == 19);
    assert("#EXT-X-KEY"@[7] != "#EXT-X-MAP"@[7]);
    reveal_strlit("X-");
    assert("X-"@.len() == 2);
    if key.len() >= 2 {
        assert(key.take(2) =~= key.subrange(0, 2));
    }
}

/// Behind the line of a stream's attributes the next line that is not empty is
/// its address, and is read whatever it looks like. Empty lines do not count,
/// and any other line is read on its own.
pub proof fn addresses_may_look_like_anything(
    line: Seq<char>,
    address: Seq<char>,
    rest: Seq<Seq<char>>,
    count: nat,
)
    requires
        trimmed(address).len() > 0,
    ensures
        begins_with(trimmed(line), "#EXT-X-STREAM-INF:"@) ==> (readable_lines(
            seq![line, address] + rest,
            false,
            count,
        ) <==> readable_line(line, count) && readable_lines(rest, false, count)),
        trimmed(line).len() > 0 && !begins_with(trimmed(line), "#EXT-X-STREAM-INF:"@) ==> (
        readable_lines(seq![line] + rest, false, count) <==> readable_line(line, count)
            && readable_lines(rest, false, count)),
        trimmed(line).len() == 0 ==> readable_lines(seq![line] + rest, false, count)
            == readable_lines(rest, false, count),
        readable_lines(seq![], false, count),
{
    reveal_strlit("#EXT-X-STREAM-INF:");
    assert("#EXT-X-STREAM-INF:"@.len() == 18);
    let t = trimmed(line);
    if t.len() >= 18 {
        assert(t.take(18) =~= t.subrange(0, 18));
    }
    let two = seq![line, address] + rest;
    assert(two[0] == line);
    assert(two.skip(1) =~= seq![address] + rest);
    let one = seq![address] + rest;
    assert(one[0] == address);
    assert(one.skip(1) =~= rest);
    assert(readable_lines(one, true, count) == readable_lines(rest, false, count));
    let other = seq![line] + rest;
    assert(other[0] == line);
    assert(other.skip(1) =~= rest);
}

/// A playlist is read where each of its lines is, and a text that is no
/// playlist is refused by what reads it.
pub proof fn playlists_of_ordinary_lines_are_read(text: Seq<char>, rest: Seq<char>)
    ensures
        trimmed_start(text) == "#EXTM3U"@ + rest && (forall|i: int|
            0 <= i < lines(rest).len() ==> readable_line(
                #[trigger] lines(rest)[i],
                segment_count(lines(rest)),
            )) ==> readable(text),
        trimmed_start(text).len() < 7 ==> readable(text),
        trimmed_start(text).len() >= 7 && trimmed_start(text).take(7) != "#EXTM3U"@ ==> readable(
            text,
        ),
{
    reveal_strlit("#EXTM3U");
    assert("#EXTM3U"@.len() == 7);
    let t = trimmed_start(text);
    if t.len() >= 7 {
        assert(t.take(7) =~= t.subrange(0, 7));
    }
    if t == "#EXTM3U"@ + rest {
        assert(t.skip(7) =~= rest);
        if forall|i: int|
            0 <= i < lines(rest).len() ==> readable_line(
                #[trigger] lines(rest)[i],
                segment_count(lines(rest)),
            ) {
            lemma_readable_lines(lines(rest), false, segment_count(lines(rest)));
        }
    }
}

/// The segments of a playlist are the lines that are neither empty nor start
/// with a number sign.
pub proof fn segments_are_counted(all: Seq<Seq<char>>, line: Seq<char>)
    ensures
        segment_count(seq![]) == 0,
        segment_count(all.push(line)) == segment_count(all) + (if trimmed(line).len() > 0
            && trimmed(line)[0] != '#' {
            1nat
        } else {
            0
        }),
{
    assert(all.push(line).drop_last() == all);
}

/// Whether a text stands for a number, and is made of digits.
pub open spec fn is_number(text: Seq<char>, n: u64) -> bool {
    all_digits(text) && parsed_u64(text) == Some(n)
}

/// A length of time is hours, minutes, seconds, and thousandths of a second
/// where there is a point. It is read where its seconds can be counted exactly
/// in floating point numbers.
#[verifier::rlimit(40)]
pub proof fn clock_times_are_read(
    a: Seq<char>,
    b: Seq<char>,
    c: Seq<char>,
    h: u64,
    m: u64,
    s: u64,
)
    requires
        is_number(a, h),
        is_number(b, m),
        is_number(c, s),
        trimmed(a + ":"@ + b + ":"@ + c) == a + ":"@ + b + ":"@ + c,
    ensures
        fits_time(a + ":"@ + b + ":"@ + c) <==> h * 3600 + m * 60 + s <= 9_007_199_254_740_992,
{
    reveal_strlit(":");
    let t = a + ":"@ + b + ":"@ + c;
    assert(t =~= a + seq![':'] + (b + seq![':'] + c));
    lemma_clock(t, a, b, c);
    assert forall|j: int| 0 <= j < c.len() implies c[j] != ':' && c[j] != '.' by {
        assert(is_digit(c[j]));
    }
    lemma_until(c, ':', c.len());
    lemma_until(c, '.', c.len());
}

/// Thousandths of a second stand behind a point. They are read up to 4294, and
/// their whole seconds are counted with the others.
#[verifier::rlimit(40)]
pub proof fn clock_times_with_thousandths_are_read(
    a: Seq<char>,
    b: Seq<char>,
    c: Seq<char>,
    d: Seq<char>,
    h: u64,
    m: u64,
    s: u64,
    ms: u64,
)
    requires
        is_number(a, h),
        is_number(b, m),
        is_number(c, s),
        is_number(d, ms),
        ms <= 4294,
        trimmed(a + ":"@ + b + ":"@ + c + "."@ + d) == a + ":"@ + b + ":"@ + c + "."@ + d,
    ensures
        fits_time(a + ":"@ + b + ":"@ + c + "."@ + d) <==> h * 3600 + m * 60 + s + ms / 1000
            <= 9_007_199_254_740_992,
{
    reveal_strlit(":");
    reveal_strlit(".");
    let t = a + ":"@ + b + ":"@ + c + "."@ + d;
    let rest = c + "."@ + d;
    assert(t =~= a + seq![':'] + (b + seq![':'] + rest));
    lemma_clock(t, a, b, rest);
    assert(rest =~= c + seq!['.'] + d);
    lemma_split(rest, c, '.', d);
    assert forall|j: int| 0 <= j < rest.len() implies rest[j] != ':' by {
        if j < c.len() {
            assert(rest[j] == c[j]);
            assert(is_digit(c[j]));
        } else if j > c.len() {
            assert(rest[j] == d[j - c.len() - 1]);
            assert(is_digit(d[j - c.len() - 1]));
        }
    }
    lemma_until(rest, ':', rest.len());
}

proof fn lemma_clock(t: Seq<char>, a: Seq<char>, b: Seq<char>, rest: Seq<char>)
    requires
        all_digits(a),
        all_digits(b),
        t == a + seq![':'] + (b + seq![':'] + rest),
    ensures
        until(t, ':') == a.len(),
        a.len() < t.len(),
        t.take(a.len() as int) == a,
        ({
            let after = t.skip(a.len() as int + 1);
            &&& until(after, ':') == b.len()
            &&& b.len() < after.len()
            &&& after.take(b.len() as int) == b
            &&& after.skip(b.len() as int + 1) == rest
        }),
{
    lemma_split(t, a, ':', b + seq![':'] + rest);
    lemma_split(b + seq![':'] + rest, b, ':', rest);
}

proof fn lemma_split(t: Seq<char>, head: Seq<char>, mark: char, rest: Seq<char>)
    requires
        all_digits(head),
        !is_digit(mark),
    ensures
        t == head + seq![mark] + rest ==> until(t, mark) == head.len() && t.take(
            head.len() as int,
        ) == head && t.skip(head.len() as int + 1) == rest && head.len() < t.len(),
{
    let full = head + seq![mark] + rest;
    assert forall|j: int| 0 <= j < head.len() implies full[j] != mark by {
        assert(full[j] == head[j]);
        assert(is_digit(head[j]));
    }
    assert(full[head.len() as int] == mark);
    lemma_until(full, mark, head.len());
    assert(full.take(head.len() as int) =~= head);
    assert(full.skip(head.len() as int + 1) =~= rest);
}

/// A text with a named character in it is no length of time. One with a
/// character that is written as a number may be one of up to three digits.
pub proof fn times_with_other_characters_are_read(s: Seq<char>)
    requires
        s.contains('&'),
    ensures
        !has_part(s, "&#"@) ==> short_time(s),
        has_part(s, "&#"@) ==> (short_time(s) <==> digits(s) <= 3),
{
    lemma_until_bound(s, '&');
    let k = choose|k: int| 0 <= k < s.len() && s[k] == '&';
    if until(s, '&') >= s.len() {
        assert(s[k] != '&');
    }
}

/// The digits of a text are counted.
pub proof fn digits_are_counted(s: Seq<char>, c: char)
    ensures
        digits(seq![]) == 0,
        digits(s.push(c)) == digits(s) + (if '0' <= c && c <= '9' {
            1nat
        } else {
            0
        }),
{
    assert(s.push(c).drop_last() == s);
}

/// The value of an attribute stands between two quotes of one kind.
pub proof fn attributes_of_documents_are_read(value: Seq<char>, quote: char, rest: Seq<char>)
    requires
        quote == '"' || quote == '\'',
        !value.contains(quote),
    ensures
        attribute_value(seq!['=', quote] + value + seq![quote] + rest) == Some(value),
{
    let s = seq!['=', quote] + value + seq![quote] + rest;
    assert(trimmed_start(s) == s);
    let shown = s.skip(1);
    assert(shown[0] == quote);
    assert(trimmed_start(shown) == shown);
    let tail = shown.skip(1);
    assert(tail =~= value + seq![quote] + rest);
    assert forall|j: int| 0 <= j < value.len() implies tail[j] != quote by {
        assert(tail[j] == value[j]);
        assert(value.contains(value[j]));
    }
    assert(tail[value.len() as int] == quote);
    lemma_until(tail, quote, value.len());
    assert(tail.take(value.len() as int) =~= value);
}

/// A length of time that is the value of an attribute is read where it can be
/// counted.
pub proof fn ordinary_offsets_are_read(
    xml: Seq<char>,
    tag: Seq<char>,
    name: Seq<char>,
    at: int,
    value: Seq<char>,
    quote: char,
    rest: Seq<char>,
)
    requires
        xml.skip(at + name.len()) == seq!['=', quote] + value + seq![quote] + rest,
        quote == '"' || quote == '\'',
        !value.contains(quote),
        !value.contains('&'),
        fits_time(value),
    ensures
        short_attribute(xml, tag, name, at),
{
    attributes_of_documents_are_read(value, quote, rest);
    assert forall|j: int| 0 <= j < value.len() implies value[j] != '&' by {
        assert(value.contains(value[j]));
    }
    lemma_until(value, '&', value.len());
}

/// A document without lengths of time has none that is too long.
pub proof fn documents_without_times_are_read(xml: Seq<char>)
    requires
        !has_part(xml, "<Duration"@),
        !has_part(xml, "skipoffset"@),
        !has_part(xml, "offset"@),
        !has_part(xml, "duration"@),
        !has_part(xml, "minSuggestedDuration"@),
    ensures
        short_times(xml),
{
    assert forall|at: int| 0 <= at < xml.len() implies #[trigger] short_times_at(xml, at) by {
        assert(!occurs_at(xml, "<Duration"@, at));
        assert(!occurs_at(xml, "skipoffset"@, at));
        assert(!occurs_at(xml, "offset"@, at));
        assert(!occurs_at(xml, "duration"@, at));
        assert(!occurs_at(xml, "minSuggestedDuration"@, at));
    }
}

proof fn lemma_until_end_tag(s: Seq<char>, more: Seq<char>)
    requires
        forall|i: int| 0 <= i < s.len() ==> #[trigger] s[i] != '<',
    ensures
        until_end_tag(s + "</"@ + more) == s.len(),
    decreases s.len(),
{
    reveal_strlit("</");
    assert("</"@.len() == 2);
    let full = s + "</"@ + more;
    if s.len() == 0 {
        assert(full.subrange(0, 2) =~= "</"@);
    } else {
        assert(s[0] != '<');
        if occurs_at(full, "</"@, 0) {
            assert(full.subrange(0, 2)[0] == '<');
            assert(full[0] == s[0]);
        }
        assert(full.skip(1) =~= s.skip(1) + "</"@ + more);
        lemma_until_end_tag(s.skip(1), more);
    }
}

/// The length of an ad is read where it is one of hours, minutes and seconds
/// that can be counted.
pub proof fn ordinary_lengths_of_ads_are_read(
    xml: Seq<char>,
    at: int,
    time: Seq<char>,
    more: Seq<char>,
)
    requires
        0 <= at,
        at + 9 <= xml.len(),
        xml.skip(at + 9) == ">"@ + time + "</"@ + more,
        forall|i: int|
            0 <= i < time.len() ==> #[trigger] time[i] != '<' && time[i] != '>' && time[i] != '&',
        trimmed(time) == time,
        fits_time(time),
    ensures
        short_element(xml, at),
{
    reveal_strlit(">");
    let rest = xml.skip(at + 9);
    let shown = ">"@ + time;
    assert(shown[0] == '>');
    assert forall|i: int| 0 <= i < shown.len() implies #[trigger] shown[i] != '<' by {
        if i > 0 {
            assert(shown[i] == time[i - 1]);
        }
    }
    lemma_until_end_tag(shown, more);
    assert(rest.take(shown.len() as int) =~= shown);
    assert(trimmed_start(shown) == shown);
    assert(shown.skip(1) =~= time);
    reveal_strlit("<![CDATA[");
    assert("<![CDATA["@.len() == 9);
    if has_prefix(time, "<![CDATA["@) {
        assert(time.subrange(0, 9)[0] == '<');
        assert(time[0] == '<');
    }
    lemma_until(time, '<', time.len());
    lemma_until(time, '>', time.len());
    lemma_until(time, '&', time.len());
    assert(short_content(shown));
}

} // verus!
