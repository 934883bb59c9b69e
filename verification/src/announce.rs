//! Every interstitial that is put into a playlist is announced: its preload
//! hint stands on the line directly before it.

use vstd::prelude::*;

use crate::config::{is_label_char, skip_control, valid_label, ServerConfig};
use crate::hls::{attribute_text, date_range_line, holds_range, is_client_key, is_plain,
    is_plain_option, joined_fields, optional_field, precedes, quoted, AttributeView,
    DateRangeView, MediaView, EXACT_NUMBER, LONGEST_SEGMENT};
use crate::interstitials::{asset_list_url, interstitial};
use crate::media::is_printed;
use crate::numbers::{all_digits, lemma_magnitude, lemma_only_digits, lower, safe_seconds, tens,
    without_sign, TOO_MANY_SECONDS};
use crate::preload::{attribute, hints, lines_are_kept, preload, preload_line, with_preloads};
use crate::readable::{readable_line, safe_attribute, safe_attributes, value_length};
use crate::slots::AdSlot;
use crate::text::{decimal, digits_value, has_part, has_prefix, is_digit, is_space,
    lemma_decimal_digits, lemma_decimal_length, lemma_until, lemma_until_bound, lines, occurs_at,
    trimmed, trimmed_start, until, without_return};

verus! {

proof fn lemma_trimmed_same(s: Seq<char>)
    requires
        s.len() > 0,
        !is_space(s[0]),
        !is_space(s.last()),
    ensures
        trimmed(s) == s,
        trimmed_start(s) == s,
{
}

/// A value between quotes ends where the quotes do.
proof fn lemma_quoted_length(t: Seq<char>, tail: Seq<char>)
    requires
        is_plain(t),
        tail.len() == 0 || tail[0] == ',',
    ensures
        value_length(t + seq!['"'] + tail, true) == t.len() + 1,
    decreases t.len(),
{
    let s = t + seq!['"'] + tail;
    if t.len() == 0 {
        assert(s[0] == '"');
        assert(s.skip(1) =~= tail);
        assert(value_length(tail, false) == 0);
    } else {
        assert(s[0] == t[0]);
        assert(t[0] != '"');
        assert(s.skip(1) =~= t.skip(1) + seq!['"'] + tail);
        assert forall|i: int| 0 <= i < t.skip(1).len() implies #[trigger] t.skip(1)[i] != '"'
            && t.skip(1)[i] != '\n' && t.skip(1)[i] != '\r' by {
            assert(t.skip(1)[i] == t[i + 1]);
        }
        lemma_quoted_length(t.skip(1), tail);
    }
}

proof fn lemma_digits_length(d: Seq<char>, tail: Seq<char>)
    requires
        forall|i: int| 0 <= i < d.len() ==> is_digit(#[trigger] d[i]),
        tail.len() == 0 || tail[0] == ',',
    ensures
        value_length(d + tail, false) == d.len(),
    decreases d.len(),
{
    let s = d + tail;
    if d.len() > 0 {
        assert(s[0] == d[0]);
        assert(is_digit(d[0]));
        assert(s.skip(1) =~= d.skip(1) + tail);
        assert forall|i: int| 0 <= i < d.skip(1).len() implies is_digit(
            #[trigger] d.skip(1)[i],
        ) by {
            assert(d.skip(1)[i] == d[i + 1]);
        }
        lemma_digits_length(d.skip(1), tail);
    } else {
        assert(s =~= tail);
    }
}

/// A value that is a quoted text, or a number.
spec fn is_value(v: Seq<char>) -> bool {
    ||| exists|t: Seq<char>| is_plain(t) && v == #[trigger] quoted(t)
    ||| v.len() > 0 && forall|i: int| 0 <= i < v.len() ==> is_digit(#[trigger] v[i])
}

spec fn is_field(f: (Seq<char>, Seq<char>)) -> bool {
    &&& f.0.len() > 0 && !is_space(f.0[0]) && !is_space(f.0.last())
    &&& forall|i: int| 0 <= i < f.0.len() ==> #[trigger] f.0[i] != '='
    &&& f.0 == "DURATION"@ || f.0 == "PLANNED-DURATION"@ ==> f.1.len() <= 19 && forall|i: int|
        0 <= i < f.1.len() ==> is_digit(#[trigger] f.1[i])
    &&& is_value(f.1)
}

proof fn lemma_value(v: Seq<char>, tail: Seq<char>)
    requires
        is_value(v),
        tail.len() == 0 || tail[0] == ',',
    ensures
        value_length(v + tail, false) == v.len(),
        trimmed(v) == v,
        v != seq!['"'],
        v.len() > 0,
{
    if exists|t: Seq<char>| is_plain(t) && v == #[trigger] quoted(t) {
        let t = choose|t: Seq<char>| is_plain(t) && v == #[trigger] quoted(t);
        let s = v + tail;
        assert(s[0] == '"');
        assert(s.skip(1) =~= t + seq!['"'] + tail);
        lemma_quoted_length(t, tail);
        lemma_trimmed_same(v);
        assert(v.len() == t.len() + 2);
    } else {
        lemma_digits_length(v, tail);
        assert(is_digit(v[0]));
        assert(is_digit(v[v.len() - 1]));
        lemma_trimmed_same(v);
    }
}

proof fn lemma_digits_are_safe(d: Seq<char>)
    requires
        0 < d.len() <= 19,
        all_digits(d),
    ensures
        safe_seconds(d),
{
    assert(is_digit(d[0]));
    assert(without_sign(d) == d);
    lemma_only_digits(d);
    let rest = d.skip(d.len() as int);
    assert(rest =~= Seq::<char>::empty());
    assert(rest.skip(0) =~= rest);
    assert(d.take(d.len() as int) + rest.take(0) =~= d);
    lemma_magnitude(d);
    lemma_nineteen_digits(d.len());
    reveal_strlit("inf");
    reveal_strlit("infinity");
    reveal_strlit("nan");
    assert(d.map_values(|c: char| lower(c))[0] == d[0]);
    assert(digits_value(d) * tens(0) == digits_value(d));
}

proof fn lemma_nineteen_digits(n: nat)
    requires
        n <= 19,
    ensures
        tens(n) <= tens(19) < TOO_MANY_SECONDS,
        tens(0) == 1,
{
    vstd::arithmetic::power::lemma_pow_increases(10, n, 19);
    vstd::arithmetic::power::lemma_pow0(10);
    vstd::arithmetic::power::lemma_pow_positive(10, n);
    assert(vstd::arithmetic::power::pow(10, 19) == 10_000_000_000_000_000_000) by {
        reveal(vstd::arithmetic::power::pow);
        reveal_with_fuel(vstd::arithmetic::power::pow, 20);
    }
}

proof fn lemma_fields_are_safe(fields: Seq<(Seq<char>, Seq<char>)>)
    requires
        forall|i: int| 0 <= i < fields.len() ==> is_field(#[trigger] fields[i]),
    ensures
        safe_attributes("#EXT-X-DATERANGE"@, joined_fields(fields)),
    decreases fields.len(),
{
    let s = joined_fields(fields);
    if fields.len() > 0 {
        let (key, value) = fields[0];
        let more = fields.skip(1);
        assert(is_field(fields[0]));
        reveal_strlit("=");
        reveal_strlit(",");
        assert("="@ =~= seq!['=']);
        assert(","@ =~= seq![',']);
        let tail = if fields.len() == 1 {
            Seq::<char>::empty()
        } else {
            seq![','] + joined_fields(more)
        };
        assert(s =~= key + seq!['='] + value + tail);
        lemma_value(value, tail);
        assert forall|j: int| 0 <= j < key.len() implies s[j] != '=' by {
            assert(s[j] == key[j]);
        }
        lemma_until(s, '=', key.len());
        let rest = s.skip(key.len() as int + 1);
        assert(rest =~= value + tail);
        assert(rest.take(value.len() as int) =~= value);
        assert(s.take(key.len() as int) =~= key);
        lemma_trimmed_same(key);
        if key == "DURATION"@ || key == "PLANNED-DURATION"@ {
            lemma_digits_are_safe(value);
        }
        reveal_strlit("#EXT-X-DATERANGE");
        reveal_strlit("#EXT-X-MAP");
        assert("#EXT-X-DATERANGE"@.len() == 16);
        assert("#EXT-X-MAP"@.len() == 10);
        assert(safe_attribute("#EXT-X-DATERANGE"@, key, value));
        if fields.len() > 1 {
            assert(rest.skip(value.len() as int + 1) =~= joined_fields(more));
            assert forall|i: int| 0 <= i < more.len() implies is_field(#[trigger] more[i]) by {
                assert(more[i] == fields[i + 1]);
            }
            lemma_fields_are_safe(more);
        }
    }
}

proof fn lemma_seconds_length(n: nat)
    requires
        n <= LONGEST_SEGMENT,
    ensures
        decimal(n).len() <= 19,
{
    assert(vstd::arithmetic::power::pow(10, 19) > LONGEST_SEGMENT) by {
        reveal(vstd::arithmetic::power::pow);
        reveal_with_fuel(vstd::arithmetic::power::pow, 20);
    }
    lemma_decimal_length(n, 19);
}

proof fn lemma_number_is_value(n: nat)
    ensures
        is_value(decimal(n)),
{
    lemma_decimal_digits(n);
}

proof fn lemma_quoted_is_value(s: Seq<char>)
    requires
        is_plain(s),
    ensures
        is_value(quoted(s)),
{
}

/// The fields of plain contents are fields that can be read.
proof fn lemma_plain_fields(c: DateRangeView)
    requires
        c.plain(),
    ensures
        forall|i: int| 0 <= i < c.fields().len() ==> is_field(#[trigger] c.fields()[i]),
{
    reveal_strlit("ID");
    reveal_strlit("CLASS");
    reveal_strlit("START-DATE");
    reveal_strlit("DURATION");
    reveal_strlit("PLANNED-DURATION");
    reveal_strlit("BYTERANGE");
    reveal_strlit("X-");
    assert("ID"@.len() == 2);
    assert("CLASS"@.len() == 5);
    assert("START-DATE"@.len() == 10);
    assert("DURATION"@.len() == 8);
    assert("PLANNED-DURATION"@.len() == 16);
    assert("BYTERANGE"@.len() == 9);
    assert("X-"@.len() == 2);
    assert("X-"@[0] == 'X');
    assert("DURATION"@[0] == 'D');
    assert("PLANNED-DURATION"@[0] == 'P');
    assert("BYTERANGE"@[0] == 'B');
    let f0 = seq![("ID"@, quoted(c.id))];
    let f1 = optional_field("CLASS"@, c.class);
    let f2 = optional_field("START-DATE"@, c.start_date);
    let f3 = match c.duration {
        Some(d) => seq![("DURATION"@, decimal(d.secs as nat))],
        None => Seq::<(Seq<char>, Seq<char>)>::empty(),
    };
    let f4 = c.attributes.map_values(
        |a: (Seq<char>, AttributeView)| (a.0, attribute_text(a.1)),
    );
    assert(c.fields() =~= f0 + f1 + f2 + f3 + f4);
    assert forall|i: int| 0 <= i < f0.len() implies is_field(#[trigger] f0[i]) by {
        lemma_quoted_is_value(c.id);
    }
    assert forall|i: int| 0 <= i < f1.len() implies is_field(#[trigger] f1[i]) by {
        lemma_quoted_is_value(c.class->0);
    }
    assert forall|i: int| 0 <= i < f2.len() implies is_field(#[trigger] f2[i]) by {
        lemma_quoted_is_value(c.start_date->0);
    }
    assert forall|i: int| 0 <= i < f3.len() implies is_field(#[trigger] f3[i]) by {
        let d = c.duration->0;
        lemma_number_is_value(d.secs as nat);
        lemma_decimal_digits(d.secs as nat);
        lemma_seconds_length(d.secs as nat);
    }
    assert forall|i: int| 0 <= i < f4.len() implies is_field(#[trigger] f4[i]) by {
        let (key, value) = c.attributes[i];
        assert(is_client_key(c.attributes[i].0));
        assert(key.subrange(0, 2)[0] == key[0]);
        assert(key[0] == 'X');
        let last = key[key.len() - 1];
        match value {
            AttributeView::Text(s) => lemma_quoted_is_value(s),
            AttributeView::Number(n) => lemma_number_is_value(n as nat),
            AttributeView::Other => {},
        }
    }
    assert forall|i: int| 0 <= i < c.fields().len() implies is_field(
        #[trigger] c.fields()[i],
    ) by {
        let n1 = f0.len() + f1.len();
        let n2 = n1 + f2.len();
        let n3 = n2 + f3.len();
        if i < f0.len() {
            assert(c.fields()[i] == f0[i]);
        } else if i < n1 {
            assert(c.fields()[i] == f1[i - f0.len()]);
        } else if i < n2 {
            assert(c.fields()[i] == f2[i - n1]);
        } else if i < n3 {
            assert(c.fields()[i] == f3[i - n2]);
        } else {
            assert(c.fields()[i] == f4[i - n3]);
        }
    }
}

/// The line of plain contents can be read.
proof fn lemma_plain_line_is_readable(c: DateRangeView)
    requires
        c.plain(),
    ensures
        readable_line(c.plain_line(), 0),
        trimmed_start(c.plain_line()) == c.plain_line(),
        has_prefix(c.plain_line(), "#EXT-X-DATERANGE:"@),
{
    let line = c.plain_line();
    let fields = c.fields();
    let body = joined_fields(fields);
    lemma_plain_fields(c);
    lemma_fields_are_safe(fields);
    lemma_ends_in_value(fields);
    reveal_strlit("#EXT-X-DATERANGE:");
    reveal_strlit("#EXT-X-DATERANGE");
    reveal_strlit("#EXTINF");
    reveal_strlit("#EXT-X-BYTERANGE");
    reveal_strlit("#EXT-X-MEDIA-SEQUENCE");
    let prefix = "#EXT-X-DATERANGE:"@;
    assert(prefix.len() == 17);
    assert(line[0] == '#');
    assert(line.last() == body.last());
    lemma_trimmed_same(line);
    assert forall|j: int| 0 <= j < 16 implies line[j] != ':' by {
        assert(line[j] == prefix[j]);
    }
    assert(line[16] == prefix[16]);
    lemma_until(line, ':', 16);
    let tag = line.take(16);
    assert(tag.len() == 16);
    assert(tag[7] == prefix[7]);
    assert("#EXTINF"@.len() == 7);
    assert("#EXT-X-BYTERANGE"@[7] == 'B');
    assert("#EXT-X-MEDIA-SEQUENCE"@.len() == 21);
    assert(line.subrange(0, 17) =~= prefix);
    assert("#EXT-X-DATERANGE"@.len() == 16);
    assert(tag =~= "#EXT-X-DATERANGE"@) by {
        assert forall|j: int| 0 <= j < 16 implies tag[j] == "#EXT-X-DATERANGE"@[j] by {
            assert(tag[j] == prefix[j]);
        }
    }
    assert(line.skip(17) =~= body);
}

proof fn lemma_ends_in_value(fields: Seq<(Seq<char>, Seq<char>)>)
    requires
        fields.len() > 0,
        forall|i: int| 0 <= i < fields.len() ==> is_field(#[trigger] fields[i]),
    ensures
        joined_fields(fields).len() > 0,
        !is_space(joined_fields(fields).last()),
        joined_fields(fields).last() != '\r',
    decreases fields.len(),
{
    let s = joined_fields(fields);
    let (key, value) = fields[0];
    assert(is_field(fields[0]));
    lemma_value(value, Seq::empty());
    if fields.len() == 1 {
        assert(s.last() == value.last());
        if exists|t: Seq<char>| is_plain(t) && value == #[trigger] quoted(t) {
            let t = choose|t: Seq<char>| is_plain(t) && value == #[trigger] quoted(t);
            assert(value.last() == '"');
        } else {
            assert(is_digit(value[value.len() - 1]));
        }
    } else {
        let more = fields.skip(1);
        assert forall|i: int| 0 <= i < more.len() implies is_field(#[trigger] more[i]) by {
            assert(more[i] == fields[i + 1]);
        }
        lemma_ends_in_value(more);
        assert(s.last() == joined_fields(more).last());
    }
}

/// Fields without line ends make a line without line ends.
proof fn lemma_no_line_end(fields: Seq<(Seq<char>, Seq<char>)>)
    requires
        forall|i: int|
            0 <= i < fields.len() ==> !(#[trigger] fields[i]).0.contains('\n')
                && !fields[i].1.contains('\n'),
    ensures
        !joined_fields(fields).contains('\n'),
    decreases fields.len(),
{
    if fields.len() > 0 {
        let s = joined_fields(fields);
        let (key, value) = fields[0];
        let more = fields.skip(1);
        assert forall|i: int| 0 <= i < more.len() implies !(#[trigger] more[i]).0.contains('\n')
            && !more[i].1.contains('\n') by {
            assert(more[i] == fields[i + 1]);
        }
        lemma_no_line_end(more);
        reveal_strlit("=");
        reveal_strlit(",");
        let first = key + "="@ + value;
        assert(!fields[0].0.contains('\n') && !fields[0].1.contains('\n'));
        assert forall|i: int| 0 <= i < first.len() implies first[i] != '\n' by {
            if i < key.len() {
                assert(first[i] == key[i]);
            } else if i == key.len() {
                assert(first[i] == "="@[0]);
            } else {
                assert(first[i] == value[i - key.len() - 1]);
            }
        }
        if fields.len() > 1 {
            let rest = joined_fields(more);
            assert forall|i: int| 0 <= i < s.len() implies s[i] != '\n' by {
                if i < first.len() {
                    assert(s[i] == first[i]);
                } else if i == first.len() {
                    assert(s[i] == ","@[0]);
                } else {
                    assert(s[i] == rest[i - first.len() - 1]);
                }
            }
        } else {
            assert(s =~= first);
        }
    }
}

proof fn lemma_value_has_no_line_end(v: Seq<char>)
    requires
        is_value(v),
    ensures
        !v.contains('\n'),
{
    if exists|t: Seq<char>| is_plain(t) && v == #[trigger] quoted(t) {
        let t = choose|t: Seq<char>| is_plain(t) && v == #[trigger] quoted(t);
        assert forall|i: int| 0 <= i < v.len() implies v[i] != '\n' by {
            if 0 < i < v.len() - 1 {
                assert(v[i] == t[i - 1]);
            }
        }
    } else {
        assert forall|i: int| 0 <= i < v.len() implies v[i] != '\n' by {
            assert(is_digit(v[i]));
        }
    }
}

proof fn lemma_plain_line_is_one_line(c: DateRangeView)
    requires
        c.plain(),
    ensures
        !c.plain_line().contains('\n'),
        c.plain_line().len() > 0,
        c.plain_line().last() != '\r',
{
    let fields = c.fields();
    let line = c.plain_line();
    let prefix = "#EXT-X-DATERANGE:"@;
    let body = joined_fields(fields);
    lemma_plain_fields(c);
    lemma_ends_in_value(fields);
    reveal_strlit("ID");
    reveal_strlit("CLASS");
    reveal_strlit("START-DATE");
    reveal_strlit("DURATION");
    assert forall|i: int| 0 <= i < fields.len() implies !(#[trigger] fields[i]).0.contains('\n')
        && !fields[i].1.contains('\n') by {
        assert(is_field(fields[i]));
        lemma_value_has_no_line_end(fields[i].1);
        lemma_keys_have_no_line_end(c, i);
    }
    lemma_no_line_end(fields);
    reveal_strlit("#EXT-X-DATERANGE:");
    assert forall|i: int| 0 <= i < line.len() implies line[i] != '\n' by {
        if i < prefix.len() {
            assert(line[i] == prefix[i]);
        } else {
            assert(line[i] == body[i - prefix.len()]);
        }
    }
    assert(line.last() == body.last());
}

proof fn lemma_keys_have_no_line_end(c: DateRangeView, i: int)
    requires
        c.plain(),
        0 <= i < c.fields().len(),
    ensures
        !c.fields()[i].0.contains('\n'),
{
    reveal_strlit("ID");
    reveal_strlit("CLASS");
    reveal_strlit("START-DATE");
    reveal_strlit("DURATION");
    let fields = c.fields();
    let n = fields.len() - c.attributes.len();
    let key = fields[i].0;
    if i >= n {
        assert(key == c.attributes[i - n].0);
        assert(is_client_key(c.attributes[i - n].0));
        assert forall|k: int| 0 <= k < key.len() implies key[k] != '\n' by {}
    } else {
        assert(key == "ID"@ || key == "CLASS"@ || key == "START-DATE"@ || key == "DURATION"@);
        assert forall|k: int| 0 <= k < key.len() implies key[k] != '\n' by {}
    }
}

/// A line of its own is one of the lines of a text.
proof fn lemma_own_line(s: Seq<char>, line: Seq<char>)
    requires
        has_part(s, seq!['\n'] + line + seq!['\n']),
        !line.contains('\n'),
        line.len() > 0,
        line.last() != '\r',
    ensures
        lines(s).contains(line),
    decreases s.len(),
{
    let part = seq!['\n'] + line + seq!['\n'];
    let at = choose|at: int| occurs_at(s, part, at);
    let here = s.subrange(at, at + part.len());
    assert(here == part);
    assert(s[at] == here[0]);
    lemma_until_bound(s, '\n');
    let end = until(s, '\n') as int;
    assert(end <= at) by {
        if at < end {
            assert(s[at] != '\n');
        }
    }
    let rest = s.skip(end + 1);
    let all = lines(s);
    assert(all == seq![without_return(s.take(end))] + lines(rest));
    if end == at {
        assert forall|j: int| 0 <= j < line.len() implies rest[j] != '\n' by {
            assert(rest[j] == here[j + 1]);
            assert(here[j + 1] == line[j]);
            assert(line.contains(line[j]));
        }
        assert(rest[line.len() as int] == here[line.len() as int + 1]);
        lemma_until(rest, '\n', line.len());
        assert(rest.take(line.len() as int) =~= line) by {
            assert forall|j: int| 0 <= j < line.len() implies rest[j] == line[j] by {
                assert(rest[j] == here[j + 1]);
            }
        }
        assert(without_return(line) == line);
        assert(lines(rest)[0] == line);
        assert(all[1] == line);
    } else {
        let shifted = at - end - 1;
        assert(rest.subrange(shifted, shifted + part.len()) =~= here);
        assert(occurs_at(rest, part, shifted));
        lemma_own_line(rest, line);
        let k = choose|k: int| 0 <= k < lines(rest).len() && lines(rest)[k] == line;
        assert(all[k + 1] == line);
    }
}

proof fn lemma_class_part(c: DateRangeView)
    requires
        c.class == Some("com.apple.hls.interstitial"@),
    ensures
        has_part(c.plain_line(), "CLASS=\"com.apple.hls.interstitial\""@),
{
    let class = "com.apple.hls.interstitial"@;
    let wanted = "CLASS=\"com.apple.hls.interstitial\""@;
    let fields = c.fields();
    let more = fields.skip(1);
    let prefix = "#EXT-X-DATERANGE:"@;
    let line = c.plain_line();
    reveal_strlit("com.apple.hls.interstitial");
    reveal_strlit("CLASS=\"com.apple.hls.interstitial\"");
    reveal_strlit("CLASS");
    reveal_strlit("=");
    reveal_strlit(",");
    let part = "CLASS"@ + "="@ + quoted(class);
    assert(part =~= wanted);
    assert(fields[1] == ("CLASS"@, quoted(class)));
    assert(more[0] == fields[1]);
    let first = fields[0].0 + "="@ + fields[0].1;
    let body = joined_fields(fields);
    let rest = joined_fields(more);
    assert(body == first + ","@ + rest);
    assert(rest.len() >= part.len() && rest.subrange(0, part.len() as int) =~= part) by {
        if more.len() == 1 {
            assert(rest == part);
        } else {
            assert(rest == part + ","@ + joined_fields(more.skip(1)));
        }
    }
    let at = (prefix.len() + first.len() + 1) as int;
    assert(line.subrange(at, at + part.len()) =~= rest.subrange(0, part.len() as int));
    assert(occurs_at(line, wanted, at));
}

proof fn lemma_precedes(a: Seq<char>, b: Seq<char>, p: int)
    requires
        0 <= p < a.len(),
        p < b.len(),
        forall|i: int| 0 <= i < p ==> a[i] == b[i],
        (a[p] as u32) < (b[p] as u32),
    ensures
        precedes(a, b),
{
    assert(a.take(p) =~= b.take(p));
}

/// The names of an interstitial's attributes are in order.
proof fn lemma_names_in_order()
    ensures
        precedes("X-ASSET-LIST"@, "X-RESTRICT"@),
        precedes("X-RESTRICT"@, "X-RESUME-OFFSET"@),
        precedes("X-RESUME-OFFSET"@, "X-SNAP"@),
        precedes("X-RESUME-OFFSET"@, "X-SKIP-CONTROL-DURATION"@),
        precedes("X-RESUME-OFFSET"@, "X-SKIP-CONTROL-LABEL-ID"@),
        precedes("X-RESUME-OFFSET"@, "X-SKIP-CONTROL-OFFSET"@),
        precedes("X-SKIP-CONTROL-DURATION"@, "X-SKIP-CONTROL-LABEL-ID"@),
        precedes("X-SKIP-CONTROL-DURATION"@, "X-SKIP-CONTROL-OFFSET"@),
        precedes("X-SKIP-CONTROL-LABEL-ID"@, "X-SKIP-CONTROL-OFFSET"@),
        precedes("X-SKIP-CONTROL-OFFSET"@, "X-SNAP"@),
        is_client_key("X-ASSET-LIST"@),
        is_client_key("X-RESTRICT"@),
        is_client_key("X-RESUME-OFFSET"@),
        is_client_key("X-SKIP-CONTROL-DURATION"@),
        is_client_key("X-SKIP-CONTROL-LABEL-ID"@),
        is_client_key("X-SKIP-CONTROL-OFFSET"@),
        is_client_key("X-SNAP"@),
{
    reveal_strlit("X-");
    reveal_strlit("X-ASSET-LIST");
    reveal_strlit("X-RESTRICT");
    reveal_strlit("X-RESUME-OFFSET");
    reveal_strlit("X-SKIP-CONTROL-DURATION");
    reveal_strlit("X-SKIP-CONTROL-LABEL-ID");
    reveal_strlit("X-SKIP-CONTROL-OFFSET");
    reveal_strlit("X-SNAP");
    lemma_precedes("X-ASSET-LIST"@, "X-RESTRICT"@, 2);
    lemma_precedes("X-RESTRICT"@, "X-RESUME-OFFSET"@, 5);
    lemma_precedes("X-RESUME-OFFSET"@, "X-SNAP"@, 2);
    lemma_precedes("X-RESUME-OFFSET"@, "X-SKIP-CONTROL-DURATION"@, 2);
    lemma_precedes("X-RESUME-OFFSET"@, "X-SKIP-CONTROL-LABEL-ID"@, 2);
    lemma_precedes("X-RESUME-OFFSET"@, "X-SKIP-CONTROL-OFFSET"@, 2);
    lemma_precedes("X-SKIP-CONTROL-DURATION"@, "X-SKIP-CONTROL-LABEL-ID"@, 15);
    lemma_precedes("X-SKIP-CONTROL-DURATION"@, "X-SKIP-CONTROL-OFFSET"@, 15);
    lemma_precedes("X-SKIP-CONTROL-LABEL-ID"@, "X-SKIP-CONTROL-OFFSET"@, 15);
    lemma_precedes("X-SKIP-CONTROL-OFFSET"@, "X-SNAP"@, 3);
    assert("X-ASSET-LIST"@.subrange(0, 2) =~= "X-"@);
    assert("X-RESTRICT"@.subrange(0, 2) =~= "X-"@);
    assert("X-RESUME-OFFSET"@.subrange(0, 2) =~= "X-"@);
    assert("X-SKIP-CONTROL-DURATION"@.subrange(0, 2) =~= "X-"@);
    assert("X-SKIP-CONTROL-LABEL-ID"@.subrange(0, 2) =~= "X-"@);
    assert("X-SKIP-CONTROL-OFFSET"@.subrange(0, 2) =~= "X-"@);
    assert("X-SNAP"@.subrange(0, 2) =~= "X-"@);
}

/// Whether the numbers of an interstitial are exact in floating point.
pub open spec fn has_exact_numbers(config: ServerConfig, slot: AdSlot) -> bool {
    &&& slot.duration <= EXACT_NUMBER
    &&& skip_control(config, slot.duration) matches Some(skip) ==> skip.duration matches Some(n)
        ==> n <= EXACT_NUMBER
}

proof fn lemma_plain_parts(config: ServerConfig, slot: AdSlot)
    requires
        is_plain(config.interstitials_address@),
    ensures
        is_plain(slot.spec_name()),
        is_plain(asset_list_url(config.interstitials_address@, slot.spec_name())),
        is_plain("com.apple.hls.interstitial"@),
        is_plain("JUMP"@),
        is_plain("SKIP,JUMP"@),
        is_plain("IN"@),
        is_plain("IN,OUT"@),
{
    reveal_strlit("ad_slot");
    reveal_strlit("interstitials.m3u8?_HLS_interstitial_id=");
    reveal_strlit("com.apple.hls.interstitial");
    reveal_strlit("JUMP");
    reveal_strlit("SKIP,JUMP");
    reveal_strlit("IN");
    reveal_strlit("IN,OUT");
    let number = decimal(slot.index as nat);
    lemma_decimal_digits(slot.index as nat);
    let name = slot.spec_name();
    assert forall|i: int| 0 <= i < name.len() implies #[trigger] name[i] != '"' && name[i] != '\n'
        && name[i] != '\r' by {
        if i < "ad_slot"@.len() {
            assert(name[i] == "ad_slot"@[i]);
        } else {
            assert(is_digit(number[i - "ad_slot"@.len()]));
        }
    }
    let address = config.interstitials_address@;
    let middle = "interstitials.m3u8?_HLS_interstitial_id="@;
    let url = asset_list_url(address, name);
    assert forall|i: int| 0 <= i < url.len() implies #[trigger] url[i] != '"' && url[i] != '\n'
        && url[i] != '\r' by {
        if i < address.len() {
            assert(url[i] == address[i]);
        } else if i < address.len() + middle.len() {
            assert(url[i] == middle[i - address.len()]);
        } else {
            assert(url[i] == name[i - address.len() - middle.len()]);
        }
    }
}

/// An interstitial is printed as it is.
proof fn lemma_interstitial_is_plain(
    config: ServerConfig,
    vod: bool,
    slot: AdSlot,
)
    requires
        is_plain(config.interstitials_address@),
        is_plain_option(slot.start_date()),
        has_exact_numbers(config, slot),
    ensures
        interstitial(config, vod, slot).plain(),
{
    let c = interstitial(config, vod, slot);
    let a = c.attributes;
    let skip = skip_control(config, slot.duration);
    lemma_plain_parts(config, slot);
    lemma_names_in_order();
    match skip {
        Some(control) => {
            if let Some(label) = control.label_id {
                assert(valid_label(label));
                assert forall|i: int| 0 <= i < label.len() implies #[trigger] label[i] != '"'
                    && label[i] != '\n' && label[i] != '\r' by {
                    assert(is_label_char(label[i]));
                }
            }
            match (control.duration, control.label_id) {
                (Some(n), Some(label)) => {
                    assert(a.len() == 7);
                    assert(a[3].0 == "X-SKIP-CONTROL-DURATION"@);
                    assert(a[4] == ("X-SKIP-CONTROL-LABEL-ID"@, AttributeView::Text(label)));
                    assert(a[5].0 == "X-SKIP-CONTROL-OFFSET"@);
                    assert(a[6].0 == "X-SNAP"@);
                },
                (Some(n), None) => {
                    assert(a.len() == 6);
                    assert(a[3].0 == "X-SKIP-CONTROL-DURATION"@);
                    assert(a[4].0 == "X-SKIP-CONTROL-OFFSET"@);
                    assert(a[5].0 == "X-SNAP"@);
                },
                (None, Some(label)) => {
                    assert(a.len() == 6);
                    assert(a[3] == ("X-SKIP-CONTROL-LABEL-ID"@, AttributeView::Text(label)));
                    assert(a[4].0 == "X-SKIP-CONTROL-OFFSET"@);
                    assert(a[5].0 == "X-SNAP"@);
                },
                (None, None) => {
                    assert(a.len() == 5);
                    assert(a[3].0 == "X-SKIP-CONTROL-OFFSET"@);
                    assert(a[4].0 == "X-SNAP"@);
                },
            }
        },
        None => {
            assert(a.len() == 4);
            assert(a[3].0 == "X-SNAP"@);
        },
    }
}

/// The preload hint of an interstitial, as it is read from a playlist.
proof fn lemma_interstitial_has_preload(
    config: ServerConfig,
    vod: bool,
    slot: AdSlot,
)
    requires
        slot.start_date() is Some,
    ensures
        preload(interstitial(config, vod, slot).as_read()) is Some,
{
    let c = interstitial(config, vod, slot).as_read();
    let a = c.attributes;
    reveal_strlit("X-ASSET-URI");
    reveal_strlit("X-ASSET-LIST");
    reveal_strlit("X-RESTRICT");
    reveal_strlit("X-RESUME-OFFSET");
    reveal_strlit("X-SKIP-CONTROL-DURATION");
    reveal_strlit("X-SKIP-CONTROL-LABEL-ID");
    reveal_strlit("X-SKIP-CONTROL-OFFSET");
    reveal_strlit("X-SNAP");
    assert("X-ASSET-URI"@.len() == 11);
    assert("X-ASSET-LIST"@.len() == 12);
    assert("X-RESTRICT"@.len() == 10);
    assert("X-RESUME-OFFSET"@.len() == 15);
    assert("X-SKIP-CONTROL-DURATION"@.len() == 23);
    assert("X-SKIP-CONTROL-LABEL-ID"@.len() == 23);
    assert("X-SKIP-CONTROL-OFFSET"@.len() == 21);
    assert("X-SNAP"@.len() == 6);
    assert(a[0] == (
        "X-ASSET-LIST"@,
        AttributeView::Text(asset_list_url(config.interstitials_address@, slot.spec_name())),
    ));
    assert forall|i: int| 0 <= i < a.len() implies (#[trigger] a[i]).0 != "X-ASSET-URI"@ by {
        assert(a[i].0 == interstitial(config, vod, slot).attributes[i].0);
        assert(a[i].0.len() != 11);
    }
    lemma_absent(a, "X-ASSET-URI"@);
}

proof fn lemma_absent(attributes: Seq<(Seq<char>, AttributeView)>, key: Seq<char>)
    requires
        forall|i: int| 0 <= i < attributes.len() ==> (#[trigger] attributes[i]).0 != key,
    ensures
        attribute(attributes, key) is None,
    decreases attributes.len(),
{
    if attributes.len() > 0 {
        let more = attributes.skip(1);
        assert forall|i: int| 0 <= i < more.len() implies (#[trigger] more[i]).0 != key by {
            assert(more[i] == attributes[i + 1]);
        }
        lemma_absent(more, key);
    }
}

/// Every interstitial that is put into a playlist is announced: in the text
/// that is served, the line of its preload hint stands directly before its own
/// line. The address of interstitials is a URL, so it has neither quotes nor
/// line ends; beyond 194 days a number of seconds is rounded when it is
/// printed.
pub proof fn every_interstitial_is_announced(
    playlist: MediaView,
    printed: Seq<char>,
    config: ServerConfig,
    vod: bool,
    slot: AdSlot,
    i: int,
)
    requires
        is_printed(playlist, printed),
        0 <= i < playlist.segments.len(),
        playlist.inserted.contains_key(i),
        playlist.inserted[i] == interstitial(config, vod, slot),
        slot.start_time.has_text(),
        is_plain_option(slot.start_date()),
        is_plain(config.interstitials_address@),
        has_exact_numbers(config, slot),
    ensures
        ({
            let range = playlist.inserted[i];
            let hint = preload(range.as_read());
            &&& hint is Some
            &&& exists|k: int|
                0 < k < with_preloads(lines(printed)).len() && #[trigger] with_preloads(
                    lines(printed),
                )[k] == date_range_line(range) && with_preloads(lines(printed))[k - 1]
                    == date_range_line(hint->0)
        }),
{
    let range = playlist.inserted[i];
    let line = date_range_line(range);
    let all = lines(printed);
    lemma_interstitial_is_plain(config, vod, slot);
    assert(holds_range(printed, range));
    assert(line == range.plain_line());
    lemma_plain_line_is_readable(range);
    lemma_plain_line_is_one_line(range);
    lemma_class_part(range);
    lemma_interstitial_has_preload(config, vod, slot);
    let hint = preload(range.as_read())->0;
    assert(preload_line(line) == Some(date_range_line(hint)));
    lemma_own_line(printed, line);
    let n = choose|n: int| 0 <= n < all.len() && all[n] == line;
    lines_are_kept(all, n);
    let at = n + hints(all.take(n + 1));
    assert(with_preloads(all)[at as int] == line);
}

} // verus!
