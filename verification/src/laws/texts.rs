//! Laws of texts: how numbers are written and read, how lines are told apart,
//! and what stands where in a URL.

use vstd::prelude::*;

use crate::text::{decimal, digits_value, has_part, has_prefix, has_suffix, is_digit, is_space,
    lemma_until, lines, occurs_at, parsed_u64, replaced, trimmed, trimmed_end, trimmed_start,
    until, without_plus};
use crate::web::{before_query, form_bytes, fragment_part, has_fragment, has_room,
    has_room_for_pairs, has_room_for_path, pairs_bytes, path_bytes, query_bytes};

verus! {

/// A digit stands for itself, and a number of several digits is that of all
/// but the last, with the last one behind it.
pub proof fn numbers_are_written_digit_by_digit(n: nat, d: nat)
    requires
        d < 10,
    ensures
        decimal(d) == seq![(48 + d) as char],
        n > 0 ==> decimal(10 * n + d) == decimal(n).push((48 + d) as char),
{
    assert((10 * n + d) / 10 == n);
    assert((10 * n + d) % 10 == d);
}

/// A number is read digit by digit: a digit behind it multiplies it by ten and
/// adds its own value. What does not fit into 64 bits is no number.
pub proof fn numbers_are_read_digit_by_digit(s: Seq<char>, n: u64, d: nat)
    requires
        s.len() > 0,
        is_digit(s[0]),
        parsed_u64(s) == Some(n),
        d < 10,
    ensures
        10 * n + d <= u64::MAX ==> parsed_u64(s.push((48 + d) as char)) == Some((10 * n + d) as u64),
        10 * n + d > u64::MAX ==> parsed_u64(s.push((48 + d) as char)) is None,
        parsed_u64(seq![(48 + d) as char]) == Some(d as u64),
{
    let c = (48 + d) as char;
    let longer = s.push(c);
    assert(is_digit(c));
    assert(without_plus(s) == s);
    assert(without_plus(longer) == longer);
    assert(longer.drop_last() == s);
    assert(digits_value(longer) == 10 * n + d);
    assert forall|i: int| 0 <= i < longer.len() implies is_digit(#[trigger] longer[i]) by {
        if i < s.len() {
            assert(longer[i] == s[i]);
        }
    }
    let one = seq![c];
    assert(without_plus(one) == one);
    assert(one.drop_last() =~= Seq::<char>::empty());
    assert(digits_value(Seq::<char>::empty()) == 0);
    assert(one[0] == c);
}

/// A plus sign before a number changes nothing, and what has anything else in
/// it than digits is no number.
pub proof fn only_digits_make_a_number(s: Seq<char>, i: int)
    requires
        0 <= i < s.len(),
    ensures
        !is_digit(s[i]) && (i > 0 || s[i] != '+') ==> parsed_u64(s) is None,
        is_digit(s[0]) ==> parsed_u64(seq!['+'] + s) == parsed_u64(s),
        parsed_u64(seq![]) is None,
        parsed_u64(seq!['+']) is None,
{
    if !is_digit(s[i]) && (i > 0 || s[i] != '+') {
        if s[0] == '+' {
            assert(s.skip(1)[i - 1] == s[i]);
        }
    }
    assert((seq!['+'] + s).skip(1) =~= s);
    assert(seq!['+'].skip(1) =~= Seq::<char>::empty());
}

/// A line ends before a line feed, and before a carriage return that stands
/// there. What follows is read on its own. The last line needs no end.
pub proof fn lines_end_at_line_feeds(line: Seq<char>, rest: Seq<char>)
    requires
        !line.contains('\n'),
        line.len() == 0 || line.last() != '\r',
    ensures
        lines(line + seq!['\n'] + rest) == seq![line] + lines(rest),
        lines(line + seq!['\r', '\n'] + rest) == seq![line] + lines(rest),
        line.len() > 0 ==> lines(line) == seq![line],
        lines(seq![]).len() == 0,
{
    assert forall|j: int| 0 <= j < line.len() implies line[j] != '\n' by {
        assert(line.contains(line[j]));
    }
    let a = line + seq!['\n'] + rest;
    let b = line + seq!['\r', '\n'] + rest;
    assert(a[line.len() as int] == '\n');
    lemma_until(a, '\n', line.len());
    assert(a.take(line.len() as int) =~= line);
    assert(a.skip(line.len() as int + 1) =~= rest);
    assert(b[line.len() as int] == '\r');
    assert(b[line.len() as int + 1] == '\n');
    lemma_until(b, '\n', line.len() + 1);
    assert(b.take(line.len() as int + 1) =~= line.push('\r'));
    assert(line.push('\r').drop_last() =~= line);
    assert(b.skip(line.len() as int + 2) =~= rest);
    lemma_until(line, '\n', line.len());
}

proof fn lemma_trimmed_front(space: Seq<char>, rest: Seq<char>)
    requires
        forall|i: int| 0 <= i < space.len() ==> is_space(#[trigger] space[i]),
        rest.len() == 0 || !is_space(rest[0]),
    ensures
        trimmed_start(space + rest) == rest,
    decreases space.len(),
{
    if space.len() == 0 {
        assert(space + rest =~= rest);
    } else {
        assert(is_space(space[0]));
        assert((space + rest).skip(1) =~= space.skip(1) + rest);
        lemma_trimmed_front(space.skip(1), rest);
    }
}

proof fn lemma_trimmed_back(rest: Seq<char>, space: Seq<char>)
    requires
        forall|i: int| 0 <= i < space.len() ==> is_space(#[trigger] space[i]),
        rest.len() == 0 || !is_space(rest.last()),
    ensures
        trimmed_end(rest + space) == rest,
    decreases space.len(),
{
    if space.len() == 0 {
        assert(rest + space =~= rest);
    } else {
        assert(is_space(space[space.len() - 1]));
        assert((rest + space).drop_last() =~= rest + space.drop_last());
        assert forall|i: int| 0 <= i < space.drop_last().len() implies is_space(
            #[trigger] space.drop_last()[i],
        ) by {
            assert(space.drop_last()[i] == space[i]);
        }
        lemma_trimmed_back(rest, space.drop_last());
    }
}

/// White space is taken away at both ends of a text, and nowhere else.
pub proof fn white_space_is_taken_away_at_the_ends(
    before: Seq<char>,
    text: Seq<char>,
    behind: Seq<char>,
)
    requires
        forall|i: int| 0 <= i < before.len() ==> is_space(#[trigger] before[i]),
        forall|i: int| 0 <= i < behind.len() ==> is_space(#[trigger] behind[i]),
        text.len() > 0,
        !is_space(text[0]),
        !is_space(text.last()),
    ensures
        trimmed(before + text + behind) == text,
        trimmed_start(before + text + behind) == text + behind,
        trimmed(before).len() == 0,
        is_space(' ') && is_space('\t') && is_space('\n') && is_space('\r'),
{
    assert(before + text + behind =~= before + (text + behind));
    lemma_trimmed_front(before, text + behind);
    lemma_trimmed_back(text, behind);
    lemma_trimmed_front(before, seq![]);
    assert(before + Seq::<char>::empty() =~= before);
}

/// What stands before the first place of a text is replaced there, and the rest
/// is replaced on its own.
pub proof fn every_place_is_replaced(
    before: Seq<char>,
    from: Seq<char>,
    to: Seq<char>,
    rest: Seq<char>,
)
    requires
        from.len() > 0,
        forall|j: int| 0 <= j < before.len() ==> !occurs_at(before + from + rest, from, j),
    ensures
        replaced(before + from + rest, from, to) == before + to + replaced(rest, from, to),
        rest.len() < from.len() ==> replaced(rest, from, to) == rest,
    decreases before.len(),
{
    let s = before + from + rest;
    if before.len() == 0 {
        assert(s.subrange(0, from.len() as int) =~= from);
        assert(s.skip(from.len() as int) =~= rest);
        assert(before + to + replaced(rest, from, to) =~= to + replaced(rest, from, to));
    } else {
        let shorter = before.skip(1);
        let tail = shorter + from + rest;
        assert(!occurs_at(s, from, 0));
        assert(s.skip(1) =~= tail);
        assert forall|j: int| 0 <= j < shorter.len() implies !occurs_at(tail, from, j) by {
            if occurs_at(tail, from, j) {
                assert(s.subrange(j + 1, j + 1 + from.len()) =~= tail.subrange(
                    j,
                    j + from.len(),
                ));
                assert(occurs_at(s, from, j + 1));
            }
        }
        every_place_is_replaced(shorter, from, to, rest);
        assert(seq![before[0]] + (shorter + to + replaced(rest, from, to)) =~= before + to
            + replaced(rest, from, to));
    }
}

/// The address of a URL stands before its first question mark, and its fragment
/// from its first number sign on.
#[verifier::rlimit(40)]
pub proof fn what_stands_where_in_a_url(
    address: Seq<char>,
    query: Seq<char>,
    fragment: Seq<char>,
)
    requires
        !address.contains('?'),
        !address.contains('#'),
        !query.contains('#'),
    ensures
        before_query(address) == address,
        before_query(address + "?"@ + query) == address,
        before_query(address + "#"@ + fragment) == address,
        before_query(address + "?"@ + query + "#"@ + fragment) == address,
        !has_fragment(address),
        !has_fragment(address + "?"@ + query),
        has_fragment(address + "?"@ + query + "#"@ + fragment),
        fragment_part(address + "?"@ + query).len() == 0,
        fragment_part(address + "?"@ + query + "#"@ + fragment) == "#"@ + fragment,
{
    reveal_strlit("?");
    reveal_strlit("#");
    assert forall|j: int| 0 <= j < address.len() implies address[j] != '?' && address[j] != '#' by {
        assert(address.contains(address[j]));
    }
    assert forall|j: int| 0 <= j < query.len() implies query[j] != '#' by {
        assert(query.contains(query[j]));
    }
    let n = address.len();
    let asked = address + "?"@ + query;
    let placed = address + "#"@ + fragment;
    let full = address + "?"@ + query + "#"@ + fragment;
    lemma_until(address, '#', n);
    lemma_until(address, '?', n);
    assert(address.take(n as int) =~= address);
    assert forall|j: int| 0 <= j < asked.len() implies asked[j] != '#' by {
        if j > n {
            assert(asked[j] == query[j - n - 1]);
        }
    }
    lemma_until(asked, '#', asked.len());
    assert(asked.take(asked.len() as int) =~= asked);
    assert(asked[n as int] == '?');
    lemma_until(asked, '?', n);
    assert(asked.take(n as int) =~= address);
    assert(placed[n as int] == '#');
    lemma_until(placed, '#', n);
    assert(placed.take(n as int) =~= address);
    assert forall|j: int| 0 <= j < asked.len() implies full[j] != '#' by {
        assert(full[j] == asked[j]);
    }
    assert(full[asked.len() as int] == '#');
    lemma_until(full, '#', asked.len());
    assert(full.take(asked.len() as int) =~= asked);
    assert(full.skip(asked.len() as int) =~= "#"@ + fragment);
}

/// A query fits into a URL where its address can be counted in 32 bits, and,
/// where there is a fragment, its place too.
pub proof fn when_a_query_fits(
    text: Seq<char>,
    query: Seq<char>,
    pairs: Seq<(Seq<char>, Seq<char>)>,
)
    ensures
        !has_fragment(text) ==> (has_room_for_pairs(text, pairs) <==> before_query(text).len()
            <= 4_294_967_295),
        has_fragment(text) ==> (has_room_for_pairs(text, pairs) <==> before_query(text).len() + 1
            + pairs_bytes(pairs) <= 4_294_967_295),
        !has_fragment(text) ==> (has_room(text, Some(query)) <==> before_query(text).len()
            <= 4_294_967_295),
        has_fragment(text) ==> (has_room(text, Some(query)) <==> before_query(text).len() + 1
            + query_bytes(query) <= 4_294_967_295),
        has_room(text, None) <==> before_query(text).len() <= 4_294_967_295,
        has_room_for_path(text, query) <==> text.len() + 1 + path_bytes(query) <= 4_294_967_295,
{
}

/// A letter, a digit or a mark of an address takes one byte in a query, a space
/// three; keys and values take one byte for each letter and each space.
pub proof fn how_many_bytes_a_character_takes(s: Seq<char>, c: char)
    ensures
        query_bytes(seq![]) == 0 && form_bytes(seq![]) == 0 && path_bytes(seq![]) == 0,
        'a' <= c <= 'z' || 'A' <= c <= 'Z' || '0' <= c <= '9' ==> query_bytes(s.push(c))
            == query_bytes(s) + 1 && form_bytes(s.push(c)) == form_bytes(s) + 1 && path_bytes(
            s.push(c),
        ) == path_bytes(s) + 3,
        c == '&' || c == '=' ==> query_bytes(s.push(c)) == query_bytes(s) + 1 && form_bytes(
            s.push(c),
        ) == form_bytes(s) + 3,
        c == ' ' ==> query_bytes(s.push(c)) == query_bytes(s) + 3 && form_bytes(s.push(c))
            == form_bytes(s) + 1,
        c == '\n' ==> query_bytes(s.push(c)) == query_bytes(s),
{
    assert(s.push(c).drop_last() == s);
}

/// Keys and values take the bytes of both, one for the sign between them, and
/// one for the sign between two pairs.
pub proof fn how_many_bytes_a_pair_takes(
    pairs: Seq<(Seq<char>, Seq<char>)>,
    key: Seq<char>,
    value: Seq<char>,
)
    ensures
        pairs_bytes(seq![]) == 0,
        pairs.len() == 0 ==> pairs_bytes(pairs.push((key, value))) == form_bytes(key) + 1
            + form_bytes(value),
        pairs.len() > 0 ==> pairs_bytes(pairs.push((key, value))) == pairs_bytes(pairs) + 1
            + form_bytes(key) + 1 + form_bytes(value),
{
    assert(pairs.push((key, value)).drop_last() == pairs);
    if pairs.len() == 0 {
        assert(pairs_bytes(pairs) == 0);
    }
}

/// A text is found in another where that is something before it, the text, and
/// something behind it.
pub proof fn where_a_text_is_found(before: Seq<char>, text: Seq<char>, behind: Seq<char>)
    ensures
        has_part(before + text + behind, text),
        has_prefix(text + behind, text),
        has_suffix(before + text, text),
        text.len() > before.len() ==> !has_part(before, text),
{
    let s = before + text + behind;
    assert(s.subrange(before.len() as int, (before.len() + text.len()) as int) =~= text);
    assert(occurs_at(s, text, before.len() as int));
    assert((text + behind).subrange(0, text.len() as int) =~= text);
    let t = before + text;
    assert(t.subrange(t.len() - text.len(), t.len() as int) =~= text);
}

/// What comes before the first `c` of a text is counted.
pub proof fn what_comes_before_is_counted(before: Seq<char>, c: char, rest: Seq<char>)
    requires
        !before.contains(c),
    ensures
        until(before + seq![c] + rest, c) == before.len(),
        until(before, c) == before.len(),
{
    assert forall|j: int| 0 <= j < before.len() implies before[j] != c by {
        assert(before.contains(before[j]));
    }
    let s = before + seq![c] + rest;
    assert(s[before.len() as int] == c);
    lemma_until(s, c, before.len());
    lemma_until(before, c, before.len());
}

} // verus!
