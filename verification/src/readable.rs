//! Playlist texts that `hls_m3u8` reads or rejects, but never panics on.
//!
//! The crate reads lengths of time as floating point numbers and panics where
//! one is negative, too large or not a number, where a quoted attribute is
//! nothing but an opening quote, and where a byte range or a media sequence
//! number overflows. A text is only handed to it where none of this can happen.

use vstd::prelude::*;

use crate::numbers::{check_seconds, safe_seconds};
use crate::text::{check_at, from_chars, has_prefix, line_views, lines, parse_u64, parsed_u64,
    position, same_text, skip_chars, slice_chars, split_lines, starts_with, to_chars, trim,
    trim_start, trimmed, trimmed_start, until};

verus! {

/// A byte range, `length` or `length@start`, whose end does not overflow.
pub open spec fn safe_byte_range(s: Seq<char>) -> bool {
    let at = until(s, '@') as int;
    at < s.len() ==> {
        let length = parsed_u64(s.take(at));
        let start = parsed_u64(s.skip(at + 1));
        length is Some && start is Some ==> length->0 + start->0 <= usize::MAX
    }
}

/// A media sequence number from which `count` segments can be numbered.
pub open spec fn safe_sequence(s: Seq<char>, count: nat) -> bool {
    parsed_u64(s) matches Some(n) ==> n + count <= usize::MAX + 1 || count == 0
}

/// The characters before the first comma that does not stand between quotes.
/// `quoted` says whether a quote was opened before.
pub open spec fn value_length(s: Seq<char>, quoted: bool) -> nat
    decreases s.len(),
{
    if s.len() == 0 || (s[0] == ',' && !quoted) {
        0
    } else {
        1 + value_length(s.skip(1), quoted != (s[0] == '"'))
    }
}

/// A text without quotes and line ends.
pub open spec fn unquoted(s: Seq<char>) -> Seq<char>
    decreases s.len(),
{
    if s.len() == 0 {
        s
    } else if s.last() == '"' || s.last() == '\n' || s.last() == '\r' {
        unquoted(s.drop_last())
    } else {
        unquoted(s.drop_last()).push(s.last())
    }
}

/// A tag that is followed by attributes of which some are quoted texts.
pub open spec fn is_attribute_tag(tag: Seq<char>) -> bool {
    ||| tag == "#EXT-X-DATERANGE"@
    ||| tag == "#EXT-X-KEY"@
    ||| tag == "#EXT-X-MAP"@
    ||| tag == "#EXT-X-MEDIA"@
    ||| tag == "#EXT-X-STREAM-INF"@
    ||| tag == "#EXT-X-I-FRAME-STREAM-INF"@
    ||| tag == "#EXT-X-SESSION-DATA"@
    ||| tag == "#EXT-X-SESSION-KEY"@
}

/// The attributes of a date range whose value is a quoted text.
pub open spec fn is_quoted_in_range(key: Seq<char>) -> bool {
    ||| key == "ID"@
    ||| key == "CLASS"@
    ||| key == "START-DATE"@
    ||| key == "END-DATE"@
    ||| key == "SCTE35-CMD"@
    ||| key == "SCTE35-OUT"@
    ||| key == "SCTE35-IN"@
    ||| has_prefix(key, "X-"@)
}

/// The attributes of a media rendition whose value is a quoted text.
pub open spec fn is_quoted_in_media(key: Seq<char>) -> bool {
    ||| key == "URI"@
    ||| key == "GROUP-ID"@
    ||| key == "LANGUAGE"@
    ||| key == "ASSOC-LANGUAGE"@
    ||| key == "NAME"@
    ||| key == "INSTREAM-ID"@
    ||| key == "CHARACTERISTICS"@
    ||| key == "CHANNELS"@
}

/// The attributes of a tag whose value is a quoted text.
pub open spec fn is_quoted(tag: Seq<char>, key: Seq<char>) -> bool {
    if tag == "#EXT-X-DATERANGE"@ {
        is_quoted_in_range(key)
    } else if tag == "#EXT-X-KEY"@ || tag == "#EXT-X-SESSION-KEY"@ {
        key == "URI"@ || key == "KEYFORMAT"@ || key == "KEYFORMATVERSIONS"@
    } else if tag == "#EXT-X-MAP"@ {
        key == "URI"@ || key == "BYTERANGE"@
    } else if tag == "#EXT-X-MEDIA"@ {
        is_quoted_in_media(key)
    } else if tag == "#EXT-X-STREAM-INF"@ {
        key == "CODECS"@ || key == "VIDEO"@ || key == "AUDIO"@ || key == "SUBTITLES"@ || key
            == "CLOSED-CAPTIONS"@
    } else if tag == "#EXT-X-I-FRAME-STREAM-INF"@ {
        key == "URI"@ || key == "CODECS"@ || key == "VIDEO"@
    } else if tag == "#EXT-X-SESSION-DATA"@ {
        key == "DATA-ID"@ || key == "VALUE"@ || key == "URI"@ || key == "LANGUAGE"@
    } else {
        false
    }
}

/// An attribute whose value is read without a panic, or not at all.
pub open spec fn safe_attribute(tag: Seq<char>, key: Seq<char>, value: Seq<char>) -> bool {
    &&& is_quoted(tag, key) ==> value != seq!['"']
    &&& tag == "#EXT-X-DATERANGE"@ && (key == "DURATION"@ || key == "PLANNED-DURATION"@)
        ==> safe_seconds(value)
    &&& tag == "#EXT-X-MAP"@ && key == "BYTERANGE"@ ==> safe_byte_range(unquoted(value))
}

/// The attributes of a tag, `KEY=value` with commas between them, of which each
/// is read without a panic.
pub open spec fn safe_attributes(tag: Seq<char>, s: Seq<char>) -> bool
    decreases s.len(),
{
    let eq = until(s, '=') as int;
    if s.len() < 2 || eq >= s.len() {
        true
    } else {
        let rest = s.skip(eq + 1);
        let end = value_length(rest, false) as int;
        &&& safe_attribute(tag, trimmed(s.take(eq)), trimmed(rest.take(end)))
        &&& end < rest.len() ==> safe_attributes(tag, rest.skip(end + 1))
    }
}

/// A line of a playlist with `count` segments that is read without a panic.
pub open spec fn readable_line(line: Seq<char>, count: nat) -> bool {
    let l = trimmed(line);
    let colon = until(l, ':') as int;
    if colon >= l.len() {
        true
    } else {
        let rest = l.skip(colon + 1);
        if l.take(colon) == "#EXTINF"@ {
            safe_seconds(rest.take(until(rest, ',') as int))
        } else if l.take(colon) == "#EXT-X-BYTERANGE"@ {
            safe_byte_range(rest)
        } else if l.take(colon) == "#EXT-X-MEDIA-SEQUENCE"@ {
            safe_sequence(rest, count)
        } else if is_attribute_tag(l.take(colon)) {
            safe_attributes(l.take(colon), rest)
        } else {
            true
        }
    }
}

/// A line that names a segment: neither a tag nor a comment.
pub open spec fn is_segment_line(line: Seq<char>) -> bool {
    trimmed(line).len() > 0 && trimmed(line)[0] != '#'
}

/// How many lines name a segment.
pub open spec fn segment_count(all: Seq<Seq<char>>) -> nat
    decreases all.len(),
{
    if all.len() == 0 {
        0
    } else {
        segment_count(all.drop_last()) + if is_segment_line(all.last()) {
            1nat
        } else {
            0
        }
    }
}

/// The lines of a playlist with `count` segments that are read without a
/// panic. Behind a stream the next line that is not empty is its address,
/// whatever it looks like; `address` says whether it is looked for.
pub open spec fn readable_lines(all: Seq<Seq<char>>, address: bool, count: nat) -> bool
    decreases all.len(),
{
    if all.len() == 0 {
        true
    } else if trimmed(all[0]).len() == 0 {
        readable_lines(all.skip(1), address, count)
    } else if address {
        readable_lines(all.skip(1), false, count)
    } else {
        &&& readable_line(all[0], count)
        &&& readable_lines(
            all.skip(1),
            has_prefix(trimmed(all[0]), "#EXT-X-STREAM-INF:"@),
            count,
        )
    }
}

/// A text that is read as a playlist, or rejected, without a panic.
pub open spec fn readable(text: Seq<char>) -> bool {
    let t = trimmed_start(text);
    let all = lines(t.skip(7));
    has_prefix(t, "#EXTM3U"@) ==> readable_lines(all, false, segment_count(all))
}

fn check_byte_range(s: &Vec<char>) -> (r: bool)
    ensures
        r == safe_byte_range(s@),
{
    let at = position(s, '@');
    if at >= s.len() {
        return true;
    }
    let length = slice_chars(s, 0, at);
    assert(length@ == s@.take(at as int));
    let start = skip_chars(s, at + 1);
    match (parse_u64(from_chars(&length).as_str()), parse_u64(from_chars(&start).as_str())) {
        (Some(length), Some(start)) => length as u128 + start as u128 <= usize::MAX as u128,
        _ => true,
    }
}

fn check_sequence(s: &Vec<char>, count: usize) -> (r: bool)
    ensures
        r == safe_sequence(s@, count as nat),
{
    match parse_u64(from_chars(s).as_str()) {
        Some(n) => n as u128 + count as u128 <= usize::MAX as u128 + 1 || count == 0,
        None => true,
    }
}

fn measure_value(s: &Vec<char>) -> (r: usize)
    ensures
        r == value_length(s@, false),
        r <= s@.len(),
{
    let mut i: usize = 0;
    let mut quoted = false;
    assert(s@.skip(0) == s@);
    while i < s.len() && !(s[i] == ',' && !quoted)
        invariant
            i <= s@.len(),
            value_length(s@, false) == i + value_length(s@.skip(i as int), quoted),
        decreases s@.len() - i,
    {
        assert(s@.skip(i as int).skip(1) == s@.skip(i + 1));
        if s[i] == '"' {
            quoted = !quoted;
        }
        i += 1;
    }
    i
}

fn unquote(s: &Vec<char>) -> (r: Vec<char>)
    ensures
        r@ == unquoted(s@),
{
    let mut r: Vec<char> = Vec::new();
    assert(s@.take(0) == Seq::<char>::empty());
    for i in 0..s.len()
        invariant
            r@ == unquoted(s@.take(i as int)),
    {
        assert(s@.take(i + 1).drop_last() == s@.take(i as int));
        let c = s[i];
        if c != '"' && c != '\n' && c != '\r' {
            r.push(c);
        }
    }
    assert(s@.take(s@.len() as int) == s@);
    r
}

fn check_attribute_tag(tag: &str) -> (r: bool)
    ensures
        r == is_attribute_tag(tag@),
{
    same_text(tag, "#EXT-X-DATERANGE") || same_text(tag, "#EXT-X-KEY") || same_text(
        tag,
        "#EXT-X-MAP",
    ) || same_text(tag, "#EXT-X-MEDIA") || same_text(tag, "#EXT-X-STREAM-INF") || same_text(
        tag,
        "#EXT-X-I-FRAME-STREAM-INF",
    ) || same_text(tag, "#EXT-X-SESSION-DATA") || same_text(tag, "#EXT-X-SESSION-KEY")
}

fn check_quoted_in_range(key: &str) -> (r: bool)
    ensures
        r == is_quoted_in_range(key@),
{
    same_text(key, "ID") || same_text(key, "CLASS") || same_text(key, "START-DATE") || same_text(
        key,
        "END-DATE",
    ) || same_text(key, "SCTE35-CMD") || same_text(key, "SCTE35-OUT") || same_text(
        key,
        "SCTE35-IN",
    ) || starts_with(key, "X-")
}

fn check_quoted_in_media(key: &str) -> (r: bool)
    ensures
        r == is_quoted_in_media(key@),
{
    same_text(key, "URI") || same_text(key, "GROUP-ID") || same_text(key, "LANGUAGE") || same_text(
        key,
        "ASSOC-LANGUAGE",
    ) || same_text(key, "NAME") || same_text(key, "INSTREAM-ID") || same_text(
        key,
        "CHARACTERISTICS",
    ) || same_text(key, "CHANNELS")
}

fn check_quoted(tag: &str, key: &str) -> (r: bool)
    ensures
        r == is_quoted(tag@, key@),
{
    if same_text(tag, "#EXT-X-DATERANGE") {
        check_quoted_in_range(key)
    } else if same_text(tag, "#EXT-X-KEY") || same_text(tag, "#EXT-X-SESSION-KEY") {
        same_text(key, "URI") || same_text(key, "KEYFORMAT") || same_text(key, "KEYFORMATVERSIONS")
    } else if same_text(tag, "#EXT-X-MAP") {
        same_text(key, "URI") || same_text(key, "BYTERANGE")
    } else if same_text(tag, "#EXT-X-MEDIA") {
        check_quoted_in_media(key)
    } else if same_text(tag, "#EXT-X-STREAM-INF") {
        same_text(key, "CODECS") || same_text(key, "VIDEO") || same_text(key, "AUDIO")
            || same_text(key, "SUBTITLES") || same_text(key, "CLOSED-CAPTIONS")
    } else if same_text(tag, "#EXT-X-I-FRAME-STREAM-INF") {
        same_text(key, "URI") || same_text(key, "CODECS") || same_text(key, "VIDEO")
    } else if same_text(tag, "#EXT-X-SESSION-DATA") {
        same_text(key, "DATA-ID") || same_text(key, "VALUE") || same_text(key, "URI")
            || same_text(key, "LANGUAGE")
    } else {
        false
    }
}

fn check_attribute(tag: &str, key: &Vec<char>, value: &Vec<char>) -> (r: bool)
    ensures
        r == safe_attribute(tag@, key@, value@),
{
    let name = from_chars(key);
    let only_quote = value.len() == 1 && value[0] == '"';
    assert(only_quote <==> value@ == seq!['"']) by {
        if only_quote {
            assert(value@ =~= seq!['"']);
        }
    }
    if only_quote && check_quoted(tag, name.as_str()) {
        return false;
    }
    if same_text(tag, "#EXT-X-DATERANGE") && (same_text(name.as_str(), "DURATION") || same_text(
        name.as_str(),
        "PLANNED-DURATION",
    )) && !check_seconds(value) {
        return false;
    }
    if same_text(tag, "#EXT-X-MAP") && same_text(name.as_str(), "BYTERANGE")
        && !check_byte_range(&unquote(value)) {
        return false;
    }
    true
}

fn check_attributes(tag: &str, list: &Vec<char>) -> (r: bool)
    ensures
        r == safe_attributes(tag@, list@),
{
    let mut s = skip_chars(list, 0);
    assert(list@.skip(0) == list@);
    loop
        invariant
            safe_attributes(tag@, list@) == safe_attributes(tag@, s@),
        decreases s@.len(),
    {
        let eq = position(&s, '=');
        if s.len() < 2 || eq >= s.len() {
            return true;
        }
        let rest = skip_chars(&s, eq + 1);
        let end = measure_value(&rest);
        let key = slice_chars(&s, 0, eq);
        assert(key@ == s@.take(eq as int));
        let value = slice_chars(&rest, 0, end);
        assert(value@ == rest@.take(end as int));
        if !check_attribute(tag, &trim(&key), &trim(&value)) {
            return false;
        }
        if end >= rest.len() {
            return true;
        }
        s = skip_chars(&rest, end + 1);
    }
}

/// Whether a line of a playlist with `count` segments is read without a panic.
pub fn is_readable_line(line: &Vec<char>, count: usize) -> (r: bool)
    ensures
        r == readable_line(line@, count as nat),
{
    let l = trim(line);
    let colon = position(&l, ':');
    if colon >= l.len() {
        return true;
    }
    let tag = slice_chars(&l, 0, colon);
    assert(tag@ == l@.take(colon as int));
    let name = from_chars(&tag);
    let rest = skip_chars(&l, colon + 1);
    if same_text(name.as_str(), "#EXTINF") {
        let seconds = slice_chars(&rest, 0, position(&rest, ','));
        assert(seconds@ == rest@.take(until(rest@, ',') as int));
        check_seconds(&seconds)
    } else if same_text(name.as_str(), "#EXT-X-BYTERANGE") {
        check_byte_range(&rest)
    } else if same_text(name.as_str(), "#EXT-X-MEDIA-SEQUENCE") {
        check_sequence(&rest, count)
    } else if check_attribute_tag(name.as_str()) {
        check_attributes(name.as_str(), &rest)
    } else {
        true
    }
}

fn count_segments(all: &Vec<Vec<char>>) -> (r: usize)
    ensures
        r == segment_count(line_views(all@)),
{
    let ghost views = line_views(all@);
    let mut count: usize = 0;
    assert(views.take(0) =~= seq![]);
    for i in 0..all.len()
        invariant
            views == line_views(all@),
            count <= i,
            count == segment_count(views.take(i as int)),
    {
        assert(views.take(i + 1).drop_last() == views.take(i as int));
        assert(views.take(i + 1).last() == all@[i as int]@);
        let line = trim(&all[i]);
        if line.len() > 0 && line[0] != '#' {
            count = count + 1;
        }
    }
    assert(views.take(views.len() as int) == views);
    count
}

/// Whether a text is read as a playlist, or rejected, without a panic.
pub fn is_readable(text: &str) -> (r: bool)
    ensures
        r == readable(text@),
{
    let t = trim_start(&to_chars(text));
    proof {
        reveal_strlit("#EXTM3U");
        assert("#EXTM3U"@.len() == 7);
    }
    if !check_at(&t, &to_chars("#EXTM3U"), 0) {
        return true;
    }
    let all = split_lines(&skip_chars(&t, 7));
    let ghost views = lines(t@.skip(7));
    let count = count_segments(&all);
    let prefix = to_chars("#EXT-X-STREAM-INF:");
    let mut address = false;
    assert(views.skip(0) == views);
    for i in 0..all.len()
        invariant
            line_views(all@) == views,
            prefix@ == "#EXT-X-STREAM-INF:"@,
            readable_lines(views, false, count as nat) == readable_lines(
                views.skip(i as int),
                address,
                count as nat,
            ),
            t@ == trimmed_start(text@),
            views == lines(t@.skip(7)),
            has_prefix(t@, "#EXTM3U"@),
            count == segment_count(views),
    {
        assert(views[i as int] == all@[i as int]@);
        assert(views.skip(i as int)[0] == views[i as int]);
        assert(views.skip(i as int).skip(1) == views.skip(i + 1));
        let line = trim(&all[i]);
        if line.len() > 0 {
            if address {
                address = false;
            } else {
                if !is_readable_line(&all[i], count) {
                    return false;
                }
                address = check_at(&line, &prefix, 0);
            }
        }
    }
    true
}

} // verus!
