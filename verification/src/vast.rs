//! VAST documents: the creatives that an ad server sends.

use vstd::prelude::*;

use crate::hls::{option_text, LONGEST_SEGMENT};
use crate::text::{check_at, contains, ends_with, from_chars, has_part, has_prefix, has_suffix,
    is_digit, occurs_at, parse_u64, parsed_u64, position, skip_chars, slice_chars, starts_with,
    to_chars, trim, trim_start, trimmed, trimmed_start, until};
use crate::web::pair_views;

verus! {

/// How many digits a text holds.
pub open spec fn digits(s: Seq<char>) -> nat
    decreases s.len(),
{
    if s.len() == 0 {
        0
    } else {
        digits(s.drop_last()) + if is_digit(s.last()) {
            1nat
        } else {
            0
        }
    }
}

/// The most thousandths of a second that `vast4_rs` can turn into nanoseconds.
pub const MOST_MILLIS: u64 = 4294;

/// Whether a length of time, of which the parts that are no numbers are
/// `None`, is none at all or no longer than can be counted.
pub open spec fn fits(
    hours: Option<u64>,
    minutes: Option<u64>,
    seconds: Option<u64>,
    millis: Option<u64>,
) -> bool {
    match (hours, minutes, seconds, millis) {
        (Some(h), Some(m), Some(s), Some(ms)) => ms > u32::MAX || (ms <= MOST_MILLIS && h * 3600 + m
            * 60 + s + ms / 1000 <= LONGEST_SEGMENT),
        _ => true,
    }
}

/// Whether a text is no length of time, `hours`, `hours:minutes`,
/// `hours:minutes:seconds` or `hours:minutes:seconds.thousandths`, or one that
/// is no longer than can be counted.
pub open spec fn fits_time(s: Seq<char>) -> bool {
    let t = trimmed(s);
    let a = until(t, ':') as int;
    let hours = parsed_u64(t.take(a));
    if a >= t.len() {
        fits(hours, Some(0), Some(0), Some(0))
    } else {
        let after_hours = t.skip(a + 1);
        let b = until(after_hours, ':') as int;
        let minutes = parsed_u64(after_hours.take(b));
        if b >= after_hours.len() {
            fits(hours, minutes, Some(0), Some(0))
        } else {
            let rest = after_hours.skip(b + 1);
            let point = until(rest, '.') as int;
            if until(rest, ':') < rest.len() {
                true
            } else if point < rest.len() {
                fits(
                    hours,
                    minutes,
                    parsed_u64(rest.take(point)),
                    parsed_u64(rest.skip(point + 1)),
                )
            } else {
                fits(hours, minutes, parsed_u64(rest), Some(0))
            }
        }
    }
}

/// Whether a text with markup in it has so few digits that no length of time
/// in it is too long: at most 12, with at most 3 of them behind a point, or 3
/// where characters are written as numbers.
pub open spec fn has_few_digits(s: Seq<char>) -> bool {
    if has_part(s, "&#"@) {
        digits(s) <= 3
    } else {
        digits(s) <= 12 && (until(s, '.') < s.len() ==> digits(s.skip(until(s, '.') as int)) <= 3)
    }
}

/// Whether a text as it is written in a document is no length of time that is
/// too long. The characters that have names are none that occur in one.
pub open spec fn short_time(s: Seq<char>) -> bool {
    if until(s, '&') >= s.len() {
        fits_time(s)
    } else if has_part(s, "&#"@) {
        has_few_digits(s)
    } else {
        true
    }
}

/// Whether the content of an element, after the name of its start tag, is no
/// length of time that is too long: a text, or one in a `CDATA` section.
pub open spec fn short_content(s: Seq<char>) -> bool {
    let start = trimmed_start(s);
    let content = trimmed(start.skip(1));
    let is_section = has_prefix(content, "<![CDATA["@) && has_suffix(content, "]]>"@)
        && content.len() >= 12;
    let inner = if is_section {
        content.subrange(9, content.len() - 3)
    } else {
        content
    };
    if start.len() == 0 || start[0] != '>' || until(inner, '<') < inner.len() || until(inner, '>')
        < inner.len() {
        has_few_digits(s)
    } else if is_section {
        fits_time(inner)
    } else {
        short_time(inner)
    }
}

/// What stands before the first `</`.
pub open spec fn until_end_tag(s: Seq<char>) -> nat
    decreases s.len(),
{
    if s.len() == 0 || occurs_at(s, "</"@, 0) {
        0
    } else {
        1 + until_end_tag(s.skip(1))
    }
}

/// Whether a start tag, of which `s` is what follows the name, is that of an
/// empty element.
pub open spec fn closes_itself(s: Seq<char>) -> bool {
    let end = until(s, '>') as int;
    &&& 0 < end < s.len()
    &&& s[end - 1] == '/'
    &&& forall|i: int| 0 <= i < end ==> #[trigger] s[i] != '"' && s[i] != '\''
}

/// The value of the attribute whose name ends where `s` begins.
pub open spec fn attribute_value(s: Seq<char>) -> Option<Seq<char>> {
    let equals = trimmed_start(s);
    if equals.len() > 0 && equals[0] == '=' {
        let value = trimmed_start(equals.skip(1));
        if value.len() > 0 && (value[0] == '"' || value[0] == '\'') {
            Some(value.skip(1).take(until(value.skip(1), value[0]) as int))
        } else {
            None
        }
    } else {
        None
    }
}

/// White space of a document.
pub open spec fn is_space(c: char) -> bool {
    c == ' ' || c == '\t' || c == '\n' || c == '\r'
}

/// Where the tag starts that an attribute at position `at` belongs to: at the
/// last `<` before it. No value of an attribute holds one.
pub open spec fn tag_start(xml: Seq<char>, at: int) -> int
    decreases at,
{
    if at <= 0 {
        0
    } else if xml[at - 1] == '<' {
        at - 1
    } else {
        tag_start(xml, at - 1)
    }
}

/// Whether the attribute `name` of the tag `tag` starts at position `at`.
pub open spec fn is_attribute_at(
    xml: Seq<char>,
    tag: Seq<char>,
    name: Seq<char>,
    at: int,
) -> bool {
    let name_end = tag_start(xml, at) + tag.len();
    &&& 0 < at
    &&& is_space(xml[at - 1])
    &&& occurs_at(xml, name, at)
    &&& occurs_at(xml, tag, tag_start(xml, at))
    &&& name_end < xml.len()
    &&& is_space(xml[name_end])
}

/// Whether no attribute `name` of a tag `tag` that starts at position `at`
/// holds a length of time that is too long.
pub open spec fn short_attribute(xml: Seq<char>, tag: Seq<char>, name: Seq<char>, at: int) -> bool {
    is_attribute_at(xml, tag, name, at) ==> (attribute_value(
        xml.skip(at + name.len()),
    ) matches Some(value) ==> short_time(value))
}

/// Whether no element `Duration` that starts at position `at` is a length of
/// time that is too long.
pub open spec fn short_element(xml: Seq<char>, at: int) -> bool {
    let rest = xml.skip(at + 9);
    occurs_at(xml, "<Duration"@, at) && rest.len() > 0 && (is_space(rest[0]) || rest[0] == '>'
        || rest[0] == '/') && !closes_itself(rest) ==> short_content(
        rest.take(until_end_tag(rest) as int),
    )
}

pub open spec fn short_times_at(xml: Seq<char>, at: int) -> bool {
    &&& short_element(xml, at)
    &&& short_attribute(xml, "<Linear"@, "skipoffset"@, at)
    &&& short_attribute(xml, "<Tracking"@, "offset"@, at)
    &&& short_attribute(xml, "<Icon"@, "offset"@, at)
    &&& short_attribute(xml, "<Icon"@, "duration"@, at)
    &&& short_attribute(xml, "<NonLinear"@, "minSuggestedDuration"@, at)
}

/// Whether no length of time of a document is too long: neither an element
/// `Duration` nor an attribute that is read as one.
pub open spec fn short_times(xml: Seq<char>) -> bool {
    forall|at: int|
        0 <= at < xml.len() ==> #[trigger] short_times_at(xml, at)
}

fn count_digits(s: &Vec<char>) -> (r: usize)
    ensures
        r == digits(s@),
        r <= s@.len(),
{
    let mut count: usize = 0;
    assert(s@.take(0) == Seq::<char>::empty());
    for i in 0..s.len()
        invariant
            count == digits(s@.take(i as int)),
            count <= i,
    {
        assert(s@.take(i + 1).drop_last() == s@.take(i as int));
        let c = s[i];
        if '0' <= c && c <= '9' {
            count += 1;
        }
    }
    assert(s@.take(s@.len() as int) == s@);
    count
}

fn check_fits(
    hours: Option<u64>,
    minutes: Option<u64>,
    seconds: Option<u64>,
    millis: Option<u64>,
) -> (r: bool)
    ensures
        r == fits(hours, minutes, seconds, millis),
{
    match (hours, minutes, seconds, millis) {
        (Some(h), Some(m), Some(s), Some(ms)) => ms > u32::MAX as u64 || (ms <= MOST_MILLIS
            && h as u128 * 3600 + m as u128 * 60 + s as u128 + (ms / 1000) as u128
            <= LONGEST_SEGMENT as u128),
        _ => true,
    }
}

fn read_number(s: &Vec<char>) -> (r: Option<u64>)
    ensures
        r == parsed_u64(s@),
{
    parse_u64(from_chars(s).as_str())
}

fn check_fits_time(s: &Vec<char>) -> (r: bool)
    ensures
        r == fits_time(s@),
{
    let t = trim(s);
    let a = position(&t, ':');
    let head = slice_chars(&t, 0, a);
    assert(head@ == t@.take(a as int));
    let hours = read_number(&head);
    if a >= t.len() {
        return check_fits(hours, Some(0), Some(0), Some(0));
    }
    let after_hours = skip_chars(&t, a + 1);
    let b = position(&after_hours, ':');
    let middle = slice_chars(&after_hours, 0, b);
    assert(middle@ == after_hours@.take(b as int));
    let minutes = read_number(&middle);
    if b >= after_hours.len() {
        return check_fits(hours, minutes, Some(0), Some(0));
    }
    let rest = skip_chars(&after_hours, b + 1);
    if position(&rest, ':') < rest.len() {
        return true;
    }
    let point = position(&rest, '.');
    if point < rest.len() {
        let seconds = slice_chars(&rest, 0, point);
        assert(seconds@ == rest@.take(point as int));
        check_fits(
            hours,
            minutes,
            read_number(&seconds),
            read_number(&skip_chars(&rest, point + 1)),
        )
    } else {
        check_fits(hours, minutes, read_number(&rest), Some(0))
    }
}

fn check_part(s: &Vec<char>, part: &str) -> (r: bool)
    ensures
        r == has_part(s@, part@),
{
    contains(from_chars(s).as_str(), part)
}

fn check_few_digits(s: &Vec<char>) -> (r: bool)
    ensures
        r == has_few_digits(s@),
{
    if check_part(s, "&#") {
        return count_digits(s) <= 3;
    }
    let point = position(s, '.');
    count_digits(s) <= 12 && (point >= s.len() || count_digits(&skip_chars(s, point)) <= 3)
}

fn check_time(s: &Vec<char>) -> (r: bool)
    ensures
        r == short_time(s@),
{
    if position(s, '&') >= s.len() {
        check_fits_time(s)
    } else if check_part(s, "&#") {
        check_few_digits(s)
    } else {
        true
    }
}

fn check_content(s: &Vec<char>) -> (r: bool)
    ensures
        r == short_content(s@),
{
    let start = trim_start(s);
    if start.len() == 0 || start[0] != '>' {
        return check_few_digits(s);
    }
    let content = trim(&skip_chars(&start, 1));
    let text = from_chars(&content);
    let is_section = starts_with(text.as_str(), "<![CDATA[") && ends_with(text.as_str(), "]]>")
        && content.len() >= 12;
    let inner = if is_section {
        slice_chars(&content, 9, content.len() - 3)
    } else {
        assert(content@.skip(0) == content@);
        skip_chars(&content, 0)
    };
    if position(&inner, '<') < inner.len() || position(&inner, '>') < inner.len() {
        check_few_digits(s)
    } else if is_section {
        check_fits_time(&inner)
    } else {
        check_time(&inner)
    }
}

fn find_end_tag(s: &Vec<char>) -> (r: usize)
    ensures
        r == until_end_tag(s@),
        r <= s@.len(),
{
    let end_tag = to_chars("</");
    let mut i: usize = 0;
    assert(s@.skip(0) == s@);
    while i < s.len()
        invariant
            i <= s@.len(),
            end_tag@ == "</"@,
            until_end_tag(s@) == i + until_end_tag(s@.skip(i as int)),
        decreases s@.len() - i,
    {
        let ghost rest = s@.skip(i as int);
        assert(occurs_at(rest, "</"@, 0) == occurs_at(s@, "</"@, i as int)) by {
            if i + "</"@.len() <= s@.len() {
                assert(rest.subrange(0, "</"@.len() as int) =~= s@.subrange(
                    i as int,
                    i + "</"@.len(),
                ));
            }
        }
        if check_at(s, &end_tag, i) {
            return i;
        }
        assert(rest.skip(1) == s@.skip(i + 1));
        i += 1;
    }
    i
}

fn check_closes_itself(s: &Vec<char>) -> (r: bool)
    ensures
        r == closes_itself(s@),
{
    let end = position(s, '>');
    if end == 0 || end >= s.len() || s[end - 1] != '/' {
        return false;
    }
    for i in 0..end
        invariant
            end < s@.len(),
            end == until(s@, '>'),
            forall|k: int| 0 <= k < i ==> #[trigger] s@[k] != '"' && s@[k] != '\'',
    {
        if s[i] == '"' || s[i] == '\'' {
            assert(!(s@[i as int] != '"' && s@[i as int] != '\''));
            return false;
        }
    }
    true
}

fn find_attribute_value(s: &Vec<char>) -> (r: Option<Vec<char>>)
    ensures
        match r {
            Some(value) => attribute_value(s@) == Some(value@),
            None => attribute_value(s@) is None,
        },
{
    let equals = trim_start(s);
    if equals.len() == 0 || equals[0] != '=' {
        return None;
    }
    let value = trim_start(&skip_chars(&equals, 1));
    if value.len() == 0 || (value[0] != '"' && value[0] != '\'') {
        return None;
    }
    let inner = skip_chars(&value, 1);
    let r = slice_chars(&inner, 0, position(&inner, value[0]));
    assert(r@ == inner@.take(until(inner@, value@[0]) as int));
    Some(r)
}

fn check_space(c: char) -> (r: bool)
    ensures
        r == is_space(c),
{
    c == ' ' || c == '\t' || c == '\n' || c == '\r'
}

fn find_tag_start(xml: &Vec<char>, at: usize) -> (r: usize)
    requires
        at < xml.len(),
    ensures
        r == tag_start(xml@, at as int),
        r <= at,
{
    let mut i: usize = at;
    while i > 0
        invariant
            i <= at < xml@.len(),
            tag_start(xml@, at as int) == tag_start(xml@, i as int),
        decreases i,
    {
        if xml[i - 1] == '<' {
            return i - 1;
        }
        i -= 1;
    }
    0
}

fn check_attribute(xml: &Vec<char>, tag: &str, name: &str, at: usize) -> (r: bool)
    requires
        at < xml.len(),
    ensures
        r == short_attribute(xml@, tag@, name@, at as int),
{
    if at == 0 || !check_space(xml[at - 1]) {
        return true;
    }
    let name = to_chars(name);
    if !check_at(xml, &name, at) {
        return true;
    }
    let tag = to_chars(tag);
    let start = find_tag_start(xml, at);
    if !check_at(xml, &tag, start) {
        return true;
    }
    let name_end = start + tag.len();
    if name_end >= xml.len() || !check_space(xml[name_end]) {
        return true;
    }
    match find_attribute_value(&skip_chars(xml, at + name.len())) {
        Some(value) => check_time(&value),
        None => true,
    }
}

fn check_element(xml: &Vec<char>, at: usize) -> (r: bool)
    requires
        at < xml.len(),
    ensures
        r == short_element(xml@, at as int),
{
    proof {
        reveal_strlit("<Duration");
        assert("<Duration"@.len() == 9);
    }
    if !check_at(xml, &to_chars("<Duration"), at) {
        return true;
    }
    let rest = skip_chars(xml, at + 9);
    if rest.len() == 0 || !(check_space(rest[0]) || rest[0] == '>' || rest[0] == '/') {
        return true;
    }
    if check_closes_itself(&rest) {
        return true;
    }
    let content = slice_chars(&rest, 0, find_end_tag(&rest));
    assert(content@ == rest@.take(until_end_tag(rest@) as int));
    check_content(&content)
}

fn check_times_at(xml: &Vec<char>, at: usize) -> (r: bool)
    requires
        at < xml.len(),
    ensures
        r == short_times_at(xml@, at as int),
{
    let c = xml[at];
    if c == '<' {
        // An attribute starts with a letter.
        proof {
            reveal_strlit("skipoffset");
            reveal_strlit("offset");
            reveal_strlit("duration");
            reveal_strlit("minSuggestedDuration");
            lemma_starts_otherwise(xml@, "skipoffset"@, at as int);
            lemma_starts_otherwise(xml@, "offset"@, at as int);
            lemma_starts_otherwise(xml@, "duration"@, at as int);
            lemma_starts_otherwise(xml@, "minSuggestedDuration"@, at as int);
        }
        check_element(xml, at)
    } else {
        proof {
            reveal_strlit("<Duration");
            lemma_starts_otherwise(xml@, "<Duration"@, at as int);
        }
        check_attribute(xml, "<Linear", "skipoffset", at) && check_attribute(
            xml,
            "<Tracking",
            "offset",
            at,
        ) && check_attribute(xml, "<Icon", "offset", at) && check_attribute(
            xml,
            "<Icon",
            "duration",
            at,
        ) && check_attribute(xml, "<NonLinear", "minSuggestedDuration", at)
    }
}

proof fn lemma_starts_otherwise(s: Seq<char>, part: Seq<char>, at: int)
    requires
        0 <= at < s.len(),
        part.len() > 0,
        part[0] != s[at],
    ensures
        !occurs_at(s, part, at),
{
    if occurs_at(s, part, at) {
        assert(s.subrange(at, at + part.len())[0] == s[at]);
    }
}

/// Whether no length of time of a document is too long.
pub fn has_short_times(xml: &Vec<char>) -> (r: bool)
    ensures
        r == short_times(xml@),
{
    for at in 0..xml.len()
        invariant
            forall|k: int| 0 <= k < at ==> #[trigger] short_times_at(xml@, k),
    {
        if !check_times_at(xml, at) {
            return false;
        }
    }
    true
}

/// A linear ad, as it stands in a document.
#[derive(Debug)]
pub struct Linear {
    /// How long it lasts, in whole seconds.
    pub duration: Option<u64>,
    /// The URIs of the media files.
    pub media_files: Option<Vec<String>>,
    /// The events to report: their names, their offsets, and the URIs.
    pub tracking_events: Option<Vec<(String, Option<String>, String)>>,
}

#[verifier::ext_equal]
pub struct LinearView {
    pub duration: Option<u64>,
    pub media_files: Option<Seq<Seq<char>>>,
    pub tracking_events: Option<Seq<(Seq<char>, Option<Seq<char>>, Seq<char>)>>,
}

pub open spec fn text_views(v: Seq<String>) -> Seq<Seq<char>> {
    v.map_values(|s: String| s@)
}

pub open spec fn event_views(v: Seq<(String, Option<String>, String)>) -> Seq<
    (Seq<char>, Option<Seq<char>>, Seq<char>),
> {
    v.map_values(|e: (String, Option<String>, String)| (e.0@, option_text(e.1), e.2@))
}

impl View for Linear {
    type V = LinearView;

    open spec fn view(&self) -> LinearView {
        LinearView {
            duration: self.duration,
            media_files: match self.media_files {
                Some(files) => Some(text_views(files@)),
                None => None,
            },
            tracking_events: match self.tracking_events {
                Some(events) => Some(event_views(events@)),
                None => None,
            },
        }
    }
}

/// A creative, as it stands in a document.
#[derive(Debug)]
pub struct Creative {
    /// The registries and values of its universal ad identifiers.
    pub universal_ad_ids: Vec<(String, String)>,
    pub linear: Option<Linear>,
}

#[verifier::ext_equal]
pub struct CreativeView {
    pub universal_ad_ids: Seq<(Seq<char>, Seq<char>)>,
    pub linear: Option<LinearView>,
}

impl View for Creative {
    type V = CreativeView;

    open spec fn view(&self) -> CreativeView {
        CreativeView {
            universal_ad_ids: pair_views(self.universal_ad_ids@),
            linear: match self.linear {
                Some(linear) => Some(linear@),
                None => None,
            },
        }
    }
}

pub open spec fn creative_views(v: Seq<Creative>) -> Seq<CreativeView> {
    v.map_values(|c: Creative| c@)
}

/// The creatives of each ad; an ad that refers to another document has none.
pub open spec fn ad_views(v: Seq<Option<Vec<Creative>>>) -> Seq<Option<Seq<CreativeView>>> {
    v.map_values(
        |a: Option<Vec<Creative>>|
            match a {
                Some(creatives) => Some(creative_views(creatives@)),
                None => None,
            },
    )
}

/// The identifiers, the length and the media files of a creative.
pub open spec fn media_part(c: CreativeView) -> (
    Seq<(Seq<char>, Seq<char>)>,
    Option<(Option<u64>, Option<Seq<Seq<char>>>)>,
) {
    (
        c.universal_ad_ids,
        match c.linear {
            Some(linear) => Some((linear.duration, linear.media_files)),
            None => None,
        },
    )
}

/// The events of a creative.
pub open spec fn event_part(c: CreativeView) -> Option<
    Option<Seq<(Seq<char>, Option<Seq<char>>, Seq<char>)>>,
> {
    match c.linear {
        Some(linear) => Some(linear.tracking_events),
        None => None,
    }
}

pub open spec fn media_view(
    m: (Vec<(String, String)>, Option<(Option<u64>, Option<Vec<String>>)>),
) -> (Seq<(Seq<char>, Seq<char>)>, Option<(Option<u64>, Option<Seq<Seq<char>>>)>) {
    (
        pair_views(m.0@),
        match m.1 {
            Some((duration, files)) => Some(
                (
                    duration,
                    match files {
                        Some(files) => Some(text_views(files@)),
                        None => None,
                    },
                ),
            ),
            None => None,
        },
    )
}

pub open spec fn event_view(e: Option<Option<Vec<(String, Option<String>, String)>>>) -> Option<
    Option<Seq<(Seq<char>, Option<Seq<char>>, Seq<char>)>>,
> {
    match e {
        Some(events) => Some(
            match events {
                Some(events) => Some(event_views(events@)),
                None => None,
            },
        ),
        None => None,
    }
}

/// Whether `parts` are the media parts of the creatives of `ads`.
pub open spec fn has_media_parts(
    ads: Seq<Option<Seq<CreativeView>>>,
    parts: Seq<
        Option<Vec<(Vec<(String, String)>, Option<(Option<u64>, Option<Vec<String>>)>)>>,
    >,
) -> bool {
    &&& parts.len() == ads.len()
    &&& forall|i: int|
        0 <= i < ads.len() ==> match #[trigger] parts[i] {
            Some(list) => ads[i] is Some && list@.len() == ads[i]->0.len() && forall|k: int|
                0 <= k < list@.len() ==> media_view(#[trigger] list@[k]) == media_part(
                    ads[i]->0[k],
                ),
            None => ads[i] is None,
        }
}

/// Whether `parts` are the events of the creatives of `ads`.
pub open spec fn has_event_parts(
    ads: Seq<Option<Seq<CreativeView>>>,
    parts: Seq<Option<Vec<Option<Option<Vec<(String, Option<String>, String)>>>>>>,
) -> bool {
    &&& parts.len() == ads.len()
    &&& forall|i: int|
        0 <= i < ads.len() ==> match #[trigger] parts[i] {
            Some(list) => ads[i] is Some && list@.len() == ads[i]->0.len() && forall|k: int|
                0 <= k < list@.len() ==> event_view(#[trigger] list@[k]) == event_part(
                    ads[i]->0[k],
                ),
            None => ads[i] is None,
        }
}

/// The creatives of each ad of a document; `None` for a text that `vast4_rs`
/// rejects.
pub uninterp spec fn ads_of(xml: Seq<char>) -> Option<Seq<Option<Seq<CreativeView>>>>;

/// `vast4_rs::from_str`, with the identifiers, the length and the media files
/// of each creative. It reckons a length of time in seconds and nanoseconds and
/// overflows where one is too long. A length of time that is not is no longer
/// than the longest segment.
#[verifier::external_body]
fn parse_media_parts(xml: &str) -> (r: Option<
    Vec<Option<Vec<(Vec<(String, String)>, Option<(Option<u64>, Option<Vec<String>>)>)>>>,
>)
    requires
        short_times(xml@),
    ensures
        match r {
            Some(parts) => ads_of(xml@) is Some && has_media_parts(ads_of(xml@)->0, parts@),
            None => ads_of(xml@) is None,
        },
        r matches Some(parts) ==> forall|i: int, k: int|
            0 <= i < parts@.len() && parts@[i] is Some && 0 <= k < parts@[i]->0@.len() ==> ((
            #[trigger] parts@[i]->0@[k]).1 matches Some(l) ==> (l.0 matches Some(d) ==> d
                <= LONGEST_SEGMENT)),
{
    let vast: vast4_rs::Vast = vast4_rs::from_str(xml).ok()?;
    Some(vast.ads.iter().map(|ad| ad.in_line.as_ref().map(|i| i.creatives.creatives.iter().map(|c| (
        c.universal_ad_id.iter().map(|u| (u.id_registry.to_string(), u.id.to_string())).collect(),
        c.linear.as_ref().map(|l| (
            l.duration.clone().map(|d| std::time::Duration::from(d).as_secs()),
            l.media_files.as_ref().map(|m| m.media_files.iter().map(|f| f.uri.to_string()).collect()),
        )),
    )).collect())).collect())
}

/// `vast4_rs::from_str`, with the events of each creative.
#[verifier::external_body]
fn parse_event_parts(xml: &str) -> (r: Option<
    Vec<Option<Vec<Option<Option<Vec<(String, Option<String>, String)>>>>>>,
>)
    requires
        short_times(xml@),
    ensures
        match r {
            Some(parts) => ads_of(xml@) is Some && has_event_parts(ads_of(xml@)->0, parts@),
            None => ads_of(xml@) is None,
        },
{
    let vast: vast4_rs::Vast = vast4_rs::from_str(xml).ok()?;
    Some(vast.ads.iter().map(|ad| ad.in_line.as_ref().map(|i| i.creatives.creatives.iter().map(|c| {
        c.linear.as_ref().map(|l| l.tracking_events.as_ref().map(|t| t.trackings.iter().map(|e| {
            (e.event.to_string(), e.offset.as_ref().map(|o| o.to_string()), e.uri.to_string())
        }).collect()))
    }).collect())).collect())
}

fn copy_text(text: &Option<String>) -> (r: Option<String>)
    ensures
        option_text(r) == option_text(*text),
{
    match text {
        Some(text) => Some(text.clone()),
        None => None,
    }
}

fn copy_texts(list: &Vec<String>) -> (r: Vec<String>)
    ensures
        text_views(r@) == text_views(list@),
{
    let mut r: Vec<String> = Vec::new();
    for i in 0..list.len()
        invariant
            r@.len() == i,
            forall|k: int| 0 <= k < i ==> (#[trigger] r@[k])@ == list@[k]@,
    {
        r.push(list[i].clone());
    }
    assert(text_views(r@) =~= text_views(list@));
    r
}

fn copy_pairs(list: &Vec<(String, String)>) -> (r: Vec<(String, String)>)
    ensures
        pair_views(r@) == pair_views(list@),
{
    let mut r: Vec<(String, String)> = Vec::new();
    for i in 0..list.len()
        invariant
            r@.len() == i,
            forall|k: int|
                0 <= k < i ==> (#[trigger] r@[k]).0@ == list@[k].0@ && r@[k].1@ == list@[k].1@,
    {
        let (a, b) = &list[i];
        r.push((a.clone(), b.clone()));
    }
    assert(pair_views(r@) =~= pair_views(list@));
    r
}

fn copy_events(list: &Vec<(String, Option<String>, String)>) -> (r: Vec<
    (String, Option<String>, String),
>)
    ensures
        event_views(r@) == event_views(list@),
{
    let mut r: Vec<(String, Option<String>, String)> = Vec::new();
    for i in 0..list.len()
        invariant
            r@.len() == i,
            forall|k: int|
                0 <= k < i ==> (#[trigger] r@[k]).0@ == list@[k].0@ && option_text(r@[k].1)
                    == option_text(list@[k].1) && r@[k].2@ == list@[k].2@,
    {
        let (event, offset, uri) = &list[i];
        r.push((event.clone(), copy_text(offset), uri.clone()));
    }
    assert(event_views(r@) =~= event_views(list@));
    r
}

/// A creative is put together from its parts.
fn assemble(
    media: &(Vec<(String, String)>, Option<(Option<u64>, Option<Vec<String>>)>),
    events: &Option<Option<Vec<(String, Option<String>, String)>>>,
    Ghost(c): Ghost<CreativeView>,
) -> (r: Creative)
    requires
        media_view(*media) == media_part(c),
        event_view(*events) == event_part(c),
    ensures
        r@ == c,
        r.linear matches Some(l) ==> media.1 is Some && l.duration == (media.1->0).0,
{
    let linear = match &media.1 {
        Some((duration, files)) => {
            let media_files = match files {
                Some(files) => Some(copy_texts(files)),
                None => None,
            };
            let tracking_events = match events.as_ref().unwrap() {
                Some(events) => Some(copy_events(events)),
                None => None,
            };
            Some(Linear { duration: *duration, media_files, tracking_events })
        },
        None => None,
    };
    Creative { universal_ad_ids: copy_pairs(&media.0), linear }
}

/// The creatives of a document, in order.
pub open spec fn all_creatives(ads: Seq<Option<Seq<CreativeView>>>) -> Seq<CreativeView>
    decreases ads.len(),
{
    if ads.len() == 0 {
        seq![]
    } else {
        all_creatives(ads.drop_last()) + match ads.last() {
            Some(creatives) => creatives,
            None => seq![],
        }
    }
}

/// The creatives of a document. A text that is no document, or has lengths of
/// time that are too long, has none.
pub open spec fn creatives_of(xml: Seq<char>) -> Seq<CreativeView> {
    if short_times(xml) {
        match ads_of(xml) {
            Some(ads) => all_creatives(ads),
            None => seq![],
        }
    } else {
        seq![]
    }
}

/// The creatives of each ad of a document.
pub fn read_vast(xml: &str) -> (r: Vec<Option<Vec<Creative>>>)
    ensures
        all_creatives(ad_views(r@)) == creatives_of(xml@),
        forall|i: int, k: int|
            0 <= i < r@.len() && r@[i] is Some && 0 <= k < r@[i]->0@.len() ==> ((
            #[trigger] r@[i]->0@[k]).linear matches Some(l) ==> (l.duration matches Some(d) ==> d
                <= LONGEST_SEGMENT)),
{
    let mut r: Vec<Option<Vec<Creative>>> = Vec::new();
    if has_short_times(&to_chars(xml)) {
        let media = parse_media_parts(xml);
        let events = parse_event_parts(xml);
        if media.is_some() {
            let media = media.unwrap();
            let events = events.unwrap();
            let ghost ads = ads_of(xml@)->0;
            for i in 0..media.len()
                invariant
                    has_media_parts(ads, media@),
                    has_event_parts(ads, events@),
                    forall|i: int, k: int|
                        0 <= i < media@.len() && media@[i] is Some && 0 <= k
                            < media@[i]->0@.len() ==> ((
                        #[trigger] media@[i]->0@[k]).1 matches Some(l) ==> (l.0 matches Some(d)
                            ==> d <= LONGEST_SEGMENT)),
                    r@.len() == i,
                    forall|n: int| 0 <= n < i ==> #[trigger] ad_views(r@)[n] == ads[n],
                    forall|n: int, k: int|
                        0 <= n < i && r@[n] is Some && 0 <= k < r@[n]->0@.len() ==> ((
                        #[trigger] r@[n]->0@[k]).linear matches Some(l) ==> (
                        l.duration matches Some(d) ==> d <= LONGEST_SEGMENT)),
            {
                let ghost before = r@;
                assert(has_media_parts(ads, media@));
                assert(media@[i as int] is Some <==> ads[i as int] is Some);
                assert(events@[i as int] is Some <==> ads[i as int] is Some);
                match &media[i] {
                    Some(media_list) => {
                        let event_list = events[i].as_ref().unwrap();
                        let ghost here = ads[i as int]->0;
                        let mut list: Vec<Creative> = Vec::new();
                        for k in 0..media_list.len()
                            invariant
                                media_list@.len() == here.len(),
                                event_list@.len() == here.len(),
                                forall|k: int|
                                    0 <= k < here.len() ==> media_view(#[trigger] media_list@[k])
                                        == media_part(here[k]),
                                forall|k: int|
                                    0 <= k < here.len() ==> event_view(#[trigger] event_list@[k])
                                        == event_part(here[k]),
                                forall|k: int|
                                    0 <= k < here.len() ==> ((
                                    #[trigger] media_list@[k]).1 matches Some(l) ==> (
                                    l.0 matches Some(d) ==> d <= LONGEST_SEGMENT)),
                                list@.len() == k,
                                forall|n: int| 0 <= n < k ==> (#[trigger] list@[n])@ == here[n],
                                forall|n: int|
                                    0 <= n < k ==> ((#[trigger] list@[n]).linear matches Some(l)
                                        ==> (l.duration matches Some(d) ==> d
                                        <= LONGEST_SEGMENT)),
                        {
                            assert(media_list@[k as int].1 matches Some(l) ==> (
                            l.0 matches Some(d) ==> d <= LONGEST_SEGMENT));
                            assert(event_view(event_list@[k as int]) == event_part(here[k as int]));
                            list.push(
                                assemble(&media_list[k], &event_list[k], Ghost(here[k as int])),
                            );
                        }
                        assert(creative_views(list@) =~= here);
                        r.push(Some(list));
                    },
                    None => {
                        r.push(None);
                    },
                }
                assert forall|n: int| 0 <= n < i + 1 implies #[trigger] ad_views(r@)[n]
                    == ads[n] by {
                    if n < i {
                        assert(ad_views(before)[n] == ads[n]);
                        assert(r@[n] == before[n]);
                    }
                }
            }
            assert(ad_views(r@) =~= ads);
            return r;
        }
    }
    assert(ad_views(r@) =~= seq![]);
    r
}

} // verus!
