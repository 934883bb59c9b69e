//! Preload hints: each interstitial of a playlist is announced by a date range
//! of its own, so that players can fetch it early.

use vstd::prelude::*;

use crate::hls::{attribute_views, date_range_line, option_text, AttributeValue, AttributeView,
    DateRange, DateRangeView};
use crate::text::{append_chars, check_at, join_texts, find, from_chars, has_part, has_prefix,
    line_views, lines, same_text, split_lines, to_chars, trim_start, trimmed_start};

verus! {

/// The value of the first attribute with the given name.
pub open spec fn attribute(attributes: Seq<(Seq<char>, AttributeView)>, key: Seq<char>) -> Option<
    AttributeView,
>
    decreases attributes.len(),
{
    if attributes.len() == 0 {
        None
    } else if attributes[0].0 == key {
        Some(attributes[0].1)
    } else {
        attribute(attributes.skip(1), key)
    }
}

/// The resource of an interstitial: its asset, or else its list of assets. A
/// resource that is not a string is none.
pub open spec fn resource(attributes: Seq<(Seq<char>, AttributeView)>) -> Option<Seq<char>> {
    let value = if attribute(attributes, "X-ASSET-URI"@) is Some {
        attribute(attributes, "X-ASSET-URI"@)
    } else {
        attribute(attributes, "X-ASSET-LIST"@)
    };
    match value {
        Some(AttributeView::Text(uri)) => Some(uri),
        _ => None,
    }
}

/// The preload hint of an interstitial. It has an identifier of its own, and
/// the start and the duration of its target. There is none for a target that
/// lacks what a hint must have: a resource, a start, a class or a duration.
pub open spec fn preload(target: DateRangeView) -> Option<DateRangeView> {
    match (resource(target.attributes), target.start_date, target.class, target.duration) {
        (Some(uri), Some(start_date), Some(class), Some(duration)) => Some(
            DateRangeView {
                id: target.id + "-preload"@,
                class: Some("com.apple.hls.preload"@),
                start_date: Some(start_date),
                duration: Some(duration),
                attributes: seq![
                    ("X-TARGET-CLASS"@, AttributeView::Text(class)),
                    ("X-TARGET-ID"@, AttributeView::Text(target.id)),
                    ("X-URI"@, AttributeView::Text(uri)),
                ],
            },
        ),
        _ => None,
    }
}

fn find_attribute<'a>(attributes: &'a Vec<(String, AttributeValue)>, key: &str) -> (r: Option<
    &'a AttributeValue,
>)
    ensures
        match r {
            Some(v) => attribute(attribute_views(attributes@), key@) == Some(v@),
            None => attribute(attribute_views(attributes@), key@) is None,
        },
{
    let ghost views = attribute_views(attributes@);
    assert(views.skip(0) == views);
    for i in 0..attributes.len()
        invariant
            views == attribute_views(attributes@),
            attribute(views, key@) == attribute(views.skip(i as int), key@),
    {
        let (name, value) = &attributes[i];
        assert(views.skip(i as int)[0] == (attributes@[i as int].0@, attributes@[i as int].1@));
        assert(views.skip(i as int).skip(1) == views.skip(i + 1));
        if same_text(name.as_str(), key) {
            return Some(value);
        }
    }
    None
}

fn find_resource(attributes: &Vec<(String, AttributeValue)>) -> (r: Option<String>)
    ensures
        option_text(r) == resource(attribute_views(attributes@)),
{
    let value = match find_attribute(attributes, "X-ASSET-URI") {
        Some(value) => Some(value),
        None => find_attribute(attributes, "X-ASSET-LIST"),
    };
    match value {
        Some(AttributeValue::Text(uri)) => Some(uri.clone()),
        _ => None,
    }
}

pub open spec fn option_range(o: Option<DateRange>) -> Option<DateRangeView> {
    match o {
        Some(range) => Some(range@),
        None => None,
    }
}

pub fn build_preload_date_range(target: &DateRange) -> (r: Option<DateRange>)
    ensures
        option_range(r) == preload(target@),
        (target.duration matches Some(d) ==> d.wf()) ==> (r matches Some(range)
            ==> range@.buildable()),
{
    let uri = match find_resource(&target.attributes) {
        Some(uri) => uri,
        None => return None,
    };
    let start_date = match &target.start_date {
        Some(text) => text.clone(),
        None => return None,
    };
    let class = match &target.class {
        Some(text) => text.clone(),
        None => return None,
    };
    let duration = match target.duration {
        Some(duration) => duration,
        None => return None,
    };
    let mut attributes: Vec<(String, AttributeValue)> = Vec::new();
    attributes.push(("X-TARGET-CLASS".to_string(), AttributeValue::Text(class)));
    attributes.push(("X-TARGET-ID".to_string(), AttributeValue::Text(target.id.clone())));
    attributes.push(("X-URI".to_string(), AttributeValue::Text(uri)));
    let range = DateRange {
        id: join_texts(target.id.as_str(), "-preload"),
        class: Some("com.apple.hls.preload".to_string()),
        start_date: Some(start_date),
        duration: Some(duration),
        attributes,
    };
    assert(range@.attributes =~= preload(target@)->0.attributes);
    Some(range)
}

/// The line of the preload hint that stands before a line: there is one where
/// the line is the date range of an interstitial.
pub open spec fn preload_line(line: Seq<char>) -> Option<Seq<char>> {
    let l = trimmed_start(line);
    if has_prefix(l, "#EXT-X-DATERANGE:"@) && has_part(
        l,
        "CLASS=\"com.apple.hls.interstitial\""@,
    ) {
        match DateRange::spec_from_line(l) {
            Some(target) => match preload(target) {
                Some(hint) => Some(date_range_line(hint)),
                None => None,
            },
            None => None,
        }
    } else {
        None
    }
}

fn find_preload_line(line: &Vec<char>) -> (r: Option<String>)
    ensures
        option_text(r) == preload_line(line@),
{
    let l = trim_start(line);
    if !check_at(&l, &to_chars("#EXT-X-DATERANGE:"), 0) {
        return None;
    }
    if find(&l, &to_chars("CLASS=\"com.apple.hls.interstitial\"")).is_none() {
        return None;
    }
    match DateRange::from_line(from_chars(&l).as_str()) {
        Some(target) => match build_preload_date_range(&target) {
            Some(hint) => Some(hint.to_line()),
            None => None,
        },
        None => None,
    }
}

/// Lines with a preload hint before each interstitial.
pub open spec fn with_preloads(all: Seq<Seq<char>>) -> Seq<Seq<char>>
    decreases all.len(),
{
    if all.len() == 0 {
        seq![]
    } else {
        let before = with_preloads(all.drop_last());
        match preload_line(all.last()) {
            Some(hint) => before.push(hint).push(all.last()),
            None => before.push(all.last()),
        }
    }
}

/// A text made of lines, each with a line end.
pub open spec fn joined(all: Seq<Seq<char>>) -> Seq<char>
    decreases all.len(),
{
    if all.len() == 0 {
        seq![]
    } else {
        joined(all.drop_last()) + all.last().push('\n')
    }
}

proof fn lemma_joined_push(all: Seq<Seq<char>>, line: Seq<char>)
    ensures
        joined(all.push(line)) == joined(all) + line.push('\n'),
{
    assert(all.push(line).drop_last() == all);
}

/// A preload hint is put before each interstitial of a printed playlist. A
/// segment can have one date range only, so this is done on the text.
pub fn inject_preload_date_ranges(playlist_str: &str) -> (r: String)
    ensures
        r@ == joined(with_preloads(lines(playlist_str@))),
{
    let all = split_lines(&to_chars(playlist_str));
    let ghost views = lines(playlist_str@);
    let mut out: Vec<char> = Vec::new();
    assert(views.take(0) == Seq::<Seq<char>>::empty());
    for i in 0..all.len()
        invariant
            views == line_views(all@),
            out@ == joined(with_preloads(views.take(i as int))),
    {
        let ghost before = with_preloads(views.take(i as int));
        assert(views.take(i + 1).drop_last() == views.take(i as int));
        assert(views.take(i + 1).last() == all@[i as int]@);
        let ghost start = out@;
        if let Some(hint) = find_preload_line(&all[i]) {
            append_chars(&mut out, &to_chars(hint.as_str()));
            out.push('\n');
            proof {
                lemma_joined_push(before, hint@);
                lemma_joined_push(before.push(hint@), all@[i as int]@);
                assert(out@ =~= start + hint@.push('\n'));
            }
        } else {
            proof {
                lemma_joined_push(before, all@[i as int]@);
            }
        }
        let ghost middle = out@;
        append_chars(&mut out, &all[i]);
        out.push('\n');
        assert(out@ =~= middle + all@[i as int]@.push('\n'));
    }
    assert(views.take(views.len() as int) == views);
    from_chars(&out)
}

/// A preload hint has an identifier that its target has not, names its target
/// by identifier and class, and starts and lasts as its target does.
pub proof fn a_preload_points_at_its_target(target: DateRangeView)
    requires
        preload(target) is Some,
    ensures
        ({
            let hint = preload(target)->0;
            &&& hint.id != target.id
            &&& hint.start_date == target.start_date
            &&& hint.duration == target.duration
            &&& hint.start_date is Some && hint.duration is Some
            &&& attribute(hint.attributes, "X-TARGET-ID"@) == Some(AttributeView::Text(target.id))
            &&& attribute(hint.attributes, "X-TARGET-CLASS"@) == Some(
                AttributeView::Text(target.class->0),
            )
            &&& attribute(hint.attributes, "X-URI"@) == Some(
                AttributeView::Text(resource(target.attributes)->0),
            )
        }),
{
    let hint = preload(target)->0;
    let a = hint.attributes;
    reveal_strlit("-preload");
    assert("-preload"@.len() == 8);
    assert(hint.id.len() == target.id.len() + 8);
    reveal_strlit("X-TARGET-ID");
    reveal_strlit("X-TARGET-CLASS");
    reveal_strlit("X-URI");
    assert("X-TARGET-ID"@.len() == 11);
    assert("X-TARGET-CLASS"@.len() == 14);
    assert("X-URI"@.len() == 5);
    reveal_with_fuel(attribute, 4);
    assert(a.skip(1)[0] == a[1]);
    assert(a.skip(1).skip(1)[0] == a[2]);
}

/// How many of some lines are given a preload hint.
pub open spec fn hints(all: Seq<Seq<char>>) -> nat
    decreases all.len(),
{
    if all.len() == 0 {
        0
    } else {
        hints(all.drop_last()) + if preload_line(all.last()) is Some {
            1nat
        } else {
            0
        }
    }
}

/// Every line is kept, in its order; each interstitial has its preload hint on
/// the line directly before it; and nothing else is added.
pub proof fn lines_are_kept(all: Seq<Seq<char>>, i: int)
    requires
        0 <= i < all.len(),
    ensures
        ({
            let at = i + hints(all.take(i + 1));
            let out = with_preloads(all);
            &&& out.len() == all.len() + hints(all)
            &&& i <= at < out.len()
            &&& out[at] == all[i]
            &&& preload_line(all[i]) matches Some(hint) ==> at > 0 && out[at - 1] == hint
        }),
    decreases all.len(),
{
    lemma_length(all);
    if i < all.len() - 1 {
        lines_are_kept(all.drop_last(), i);
        lemma_length(all.drop_last());
        assert(all.drop_last().take(i + 1) == all.take(i + 1));
    } else {
        assert(all.take(i + 1) == all);
        lemma_length(all.drop_last());
    }
}

proof fn lemma_length(all: Seq<Seq<char>>)
    ensures
        with_preloads(all).len() == all.len() + hints(all),
    decreases all.len(),
{
    if all.len() > 0 {
        lemma_length(all.drop_last());
    }
}

} // verus!
