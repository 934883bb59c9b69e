//! Laws of playlists: where the streams of a master playlist are asked for,
//! and where preload hints stand.

use vstd::prelude::*;

use crate::hls::{date_range_line, date_range_of, master_text, AttributeView, DateRangeView,
    MasterView, VariantView};
use crate::master::{anchored_line, anchored_lines, directory, every_stream_is_anchored,
    has_valid_url, has_valid_urls, is_master_reply, is_relative_line, master_playlist_reply,
    other_lines_stay, relative_master, relative_uri, PlaylistReplyView};
use crate::preload::{attribute, joined, preload, with_preloads};
use crate::readable::readable_line;
use crate::text::{has_part, has_prefix, is_space, lemma_until, lemma_until_bound, lines,
    trimmed_start, until, without_return};
use crate::web::url_of;

verus! {

/// Whether a text starts with `head`.
pub open spec fn begins_with(text: Seq<char>, head: Seq<char>) -> bool {
    text.len() >= head.len() && text.take(head.len() as int) == head
}

proof fn lemma_begins_with(text: Seq<char>, head: Seq<char>)
    ensures
        begins_with(text, head) <==> has_prefix(text, head),
{
    if text.len() >= head.len() {
        assert(text.take(head.len() as int) =~= text.subrange(0, head.len() as int));
    }
}

/// An absolute URL of a stream is replaced by exactly its path, or by its path,
/// a question mark and its query where it has one. Any other URI is kept.
pub proof fn absolute_urls_become_paths(uri: Seq<char>)
    ensures
        !begins_with(uri, "http"@) ==> relative_uri(uri) == uri,
        begins_with(uri, "http"@) && url_of(uri) is Some && url_of(uri)->0.query is None
            ==> relative_uri(uri) == url_of(uri)->0.path,
        begins_with(uri, "http"@) && url_of(uri) is Some && url_of(uri)->0.query is Some
            ==> relative_uri(uri) == url_of(uri)->0.path + "?"@ + url_of(uri)->0.query->0,
{
    lemma_begins_with(uri, "http"@);
}

/// A path is its directory, a slash and a name, where the name has no slash. A
/// path without a slash has no directory.
pub proof fn a_directory_stands_before_the_last_slash(dir: Seq<char>, name: Seq<char>)
    requires
        !name.contains('/'),
    ensures
        directory(dir + "/"@ + name) == dir,
        directory(name).len() == 0,
    decreases name.len(),
{
    reveal_strlit("/");
    let path = dir + "/"@ + name;
    if name.len() == 0 {
        assert(path.drop_last() =~= dir);
        assert(path.last() == '/');
    } else {
        let shorter = name.drop_last();
        assert forall|j: int| 0 <= j < shorter.len() implies shorter[j] != '/' by {
            assert(name.contains(name[j]));
        }
        assert(name.contains(name[name.len() - 1]));
        a_directory_stands_before_the_last_slash(dir, shorter);
        assert(path.drop_last() =~= dir + "/"@ + shorter);
        assert(path.last() == name.last());
    }
}

proof fn lemma_lines_of_joined(all: Seq<Seq<char>>)
    requires
        forall|i: int| 0 <= i < all.len() ==> !(#[trigger] all[i]).contains('\n'),
    ensures
        lines(joined(all)).len() == all.len(),
        forall|i: int|
            0 <= i < all.len() ==> #[trigger] lines(joined(all))[i] == without_return(all[i]),
    decreases all.len(),
{
    if all.len() > 0 {
        let rest = all.skip(1);
        let text = joined(all);
        lemma_joined_front(all);
        assert forall|i: int| 0 <= i < rest.len() implies !(#[trigger] rest[i]).contains(
            '\n',
        ) by {
            assert(rest[i] == all[i + 1]);
        }
        lemma_lines_of_joined(rest);
        let first = all[0];
        assert(!first.contains('\n'));
        assert forall|j: int| 0 <= j < first.len() implies text[j] != '\n' by {
            assert(text[j] == first[j]);
            assert(first.contains(first[j]));
        }
        assert(text[first.len() as int] == '\n');
        lemma_until(text, '\n', first.len());
        assert(text.take(first.len() as int) =~= first);
        assert(text.skip(first.len() as int + 1) =~= joined(rest));
        assert(lines(text) == seq![without_return(first)] + lines(joined(rest)));
        assert forall|i: int| 0 <= i < all.len() implies #[trigger] lines(text)[i]
            == without_return(all[i]) by {
            if i > 0 {
                assert(lines(text)[i] == lines(joined(rest))[i - 1]);
                assert(all[i] == rest[i - 1]);
            }
        }
    }
}

proof fn lemma_joined_front(all: Seq<Seq<char>>)
    requires
        all.len() > 0,
    ensures
        joined(all) == all[0] + seq!['\n'] + joined(all.skip(1)),
    decreases all.len(),
{
    if all.len() == 1 {
        assert(all.drop_last() =~= Seq::<Seq<char>>::empty());
        assert(all.skip(1) =~= Seq::<Seq<char>>::empty());
        assert(joined(all) =~= all[0] + seq!['\n'] + joined(all.skip(1)));
    } else {
        let shorter = all.drop_last();
        lemma_joined_front(shorter);
        assert(all.skip(1).drop_last() =~= shorter.skip(1));
        assert(joined(all) =~= all[0] + seq!['\n'] + joined(all.skip(1)));
    }
}

/// Lines that are joined to a text are read back from it, each without the
/// carriage return at its end.
pub proof fn joined_lines_are_read_back(all: Seq<Seq<char>>, i: int)
    requires
        forall|k: int| 0 <= k < all.len() ==> !(#[trigger] all[k]).contains('\n'),
        0 <= i < all.len(),
    ensures
        lines(joined(all)).len() == all.len(),
        all[i].len() == 0 || all[i].last() != '\r' ==> lines(joined(all))[i] == all[i],
        all[i].len() > 0 && all[i].last() == '\r' ==> lines(joined(all))[i] == all[i].drop_last(),
{
    lemma_lines_of_joined(all);
}

proof fn lemma_no_line_ends(s: Seq<char>)
    ensures
        forall|i: int| 0 <= i < lines(s).len() ==> !(#[trigger] lines(s)[i]).contains('\n'),
    decreases s.len(),
{
    lemma_until_bound(s, '\n');
    let end = until(s, '\n') as int;
    if s.len() > 0 {
        if end < s.len() {
            let rest = s.skip(end + 1);
            lemma_no_line_ends(rest);
            let first = without_return(s.take(end));
            assert(lines(s) == seq![first] + lines(rest));
            assert forall|i: int| 0 <= i < lines(s).len() implies !(
            #[trigger] lines(s)[i]).contains('\n') by {
                if i > 0 {
                    assert(lines(s)[i] == lines(rest)[i - 1]);
                } else if lines(s)[0].contains('\n') {
                    let j = choose|j: int| 0 <= j < first.len() && first[j] == '\n';
                    assert(s[j] == '\n');
                }
            }
        } else {
            assert(lines(s) == seq![s]);
            if s.contains('\n') {
                let j = choose|j: int| 0 <= j < s.len() && s[j] == '\n';
                assert(s[j] != '\n');
            }
        }
    }
}

/// Where a player that plays through the proxy asks for a stream.
pub open spec fn asked_for_at(uri: Seq<char>) -> Seq<char> {
    if begins_with(uri, "http"@) {
        match url_of(uri)->0.query {
            Some(query) => url_of(uri)->0.path + "?"@ + query,
            None => url_of(uri)->0.path,
        }
    } else {
        uri
    }
}

/// Whether a text has a stream whose URI is written as `uri`.
pub open spec fn serves_stream(text: Seq<char>, uri: Seq<char>) -> bool {
    exists|k: int|
        {
            &&& 0 < k < lines(text).len()
            &&& begins_with(lines(text)[k - 1], "#EXT-X-STREAM-INF"@)
            &&& #[trigger] lines(text)[k] == uri
        }
}

/// Every stream of a master playlist stands in the text that is served for it:
/// at its path and query where it was an absolute URL, in the directory of the
/// playlist where it was relative, and as it was where it started from the
/// root.
#[verifier::rlimit(40)]
pub proof fn every_stream_is_served(
    text: Seq<char>,
    m: MasterView,
    dir: Seq<char>,
    name: Seq<char>,
    uri: Seq<char>,
    i: int,
)
    requires
        is_master_reply(PlaylistReplyView::Changed(text), m, dir + "/"@ + name),
        !name.contains('/'),
        !dir.contains('\n'),
        0 <= i < m.variants.len(),
        m.variants[i] == VariantView::Stream(uri),
        !asked_for_at(uri).contains('\n'),
        asked_for_at(uri).len() > 0,
        asked_for_at(uri).last() != '\r',
    ensures
        ({
            let at = asked_for_at(uri);
            if dir.len() == 0 || begins_with(at, "#"@) || begins_with(at, "http"@) || begins_with(
                at,
                "/"@,
            ) {
                serves_stream(text, at)
            } else {
                serves_stream(text, dir + "/"@ + at)
            }
        }),
{
    let at = asked_for_at(uri);
    let path = dir + "/"@ + name;
    absolute_urls_become_paths(uri);
    a_directory_stands_before_the_last_slash(dir, name);
    lemma_begins_with(uri, "http"@);
    lemma_begins_with(at, "#"@);
    lemma_begins_with(at, "http"@);
    lemma_begins_with(at, "/"@);
    assert(has_valid_urls(m));
    assert(has_valid_url(m.variants[i]));
    let r = relative_master(m);
    let printed = master_text(r);
    assert(r.variants[i] == VariantView::Stream(at));
    every_stream_is_anchored(printed, at, dir);
    let all = lines(printed);
    let out = anchored_lines(all, dir);
    let k = choose|k: int|
        {
            &&& 0 < k < out.len()
            &&& has_prefix(all[k - 1], "#EXT-X-STREAM-INF"@)
            &&& all[k] == at
            &&& #[trigger] out[k] == (if is_relative_line(at) {
                dir + "/"@ + at
            } else {
                at
            })
        };
    let tag = "#EXT-X-STREAM-INF"@;
    if dir.len() == 0 {
        lemma_begins_with(all[k - 1], tag);
        assert(text == printed);
        assert(serves_stream(text, at));
    } else {
        lemma_no_line_ends(printed);
        assert forall|j: int| 0 <= j < out.len() implies !(#[trigger] out[j]).contains('\n') by {
            other_lines_stay(all, dir, j);
            assert(!all[j].contains('\n'));
            if out[j].contains('\n') {
                reveal_strlit("/");
                let p = choose|p: int| 0 <= p < out[j].len() && out[j][p] == '\n';
                if out[j] != all[j] {
                    if p < dir.len() {
                        assert(dir[p] == '\n');
                    } else if p > dir.len() {
                        assert(all[j][p - dir.len() - 1] == '\n');
                    }
                }
            }
        }
        lemma_lines_of_joined(out);
        assert(text == joined(out));
        assert(out[k].last() == at.last());
        assert(lines(text)[k] == out[k]);
        assert(lines(text)[k - 1] == without_return(out[k - 1]));
        let before = all[k - 1];
        reveal_strlit("#EXT-X-STREAM-INF");
        reveal_strlit("#");
        assert(tag.len() == 17);
        assert(before.subrange(0, 17) == tag);
        assert(before.subrange(0, 1) =~= tag.subrange(0, 1));
        assert("#"@ =~= tag.subrange(0, 1));
        assert(has_prefix(before, "#"@));
        other_lines_stay(all, dir, k - 1);
        assert(out[k - 1] == before);
        assert(before[16] == tag[16]);
        assert(without_return(before).take(17) =~= tag);
    }
}

/// Nothing else of a master playlist is changed: it keeps its streams and their
/// order, and the playlists of I-frames stay as they are.
pub proof fn a_master_playlist_keeps_its_streams(m: MasterView, i: int)
    requires
        0 <= i < m.variants.len(),
    ensures
        relative_master(m).source == m.source,
        relative_master(m).is_tidy == m.is_tidy,
        relative_master(m).variants.len() == m.variants.len(),
        m.variants[i] is IFrame ==> relative_master(m).variants[i] == m.variants[i],
        m.variants[i] is Stream ==> relative_master(m).variants[i] is Stream,
        m.variants[i] is Stream && !begins_with(m.variants[i]->Stream_0, "http"@)
            ==> relative_master(m).variants[i] == m.variants[i],
{
    if m.variants[i] is Stream {
        lemma_begins_with(m.variants[i]->Stream_0, "http"@);
    }
}

/// Every line of a printed master playlist is served, in its order. One that
/// does not stand behind the attributes of a stream is served as it is.
pub proof fn other_lines_are_served_as_they_are(
    text: Seq<char>,
    m: MasterView,
    dir: Seq<char>,
    name: Seq<char>,
    k: int,
)
    requires
        master_playlist_reply(m, dir + "/"@ + name) == PlaylistReplyView::Changed(text),
        !name.contains('/'),
        !dir.contains('\n'),
        dir.len() > 0,
        0 <= k < lines(master_text(relative_master(m))).len(),
    ensures
        lines(text).len() == lines(master_text(relative_master(m))).len(),
        k == 0 || !begins_with(
            lines(master_text(relative_master(m)))[k - 1],
            "#EXT-X-STREAM-INF"@,
        ) ==> lines(text)[k] == without_return(lines(master_text(relative_master(m)))[k]),
{
    let printed = master_text(relative_master(m));
    let all = lines(printed);
    let out = anchored_lines(all, dir);
    a_directory_stands_before_the_last_slash(dir, name);
    lemma_no_line_ends(printed);
    assert forall|j: int| 0 <= j < out.len() implies !(#[trigger] out[j]).contains('\n') by {
        other_lines_stay(all, dir, j);
        assert(!all[j].contains('\n'));
        if out[j].contains('\n') {
            reveal_strlit("/");
            let p = choose|p: int| 0 <= p < out[j].len() && out[j][p] == '\n';
            if out[j] != all[j] {
                if p < dir.len() {
                    assert(dir[p] == '\n');
                } else if p > dir.len() {
                    assert(all[j][p - dir.len() - 1] == '\n');
                }
            }
        }
    }
    lemma_lines_of_joined(out);
    assert(out[k] == anchored_line(all, dir, k));
    if k > 0 {
        lemma_begins_with(all[k - 1], "#EXT-X-STREAM-INF"@);
    }
}

/// A master playlist that is served at the root is served as it is printed.
pub proof fn nothing_is_added_at_the_root(
    text: Seq<char>,
    m: MasterView,
    name: Seq<char>,
)
    requires
        master_playlist_reply(m, "/"@ + name) == PlaylistReplyView::Changed(text),
        !name.contains('/'),
    ensures
        text == master_text(relative_master(m)),
{
    a_directory_stands_before_the_last_slash(seq![], name);
    assert(Seq::<char>::empty() + "/"@ + name =~= "/"@ + name);
}

/// A master playlist cannot be served exactly where the URI of a stream looks
/// like an absolute URL and is none.
pub proof fn a_bad_url_breaks_a_master_playlist(m: MasterView, path: Seq<char>)
    ensures
        master_playlist_reply(m, path) is Broken <==> exists|i: int|
            {
                &&& 0 <= i < m.variants.len()
                &&& #[trigger] m.variants[i] is Stream
                &&& begins_with(m.variants[i]->Stream_0, "http"@)
                &&& url_of(m.variants[i]->Stream_0) is None
            },
        !(master_playlist_reply(m, path) is Unchanged),
{
    assert forall|i: int| 0 <= i < m.variants.len() implies (has_valid_url(#[trigger] m.variants[i])
        <==> !(m.variants[i] is Stream && begins_with(m.variants[i]->Stream_0, "http"@) && url_of(
        m.variants[i]->Stream_0,
    ) is None)) by {
        if m.variants[i] is Stream {
            lemma_begins_with(m.variants[i]->Stream_0, "http"@);
        }
    }
}

/// Whether `value` is the value of the first attribute of that name; `None`
/// where there is no such attribute.
pub open spec fn is_first_attribute(
    attributes: Seq<(Seq<char>, AttributeView)>,
    key: Seq<char>,
    value: Option<AttributeView>,
) -> bool {
    match value {
        Some(v) => exists|i: int|
            {
                &&& 0 <= i < attributes.len()
                &&& (#[trigger] attributes[i]).0 == key
                &&& attributes[i].1 == v
                &&& forall|j: int| 0 <= j < i ==> (#[trigger] attributes[j]).0 != key
            },
        None => forall|j: int| 0 <= j < attributes.len() ==> (#[trigger] attributes[j]).0 != key,
    }
}

proof fn lemma_attribute(attributes: Seq<(Seq<char>, AttributeView)>, key: Seq<char>, i: int)
    requires
        0 <= i <= attributes.len(),
        forall|j: int| 0 <= j < i ==> (#[trigger] attributes[j]).0 != key,
        i < attributes.len() ==> attributes[i].0 == key,
    ensures
        attribute(attributes, key) == (if i < attributes.len() {
            Some(attributes[i].1)
        } else {
            None
        }),
    decreases attributes.len(),
{
    if i > 0 {
        assert(attributes[0].0 != key);
        let rest = attributes.skip(1);
        assert forall|j: int| 0 <= j < i - 1 implies (#[trigger] rest[j]).0 != key by {
            assert(rest[j] == attributes[j + 1]);
        }
        lemma_attribute(rest, key, i - 1);
    }
}

/// Of several attributes of one name the first one counts.
pub proof fn the_first_attribute_counts(
    attributes: Seq<(Seq<char>, AttributeView)>,
    key: Seq<char>,
    value: Option<AttributeView>,
)
    requires
        is_first_attribute(attributes, key, value),
    ensures
        attribute(attributes, key) == value,
{
    match value {
        Some(v) => {
            let i = choose|i: int|
                {
                    &&& 0 <= i < attributes.len()
                    &&& (#[trigger] attributes[i]).0 == key
                    &&& attributes[i].1 == v
                    &&& forall|j: int| 0 <= j < i ==> (#[trigger] attributes[j]).0 != key
                };
            lemma_attribute(attributes, key, i);
        },
        None => lemma_attribute(attributes, key, attributes.len() as int),
    }
}

/// The asset that a hint is for: the asset of its target, or else its list of
/// assets. One that is not a text is none.
pub open spec fn hinted_at(
    asset: Option<AttributeView>,
    list: Option<AttributeView>,
) -> Option<Seq<char>> {
    match (asset, list) {
        (Some(AttributeView::Text(uri)), _) => Some(uri),
        (None, Some(AttributeView::Text(uri))) => Some(uri),
        _ => None,
    }
}

/// A target has a preload hint exactly where it has a start, a class, a
/// duration and an asset. The hint names its target by class and identifier,
/// and the asset; it starts and lasts as its target does, and has an identifier
/// and a class of its own.
pub proof fn a_hint_tells_of_its_target(
    target: DateRangeView,
    asset: Option<AttributeView>,
    list: Option<AttributeView>,
)
    requires
        is_first_attribute(target.attributes, "X-ASSET-URI"@, asset),
        is_first_attribute(target.attributes, "X-ASSET-LIST"@, list),
    ensures
        preload(target) is Some <==> target.start_date is Some && target.class is Some
            && target.duration is Some && hinted_at(asset, list) is Some,
        preload(target) matches Some(hint) ==> {
            &&& hint.id == target.id + "-preload"@
            &&& hint.class == Some("com.apple.hls.preload"@)
            &&& hint.start_date == target.start_date
            &&& hint.duration == target.duration
            &&& hint.attributes == seq![
                ("X-TARGET-CLASS"@, AttributeView::Text(target.class->0)),
                ("X-TARGET-ID"@, AttributeView::Text(target.id)),
                ("X-URI"@, AttributeView::Text(hinted_at(asset, list)->0)),
            ]
        },
{
    the_first_attribute_counts(target.attributes, "X-ASSET-URI"@, asset);
    the_first_attribute_counts(target.attributes, "X-ASSET-LIST"@, list);
}

proof fn lemma_trimmed_start(space: Seq<char>, rest: Seq<char>)
    requires
        forall|i: int| 0 <= i < space.len() ==> is_space(#[trigger] space[i]),
        rest.len() == 0 || !is_space(rest[0]),
    ensures
        trimmed_start(space + rest) == rest,
    decreases space.len(),
{
    if space.len() == 0 {
        assert(space + rest =~= rest);
    } else {
        assert(is_space(space[0]));
        assert((space + rest).skip(1) =~= space.skip(1) + rest);
        lemma_trimmed_start(space.skip(1), rest);
    }
}

/// Whether a line, behind the white space at its start, is the date range of an
/// interstitial, whose contents are `target`.
pub open spec fn is_interstitial_line(
    line: Seq<char>,
    space: Seq<char>,
    tag: Seq<char>,
    target: DateRangeView,
) -> bool {
    &&& line == space + tag
    &&& forall|i: int| 0 <= i < space.len() ==> is_space(#[trigger] space[i])
    &&& begins_with(tag, "#EXT-X-DATERANGE:"@)
    &&& has_part(tag, "CLASS=\"com.apple.hls.interstitial\""@)
    &&& readable_line(tag, 0)
    &&& date_range_of(tag) == Some(target)
}

/// Each line of a playlist is kept, in its order. The date range of an
/// interstitial that has a preload hint is given the line of that hint directly
/// before it.
pub proof fn a_hint_stands_before_its_interstitial(
    all: Seq<Seq<char>>,
    line: Seq<char>,
    space: Seq<char>,
    tag: Seq<char>,
    target: DateRangeView,
)
    requires
        is_interstitial_line(line, space, tag, target),
    ensures
        preload(target) matches Some(hint) ==> with_preloads(all.push(line)) == with_preloads(
            all,
        ).push(date_range_line(hint)).push(line),
        preload(target) is None ==> with_preloads(all.push(line)) == with_preloads(all).push(
            line,
        ),
{
    reveal_strlit("#EXT-X-DATERANGE:");
    assert("#EXT-X-DATERANGE:"@.len() == 17);
    assert(tag.take(17)[0] == '#');
    assert(!is_space(tag[0]));
    lemma_trimmed_start(space, tag);
    lemma_begins_with(tag, "#EXT-X-DATERANGE:"@);
    assert(all.push(line).drop_last() == all);
}

/// Any other line stands where it stood, with nothing before it: one that is
/// no date range, and one of another class.
pub proof fn other_lines_have_no_hint(
    all: Seq<Seq<char>>,
    space: Seq<char>,
    rest: Seq<char>,
)
    requires
        forall|i: int| 0 <= i < space.len() ==> is_space(#[trigger] space[i]),
        rest.len() == 0 || !is_space(rest[0]),
        !begins_with(rest, "#EXT-X-DATERANGE:"@) || !has_part(
            rest,
            "CLASS=\"com.apple.hls.interstitial\""@,
        ),
    ensures
        with_preloads(all.push(space + rest)) == with_preloads(all).push(space + rest),
        with_preloads(Seq::<Seq<char>>::empty()).len() == 0,
{
    lemma_trimmed_start(space, rest);
    lemma_begins_with(rest, "#EXT-X-DATERANGE:"@);
    assert(all.push(space + rest).drop_last() == all);
}

} // verus!
