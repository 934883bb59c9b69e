//! Master playlists: the URIs of the streams are made to lead back to the
//! proxy.

use vstd::prelude::*;

use crate::hls::{holds_stream, holds_streams, master_contents, master_text, print_master,
    read_master, set_stream_uri, spec_read_master, stream_lines, variant_views, variants,
    MasterView, Variant, VariantView};
use crate::preload::joined;
use crate::text::{append_chars, check_at, from_chars, has_part, has_prefix, join_texts,
    lemma_until, lemma_until_bound, line_views, lines, occurs_at, slice_chars, split_lines,
    starts_with, to_chars, until, without_return};
use crate::web::{is_http, parse_url, url_of, UrlView};

verus! {

/// What a proxied player asks for in place of an absolute URL: its path and
/// query.
pub open spec fn path_and_query(url: UrlView) -> Seq<char> {
    match url.query {
        Some(query) => url.path + "?"@ + query,
        None => url.path,
    }
}

/// The URI of a stream without scheme and host. Only a URI that starts with
/// `http` has them.
pub open spec fn relative_uri(uri: Seq<char>) -> Seq<char> {
    if has_prefix(uri, "http"@) {
        match url_of(uri) {
            Some(url) => path_and_query(url),
            None => uri,
        }
    } else {
        uri
    }
}

pub open spec fn relative_variant(v: VariantView) -> VariantView {
    match v {
        VariantView::Stream(uri) => VariantView::Stream(relative_uri(uri)),
        VariantView::IFrame(uri) => VariantView::IFrame(uri),
    }
}

pub open spec fn relative_master(m: MasterView) -> MasterView {
    MasterView {
        variants: m.variants.map_values(|v: VariantView| relative_variant(v)),
        ..m
    }
}

pub open spec fn has_valid_url(v: VariantView) -> bool {
    match v {
        VariantView::Stream(uri) => has_prefix(uri, "http"@) ==> url_of(uri) is Some,
        VariantView::IFrame(_) => true,
    }
}

/// Whether every URI of a stream that looks like an absolute URL is one.
pub open spec fn has_valid_urls(m: MasterView) -> bool {
    forall|i: int| 0 <= i < m.variants.len() ==> has_valid_url(#[trigger] m.variants[i])
}

/// Whether every URI of a stream that looks like a URL for HTTP is one.
pub open spec fn has_http_url(v: VariantView) -> bool {
    match v {
        VariantView::Stream(uri) => has_prefix(uri, "http"@) ==> (url_of(uri) matches Some(url)
            && is_http(url.text)),
        VariantView::IFrame(_) => true,
    }
}

pub open spec fn has_http_urls(m: MasterView) -> bool {
    forall|i: int| 0 <= i < m.variants.len() ==> has_http_url(#[trigger] m.variants[i])
}

proof fn lemma_path_is_relative(path: Seq<char>, rest: Seq<char>)
    requires
        has_prefix(path, "/"@),
    ensures
        !has_prefix(path + rest, "http"@),
{
    reveal_strlit("/");
    reveal_strlit("http");
    assert("/"@.len() == 1);
    assert("http"@.len() == 4);
    assert(path.subrange(0, 1)[0] == '/');
    if has_prefix(path + rest, "http"@) {
        assert((path + rest).subrange(0, 4)[0] == 'h');
    }
}

fn to_relative_uri(uri: &str) -> (r: Option<String>)
    ensures
        match r {
            Some(s) => {
                &&& s@ == relative_uri(uri@)
                &&& has_prefix(uri@, "http"@) ==> url_of(uri@) is Some
                &&& has_http_url(VariantView::Stream(uri@)) ==> !has_prefix(s@, "http"@)
            },
            None => has_prefix(uri@, "http"@) && url_of(uri@) is None,
        },
{
    if !starts_with(uri, "http") {
        return Some(uri.to_string());
    }
    match parse_url(uri) {
        Some(url) => {
            proof {
                if is_http(url.text@) {
                    lemma_path_is_relative(url.path@, seq![]);
                    assert(url.path@ + Seq::<char>::empty() =~= url.path@);
                    if url.query is Some {
                        lemma_path_is_relative(url.path@, "?"@ + url.query->0@);
                        assert(url.path@ + ("?"@ + url.query->0@) =~= url.path@ + "?"@
                            + url.query->0@);
                    }
                }
            }
            match &url.query {
                Some(query) => Some(
                    join_texts(join_texts(url.path.as_str(), "?").as_str(), query.as_str()),
                ),
                None => Some(url.path),
            }
        },
        None => None,
    }
}

fn check_urls(m3u8: &hls_m3u8::MasterPlaylist<'static>) -> (r: bool)
    ensures
        r == has_valid_urls(master_contents(*m3u8)),
{
    let all = variants(m3u8);
    let ghost views = variant_views(all@);
    for i in 0..all.len()
        invariant
            views == variant_views(all@),
            views == master_contents(*m3u8).variants,
            forall|k: int| 0 <= k < i ==> has_valid_url(#[trigger] views[k]),
    {
        assert(views[i as int] == all@[i as int]@);
        if let Variant::Stream(uri) = &all[i] {
            if to_relative_uri(uri.as_str()).is_none() {
                assert(!has_valid_url(views[i as int]));
                return false;
            }
        }
    }
    true
}

/// The absolute URLs of streams are replaced by their paths and queries. Where
/// they are URLs for HTTP, doing so again changes nothing.
pub fn replace_absolute_url_with_relative_url(m3u8: &mut hls_m3u8::MasterPlaylist<'static>)
    requires
        has_valid_urls(master_contents(*old(m3u8))),
    ensures
        master_contents(*final(m3u8)) == relative_master(master_contents(*old(m3u8))),
        has_http_urls(master_contents(*old(m3u8))) ==> {
            &&& has_valid_urls(master_contents(*final(m3u8)))
            &&& relative_master(master_contents(*final(m3u8))) == master_contents(*final(m3u8))
        },
{
    let ghost before = master_contents(*m3u8);
    let all = variants(m3u8);
    let ghost views = variant_views(all@);
    for i in 0..all.len()
        invariant
            views == variant_views(all@),
            views == before.variants,
            has_valid_urls(before),
            master_contents(*m3u8).source == before.source,
            master_contents(*m3u8).is_tidy == before.is_tidy,
            master_contents(*m3u8).variants.len() == views.len(),
            has_http_urls(before) ==> forall|k: int|
                0 <= k < i ==> (#[trigger] master_contents(*m3u8).variants[k]
                    matches VariantView::Stream(uri) ==> !has_prefix(uri, "http"@)),
            forall|k: int|
                0 <= k < i ==> #[trigger] master_contents(*m3u8).variants[k] == relative_variant(
                    views[k],
                ),
            forall|k: int|
                i <= k < views.len() ==> #[trigger] master_contents(*m3u8).variants[k] == views[k],
    {
        assert(views[i as int] == all@[i as int]@);
        assert(has_http_urls(before) ==> has_http_url(before.variants[i as int]));
        match &all[i] {
            Variant::Stream(uri) => {
                if let Some(relative) = to_relative_uri(uri.as_str()) {
                    set_stream_uri(m3u8, i, relative);
                }
            },
            Variant::IFrame(_) => {},
        }
    }
    assert(master_contents(*m3u8) =~= relative_master(before));
    assert(has_http_urls(before) ==> relative_master(master_contents(*m3u8)) =~= master_contents(
        *m3u8,
    ));
}

/// The directory of a path: what stands before its last slash.
pub open spec fn directory(path: Seq<char>) -> Seq<char>
    decreases path.len(),
{
    if path.len() == 0 {
        path
    } else if path.last() == '/' {
        path.drop_last()
    } else {
        directory(path.drop_last())
    }
}

fn find_directory(path: &Vec<char>) -> (r: Vec<char>)
    ensures
        r@ == directory(path@),
{
    let mut end: usize = path.len();
    assert(path@.take(end as int) == path@);
    while end > 0
        invariant
            end <= path@.len(),
            directory(path@) == directory(path@.take(end as int)),
        decreases end,
    {
        assert(path@.take(end as int).drop_last() == path@.take(end - 1));
        end -= 1;
        if path[end] == '/' {
            assert(path@.subrange(0, end as int) == path@.take(end as int));
            return slice_chars(path, 0, end);
        }
    }
    assert(path@.take(0) =~= seq![]);
    Vec::new()
}

/// A line that is a URI relative to the playlist.
pub open spec fn is_relative_line(line: Seq<char>) -> bool {
    !has_prefix(line, "#"@) && !has_prefix(line, "http"@) && !has_prefix(line, "/"@)
}

/// Line `i`, with `dir` before it where it is the relative URI of a stream.
pub open spec fn anchored_line(all: Seq<Seq<char>>, dir: Seq<char>, i: int) -> Seq<char> {
    if i > 0 && has_prefix(all[i - 1], "#EXT-X-STREAM-INF"@) && is_relative_line(all[i]) {
        dir + "/"@ + all[i]
    } else {
        all[i]
    }
}

pub open spec fn anchored_lines(all: Seq<Seq<char>>, dir: Seq<char>) -> Seq<Seq<char>> {
    Seq::new(all.len(), |i: int| anchored_line(all, dir, i))
}

/// A printed master playlist that is served at `path`: the relative URIs of
/// its streams start from the root.
pub open spec fn anchored(text: Seq<char>, path: Seq<char>) -> Seq<char> {
    let dir = directory(path);
    if dir.len() == 0 {
        text
    } else {
        joined(anchored_lines(lines(text), dir))
    }
}

fn check_relative_line(line: &Vec<char>) -> (r: bool)
    ensures
        r == is_relative_line(line@),
{
    !check_at(line, &to_chars("#"), 0) && !check_at(line, &to_chars("http"), 0) && !check_at(
        line,
        &to_chars("/"),
        0,
    )
}

pub fn anchor_variants(text: &str, path: &str) -> (r: String)
    ensures
        r@ == anchored(text@, path@),
{
    let dir = find_directory(&to_chars(path));
    if dir.len() == 0 {
        return text.to_string();
    }
    let all = split_lines(&to_chars(text));
    let stream_inf = to_chars("#EXT-X-STREAM-INF");
    let ghost views = lines(text@);
    let ghost expected = anchored_lines(views, dir@);
    let mut out: Vec<char> = Vec::new();
    let mut after_stream_inf = false;
    assert(expected.take(0) == Seq::<Seq<char>>::empty());
    for i in 0..all.len()
        invariant
            views == line_views(all@),
            expected == anchored_lines(views, dir@),
            stream_inf@ == "#EXT-X-STREAM-INF"@,
            after_stream_inf == (i > 0 && has_prefix(views[i - 1], "#EXT-X-STREAM-INF"@)),
            out@ == joined(expected.take(i as int)),
    {
        assert(views[i as int] == all@[i as int]@);
        assert(expected.take(i + 1).drop_last() == expected.take(i as int));
        assert(expected.take(i + 1).last() == anchored_line(views, dir@, i as int));
        let ghost before = out@;
        if after_stream_inf && check_relative_line(&all[i]) {
            append_chars(&mut out, &dir);
            append_chars(&mut out, &to_chars("/"));
        }
        append_chars(&mut out, &all[i]);
        out.push('\n');
        assert(out@ =~= before + anchored_line(views, dir@, i as int).push('\n'));
        after_stream_inf = check_at(&all[i], &stream_inf, 0);
    }
    assert(expected.take(expected.len() as int) == expected);
    from_chars(&out)
}

/// What is served for a playlist of the origin.
#[derive(Debug)]
pub enum PlaylistReply {
    /// A changed playlist.
    Changed(String),
    /// The text of the origin: it is not a playlist of the kind expected, or
    /// does not say when it takes place.
    Unchanged,
    /// The playlist cannot be served: a stream's URI is not a URL, or breaks or
    /// segments span too much time.
    Broken,
}

pub enum PlaylistReplyView {
    Changed(Seq<char>),
    Unchanged,
    Broken,
}

impl View for PlaylistReply {
    type V = PlaylistReplyView;

    open spec fn view(&self) -> PlaylistReplyView {
        match self {
            PlaylistReply::Changed(text) => PlaylistReplyView::Changed(text@),
            PlaylistReply::Unchanged => PlaylistReplyView::Unchanged,
            PlaylistReply::Broken => PlaylistReplyView::Broken,
        }
    }
}

/// What is served at `path` for a master playlist.
pub open spec fn master_playlist_reply(m: MasterView, path: Seq<char>) -> PlaylistReplyView {
    if has_valid_urls(m) {
        PlaylistReplyView::Changed(anchored(master_text(relative_master(m)), path))
    } else {
        PlaylistReplyView::Broken
    }
}

/// Whether `reply` is what is served at `path` for a master playlist, and the
/// text that it was made from has the URI of every stream on the line after
/// that of its attributes.
pub open spec fn is_master_reply(
    reply: PlaylistReplyView,
    m: MasterView,
    path: Seq<char>,
) -> bool {
    &&& reply == master_playlist_reply(m, path)
    &&& reply is Changed ==> holds_streams(master_text(relative_master(m)), relative_master(m))
}

/// The text that is served at `path` for a master playlist.
pub fn handle_master_playlist_content(
    playlist: hls_m3u8::MasterPlaylist<'static>,
    path: &str,
) -> (r: PlaylistReply)
    ensures
        r@ == master_playlist_reply(master_contents(playlist), path@),
        master_contents(playlist).is_tidy ==> is_master_reply(
            r@,
            master_contents(playlist),
            path@,
        ),
{
    let mut m3u8 = playlist;
    if !check_urls(&m3u8) {
        return PlaylistReply::Broken;
    }
    replace_absolute_url_with_relative_url(&mut m3u8);
    PlaylistReply::Changed(anchor_variants(print_master(&m3u8).as_str(), path))
}

/// The text that is served at `path` where the origin has `text` there, and a
/// master playlist is expected.
pub fn handle_master_playlist(text: &str, path: &str) -> (r: PlaylistReply)
    ensures
        match spec_read_master(text@) {
            Some(m) => is_master_reply(r@, m, path@),
            None => r@ == PlaylistReplyView::Unchanged,
        },
{
    match read_master(text) {
        Some(playlist) => handle_master_playlist_content(playlist, path),
        None => PlaylistReply::Unchanged,
    }
}

/// Lines keep their number and order, and only the relative URI of a stream is
/// changed: it then starts with the directory.
pub proof fn other_lines_stay(all: Seq<Seq<char>>, dir: Seq<char>, i: int)
    requires
        0 <= i < all.len(),
    ensures
        anchored_lines(all, dir).len() == all.len(),
        anchored_lines(all, dir)[i] == all[i] || anchored_lines(all, dir)[i] == dir + "/"@
            + all[i],
        anchored_lines(all, dir)[i] != all[i] ==> i > 0 && has_prefix(
            all[i - 1],
            "#EXT-X-STREAM-INF"@,
        ) && is_relative_line(all[i]),
{
}

/// The streams of a rewritten playlist are asked for at the proxy: an absolute
/// URL is replaced by its path and query, any other URI is kept.
pub proof fn streams_lead_to_the_proxy(m: MasterView, i: int)
    requires
        has_valid_urls(m),
        0 <= i < m.variants.len(),
        m.variants[i] is Stream,
    ensures
        ({
            let uri = m.variants[i]->Stream_0;
            let new_uri = relative_master(m).variants[i]->Stream_0;
            if has_prefix(uri, "http"@) {
                new_uri == path_and_query(url_of(uri)->0)
            } else {
                new_uri == uri
            }
        }),
{
    assert(has_valid_url(m.variants[i]));
}

/// Two lines behind each other are lines of a text behind each other.
proof fn lemma_two_lines(s: Seq<char>, first: Seq<char>, second: Seq<char>)
    requires
        has_part(s, seq!['\n'] + first + seq!['\n'] + second + seq!['\n']),
        !first.contains('\n'),
        !second.contains('\n'),
    ensures
        exists|k: int|
            0 < k < lines(s).len() && #[trigger] lines(s)[k] == without_return(second) && lines(
                s,
            )[k - 1] == without_return(first),
    decreases s.len(),
{
    let part = seq!['\n'] + first + seq!['\n'] + second + seq!['\n'];
    let at = choose|at: int| occurs_at(s, part, at);
    let here = s.subrange(at, at + part.len());
    assert(here == part);
    assert(s[at] == here[0]);
    lemma_until_bound(s, '\n');
    let end = until(s, '\n') as int;
    assert(end <= at) by {
        if at < end {
            assert(s[at] != '\n');
        }
    }
    let rest = s.skip(end + 1);
    let all = lines(s);
    assert(all == seq![without_return(s.take(end))] + lines(rest));
    if end == at {
        let n = first.len() as int;
        assert forall|j: int| 0 <= j < n implies rest[j] != '\n' && rest[j] == first[j] by {
            assert(rest[j] == here[j + 1]);
            assert(here[j + 1] == first[j]);
            assert(first.contains(first[j]));
        }
        assert(rest[n] == here[n + 1]);
        lemma_until(rest, '\n', first.len());
        assert(rest.take(n) =~= first);
        let tail = rest.skip(n + 1);
        let m = second.len() as int;
        assert forall|j: int| 0 <= j < m implies tail[j] != '\n' && tail[j] == second[j] by {
            assert(tail[j] == here[n + 2 + j]);
            assert(here[n + 2 + j] == second[j]);
            assert(second.contains(second[j]));
        }
        assert(tail[m] == here[n + 2 + m]);
        lemma_until(tail, '\n', second.len());
        assert(tail.take(m) =~= second);
        assert(lines(rest) == seq![without_return(first)] + lines(tail));
        assert(lines(tail)[0] == without_return(second));
        assert(all[2] == without_return(second));
        assert(all[1] == without_return(first));
    } else {
        let shifted = at - end - 1;
        assert(rest.subrange(shifted, shifted + part.len()) =~= here);
        assert(occurs_at(rest, part, shifted));
        lemma_two_lines(rest, first, second);
        let k = choose|k: int|
            0 < k < lines(rest).len() && #[trigger] lines(rest)[k] == without_return(second)
                && lines(rest)[k - 1] == without_return(first);
        assert(all[k + 1] == without_return(second));
        assert(all[k] == without_return(first));
    }
}

/// Every stream of a printed master playlist is asked for at the proxy: the
/// line of its URI stands behind that of its attributes, and it starts with
/// the directory where it is relative.
pub proof fn every_stream_is_anchored(text: Seq<char>, uri: Seq<char>, dir: Seq<char>)
    requires
        holds_stream(text, uri),
        !uri.contains('\n'),
        uri.len() > 0 ==> uri.last() != '\r',
    ensures
        exists|k: int|
            {
                &&& 0 < k < anchored_lines(lines(text), dir).len()
                &&& has_prefix(lines(text)[k - 1], "#EXT-X-STREAM-INF"@)
                &&& lines(text)[k] == uri
                &&& #[trigger] anchored_lines(lines(text), dir)[k] == (if is_relative_line(uri) {
                    dir + "/"@ + uri
                } else {
                    uri
                })
            },
{
    let attributes = choose|attributes: Seq<char>|
        !attributes.contains('\n') && has_part(text, #[trigger] stream_lines(attributes, uri));
    let tag = "#EXT-X-STREAM-INF:"@;
    let short = "#EXT-X-STREAM-INF"@;
    reveal_strlit("\n#EXT-X-STREAM-INF:");
    reveal_strlit("#EXT-X-STREAM-INF:");
    reveal_strlit("#EXT-X-STREAM-INF");
    reveal_strlit("\n");
    assert(tag.len() == 18);
    assert(short.len() == 17);
    let first = tag + attributes;
    assert("\n#EXT-X-STREAM-INF:"@ =~= seq!['\n'] + tag);
    assert("\n"@ =~= seq!['\n']);
    assert(stream_lines(attributes, uri) =~= seq!['\n'] + first + seq!['\n'] + uri + seq!['\n']);
    assert(!first.contains('\n')) by {
        if first.contains('\n') {
            let j = choose|j: int| 0 <= j < first.len() && first[j] == '\n';
            if j >= 18 {
                assert(attributes[j - 18] == '\n');
            }
        }
    }
    lemma_two_lines(text, first, uri);
    let all = lines(text);
    let k = choose|k: int|
        0 < k < all.len() && #[trigger] all[k] == without_return(uri) && all[k - 1]
            == without_return(first);
    assert(all[k - 1].subrange(0, 17) =~= short);
    assert(all[k] == uri);
    assert(anchored_lines(all, dir)[k] == anchored_line(all, dir, k));
}

} // verus!
