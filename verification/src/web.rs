//! URLs and query strings, through the `url` crate.

use vstd::prelude::*;

use crate::hls::option_text;
use crate::text::{has_prefix, position, slice_chars, to_chars, until};

verus! {

/// What the proxy reads of a URL.
#[derive(Debug)]
pub struct UrlParts {
    /// The URL in normal form.
    pub text: String,
    pub path: String,
    pub query: Option<String>,
}

#[verifier::ext_equal]
pub struct UrlView {
    pub text: Seq<char>,
    pub path: Seq<char>,
    pub query: Option<Seq<char>>,
}

impl View for UrlParts {
    type V = UrlView;

    open spec fn view(&self) -> UrlView {
        UrlView { text: self.text@, path: self.path@, query: option_text(self.query) }
    }
}

/// Keys and values, in order.
pub open spec fn pair_views(v: Seq<(String, String)>) -> Seq<(Seq<char>, Seq<char>)> {
    v.map_values(|p: (String, String)| (p.0@, p.1@))
}

/// How many bytes a character takes in UTF-8.
pub open spec fn utf8_len(c: char) -> nat {
    let code: u32 = c as u32;
    if code < 0x80 {
        1
    } else if code < 0x800 {
        2
    } else if code < 0x1_0000 {
        3
    } else {
        4
    }
}

/// Whether a character stands for itself in a query.
pub open spec fn is_query_char(c: char) -> bool {
    '!' <= c <= '~' && c != '"' && c != '#' && c != '<' && c != '>' && c != '\''
}

/// Whether a character stands for itself in an encoded key or value.
pub open spec fn is_form_char(c: char) -> bool {
    ||| 'a' <= c <= 'z'
    ||| 'A' <= c <= 'Z'
    ||| '0' <= c <= '9'
    ||| c == '*' || c == '-' || c == '.' || c == '_'
}

/// Whether every character of a text stands for itself in a query.
pub open spec fn is_plain_query(s: Seq<char>) -> bool {
    forall|i: int| 0 <= i < s.len() ==> is_query_char(#[trigger] s[i])
}

/// How many bytes a character takes at most in a query: those that do not
/// stand for themselves take three for each byte, but tabs and line ends are
/// left out.
pub open spec fn query_len(c: char) -> nat {
    if c == '\t' || c == '\n' || c == '\r' {
        0
    } else if is_query_char(c) {
        1
    } else {
        3 * utf8_len(c)
    }
}

/// How many bytes a character takes in an encoded key or value.
pub open spec fn form_len(c: char) -> nat {
    if is_form_char(c) || c == ' ' {
        1
    } else {
        3 * utf8_len(c)
    }
}

/// How many bytes a text takes at most as a query.
pub open spec fn query_bytes(s: Seq<char>) -> nat
    decreases s.len(),
{
    if s.len() == 0 {
        0
    } else {
        query_bytes(s.drop_last()) + query_len(s.last())
    }
}

/// How many bytes a text takes as an encoded key or value.
pub open spec fn form_bytes(s: Seq<char>) -> nat
    decreases s.len(),
{
    if s.len() == 0 {
        0
    } else {
        form_bytes(s.drop_last()) + form_len(s.last())
    }
}

/// How many bytes a text takes at most as a path: each of its own takes up to
/// three.
pub open spec fn path_bytes(s: Seq<char>) -> nat
    decreases s.len(),
{
    if s.len() == 0 {
        0
    } else {
        path_bytes(s.drop_last()) + 3 * utf8_len(s.last())
    }
}

/// How many bytes keys and values take as a query, with what stands between
/// them.
pub open spec fn pairs_bytes(pairs: Seq<(Seq<char>, Seq<char>)>) -> nat
    decreases pairs.len(),
{
    if pairs.len() == 0 {
        0
    } else {
        let separator: nat = if pairs.len() > 1 {
            1
        } else {
            0
        };
        pairs_bytes(pairs.drop_last()) + separator + form_bytes(pairs.last().0) + 1 + form_bytes(
            pairs.last().1,
        )
    }
}

/// What `url` can count: the bytes before a query and before a fragment are
/// counted in 32 bits.
pub const LAST_PLACE: u64 = 0xffff_ffff;

/// The URL that a text holds; `None` where `url` rejects the text.
pub uninterp spec fn url_of(text: Seq<char>) -> Option<UrlView>;

/// The URL that a reference names when it stands in the document at `base`.
pub uninterp spec fn joined_url(base: Seq<char>, reference: Seq<char>) -> Option<Seq<char>>;

/// A URL with its path replaced.
pub uninterp spec fn url_with_path(url: Seq<char>, path: Seq<char>) -> Option<Seq<char>>;

/// A URL with its query replaced, or taken away.
pub uninterp spec fn url_with_query(url: Seq<char>, query: Option<Seq<char>>) -> Option<Seq<char>>;

/// A URL with its query replaced by encoded keys and values.
pub uninterp spec fn url_with_pairs(url: Seq<char>, pairs: Seq<(Seq<char>, Seq<char>)>) -> Option<
    Seq<char>,
>;

/// The keys and values that a query string encodes.
pub uninterp spec fn pairs_of(query: Seq<char>) -> Seq<(Seq<char>, Seq<char>)>;

/// Whether a URL in normal form is one for HTTP.
pub open spec fn is_http(text: Seq<char>) -> bool {
    has_prefix(text, "http://"@) || has_prefix(text, "https://"@)
}

/// What stands before the query and the fragment of a URL in normal form:
/// scheme, host, port and path.
pub open spec fn before_query(text: Seq<char>) -> Seq<char> {
    let plain = text.take(until(text, '#') as int);
    plain.take(until(plain, '?') as int)
}

pub open spec fn has_fragment(text: Seq<char>) -> bool {
    until(text, '#') < text.len()
}

/// Whether the place of the query of a URL in normal form can be counted.
pub open spec fn is_counted(text: Seq<char>) -> bool {
    before_query(text).len() <= LAST_PLACE
}

/// The fragment of a URL in normal form, with the `#` before it.
pub open spec fn fragment_part(text: Seq<char>) -> Seq<char> {
    text.skip(until(text, '#') as int)
}

/// Whether the query of a URL in normal form can be replaced: the place of a
/// fragment behind it can still be counted.
pub open spec fn has_room(text: Seq<char>, query: Option<Seq<char>>) -> bool {
    &&& is_counted(text)
    &&& has_fragment(text) ==> (query matches Some(q) ==> before_query(text).len() + 1
        + query_bytes(q) <= LAST_PLACE)
}

/// Whether the query of a URL in normal form can be replaced by keys and
/// values.
pub open spec fn has_room_for_pairs(text: Seq<char>, pairs: Seq<(Seq<char>, Seq<char>)>) -> bool {
    &&& is_counted(text)
    &&& has_fragment(text) ==> before_query(text).len() + 1 + pairs_bytes(pairs) <= LAST_PLACE
}

/// Whether the path of a URL in normal form can be replaced. A slash at its
/// start may take three bytes, or be added.
pub open spec fn has_room_for_path(text: Seq<char>, path: Seq<char>) -> bool {
    text.len() + 1 + path_bytes(path) <= LAST_PLACE
}

fn utf8_length(c: char) -> (r: u64)
    ensures
        r == utf8_len(c),
{
    let code: u32 = c as u32;
    if code < 0x80 {
        1
    } else if code < 0x800 {
        2
    } else if code < 0x1_0000 {
        3
    } else {
        4
    }
}

fn query_length(c: char) -> (r: u64)
    ensures
        r == query_len(c),
        r <= 12,
{
    if c == '\t' || c == '\n' || c == '\r' {
        0
    } else if '!' <= c && c <= '~' && c != '"' && c != '#' && c != '<' && c != '>' && c != '\'' {
        1
    } else {
        3 * utf8_length(c)
    }
}

fn form_length(c: char) -> (r: u64)
    ensures
        r == form_len(c),
        r <= 12,
{
    if ('a' <= c && c <= 'z') || ('A' <= c && c <= 'Z') || ('0' <= c && c <= '9') || c == '*' || c
        == '-' || c == '.' || c == '_' || c == ' ' {
        1
    } else {
        3 * utf8_length(c)
    }
}

proof fn lemma_bytes_grow(s: Seq<char>, k: int)
    requires
        0 <= k <= s.len(),
    ensures
        query_bytes(s.take(k)) <= query_bytes(s),
        form_bytes(s.take(k)) <= form_bytes(s),
        path_bytes(s.take(k)) <= path_bytes(s),
    decreases s.len() - k,
{
    if k < s.len() {
        lemma_bytes_grow(s, k + 1);
        assert(s.take(k + 1).drop_last() == s.take(k));
    } else {
        assert(s.take(k) == s);
    }
}

/// Whether a query takes no more than `room` bytes.
fn check_query_bytes(query: &str, room: u64) -> (r: bool)
    requires
        room <= LAST_PLACE,
    ensures
        r == (query_bytes(query@) <= room),
{
    let chars = to_chars(query);
    let mut sum: u64 = 0;
    assert(chars@.take(0) =~= seq![]);
    for i in 0..chars.len()
        invariant
            chars@ == query@,
            sum == query_bytes(chars@.take(i as int)),
            sum <= room <= LAST_PLACE,
    {
        assert(chars@.take(i + 1).drop_last() == chars@.take(i as int));
        sum = sum + query_length(chars[i]);
        if sum > room {
            proof {
                lemma_bytes_grow(chars@, i + 1);
            }
            return false;
        }
    }
    assert(chars@.take(chars@.len() as int) == chars@);
    true
}

/// How many bytes a text takes as an encoded key or value; `None` where there
/// are more than can be counted.
pub(crate) fn count_form_bytes(s: &str) -> (r: Option<u64>)
    ensures
        match r {
            Some(n) => n == form_bytes(s@) && n <= LAST_PLACE,
            None => form_bytes(s@) > LAST_PLACE,
        },
{
    let chars = to_chars(s);
    let mut sum: u64 = 0;
    assert(chars@.take(0) =~= seq![]);
    for i in 0..chars.len()
        invariant
            chars@ == s@,
            sum == form_bytes(chars@.take(i as int)),
            sum <= LAST_PLACE,
    {
        assert(chars@.take(i + 1).drop_last() == chars@.take(i as int));
        sum = sum + form_length(chars[i]);
        if sum > LAST_PLACE {
            proof {
                lemma_bytes_grow(chars@, i + 1);
            }
            return None;
        }
    }
    assert(chars@.take(chars@.len() as int) == chars@);
    Some(sum)
}

pub(crate) fn check_room_for_path(text: &str, path: &str) -> (r: bool)
    ensures
        r == has_room_for_path(text@, path@),
{
    let length = text.unicode_len();
    if length as u64 >= LAST_PLACE {
        return false;
    }
    let room: u64 = LAST_PLACE - length as u64 - 1;
    let chars = to_chars(path);
    let mut sum: u64 = 0;
    assert(chars@.take(0) =~= seq![]);
    for i in 0..chars.len()
        invariant
            chars@ == path@,
            sum == path_bytes(chars@.take(i as int)),
            sum <= room,
            room == LAST_PLACE - text@.len() - 1,
    {
        assert(chars@.take(i + 1).drop_last() == chars@.take(i as int));
        sum = sum + 3 * utf8_length(chars[i]);
        if sum > room {
            proof {
                lemma_bytes_grow(chars@, i + 1);
            }
            return false;
        }
    }
    assert(chars@.take(chars@.len() as int) == chars@);
    true
}

/// What stands for itself takes as many bytes as it has characters.
pub(crate) proof fn lemma_form_bytes(s: Seq<char>)
    requires
        forall|i: int| 0 <= i < s.len() ==> is_form_char(#[trigger] s[i]),
    ensures
        form_bytes(s) == s.len(),
    decreases s.len(),
{
    if s.len() > 0 {
        assert(is_form_char(s[s.len() - 1]));
        assert forall|i: int| 0 <= i < s.drop_last().len() implies is_form_char(
            #[trigger] s.drop_last()[i],
        ) by {
            assert(s.drop_last()[i] == s[i]);
        }
        lemma_form_bytes(s.drop_last());
    }
}

/// How many bytes stand before the query of a URL in normal form; `None` where
/// there are more than can be counted.
pub(crate) fn count_before_query(text: &str) -> (r: Option<u64>)
    ensures
        match r {
            Some(n) => is_counted(text@) && n == before_query(text@).len(),
            None => !is_counted(text@),
        },
{
    let chars = to_chars(text);
    let plain = slice_chars(&chars, 0, position(&chars, '#'));
    assert(plain@ == text@.take(until(text@, '#') as int));
    let end = position(&plain, '?');
    assert(before_query(text@).len() == end);
    if end as u64 <= LAST_PLACE {
        Some(end as u64)
    } else {
        None
    }
}

pub(crate) fn check_fragment(text: &str) -> (r: bool)
    ensures
        r == has_fragment(text@),
{
    let chars = to_chars(text);
    position(&chars, '#') < chars.len()
}

/// `Url::parse`, with the URL's text, path and query. The path of a URL for
/// HTTP starts with a slash.
#[verifier::external_body]
pub(crate) fn parse_url(text: &str) -> (r: Option<UrlParts>)
    ensures
        match r {
            Some(url) => url_of(text@) == Some(url@) && (is_http(url.text@) ==> has_prefix(
                url.path@,
                "/"@,
            )),
            None => url_of(text@) is None,
        },
{
    let url = url::Url::parse(text).ok()?;
    Some(UrlParts {
        text: url.to_string(),
        path: url.path().to_string(),
        query: url.query().map(|q| q.to_string()),
    })
}

/// `Url::join`, on a base that is parsed first.
#[verifier::external_body]
pub(crate) fn join_url(base: &str, reference: &str) -> (r: Option<String>)
    ensures
        option_text(r) == joined_url(base@, reference@),
{
    Some(url::Url::parse(base).ok()?.join(reference).ok()?.to_string())
}

/// `Url::set_path`, on a URL that is parsed first.
#[verifier::external_body]
pub(crate) fn set_path(url: &str, path: &str) -> (r: Option<String>)
    requires
        url_of(url@) matches Some(parts) ==> has_room_for_path(parts.text, path@),
    ensures
        option_text(r) == url_with_path(url@, path@),
        r is Some <==> url_of(url@) is Some,
{
    let mut changed = url::Url::parse(url).ok()?;
    changed.set_path(path);
    Some(changed.to_string())
}

/// `Url::set_query`, on a URL that is parsed first. What stands before the
/// query is kept, and so is the whole URL where the query is its own. A query
/// of characters that stand for themselves is put between the two parts of the
/// URL as it is.
#[verifier::external_body]
fn set_query(url: &str, query: &Option<String>) -> (r: Option<String>)
    requires
        url_of(url@) matches Some(parts) ==> has_room(parts.text, option_text(*query)),
    ensures
        option_text(r) == url_with_query(url@, option_text(*query)),
        r is Some <==> url_of(url@) is Some,
        r matches Some(u) ==> query is Some ==> has_prefix(
            u@,
            before_query(url_of(url@)->0.text) + "?"@,
        ),
        r matches Some(u) ==> query is Some && url_of(url@)->0.query == option_text(*query) ==> u@
            == url_of(url@)->0.text,
        r matches Some(u) ==> option_text(*query) matches Some(q) ==> is_plain_query(q) ==> u@
            == before_query(url_of(url@)->0.text) + "?"@ + q + fragment_part(url_of(url@)->0.text),
{
    let mut changed = url::Url::parse(url).ok()?;
    changed.set_query(query.as_deref());
    Some(changed.to_string())
}

/// A URL with its query replaced, or taken away, where it has room for it.
pub open spec fn with_query(url: Seq<char>, query: Option<Seq<char>>) -> Option<Seq<char>> {
    match url_of(url) {
        Some(parts) => if has_room(parts.text, query) {
            url_with_query(url, query)
        } else {
            None
        },
        None => None,
    }
}

/// Whether a URL with another query is the same as before up to the query, and
/// all the same where the query is. A query of characters that stand for
/// themselves is found in it as it is.
pub open spec fn keeps_address(
    changed: Seq<char>,
    url: Seq<char>,
    query: Option<Seq<char>>,
) -> bool {
    &&& url_of(url) matches Some(parts)
    &&& query is Some ==> has_prefix(changed, before_query(parts.text) + "?"@)
    &&& query is Some && parts.query == query ==> changed == parts.text
    &&& query matches Some(q) ==> is_plain_query(q) ==> changed == before_query(parts.text) + "?"@
        + q + fragment_part(parts.text)
}

pub fn replace_query(url: &str, query: &Option<String>) -> (r: Option<String>)
    ensures
        option_text(r) == with_query(url@, option_text(*query)),
        r matches Some(changed) ==> keeps_address(changed@, url@, option_text(*query)),
{
    let parts = match parse_url(url) {
        Some(parts) => parts,
        None => return None,
    };
    let length = match count_before_query(parts.text.as_str()) {
        Some(length) => length,
        None => return None,
    };
    if let Some(query) = query {
        if check_fragment(parts.text.as_str()) {
            if length == LAST_PLACE || !check_query_bytes(
                query.as_str(),
                LAST_PLACE - length - 1,
            ) {
                return None;
            }
        }
    }
    set_query(url, query)
}

/// `Url::query_pairs_mut`, cleared and filled, on a URL that is parsed first.
/// From the query of a URL for HTTP the keys and values are read back.
#[verifier::external_body]
pub(crate) fn set_pairs(url: &str, pairs: &Vec<(String, String)>) -> (r: Option<String>)
    requires
        url_of(url@) matches Some(parts) ==> has_room_for_pairs(parts.text, pair_views(pairs@)),
    ensures
        option_text(r) == url_with_pairs(url@, pair_views(pairs@)),
        r is Some <==> url_of(url@) is Some,
        r matches Some(u) ==> is_http(u@) ==> {
            &&& url_of(u@) matches Some(v)
            &&& v.query matches Some(q)
            &&& pairs_of(q) == pair_views(pairs@)
        },
{
    let mut changed = url::Url::parse(url).ok()?;
    changed.query_pairs_mut().clear().extend_pairs(pairs.iter());
    Some(changed.to_string())
}

/// `form_urlencoded::parse`.
#[verifier::external_body]
pub(crate) fn parse_pairs(query: &str) -> (r: Vec<(String, String)>)
    ensures
        pair_views(r@) == pairs_of(query@),
{
    url::form_urlencoded::parse(query.as_bytes()).into_owned().collect()
}

} // verus!
