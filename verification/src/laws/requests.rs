//! Laws of requests: how they are routed, what they ask for, and how the ad
//! server is asked.

use vstd::prelude::*;

use crate::assets::test_asset_list;
use crate::config::ServerConfig;
use crate::ids::read_id;
use crate::json_value::pretty_text;
use crate::requests::{ad_query, cut, filled_piece, filled_query, has_slot, is_ad_server_url,
    is_interstitial_step, param, path_base, pieces, request_type, route, AdServerError,
    InterstitialStep, RequestType, Route};
use crate::slots::{slot_names_are_distinct, AdSlot};
use crate::stores::UserDefinedQueryParams;
use crate::text::{decimal, decimal_is_read_back, first_occurrence, has_part,
    has_suffix, is_digit, lemma_decimal_digits, lemma_until, lemma_until_bound, occurs_at,
    parsed_u64, until};
use crate::web::{before_query, fragment_part, is_plain_query, pairs_of, url_of, url_with_query,
    UrlView};

verus! {

/// Whether a text is `head`, and then the digits of `n`.
pub open spec fn ends_in_digits(text: Seq<char>, head: Seq<char>, n: u64) -> bool {
    &&& text.len() > head.len()
    &&& text.take(head.len() as int) == head
    &&& forall|i: int| head.len() <= i < text.len() ==> is_digit(#[trigger] text[i])
    &&& parsed_u64(text.skip(head.len() as int)) == Some(n)
}

/// What becomes of a piece of the ad server's query that is written as
/// `key=rest` and stands for `value`.
pub open spec fn is_filled_in(
    r: Seq<char>,
    key: Seq<char>,
    rest: Seq<char>,
    value: Seq<char>,
    slot: AdSlot,
    user_id: Seq<char>,
) -> bool {
    if value == "[template.sessionId]"@ {
        r == key + "="@ + user_id
    } else if value == "[template.duration]"@ {
        ends_in_digits(r, key + "="@, slot.duration)
    } else if value == "[template.pod]"@ {
        ends_in_digits(r, key + "="@, slot.pod_num)
    } else {
        r == key + "="@ + rest
    }
}

proof fn lemma_number_behind(head: Seq<char>, n: u64)
    ensures
        ends_in_digits(head + decimal(n as nat), head, n),
{
    let text = head + decimal(n as nat);
    lemma_decimal_digits(n as nat);
    decimal_is_read_back(n);
    assert(text.take(head.len() as int) =~= head);
    assert(text.skip(head.len() as int) =~= decimal(n as nat));
    assert forall|i: int| head.len() <= i < text.len() implies is_digit(#[trigger] text[i]) by {
        assert(text[i] == decimal(n as nat)[i - head.len()]);
    }
}

/// The key of a piece is kept. A session template becomes the user, a duration
/// template the seconds of the slot, a pod template the number of its pod; any
/// other piece is kept as it is written.
#[verifier::rlimit(40)]
pub proof fn templates_are_filled_in(
    key: Seq<char>,
    rest: Seq<char>,
    value: Seq<char>,
    slot: AdSlot,
    user_id: Seq<char>,
)
    requires
        !key.contains('='),
    ensures
        is_filled_in(
            filled_piece(key + "="@ + rest, value, slot, user_id),
            key,
            rest,
            value,
            slot,
            user_id,
        ),
{
    reveal_strlit("=");
    reveal_strlit("[template.sessionId]");
    reveal_strlit("[template.duration]");
    reveal_strlit("[template.pod]");
    assert("[template.sessionId]"@.len() == 20);
    assert("[template.duration]"@.len() == 19);
    assert("[template.pod]"@.len() == 14);
    let piece = key + "="@ + rest;
    assert forall|j: int| 0 <= j < key.len() implies piece[j] != '=' by {
        assert(piece[j] == key[j]);
        assert(key.contains(key[j]));
    }
    assert(piece[key.len() as int] == '=');
    lemma_until(piece, '=', key.len());
    assert(piece.take(key.len() as int) =~= key);
    lemma_number_behind(key + "="@, slot.duration);
    lemma_number_behind(key + "="@, slot.pod_num);
}

/// Two slots with different pods, or of different lengths, are asked for
/// differently where there is a template for it.
pub proof fn different_slots_are_asked_for_differently(
    key: Seq<char>,
    rest: Seq<char>,
    a: AdSlot,
    b: AdSlot,
    user_id: Seq<char>,
)
    requires
        !key.contains('='),
    ensures
        a.pod_num != b.pod_num ==> filled_piece(
            key + "="@ + rest,
            "[template.pod]"@,
            a,
            user_id,
        ) != filled_piece(key + "="@ + rest, "[template.pod]"@, b, user_id),
        a.duration != b.duration ==> filled_piece(
            key + "="@ + rest,
            "[template.duration]"@,
            a,
            user_id,
        ) != filled_piece(key + "="@ + rest, "[template.duration]"@, b, user_id),
{
    reveal_strlit("[template.sessionId]");
    reveal_strlit("[template.duration]");
    reveal_strlit("[template.pod]");
    assert("[template.sessionId]"@.len() == 20);
    assert("[template.duration]"@.len() == 19);
    assert("[template.pod]"@.len() == 14);
    templates_are_filled_in(key, rest, "[template.pod]"@, a, user_id);
    templates_are_filled_in(key, rest, "[template.pod]"@, b, user_id);
    templates_are_filled_in(key, rest, "[template.duration]"@, a, user_id);
    templates_are_filled_in(key, rest, "[template.duration]"@, b, user_id);
}

proof fn lemma_one_piece(piece: Seq<char>)
    requires
        !piece.contains('&'),
    ensures
        pieces(piece) == seq![piece],
{
    assert forall|j: int| 0 <= j < piece.len() implies piece[j] != '&' by {
        assert(piece.contains(piece[j]));
    }
    lemma_until(piece, '&', piece.len());
}

/// A query of one piece is filled in by the value that the piece stands for.
pub proof fn a_piece_is_filled_in_by_its_value(
    key: Seq<char>,
    rest: Seq<char>,
    slot: AdSlot,
    user_id: Seq<char>,
)
    requires
        !key.contains('='),
        !(key + "="@ + rest).contains('&'),
        pairs_of(key + "="@ + rest).len() > 0,
    ensures
        is_filled_in(
            filled_query(key + "="@ + rest, slot, user_id),
            key,
            rest,
            pairs_of(key + "="@ + rest)[0].1,
            slot,
            user_id,
        ),
{
    let piece = key + "="@ + rest;
    lemma_one_piece(piece);
    templates_are_filled_in(key, rest, pairs_of(piece)[0].1, slot, user_id);
}

/// A query is filled in piece by piece: what stands before an ampersand is
/// filled in on its own, and so is what stands behind it.
pub proof fn queries_are_filled_in_piece_by_piece(
    first: Seq<char>,
    rest: Seq<char>,
    slot: AdSlot,
    user_id: Seq<char>,
)
    requires
        !first.contains('&'),
    ensures
        filled_query(first + "&"@ + rest, slot, user_id) == filled_query(first, slot, user_id)
            + "&"@ + filled_query(rest, slot, user_id),
{
    reveal_strlit("&");
    let query = first + "&"@ + rest;
    lemma_one_piece(first);
    assert forall|j: int| 0 <= j < first.len() implies query[j] != '&' by {
        assert(query[j] == first[j]);
        assert(first.contains(first[j]));
    }
    assert(query[first.len() as int] == '&');
    lemma_until(query, '&', first.len());
    assert(query.take(first.len() as int) =~= first);
    assert(query.skip(first.len() as int + 1) =~= rest);
    assert(pieces(query) == seq![first] + pieces(rest));
    assert(pieces(query).skip(1) =~= pieces(rest));
    assert(pieces(rest).len() > 0);
}

/// The ad server is asked with the filled query of its URL, and then with what
/// the session asked for the stream with. Without a query of its own and
/// without a session it is asked with nothing.
pub proof fn what_the_ad_server_is_asked_with(
    url: UrlView,
    slot: AdSlot,
    user_id: Seq<char>,
    params: Map<u128, Seq<char>>,
)
    ensures
        ({
            let asked = ad_query(url, slot, user_id, params);
            let known = read_id(user_id) is Some && params.contains_key(read_id(user_id)->0);
            let session = params[read_id(user_id)->0];
            &&& url.query is Some && !known ==> asked == filled_query(
                url.query->0,
                slot,
                user_id,
            )
            &&& url.query is Some && known ==> asked == filled_query(url.query->0, slot, user_id)
                + "&"@ + session
            &&& url.query is None && known ==> asked == "&"@ + session
            &&& url.query is None && !known ==> asked.len() == 0
        }),
{
    let session = params[read_id(user_id)->0];
    assert(Seq::<char>::empty() + "&"@ + session =~= "&"@ + session);
}

/// A slot is asked for by its name, which tells its index. The slot is missing
/// exactly where no slot with that index is available. The address of the ad
/// server is kept, and a query of characters that stand for themselves stands
/// in it as it is.
pub proof fn a_slot_is_asked_for_by_its_name(
    r: Result<Seq<char>, AdServerError>,
    url: Seq<char>,
    index: u64,
    user_id: Seq<char>,
    available: Set<AdSlot>,
    params: Map<u128, Seq<char>>,
)
    requires
        is_ad_server_url(
            r,
            url,
            "ad_slot"@ + decimal(index as nat),
            user_id,
            available,
            params,
        ),
    ensures
        r == Err::<Seq<char>, AdServerError>(AdServerError::SlotMissing) <==> !exists|slot: AdSlot|
            #[trigger] available.contains(slot) && slot.index == index,
        url_of(url) is None ==> r is Err,
        r matches Ok(full) ==> exists|slot: AdSlot|
            {
                &&& #[trigger] available.contains(slot)
                &&& slot.index == index
                &&& Some(full) == url_with_query(
                    url,
                    Some(ad_query(url_of(url)->0, slot, user_id, params)),
                )
                &&& is_plain_query(ad_query(url_of(url)->0, slot, user_id, params)) ==> full
                    == before_query(url_of(url)->0.text) + "?"@ + ad_query(
                    url_of(url)->0,
                    slot,
                    user_id,
                    params,
                ) + fragment_part(url_of(url)->0.text)
            },
{
    let name = "ad_slot"@ + decimal(index as nat);
    assert forall|slot: AdSlot| #[trigger] available.contains(slot) implies (slot.spec_name()
        == name <==> slot.index == index) by {
        if slot.spec_name() == name {
            let other = AdSlot { index, ..slot };
            slot_names_are_distinct(slot, other);
        }
    }
    if has_slot(available, name) {
        let slot = choose|slot: AdSlot| #[trigger]
            available.contains(slot) && slot.spec_name() == name;
        assert(slot.index == index);
    }
}

/// The ad server is asked for an available slot wherever its URL is one, has no
/// fragment, and has an address that can be counted: at that URL with its query
/// replaced.
pub proof fn the_ad_server_can_be_asked(
    r: Result<Seq<char>, AdServerError>,
    url: Seq<char>,
    slot: AdSlot,
    user_id: Seq<char>,
    available: Set<AdSlot>,
    params: Map<u128, Seq<char>>,
)
    requires
        is_ad_server_url(
            r,
            url,
            "ad_slot"@ + decimal(slot.index as nat),
            user_id,
            available,
            params,
        ),
        available.contains(slot),
        forall|other: AdSlot| #[trigger]
            available.contains(other) && other.index == slot.index ==> other == slot,
        url_of(url) matches Some(parts) && !parts.text.contains('#') && parts.text.len()
            <= 0xffff_ffff,
    ensures
        ({
            let changed = url_with_query(
                url,
                Some(ad_query(url_of(url)->0, slot, user_id, params)),
            );
            r == (if changed is Some {
                Ok(changed->0)
            } else {
                Err(AdServerError::BadUrl)
            })
        }),
{
    let name = "ad_slot"@ + decimal(slot.index as nat);
    assert(slot.spec_name() == name);
    assert(has_slot(available, name));
    let text = url_of(url)->0.text;
    lemma_until_bound(text, '#');
    if until(text, '#') < text.len() {
        assert(text.contains(text[until(text, '#') as int]));
    }
    lemma_until_bound(text.take(until(text, '#') as int), '?');
    assert forall|other: AdSlot| #[trigger]
        available.contains(other) && other.spec_name() == name implies other == slot by {
        slot_names_are_distinct(other, slot);
    }
}

proof fn lemma_param(pairs: Seq<(Seq<char>, Seq<char>)>, key: Seq<char>, i: int)
    requires
        0 <= i <= pairs.len(),
        forall|j: int| 0 <= j < i ==> (#[trigger] pairs[j]).0 != key,
        i < pairs.len() ==> pairs[i].0 == key,
    ensures
        param(pairs, key) == (if i < pairs.len() {
            Some(pairs[i].1)
        } else {
            None
        }),
    decreases pairs.len(),
{
    if i > 0 {
        assert(pairs[0].0 != key);
        let rest = pairs.skip(1);
        assert forall|j: int| 0 <= j < i - 1 implies (#[trigger] rest[j]).0 != key by {
            assert(rest[j] == pairs[j + 1]);
        }
        lemma_param(rest, key, i - 1);
    }
}

/// Whether `value` is the value of the first pair with the given key; `None`
/// where there is no such pair.
pub open spec fn is_first_value(
    pairs: Seq<(Seq<char>, Seq<char>)>,
    key: Seq<char>,
    value: Option<Seq<char>>,
) -> bool {
    match value {
        Some(text) => exists|i: int|
            {
                &&& 0 <= i < pairs.len()
                &&& (#[trigger] pairs[i]).0 == key
                &&& pairs[i].1 == text
                &&& forall|j: int| 0 <= j < i ==> (#[trigger] pairs[j]).0 != key
            },
        None => forall|j: int| 0 <= j < pairs.len() ==> (#[trigger] pairs[j]).0 != key,
    }
}

/// Of several values for a key the first one counts.
pub proof fn the_first_value_counts(
    pairs: Seq<(Seq<char>, Seq<char>)>,
    key: Seq<char>,
    value: Option<Seq<char>>,
)
    requires
        is_first_value(pairs, key, value),
    ensures
        param(pairs, key) == value,
{
    match value {
        Some(text) => {
            let i = choose|i: int|
                {
                    &&& 0 <= i < pairs.len()
                    &&& (#[trigger] pairs[i]).0 == key
                    &&& pairs[i].1 == text
                    &&& forall|j: int| 0 <= j < i ==> (#[trigger] pairs[j]).0 != key
                };
            lemma_param(pairs, key, i);
        },
        None => lemma_param(pairs, key, pairs.len() as int),
    }
}

/// A request for interstitials that names an ad is a follow-up request for that
/// ad, before all else. Any other is answered with the test asset where there
/// is one. Else the ad server is asked, for the slot and the user that are
/// named, or for the default ones.
pub proof fn what_is_done_about_interstitials(
    r: InterstitialStep,
    pairs: Seq<(Seq<char>, Seq<char>)>,
    ad_server: Seq<char>,
    config: ServerConfig,
    available: Set<AdSlot>,
    params: Map<u128, Seq<char>>,
    follow_id: Option<Seq<char>>,
    ad_id: Option<Seq<char>>,
    slot: Option<Seq<char>>,
    user: Option<Seq<char>>,
)
    requires
        is_interstitial_step(r, pairs, ad_server, config, available, params),
        is_first_value(pairs, "_HLS_follow_id"@, follow_id),
        is_first_value(pairs, "_ad_id"@, ad_id),
        is_first_value(pairs, "_HLS_interstitial_id"@, slot),
        is_first_value(pairs, "_HLS_primary_id"@, user),
    ensures
        follow_id is Some ==> r is FollowUp && r->FollowUp_0@ == follow_id->0,
        follow_id is None && ad_id is Some ==> r is FollowUp && r->FollowUp_0@ == ad_id->0,
        follow_id is None && ad_id is None && config.test_asset is Some ==> r is Reply
            && r->Reply_0@ == pretty_text(test_asset_list(config.test_asset->0), 2),
        follow_id is None && ad_id is None && config.test_asset is None ==> {
            let slot_name = if slot is Some {
                slot->0
            } else {
                "default_ad"@
            };
            let user_name = if user is Some {
                user->0
            } else {
                "default_user"@
            };
            match r {
                InterstitialStep::Ask { url, interstitial_id, user_id } => {
                    &&& interstitial_id@ == slot_name
                    &&& user_id@ == user_name
                    &&& is_ad_server_url(
                        Ok(url@),
                        ad_server,
                        slot_name,
                        user_name,
                        available,
                        params,
                    )
                },
                InterstitialStep::Refuse(e) => is_ad_server_url(
                    Err(e),
                    ad_server,
                    slot_name,
                    user_name,
                    available,
                    params,
                ),
                _ => false,
            }
        },
{
    the_first_value_counts(pairs, "_HLS_follow_id"@, follow_id);
    the_first_value_counts(pairs, "_ad_id"@, ad_id);
    the_first_value_counts(pairs, "_HLS_interstitial_id"@, slot);
    the_first_value_counts(pairs, "_HLS_primary_id"@, user);
}

/// What a session asks for the stream with is kept for that session, in place
/// of what it asked with before; other sessions are as they were. A request
/// without a session, or without a query, changes nothing.
pub proof fn sessions_are_remembered(
    params: Map<u128, Seq<char>>,
    query: Seq<char>,
    session: Seq<char>,
    id: u128,
    other: u128,
)
    requires
        read_id(session) == Some(id),
        id != other,
    ensures
        ({
            let after = UserDefinedQueryParams::remembered(params, Some(query), Some(session));
            &&& after.contains_key(id) && after[id] == query
            &&& after.contains_key(other) <==> params.contains_key(other)
            &&& params.contains_key(other) ==> after[other] == params[other]
        }),
        UserDefinedQueryParams::remembered(params, None, Some(session)) == params,
        UserDefinedQueryParams::remembered(params, Some(query), None) == params,
{
}

proof fn lemma_cut(s: Seq<char>, part: Seq<char>, at: int)
    requires
        first_occurrence(s, part, at),
    ensures
        has_part(s, part),
        cut(s, part) == s.take(at),
{
    let k = choose|k: int| first_occurrence(s, part, k);
    assert(occurs_at(s, part, k));
    assert(k == at);
}

/// The parameters of a path do not count: what stands before the first
/// semicolon, or else before the first encoded one, is the path.
pub proof fn parameters_of_a_path_do_not_count(path: Seq<char>, at: int)
    requires
        0 <= at <= path.len(),
    ensures
        first_occurrence(path, ";"@, at) ==> path_base(path) == path.take(at),
        !has_part(path, ";"@) && first_occurrence(path, "%3B"@, at) ==> path_base(path)
            == path.take(at),
        !has_part(path, ";"@) && !has_part(path, "%3B"@) && first_occurrence(path, "%3b"@, at)
            ==> path_base(path) == path.take(at),
        !has_part(path, ";"@) && !has_part(path, "%3B"@) && !has_part(path, "%3b"@) ==> path_base(
            path,
        ) == path,
{
    if first_occurrence(path, ";"@, at) {
        lemma_cut(path, ";"@, at);
    }
    if first_occurrence(path, "%3B"@, at) {
        lemma_cut(path, "%3B"@, at);
    }
    if first_occurrence(path, "%3b"@, at) {
        lemma_cut(path, "%3b"@, at);
    }
}

/// Whether a text ends in `ending`.
pub open spec fn ends_in(text: Seq<char>, ending: Seq<char>) -> bool {
    text.len() >= ending.len() && text.skip(text.len() - ending.len()) == ending
}

/// Whether a path ends like one of a media segment.
pub open spec fn ends_like_a_segment(path: Seq<char>) -> bool {
    ends_in(path, ".ts"@) || ends_in(path, ".mp4"@) || ends_in(path, ".m4s"@) || ends_in(
        path,
        ".m4v"@,
    ) || ends_in(path, ".m4a"@) || ends_in(path, ".cmfv"@) || ends_in(path, ".cmfa"@) || ends_in(
        path,
        ".aac"@,
    )
}

proof fn lemma_ending(path: Seq<char>, ending: Seq<char>)
    ensures
        has_suffix(path, ending) <==> ends_in(path, ending),
{
    if path.len() >= ending.len() {
        assert(path.skip(path.len() - ending.len()) =~= path.subrange(
            path.len() - ending.len(),
            path.len() as int,
        ));
    }
}

/// Where a request goes: to the master playlist where its path holds that of
/// the master playlist, to the origin where it is for a segment, to a media
/// playlist, or one of either kind where any stream is served, where it is for
/// a playlist. Anything else is passed on only where any stream is served.
#[verifier::rlimit(40)]
pub proof fn where_a_request_goes(path: Seq<char>, config: ServerConfig)
    ensures
        ({
            let base = path_base(path);
            let master = config.master_playlist_path;
            if master is Some && has_part(base, master->0@) {
                route(path, config) == Route::Master && request_type(path, config)
                    == RequestType::MasterPlayList
            } else if ends_like_a_segment(base) {
                route(path, config) == Route::PassOn && request_type(path, config)
                    == RequestType::Segment
            } else if ends_in(base, ".m3u8"@) {
                if master is Some {
                    route(path, config) == Route::Media && request_type(path, config)
                        == RequestType::MediaPlayList
                } else {
                    route(path, config) == Route::Either && request_type(path, config)
                        == RequestType::Playlist
                }
            } else {
                request_type(path, config) == RequestType::Other && if master is Some {
                    route(path, config) == Route::NotFound
                } else {
                    route(path, config) == Route::PassOn
                }
            }
        }),
{
    let base = path_base(path);
    lemma_ending(base, ".ts"@);
    lemma_ending(base, ".mp4"@);
    lemma_ending(base, ".m4s"@);
    lemma_ending(base, ".m4v"@);
    lemma_ending(base, ".m4a"@);
    lemma_ending(base, ".cmfv"@);
    lemma_ending(base, ".cmfa"@);
    lemma_ending(base, ".aac"@);
    lemma_ending(base, ".m3u8"@);
}

} // verus!
