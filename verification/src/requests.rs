//! Requests: what is asked for, and what is done about it.

use vstd::prelude::*;

use crate::assets::{serve_test_asset, test_asset_list};
use crate::config::ServerConfig;
use crate::hls::option_text;
use crate::ids::{parse_id, read_id};
use crate::json_value::pretty_text;
use crate::slots::{lists, AdSlot, AvailableAdSlots};
use crate::stores::UserDefinedQueryParams;
use crate::text::{append_chars, contains, decimal, decimal_string, ends_with, find,
    first_occurrence, from_chars, has_part, has_suffix, join_texts, lemma_until_bound, position,
    same_text, skip_chars, slice_chars, to_chars, until};
use crate::web::{keeps_address, pair_views, pairs_of, parse_pairs, parse_url, replace_query, url_of,
    with_query, UrlView};

verus! {

/// What is asked for.
#[derive(Clone, Copy, Debug, PartialEq, Eq, Structural)]
pub enum RequestType {
    MasterPlayList,
    MediaPlayList,
    /// A playlist of either kind, where any stream of the origin is served.
    Playlist,
    Segment,
    Other,
}

/// What stands before the first `part`, or all.
pub open spec fn cut(s: Seq<char>, part: Seq<char>) -> Seq<char> {
    if has_part(s, part) {
        s.take(choose|at: int| first_occurrence(s, part, at))
    } else {
        s
    }
}

fn cut_at(s: &Vec<char>, part: &str) -> (r: Option<Vec<char>>)
    ensures
        match r {
            Some(head) => has_part(s@, part@) && head@ == cut(s@, part@),
            None => !has_part(s@, part@),
        },
{
    match find(s, &to_chars(part)) {
        Some(at) => {
            let head = slice_chars(s, 0, at);
            proof {
                let first = choose|k: int| first_occurrence(s@, part@, k);
                assert(first_occurrence(s@, part@, at as int));
                assert(first == at);
                assert(head@ =~= s@.take(at as int));
            }
            Some(head)
        },
        None => None,
    }
}

/// A path without its parameters, which follow a semicolon, encoded or not.
pub open spec fn path_base(path: Seq<char>) -> Seq<char> {
    if has_part(path, ";"@) {
        cut(path, ";"@)
    } else if has_part(path, "%3B"@) {
        cut(path, "%3B"@)
    } else {
        cut(path, "%3b"@)
    }
}

fn find_path_base(path: &str) -> (r: String)
    ensures
        r@ == path_base(path@),
{
    let chars = to_chars(path);
    if let Some(head) = cut_at(&chars, ";") {
        return from_chars(&head);
    }
    if let Some(head) = cut_at(&chars, "%3B") {
        return from_chars(&head);
    }
    if let Some(head) = cut_at(&chars, "%3b") {
        return from_chars(&head);
    }
    path.to_string()
}

/// Whether a path is one of a media segment.
pub open spec fn is_segment_name(path: Seq<char>) -> bool {
    ||| has_suffix(path, ".ts"@)
    ||| has_suffix(path, ".mp4"@)
    ||| has_suffix(path, ".m4s"@)
    ||| has_suffix(path, ".m4v"@)
    ||| has_suffix(path, ".m4a"@)
    ||| has_suffix(path, ".cmfv"@)
    ||| has_suffix(path, ".cmfa"@)
    ||| has_suffix(path, ".aac"@)
}

pub fn is_media_segment(path: &str) -> (r: bool)
    ensures
        r == is_segment_name(path@),
{
    ends_with(path, ".ts") || ends_with(path, ".mp4") || ends_with(path, ".m4s") || ends_with(
        path,
        ".m4v",
    ) || ends_with(path, ".m4a") || ends_with(path, ".cmfv") || ends_with(path, ".cmfa")
        || ends_with(path, ".aac")
}

/// What is asked for at a path.
pub open spec fn request_type(path: Seq<char>, config: ServerConfig) -> RequestType {
    let base = path_base(path);
    if config.master_playlist_path matches Some(master) && has_part(base, master@) {
        RequestType::MasterPlayList
    } else if is_segment_name(base) {
        RequestType::Segment
    } else if has_suffix(base, ".m3u8"@) {
        if config.master_playlist_path is None {
            RequestType::Playlist
        } else {
            RequestType::MediaPlayList
        }
    } else {
        RequestType::Other
    }
}

pub fn get_request_type(path: &str, config: &ServerConfig) -> (r: RequestType)
    ensures
        r == request_type(path@, *config),
{
    let base = find_path_base(path);
    if let Some(master) = &config.master_playlist_path {
        if contains(base.as_str(), master.as_str()) {
            return RequestType::MasterPlayList;
        }
    }
    if is_media_segment(base.as_str()) {
        RequestType::Segment
    } else if ends_with(base.as_str(), ".m3u8") {
        if config.master_playlist_path.is_none() {
            RequestType::Playlist
        } else {
            RequestType::MediaPlayList
        }
    } else {
        RequestType::Other
    }
}

/// How a request for the stream is served.
#[derive(Clone, Copy, Debug, PartialEq, Eq, Structural)]
pub enum Route {
    /// As a master playlist.
    Master,
    /// As a media playlist.
    Media,
    /// As a playlist of either kind.
    Either,
    /// The origin's answer is passed on.
    PassOn,
    /// Not at all.
    NotFound,
}

/// How a request for a path is served. What is not known is passed on where
/// any stream of the origin is served.
pub open spec fn route(path: Seq<char>, config: ServerConfig) -> Route {
    match request_type(path, config) {
        RequestType::MasterPlayList => Route::Master,
        RequestType::MediaPlayList => Route::Media,
        RequestType::Playlist => Route::Either,
        RequestType::Segment => Route::PassOn,
        RequestType::Other => if config.master_playlist_path is None {
            Route::PassOn
        } else {
            Route::NotFound
        },
    }
}

pub fn handle_media_stream(path: &str, config: &ServerConfig) -> (r: Route)
    ensures
        r == route(path@, *config),
{
    match get_request_type(path, config) {
        RequestType::MasterPlayList => Route::Master,
        RequestType::MediaPlayList => Route::Media,
        RequestType::Playlist => Route::Either,
        RequestType::Segment => Route::PassOn,
        RequestType::Other => if config.master_playlist_path.is_none() {
            Route::PassOn
        } else {
            Route::NotFound
        },
    }
}

/// The value of the first pair with the given key.
pub open spec fn param(pairs: Seq<(Seq<char>, Seq<char>)>, key: Seq<char>) -> Option<Seq<char>>
    decreases pairs.len(),
{
    if pairs.len() == 0 {
        None
    } else if pairs[0].0 == key {
        Some(pairs[0].1)
    } else {
        param(pairs.skip(1), key)
    }
}

fn find_param(pairs: &Vec<(String, String)>, key: &str) -> (r: Option<String>)
    ensures
        option_text(r) == param(pair_views(pairs@), key@),
{
    let ghost views = pair_views(pairs@);
    assert(views.skip(0) == views);
    for i in 0..pairs.len()
        invariant
            views == pair_views(pairs@),
            param(views, key@) == param(views.skip(i as int), key@),
    {
        let (name, value) = &pairs[i];
        assert(views.skip(i as int)[0] == (name@, value@));
        assert(views.skip(i as int).skip(1) == views.skip(i + 1));
        if same_text(name.as_str(), key) {
            return Some(value.clone());
        }
    }
    None
}

/// The value that a query string gives for a key: the first one.
pub fn get_query_param(query: &str, key: &str) -> (r: Option<String>)
    ensures
        option_text(r) == param(pairs_of(query@), key@),
{
    find_param(&parse_pairs(query), key)
}

/// Whether a value of the ad server's URL is to be filled in.
pub open spec fn is_template(value: Seq<char>) -> bool {
    value == "[template.sessionId]"@ || value == "[template.duration]"@ || value
        == "[template.pod]"@
}

/// What a template stands for.
pub open spec fn filled_value(template: Seq<char>, slot: AdSlot, user_id: Seq<char>) -> Seq<char> {
    if template == "[template.sessionId]"@ {
        user_id
    } else if template == "[template.duration]"@ {
        decimal(slot.duration as nat)
    } else {
        decimal(slot.pod_num as nat)
    }
}

/// A piece of a query, a key and a value as they are written there, where
/// `value` is the value that it stands for. A template is filled in; any other
/// piece is kept as it is.
pub open spec fn filled_piece(
    piece: Seq<char>,
    value: Seq<char>,
    slot: AdSlot,
    user_id: Seq<char>,
) -> Seq<char> {
    if is_template(value) {
        piece.take(until(piece, '=') as int) + "="@ + filled_value(value, slot, user_id)
    } else {
        piece
    }
}

pub fn fill_piece(piece: &str, value: &str, slot: &AdSlot, user_id: &str) -> (r: String)
    ensures
        r@ == filled_piece(piece@, value@, *slot, user_id@),
{
    let filled = if same_text(value, "[template.sessionId]") {
        user_id.to_string()
    } else if same_text(value, "[template.duration]") {
        decimal_string(slot.duration)
    } else if same_text(value, "[template.pod]") {
        decimal_string(slot.pod_num)
    } else {
        return piece.to_string();
    };
    let chars = to_chars(piece);
    let key = slice_chars(&chars, 0, position(&chars, '='));
    assert(key@ == piece@.take(until(piece@, '=') as int));
    join_texts(join_texts(from_chars(&key).as_str(), "=").as_str(), filled.as_str())
}

/// What stands between the ampersands of a query.
pub open spec fn pieces(query: Seq<char>) -> Seq<Seq<char>>
    decreases query.len(),
{
    let end = until(query, '&') as int;
    if end >= query.len() {
        seq![query]
    } else {
        seq![query.take(end)] + pieces(query.skip(end + 1))
    }
}

/// The value that a piece of a query stands for.
pub open spec fn piece_value(piece: Seq<char>) -> Seq<char> {
    let pairs = pairs_of(piece);
    if pairs.len() > 0 {
        pairs[0].1
    } else {
        seq![]
    }
}

/// The pieces of a query, from the first on, filled in, with ampersands
/// between them.
pub open spec fn filled_pieces(all: Seq<Seq<char>>, slot: AdSlot, user_id: Seq<char>) -> Seq<char>
    decreases all.len(),
{
    if all.len() == 0 {
        seq![]
    } else {
        let first = filled_piece(all[0], piece_value(all[0]), slot, user_id);
        if all.len() == 1 {
            first
        } else {
            first + "&"@ + filled_pieces(all.skip(1), slot, user_id)
        }
    }
}

/// A query with the templates filled in, and all else as it is.
pub open spec fn filled_query(query: Seq<char>, slot: AdSlot, user_id: Seq<char>) -> Seq<char> {
    filled_pieces(pieces(query), slot, user_id)
}

fn fill_query(query: &str, slot: &AdSlot, user_id: &str) -> (r: String)
    ensures
        r@ == filled_query(query@, *slot, user_id@),
{
    let mut rest = to_chars(query);
    let mut out: Vec<char> = Vec::new();
    loop
        invariant
            out@ + filled_query(rest@, *slot, user_id@) == filled_query(query@, *slot, user_id@),
        decreases rest@.len(),
    {
        let end = position(&rest, '&');
        let piece = from_chars(&slice_chars(&rest, 0, end));
        assert(piece@ == rest@.take(end as int));
        let pairs = parse_pairs(piece.as_str());
        let value = if pairs.len() > 0 {
            assert(pair_views(pairs@)[0].1 == pairs@[0].1@);
            pairs[0].1.clone()
        } else {
            String::new()
        };
        assert(pair_views(pairs@).len() == pairs@.len());
        assert(value@ =~= piece_value(piece@));
        let filled = fill_piece(piece.as_str(), value.as_str(), slot, user_id);
        let ghost before = out@;
        append_chars(&mut out, &to_chars(filled.as_str()));
        if end >= rest.len() {
            assert(piece@ =~= rest@);
            assert(out@ =~= filled_query(query@, *slot, user_id@));
            return from_chars(&out);
        }
        append_chars(&mut out, &to_chars("&"));
        let more = skip_chars(&rest, end + 1);
        proof {
            assert(pieces(rest@) == seq![piece@] + pieces(more@));
            assert(pieces(rest@).skip(1) =~= pieces(more@));
            assert(pieces(more@).len() > 0);
            assert(out@ + filled_query(more@, *slot, user_id@) =~= before + (filled@ + "&"@
                + filled_query(more@, *slot, user_id@)));
        }
        rest = more;
    }
}

/// The query string that the session of a user asked for the stream with.
pub open spec fn session_query(params: Map<u128, Seq<char>>, user_id: Seq<char>) -> Option<
    Seq<char>,
> {
    match read_id(user_id) {
        Some(id) => if params.contains_key(id) {
            Some(params[id])
        } else {
            None
        },
        None => None,
    }
}

/// The query with which the ad server is asked for the ads of a slot: that of
/// its URL, with the templates filled in, and then that of the session.
pub open spec fn ad_query(
    url: UrlView,
    slot: AdSlot,
    user_id: Seq<char>,
    params: Map<u128, Seq<char>>,
) -> Seq<char> {
    let own = match url.query {
        Some(query) => filled_query(query, slot, user_id),
        None => seq![],
    };
    match session_query(params, user_id) {
        Some(query) => own + "&"@ + query,
        None => own,
    }
}

/// Why the ad server cannot be asked.
#[derive(Clone, Copy, Debug, PartialEq, Eq, Structural)]
pub enum AdServerError {
    /// There is no slot of that name.
    SlotMissing,
    /// The ad server's URL is none, or too long to be counted.
    BadUrl,
}

/// Where the ad server is asked for the ads of a slot.
pub open spec fn ad_server_url(
    url: Seq<char>,
    slot: AdSlot,
    user_id: Seq<char>,
    params: Map<u128, Seq<char>>,
) -> Result<Seq<char>, AdServerError> {
    match url_of(url) {
        Some(parts) => {
            let query = ad_query(parts, slot, user_id, params);
            match with_query(url, Some(query)) {
                Some(full) => Ok(full),
                None => Err(AdServerError::BadUrl),
            }
        },
        None => Err(AdServerError::BadUrl),
    }
}

pub open spec fn url_result(r: Result<String, AdServerError>) -> Result<
    Seq<char>,
    AdServerError,
> {
    match r {
        Ok(url) => Ok(url@),
        Err(e) => Err(e),
    }
}

/// Whether `full` is the URL of the ad server but for its query, and all of it
/// where the query is the same.
pub open spec fn is_asked_at(
    full: Seq<char>,
    url: Seq<char>,
    slot: AdSlot,
    user_id: Seq<char>,
    params: Map<u128, Seq<char>>,
) -> bool {
    &&& url_of(url) matches Some(parts)
    &&& keeps_address(full, url, Some(ad_query(parts, slot, user_id, params)))
}

/// The URL of the ad server for the ads of one slot.
pub fn fill_ad_server_url(
    url: &str,
    slot: &AdSlot,
    user_id: &str,
    params: &UserDefinedQueryParams,
) -> (r: Result<String, AdServerError>)
    ensures
        url_result(r) == ad_server_url(url@, *slot, user_id@, params@),
        r matches Ok(full) ==> is_asked_at(full@, url@, *slot, user_id@, params@),
{
    let parts = match parse_url(url) {
        Some(parts) => parts,
        None => return Err(AdServerError::BadUrl),
    };
    let own = match &parts.query {
        Some(query) => fill_query(query.as_str(), slot, user_id),
        None => String::new(),
    };
    let session = match parse_id(user_id) {
        Some(id) => params.get(id),
        None => None,
    };
    let query = match &session {
        Some(query) => join_texts(join_texts(own.as_str(), "&").as_str(), query.as_str()),
        None => own,
    };
    assert(query@ == ad_query(parts@, *slot, user_id@, params@));
    match replace_query(url, &Some(query)) {
        Some(full) => Ok(full),
        None => Err(AdServerError::BadUrl),
    }
}

/// Whether a slot of that name is available.
pub open spec fn has_slot(available: Set<AdSlot>, name: Seq<char>) -> bool {
    exists|slot: AdSlot| #[trigger] available.contains(slot) && slot.spec_name() == name
}

/// Whether `r` is where the ad server is asked for the ads of the slot of that
/// name. Where several have the name, it is one of them.
pub open spec fn is_ad_server_url(
    r: Result<Seq<char>, AdServerError>,
    url: Seq<char>,
    interstitial_id: Seq<char>,
    user_id: Seq<char>,
    available: Set<AdSlot>,
    params: Map<u128, Seq<char>>,
) -> bool {
    if has_slot(available, interstitial_id) {
        exists|slot: AdSlot| #[trigger]
            available.contains(slot) && slot.spec_name() == interstitial_id && r == ad_server_url(
                url,
                slot,
                user_id,
                params,
            ) && (r matches Ok(full) ==> is_asked_at(full, url, slot, user_id, params))
    } else {
        r == Err::<Seq<char>, AdServerError>(AdServerError::SlotMissing)
    }
}

pub fn build_ad_server_url(
    url: &str,
    interstitial_id: &str,
    user_id: &str,
    available_slots: &AvailableAdSlots,
    params: &UserDefinedQueryParams,
) -> (r: Result<String, AdServerError>)
    requires
        available_slots.wf(),
    ensures
        is_ad_server_url(
            url_result(r),
            url@,
            interstitial_id@,
            user_id@,
            available_slots@,
            params@,
        ),
{
    let slots = available_slots.items();
    for i in 0..slots.len()
        invariant
            lists(slots@, available_slots@),
            forall|k: int| 0 <= k < i ==> (#[trigger] slots@[k]).spec_name() != interstitial_id@,
    {
        if same_text(slots[i].name().as_str(), interstitial_id) {
            let r = fill_ad_server_url(url, &slots[i], user_id, params);
            proof {
                let slot = slots@[i as int];
                assert(slots@.contains(slot));
                assert(available_slots@.contains(slot) && slot.spec_name() == interstitial_id@);
            }
            return r;
        }
    }
    proof {
        assert forall|slot: AdSlot| #[trigger] available_slots@.contains(slot) implies slot.spec_name()
            != interstitial_id@ by {
            assert(slots@.contains(slot));
            let k = choose|k: int| 0 <= k < slots@.len() && slots@[k] == slot;
            assert(slots@[k].spec_name() != interstitial_id@);
        }
    }
    Err(AdServerError::SlotMissing)
}

/// What is done about a request for interstitials.
#[derive(Debug)]
pub enum InterstitialStep {
    /// It is a follow-up request for an ad that is kept: the identifier's text.
    FollowUp(String),
    /// It is answered with an asset list.
    Reply(String),
    /// The ad server is asked at a URL, and its answer is wrapped, for the slot
    /// and the user that are named.
    Ask { url: String, interstitial_id: String, user_id: String },
    /// It cannot be answered.
    Refuse(AdServerError),
}

/// The slot that a request for interstitials names.
pub open spec fn slot_name(pairs: Seq<(Seq<char>, Seq<char>)>) -> Seq<char> {
    match param(pairs, "_HLS_interstitial_id"@) {
        Some(name) => name,
        None => "default_ad"@,
    }
}

/// The user that a request for interstitials names.
pub open spec fn user_name(pairs: Seq<(Seq<char>, Seq<char>)>) -> Seq<char> {
    match param(pairs, "_HLS_primary_id"@) {
        Some(name) => name,
        None => "default_user"@,
    }
}

/// The identifier of the ad that a follow-up request asks for.
pub open spec fn follow_up_id(pairs: Seq<(Seq<char>, Seq<char>)>) -> Option<Seq<char>> {
    match param(pairs, "_HLS_follow_id"@) {
        Some(id) => Some(id),
        None => param(pairs, "_ad_id"@),
    }
}

/// Whether `r` is what is done about a request for interstitials: a follow-up
/// request is one with the identifier of an ad; else a test asset is served
/// where one is configured; else the ad server is asked.
pub open spec fn is_interstitial_step(
    r: InterstitialStep,
    pairs: Seq<(Seq<char>, Seq<char>)>,
    ad_server: Seq<char>,
    config: ServerConfig,
    available: Set<AdSlot>,
    params: Map<u128, Seq<char>>,
) -> bool {
    match (follow_up_id(pairs), config.test_asset) {
        (Some(id), _) => r matches InterstitialStep::FollowUp(text) && text@ == id,
        (None, Some(asset)) => r matches InterstitialStep::Reply(text) && text@ == pretty_text(
            test_asset_list(asset),
            2,
        ),
        (None, None) => match r {
            InterstitialStep::Ask { url, interstitial_id, user_id } => {
                &&& interstitial_id@ == slot_name(pairs)
                &&& user_id@ == user_name(pairs)
                &&& is_ad_server_url(
                    Ok(url@),
                    ad_server,
                    slot_name(pairs),
                    user_name(pairs),
                    available,
                    params,
                )
            },
            InterstitialStep::Refuse(e) => is_ad_server_url(
                Err(e),
                ad_server,
                slot_name(pairs),
                user_name(pairs),
                available,
                params,
            ),
            _ => false,
        },
    }
}

/// A request for interstitials, with the given keys and values, is examined.
pub fn examine_interstitials(
    pairs: &Vec<(String, String)>,
    ad_server: &str,
    config: &ServerConfig,
    available_slots: &AvailableAdSlots,
    params: &UserDefinedQueryParams,
) -> (r: InterstitialStep)
    requires
        available_slots.wf(),
    ensures
        is_interstitial_step(
            r,
            pair_views(pairs@),
            ad_server@,
            *config,
            available_slots@,
            params@,
        ),
{
    if let Some(id) = find_param(pairs, "_HLS_follow_id") {
        return InterstitialStep::FollowUp(id);
    }
    if let Some(id) = find_param(pairs, "_ad_id") {
        return InterstitialStep::FollowUp(id);
    }
    if let Some(asset) = &config.test_asset {
        return InterstitialStep::Reply(serve_test_asset(asset));
    }
    let interstitial_id = match find_param(pairs, "_HLS_interstitial_id") {
        Some(name) => name,
        None => "default_ad".to_string(),
    };
    let user_id = match find_param(pairs, "_HLS_primary_id") {
        Some(name) => name,
        None => "default_user".to_string(),
    };
    match build_ad_server_url(
        ad_server,
        interstitial_id.as_str(),
        user_id.as_str(),
        available_slots,
        params,
    ) {
        Ok(url) => InterstitialStep::Ask { url, interstitial_id, user_id },
        Err(e) => InterstitialStep::Refuse(e),
    }
}

/// A request for interstitials, with the given query string, is examined.
pub fn handle_interstitials(
    query: &str,
    ad_server: &str,
    config: &ServerConfig,
    available_slots: &AvailableAdSlots,
    params: &UserDefinedQueryParams,
) -> (r: InterstitialStep)
    requires
        available_slots.wf(),
    ensures
        is_interstitial_step(
            r,
            pairs_of(query@),
            ad_server@,
            *config,
            available_slots@,
            params@,
        ),
{
    examine_interstitials(&parse_pairs(query), ad_server, config, available_slots, params)
}

/// A master playlist is only expected, and a path is only unknown, where one
/// stream is served; a playlist of either kind only where any stream is.
pub proof fn one_stream_or_any(path: Seq<char>, config: ServerConfig)
    ensures
        config.master_playlist_path is None ==> route(path, config) == Route::Either || route(
            path,
            config,
        ) == Route::PassOn,
        config.master_playlist_path is Some ==> route(path, config) != Route::Either,
{
}

/// The query string with which a session asks for the stream reaches the ad
/// server when the same session, in whatever spelling of its identifier, asks
/// for interstitials.
pub proof fn a_session_query_reaches_the_ad_server(
    params: Map<u128, Seq<char>>,
    query: Seq<char>,
    session: Seq<char>,
    user_id: Seq<char>,
    url: UrlView,
    slot: AdSlot,
)
    requires
        read_id(session) is Some,
        read_id(user_id) == read_id(session),
    ensures
        ({
            let after = UserDefinedQueryParams::remembered(params, Some(query), Some(session));
            has_suffix(ad_query(url, slot, user_id, after), "&"@ + query)
        }),
{
    let after = UserDefinedQueryParams::remembered(params, Some(query), Some(session));
    let full = ad_query(url, slot, user_id, after);
    let tail = "&"@ + query;
    assert(session_query(after, user_id) == Some(query));
    assert(full.subrange(full.len() - tail.len(), full.len() as int) =~= tail);
}

/// A piece of the ad server's query that stands for no template reaches the ad
/// server as it is written.
pub proof fn other_pieces_are_kept(
    piece: Seq<char>,
    value: Seq<char>,
    slot: AdSlot,
    user_id: Seq<char>,
)
    requires
        !is_template(value),
    ensures
        filled_piece(piece, value, slot, user_id) == piece,
{
}

/// A query without templates reaches the ad server as it is written.
pub proof fn a_query_without_templates_is_kept(
    query: Seq<char>,
    slot: AdSlot,
    user_id: Seq<char>,
)
    requires
        forall|i: int|
            0 <= i < pieces(query).len() ==> !is_template(piece_value(#[trigger] pieces(query)[i])),
    ensures
        filled_query(query, slot, user_id) == query,
    decreases query.len(),
{
    lemma_until_bound(query, '&');
    let end = until(query, '&') as int;
    let all = pieces(query);
    assert(!is_template(piece_value(all[0])));
    if end < query.len() {
        let rest = query.skip(end + 1);
        assert(all == seq![query.take(end)] + pieces(rest));
        assert(all.skip(1) =~= pieces(rest));
        assert(pieces(rest).len() > 0);
        assert forall|i: int| 0 <= i < pieces(rest).len() implies !is_template(
            piece_value(#[trigger] pieces(rest)[i]),
        ) by {
            assert(all[i + 1] == pieces(rest)[i]);
        }
        a_query_without_templates_is_kept(rest, slot, user_id);
        reveal_strlit("&");
        assert(query =~= query.take(end) + "&"@ + rest);
    }
}

} // verus!
