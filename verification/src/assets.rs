//! Asset lists: what players are told about the ads of a slot.

use vstd::prelude::*;

use crate::ads::{ad_of, is_playable, is_raw, is_short, is_transcoded, make_ad, make_test_ad,
    media_urls, raw_creatives, ref_views, seconds, sort_creatives, transcoded_creatives,
    with_test_asset, Ad, AdView, Tracking, TrackingView, UniversalAdId};
use crate::config::TestAsset;
use crate::hls::{build_single_segment, option_text, single_segment_playlist, LONGEST_SEGMENT};
use crate::ids::{free_id, hyphens_before, id_or_nil, id_text, new_id, parse_id_or_nil, print_id, read_id};
use crate::json_value::{array, insert, number, object, pretty, pretty_text, shallow, string, tree,
    trees, Tree};
use crate::requests::{follow_up_id, param};
use crate::stores::{kept_views, AvailableAds, KeptAd, KeptAdView};
use crate::text::{decimal, decimal_string, is_digit, lemma_decimal_digits, lemma_decimal_is_short};
use crate::time::Timestamp;
use crate::vast::{ad_views, all_creatives, creatives_of, read_vast, text_views, Creative,
    CreativeView};
use crate::web::{before_query, check_fragment, count_before_query, count_form_bytes, form_bytes,
    has_fragment, is_counted, is_form_char, is_http, lemma_form_bytes, pair_views, pairs_bytes,
    pairs_of, parse_url, set_pairs, url_of, url_with_pairs, LAST_PLACE};

verus! {

pub open spec fn text_trees(v: Seq<Seq<char>>) -> Seq<Tree> {
    v.map_values(|s: Seq<char>| Tree::Text(s))
}

/// What players are told about an event.
pub open spec fn tracking_json(t: TrackingView) -> Tree {
    Tree::Object(
        match t.offset {
            Some(offset) => seq![
                ("type"@, Tree::Text(t.event)),
                ("offset"@, Tree::Text(offset)),
                ("urls"@, Tree::Array(text_trees(t.urls))),
            ],
            None => seq![
                ("type"@, Tree::Text(t.event)),
                ("urls"@, Tree::Array(text_trees(t.urls))),
            ],
        },
    )
}

fn strings(list: &Vec<String>) -> (r: json::JsonValue)
    ensures
        tree(r) == Tree::Array(text_trees(text_views(list@))),
{
    let mut values: Vec<json::JsonValue> = Vec::new();
    for i in 0..list.len()
        invariant
            values@.len() == i,
            forall|k: int| 0 <= k < i ==> tree(#[trigger] values@[k]) == Tree::Text(list@[k]@),
    {
        values.push(string(list[i].as_str()));
    }
    assert(trees(values@) =~= text_trees(text_views(list@)));
    array(values)
}

pub fn to_tracking_json(tracking: &Tracking) -> (r: json::JsonValue)
    ensures
        tree(r) == tracking_json(tracking@),
{
    proof {
        reveal_strlit("type");
        reveal_strlit("offset");
        reveal_strlit("urls");
        assert("type"@.len() == 4);
        assert("offset"@.len() == 6);
        assert("urls"@.len() == 4);
        assert("type"@[0] != "urls"@[0]);
    }
    let mut r = object();
    insert(&mut r, "type", string(tracking.event.as_str()));
    if let Some(offset) = &tracking.offset {
        insert(&mut r, "offset", string(offset.as_str()));
    }
    insert(&mut r, "urls", strings(&tracking.urls));
    assert(tree(r)->Object_0 =~= tracking_json(tracking@)->Object_0);
    r
}

pub open spec fn identifier_json(id: (Seq<char>, Seq<char>)) -> Tree {
    Tree::Object(seq![("scheme"@, Tree::Text(id.0)), ("value"@, Tree::Text(id.1))])
}

fn to_identifier_json(id: &UniversalAdId) -> (r: json::JsonValue)
    ensures
        tree(r) == identifier_json(id@),
{
    proof {
        reveal_strlit("scheme");
        reveal_strlit("value");
        assert("scheme"@.len() == 6);
        assert("value"@.len() == 5);
    }
    let mut r = object();
    insert(&mut r, "scheme", string(id.scheme.as_str()));
    insert(&mut r, "value", string(id.value.as_str()));
    assert(tree(r)->Object_0 =~= identifier_json(id@)->Object_0);
    r
}

pub open spec fn slot_payload(ad: AdView, start: nat) -> Tree {
    Tree::Object(
        seq![
            ("type"@, Tree::Text("linear"@)),
            ("start"@, Tree::Number(start)),
            ("duration"@, Tree::Number(ad.duration as nat)),
            (
                "identifiers"@,
                Tree::Array(
                    ad.universal_ad_ids.map_values(
                        |id: (Seq<char>, Seq<char>)| identifier_json(id),
                    ),
                ),
            ),
            ("tracking"@, Tree::Array(ad.tracking.map_values(|t: TrackingView| tracking_json(t)))),
        ],
    )
}

/// The signaling of version 2 about an ad or a pod of ads.
pub open spec fn signaling(kind: Seq<char>, payload: Tree) -> Tree {
    Tree::Object(
        seq![
            ("version"@, Tree::Number(2)),
            ("type"@, Tree::Text(kind)),
            ("payload"@, payload),
        ],
    )
}

fn to_signaling(kind: &str, payload: json::JsonValue) -> (r: json::JsonValue)
    ensures
        tree(r) == signaling(kind@, tree(payload)),
{
    proof {
        reveal_strlit("version");
        reveal_strlit("type");
        reveal_strlit("payload");
        assert("version"@.len() == 7);
        assert("type"@.len() == 4);
        assert("payload"@.len() == 7);
        assert("version"@[0] != "payload"@[0]);
    }
    let ghost payload_tree = tree(payload);
    let mut r = object();
    insert(&mut r, "version", number(2));
    insert(&mut r, "type", string(kind));
    insert(&mut r, "payload", payload);
    assert(tree(r)->Object_0 =~= signaling(kind@, payload_tree)->Object_0);
    r
}

/// What players are told about an ad that is found at `url` and starts `start`
/// seconds into the break.
pub open spec fn ad_asset_json(url: Seq<char>, ad: AdView, start: nat) -> Tree {
    Tree::Object(
        seq![
            ("URI"@, Tree::Text(url)),
            ("DURATION"@, Tree::Number(ad.duration as nat)),
            ("X-AD-CREATIVE-SIGNALING"@, signaling("slot"@, slot_payload(ad, start))),
        ],
    )
}

pub fn to_ad_asset_json(url: &str, ad: &Ad, start: u64) -> (r: json::JsonValue)
    ensures
        tree(r) == ad_asset_json(url@, ad@, start as nat),
{
    let mut identifiers: Vec<json::JsonValue> = Vec::new();
    for i in 0..ad.universal_ad_ids.len()
        invariant
            identifiers@.len() == i,
            forall|k: int|
                0 <= k < i ==> tree(#[trigger] identifiers@[k]) == identifier_json(
                    ad.universal_ad_ids@[k]@,
                ),
    {
        identifiers.push(to_identifier_json(&ad.universal_ad_ids[i]));
    }
    let mut tracking: Vec<json::JsonValue> = Vec::new();
    for i in 0..ad.tracking.len()
        invariant
            tracking@.len() == i,
            forall|k: int|
                0 <= k < i ==> tree(#[trigger] tracking@[k]) == tracking_json(ad.tracking@[k]@),
    {
        tracking.push(to_tracking_json(&ad.tracking[i]));
    }
    proof {
        reveal_strlit("type");
        reveal_strlit("start");
        reveal_strlit("duration");
        reveal_strlit("identifiers");
        reveal_strlit("tracking");
        assert("type"@.len() == 4);
        assert("start"@.len() == 5);
        assert("duration"@.len() == 8);
        assert("identifiers"@.len() == 11);
        assert("tracking"@.len() == 8);
        assert("duration"@[0] != "tracking"@[0]);
        reveal_strlit("URI");
        reveal_strlit("DURATION");
        reveal_strlit("X-AD-CREATIVE-SIGNALING");
        assert("URI"@.len() == 3);
        assert("DURATION"@.len() == 8);
        assert("X-AD-CREATIVE-SIGNALING"@.len() == 23);
        let expected = slot_payload(ad@, start as nat)->Object_0;
        assert(trees(identifiers@) =~= expected[3].1->Array_0);
        assert(trees(tracking@) =~= expected[4].1->Array_0);
    }
    let mut payload = object();
    insert(&mut payload, "type", string("linear"));
    insert(&mut payload, "start", number(start));
    insert(&mut payload, "duration", number(ad.duration));
    insert(&mut payload, "identifiers", array(identifiers));
    insert(&mut payload, "tracking", array(tracking));
    assert(tree(payload)->Object_0 =~= slot_payload(ad@, start as nat)->Object_0);
    let mut r = object();
    insert(&mut r, "URI", string(url));
    insert(&mut r, "DURATION", number(ad.duration));
    insert(&mut r, "X-AD-CREATIVE-SIGNALING", to_signaling("slot", payload));
    assert(tree(r)->Object_0 =~= ad_asset_json(url@, ad@, start as nat)->Object_0);
    r
}

/// What players are told about a pod of ads, `duration` seconds long.
pub open spec fn asset_list_json(assets: Seq<Tree>, duration: nat) -> Tree {
    Tree::Object(
        seq![
            ("ASSETS"@, Tree::Array(assets)),
            (
                "X-AD-CREATIVE-SIGNALING"@,
                signaling("pod"@, Tree::Object(seq![("duration"@, Tree::Number(duration))])),
            ),
        ],
    )
}

proof fn lemma_tracking_is_shallow(t: TrackingView)
    ensures
        shallow(tracking_json(t), 2),
{
    reveal_with_fuel(shallow, 3);
    let members = tracking_json(t)->Object_0;
    assert forall|i: int| 0 <= i < members.len() implies shallow((#[trigger] members[i]).1, 1) by {
        if members[i].1 is Array {
            let items = members[i].1->Array_0;
            assert forall|k: int| 0 <= k < items.len() implies shallow(#[trigger] items[k], 0) by {
                assert(items[k] == Tree::Text(t.urls[k]));
            }
        }
    }
}

proof fn lemma_identifier_is_shallow(id: (Seq<char>, Seq<char>))
    ensures
        shallow(identifier_json(id), 2),
{
    reveal_with_fuel(shallow, 3);
}

/// What is told about an ad has six levels at most.
pub proof fn lemma_asset_is_shallow(url: Seq<char>, ad: AdView, start: nat)
    ensures
        shallow(ad_asset_json(url, ad, start), 6),
{
    let payload = slot_payload(ad, start);
    let members = payload->Object_0;
    assert forall|i: int| 0 <= i < members.len() implies shallow((#[trigger] members[i]).1, 3) by {
        reveal_with_fuel(shallow, 2);
        if i == 3 {
            let items = members[3].1->Array_0;
            assert forall|k: int| 0 <= k < items.len() implies shallow(#[trigger] items[k], 2) by {
                lemma_identifier_is_shallow(ad.universal_ad_ids[k]);
                assert(items[k] == identifier_json(ad.universal_ad_ids[k]));
            }
        } else if i == 4 {
            let items = members[4].1->Array_0;
            assert forall|k: int| 0 <= k < items.len() implies shallow(#[trigger] items[k], 2) by {
                lemma_tracking_is_shallow(ad.tracking[k]);
                assert(items[k] == tracking_json(ad.tracking[k]));
            }
        }
    }
    assert(shallow(payload, 4));
    let sign = signaling("slot"@, payload);
    let outer = sign->Object_0;
    assert forall|i: int| 0 <= i < outer.len() implies shallow((#[trigger] outer[i]).1, 4) by {
        reveal_with_fuel(shallow, 1);
    }
    assert(shallow(sign, 5));
    let all = ad_asset_json(url, ad, start)->Object_0;
    assert forall|i: int| 0 <= i < all.len() implies shallow((#[trigger] all[i]).1, 5) by {
        reveal_with_fuel(shallow, 1);
    }
}

pub fn to_asset_list_json_string(assets: Vec<json::JsonValue>, duration: u64) -> (r: String)
    requires
        forall|i: int| 0 <= i < assets@.len() ==> shallow(tree(#[trigger] assets@[i]), 6),
    ensures
        r@ == pretty_text(asset_list_json(trees(assets@), duration as nat), 2),
{
    proof {
        reveal_strlit("duration");
        reveal_strlit("ASSETS");
        reveal_strlit("X-AD-CREATIVE-SIGNALING");
        assert("ASSETS"@.len() == 6);
        assert("X-AD-CREATIVE-SIGNALING"@.len() == 23);
    }
    let ghost listed = trees(assets@);
    let mut payload = object();
    insert(&mut payload, "duration", number(duration));
    assert(tree(payload)->Object_0 =~= seq![("duration"@, Tree::Number(duration as nat))]);
    proof {
        let list = Tree::Array(listed);
        assert(shallow(list, 7)) by {
            assert forall|i: int| 0 <= i < listed.len() implies shallow(#[trigger] listed[i], 6) by {
                assert(listed[i] == tree(assets@[i]));
            }
        }
        let sign = signaling("pod"@, tree(payload));
        assert(shallow(sign, 7)) by {
            reveal_with_fuel(shallow, 4);
        }
    }
    let mut r = object();
    insert(&mut r, "ASSETS", array(assets));
    insert(&mut r, "X-AD-CREATIVE-SIGNALING", to_signaling("pod", payload));
    assert(tree(r)->Object_0 =~= asset_list_json(listed, duration as nat)->Object_0);
    pretty(&r, 2)
}

/// How long ads last together.
pub open spec fn total_duration(ads: Seq<AdView>) -> nat
    decreases ads.len(),
{
    if ads.len() == 0 {
        0
    } else {
        total_duration(ads.drop_last()) + ads.last().duration as nat
    }
}

/// The keys and values with which a player asks for an ad that is kept, and
/// that begins `start` seconds after the break.
pub open spec fn follow_up_pairs(
    interstitial_id: Seq<char>,
    user_id: Seq<char>,
    start: nat,
    id: u128,
) -> Seq<(Seq<char>, Seq<char>)> {
    seq![
        ("_HLS_interstitial_id"@, interstitial_id),
        ("_HLS_primary_id"@, user_id),
        ("_HLS_start_offset"@, decimal(start)),
        ("_HLS_follow_id"@, id_text(id)),
    ]
}

/// Where a player asks for an ad that is kept: at the same URL, with the ad's
/// identifier.
pub open spec fn follow_up_url(
    req_url: Seq<char>,
    interstitial_id: Seq<char>,
    user_id: Seq<char>,
    start: nat,
    id: u128,
) -> Seq<char> {
    url_with_pairs(req_url, follow_up_pairs(interstitial_id, user_id, start, id))->0
}

/// The ads that raw creatives become. The identifiers and times are given by
/// `stamps`.
pub open spec fn raw_ads(
    raw: Seq<CreativeView>,
    test_asset: Option<TestAsset>,
    stamps: Seq<(u128, Timestamp)>,
) -> Seq<AdView> {
    Seq::new(
        raw.len(),
        |i: int|
            match test_asset {
                Some(asset) => with_test_asset(ad_of(raw[i], stamps[i].0, stamps[i].1), asset),
                None => ad_of(raw[i], stamps[i].0, stamps[i].1),
            },
    )
}

/// The ads that transcoded creatives become: the stamps of the raw ones, of
/// which there are `skipped`, come first.
pub open spec fn transcoded_ads(
    transcoded: Seq<CreativeView>,
    stamps: Seq<(u128, Timestamp)>,
    skipped: int,
) -> Seq<AdView> {
    Seq::new(
        transcoded.len(),
        |i: int| ad_of(transcoded[i], stamps[skipped + i].0, stamps[skipped + i].1),
    )
}

/// What is told about raw ads: a test asset is played from its own URL, any
/// other ad is asked for again. The start of each is where it ends.
pub open spec fn raw_assets(
    ads: Seq<AdView>,
    test_asset: Option<TestAsset>,
    req_url: Seq<char>,
    interstitial_id: Seq<char>,
    user_id: Seq<char>,
) -> Seq<Tree> {
    Seq::new(
        ads.len(),
        |i: int|
            ad_asset_json(
                if test_asset is Some {
                    ads[i].url
                } else {
                    follow_up_url(
                        req_url,
                        interstitial_id,
                        user_id,
                        total_duration(ads.take(i)),
                        ads[i].ad_id,
                    )
                },
                ads[i],
                total_duration(ads.take(i + 1)),
            ),
    )
}

/// What is told about transcoded ads, after `before` seconds of other ads.
pub open spec fn transcoded_assets(ads: Seq<AdView>, before: nat) -> Seq<Tree> {
    Seq::new(
        ads.len(),
        |i: int| ad_asset_json(ads[i].url, ads[i], before + total_duration(ads.take(i))),
    )
}

pub open spec fn kept(ad: AdView) -> KeptAdView {
    KeptAdView { duration: ad.duration, url: ad.url, requested_at: ad.requested_at }
}

/// The ads that are kept after some more were told about.
pub open spec fn with_kept(map: Map<u128, KeptAdView>, ads: Seq<AdView>) -> Map<u128, KeptAdView>
    decreases ads.len(),
{
    if ads.len() == 0 {
        map
    } else {
        with_kept(map, ads.drop_last()).insert(ads.last().ad_id, kept(ads.last()))
    }
}

/// The asset list for some creatives, as a tree.
pub open spec fn assets_json(
    raw: Seq<CreativeView>,
    transcoded: Seq<CreativeView>,
    req_url: Seq<char>,
    interstitial_id: Seq<char>,
    user_id: Seq<char>,
    test_asset: Option<TestAsset>,
    stamps: Seq<(u128, Timestamp)>,
) -> Tree {
    let first = raw_ads(raw, test_asset, stamps);
    let second = transcoded_ads(transcoded, stamps, raw.len() as int);
    asset_list_json(
        raw_assets(first, test_asset, req_url, interstitial_id, user_id) + transcoded_assets(
            second,
            total_duration(first),
        ),
        total_duration(first) + total_duration(second),
    )
}

/// How long the ads of some creatives last together.
pub open spec fn pod_duration(
    raw: Seq<CreativeView>,
    transcoded: Seq<CreativeView>,
    test_asset: Option<TestAsset>,
) -> nat {
    raw_duration(raw, test_asset) + raw_duration(transcoded, None)
}

pub open spec fn raw_duration(raw: Seq<CreativeView>, test_asset: Option<TestAsset>) -> nat
    decreases raw.len(),
{
    if raw.len() == 0 {
        0
    } else {
        raw_duration(raw.drop_last(), test_asset) + match test_asset {
            Some(asset) => asset.duration as nat,
            None => seconds(raw.last().linear->0) as nat,
        }
    }
}

proof fn lemma_raw_duration(
    raw: Seq<CreativeView>,
    test_asset: Option<TestAsset>,
    ads: Seq<AdView>,
    k: int,
)
    requires
        0 <= k <= raw.len(),
        ads.len() == raw.len(),
        forall|i: int|
            0 <= i < raw.len() ==> (#[trigger] ads[i]).duration == (match test_asset {
                Some(asset) => asset.duration,
                None => seconds(raw[i].linear->0),
            }),
    ensures
        total_duration(ads.take(k)) == raw_duration(raw.take(k), test_asset),
        raw_duration(raw.take(k), test_asset) <= raw_duration(raw, test_asset),
    decreases raw.len() + k,
{
    if k > 0 {
        lemma_raw_duration(raw, test_asset, ads, k - 1);
        assert(ads.take(k).drop_last() == ads.take(k - 1));
        assert(raw.take(k).drop_last() == raw.take(k - 1));
        assert(ads.take(k).last() == ads[k - 1]);
        assert(raw.take(k).last() == raw[k - 1]);
    }
    if k < raw.len() {
        lemma_prefix_duration(raw, test_asset, k);
    } else {
        assert(raw.take(k) == raw);
    }
}

proof fn lemma_prefix_duration(raw: Seq<CreativeView>, test_asset: Option<TestAsset>, k: int)
    requires
        0 <= k <= raw.len(),
    ensures
        raw_duration(raw.take(k), test_asset) <= raw_duration(raw, test_asset),
    decreases raw.len(),
{
    if k < raw.len() {
        lemma_prefix_duration(raw.drop_last(), test_asset, k);
        assert(raw.drop_last().take(k) == raw.take(k));
    } else {
        assert(raw.take(k) == raw);
    }
}

/// How many bytes a query with which a player asks again takes beside the two
/// identifiers that it was told: four keys, the marks between them and the
/// values, the longest start and the identifier of an ad.
pub const FOLLOW_UP_BYTES: u64 = 129;

/// Whether a player can be told to ask again: at a URL that has room for the
/// identifiers.
pub open spec fn can_ask_again(
    req_url: Seq<char>,
    interstitial_id: Seq<char>,
    user_id: Seq<char>,
) -> bool {
    &&& url_of(req_url) matches Some(parts)
    &&& is_counted(parts.text)
    &&& has_fragment(parts.text) ==> before_query(parts.text).len() + 1 + form_bytes(
        interstitial_id,
    ) + form_bytes(user_id) + FOLLOW_UP_BYTES <= LAST_PLACE
}

fn check_can_ask_again(req_url: &str, interstitial_id: &str, user_id: &str) -> (r: bool)
    ensures
        r == can_ask_again(req_url@, interstitial_id@, user_id@),
{
    let parts = match parse_url(req_url) {
        Some(parts) => parts,
        None => return false,
    };
    let before = match count_before_query(parts.text.as_str()) {
        Some(before) => before,
        None => return false,
    };
    if !check_fragment(parts.text.as_str()) {
        return true;
    }
    match (count_form_bytes(interstitial_id), count_form_bytes(user_id)) {
        (Some(a), Some(b)) => before + 1 + a + b + FOLLOW_UP_BYTES <= LAST_PLACE,
        _ => false,
    }
}

proof fn lemma_follow_up_bytes(
    interstitial_id: Seq<char>,
    user_id: Seq<char>,
    start: u64,
    id: u128,
)
    ensures
        pairs_bytes(follow_up_pairs(interstitial_id, user_id, start as nat, id)) <= form_bytes(
            interstitial_id,
        ) + form_bytes(user_id) + FOLLOW_UP_BYTES,
{
    reveal_strlit("_HLS_interstitial_id");
    reveal_strlit("_HLS_primary_id");
    reveal_strlit("_HLS_start_offset");
    reveal_strlit("_HLS_follow_id");
    lemma_form_bytes("_HLS_interstitial_id"@);
    lemma_form_bytes("_HLS_primary_id"@);
    lemma_form_bytes("_HLS_start_offset"@);
    lemma_form_bytes("_HLS_follow_id"@);
    assert("_HLS_interstitial_id"@.len() == 20);
    assert("_HLS_primary_id"@.len() == 15);
    assert("_HLS_start_offset"@.len() == 17);
    assert("_HLS_follow_id"@.len() == 14);
    lemma_decimal_is_short(start);
    lemma_decimal_digits(start as nat);
    let number = decimal(start as nat);
    assert forall|i: int| 0 <= i < number.len() implies is_form_char(#[trigger] number[i]) by {
        assert(is_digit(number[i]));
    }
    lemma_form_bytes(number);
    assert forall|i: int| 0 <= i < id_text(id).len() implies is_form_char(
        #[trigger] id_text(id)[i],
    ) by {
        let place = 31 - (i - hyphens_before(i));
        let d = id as int / vstd::arithmetic::power::pow(16, place as nat) % 16;
        assert(0 <= d < 16);
    }
    lemma_form_bytes(id_text(id));
    let all = follow_up_pairs(interstitial_id, user_id, start as nat, id);
    let three = all.drop_last();
    let two = three.drop_last();
    let one = two.drop_last();
    assert(one.drop_last() =~= seq![]);
    reveal_with_fuel(pairs_bytes, 5);
}

/// The URL at which a player asks for an ad again. The identifier is read back
/// from it.
fn make_follow_up_url(
    req_url: &str,
    interstitial_id: &str,
    user_id: &str,
    start: u64,
    id: u128,
) -> (r: String)
    requires
        can_ask_again(req_url@, interstitial_id@, user_id@),
    ensures
        r@ == follow_up_url(req_url@, interstitial_id@, user_id@, start as nat, id),
        read_id(id_text(id)) == Some(id),
        is_http(r@) ==> {
            &&& url_of(r@) matches Some(url)
            &&& url.query matches Some(query)
            &&& pairs_of(query) == follow_up_pairs(interstitial_id@, user_id@, start as nat, id)
        },
{
    let id_string = print_id(id);
    let mut pairs: Vec<(String, String)> = Vec::new();
    pairs.push(("_HLS_interstitial_id".to_string(), interstitial_id.to_string()));
    pairs.push(("_HLS_primary_id".to_string(), user_id.to_string()));
    pairs.push(("_HLS_start_offset".to_string(), decimal_string(start)));
    pairs.push(("_HLS_follow_id".to_string(), id_string));
    proof {
        lemma_follow_up_bytes(interstitial_id@, user_id@, start, id);
        assert(pair_views(pairs@) =~= follow_up_pairs(
            interstitial_id@,
            user_id@,
            start as nat,
            id,
        ));
    }
    set_pairs(req_url, &pairs).unwrap()
}

/// Whether the URL at which a player asks for an ad again names the ad.
pub open spec fn names_the_ad(
    req_url: Seq<char>,
    interstitial_id: Seq<char>,
    user_id: Seq<char>,
    start: nat,
    id: u128,
) -> bool {
    let url = follow_up_url(req_url, interstitial_id, user_id, start, id);
    &&& read_id(id_text(id)) == Some(id)
    &&& is_http(url) ==> {
        &&& url_of(url) matches Some(parts)
        &&& parts.query matches Some(query)
        &&& pairs_of(query) == follow_up_pairs(interstitial_id, user_id, start, id)
    }
}

/// The asset list for some creatives, with the identifiers and times of
/// `stamps`. Raw ads are kept for the follow-up requests.
pub fn wrap_creatives(
    raw: &Vec<&Creative>,
    transcoded: &Vec<&Creative>,
    req_url: &str,
    interstitial_id: &str,
    user_id: &str,
    test_asset: &Option<TestAsset>,
    available_ads: &mut AvailableAds,
    stamps: &Vec<(u128, Timestamp)>,
) -> (r: String)
    requires
        forall|i: int|
            0 <= i < raw@.len() ==> is_playable((#[trigger] raw@[i])@) && is_short(raw@[i]@),
        forall|i: int| 0 <= i < transcoded@.len() ==> is_playable((#[trigger] transcoded@[i])@),
        stamps@.len() == raw@.len() + transcoded@.len(),
        pod_duration(ref_views(raw@), ref_views(transcoded@), *test_asset) <= u64::MAX,
        can_ask_again(req_url@, interstitial_id@, user_id@),
        old(available_ads).wf(),
    ensures
        final(available_ads).wf(),
        r@ == pretty_text(
            assets_json(
                ref_views(raw@),
                ref_views(transcoded@),
                req_url@,
                interstitial_id@,
                user_id@,
                *test_asset,
                stamps@,
            ),
            2,
        ),
        final(available_ads)@ == (if *test_asset is Some {
            old(available_ads)@
        } else {
            with_kept(old(available_ads)@, raw_ads(ref_views(raw@), *test_asset, stamps@))
        }),
        *test_asset is None ==> forall|i: int|
            0 <= i < raw@.len() ==> names_the_ad(
                req_url@,
                interstitial_id@,
                user_id@,
                total_duration(raw_ads(ref_views(raw@), None, stamps@).take(i)),
                (#[trigger] stamps@[i]).0,
            ),
{
    let ghost raw_views = ref_views(raw@);
    let ghost transcoded_views = ref_views(transcoded@);
    let ghost first = raw_ads(raw_views, *test_asset, stamps@);
    let ghost second = transcoded_ads(transcoded_views, stamps@, raw_views.len() as int);
    let ghost first_assets = raw_assets(first, *test_asset, req_url@, interstitial_id@, user_id@);
    let ghost second_assets = transcoded_assets(second, total_duration(first));
    let mut assets: Vec<json::JsonValue> = Vec::new();
    let mut start_offset: u64 = 0;
    assert(first.take(0) == Seq::<AdView>::empty());
    for i in 0..raw.len()
        invariant
            raw_views == ref_views(raw@),
            first == raw_ads(raw_views, *test_asset, stamps@),
            first_assets == raw_assets(
                first,
                *test_asset,
                req_url@,
                interstitial_id@,
                user_id@,
            ),
            forall|i: int|
                0 <= i < raw@.len() ==> is_playable((#[trigger] raw@[i])@) && is_short(raw@[i]@),
            stamps@.len() == raw@.len() + transcoded@.len(),
            raw_duration(raw_views, *test_asset) <= u64::MAX,
            can_ask_again(req_url@, interstitial_id@, user_id@),
            available_ads.wf(),
            start_offset == total_duration(first.take(i as int)),
            assets@.len() == i,
            forall|k: int|
                0 <= k < i ==> tree(#[trigger] assets@[k]) == first_assets[k] && shallow(
                    first_assets[k],
                    6,
                ),
            available_ads@ == (if *test_asset is Some {
                old(available_ads)@
            } else {
                with_kept(old(available_ads)@, first.take(i as int))
            }),
            *test_asset is None ==> forall|k: int|
                0 <= k < i ==> names_the_ad(
                    req_url@,
                    interstitial_id@,
                    user_id@,
                    total_duration(first.take(k)),
                    (#[trigger] stamps@[k]).0,
                ),
    {
        assert(raw_views[i as int] == raw@[i as int]@);
        let (id, requested_at) = stamps[i];
        proof {
            lemma_raw_duration(raw_views, *test_asset, first, i + 1);
            assert(first.take(i + 1).drop_last() == first.take(i as int));
            assert(first.take(i + 1).last() == first[i as int]);
        }
        match test_asset {
            Some(asset) => {
                let ad = make_test_ad(raw[i], asset, id, requested_at);
                assert(ad@ == first[i as int]);
                start_offset = start_offset + ad.duration;
                assets.push(to_ad_asset_json(ad.url.as_str(), &ad, start_offset));
                proof {
                    lemma_asset_is_shallow(ad.url@, ad@, start_offset as nat);
                }
            },
            None => {
                let ad = make_ad(raw[i], id, requested_at);
                assert(ad@ == first[i as int]);
                available_ads.insert(
                    id,
                    KeptAd {
                        duration: ad.duration,
                        url: ad.url.clone(),
                        requested_at: ad.requested_at,
                    },
                );
                let url = make_follow_up_url(req_url, interstitial_id, user_id, start_offset, id);
                start_offset = start_offset + ad.duration;
                assets.push(to_ad_asset_json(url.as_str(), &ad, start_offset));
                proof {
                    lemma_asset_is_shallow(url@, ad@, start_offset as nat);
                }
            },
        }
    }
    assert(first.take(first.len() as int) == first);
    proof {
        lemma_raw_duration(raw_views, *test_asset, first, raw_views.len() as int);
        assert(raw_views.take(raw_views.len() as int) == raw_views);
        assert(second.take(0) == Seq::<AdView>::empty());
    }
    for i in 0..transcoded.len()
        invariant
            transcoded_views == ref_views(transcoded@),
            second == transcoded_ads(transcoded_views, stamps@, raw@.len() as int),
            second_assets == transcoded_assets(second, total_duration(first)),
            first_assets.len() == raw@.len(),
            forall|i: int| 0 <= i < transcoded@.len() ==> is_playable((#[trigger] transcoded@[i])@),
            stamps.len() == raw.len() + transcoded.len(),
            total_duration(first) + raw_duration(transcoded_views, None) <= u64::MAX,
            start_offset == total_duration(first) + total_duration(second.take(i as int)),
            assets@.len() == raw@.len() + i,
            forall|k: int|
                0 <= k < raw@.len() ==> tree(#[trigger] assets@[k]) == first_assets[k] && shallow(
                    first_assets[k],
                    6,
                ),
            forall|k: int|
                raw@.len() <= k < raw@.len() + i ==> tree(#[trigger] assets@[k])
                    == second_assets[k - raw@.len()] && shallow(
                    second_assets[k - raw@.len()],
                    6,
                ),
    {
        assert(transcoded_views[i as int] == transcoded@[i as int]@);
        let (id, requested_at) = stamps[raw.len() + i];
        let ad = make_ad(transcoded[i], id, requested_at);
        assert(ad@ == second[i as int]);
        assets.push(to_ad_asset_json(ad.url.as_str(), &ad, start_offset));
        proof {
            lemma_asset_is_shallow(ad.url@, ad@, start_offset as nat);
            lemma_raw_duration(transcoded_views, None, second, i + 1);
            assert(second.take(i + 1).drop_last() == second.take(i as int));
            assert(second.take(i + 1).last() == second[i as int]);
        }
        start_offset = start_offset + ad.duration;
    }
    assert(second.take(second.len() as int) == second);
    proof {
        assert(trees(assets@) =~= first_assets + second_assets);
        assert forall|i: int| 0 <= i < assets@.len() implies shallow(
            tree(#[trigger] assets@[i]),
            6,
        ) by {}
    }
    to_asset_list_json_string(assets, start_offset)
}

/// Whether an asset list can be made for some creatives: the request has a URL
/// that can be asked for again, and the ads last no longer than can be
/// counted.
pub open spec fn can_wrap(
    all: Seq<CreativeView>,
    req_url: Seq<char>,
    interstitial_id: Seq<char>,
    user_id: Seq<char>,
    test_asset: Option<TestAsset>,
) -> bool {
    &&& can_ask_again(req_url, interstitial_id, user_id)
    &&& pod_duration(raw_creatives(all), transcoded_creatives(all), test_asset) <= u64::MAX
}

proof fn lemma_filtered(all: Seq<CreativeView>, wanted: spec_fn(CreativeView) -> bool, i: int)
    requires
        0 <= i < all.filter(wanted).len(),
    ensures
        wanted(all.filter(wanted)[i]),
{
    all.filter_lemma(wanted);
}

fn sum_durations(list: &Vec<&Creative>, test_asset: &Option<TestAsset>) -> (r: Option<u64>)
    requires
        forall|i: int| 0 <= i < list@.len() ==> (#[trigger] list@[i])@.linear is Some,
    ensures
        match r {
            Some(sum) => sum == raw_duration(ref_views(list@), *test_asset),
            None => raw_duration(ref_views(list@), *test_asset) > u64::MAX,
        },
{
    let ghost views = ref_views(list@);
    let mut sum: u64 = 0;
    assert(views.take(0) == Seq::<CreativeView>::empty());
    for i in 0..list.len()
        invariant
            views == ref_views(list@),
            forall|i: int| 0 <= i < list@.len() ==> (#[trigger] list@[i])@.linear is Some,
            sum == raw_duration(views.take(i as int), *test_asset),
    {
        assert(list@[i as int]@.linear is Some);
        let duration = match test_asset {
            Some(asset) => asset.duration,
            None => match list[i].linear.as_ref().unwrap().duration {
                Some(n) => n,
                None => 0,
            },
        };
        proof {
            assert(views.take(i + 1).drop_last() == views.take(i as int));
            assert(views.take(i + 1).last() == list@[i as int]@);
            lemma_prefix_duration(views, *test_asset, i + 1);
        }
        match sum.checked_add(duration) {
            Some(n) => {
                sum = n;
            },
            None => return None,
        }
    }
    assert(views.take(views.len() as int) == views);
    Some(sum)
}

/// Whether none of the identifiers is all zeros.
pub open spec fn has_ids(stamps: Seq<(u128, Timestamp)>) -> bool {
    forall|i: int| 0 <= i < stamps.len() ==> (#[trigger] stamps[i]).0 != 0
}

/// Whether the identifiers are all different, and none is that of an ad that
/// is kept already.
pub open spec fn has_free_ids(
    stamps: Seq<(u128, Timestamp)>,
    ads: Map<u128, KeptAdView>,
) -> bool {
    &&& forall|i: int, k: int|
        0 <= i < k < stamps.len() ==> (#[trigger] stamps[i]).0 != (#[trigger] stamps[k]).0
    &&& forall|i: int| 0 <= i < stamps.len() ==> !ads.contains_key((#[trigger] stamps[i]).0)
}

/// An identifier that no stamp and no kept ad has. The identifiers of the
/// stamps are `taken`.
fn choose_ad_id(
    stamps: &Vec<(u128, Timestamp)>,
    taken: &std::collections::HashSet<u128>,
    available_ads: &AvailableAds,
) -> (r: u128)
    requires
        forall|k: int| 0 <= k < stamps@.len() ==> taken@.contains((#[trigger] stamps@[k]).0),
    ensures
        r != 0,
        forall|k: int| 0 <= k < stamps@.len() ==> (#[trigger] stamps@[k]).0 != r,
        !available_ads@.contains_key(r),
{
    broadcast use vstd::std_specs::hash::group_hash_axioms;

    let drawn = new_id();
    if !taken.contains(&drawn) && available_ads.get(drawn).is_none() {
        return drawn;
    }
    let mut all: std::collections::HashSet<u128> = std::collections::HashSet::new();
    for i in 0..stamps.len()
        invariant
            all@.finite(),
            forall|k: int| 0 <= k < i ==> all@.contains((#[trigger] stamps@[k]).0),
    {
        all.insert(stamps[i].0);
    }
    let entries = available_ads.items();
    let ghost list = kept_views(entries@);
    for i in 0..entries.len()
        invariant
            list == kept_views(entries@),
            all@.finite(),
            forall|k: int| 0 <= k < stamps@.len() ==> all@.contains((#[trigger] stamps@[k]).0),
            forall|k: int| 0 <= k < i ==> all@.contains((#[trigger] list[k]).0),
    {
        assert(list[i as int].0 == entries@[i as int].0);
        all.insert(entries[i].0);
    }
    let r = free_id(drawn, &all);
    proof {
        if available_ads@.contains_key(r) {
            let i = choose|i: int| 0 <= i < list.len() && (#[trigger] list[i]).0 == r;
            assert(all@.contains(list[i].0));
        }
    }
    r
}

/// The present and an identifier of its own, for one more ad.
fn push_stamp(
    stamps: &mut Vec<(u128, Timestamp)>,
    taken: &mut std::collections::HashSet<u128>,
    available_ads: &AvailableAds,
)
    requires
        has_ids(old(stamps)@),
        has_free_ids(old(stamps)@, available_ads@),
        forall|k: int|
            0 <= k < old(stamps)@.len() ==> old(taken)@.contains((#[trigger] old(stamps)@[k]).0),
    ensures
        final(stamps)@.len() == old(stamps)@.len() + 1,
        has_ids(final(stamps)@),
        has_free_ids(final(stamps)@, available_ads@),
        forall|k: int|
            0 <= k < final(stamps)@.len() ==> final(taken)@.contains(
                (#[trigger] final(stamps)@[k]).0,
            ),
{
    broadcast use vstd::std_specs::hash::group_hash_axioms;

    let id = choose_ad_id(stamps, taken, available_ads);
    let ghost before = stamps@;
    stamps.push((id, Timestamp::now()));
    taken.insert(id);
    assert forall|a: int, b: int| 0 <= a < b < stamps@.len() implies (#[trigger] stamps@[a]).0 != (
    #[trigger] stamps@[b]).0 by {
        assert(stamps@[a] == before[a]);
    }
}

/// The present and an identifier of its own, for each of `a` ads and then of
/// `b` ads.
fn make_stamps(a: usize, b: usize, available_ads: &AvailableAds) -> (r: Vec<(u128, Timestamp)>)
    ensures
        r@.len() == a + b,
        has_ids(r@),
        has_free_ids(r@, available_ads@),
{
    let mut r: Vec<(u128, Timestamp)> = Vec::new();
    let mut taken: std::collections::HashSet<u128> = std::collections::HashSet::new();
    for i in 0..a
        invariant
            forall|k: int| 0 <= k < r@.len() ==> taken@.contains((#[trigger] r@[k]).0),
            r@.len() == i,
            has_ids(r@),
            has_free_ids(r@, available_ads@),
    {
        push_stamp(&mut r, &mut taken, available_ads);
    }
    for i in 0..b
        invariant
            forall|k: int| 0 <= k < r@.len() ==> taken@.contains((#[trigger] r@[k]).0),
            r@.len() == a + i,
            has_ids(r@),
            has_free_ids(r@, available_ads@),
    {
        push_stamp(&mut r, &mut taken, available_ads);
    }
    r
}

/// The asset list for the creatives of an ad server, and the ads that are kept
/// for follow-up requests. The identifiers and times of the ads are given from
/// outside. There is no list where [`can_wrap`] does not hold.
pub fn wrap_into_assets(
    vast: &Vec<Option<Vec<Creative>>>,
    req_url: &str,
    interstitial_id: &str,
    user_id: &str,
    test_asset: &Option<TestAsset>,
    available_ads: &mut AvailableAds,
) -> (r: Option<String>)
    requires
        old(available_ads).wf(),
        forall|i: int, k: int|
            0 <= i < vast@.len() && vast@[i] is Some && 0 <= k < vast@[i]->0@.len() ==> is_short(
                (#[trigger] vast@[i]->0@[k])@,
            ),
    ensures
        final(available_ads).wf(),
        r is Some <==> can_wrap(
            all_creatives(ad_views(vast@)),
            req_url@,
            interstitial_id@,
            user_id@,
            *test_asset,
        ),
        r is None ==> final(available_ads)@ == old(available_ads)@,
        r matches Some(text) ==> wraps(
            all_creatives(ad_views(vast@)),
            req_url@,
            interstitial_id@,
            user_id@,
            *test_asset,
            old(available_ads)@,
            final(available_ads)@,
            text@,
        ),
{
    let ghost all = all_creatives(ad_views(vast@));
    if !check_can_ask_again(req_url, interstitial_id, user_id) {
        return None;
    }
    let (raw, transcoded) = sort_creatives(vast);
    proof {
        assert forall|i: int| 0 <= i < raw@.len() implies is_playable((#[trigger] raw@[i])@) by {
            lemma_filtered(all, |c: CreativeView| is_raw(c), i);
            assert(ref_views(raw@)[i] == raw@[i]@);
        }
        assert forall|i: int| 0 <= i < transcoded@.len() implies is_playable(
            (#[trigger] transcoded@[i])@,
        ) by {
            lemma_filtered(all, |c: CreativeView| is_transcoded(c), i);
            assert(ref_views(transcoded@)[i] == transcoded@[i]@);
        }
    }
    match (sum_durations(&raw, test_asset), sum_durations(&transcoded, &None)) {
        (Some(a), Some(b)) => if a.checked_add(b).is_none() {
            return None;
        },
        _ => return None,
    }
    let stamps = make_stamps(raw.len(), transcoded.len(), available_ads);
    let list = wrap_creatives(
        &raw,
        &transcoded,
        req_url,
        interstitial_id,
        user_id,
        test_asset,
        available_ads,
        &stamps,
    );
    assert(is_wrapped(
        all,
        req_url@,
        interstitial_id@,
        user_id@,
        *test_asset,
        old(available_ads)@,
        available_ads@,
        list@,
        stamps@,
    ));
    assert(wraps(
        all,
        req_url@,
        interstitial_id@,
        user_id@,
        *test_asset,
        old(available_ads)@,
        available_ads@,
        list@,
    ));
    Some(list)
}

/// Whether `text` is the asset list for some creatives, and `ads_after` are the
/// ads that are kept then, with the identifiers and times of `stamps`.
pub open spec fn is_wrapped(
    all: Seq<CreativeView>,
    req_url: Seq<char>,
    interstitial_id: Seq<char>,
    user_id: Seq<char>,
    test_asset: Option<TestAsset>,
    ads: Map<u128, KeptAdView>,
    ads_after: Map<u128, KeptAdView>,
    text: Seq<char>,
    stamps: Seq<(u128, Timestamp)>,
) -> bool {
    let raw = raw_creatives(all);
    let transcoded = transcoded_creatives(all);
    &&& stamps.len() == raw.len() + transcoded.len()
    &&& text == pretty_text(
        assets_json(raw, transcoded, req_url, interstitial_id, user_id, test_asset, stamps),
        2,
    )
    &&& ads_after == (if test_asset is Some {
        ads
    } else {
        with_kept(ads, raw_ads(raw, test_asset, stamps))
    })
    &&& test_asset is None ==> forall|i: int|
        0 <= i < raw.len() ==> names_the_ad(
            req_url,
            interstitial_id,
            user_id,
            total_duration(raw_ads(raw, None, stamps).take(i)),
            (#[trigger] stamps[i]).0,
        )
}

/// Whether `text` is the asset list for some creatives, and `ads_after` are the
/// ads that are kept then, for some identifiers and times.
pub open spec fn wraps(
    all: Seq<CreativeView>,
    req_url: Seq<char>,
    interstitial_id: Seq<char>,
    user_id: Seq<char>,
    test_asset: Option<TestAsset>,
    ads: Map<u128, KeptAdView>,
    ads_after: Map<u128, KeptAdView>,
    text: Seq<char>,
) -> bool {
    exists|stamps: Seq<(u128, Timestamp)>|
        has_ids(stamps) && has_free_ids(stamps, ads) && #[trigger] is_wrapped(
            all,
            req_url,
            interstitial_id,
            user_id,
            test_asset,
            ads,
            ads_after,
            text,
            stamps,
        )
}

/// The asset list for what an ad server sent. A document that cannot be read
/// counts as one without ads.
pub fn answer_interstitial(
    xml: &str,
    req_url: &str,
    interstitial_id: &str,
    user_id: &str,
    test_asset: &Option<TestAsset>,
    available_ads: &mut AvailableAds,
) -> (r: Option<String>)
    requires
        old(available_ads).wf(),
    ensures
        final(available_ads).wf(),
        r is Some <==> can_wrap(
            creatives_of(xml@),
            req_url@,
            interstitial_id@,
            user_id@,
            *test_asset,
        ),
        r is None ==> final(available_ads)@ == old(available_ads)@,
        r matches Some(text) ==> wraps(
            creatives_of(xml@),
            req_url@,
            interstitial_id@,
            user_id@,
            *test_asset,
            old(available_ads)@,
            final(available_ads)@,
            text@,
        ),
{
    let vast = read_vast(xml);
    proof {
        assert forall|i: int, k: int|
            0 <= i < vast@.len() && vast@[i] is Some && 0 <= k < vast@[i]->0@.len() implies is_short(
            (#[trigger] vast@[i]->0@[k])@,
        ) by {
            let linear = vast@[i]->0@[k].linear;
            assert(linear matches Some(l) ==> (l.duration matches Some(d) ==> d
                <= LONGEST_SEGMENT));
        }
    }
    wrap_into_assets(&vast, req_url, interstitial_id, user_id, test_asset, available_ads)
}

/// What is told about the test asset, where one is configured.
pub open spec fn test_asset_list(asset: TestAsset) -> Tree {
    asset_list_json(
        seq![
            ad_asset_json(
                asset.url@,
                AdView {
                    ad_id: 0,
                    universal_ad_ids: seq![],
                    duration: asset.duration,
                    url: seq![],
                    requested_at: Timestamp { nanos: 0 },
                    tracking: seq![],
                },
                0,
            ),
        ],
        asset.duration as nat,
    )
}

pub fn serve_test_asset(test_asset: &TestAsset) -> (r: String)
    ensures
        r@ == pretty_text(test_asset_list(*test_asset), 2),
{
    let ad = Ad {
        ad_id: 0,
        universal_ad_ids: Vec::new(),
        duration: test_asset.duration,
        url: String::new(),
        requested_at: Timestamp { nanos: 0 },
        tracking: Vec::new(),
    };
    let asset = to_ad_asset_json(test_asset.url.as_str(), &ad, 0);
    let mut assets: Vec<json::JsonValue> = Vec::new();
    assets.push(asset);
    proof {
        lemma_asset_is_shallow(test_asset.url@, ad@, 0);
        let expected = test_asset_list(*test_asset);
        assert(ad@ =~= (AdView {
            ad_id: 0,
            universal_ad_ids: seq![],
            duration: test_asset.duration,
            url: seq![],
            requested_at: Timestamp { nanos: 0 },
            tracking: seq![],
        }));
        assert(trees(assets@) =~= seq![ad_asset_json(test_asset.url@, ad@, 0)]);
    }
    to_asset_list_json_string(assets, test_asset.duration)
}

/// The playlist of an ad that is kept under the identifier that a text holds;
/// `None` where there is no such ad. A text that holds no identifier counts as
/// the one that is all zeros.
pub open spec fn kept_playlist(ads: Map<u128, KeptAdView>, linear_id: Seq<char>) -> Option<
    Seq<char>,
> {
    let id = id_or_nil(linear_id);
    if ads.contains_key(id) {
        Some(single_segment_playlist(ads[id].duration as nat, ads[id].url))
    } else {
        None
    }
}

/// A follow-up request for an ad that is not a playlist: its media file is
/// wrapped in one.
pub fn handle_raw_asset_request(linear_id: &str, available_ads: &AvailableAds) -> (r: Option<
    String,
>)
    requires
        available_ads.wf(),
    ensures
        option_text(r) == kept_playlist(available_ads@, linear_id@),
{
    match available_ads.get(parse_id_or_nil(linear_id)) {
        Some(ad) => Some(build_single_segment(ad.duration, ad.url.as_str())),
        None => None,
    }
}

proof fn lemma_with_kept(map: Map<u128, KeptAdView>, ads: Seq<AdView>, i: int)
    requires
        0 <= i < ads.len(),
        forall|k: int| i < k < ads.len() ==> (#[trigger] ads[k]).ad_id != ads[i].ad_id,
    ensures
        with_kept(map, ads).contains_key(ads[i].ad_id),
        with_kept(map, ads)[ads[i].ad_id] == kept(ads[i]),
    decreases ads.len(),
{
    if i < ads.len() - 1 {
        lemma_with_kept(map, ads.drop_last(), i);
        assert(ads.last() == ads[ads.len() - 1]);
    }
}

proof fn lemma_kept_keys(map: Map<u128, KeptAdView>, ads: Seq<AdView>, id: u128)
    requires
        !map.contains_key(id),
        forall|k: int| 0 <= k < ads.len() ==> (#[trigger] ads[k]).ad_id != id,
    ensures
        !with_kept(map, ads).contains_key(id),
    decreases ads.len(),
{
    if ads.len() > 0 {
        assert(ads[ads.len() - 1].ad_id != id);
        assert forall|k: int| 0 <= k < ads.drop_last().len() implies (
        #[trigger] ads.drop_last()[k]).ad_id != id by {
            assert(ads.drop_last()[k] == ads[k]);
        }
        lemma_kept_keys(map, ads.drop_last(), id);
    }
}

/// No ad is ever kept under the identifier that is all zeros, so a follow-up
/// request whose identifier cannot be read is answered with no ad.
pub proof fn a_malformed_identifier_finds_no_ad(
    all: Seq<CreativeView>,
    req_url: Seq<char>,
    interstitial_id: Seq<char>,
    user_id: Seq<char>,
    test_asset: Option<TestAsset>,
    ads: Map<u128, KeptAdView>,
    ads_after: Map<u128, KeptAdView>,
    text: Seq<char>,
    linear_id: Seq<char>,
)
    requires
        !ads.contains_key(0),
        wraps(all, req_url, interstitial_id, user_id, test_asset, ads, ads_after, text),
        read_id(linear_id) is None,
    ensures
        !ads_after.contains_key(0),
        kept_playlist(ads_after, linear_id) is None,
{
    let stamps = choose|stamps: Seq<(u128, Timestamp)>|
        has_ids(stamps) && has_free_ids(stamps, ads) && #[trigger] is_wrapped(
            all,
            req_url,
            interstitial_id,
            user_id,
            test_asset,
            ads,
            ads_after,
            text,
            stamps,
        );
    if test_asset is None {
        let raw = raw_ads(raw_creatives(all), None, stamps);
        assert forall|k: int| 0 <= k < raw.len() implies (#[trigger] raw[k]).ad_id != 0 by {
            assert(stamps[k].0 != 0);
        }
        lemma_kept_keys(ads, raw, 0);
    }
}

proof fn lemma_follow_up_id(
    interstitial_id: Seq<char>,
    user_id: Seq<char>,
    start: nat,
    id: u128,
)
    ensures
        follow_up_id(follow_up_pairs(interstitial_id, user_id, start, id)) == Some(id_text(id)),
{
    let pairs = follow_up_pairs(interstitial_id, user_id, start, id);
    reveal_strlit("_HLS_interstitial_id");
    reveal_strlit("_HLS_primary_id");
    reveal_strlit("_HLS_start_offset");
    reveal_strlit("_HLS_follow_id");
    assert("_HLS_interstitial_id"@.len() == 20);
    assert("_HLS_primary_id"@.len() == 15);
    assert("_HLS_start_offset"@.len() == 17);
    assert("_HLS_follow_id"@.len() == 14);
    reveal_with_fuel(param, 4);
    assert(pairs.skip(1).skip(1).skip(1)[0] == pairs[3]);
    assert(pairs.skip(1).skip(1)[0] == pairs[2]);
    assert(pairs.skip(1)[0] == pairs[1]);
}

/// An ad that a player was told about can be asked for: at the URL that the
/// player was given, under the identifier that its query names, there is a
/// playlist with the ad's media file. Identifiers are random; this holds where
/// no later one of the same list is the same.
pub proof fn told_ads_can_be_asked_for(
    all: Seq<CreativeView>,
    req_url: Seq<char>,
    interstitial_id: Seq<char>,
    user_id: Seq<char>,
    ads: Map<u128, KeptAdView>,
    ads_after: Map<u128, KeptAdView>,
    text: Seq<char>,
    stamps: Seq<(u128, Timestamp)>,
    i: int,
)
    requires
        is_wrapped(
            all,
            req_url,
            interstitial_id,
            user_id,
            None,
            ads,
            ads_after,
            text,
            stamps,
        ),
        0 <= i < raw_creatives(all).len(),
        forall|k: int|
            i < k < raw_creatives(all).len() ==> (#[trigger] stamps[k]).0 != stamps[i].0,
    ensures
        ({
            let linear = raw_creatives(all)[i].linear->0;
            let start = total_duration(raw_ads(raw_creatives(all), None, stamps).take(i));
            let url = follow_up_url(req_url, interstitial_id, user_id, start, stamps[i].0);
            &&& kept_playlist(ads_after, id_text(stamps[i].0)) == Some(
                single_segment_playlist(seconds(linear) as nat, media_urls(linear)[0]),
            )
            &&& is_http(url) ==> {
                &&& url_of(url) matches Some(parts)
                &&& parts.query matches Some(query)
                &&& follow_up_id(pairs_of(query)) == Some(id_text(stamps[i].0))
            }
        }),
{
    let raw = raw_creatives(all);
    let told = raw_ads(raw, None, stamps);
    let start = total_duration(told.take(i));
    assert(names_the_ad(req_url, interstitial_id, user_id, start, stamps[i].0));
    lemma_follow_up_id(interstitial_id, user_id, start, stamps[i].0);
    assert forall|k: int| i < k < told.len() implies (#[trigger] told[k]).ad_id != told[i].ad_id by {
        assert(stamps[k].0 != stamps[i].0);
    }
    lemma_with_kept(ads, told, i);
}

/// Where a test asset is configured, nothing is kept, and every ad is the test
/// asset.
pub proof fn the_test_asset_replaces_raw_ads(
    raw: Seq<CreativeView>,
    asset: TestAsset,
    stamps: Seq<(u128, Timestamp)>,
    i: int,
)
    requires
        0 <= i < raw.len(),
    ensures
        raw_ads(raw, Some(asset), stamps)[i].url == asset.url@,
        raw_ads(raw, Some(asset), stamps)[i].duration == asset.duration,
{
}

} // verus!
