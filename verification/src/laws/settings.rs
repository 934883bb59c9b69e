//! Laws of settings and of what is told of them: the command line, the
//! configuration, the origin, the stores, and the replies about them.

use vstd::prelude::*;

use crate::commands::{error_json, success_json, InsertionCommand};
use crate::config::{configured_label, configured_skip_duration, configured_skip_offset,
    interstitials_base, is_label_char, number_or, valid_label, CliArguments, InsertionMode,
    ServerConfig, TestAsset};
use crate::hls::{spec_read_master, spec_read_media, MasterView, MediaView, PlaylistKind, VariantView};
use crate::ids::{id_text, read_id};
use crate::json_value::Tree;
use crate::laws::asset_lists::{lemma_lookup, under};
use crate::laws::requests::ends_in_digits;
use crate::live_edge::{asset_duration, asset_media, first_stream, master_url, media_playlist_url,
    test_asset_url, AssetMediaView};
use crate::mp4_info::comma_list;
use crate::origin::{ad_server_address, forwarded, named_origin};
use crate::slots::{lists, AdSlot};
use crate::status::{ad_json, counted, is_ad_json, is_ads_json, is_queries_json, is_slots_json,
    queries_json, query_json, slot_json, slots_json, status_json};
use crate::stores::{lists_entries, KeptAdView, UserDefinedQueryParams};
use crate::text::{decimal, decimal_is_read_back, has_part, is_digit, lemma_decimal_digits,
    lemma_until_bound, parsed_u64, until};
use crate::time::{full_text, is_zone, millis_text, read_time, Timestamp};
use crate::timeline::total_seconds;
use crate::web::{joined_url, path_bytes, url_of, url_with_path, url_with_query};

verus! {

/// Whether a text is no number: it is empty, or has something in it that is
/// neither a digit nor a plus sign at its start.
pub open spec fn is_no_number(text: Seq<char>) -> bool {
    text.len() == 0 || exists|i: int|
        0 <= i < text.len() && !is_digit(#[trigger] text[i]) && (text[i] != '+' || i > 0)
}

proof fn lemma_no_number(text: Seq<char>)
    requires
        is_no_number(text),
    ensures
        parsed_u64(text) is None,
{
    if text.len() > 0 {
        let i = choose|i: int|
            0 <= i < text.len() && !is_digit(#[trigger] text[i]) && (text[i] != '+' || i > 0);
        if text[0] == '+' {
            assert(text.skip(1)[i - 1] == text[i]);
        }
    }
}

/// A number on the command line counts; anything else leaves the default.
pub proof fn numbers_count_or_else_the_default(n: u64, default: u64, other: Seq<char>)
    requires
        is_no_number(other),
    ensures
        number_or(decimal(n as nat), default) == n,
        number_or(other, default) == default,
{
    decimal_is_read_back(n);
    lemma_no_number(other);
}

/// The skip button appears after any number of seconds, and stays for any
/// number of them but 0. What is no number leaves it out.
pub proof fn the_skip_button_is_configured_in_seconds(n: u64, other: Seq<char>)
    requires
        is_no_number(other),
    ensures
        configured_skip_offset(decimal(n as nat)) == Some(n),
        configured_skip_offset(other) is None,
        n > 0 ==> configured_skip_duration(decimal(n as nat)) == Some(n),
        configured_skip_duration(decimal(0)) is None,
        configured_skip_duration(other) is None,
{
    decimal_is_read_back(n);
    decimal_is_read_back(0);
    lemma_no_number(other);
}

/// Whether a character is an ASCII letter, a hyphen or an underscore.
pub open spec fn is_letter_or_line(c: char) -> bool {
    ('a' <= c && c <= 'z') || ('A' <= c && c <= 'Z') || c == '-' || c == '_'
}

/// A label is used exactly where it is not empty and is made of letters,
/// hyphens and underscores; it is used as it is.
pub proof fn labels_are_used_as_they_are(label: Seq<char>)
    ensures
        configured_label(label) is Some <==> label.len() > 0 && forall|i: int|
            0 <= i < label.len() ==> is_letter_or_line(#[trigger] label[i]),
        configured_label(label) is Some ==> configured_label(label) == Some(label),
{
    if label.len() > 0 && (forall|i: int|
        0 <= i < label.len() ==> is_letter_or_line(#[trigger] label[i])) {
        assert forall|i: int| 0 <= i < label.len() implies is_label_char(#[trigger] label[i]) by {
            assert(is_letter_or_line(label[i]));
        }
    }
    if valid_label(label) {
        assert forall|i: int| 0 <= i < label.len() implies is_letter_or_line(
            #[trigger] label[i],
        ) by {
            assert(is_label_char(label[i]));
        }
    }
}

/// The interstitials are found at the address that was given. Where none was
/// they are found on this machine, at the port that is listened on.
pub proof fn where_interstitials_are_found(args: CliArguments)
    ensures
        args.interstitials_address@.len() > 0 ==> interstitials_base(args)
            == args.interstitials_address@,
        args.interstitials_address@.len() == 0 ==> ends_in_digits(
            interstitials_base(args),
            "http://localhost:"@,
            args.listen_port as u64,
        ),
{
    let head = "http://localhost:"@;
    let port = decimal(args.listen_port as nat);
    lemma_decimal_digits(args.listen_port as nat);
    decimal_is_read_back(args.listen_port as u64);
    let text = head + port;
    assert(text.take(head.len() as int) =~= head);
    assert(text.skip(head.len() as int) =~= port);
    assert forall|i: int| head.len() <= i < text.len() implies is_digit(#[trigger] text[i]) by {
        assert(text[i] == port[i - head.len()]);
    }
}

/// Fixed breaks can be placed up to a fixed time ahead; breaks that are asked
/// for always.
pub proof fn when_breaks_can_be_placed(config: ServerConfig)
    ensures
        config.insertion_mode == InsertionMode::Dynamic ==> config.can_schedule(),
        config.insertion_mode == InsertionMode::Static ==> (config.can_schedule()
            <==> config.target_ad_number * config.target_repeating_cycle
            <= 9_223_372_036_854_775),
{
}

/// Whether a reply tells of an optional number.
pub open spec fn tells_number(t: Tree, n: Option<u64>) -> bool {
    match n {
        Some(n) => t == Tree::Number(n as nat),
        None => t is Null,
    }
}

/// The configuration is told under the names of its parts, and nothing else is.
#[verifier::rlimit(40)]
pub proof fn the_configuration_is_told(config: ServerConfig)
    ensures
        ({
            let t = config.json();
            &&& t->Object_0.len() == 11
            &&& under(t, "forward_url"@) == Tree::Text(config.forward_url@)
            &&& under(t, "interstitials_address"@) == Tree::Text(config.interstitials_address@)
            &&& config.master_playlist_path matches Some(path) ==> under(
                t,
                "master_playlist_path"@,
            ) == Tree::Text(path@)
            &&& config.master_playlist_path is None ==> under(t, "master_playlist_path"@)
                == Tree::Text(Seq::empty())
            &&& config.insertion_mode == InsertionMode::Static ==> under(t, "insertion_mode"@)
                == Tree::Text("static"@)
            &&& config.insertion_mode == InsertionMode::Dynamic ==> under(t, "insertion_mode"@)
                == Tree::Text("dynamic"@)
            &&& under(t, "target_ad_duration"@) == Tree::Number(config.target_ad_duration as nat)
            &&& under(t, "target_repeating_cycle"@) == Tree::Number(
                config.target_repeating_cycle as nat,
            )
            &&& under(t, "target_ad_number"@) == Tree::Number(config.target_ad_number as nat)
            &&& config.test_asset matches Some(asset) ==> under(
                under(t, "test_asset"@),
                "url"@,
            ) == Tree::Text(asset.url@) && under(under(t, "test_asset"@), "duration"@)
                == Tree::Number(asset.duration as nat)
            &&& config.test_asset is None ==> under(t, "test_asset"@) is Object && under(
                t,
                "test_asset"@,
            )->Object_0.len() == 0
            &&& tells_number(under(t, "skip_control_offset"@), config.skip_control_offset)
            &&& tells_number(under(t, "skip_control_duration"@), config.skip_control_duration)
            &&& config.skip_control_label_id matches Some(label) ==> under(
                t,
                "skip_control_label_id"@,
            ) == Tree::Text(label@)
            &&& config.skip_control_label_id is None ==> under(t, "skip_control_label_id"@) is Null
        }),
{
    reveal_strlit("forward_url");
    reveal_strlit("interstitials_address");
    reveal_strlit("master_playlist_path");
    reveal_strlit("insertion_mode");
    reveal_strlit("target_ad_duration");
    reveal_strlit("target_repeating_cycle");
    reveal_strlit("target_ad_number");
    reveal_strlit("test_asset");
    reveal_strlit("skip_control_offset");
    reveal_strlit("skip_control_duration");
    reveal_strlit("skip_control_label_id");
    assert("forward_url"@.len() == 11);
    assert("interstitials_address"@.len() == 21);
    assert("master_playlist_path"@.len() == 20);
    assert("insertion_mode"@.len() == 14);
    assert("target_ad_duration"@.len() == 18);
    assert("target_repeating_cycle"@.len() == 22);
    assert("target_ad_number"@.len() == 16);
    assert("test_asset"@.len() == 10);
    assert("skip_control_offset"@.len() == 19);
    assert("skip_control_duration"@.len() == 21);
    assert("skip_control_label_id"@.len() == 21);
    assert("interstitials_address"@[0] != "skip_control_duration"@[0]);
    assert("interstitials_address"@[0] != "skip_control_label_id"@[0]);
    assert("skip_control_duration"@[13] != "skip_control_label_id"@[13]);
    let members = config.json()->Object_0;
    lemma_lookup(members, "forward_url"@, 0);
    lemma_lookup(members, "interstitials_address"@, 1);
    lemma_lookup(members, "master_playlist_path"@, 2);
    lemma_lookup(members, "insertion_mode"@, 3);
    lemma_lookup(members, "target_ad_duration"@, 4);
    lemma_lookup(members, "target_repeating_cycle"@, 5);
    lemma_lookup(members, "target_ad_number"@, 6);
    lemma_lookup(members, "test_asset"@, 7);
    lemma_lookup(members, "skip_control_offset"@, 8);
    lemma_lookup(members, "skip_control_duration"@, 9);
    lemma_lookup(members, "skip_control_label_id"@, 10);
    if config.test_asset is Some {
        the_test_asset_is_told(config.test_asset->0);
    }
}

proof fn the_test_asset_is_told(asset: TestAsset)
    ensures
        under(asset.json(), "url"@) == Tree::Text(asset.url@),
        under(asset.json(), "duration"@) == Tree::Number(asset.duration as nat),
{
    reveal_strlit("url");
    reveal_strlit("duration");
    assert("url"@.len() == 3);
    assert("duration"@.len() == 8);
    let members = asset.json()->Object_0;
    lemma_lookup(members, "url"@, 0);
    lemma_lookup(members, "duration"@, 1);
}

/// A point in time is told by its whole seconds since the Unix epoch and the
/// nanoseconds over them, in the given zone, where its date has a year that can
/// be written.
pub proof fn a_time_is_told_by_its_seconds(secs: i64, nanos: u32, zone: i32)
    requires
        nanos < 1_000_000_000,
        -8_334_601_142_400 <= secs <= 8_210_266_790_399,
    ensures
        ({
            let t = Timestamp { nanos: (secs * 1_000_000_000 + nanos) as i128 };
            &&& t.millis_text(zone) == Some(millis_text(secs, nanos, zone))
            &&& t.full_text(zone) == Some(full_text(secs, nanos, zone))
        }),
{
    let total = secs * 1_000_000_000 + nanos;
    assert(total / 1_000_000_000 == secs && total % 1_000_000_000 == nanos) by (nonlinear_arith)
        requires
            total == secs * 1_000_000_000 + nanos,
            0 <= nanos < 1_000_000_000,
    ;
}

/// The point in time that a text names is that many nanoseconds since the Unix
/// epoch; a text that names none is none.
pub proof fn a_time_is_read_by_its_seconds(text: Seq<char>)
    ensures
        read_time(text) is None ==> Timestamp::spec_parse(text) is None,
        read_time(text) matches Some((secs, nanos)) ==> (Timestamp::spec_parse(text) matches Some(
            t,
        ) && t.nanos == secs * 1_000_000_000 + nanos),
{
}

/// Whether a reply tells of a slot.
pub open spec fn tells_slot(t: Tree, slot: AdSlot) -> bool {
    &&& under(t, "id"@) == Tree::Text(id_text(slot.id))
    &&& under(t, "index"@) == Tree::Number(slot.index as nat)
    &&& match slot.start_time.full_text(slot.zone) {
        Some(text) => under(t, "start_time"@) == Tree::Text(text),
        None => under(t, "start_time"@) is Null,
    }
    &&& under(t, "duration"@) == Tree::Number(slot.duration as nat)
    &&& under(t, "pod_num"@) == Tree::Number(slot.pod_num as nat)
}

proof fn lemma_slot(slot: AdSlot)
    ensures
        tells_slot(slot_json(slot), slot),
{
    reveal_strlit("id");
    reveal_strlit("index");
    reveal_strlit("start_time");
    reveal_strlit("duration");
    reveal_strlit("pod_num");
    assert("id"@.len() == 2);
    assert("index"@.len() == 5);
    assert("start_time"@.len() == 10);
    assert("duration"@.len() == 8);
    assert("pod_num"@.len() == 7);
    let members = slot_json(slot)->Object_0;
    lemma_lookup(members, "id"@, 0);
    lemma_lookup(members, "index"@, 1);
    lemma_lookup(members, "start_time"@, 2);
    lemma_lookup(members, "duration"@, 3);
    lemma_lookup(members, "pod_num"@, 4);
}

proof fn lemma_counted(key: Seq<char>, items: Seq<Tree>)
    requires
        key != "count"@,
    ensures
        under(counted(key, items), "count"@) == Tree::Number(items.len()),
        under(counted(key, items), key) == Tree::Array(items),
{
    let members = counted(key, items)->Object_0;
    lemma_lookup(members, "count"@, 0);
    lemma_lookup(members, key, 1);
}

/// Every available slot is told of once, and no other, and they are counted.
pub proof fn every_slot_is_told(t: Tree, slots: Set<AdSlot>)
    requires
        is_slots_json(t, slots),
    ensures
        exists|list: Seq<AdSlot>|
            {
                &&& #[trigger] lists(list, slots)
                &&& under(t, "count"@) == Tree::Number(list.len())
                &&& under(t, "slots"@) is Array
                &&& under(t, "slots"@)->Array_0.len() == list.len()
                &&& forall|i: int|
                    0 <= i < list.len() ==> tells_slot(
                        #[trigger] under(t, "slots"@)->Array_0[i],
                        list[i],
                    )
            },
{
    let list = choose|list: Seq<AdSlot>| lists(list, slots) && t == #[trigger] slots_json(list);
    let items = list.map_values(|slot: AdSlot| slot_json(slot));
    reveal_strlit("slots");
    reveal_strlit("count");
    assert("slots"@[0] != "count"@[0]);
    lemma_counted("slots"@, items);
    assert forall|i: int| 0 <= i < list.len() implies tells_slot(
        #[trigger] under(t, "slots"@)->Array_0[i],
        list[i],
    ) by {
        lemma_slot(list[i]);
    }
}

/// Whether a list of slots names each of a set once, and no other.
pub proof fn listed_slots_are_the_available_ones(list: Seq<AdSlot>, slots: Set<AdSlot>, slot: AdSlot)
    requires
        lists(list, slots),
    ensures
        slots.contains(slot) <==> list.contains(slot),
        forall|i: int, k: int| 0 <= i < k < list.len() ==> list[i] != list[k],
{
}

/// Whether a reply tells of a kept ad, with the point in time at which it was
/// asked for in some zone.
pub open spec fn tells_ad(t: Tree, id: u128, ad: KeptAdView) -> bool {
    &&& under(t, "id"@) == Tree::Text(id_text(id))
    &&& under(t, "duration"@) == Tree::Number(ad.duration as nat)
    &&& under(t, "url"@) == Tree::Text(ad.url)
    &&& exists|zone: i32|
        is_zone(zone) && match #[trigger] ad.requested_at.full_text(zone) {
            Some(text) => under(t, "requested_at"@) == Tree::Text(text),
            None => under(t, "requested_at"@) is Null,
        }
}

proof fn lemma_ad(t: Tree, id: u128, ad: KeptAdView)
    requires
        is_ad_json(t, id, ad),
    ensures
        tells_ad(t, id, ad),
{
    let zone = choose|zone: i32|
        is_zone(zone) && t == #[trigger] ad_json(id, ad, ad.requested_at.full_text(zone));
    reveal_strlit("id");
    reveal_strlit("duration");
    reveal_strlit("url");
    reveal_strlit("requested_at");
    assert("id"@.len() == 2);
    assert("duration"@.len() == 8);
    assert("url"@.len() == 3);
    assert("requested_at"@.len() == 12);
    let members = t->Object_0;
    lemma_lookup(members, "id"@, 0);
    lemma_lookup(members, "duration"@, 1);
    lemma_lookup(members, "url"@, 2);
    lemma_lookup(members, "requested_at"@, 3);
    assert(is_zone(zone) && match ad.requested_at.full_text(zone) {
        Some(text) => under(t, "requested_at"@) == Tree::Text(text),
        None => under(t, "requested_at"@) is Null,
    });
}

/// Every kept ad is told of once, under its identifier, and no other, and they
/// are counted.
pub proof fn every_kept_ad_is_told(t: Tree, ads: Map<u128, KeptAdView>)
    requires
        is_ads_json(t, ads),
    ensures
        exists|list: Seq<(u128, KeptAdView)>|
            {
                &&& #[trigger] lists_entries(list, ads)
                &&& under(t, "count"@) == Tree::Number(list.len())
                &&& under(t, "linears"@) is Array
                &&& under(t, "linears"@)->Array_0.len() == list.len()
                &&& forall|i: int|
                    0 <= i < list.len() ==> tells_ad(
                        #[trigger] under(t, "linears"@)->Array_0[i],
                        list[i].0,
                        list[i].1,
                    )
            },
{
    let (list, items) = choose|list: Seq<(u128, KeptAdView)>, items: Seq<Tree>|
        #![trigger lists_entries(list, ads), counted("linears"@, items)]
        {
            &&& lists_entries(list, ads)
            &&& items.len() == list.len()
            &&& forall|i: int|
                0 <= i < list.len() ==> is_ad_json(#[trigger] items[i], list[i].0, list[i].1)
            &&& t == counted("linears"@, items)
        };
    reveal_strlit("linears");
    reveal_strlit("count");
    assert("linears"@[0] != "count"@[0]);
    lemma_counted("linears"@, items);
    assert forall|i: int| 0 <= i < list.len() implies tells_ad(
        #[trigger] under(t, "linears"@)->Array_0[i],
        list[i].0,
        list[i].1,
    ) by {
        lemma_ad(items[i], list[i].0, list[i].1);
    }
}

/// The query string of every session is told of once, under its identifier,
/// and no other.
pub proof fn every_session_is_told(t: Tree, params: Map<u128, Seq<char>>)
    requires
        is_queries_json(t, params),
    ensures
        exists|list: Seq<(u128, Seq<char>)>|
            {
                &&& #[trigger] lists_entries(list, params)
                &&& under(t, "params"@) is Array
                &&& under(t, "params"@)->Array_0.len() == list.len()
                &&& forall|i: int|
                    0 <= i < list.len() ==> {
                        let item = #[trigger] under(t, "params"@)->Array_0[i];
                        &&& under(item, "id"@) == Tree::Text(id_text(list[i].0))
                        &&& under(item, "query"@) == Tree::Text(list[i].1)
                    }
            },
{
    let list = choose|list: Seq<(u128, Seq<char>)>|
        lists_entries(list, params) && t == #[trigger] queries_json(list);
    lemma_lookup(t->Object_0, "params"@, 0);
    reveal_strlit("id");
    reveal_strlit("query");
    assert("id"@.len() == 2);
    assert("query"@.len() == 5);
    assert forall|i: int| 0 <= i < list.len() implies {
        let item = #[trigger] under(t, "params"@)->Array_0[i];
        &&& under(item, "id"@) == Tree::Text(id_text(list[i].0))
        &&& under(item, "query"@) == Tree::Text(list[i].1)
    } by {
        let item = query_json(list[i]);
        lemma_lookup(item->Object_0, "id"@, 0);
        lemma_lookup(item->Object_0, "query"@, 1);
    }
}

/// The status tells of the configuration, the ad server, the sessions, the ads
/// and the slots, each under its name.
pub proof fn the_status_tells_of_all(
    config: ServerConfig,
    ad_server_url: Seq<char>,
    params: Tree,
    ads: Tree,
    slots: Tree,
)
    ensures
        ({
            let t = status_json(config, ad_server_url, params, ads, slots);
            &&& t->Object_0.len() == 5
            &&& under(t, "config"@) == config.json()
            &&& under(t, "ad_server_url"@) == Tree::Text(ad_server_url)
            &&& under(t, "user_defined_query_params"@) == params
            &&& under(t, "available_ads"@) == ads
            &&& under(t, "available_slots"@) == slots
        }),
{
    reveal_strlit("config");
    reveal_strlit("ad_server_url");
    reveal_strlit("user_defined_query_params");
    reveal_strlit("available_ads");
    reveal_strlit("available_slots");
    assert("config"@.len() == 6);
    assert("ad_server_url"@.len() == 13);
    assert("user_defined_query_params"@.len() == 25);
    assert("available_ads"@.len() == 13);
    assert("available_slots"@.len() == 15);
    assert("ad_server_url"@[1] != "available_ads"@[1]);
    let members = status_json(config, ad_server_url, params, ads, slots)->Object_0;
    lemma_lookup(members, "config"@, 0);
    lemma_lookup(members, "ad_server_url"@, 1);
    lemma_lookup(members, "user_defined_query_params"@, 2);
    lemma_lookup(members, "available_ads"@, 3);
    lemma_lookup(members, "available_slots"@, 4);
}

/// The reply to a command tells whether it was carried out, and its numbers or
/// what is wrong with it.
#[verifier::rlimit(40)]
pub proof fn a_command_is_answered(command: InsertionCommand, index: u64, message: Seq<char>)
    ensures
        ({
            let t = success_json(command, index);
            &&& under(t, "status"@) == Tree::Text("success"@)
            &&& under(under(t, "command"@), "index"@) == Tree::Number(index as nat)
            &&& under(under(t, "command"@), "in_sec"@) == Tree::Number(command.in_sec as nat)
            &&& under(under(t, "command"@), "duration"@) == Tree::Number(command.duration as nat)
            &&& under(under(t, "command"@), "pod_num"@) == Tree::Number(command.pod_num as nat)
            &&& under(error_json(message), "status"@) == Tree::Text("error"@)
            &&& under(error_json(message), "message"@) == Tree::Text(message)
        }),
{
    reveal_strlit("status");
    reveal_strlit("command");
    reveal_strlit("message");
    assert("status"@.len() == 6);
    assert("command"@.len() == 7);
    assert("message"@.len() == 7);
    assert("command"@[0] != "message"@[0]);
    reveal_strlit("index");
    reveal_strlit("in_sec");
    reveal_strlit("duration");
    reveal_strlit("pod_num");
    assert("index"@.len() == 5);
    assert("in_sec"@.len() == 6);
    assert("duration"@.len() == 8);
    assert("pod_num"@.len() == 7);
    let t = success_json(command, index);
    lemma_lookup(t->Object_0, "status"@, 0);
    lemma_lookup(t->Object_0, "command"@, 1);
    let members = under(t, "command"@)->Object_0;
    lemma_lookup(members, "index"@, 0);
    lemma_lookup(members, "in_sec"@, 1);
    lemma_lookup(members, "duration"@, 2);
    lemma_lookup(members, "pod_num"@, 3);
    lemma_lookup(error_json(message)->Object_0, "status"@, 0);
    lemma_lookup(error_json(message)->Object_0, "message"@, 1);
}

/// A host on the command line is proxied as it is, with any of its streams,
/// whether a master playlist is given too or not. Else the host of the given
/// master playlist is, with that one stream. There is no origin where what is
/// needed is missing or no URL.
pub proof fn which_origin_is_proxied(args: CliArguments)
    ensures
        ({
            let r = named_origin(args);
            &&& args.origin_host matches Some(host) ==> {
                &&& url_of(host@) is None ==> r is None
                &&& url_of(host@) matches Some(url) ==> r is Some && r->0.forward_url == url.text
                    && r->0.master is None
            }
            &&& args.origin_host is None && args.master_playlist_url is None ==> r is None
            &&& args.origin_host is None && args.master_playlist_url is Some ==> {
                let url = url_of(args.master_playlist_url->0@);
                &&& url is None ==> r is None
                &&& url is Some && joined_url(url->0.text, "/"@) is None ==> r is None
                &&& url is Some && joined_url(url->0.text, "/"@) is Some ==> r is Some
                    && r->0.forward_url == joined_url(url->0.text, "/"@)->0 && r->0.master == Some(
                    (url->0.text, url->0.path),
                )
            }
        }),
{
}

/// The ad server is asked at the URL that was given, in normal form. Where none
/// was, its place is held.
pub proof fn which_ad_server_is_asked(args: CliArguments)
    ensures
        ({
            let url = match args.ad_server_endpoint {
                Some(endpoint) => url_of(endpoint@),
                None => url_of("http://localhost/no-vast"@),
            };
            &&& url is None ==> ad_server_address(args) is None
            &&& url matches Some(parts) ==> ad_server_address(args) == Some(parts.text)
        }),
{
}

/// A request is forwarded to its path on the origin, with its own query.
pub proof fn where_a_request_is_forwarded(
    forward_url: Seq<char>,
    path: Seq<char>,
    query: Option<Seq<char>>,
    at: Seq<char>,
)
    requires
        url_of(forward_url) matches Some(parts) && parts.text.len() + path_bytes(path)
            < 0xffff_ffff,
        url_with_path(forward_url, path) == Some(at),
        url_of(at) matches Some(parts) && !parts.text.contains('#') && parts.text.len()
            <= 0xffff_ffff,
    ensures
        forwarded(forward_url, path, query) == url_with_query(at, query),
{
    let text = url_of(at)->0.text;
    lemma_until_bound(text, '#');
    if until(text, '#') < text.len() {
        assert(text.contains(text[until(text, '#') as int]));
    }
    lemma_until_bound(text.take(until(text, '#') as int), '?');
}

/// A request is forwarded nowhere where the origin is no URL.
pub proof fn a_bad_origin_is_not_asked(
    forward_url: Seq<char>,
    path: Seq<char>,
    query: Option<Seq<char>>,
)
    requires
        url_of(forward_url) is None,
    ensures
        forwarded(forward_url, path, query) is None,
{
}

/// The live edge is looked for at the master playlist of the one stream that is
/// served, and nowhere where any stream is.
pub proof fn where_the_master_playlist_is(config: ServerConfig)
    ensures
        config.master_playlist_path is None ==> master_url(config) is None,
        config.master_playlist_path matches Some(path) ==> path@.len() == 0 ==> master_url(
            config,
        ) is None,
        config.master_playlist_path matches Some(path) ==> path@.len() > 0 ==> master_url(config)
            == joined_url(config.forward_url@, path@),
{
}

/// The media playlist is that of the first stream of a master playlist, or the
/// one that is there already.
pub proof fn where_the_media_playlist_is(text: Seq<char>, url: Seq<char>, m: MasterView)
    ensures
        spec_read_master(text) == Some(m) && m.variants.len() > 0 && m.variants[0] is Stream
            ==> media_playlist_url(text, url) == joined_url(url, m.variants[0]->Stream_0),
        spec_read_master(text) is None && spec_read_media(text) is Some ==> media_playlist_url(
            text,
            url,
        ) == Some(url),
        spec_read_master(text) is None && spec_read_media(text) is None ==> media_playlist_url(
            text,
            url,
        ) is None,
        spec_read_master(text) == Some(m) && (m.variants.len() == 0 || m.variants[0] is IFrame)
            ==> media_playlist_url(text, url) == (if spec_read_media(text) is Some {
            Some(url)
        } else {
            None
        }),
{
}

/// A test asset is a playlist at a URL.
pub proof fn where_a_test_asset_is(path: Seq<char>)
    ensures
        test_asset_url(path) is Some <==> has_part(path, ".m3u8"@) && url_of(path) is Some,
        test_asset_url(path) matches Some(text) ==> text == url_of(path)->0.text,
{
}

proof fn lemma_first_stream(all: Seq<VariantView>, i: int)
    requires
        0 <= i <= all.len(),
        forall|k: int| 0 <= k < i ==> #[trigger] all[k] is IFrame,
        i < all.len() ==> all[i] is Stream,
    ensures
        first_stream(all) == (if i < all.len() {
            Some(all[i]->Stream_0)
        } else {
            None
        }),
    decreases all.len(),
{
    if i > 0 {
        assert(all[0] is IFrame);
        let rest = all.skip(1);
        assert forall|k: int| 0 <= k < i - 1 implies #[trigger] rest[k] is IFrame by {
            assert(rest[k] == all[k + 1]);
        }
        lemma_first_stream(rest, i - 1);
    }
}

/// The media of a test asset are at the first stream of its master playlist, or
/// in the text itself where that is no master playlist.
pub proof fn where_the_media_of_an_asset_are(
    text: Seq<char>,
    url: Seq<char>,
    m: MasterView,
    i: int,
)
    requires
        0 <= i <= m.variants.len(),
        forall|k: int| 0 <= k < i ==> #[trigger] m.variants[k] is IFrame,
        i < m.variants.len() ==> m.variants[i] is Stream,
    ensures
        spec_read_master(text) is None ==> asset_media(text, url) == AssetMediaView::Here,
        spec_read_master(text) == Some(m) && i == m.variants.len() ==> asset_media(text, url)
            == AssetMediaView::Missing,
        spec_read_master(text) == Some(m) && i < m.variants.len() ==> match joined_url(
            url,
            m.variants[i]->Stream_0,
        ) {
            Some(at) => asset_media(text, url) == AssetMediaView::At(at),
            None => asset_media(text, url) == AssetMediaView::Missing,
        },
{
    lemma_first_stream(m.variants, i);
}

proof fn lemma_total_seconds(m: MediaView, sums: Seq<int>, k: int)
    requires
        sums.len() == m.segments.len() + 1,
        sums[0] == 0,
        forall|k: int, n: int|
            0 <= k < m.segments.len() && n == k + 1 ==> #[trigger] sums[n] == #[trigger] sums[k]
                + m.segments[k].duration.secs,
        0 <= k <= m.segments.len(),
    ensures
        total_seconds(m.segments.take(k)) == sums[k],
    decreases k,
{
    if k > 0 {
        lemma_total_seconds(m, sums, k - 1);
        assert(m.segments.take(k).drop_last() == m.segments.take(k - 1));
        assert(sums[k] == sums[k - 1] + m.segments[k - 1].duration.secs);
    }
}

/// A test asset lasts as long as its segments together, each counted in whole
/// seconds. It must be declared to be on demand, and its first segment must
/// have a media initialization section.
pub proof fn how_long_an_asset_lasts(text: Seq<char>, m: MediaView, sums: Seq<int>)
    requires
        spec_read_media(text) == Some(m),
        sums.len() == m.segments.len() + 1,
        sums[0] == 0,
        forall|k: int, n: int|
            0 <= k < m.segments.len() && n == k + 1 ==> #[trigger] sums[n] == #[trigger] sums[k]
                + m.segments[k].duration.secs,
    ensures
        asset_duration(text) == (if m.kind == Some(PlaylistKind::Vod) && m.segments.len() > 0
            && m.segments[0].has_map && sums.last() <= u64::MAX {
            Some(sums.last())
        } else {
            None
        }),
{
    lemma_total_seconds(m, sums, m.segments.len() as int);
    assert(m.segments.take(m.segments.len() as int) == m.segments);
}

/// A text that is no media playlist has no length.
pub proof fn anything_else_has_no_length(text: Seq<char>)
    requires
        spec_read_media(text) is None,
    ensures
        asset_duration(text) is None,
{
}

/// Each brand is listed in its turn, with a comma behind it.
pub proof fn every_brand_is_listed(names: Seq<Seq<char>>, name: Seq<char>)
    ensures
        comma_list(names.push(name)) == comma_list(names) + name + ","@,
        comma_list(seq![]).len() == 0,
{
    assert(names.push(name).drop_last() == names);
}

/// A session whose identifier cannot be read is remembered as the nil one.
pub proof fn an_unreadable_session_is_the_nil_one(
    params: Map<u128, Seq<char>>,
    query: Seq<char>,
    session: Seq<char>,
)
    requires
        read_id(session) is None,
    ensures
        UserDefinedQueryParams::remembered(params, Some(query), Some(session)) == params.insert(
            0,
            query,
        ),
{
}

} // verus!
