//! The status of the proxy: everything that it keeps, as JSON.

use vstd::prelude::*;

use crate::config::ServerConfig;
use crate::ids::{id_text, print_id};
use crate::json_value::{array, insert, null, number, object, pretty, pretty_text, shallow, string,
    tree, trees, Tree};
use crate::slots::{lists, AdSlot, AvailableAdSlots};
use crate::stores::{kept_views, lists_entries, query_views, AvailableAds, KeptAd, KeptAdView,
    UserDefinedQueryParams};
use crate::time::{is_zone, Timestamp};

verus! {

/// A date and time, where there is one.
pub open spec fn time_json(text: Option<Seq<char>>) -> Tree {
    match text {
        Some(text) => Tree::Text(text),
        None => Tree::Null,
    }
}

fn to_time_json(time: Timestamp, zone: i32) -> (r: json::JsonValue)
    requires
        is_zone(zone),
    ensures
        tree(r) == time_json(time.full_text(zone)),
{
    match time.to_full_text(zone) {
        Some(text) => string(text.as_str()),
        None => null(),
    }
}

/// A list with its length.
pub open spec fn counted(key: Seq<char>, items: Seq<Tree>) -> Tree {
    Tree::Object(seq![("count"@, Tree::Number(items.len())), (key, Tree::Array(items))])
}

pub open spec fn slot_json(slot: AdSlot) -> Tree {
    Tree::Object(
        seq![
            ("id"@, Tree::Text(id_text(slot.id))),
            ("index"@, Tree::Number(slot.index as nat)),
            ("start_time"@, time_json(slot.start_time.full_text(slot.zone))),
            ("duration"@, Tree::Number(slot.duration as nat)),
            ("pod_num"@, Tree::Number(slot.pod_num as nat)),
        ],
    )
}

fn to_slot_json(slot: &AdSlot) -> (r: json::JsonValue)
    requires
        slot.wf(),
    ensures
        tree(r) == slot_json(*slot),
        shallow(tree(r), 1),
{
    proof {
        reveal_strlit("id");
        reveal_strlit("index");
        reveal_strlit("start_time");
        reveal_strlit("duration");
        reveal_strlit("pod_num");
        assert("id"@.len() == 2);
        assert("index"@.len() == 5);
        assert("start_time"@.len() == 10);
        assert("duration"@.len() == 8);
        assert("pod_num"@.len() == 7);
    }
    let mut r = object();
    insert(&mut r, "id", string(print_id(slot.id).as_str()));
    insert(&mut r, "index", number(slot.index));
    insert(&mut r, "start_time", to_time_json(slot.start_time, slot.zone));
    insert(&mut r, "duration", number(slot.duration));
    insert(&mut r, "pod_num", number(slot.pod_num));
    proof {
        assert(tree(r)->Object_0 =~= slot_json(*slot)->Object_0);
        reveal_with_fuel(shallow, 2);
    }
    r
}

/// The slots of a list as JSON.
pub open spec fn slots_json(list: Seq<AdSlot>) -> Tree {
    counted("slots"@, list.map_values(|slot: AdSlot| slot_json(slot)))
}

/// Whether `t` is the available slots as JSON, in some order.
pub open spec fn is_slots_json(t: Tree, slots: Set<AdSlot>) -> bool {
    exists|list: Seq<AdSlot>| lists(list, slots) && t == #[trigger] slots_json(list)
}

proof fn lemma_list_is_shallow(key: Seq<char>, items: Seq<Tree>)
    requires
        forall|i: int| 0 <= i < items.len() ==> shallow(#[trigger] items[i], 1),
    ensures
        shallow(Tree::Array(items), 2),
        shallow(counted(key, items), 3),
{
    assert(shallow(Tree::Array(items), 2));
    let members = counted(key, items)->Object_0;
    assert forall|i: int| 0 <= i < members.len() implies shallow((#[trigger] members[i]).1, 2) by {
        reveal_with_fuel(shallow, 1);
    }
}

impl AvailableAdSlots {
    pub fn to_json(&self) -> (r: json::JsonValue)
        requires
            self.wf(),
        ensures
            is_slots_json(tree(r), self@),
            shallow(tree(r), 3),
    {
        let slots = self.items();
        let mut items: Vec<json::JsonValue> = Vec::new();
        for i in 0..slots.len()
            invariant
                items@.len() == i,
                forall|k: int| 0 <= k < slots@.len() ==> (#[trigger] slots@[k]).wf(),
                forall|k: int|
                    0 <= k < i ==> tree(#[trigger] items@[k]) == slot_json(slots@[k]) && shallow(
                        tree(items@[k]),
                        1,
                    ),
        {
            assert(slots@[i as int].wf());
            items.push(to_slot_json(&slots[i]));
        }
        let ghost views = trees(items@);
        proof {
            reveal_strlit("count");
            reveal_strlit("slots");
            assert("count"@.len() == 5);
            assert("slots"@.len() == 5);
            assert("count"@[0] != "slots"@[0]);
            assert forall|i: int| 0 <= i < views.len() implies shallow(#[trigger] views[i], 1) by {
                assert(views[i] == tree(items@[i]));
            }
            lemma_list_is_shallow("slots"@, views);
            assert(views =~= slots@.map_values(|slot: AdSlot| slot_json(slot)));
        }
        let mut r = object();
        insert(&mut r, "count", number(items.len() as u64));
        insert(&mut r, "slots", array(items));
        proof {
            assert(tree(r)->Object_0 =~= counted("slots"@, views)->Object_0);
            assert(tree(r) == slots_json(slots@));
        }
        r
    }
}

pub open spec fn ad_json(id: u128, ad: KeptAdView, requested_at: Option<Seq<char>>) -> Tree {
    Tree::Object(
        seq![
            ("id"@, Tree::Text(id_text(id))),
            ("duration"@, Tree::Number(ad.duration as nat)),
            ("url"@, Tree::Text(ad.url)),
            ("requested_at"@, time_json(requested_at)),
        ],
    )
}

/// Whether `t` is a kept ad as JSON, in some time zone.
pub open spec fn is_ad_json(t: Tree, id: u128, ad: KeptAdView) -> bool {
    exists|zone: i32|
        is_zone(zone) && t == #[trigger] ad_json(id, ad, ad.requested_at.full_text(zone))
}

fn to_ad_json(id: u128, ad: &KeptAd) -> (r: json::JsonValue)
    ensures
        is_ad_json(tree(r), id, ad@),
        shallow(tree(r), 1),
{
    proof {
        reveal_strlit("id");
        reveal_strlit("duration");
        reveal_strlit("url");
        reveal_strlit("requested_at");
        assert("id"@.len() == 2);
        assert("duration"@.len() == 8);
        assert("url"@.len() == 3);
        assert("requested_at"@.len() == 12);
    }
    let zone = ad.requested_at.local_zone();
    let requested_at = to_time_json(ad.requested_at, zone);
    let ghost text = ad.requested_at.full_text(zone);
    let mut r = object();
    insert(&mut r, "id", string(print_id(id).as_str()));
    insert(&mut r, "duration", number(ad.duration));
    insert(&mut r, "url", string(ad.url.as_str()));
    insert(&mut r, "requested_at", requested_at);
    proof {
        assert(tree(r)->Object_0 =~= ad_json(id, ad@, text)->Object_0);
        reveal_with_fuel(shallow, 2);
    }
    r
}

/// Whether `t` is the kept ads as JSON, in some order.
pub open spec fn is_ads_json(t: Tree, ads: Map<u128, KeptAdView>) -> bool {
    exists|list: Seq<(u128, KeptAdView)>, items: Seq<Tree>|
        #![trigger lists_entries(list, ads), counted("linears"@, items)]
        {
            &&& lists_entries(list, ads)
            &&& items.len() == list.len()
            &&& forall|i: int|
                0 <= i < list.len() ==> is_ad_json(#[trigger] items[i], list[i].0, list[i].1)
            &&& t == counted("linears"@, items)
        }
}

impl AvailableAds {
    pub fn to_json(&self) -> (r: json::JsonValue)
        ensures
            is_ads_json(tree(r), self@),
            shallow(tree(r), 3),
    {
        let ads = self.items();
        let ghost list = kept_views(ads@);
        let mut items: Vec<json::JsonValue> = Vec::new();
        for i in 0..ads.len()
            invariant
                list == kept_views(ads@),
                items@.len() == i,
                forall|k: int|
                    0 <= k < i ==> is_ad_json(tree(#[trigger] items@[k]), list[k].0, list[k].1)
                        && shallow(tree(items@[k]), 1),
        {
            let (id, ad) = &ads[i];
            assert(list[i as int] == (*id, ad@));
            items.push(to_ad_json(*id, ad));
        }
        let ghost views = trees(items@);
        proof {
            reveal_strlit("count");
            reveal_strlit("linears");
            assert("count"@.len() == 5);
            assert("linears"@.len() == 7);
            assert forall|i: int| 0 <= i < views.len() implies shallow(#[trigger] views[i], 1) by {
                assert(views[i] == tree(items@[i]));
            }
            lemma_list_is_shallow("linears"@, views);
            assert forall|i: int| 0 <= i < list.len() implies is_ad_json(
                #[trigger] views[i],
                list[i].0,
                list[i].1,
            ) by {
                assert(views[i] == tree(items@[i]));
            }
        }
        let mut r = object();
        insert(&mut r, "count", number(items.len() as u64));
        insert(&mut r, "linears", array(items));
        proof {
            assert(tree(r)->Object_0 =~= counted("linears"@, views)->Object_0);
            assert(tree(r) == counted("linears"@, views));
        }
        r
    }
}

pub open spec fn query_json(entry: (u128, Seq<char>)) -> Tree {
    Tree::Object(
        seq![("id"@, Tree::Text(id_text(entry.0))), ("query"@, Tree::Text(entry.1))],
    )
}

fn to_query_json(id: u128, query: &str) -> (r: json::JsonValue)
    ensures
        tree(r) == query_json((id, query@)),
{
    proof {
        reveal_strlit("id");
        reveal_strlit("query");
        assert("id"@.len() == 2);
        assert("query"@.len() == 5);
    }
    let mut r = object();
    insert(&mut r, "id", string(print_id(id).as_str()));
    insert(&mut r, "query", string(query));
    assert(tree(r)->Object_0 =~= query_json((id, query@))->Object_0);
    r
}

pub open spec fn queries_json(list: Seq<(u128, Seq<char>)>) -> Tree {
    Tree::Object(
        seq![("params"@, Tree::Array(list.map_values(|e: (u128, Seq<char>)| query_json(e))))],
    )
}

/// Whether `t` is the query strings of the sessions as JSON, in some order.
pub open spec fn is_queries_json(t: Tree, params: Map<u128, Seq<char>>) -> bool {
    exists|list: Seq<(u128, Seq<char>)>|
        lists_entries(list, params) && t == #[trigger] queries_json(list)
}

impl UserDefinedQueryParams {
    pub fn to_json(&self) -> (r: json::JsonValue)
        ensures
            is_queries_json(tree(r), self@),
            shallow(tree(r), 3),
    {
        let entries = self.items();
        let ghost list = query_views(entries@);
        let mut items: Vec<json::JsonValue> = Vec::new();
        for i in 0..entries.len()
            invariant
                list == query_views(entries@),
                items@.len() == i,
                forall|k: int| 0 <= k < i ==> tree(#[trigger] items@[k]) == query_json(list[k]),
        {
            let (id, query) = &entries[i];
            assert(list[i as int] == (*id, query@));
            items.push(to_query_json(*id, query.as_str()));
        }
        let ghost views = trees(items@);
        proof {
            assert(views =~= list.map_values(|e: (u128, Seq<char>)| query_json(e)));
            assert forall|i: int| 0 <= i < views.len() implies shallow(#[trigger] views[i], 1) by {
                assert(views[i] == query_json(list[i]));
                reveal_with_fuel(shallow, 2);
            }
            lemma_list_is_shallow("params"@, views);
        }
        let mut r = object();
        insert(&mut r, "params", array(items));
        proof {
            assert(tree(r)->Object_0 =~= queries_json(list)->Object_0);
            assert(lists_entries(list, self@));
        }
        r
    }
}

pub open spec fn status_json(
    config: ServerConfig,
    ad_server_url: Seq<char>,
    params: Tree,
    ads: Tree,
    slots: Tree,
) -> Tree {
    Tree::Object(
        seq![
            ("config"@, config.json()),
            ("ad_server_url"@, Tree::Text(ad_server_url)),
            ("user_defined_query_params"@, params),
            ("available_ads"@, ads),
            ("available_slots"@, slots),
        ],
    )
}

proof fn lemma_config_is_shallow(config: ServerConfig)
    ensures
        shallow(config.json(), 3),
{
    reveal_with_fuel(shallow, 3);
    let members = config.json()->Object_0;
    assert forall|i: int| 0 <= i < members.len() implies shallow((#[trigger] members[i]).1, 2) by {
        if i == 7 {
            let inner = members[7].1->Object_0;
            assert forall|k: int| 0 <= k < inner.len() implies shallow(
                (#[trigger] inner[k]).1,
                1,
            ) by {}
        }
    }
}

/// The status of the proxy. The order of the entries is given from outside, as
/// is the time zone.
pub fn handle_status(
    config: &ServerConfig,
    ad_server_url: &str,
    available_ads: &AvailableAds,
    available_slots: &AvailableAdSlots,
    params: &UserDefinedQueryParams,
) -> (r: String)
    requires
        available_slots.wf(),
    ensures
        exists|query_tree: Tree, ad_tree: Tree, slot_tree: Tree|
            {
                &&& is_queries_json(query_tree, params@)
                &&& is_ads_json(ad_tree, available_ads@)
                &&& is_slots_json(slot_tree, available_slots@)
                &&& r@ == pretty_text(
                    #[trigger] status_json(
                        *config,
                        ad_server_url@,
                        query_tree,
                        ad_tree,
                        slot_tree,
                    ),
                    2,
                )
            },
{
    proof {
        reveal_strlit("config");
        reveal_strlit("ad_server_url");
        reveal_strlit("user_defined_query_params");
        reveal_strlit("available_ads");
        reveal_strlit("available_slots");
        assert("config"@.len() == 6);
        assert("ad_server_url"@.len() == 13);
        assert("user_defined_query_params"@.len() == 25);
        assert("available_ads"@.len() == 13);
        assert("available_slots"@.len() == 15);
        assert("ad_server_url"@[1] != "available_ads"@[1]);
        lemma_config_is_shallow(*config);
    }
    let queries = params.to_json();
    let ads = available_ads.to_json();
    let slots = available_slots.to_json();
    let ghost expected = status_json(
        *config,
        ad_server_url@,
        tree(queries),
        tree(ads),
        tree(slots),
    );
    let mut status = object();
    insert(&mut status, "config", config.to_json());
    insert(&mut status, "ad_server_url", string(ad_server_url));
    insert(&mut status, "user_defined_query_params", queries);
    insert(&mut status, "available_ads", ads);
    insert(&mut status, "available_slots", slots);
    proof {
        assert(tree(status)->Object_0 =~= expected->Object_0);
        lemma_deeper(config.json());
        lemma_deeper(tree(queries));
        lemma_deeper(tree(ads));
        lemma_deeper(tree(slots));
        let members = expected->Object_0;
        assert forall|i: int| 0 <= i < members.len() implies shallow(
            (#[trigger] members[i]).1,
            7,
        ) by {
            reveal_with_fuel(shallow, 1);
        }
    }
    pretty(&status, 2)
}

proof fn lemma_level(t: Tree, n: nat)
    requires
        shallow(t, n),
    ensures
        shallow(t, n + 1),
    decreases n,
{
    match t {
        Tree::Array(items) => {
            assert forall|i: int| 0 <= i < items.len() implies shallow(#[trigger] items[i], n) by {
                lemma_level(items[i], (n - 1) as nat);
            }
        },
        Tree::Object(members) => {
            assert forall|i: int| 0 <= i < members.len() implies shallow(
                (#[trigger] members[i]).1,
                n,
            ) by {
                lemma_level(members[i].1, (n - 1) as nat);
            }
        },
        _ => {},
    }
}

proof fn lemma_deeper(t: Tree)
    requires
        shallow(t, 3),
    ensures
        shallow(t, 7),
{
    lemma_level(t, 3);
    lemma_level(t, 4);
    lemma_level(t, 5);
    lemma_level(t, 6);
}

} // verus!
