//! What the proxy keeps between requests, besides ad slots: the ads that
//! players ask for again, and the query parameters of playback sessions.

use vstd::prelude::*;

use crate::hls::{option_text, LONGEST_SEGMENT};
use crate::ids::{id_or_nil, parse_id_or_nil};
use crate::time::Timestamp;

verus! {

/// The concurrent map of `dashmap`.
#[verifier::external_type_specification]
#[verifier::external_body]
#[verifier::reject_recursive_types(K)]
#[verifier::reject_recursive_types(V)]
#[verifier::reject_recursive_types(S)]
pub struct ExDashMap<K, V, S>(dashmap::DashMap<K, V, S>);

/// An ad that is kept: its duration in seconds, its URL, and when it was
/// requested.
#[derive(Debug)]
pub struct KeptAd {
    pub duration: u64,
    pub url: String,
    pub requested_at: Timestamp,
}

#[verifier::ext_equal]
pub struct KeptAdView {
    pub duration: u64,
    pub url: Seq<char>,
    pub requested_at: Timestamp,
}

impl View for KeptAd {
    type V = KeptAdView;

    open spec fn view(&self) -> KeptAdView {
        KeptAdView { duration: self.duration, url: self.url@, requested_at: self.requested_at }
    }
}

/// What a map of ads holds: durations, URLs and times in nanoseconds, by
/// identifier.
pub uninterp spec fn ads_in(map: dashmap::DashMap<u128, (u64, String, i128)>) -> Map<
    u128,
    (u64, Seq<char>, i128),
>;

/// `DashMap::new`.
#[verifier::external_body]
fn ads_new() -> (r: dashmap::DashMap<u128, (u64, String, i128)>)
    ensures
        forall|id: u128| !(#[trigger] ads_in(r).contains_key(id)),
{
    dashmap::DashMap::new()
}

/// `DashMap::insert`.
#[verifier::external_body]
fn ads_insert(
    map: &mut dashmap::DashMap<u128, (u64, String, i128)>,
    id: u128,
    ad: (u64, String, i128),
)
    ensures
        ads_in(*final(map)) == ads_in(*old(map)).insert(id, (ad.0, ad.1@, ad.2)),
{
    map.insert(id, ad);
}

/// `DashMap::get`.
#[verifier::external_body]
fn ads_get(map: &dashmap::DashMap<u128, (u64, String, i128)>, id: u128) -> (r: Option<
    (u64, String, i128),
>)
    ensures
        match r {
            Some(ad) => ads_in(*map).contains_key(id) && ads_in(*map)[id] == (ad.0, ad.1@, ad.2),
            None => !ads_in(*map).contains_key(id),
        },
{
    map.get(&id).map(|ad| ad.clone())
}

/// `DashMap::iter`: every entry once, in an order that is not known.
#[verifier::external_body]
fn ads_items(map: &dashmap::DashMap<u128, (u64, String, i128)>) -> (r: Vec<
    (u128, (u64, String, i128)),
>)
    ensures
        forall|i: int, k: int|
            0 <= i < k < r@.len() ==> (#[trigger] r@[i]).0 != (#[trigger] r@[k]).0,
        forall|i: int|
            0 <= i < r@.len() ==> ads_in(*map).contains_key((#[trigger] r@[i]).0) && ads_in(
                *map,
            )[r@[i].0] == (r@[i].1.0, r@[i].1.1@, r@[i].1.2),
        forall|id: u128| #[trigger]
            ads_in(*map).contains_key(id) ==> exists|i: int|
                0 <= i < r@.len() && (#[trigger] r@[i]).0 == id,
{
    map.iter().map(|entry| (*entry.key(), entry.value().clone())).collect()
}

/// The ads that players ask for again.
pub struct AvailableAds {
    linears: dashmap::DashMap<u128, (u64, String, i128)>,
}

pub open spec fn kept_ad(ad: (u64, Seq<char>, i128)) -> KeptAdView {
    KeptAdView { duration: ad.0, url: ad.1, requested_at: Timestamp { nanos: ad.2 } }
}

impl View for AvailableAds {
    type V = Map<u128, KeptAdView>;

    closed spec fn view(&self) -> Map<u128, KeptAdView> {
        ads_in(self.linears).map_values(|ad: (u64, Seq<char>, i128)| kept_ad(ad))
    }
}

/// Whether `list` holds every entry of a map once.
pub open spec fn lists_entries<V>(list: Seq<(u128, V)>, map: Map<u128, V>) -> bool {
    &&& forall|i: int, k: int|
        0 <= i < k < list.len() ==> (#[trigger] list[i]).0 != (#[trigger] list[k]).0
    &&& forall|i: int|
        0 <= i < list.len() ==> map.contains_key((#[trigger] list[i]).0) && map[list[i].0]
            == list[i].1
    &&& forall|id: u128| #[trigger]
        map.contains_key(id) ==> exists|i: int| 0 <= i < list.len() && (#[trigger] list[i]).0 == id
}

pub open spec fn kept_views(v: Seq<(u128, KeptAd)>) -> Seq<(u128, KeptAdView)> {
    v.map_values(|e: (u128, KeptAd)| (e.0, e.1@))
}

impl AvailableAds {
    /// Every ad can be played as one segment.
    pub open spec fn wf(&self) -> bool {
        forall|id: u128| #[trigger]
            self@.contains_key(id) ==> self@[id].duration <= LONGEST_SEGMENT
    }

    pub fn new() -> (r: AvailableAds)
        ensures
            r.wf(),
            r@ == Map::<u128, KeptAdView>::empty(),
    {
        let r = AvailableAds { linears: ads_new() };
        assert(r@ =~= Map::empty());
        r
    }

    pub fn insert(&mut self, id: u128, ad: KeptAd)
        requires
            old(self).wf(),
            ad.duration <= LONGEST_SEGMENT,
        ensures
            final(self).wf(),
            final(self)@ == old(self)@.insert(id, ad@),
    {
        let ghost view = ad@;
        ads_insert(&mut self.linears, id, (ad.duration, ad.url, ad.requested_at.nanos));
        assert(self@ =~= old(self)@.insert(id, view));
    }

    pub fn get(&self, id: u128) -> (r: Option<KeptAd>)
        ensures
            match r {
                Some(ad) => self@.contains_key(id) && self@[id] == ad@,
                None => !self@.contains_key(id),
            },
    {
        match ads_get(&self.linears, id) {
            Some((duration, url, nanos)) => Some(
                KeptAd { duration, url, requested_at: Timestamp { nanos } },
            ),
            None => None,
        }
    }

    /// Every ad once, in no particular order.
    pub fn items(&self) -> (r: Vec<(u128, KeptAd)>)
        ensures
            lists_entries(kept_views(r@), self@),
    {
        let entries = ads_items(&self.linears);
        let mut r: Vec<(u128, KeptAd)> = Vec::new();
        for i in 0..entries.len()
            invariant
                r@.len() == i,
                forall|k: int|
                    0 <= k < i ==> (#[trigger] r@[k]).0 == entries@[k].0 && r@[k].1@ == kept_ad(
                        (entries@[k].1.0, entries@[k].1.1@, entries@[k].1.2),
                    ),
        {
            let (id, ad) = &entries[i];
            r.push(
                (
                    *id,
                    KeptAd {
                        duration: ad.0,
                        url: ad.1.clone(),
                        requested_at: Timestamp { nanos: ad.2 },
                    },
                ),
            );
        }
        proof {
            let list = kept_views(r@);
            assert forall|id: u128| #[trigger] self@.contains_key(id) implies exists|i: int|
                0 <= i < list.len() && (#[trigger] list[i]).0 == id by {
                assert(ads_in(self.linears).contains_key(id));
                let i = choose|i: int| 0 <= i < entries@.len() && (#[trigger] entries@[i]).0 == id;
                assert(list[i].0 == id);
            }
            assert forall|i: int, k: int| 0 <= i < k < list.len() implies (#[trigger] list[i]).0
                != (#[trigger] list[k]).0 by {
                assert(entries@[i].0 != entries@[k].0);
            }
            assert forall|i: int| 0 <= i < list.len() implies self@.contains_key(
                (#[trigger] list[i]).0,
            ) && self@[list[i].0] == list[i].1 by {
                assert(ads_in(self.linears).contains_key(entries@[i].0));
            }
        }
        r
    }
}

/// What a map of query strings holds, by identifier.
pub uninterp spec fn queries_in(map: dashmap::DashMap<u128, String>) -> Map<u128, Seq<char>>;

/// `DashMap::new`.
#[verifier::external_body]
fn queries_new() -> (r: dashmap::DashMap<u128, String>)
    ensures
        forall|id: u128| !(#[trigger] queries_in(r).contains_key(id)),
{
    dashmap::DashMap::new()
}

/// `DashMap::insert`.
#[verifier::external_body]
fn queries_insert(map: &mut dashmap::DashMap<u128, String>, id: u128, query: String)
    ensures
        queries_in(*final(map)) == queries_in(*old(map)).insert(id, query@),
{
    map.insert(id, query);
}

/// `DashMap::get`.
#[verifier::external_body]
fn queries_get(map: &dashmap::DashMap<u128, String>, id: u128) -> (r: Option<String>)
    ensures
        match r {
            Some(query) => queries_in(*map).contains_key(id) && queries_in(*map)[id] == query@,
            None => !queries_in(*map).contains_key(id),
        },
{
    map.get(&id).map(|query| query.clone())
}

/// `DashMap::iter`: every entry once, in an order that is not known.
#[verifier::external_body]
fn queries_items(map: &dashmap::DashMap<u128, String>) -> (r: Vec<(u128, String)>)
    ensures
        forall|i: int, k: int|
            0 <= i < k < r@.len() ==> (#[trigger] r@[i]).0 != (#[trigger] r@[k]).0,
        forall|i: int|
            0 <= i < r@.len() ==> queries_in(*map).contains_key((#[trigger] r@[i]).0)
                && queries_in(*map)[r@[i].0] == r@[i].1@,
        forall|id: u128| #[trigger]
            queries_in(*map).contains_key(id) ==> exists|i: int|
                0 <= i < r@.len() && (#[trigger] r@[i]).0 == id,
{
    map.iter().map(|entry| (*entry.key(), entry.value().clone())).collect()
}

/// The query strings with which sessions asked for a master playlist.
pub struct UserDefinedQueryParams {
    params: dashmap::DashMap<u128, String>,
}

impl View for UserDefinedQueryParams {
    type V = Map<u128, Seq<char>>;

    closed spec fn view(&self) -> Map<u128, Seq<char>> {
        queries_in(self.params)
    }
}

pub open spec fn query_views(v: Seq<(u128, String)>) -> Seq<(u128, Seq<char>)> {
    v.map_values(|e: (u128, String)| (e.0, e.1@))
}

impl UserDefinedQueryParams {
    pub fn new() -> (r: UserDefinedQueryParams)
        ensures
            r@ == Map::<u128, Seq<char>>::empty(),
    {
        let r = UserDefinedQueryParams { params: queries_new() };
        assert(r@ =~= Map::empty());
        r
    }

    pub fn insert(&mut self, id: u128, query: String)
        ensures
            final(self)@ == old(self)@.insert(id, query@),
    {
        queries_insert(&mut self.params, id, query);
    }

    pub fn get(&self, id: u128) -> (r: Option<String>)
        ensures
            match r {
                Some(query) => self@.contains_key(id) && self@[id] == query@,
                None => !self@.contains_key(id),
            },
    {
        queries_get(&self.params, id)
    }

    /// Every query string once, in no particular order.
    pub fn items(&self) -> (r: Vec<(u128, String)>)
        ensures
            lists_entries(query_views(r@), self@),
    {
        let r = queries_items(&self.params);
        proof {
            let list = query_views(r@);
            assert forall|i: int, k: int| 0 <= i < k < list.len() implies (#[trigger] list[i]).0
                != (#[trigger] list[k]).0 by {
                assert(r@[i].0 != r@[k].0);
            }
            assert forall|i: int| 0 <= i < list.len() implies self@.contains_key(
                (#[trigger] list[i]).0,
            ) && self@[list[i].0] == list[i].1 by {
                assert(queries_in(self.params).contains_key(r@[i].0));
            }
            assert forall|id: u128| #[trigger] self@.contains_key(id) implies exists|i: int|
                0 <= i < list.len() && (#[trigger] list[i]).0 == id by {
                let i = choose|i: int| 0 <= i < r@.len() && (#[trigger] r@[i]).0 == id;
                assert(list[i].0 == id);
            }
        }
        r
    }

    /// What is remembered when a master playlist is asked for: the query
    /// string, where there is one, for the session, where the player names
    /// one. A session whose name is no identifier counts as the one that is
    /// all zeros.
    pub open spec fn remembered(
        params: Map<u128, Seq<char>>,
        query: Option<Seq<char>>,
        session: Option<Seq<char>>,
    ) -> Map<u128, Seq<char>> {
        match (query, session) {
            (Some(query), Some(session)) => params.insert(id_or_nil(session), query),
            _ => params,
        }
    }

    pub fn remember(&mut self, query: &Option<String>, session: &Option<String>)
        ensures
            final(self)@ == UserDefinedQueryParams::remembered(
                old(self)@,
                option_text(*query),
                option_text(*session),
            ),
    {
        if let Some(query) = query {
            if let Some(session) = session {
                self.insert(parse_id_or_nil(session.as_str()), query.clone());
            }
        }
    }
}

} // verus!
