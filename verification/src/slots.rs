//! Ad slots: the breaks of a stream that ads are put into.

use vstd::prelude::*;

use crate::ids::{free_id, new_id};
use crate::text::{join_texts, decimal, decimal_is_injective, decimal_string};
use crate::time::{is_zone, Timestamp, FAR, SECOND};

verus! {

/// An ad break.
#[derive(Clone, Copy, Debug, PartialEq, Eq, Hash, Structural)]
pub struct AdSlot {
    pub id: u128,
    pub index: u64,
    pub start_time: Timestamp,
    /// The time zone in which the start is told, in seconds east of UTC.
    pub zone: i32,
    /// How long the break lasts, in seconds.
    pub duration: u64,
    pub pod_num: u64,
}

impl AdSlot {
    /// The break starts at a point in time that can be reckoned with, in a
    /// time zone that there can be.
    pub open spec fn wf(self) -> bool {
        -4 * FAR <= self.start_time.nanos <= 4 * FAR && is_zone(self.zone)
    }

    pub open spec fn spec_name(self) -> Seq<char> {
        "ad_slot"@ + decimal(self.index as nat)
    }

    pub fn name(&self) -> (r: String)
        ensures
            r@ == self.spec_name(),
    {
        join_texts("ad_slot", decimal_string(self.index).as_str())
    }

    /// The date and time at which the break starts, as a text; `None` beyond
    /// the years that a date can have.
    pub open spec fn start_date(self) -> Option<Seq<char>> {
        self.start_time.millis_text(self.zone)
    }

    pub open spec fn end(self) -> int {
        self.start_time.nanos + self.duration * SECOND
    }

    /// The end of the break: the slot stays live for its whole duration, so
    /// that every viewer who asks within the break gets the ad, not only the
    /// first one.
    pub fn expires_at(&self) -> (r: Timestamp)
        requires
            self.wf(),
        ensures
            r.nanos == self.end(),
    {
        Timestamp { nanos: self.start_time.nanos + self.duration as i128 * SECOND }
    }
}

/// Two slots with the same name have the same index.
pub proof fn slot_names_are_distinct(a: AdSlot, b: AdSlot)
    requires
        a.spec_name() == b.spec_name(),
    ensures
        a.index == b.index,
{
    assert(a.spec_name().skip("ad_slot"@.len() as int) =~= decimal(a.index as nat));
    assert(b.spec_name().skip("ad_slot"@.len() as int) =~= decimal(b.index as nat));
    decimal_is_injective(a.index as nat, b.index as nat);
}

/// The concurrent set of `dashmap`.
#[verifier::external_type_specification]
#[verifier::external_body]
#[verifier::reject_recursive_types(K)]
#[verifier::reject_recursive_types(S)]
pub struct ExDashSet<K, S>(dashmap::DashSet<K, S>);

/// The fields of a slot, as they stand in a set.
pub open spec fn key_of(slot: AdSlot) -> (u128, u64, i128, i32, u64, u64) {
    (slot.id, slot.index, slot.start_time.nanos, slot.zone, slot.duration, slot.pod_num)
}

pub open spec fn slot_of(key: (u128, u64, i128, i32, u64, u64)) -> AdSlot {
    AdSlot {
        id: key.0,
        index: key.1,
        start_time: Timestamp { nanos: key.2 },
        zone: key.3,
        duration: key.4,
        pod_num: key.5,
    }
}

fn to_key(slot: &AdSlot) -> (r: (u128, u64, i128, i32, u64, u64))
    ensures
        r == key_of(*slot),
{
    (slot.id, slot.index, slot.start_time.nanos, slot.zone, slot.duration, slot.pod_num)
}

fn from_key(key: &(u128, u64, i128, i32, u64, u64)) -> (r: AdSlot)
    ensures
        r == slot_of(*key),
        key_of(r) == *key,
{
    AdSlot {
        id: key.0,
        index: key.1,
        start_time: Timestamp { nanos: key.2 },
        zone: key.3,
        duration: key.4,
        pod_num: key.5,
    }
}

/// Whether a slot, given by its fields, has not ended before `window_start`.
fn is_live(key: &(u128, u64, i128, i32, u64, u64), window_start: Timestamp) -> (r: bool)
    requires
        slot_of(*key).wf(),
    ensures
        r == (slot_of(*key).end() >= window_start.nanos),
{
    from_key(key).expires_at().nanos >= window_start.nanos
}

/// What a set of slots holds.
pub uninterp spec fn keys_in(set: dashmap::DashSet<(u128, u64, i128, i32, u64, u64)>) -> Set<
    (u128, u64, i128, i32, u64, u64),
>;

/// `DashSet::new`.
#[verifier::external_body]
fn set_new() -> (r: dashmap::DashSet<(u128, u64, i128, i32, u64, u64)>)
    ensures
        keys_in(r) == Set::<(u128, u64, i128, i32, u64, u64)>::empty(),
{
    dashmap::DashSet::new()
}

/// `DashSet::insert`.
#[verifier::external_body]
fn set_insert(
    set: &mut dashmap::DashSet<(u128, u64, i128, i32, u64, u64)>,
    key: (u128, u64, i128, i32, u64, u64),
)
    ensures
        keys_in(*final(set)) == keys_in(*old(set)).insert(key),
{
    set.insert(key);
}

/// `DashSet::contains`.
#[verifier::external_body]
fn set_contains(
    set: &dashmap::DashSet<(u128, u64, i128, i32, u64, u64)>,
    key: &(u128, u64, i128, i32, u64, u64),
) -> (r: bool)
    ensures
        r == keys_in(*set).contains(*key),
{
    set.contains(key)
}

/// `DashSet::iter`: every item once, in an order that is not known.
#[verifier::external_body]
fn set_items(set: &dashmap::DashSet<(u128, u64, i128, i32, u64, u64)>) -> (r: Vec<
    (u128, u64, i128, i32, u64, u64),
>)
    ensures
        r@.no_duplicates(),
        r@.to_set() == keys_in(*set),
{
    set.iter().map(|item| *item).collect()
}

/// `DashSet::retain` of the slots that have not ended before `window_start`.
#[verifier::external_body]
fn set_retain(set: &mut dashmap::DashSet<(u128, u64, i128, i32, u64, u64)>, window_start: Timestamp)
    requires
        forall|key: (u128, u64, i128, i32, u64, u64)| #[trigger]
            keys_in(*old(set)).contains(key) ==> slot_of(key).wf(),
    ensures
        keys_in(*final(set)) == keys_in(*old(set)).filter(
            |key: (u128, u64, i128, i32, u64, u64)| slot_of(key).end() >= window_start.nanos,
        ),
{
    set.retain(|key| is_live(key, window_start));
}

/// The slots that ads can be put into.
pub struct AvailableAdSlots {
    set: dashmap::DashSet<(u128, u64, i128, i32, u64, u64)>,
}

impl View for AvailableAdSlots {
    type V = Set<AdSlot>;

    closed spec fn view(&self) -> Set<AdSlot> {
        Set::new(|slot: AdSlot| keys_in(self.set).contains(key_of(slot)))
    }
}

/// Whether `list` holds every slot of a set once.
pub open spec fn lists(list: Seq<AdSlot>, slots: Set<AdSlot>) -> bool {
    list.no_duplicates() && forall|slot: AdSlot| list.contains(slot) <==> slots.contains(slot)
}

impl AvailableAdSlots {
    pub open spec fn wf(&self) -> bool {
        forall|slot: AdSlot| #[trigger] self@.contains(slot) ==> slot.wf()
    }

    pub fn new() -> (r: AvailableAdSlots)
        ensures
            r.wf(),
            r@ == Set::<AdSlot>::empty(),
    {
        let r = AvailableAdSlots { set: set_new() };
        assert(r@ =~= Set::empty());
        r
    }

    pub fn insert(&mut self, slot: AdSlot)
        requires
            old(self).wf(),
            slot.wf(),
        ensures
            final(self).wf(),
            final(self)@ == old(self)@.insert(slot),
    {
        set_insert(&mut self.set, to_key(&slot));
        proof {
            assert forall|s: AdSlot| key_of(s) == key_of(slot) implies s == slot by {
                assert(slot_of(key_of(s)) == s);
                assert(slot_of(key_of(slot)) == slot);
            }
            assert(self@ =~= old(self)@.insert(slot));
        }
    }

    pub fn contains(&self, slot: &AdSlot) -> (r: bool)
        ensures
            r == self@.contains(*slot),
    {
        set_contains(&self.set, &to_key(slot))
    }

    /// Every slot once, in no particular order.
    pub fn items(&self) -> (r: Vec<AdSlot>)
        requires
            self.wf(),
        ensures
            lists(r@, self@),
            forall|i: int| 0 <= i < r@.len() ==> (#[trigger] r@[i]).wf(),
    {
        let keys = set_items(&self.set);
        let mut r: Vec<AdSlot> = Vec::new();
        for i in 0..keys.len()
            invariant
                r@.len() == i,
                forall|k: int| 0 <= k < i ==> key_of(#[trigger] r@[k]) == keys@[k],
        {
            r.push(from_key(&keys[i]));
        }
        proof {
            assert(r@.no_duplicates());
            assert forall|slot: AdSlot| r@.contains(slot) <==> self@.contains(slot) by {
                let key = key_of(slot);
                if r@.contains(slot) {
                    let k = choose|k: int| 0 <= k < r@.len() && r@[k] == slot;
                    assert(keys@[k] == key);
                    assert(keys@.to_set().contains(key));
                }
                if self@.contains(slot) {
                    assert(keys@.to_set().contains(key));
                    let k = choose|k: int| 0 <= k < keys@.len() && keys@[k] == key;
                    assert(key_of(r@[k]) == key);
                    assert(slot_of(key_of(r@[k])) == r@[k]);
                    assert(slot_of(key) == slot);
                }
            }
            assert forall|i: int| 0 <= i < r@.len() implies (#[trigger] r@[i]).wf() by {
                assert(r@.contains(r@[i]));
                assert(self@.contains(r@[i]));
            }
        }
        r
    }

    /// The identifiers that slots have.
    pub(crate) fn taken_ids(&self) -> (r: std::collections::HashSet<u128>)
        requires
            self.wf(),
        ensures
            r@.finite(),
            forall|slot: AdSlot| #[trigger] self@.contains(slot) ==> r@.contains(slot.id),
            forall|id: u128| #[trigger]
                r@.contains(id) ==> exists|slot: AdSlot| #[trigger]
                    self@.contains(slot) && slot.id == id,
    {
        broadcast use vstd::std_specs::hash::group_hash_axioms;

        let slots = self.items();
        let mut r: std::collections::HashSet<u128> = std::collections::HashSet::new();
        for i in 0..slots.len()
            invariant
                lists(slots@, self@),
                r@.finite(),
                forall|k: int| 0 <= k < i ==> r@.contains((#[trigger] slots@[k]).id),
                forall|id: u128| #[trigger]
                    r@.contains(id) ==> exists|slot: AdSlot| #[trigger]
                        self@.contains(slot) && slot.id == id,
        {
            let ghost before = r@;
            r.insert(slots[i].id);
            assert(slots@.contains(slots@[i as int]));
            assert(self@.contains(slots@[i as int]));
            assert(r@ == before.insert(slots@[i as int].id));
        }
        proof {
            assert forall|slot: AdSlot| #[trigger] self@.contains(slot) implies r@.contains(
                slot.id,
            ) by {
                assert(slots@.contains(slot));
                let k = choose|k: int| 0 <= k < slots@.len() && slots@[k] == slot;
                assert(r@.contains(slots@[k].id));
            }
        }
        r
    }

    pub fn is_empty(&self) -> (r: bool)
        requires
            self.wf(),
        ensures
            r == (self@ == Set::<AdSlot>::empty()),
    {
        let items = self.items();
        if items.len() == 0 {
            assert(self@ =~= Set::empty()) by {
                assert forall|slot: AdSlot| !self@.contains(slot) by {
                    assert(!items@.contains(slot));
                }
            }
            true
        } else {
            assert(items@.contains(items@[0]));
            assert(self@.contains(items@[0]));
            false
        }
    }

    /// The slots whose whole break lies before `window_start` are dropped. A
    /// break that is still going on stays available to every viewer, also when
    /// its start has left the window.
    pub fn evict(&mut self, window_start: Timestamp)
        requires
            old(self).wf(),
        ensures
            final(self).wf(),
            final(self)@ == old(self)@.filter(|slot: AdSlot| slot.end() >= window_start.nanos),
    {
        proof {
            assert forall|key: (u128, u64, i128, i32, u64, u64)| #[trigger]
                keys_in(self.set).contains(key) implies slot_of(key).wf() by {
                assert(key_of(slot_of(key)) == key);
                assert(self@.contains(slot_of(key)));
            }
        }
        set_retain(&mut self.set, window_start);
        proof {
            assert forall|slot: AdSlot| self@.contains(slot) <==> (old(self)@.contains(slot)
                && slot.end() >= window_start.nanos) by {
                assert(slot_of(key_of(slot)) == slot);
            }
            assert(self@ =~= old(self)@.filter(|slot: AdSlot| slot.end() >= window_start.nanos));
        }
    }
}

/// The furthest that a fixed break can lie from its reference point, in
/// seconds.
pub const LONGEST_SCHEDULE: u64 = 9_223_372_036_854_775;

/// The pod of a fixed break.
pub const STATIC_POD: u64 = 2;

/// The break number `index` of a fixed schedule: it starts `index` cycles of
/// `every` seconds after `date_time`. Its mark is its identifier and its time
/// zone.
pub open spec fn static_slot(
    ad_duration: u64,
    every: u64,
    date_time: Timestamp,
    index: int,
    mark: (u128, i32),
) -> AdSlot {
    AdSlot {
        id: mark.0,
        index: index as u64,
        start_time: Timestamp { nanos: (date_time.nanos + index * every * SECOND) as i128 },
        zone: mark.1,
        duration: ad_duration,
        pod_num: STATIC_POD,
    }
}

/// The breaks of a fixed schedule with the given marks, from number 1 on.
pub open spec fn static_slots(
    ad_duration: u64,
    every: u64,
    marks: Seq<(u128, i32)>,
    date_time: Timestamp,
) -> Seq<AdSlot> {
    Seq::new(marks.len(), |i: int| static_slot(ad_duration, every, date_time, i + 1, marks[i]))
}

/// Whether the identifiers of some marks are all different.
pub open spec fn has_own_ids(marks: Seq<(u128, i32)>) -> bool {
    forall|a: int, b: int|
        0 <= a < b < marks.len() ==> (#[trigger] marks[a]).0 != (#[trigger] marks[b]).0
}

/// Whether `slots` are the breaks of a fixed schedule, `number` of them, with
/// some marks, each with an identifier of its own.
pub open spec fn is_static_schedule(
    slots: Seq<AdSlot>,
    ad_duration: u64,
    every: u64,
    number: u64,
    date_time: Timestamp,
) -> bool {
    exists|marks: Seq<(u128, i32)>|
        marks.len() == number && has_own_ids(marks) && slots == #[trigger] static_slots(
            ad_duration,
            every,
            marks,
            date_time,
        )
}

/// The point in time `index` cycles of `every` seconds after `date_time`.
fn cycle_start(date_time: Timestamp, every: u64, index: u64, number: u64) -> (r: Timestamp)
    requires
        index <= number,
        number * every <= LONGEST_SCHEDULE,
        -2 * FAR <= date_time.nanos <= 2 * FAR,
    ensures
        r.nanos == date_time.nanos + index * every * SECOND,
        -4 * FAR <= r.nanos <= 4 * FAR,
{
    assert(index * every <= number * every) by (nonlinear_arith)
        requires
            index <= number,
    ;
    assert(0 <= index * every) by (nonlinear_arith);
    let seconds: u64 = index * every;
    Timestamp { nanos: date_time.nanos + seconds as i128 * SECOND }
}

/// The fixed breaks with the marks `marks`.
pub fn schedule_slots(
    ad_duration: u64,
    every: u64,
    marks: &Vec<(u128, i32)>,
    date_time: Timestamp,
) -> (r: Vec<AdSlot>)
    requires
        marks@.len() * every <= LONGEST_SCHEDULE,
        -2 * FAR <= date_time.nanos <= 2 * FAR,
        forall|i: int| 0 <= i < marks@.len() ==> is_zone((#[trigger] marks@[i]).1),
    ensures
        r@ == static_slots(ad_duration, every, marks@, date_time),
        forall|i: int| 0 <= i < r@.len() ==> (#[trigger] r@[i]).wf(),
        forall|i: int|
            0 <= i < r@.len() ==> (#[trigger] r@[i]).start_time.nanos == date_time.nanos + (i + 1)
                * every * SECOND,
{
    let mut r: Vec<AdSlot> = Vec::new();
    for i in 0..marks.len()
        invariant
            marks@.len() * every <= LONGEST_SCHEDULE,
            -2 * FAR <= date_time.nanos <= 2 * FAR,
            forall|k: int| 0 <= k < marks@.len() ==> is_zone((#[trigger] marks@[k]).1),
            r@.len() == i,
            forall|k: int|
                0 <= k < i ==> #[trigger] r@[k] == static_slot(
                    ad_duration,
                    every,
                    date_time,
                    k + 1,
                    marks@[k],
                ),
            forall|k: int| 0 <= k < i ==> (#[trigger] r@[k]).wf(),
            forall|k: int|
                0 <= k < i ==> (#[trigger] r@[k]).start_time.nanos == date_time.nanos + (k + 1)
                    * every * SECOND,
    {
        let index: u64 = i as u64 + 1;
        let start_time = cycle_start(date_time, every, index, marks.len() as u64);
        let (id, zone) = marks[i];
        assert(is_zone(marks@[i as int].1));
        r.push(
            AdSlot { id, index, start_time, zone, duration: ad_duration, pod_num: STATIC_POD },
        );
    }
    assert(r@ =~= static_slots(ad_duration, every, marks@, date_time));
    r
}

/// The fixed breaks, with new identifiers, in the machine's time zone.
pub fn generate_static_ad_slots(
    ad_duration: u64,
    every: u64,
    number: u64,
    date_time: Timestamp,
) -> (r: Vec<AdSlot>)
    requires
        number * every <= LONGEST_SCHEDULE,
        -2 * FAR <= date_time.nanos <= 2 * FAR,
    ensures
        is_static_schedule(r@, ad_duration, every, number, date_time),
        forall|i: int| 0 <= i < r@.len() ==> (#[trigger] r@[i]).wf(),
        forall|i: int|
            0 <= i < r@.len() ==> (#[trigger] r@[i]).start_time.nanos == date_time.nanos + (i + 1)
                * every * SECOND,
{
    broadcast use vstd::std_specs::hash::group_hash_axioms;

    let mut marks: Vec<(u128, i32)> = Vec::new();
    let mut taken: std::collections::HashSet<u128> = std::collections::HashSet::new();
    for i in 0..number
        invariant
            taken@.finite(),
            forall|k: int| 0 <= k < marks@.len() ==> taken@.contains((#[trigger] marks@[k]).0),
            has_own_ids(marks@),
            number * every <= LONGEST_SCHEDULE,
            -2 * FAR <= date_time.nanos <= 2 * FAR,
            marks@.len() == i,
            forall|k: int| 0 <= k < marks@.len() ==> is_zone((#[trigger] marks@[k]).1),
    {
        let start_time = cycle_start(date_time, every, i + 1, number);
        let id = free_id(new_id(), &taken);
        let ghost before = marks@;
        marks.push((id, start_time.local_zone()));
        taken.insert(id);
        assert forall|a: int, b: int| 0 <= a < b < marks@.len() implies (#[trigger] marks@[a]).0
            != (#[trigger] marks@[b]).0 by {
            assert(marks@[a] == before[a]);
        }
    }
    schedule_slots(ad_duration, every, &marks, date_time)
}

} // verus!
