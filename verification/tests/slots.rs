use ad_proxy::slots::{generate_static_ad_slots, schedule_slots, AdSlot, AvailableAdSlots};
use ad_proxy::time::Timestamp;

const SECOND: i128 = 1_000_000_000;

fn make_slot(start: Timestamp, duration: u64) -> AdSlot {
    AdSlot {
        id: uuid::Uuid::new_v4().as_u128(),
        index: 0,
        start_time: start,
        zone: 0,
        duration,
        pod_num: 2,
    }
}

fn earlier(time: Timestamp, seconds: i128) -> Timestamp {
    Timestamp {
        nanos: time.nanos - seconds * SECOND,
    }
}

// A break must stay available for its whole duration, so that concurrent
// viewers all get the ad, not just the first.
#[test]
fn slot_survives_eviction_while_break_is_active() {
    let now = Timestamp::now();
    // A 15s break that started 5s ago is still active.
    let slot = make_slot(earlier(now, 5), 15);

    let mut slots = AvailableAdSlots::new();
    slots.insert(slot);

    let window_start = now;
    slots.evict(window_start);

    assert_eq!(slots.items().len(), 1, "active break was evicted too early");
    assert!(slots.contains(&slot));
}

// Once the break has fully ended, the slot is evicted.
#[test]
fn slot_is_evicted_after_break_ends() {
    let now = Timestamp::now();
    // A 15s break that started 30s ago has fully ended.
    let slot = make_slot(earlier(now, 30), 15);

    let mut slots = AvailableAdSlots::new();
    slots.insert(slot);

    let window_start = now;
    slots.evict(window_start);

    assert_eq!(slots.items().len(), 0, "ended break should be evicted");
    assert!(slots.is_empty());
}

#[test]
fn expires_at_is_start_plus_duration() {
    let start = Timestamp::now();
    let slot = make_slot(start, 15);
    assert_eq!(slot.expires_at(), start.plus_seconds(15));
}

#[test]
fn a_break_that_ends_with_the_window_start_is_kept() {
    let start = Timestamp { nanos: 0 };
    let slot = make_slot(start, 15);
    let mut slots = AvailableAdSlots::new();
    slots.insert(slot);
    slots.evict(Timestamp { nanos: 15 * SECOND });
    assert!(slots.contains(&slot));
    slots.evict(Timestamp {
        nanos: 15 * SECOND + 1,
    });
    assert!(!slots.contains(&slot));
}

#[test]
fn a_set_holds_a_slot_once() {
    let slot = make_slot(Timestamp { nanos: 7 }, 15);
    let mut slots = AvailableAdSlots::new();
    slots.insert(slot);
    slots.insert(slot);
    assert_eq!(slots.items(), vec![slot]);
    let other = AdSlot { index: 1, ..slot };
    assert!(!slots.contains(&other));
    slots.insert(other);
    assert_eq!(slots.items().len(), 2);
}

#[test]
fn slots_are_named_by_index() {
    let slot = AdSlot {
        index: 120,
        ..make_slot(Timestamp { nanos: 0 }, 15)
    };
    assert_eq!(slot.name(), "ad_slot120");
}

#[test]
fn fixed_breaks_follow_each_other() {
    let start = Timestamp { nanos: 5 * SECOND };
    let slots = generate_static_ad_slots(10, 30, 3, start);
    assert_eq!(slots.len(), 3);
    for (i, slot) in slots.iter().enumerate() {
        assert_eq!(slot.index, i as u64 + 1);
        assert_eq!(slot.duration, 10);
        assert_eq!(slot.pod_num, 2);
        assert_ne!(slot.id, 0);
        assert_eq!(
            slot.start_time.nanos,
            5 * SECOND + (i as i128 + 1) * 30 * SECOND
        );
    }
    assert_ne!(slots[0].id, slots[1].id);
    assert!(generate_static_ad_slots(10, 30, 0, start).is_empty());
}

#[test]
fn fixed_breaks_have_the_given_identifiers() {
    let slots = schedule_slots(10, 30, &vec![(7, 0), (9, 3600)], Timestamp { nanos: 0 });
    let expected = |id: u128, index: u64, zone: i32| AdSlot {
        id,
        index,
        start_time: Timestamp { nanos: index as i128 * 30 * SECOND },
        zone,
        duration: 10,
        pod_num: 2,
    };
    assert_eq!(slots, vec![expected(7, 1, 0), expected(9, 2, 3600)]);
}
