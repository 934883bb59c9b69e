//! Commands: ad breaks that are asked for while a live stream goes on.

use vstd::prelude::*;

use crate::config::{InsertionMode, ServerConfig};
use crate::ids::{free_id, new_id};
use crate::json_value::{insert, number, object, pretty, pretty_text, shallow, string, tree, Tree};
use crate::slots::{AdSlot, AvailableAdSlots};
use crate::text::{parse_u64, parsed_u64, same_text};
use crate::time::{is_zone, Timestamp, SECOND};
use crate::web::{pair_views, pairs_of, parse_pairs};

verus! {

/// An ad break that is asked for.
#[derive(Clone, Copy, Debug, PartialEq, Eq, Structural)]
pub struct InsertionCommand {
    /// Seconds from the live edge to the start of the break.
    pub in_sec: u64,
    /// How long the break lasts, in seconds.
    pub duration: u64,
    pub pod_num: u64,
}

/// The number that the last pair with one of two keys holds: `None` where there
/// is no such pair, or it holds no number.
pub open spec fn last_number(
    pairs: Seq<(Seq<char>, Seq<char>)>,
    key: Seq<char>,
    other_key: Seq<char>,
) -> Option<u64>
    decreases pairs.len(),
{
    if pairs.len() == 0 {
        None
    } else if pairs.last().0 == key || pairs.last().0 == other_key {
        parsed_u64(pairs.last().1)
    } else {
        last_number(pairs.drop_last(), key, other_key)
    }
}

/// The command that keys and values describe: all three numbers are needed.
/// The length and the number of ads have a short and a long name.
pub open spec fn command_of(pairs: Seq<(Seq<char>, Seq<char>)>) -> Option<InsertionCommand> {
    match (
        last_number(pairs, "in"@, "in"@),
        last_number(pairs, "dur"@, "duration"@),
        last_number(pairs, "pod"@, "pod_num"@),
    ) {
        (Some(in_sec), Some(duration), Some(pod_num)) => Some(
            InsertionCommand { in_sec, duration, pod_num },
        ),
        _ => None,
    }
}

impl InsertionCommand {
    /// The command that keys and values describe.
    pub fn from_pairs(pairs: &Vec<(String, String)>) -> (r: Result<InsertionCommand, String>)
        ensures
            match r {
                Ok(command) => command_of(pair_views(pairs@)) == Some(command),
                Err(message) => command_of(pair_views(pairs@)) is None && message@
                    == "Missing required query parameters"@,
            },
    {
        let ghost views = pair_views(pairs@);
        let mut in_sec: Option<u64> = None;
        let mut duration: Option<u64> = None;
        let mut pod_num: Option<u64> = None;
        proof {
            assert(views.take(0) == Seq::<(Seq<char>, Seq<char>)>::empty());
            // The keys differ.
            reveal_strlit("in");
            reveal_strlit("dur");
            reveal_strlit("duration");
            reveal_strlit("pod");
            reveal_strlit("pod_num");
            assert("in"@[0] == 'i');
            assert("dur"@[0] == 'd' && "duration"@[0] == 'd');
            assert("pod"@[0] == 'p' && "pod_num"@[0] == 'p');
        }
        for i in 0..pairs.len()
            invariant
                views == pair_views(pairs@),
                in_sec == last_number(views.take(i as int), "in"@, "in"@),
                duration == last_number(views.take(i as int), "dur"@, "duration"@),
                pod_num == last_number(views.take(i as int), "pod"@, "pod_num"@),
                "in"@[0] == 'i',
                "dur"@[0] == 'd' && "duration"@[0] == 'd',
                "pod"@[0] == 'p' && "pod_num"@[0] == 'p',
        {
            let (key, value) = &pairs[i];
            assert(views.take(i + 1).drop_last() == views.take(i as int));
            assert(views.take(i + 1).last() == (key@, value@));
            if same_text(key.as_str(), "in") {
                in_sec = parse_u64(value.as_str());
            } else if same_text(key.as_str(), "dur") || same_text(key.as_str(), "duration") {
                duration = parse_u64(value.as_str());
            } else if same_text(key.as_str(), "pod") || same_text(key.as_str(), "pod_num") {
                pod_num = parse_u64(value.as_str());
            }
        }
        assert(views.take(views.len() as int) == views);
        match (in_sec, duration, pod_num) {
            (Some(in_sec), Some(duration), Some(pod_num)) => Ok(
                InsertionCommand { in_sec, duration, pod_num },
            ),
            _ => Err("Missing required query parameters".to_string()),
        }
    }

    /// The command that a query string describes.
    pub fn from_query(query: &str) -> (r: Result<InsertionCommand, String>)
        ensures
            match r {
                Ok(command) => command_of(pairs_of(query@)) == Some(command),
                Err(message) => command_of(pairs_of(query@)) is None && message@
                    == "Missing required query parameters"@,
            },
    {
        InsertionCommand::from_pairs(&parse_pairs(query))
    }

    /// The slot of the break, where the live edge is at `stream_now`; its start
    /// is told in the time zone `zone`.
    pub open spec fn slot(self, stream_now: Timestamp, index: u64, id: u128, zone: i32) -> AdSlot {
        AdSlot {
            id,
            index,
            start_time: Timestamp { nanos: (stream_now.nanos + self.in_sec * SECOND) as i128 },
            zone,
            duration: self.duration,
            pod_num: self.pod_num,
        }
    }

    pub fn to_slot(&self, stream_now: Timestamp, index: u64, id: u128, zone: i32) -> (r: AdSlot)
        requires
            stream_now.is_near(),
            is_zone(zone),
        ensures
            r == self.slot(stream_now, index, id, zone),
            r.start_time.nanos == stream_now.nanos + self.in_sec * SECOND,
            r.wf(),
    {
        AdSlot {
            id,
            index,
            start_time: stream_now.plus_seconds(self.in_sec),
            zone,
            duration: self.duration,
            pod_num: self.pod_num,
        }
    }
}

/// The reply to a command that was carried out.
pub open spec fn success_json(command: InsertionCommand, index: u64) -> Tree {
    Tree::Object(
        seq![
            ("status"@, Tree::Text("success"@)),
            (
                "command"@,
                Tree::Object(
                    seq![
                        ("index"@, Tree::Number(index as nat)),
                        ("in_sec"@, Tree::Number(command.in_sec as nat)),
                        ("duration"@, Tree::Number(command.duration as nat)),
                        ("pod_num"@, Tree::Number(command.pod_num as nat)),
                    ],
                ),
            ),
        ],
    )
}

fn success_text(command: &InsertionCommand, index: u64) -> (r: String)
    ensures
        r@ == pretty_text(success_json(*command, index), 2),
{
    proof {
        reveal_strlit("status");
        reveal_strlit("command");
        reveal_strlit("index");
        reveal_strlit("in_sec");
        reveal_strlit("duration");
        reveal_strlit("pod_num");
        assert("status"@.len() == 6);
        assert("command"@.len() == 7);
        assert("index"@.len() == 5);
        assert("in_sec"@.len() == 6);
        assert("duration"@.len() == 8);
        assert("pod_num"@.len() == 7);
    }
    let mut echo = object();
    insert(&mut echo, "index", number(index));
    insert(&mut echo, "in_sec", number(command.in_sec));
    insert(&mut echo, "duration", number(command.duration));
    insert(&mut echo, "pod_num", number(command.pod_num));
    let ghost expected = success_json(*command, index);
    assert(tree(echo)->Object_0 =~= expected->Object_0[1].1->Object_0);
    let mut r = object();
    insert(&mut r, "status", string("success"));
    insert(&mut r, "command", echo);
    assert(tree(r)->Object_0 =~= expected->Object_0);
    proof {
        reveal_with_fuel(shallow, 3);
    }
    pretty(&r, 2)
}

/// The reply to a command that is not understood.
pub open spec fn error_json(message: Seq<char>) -> Tree {
    Tree::Object(seq![("status"@, Tree::Text("error"@)), ("message"@, Tree::Text(message))])
}

fn error_text(message: &str) -> (r: String)
    ensures
        r@ == pretty_text(error_json(message@), 2),
{
    proof {
        reveal_strlit("status");
        reveal_strlit("message");
        assert("status"@.len() == 6);
        assert("message"@.len() == 7);
    }
    let mut r = object();
    insert(&mut r, "status", string("error"));
    insert(&mut r, "message", string(message));
    assert(tree(r)->Object_0 =~= error_json(message@)->Object_0);
    proof {
        reveal_with_fuel(shallow, 2);
    }
    pretty(&r, 2)
}

/// What is done about a request for an ad break.
#[derive(Debug)]
pub enum CommandStep {
    /// The request is refused, with a plain text: breaks are fixed.
    Unsupported(String),
    /// The request is refused, with a JSON text: it is not understood.
    Invalid(String),
    /// The break is inserted, once the live edge is known.
    Insert(InsertionCommand),
}

/// A request for an ad break, with the given query string, is examined.
pub fn examine_command(config: &ServerConfig, query: &str) -> (r: CommandStep)
    ensures
        match r {
            CommandStep::Unsupported(text) => config.insertion_mode == InsertionMode::Static
                && text@ == "Ad insertion is not supported in static mode."@,
            CommandStep::Invalid(text) => config.insertion_mode == InsertionMode::Dynamic
                && command_of(pairs_of(query@)) is None && text@ == pretty_text(
                error_json("Missing required query parameters"@),
                2,
            ),
            CommandStep::Insert(command) => config.insertion_mode == InsertionMode::Dynamic
                && command_of(pairs_of(query@)) == Some(command),
        },
{
    match config.insertion_mode {
        InsertionMode::Static => CommandStep::Unsupported(
            "Ad insertion is not supported in static mode.".to_string(),
        ),
        InsertionMode::Dynamic => match InsertionCommand::from_query(query) {
            Ok(command) => CommandStep::Insert(command),
            Err(message) => CommandStep::Invalid(error_text(message.as_str())),
        },
    }
}

/// The break is made available, as a slot with the identifier `id` whose start
/// is told in the time zone `zone`. Slots are numbered in the order in which
/// they are asked for.
pub fn insert_break(
    command: &InsertionCommand,
    stream_now: Timestamp,
    id: u128,
    zone: i32,
    slot_counter: &mut u64,
    available_slots: &mut AvailableAdSlots,
) -> (r: String)
    requires
        old(available_slots).wf(),
        stream_now.is_near(),
        is_zone(zone),
    ensures
        final(available_slots).wf(),
        final(available_slots)@ == old(available_slots)@.insert(
            command.slot(stream_now, *old(slot_counter), id, zone),
        ),
        *final(slot_counter) == (if *old(slot_counter) == u64::MAX {
            0
        } else {
            *old(slot_counter) + 1
        }),
        r@ == pretty_text(success_json(*command, *old(slot_counter)), 2),
{
    let index = *slot_counter;
    *slot_counter = if index == u64::MAX { 0 } else { index + 1 };
    available_slots.insert(command.to_slot(stream_now, index, id, zone));
    success_text(command, index)
}

/// The break is made available, in the machine's time zone, as a slot with an
/// identifier that no available slot has.
pub fn handle_commands(
    command: &InsertionCommand,
    stream_now: Timestamp,
    slot_counter: &mut u64,
    available_slots: &mut AvailableAdSlots,
) -> (r: String)
    requires
        old(available_slots).wf(),
        stream_now.is_near(),
    ensures
        final(available_slots).wf(),
        exists|id: u128, zone: i32|
            id != 0 && is_zone(zone) && (forall|slot: AdSlot| #[trigger]
                old(available_slots)@.contains(slot) ==> slot.id != id)
                && final(available_slots)@ == old(available_slots)@.insert(
                #[trigger] command.slot(stream_now, *old(slot_counter), id, zone),
            ),
        *final(slot_counter) == (if *old(slot_counter) == u64::MAX {
            0
        } else {
            *old(slot_counter) + 1
        }),
        r@ == pretty_text(success_json(*command, *old(slot_counter)), 2),
{
    let id = free_id(new_id(), &available_slots.taken_ids());
    let zone = stream_now.plus_seconds(command.in_sec).local_zone();
    let ghost slot = command.slot(stream_now, *slot_counter, id, zone);
    let r = insert_break(command, stream_now, id, zone, slot_counter, available_slots);
    assert(available_slots@ == old(available_slots)@.insert(slot));
    r
}

/// A break that is asked for starts the given time after the live edge and
/// lasts as long as asked for; every slot that was available stays so.
pub proof fn a_break_starts_as_asked(
    command: InsertionCommand,
    stream_now: Timestamp,
    index: u64,
    id: u128,
    zone: i32,
    available: Set<AdSlot>,
    other: AdSlot,
)
    requires
        stream_now.is_near(),
    ensures
        ({
            let slot = command.slot(stream_now, index, id, zone);
            &&& available.insert(slot).contains(slot)
            &&& available.contains(other) ==> available.insert(slot).contains(other)
            &&& slot.start_time.nanos - stream_now.nanos == command.in_sec * SECOND
            &&& slot.end() - slot.start_time.nanos == command.duration * SECOND
            &&& slot.pod_num == command.pod_num
        }),
{
}

/// A later value for a key, under either of its names, replaces an earlier
/// one, even where the later one is no number; values of other keys do not
/// matter.
pub proof fn the_last_value_counts(
    pairs: Seq<(Seq<char>, Seq<char>)>,
    key: Seq<char>,
    other_key: Seq<char>,
    value: Seq<char>,
    other: Seq<char>,
)
    requires
        other != key,
        other != other_key,
    ensures
        last_number(pairs.push((key, value)), key, other_key) == parsed_u64(value),
        last_number(pairs.push((other_key, value)), key, other_key) == parsed_u64(value),
        last_number(pairs.push((other, value)), key, other_key) == last_number(
            pairs,
            key,
            other_key,
        ),
{
    assert(pairs.push((other, value)).drop_last() == pairs);
}

} // verus!
