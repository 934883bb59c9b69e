//! Media playlists: interstitials and their preload hints are put in, and the
//! live edge is remembered.

use vstd::prelude::*;

use crate::config::{InsertionMode, ServerConfig};
use crate::hls::{holds_range, is_media_text, is_read_from, media_contents, media_text, option_text,
    print_media, read_master, read_media, segments, spec_read_master, spec_read_media, MediaView};
use crate::interstitials::{a_second_viewer_gets_the_same_reply, are_candidates,
    insert_interstitials, is_dated, is_inserted, lacks_date_time, same_zones, takes_interstitials,
    times_of};
use crate::live_edge::{seen_live_edge, update_last_seen_pdt};
use crate::master::{handle_master_playlist_content, is_master_reply, PlaylistReply};
use crate::preload::{inject_preload_date_ranges, joined, with_preloads};
use crate::slots::{AdSlot, AvailableAdSlots};
use crate::stores::UserDefinedQueryParams;
use crate::text::{has_part, lines};
use crate::time::Timestamp;
use crate::timeline::{find_program_datetime_tag, is_measurable, lemma_total_same, measurable};

verus! {

/// Whether `after` and `available_after` are what becomes of a media playlist
/// and of the available slots when the playlist is served.
pub open spec fn is_served(
    before: MediaView,
    after: MediaView,
    config: ServerConfig,
    available: Set<AdSlot>,
    available_after: Set<AdSlot>,
    started: Timestamp,
) -> bool {
    if takes_interstitials(before, config) {
        exists|slots: Seq<AdSlot>, zones: Seq<i32>|
            are_candidates(slots, before, config, available, started) && #[trigger] is_inserted(
                before,
                after,
                config,
                available,
                available_after,
                slots,
                zones,
            )
    } else {
        after == before && available_after == available
    }
}

/// Whether `printed` is the text of a playlist: see [`print_media`].
pub open spec fn is_printed(m: MediaView, printed: Seq<char>) -> bool {
    &&& is_media_text(printed, m)
    &&& !has_part(m.source, "KEYFORMATVERSIONS"@) ==> printed == media_text(m, seq![])
    &&& forall|i: int|
        0 <= i < m.segments.len() && m.inserted.contains_key(i) ==> holds_range(
            printed,
            #[trigger] m.inserted[i],
        )
}

/// Whether a dated playlist can be served: the breaks of the configuration and
/// the segments of the playlist span no more time than there is.
pub open spec fn can_serve(m: MediaView, config: ServerConfig) -> bool {
    config.can_schedule() && measurable(m.segments)
}

proof fn lemma_same_length_is_measurable(
    before: MediaView,
    after: MediaView,
    config: ServerConfig,
    available: Set<AdSlot>,
    available_after: Set<AdSlot>,
    started: Timestamp,
)
    requires
        is_served(before, after, config, available, available_after, started),
        measurable(before.segments),
    ensures
        measurable(after.segments),
{
    if takes_interstitials(before, config) {
        let (slots, zones) = choose|slots: Seq<AdSlot>, zones: Seq<i32>|
            are_candidates(slots, before, config, available, started) && #[trigger] is_inserted(
                before,
                after,
                config,
                available,
                available_after,
                slots,
                zones,
            );
        assert forall|i: int| 0 <= i < before.segments.len() implies (
        #[trigger] after.segments[i]).duration == before.segments[i].duration by {
        }
        lemma_total_same(after.segments, before.segments);
    }
}

/// Whether a text is what is served for a media playlist, and `available_after`
/// and `seen` are what becomes of the available slots and of the remembered
/// live edge.
pub open spec fn is_media_reply(
    text: Seq<char>,
    m: MediaView,
    config: ServerConfig,
    available: Set<AdSlot>,
    available_after: Set<AdSlot>,
    started: Timestamp,
    last_seen: i64,
    seen: i64,
) -> bool {
    exists|after: MediaView, printed: Seq<char>|
        {
            &&& is_served(m, after, config, available, available_after, started)
            &&& #[trigger] is_printed(after, printed)
            &&& text == joined(with_preloads(lines(printed)))
            &&& seen == seen_live_edge(after.segments, last_seen)
        }
}

/// The text that is served for a media playlist, and what becomes of the
/// available slots and of the remembered live edge. A playlist that does not
/// say when it takes place is passed on as the origin has it.
pub fn handle_media_playlist_content(
    playlist: hls_m3u8::MediaPlaylist<'static>,
    available_slots: &mut AvailableAdSlots,
    config: &ServerConfig,
    started: Timestamp,
    last_seen_pdt: &mut i64,
) -> (r: PlaylistReply)
    requires
        old(available_slots).wf(),
        started.is_near(),
    ensures
        final(available_slots).wf(),
        r is Unchanged <==> !is_dated(media_contents(playlist)),
        r is Broken <==> is_dated(media_contents(playlist)) && !can_serve(
            media_contents(playlist),
            *config,
        ),
        r !is Changed ==> final(available_slots)@ == old(available_slots)@ && *final(last_seen_pdt)
            == *old(last_seen_pdt),
        r matches PlaylistReply::Changed(text) ==> is_media_reply(
            text@,
            media_contents(playlist),
            *config,
            old(available_slots)@,
            final(available_slots)@,
            started,
            *old(last_seen_pdt),
            *final(last_seen_pdt),
        ),
{
    let mut m3u8 = playlist;
    let read = segments(&m3u8);
    let ghost before = media_contents(m3u8);
    if find_program_datetime_tag(&read).is_none() {
        return PlaylistReply::Unchanged;
    }
    if !config.is_schedulable() || !is_measurable(&read) {
        return PlaylistReply::Broken;
    }
    insert_interstitials(&mut m3u8, config, available_slots, started);
    let ghost after = media_contents(m3u8);
    assert(is_served(
        before,
        after,
        *config,
        old(available_slots)@,
        available_slots@,
        started,
    ));
    proof {
        lemma_same_length_is_measurable(
            before,
            after,
            *config,
            old(available_slots)@,
            available_slots@,
            started,
        );
    }
    // After the insertion, so that a date and time that was put in is seen.
    update_last_seen_pdt(&segments(&m3u8), last_seen_pdt);
    let printed = print_media(&m3u8);
    assert(is_printed(after, printed@));
    PlaylistReply::Changed(inject_preload_date_ranges(printed.as_str()))
}

/// The text that is served where the origin has `text`, and a media playlist
/// is expected.
pub fn handle_media_playlist(
    text: &str,
    available_slots: &mut AvailableAdSlots,
    config: &ServerConfig,
    started: Timestamp,
    last_seen_pdt: &mut i64,
) -> (r: PlaylistReply)
    requires
        old(available_slots).wf(),
        started.is_near(),
    ensures
        final(available_slots).wf(),
        r is Unchanged <==> !(spec_read_media(text@) matches Some(m) && is_dated(m)),
        r is Broken <==> (spec_read_media(text@) matches Some(m) && is_dated(m) && !can_serve(
            m,
            *config,
        )),
        r !is Changed ==> final(available_slots)@ == old(available_slots)@ && *final(last_seen_pdt)
            == *old(last_seen_pdt),
        r matches PlaylistReply::Changed(out) ==> exists|m: MediaView| #[trigger]
            is_read_from(m, text@) && is_media_reply(
                out@,
                m,
                *config,
                old(available_slots)@,
                final(available_slots)@,
                started,
                *old(last_seen_pdt),
                *final(last_seen_pdt),
            ),
{
    match read_media(text) {
        Some(playlist) => {
            let ghost m = media_contents(playlist);
            assert(is_read_from(m, text@));
            assert(spec_read_media(text@)->0.segments == m.segments);
            handle_media_playlist_content(
                playlist,
                available_slots,
                config,
                started,
                last_seen_pdt,
            )
        },
        None => PlaylistReply::Unchanged,
    }
}

/// The text that is served at `path` where the origin has `text` there, which
/// may be a playlist of either kind: a master playlist, else a media playlist,
/// else anything. Where it is a master playlist, the query string is remembered
/// for the session.
pub fn handle_playlist(
    text: &str,
    path: &str,
    query: &Option<String>,
    session: &Option<String>,
    params: &mut UserDefinedQueryParams,
    available_slots: &mut AvailableAdSlots,
    config: &ServerConfig,
    started: Timestamp,
    last_seen_pdt: &mut i64,
) -> (r: PlaylistReply)
    requires
        old(available_slots).wf(),
        started.is_near(),
    ensures
        final(available_slots).wf(),
        spec_read_master(text@) matches Some(m) ==> {
            &&& is_master_reply(r@, m, path@)
            &&& final(params)@ == UserDefinedQueryParams::remembered(
                old(params)@,
                option_text(*query),
                option_text(*session),
            )
            &&& final(available_slots)@ == old(available_slots)@
            &&& *final(last_seen_pdt) == *old(last_seen_pdt)
        },
        spec_read_master(text@) is None ==> {
            &&& final(params)@ == old(params)@
            &&& r is Unchanged <==> !(spec_read_media(text@) matches Some(m) && is_dated(m))
            &&& r is Broken <==> (spec_read_media(text@) matches Some(m) && is_dated(m)
                && !can_serve(m, *config))
            &&& r !is Changed ==> final(available_slots)@ == old(available_slots)@
                && *final(last_seen_pdt) == *old(last_seen_pdt)
            &&& r matches PlaylistReply::Changed(out) ==> exists|m: MediaView| #[trigger]
                is_read_from(m, text@) && is_media_reply(
                    out@,
                    m,
                    *config,
                    old(available_slots)@,
                    final(available_slots)@,
                    started,
                    *old(last_seen_pdt),
                    *final(last_seen_pdt),
                )
        },
{
    match read_master(text) {
        Some(master) => {
            params.remember(query, session);
            handle_master_playlist_content(master, path)
        },
        None => handle_media_playlist(text, available_slots, config, started, last_seen_pdt),
    }
}

/// A second viewer who asks for the same media playlist within a break is
/// served the same text as the first, and the break stays available. Left out
/// are playlists with keys that name the versions of their formats, which may
/// be printed differently each time, and those in which a discontinuity lacks a
/// date, which is told in the time zone that the machine has then.
pub proof fn a_second_viewer_is_served_the_same_text(
    m: MediaView,
    first_text: Seq<char>,
    second_text: Seq<char>,
    config: ServerConfig,
    available_after_first: Set<AdSlot>,
    available_after_second: Set<AdSlot>,
    started: Timestamp,
    last_seen: i64,
    seen_first: i64,
    seen_second: i64,
    slot: AdSlot,
)
    requires
        config.insertion_mode == InsertionMode::Dynamic,
        takes_interstitials(m, config),
        slot.end() >= times_of(m)[0],
        !has_part(m.source, "KEYFORMATVERSIONS"@),
        forall|i: int| 0 <= i < m.segments.len() ==> !lacks_date_time(#[trigger] m.segments[i]),
        is_media_reply(
            first_text,
            m,
            config,
            set![slot],
            available_after_first,
            started,
            last_seen,
            seen_first,
        ),
        is_media_reply(
            second_text,
            m,
            config,
            available_after_first,
            available_after_second,
            started,
            seen_first,
            seen_second,
        ),
    ensures
        second_text == first_text,
        available_after_first == set![slot],
        available_after_second == set![slot],
{
    let available = set![slot];
    let (first, first_printed) = choose|after: MediaView, printed: Seq<char>|
        {
            &&& is_served(m, after, config, available, available_after_first, started)
            &&& #[trigger] is_printed(after, printed)
            &&& first_text == joined(with_preloads(lines(printed)))
            &&& seen_first == seen_live_edge(after.segments, last_seen)
        };
    let (second, second_printed) = choose|after: MediaView, printed: Seq<char>|
        {
            &&& is_served(
                m,
                after,
                config,
                available_after_first,
                available_after_second,
                started,
            )
            &&& #[trigger] is_printed(after, printed)
            &&& second_text == joined(with_preloads(lines(printed)))
            &&& seen_second == seen_live_edge(after.segments, seen_first)
        };
    let (first_slots, first_zones) = choose|slots: Seq<AdSlot>, zones: Seq<i32>|
        are_candidates(slots, m, config, available, started) && #[trigger] is_inserted(
            m,
            first,
            config,
            available,
            available_after_first,
            slots,
            zones,
        );
    let (second_slots, second_zones) = choose|slots: Seq<AdSlot>, zones: Seq<i32>|
        are_candidates(slots, m, config, available_after_first, started) && #[trigger] is_inserted(
            m,
            second,
            config,
            available_after_first,
            available_after_second,
            slots,
            zones,
        );
    assert(same_zones(m, first_zones, second_zones));
    a_second_viewer_gets_the_same_reply(
        m,
        first,
        second,
        config,
        available_after_first,
        available_after_second,
        first_slots,
        second_slots,
        first_zones,
        second_zones,
        slot,
    );
}

} // verus!
