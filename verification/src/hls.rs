//! HLS playlists: what the proxy reads of them, and the calls into `hls_m3u8`
//! that read, change and print them.

use vstd::prelude::*;

use crate::readable::{is_readable, is_readable_line, readable, readable_line};
use crate::text::{decimal, has_part, has_prefix, to_chars};

verus! {

/// A length of time: whole seconds, and nanoseconds below one second.
#[derive(Clone, Copy, Debug, PartialEq, Eq, Structural)]
pub struct Span {
    pub secs: u64,
    pub nanos: u32,
}

impl Span {
    pub open spec fn wf(self) -> bool {
        self.nanos < 1_000_000_000
    }
}

pub open spec fn option_text(o: Option<String>) -> Option<Seq<char>> {
    match o {
        Some(s) => Some(s@),
        None => None,
    }
}

/// The value of a client-defined attribute of a date range.
#[derive(Debug)]
pub enum AttributeValue {
    /// A quoted string.
    Text(String),
    /// A whole number, printed without quotes.
    Number(u64),
    /// A floating point number or a byte sequence, read from a playlist.
    Other,
}

pub enum AttributeView {
    Text(Seq<char>),
    Number(u64),
    Other,
}

impl View for AttributeValue {
    type V = AttributeView;

    open spec fn view(&self) -> AttributeView {
        match self {
            AttributeValue::Text(s) => AttributeView::Text(s@),
            AttributeValue::Number(n) => AttributeView::Number(*n),
            AttributeValue::Other => AttributeView::Other,
        }
    }
}

/// An `EXT-X-DATERANGE` tag.
#[derive(Debug)]
pub struct DateRange {
    pub id: String,
    pub class: Option<String>,
    pub start_date: Option<String>,
    pub duration: Option<Span>,
    /// The client-defined attributes, by name.
    pub attributes: Vec<(String, AttributeValue)>,
}

#[verifier::ext_equal]
pub struct DateRangeView {
    pub id: Seq<char>,
    pub class: Option<Seq<char>>,
    pub start_date: Option<Seq<char>>,
    pub duration: Option<Span>,
    pub attributes: Seq<(Seq<char>, AttributeView)>,
}

pub open spec fn attribute_views(v: Seq<(String, AttributeValue)>) -> Seq<
    (Seq<char>, AttributeView),
> {
    v.map_values(|a: (String, AttributeValue)| (a.0@, a.1@))
}

impl View for DateRange {
    type V = DateRangeView;

    open spec fn view(&self) -> DateRangeView {
        DateRangeView {
            id: self.id@,
            class: option_text(self.class),
            start_date: option_text(self.start_date),
            duration: self.duration,
            attributes: attribute_views(self.attributes@),
        }
    }
}

impl DateRangeView {
    /// Whether a tag can be built from these contents: a length of time is
    /// less than a second over its whole seconds, and the value of every
    /// attribute is known.
    pub open spec fn buildable(self) -> bool {
        &&& self.duration matches Some(d) ==> d.wf()
        &&& forall|i: int|
            0 <= i < self.attributes.len() ==> (#[trigger] self.attributes[i]).1 !is Other
    }
}

/// A text that can stand between quotes.
pub open spec fn is_plain(s: Seq<char>) -> bool {
    forall|i: int| 0 <= i < s.len() ==> #[trigger] s[i] != '"' && s[i] != '\n' && s[i] != '\r'
}

pub open spec fn is_plain_option(s: Option<Seq<char>>) -> bool {
    s matches Some(s) ==> is_plain(s)
}

/// A name that a client-defined attribute can have.
pub open spec fn is_client_key(s: Seq<char>) -> bool {
    &&& has_prefix(s, "X-"@)
    &&& forall|i: int|
        0 <= i < s.len() ==> 'A' <= #[trigger] s[i] <= 'Z' || '0' <= s[i] <= '9' || s[i] == '-'
}

/// Whether `a` comes before `b` in the order of characters.
pub open spec fn precedes(a: Seq<char>, b: Seq<char>) -> bool {
    exists|p: int|
        0 <= p <= a.len() && p < b.len() && #[trigger] a.take(p) == b.take(p) && (p == a.len() || (
        a[p] as u32) < (b[p] as u32))
}

/// The largest number that a floating point number of 32 bits holds together
/// with all smaller ones.
pub const EXACT_NUMBER: u64 = 16_777_216;

pub open spec fn quoted(s: Seq<char>) -> Seq<char> {
    seq!['"'] + s + seq!['"']
}

pub open spec fn attribute_text(value: AttributeView) -> Seq<char> {
    match value {
        AttributeView::Text(s) => quoted(s),
        AttributeView::Number(n) => decimal(n as nat),
        AttributeView::Other => seq![],
    }
}

pub open spec fn optional_field(key: Seq<char>, value: Option<Seq<char>>) -> Seq<
    (Seq<char>, Seq<char>),
> {
    match value {
        Some(s) => seq![(key, quoted(s))],
        None => seq![],
    }
}

/// Fields, `KEY=value` with commas between them.
pub open spec fn joined_fields(fields: Seq<(Seq<char>, Seq<char>)>) -> Seq<char>
    decreases fields.len(),
{
    if fields.len() == 0 {
        seq![]
    } else {
        let first = fields[0].0 + "="@ + fields[0].1;
        if fields.len() == 1 {
            first
        } else {
            first + ","@ + joined_fields(fields.skip(1))
        }
    }
}

impl DateRangeView {
    /// Whether the contents are printed as they are: texts without quotes and
    /// line ends, whole seconds, numbers that are exact in floating point, and
    /// attributes in the order of their names.
    pub open spec fn plain(self) -> bool {
        &&& is_plain(self.id)
        &&& is_plain_option(self.class)
        &&& is_plain_option(self.start_date)
        &&& self.duration matches Some(d) ==> d.nanos == 0 && d.secs <= LONGEST_SEGMENT
        &&& forall|i: int|
            0 <= i < self.attributes.len() ==> is_client_key((#[trigger] self.attributes[i]).0)
                && match self.attributes[i].1 {
                AttributeView::Text(s) => is_plain(s),
                AttributeView::Number(n) => n <= EXACT_NUMBER,
                AttributeView::Other => false,
            }
        &&& forall|i: int, k: int|
            0 <= i && k == i + 1 && k < self.attributes.len() ==> precedes(
                (#[trigger] self.attributes[i]).0,
                (#[trigger] self.attributes[k]).0,
            )
    }

    /// The fields of the tag, as texts.
    pub open spec fn fields(self) -> Seq<(Seq<char>, Seq<char>)> {
        seq![("ID"@, quoted(self.id))] + optional_field("CLASS"@, self.class) + optional_field(
            "START-DATE"@,
            self.start_date,
        ) + match self.duration {
            Some(d) => seq![("DURATION"@, decimal(d.secs as nat))],
            None => seq![],
        } + self.attributes.map_values(
            |a: (Seq<char>, AttributeView)| (a.0, attribute_text(a.1)),
        )
    }

    /// The line that is printed for plain contents.
    pub open spec fn plain_line(self) -> Seq<char> {
        "#EXT-X-DATERANGE:"@ + joined_fields(self.fields())
    }

    /// The contents as they are read from a line: numbers are not told apart.
    pub open spec fn as_read(self) -> DateRangeView {
        DateRangeView {
            attributes: self.attributes.map_values(
                |a: (Seq<char>, AttributeView)|
                    (
                        a.0,
                        match a.1 {
                            AttributeView::Text(s) => AttributeView::Text(s),
                            _ => AttributeView::Other,
                        },
                    ),
            ),
            ..self
        }
    }
}

/// The `EXT-X-DATERANGE` tag of `hls_m3u8`.
#[verifier::external_type_specification]
#[verifier::external_body]
pub struct ExDateRangeTag<'a>(hls_m3u8::tags::ExtXDateRange<'a>);

/// The fields and attributes that a tag was built with.
pub uninterp spec fn tag_contents(tag: hls_m3u8::tags::ExtXDateRange<'static>) -> DateRangeView;

/// The line that `hls_m3u8` prints for a tag with the given contents.
pub uninterp spec fn date_range_line(contents: DateRangeView) -> Seq<char>;

/// The date range that `hls_m3u8` reads from a line; `None` where it rejects
/// the line.
pub uninterp spec fn date_range_of(line: Seq<char>) -> Option<DateRangeView>;

/// `ExtXDateRange::new` and its setters: the tag with the given contents.
#[verifier::external_body]
pub(crate) fn build_tag(range: &DateRange) -> (r: hls_m3u8::tags::ExtXDateRange<'static>)
    requires
        range@.buildable(),
    ensures
        tag_contents(r) == range@,
{
    let mut tag = hls_m3u8::tags::ExtXDateRange::new(range.id.clone(), "");
    tag.set_class(range.class.clone()).set_start_date(range.start_date.clone());
    tag.duration = range.duration.map(|d| std::time::Duration::new(d.secs, d.nanos));
    for (key, value) in range.attributes.iter() {
        tag.insert_client_attributes(key.clone(), match value {
            AttributeValue::Text(s) => hls_m3u8::types::Value::String(s.clone().into()),
            AttributeValue::Number(n) => hls_m3u8::types::Value::Float(n.to_string().parse().unwrap()),
            AttributeValue::Other => hls_m3u8::types::Value::Hex(Vec::new()),
        });
    }
    tag
}

/// `ExtXDateRange::to_string`: the line that is printed for a tag. It is known
/// for plain contents, and is read back then.
#[verifier::external_body]
fn print_tag(tag: &hls_m3u8::tags::ExtXDateRange<'static>) -> (r: String)
    ensures
        r@ == date_range_line(tag_contents(*tag)),
        tag_contents(*tag).plain() ==> r@ == tag_contents(*tag).plain_line(),
        tag_contents(*tag).plain() ==> date_range_of(r@) == Some(tag_contents(*tag).as_read()),
{
    tag.to_string()
}

/// `ExtXDateRange::try_from` on a line. The client-defined attributes come in
/// the order of their names.
#[verifier::external_body]
fn parse_tag(line: &str) -> (r: Option<DateRange>)
    requires
        readable_line(line@, 0),
    ensures
        match r {
            Some(range) => date_range_of(line@) == Some(range@) && (range.duration matches Some(d)
                ==> d.wf()),
            None => date_range_of(line@) is None,
        },
{
    let tag = hls_m3u8::tags::ExtXDateRange::try_from(line).ok()?;
    Some(DateRange {
        id: tag.id().to_string(),
        class: tag.class().map(|s| s.to_string()),
        start_date: tag.start_date().map(|s| s.to_string()),
        duration: tag.duration.map(|d| Span { secs: d.as_secs(), nanos: d.subsec_nanos() }),
        attributes: tag.client_attributes.iter().map(|(k, v)| (k.to_string(), match v {
            hls_m3u8::types::Value::String(s) => AttributeValue::Text(s.to_string()),
            _ => AttributeValue::Other,
        })).collect(),
    })
}

impl DateRange {
    /// The line that stands for this date range in a playlist.
    pub fn to_line(&self) -> (r: String)
        requires
            self@.buildable(),
        ensures
            r@ == date_range_line(self@),
            self@.plain() ==> r@ == self@.plain_line(),
            self@.plain() ==> date_range_of(r@) == Some(self@.as_read()),
    {
        print_tag(&build_tag(self))
    }

    /// The date range that a line holds.
    pub open spec fn spec_from_line(line: Seq<char>) -> Option<DateRangeView> {
        if readable_line(line, 0) {
            date_range_of(line)
        } else {
            None
        }
    }

    pub fn from_line(line: &str) -> (r: Option<DateRange>)
        ensures
            match r {
                Some(range) => DateRange::spec_from_line(line@) == Some(range@) && (
                range.duration matches Some(d) ==> d.wf()),
                None => DateRange::spec_from_line(line@) is None,
            },
    {
        if is_readable_line(&to_chars(line), 0) {
            parse_tag(line)
        } else {
            None
        }
    }
}

/// What a segment of a media playlist holds, as far as the proxy reads it.
#[derive(Debug)]
pub struct Segment {
    pub duration: Span,
    pub has_discontinuity: bool,
    /// Whether a media initialization section is declared at the segment.
    pub has_map: bool,
    pub program_date_time: Option<String>,
}

#[verifier::ext_equal]
pub struct SegmentView {
    pub duration: Span,
    pub has_discontinuity: bool,
    pub has_map: bool,
    pub program_date_time: Option<Seq<char>>,
}

impl View for Segment {
    type V = SegmentView;

    open spec fn view(&self) -> SegmentView {
        SegmentView {
            duration: self.duration,
            has_discontinuity: self.has_discontinuity,
            has_map: self.has_map,
            program_date_time: option_text(self.program_date_time),
        }
    }
}

pub open spec fn segment_views(v: Seq<Segment>) -> Seq<SegmentView> {
    v.map_values(|s: Segment| s@)
}

/// The type that a media playlist declares.
#[derive(Clone, Copy, Debug, PartialEq, Eq, Structural)]
pub enum PlaylistKind {
    Vod,
    Event,
}

/// What a media playlist holds: the text that it was read from, the order in
/// which its segments list their keys, the type that it declares, its
/// segments, and the date ranges that segments were given since it was read.
#[verifier::ext_equal]
pub struct MediaView {
    pub source: Seq<char>,
    /// Where segments have keys of several formats, the places of the keys in
    /// the order in which the segments list them; empty where the text leaves
    /// no choice.
    pub key_order: Seq<nat>,
    pub kind: Option<PlaylistKind>,
    pub segments: Seq<SegmentView>,
    pub inserted: Map<int, DateRangeView>,
}

impl MediaView {
    pub open spec fn with_program_date_time(self, index: int, text: Seq<char>) -> MediaView {
        MediaView {
            segments: self.segments.update(
                index,
                SegmentView { program_date_time: Some(text), ..self.segments[index] },
            ),
            ..self
        }
    }

    pub open spec fn with_key_order(self, key_order: Seq<nat>) -> MediaView {
        MediaView { key_order, ..self }
    }

    pub open spec fn with_date_range(self, index: int, range: DateRangeView) -> MediaView {
        MediaView { inserted: self.inserted.insert(index, range), ..self }
    }
}

/// The media playlist of `hls_m3u8`.
#[verifier::external_type_specification]
#[verifier::external_body]
pub struct ExMediaPlaylist<'a>(hls_m3u8::MediaPlaylist<'a>);

/// What a media playlist holds.
pub uninterp spec fn media_contents(playlist: hls_m3u8::MediaPlaylist<'static>) -> MediaView;

/// No segment was given a date range.
pub open spec fn no_ranges() -> Map<int, DateRangeView> {
    Map::empty()
}

/// The media playlist that `hls_m3u8` reads from a text, but for the order in
/// which segments list their keys; `None` where it rejects the text.
pub uninterp spec fn media_of(text: Seq<char>) -> Option<MediaView>;

/// The text that `hls_m3u8` prints for a media playlist, where `skipped` are
/// the keys that it takes for printed already. Which ones it does depends on
/// the order of a hash set, but only where keys name the versions of their
/// formats.
pub uninterp spec fn media_text(contents: MediaView, skipped: Seq<nat>) -> Seq<char>;

/// Whether a text is one that can be printed for a media playlist.
pub open spec fn is_media_text(text: Seq<char>, m: MediaView) -> bool {
    exists|skipped: Seq<nat>| text == #[trigger] media_text(m, skipped)
}

/// `MediaPlaylist::try_from` on a text. The keys that are in force are kept in
/// a hash set, one of each format, so with several formats the order in which
/// a segment lists them differs from run to run. Nothing else that is read
/// does.
#[verifier::external_body]
fn parse_media(text: &str) -> (r: Option<hls_m3u8::MediaPlaylist<'static>>)
    requires
        readable(text@),
    ensures
        match r {
            Some(p) => {
                &&& media_of(text@) == Some(media_contents(p).with_key_order(seq![]))
                &&& media_contents(p).source == text@
                &&& media_contents(p).inserted == no_ranges()
                &&& !has_part(text@, "KEYFORMAT"@) ==> media_contents(p).key_order.len() == 0
            },
            None => media_of(text@) is None,
        },
{
    hls_m3u8::MediaPlaylist::try_from(text).ok().map(|p| p.into_owned())
}

/// The `playlist_type` of a media playlist.
#[verifier::external_body]
pub(crate) fn playlist_kind(p: &hls_m3u8::MediaPlaylist<'static>) -> (r: Option<PlaylistKind>)
    ensures
        r == media_contents(*p).kind,
{
    match p.playlist_type {
        Some(hls_m3u8::types::PlaylistType::Vod) => Some(PlaylistKind::Vod),
        Some(hls_m3u8::types::PlaylistType::Event) => Some(PlaylistKind::Event),
        None => None,
    }
}

/// The `segments` of a media playlist, in order.
#[verifier::external_body]
pub(crate) fn segments(p: &hls_m3u8::MediaPlaylist<'static>) -> (r: Vec<Segment>)
    ensures
        segment_views(r@) == media_contents(*p).segments,
{
    p.segments.iter().map(|(_, s)| Segment {
        duration: Span {
            secs: s.duration.duration().as_secs(),
            nanos: s.duration.duration().subsec_nanos(),
        },
        has_discontinuity: s.has_discontinuity,
        has_map: s.map.is_some(),
        program_date_time: s.program_date_time.as_ref().map(|t| t.date_time.to_string()),
    }).collect()
}

/// `ExtXProgramDateTime::new`, put into the segment at `index`.
#[verifier::external_body]
pub(crate) fn set_program_date_time(
    p: &mut hls_m3u8::MediaPlaylist<'static>,
    index: usize,
    text: String,
)
    requires
        index < media_contents(*old(p)).segments.len(),
    ensures
        media_contents(*final(p)) == media_contents(*old(p)).with_program_date_time(
            index as int,
            text@,
        ),
{
    let tag = hls_m3u8::tags::ExtXProgramDateTime::new(text);
    p.segments.iter_mut().nth(index).unwrap().1.program_date_time = Some(tag);
}

/// The `date_range` of the segment at `index` is replaced.
#[verifier::external_body]
pub(crate) fn set_date_range(
    p: &mut hls_m3u8::MediaPlaylist<'static>,
    index: usize,
    tag: hls_m3u8::tags::ExtXDateRange<'static>,
)
    requires
        index < media_contents(*old(p)).segments.len(),
    ensures
        media_contents(*final(p)) == media_contents(*old(p)).with_date_range(
            index as int,
            tag_contents(tag),
        ),
{
    p.segments.iter_mut().nth(index).unwrap().1.date_range = Some(tag);
}

/// Whether a text holds the line of a date range, on a line of its own that is
/// read back where the contents are plain.
pub open spec fn holds_range(text: Seq<char>, range: DateRangeView) -> bool {
    let line = date_range_line(range);
    &&& has_part(text, seq!['\n'] + line + seq!['\n'])
    &&& range.plain() ==> line == range.plain_line() && date_range_of(line) == Some(
        range.as_read(),
    )
}

/// `MediaPlaylist::to_string`. A key is not printed again while it is in force,
/// for which the printed keys are kept in a hash set. Two keys that differ only
/// in the versions of their format, and name equally many, count as equal there
/// but have different hashes, so which of such keys are printed differs from
/// run to run. Every date range that was put into a segment is printed on a
/// line of its own.
#[verifier::external_body]
pub(crate) fn print_media(p: &hls_m3u8::MediaPlaylist<'static>) -> (r: String)
    ensures
        !has_part(media_contents(*p).source, "KEYFORMATVERSIONS"@) ==> r@ == media_text(
            media_contents(*p),
            seq![],
        ),
        is_media_text(r@, media_contents(*p)),
        forall|i: int|
            0 <= i < media_contents(*p).segments.len() && media_contents(*p).inserted.contains_key(
                i,
            ) ==> holds_range(r@, #[trigger] media_contents(*p).inserted[i]),
{
    p.to_string()
}

/// The media playlist that a text holds, but for the order in which segments
/// list their keys.
pub open spec fn spec_read_media(text: Seq<char>) -> Option<MediaView> {
    if readable(text) {
        media_of(text)
    } else {
        None
    }
}

/// Whether `m` is the media playlist that a text holds. Only where the text
/// has key formats is there more than one order of the keys.
pub open spec fn is_read_from(m: MediaView, text: Seq<char>) -> bool {
    &&& spec_read_media(text) == Some(m.with_key_order(seq![]))
    &&& m.source == text
    &&& m.inserted == no_ranges()
    &&& !has_part(text, "KEYFORMAT"@) ==> m.key_order.len() == 0
}

pub fn read_media(text: &str) -> (r: Option<hls_m3u8::MediaPlaylist<'static>>)
    ensures
        match r {
            Some(p) => is_read_from(media_contents(p), text@),
            None => spec_read_media(text@) is None,
        },
{
    if is_readable(text) {
        parse_media(text)
    } else {
        None
    }
}

/// A stream of a master playlist.
#[derive(Debug)]
pub enum Variant {
    /// The URI of a media playlist.
    Stream(String),
    /// The URI of a playlist of I-frames.
    IFrame(String),
}

pub enum VariantView {
    Stream(Seq<char>),
    IFrame(Seq<char>),
}

impl View for Variant {
    type V = VariantView;

    open spec fn view(&self) -> VariantView {
        match self {
            Variant::Stream(uri) => VariantView::Stream(uri@),
            Variant::IFrame(uri) => VariantView::IFrame(uri@),
        }
    }
}

pub open spec fn variant_views(v: Seq<Variant>) -> Seq<VariantView> {
    v.map_values(|s: Variant| s@)
}

/// What a master playlist holds: the text that it was read from, whether the
/// attributes of its streams have no line ends, and its streams.
#[verifier::ext_equal]
pub struct MasterView {
    pub source: Seq<char>,
    pub is_tidy: bool,
    pub variants: Seq<VariantView>,
}

/// The master playlist of `hls_m3u8`.
#[verifier::external_type_specification]
#[verifier::external_body]
pub struct ExMasterPlaylist<'a>(hls_m3u8::MasterPlaylist<'a>);

/// What a master playlist holds.
pub uninterp spec fn master_contents(playlist: hls_m3u8::MasterPlaylist<'static>) -> MasterView;

/// The master playlist that `hls_m3u8` reads from a text; `None` where it
/// rejects the text.
pub uninterp spec fn master_of(text: Seq<char>) -> Option<MasterView>;

/// The text that `hls_m3u8` prints for a master playlist.
pub uninterp spec fn master_text(contents: MasterView) -> Seq<char>;

/// `MasterPlaylist::try_from` on a text. It is read line by line, so nothing
/// that is read has line ends.
#[verifier::external_body]
fn parse_master(text: &str) -> (r: Option<hls_m3u8::MasterPlaylist<'static>>)
    requires
        readable(text@),
    ensures
        match r {
            Some(p) => {
                &&& master_of(text@) == Some(master_contents(p))
                &&& master_contents(p).source == text@
                &&& master_contents(p).is_tidy
            },
            None => master_of(text@) is None,
        },
{
    hls_m3u8::MasterPlaylist::try_from(text).ok().map(|p| p.into_owned())
}

/// The `variant_streams` of a master playlist, in order.
#[verifier::external_body]
pub(crate) fn variants(p: &hls_m3u8::MasterPlaylist<'static>) -> (r: Vec<Variant>)
    ensures
        variant_views(r@) == master_contents(*p).variants,
{
    p.variant_streams.iter().map(|v| match v {
        hls_m3u8::tags::VariantStream::ExtXStreamInf { uri, .. } => Variant::Stream(uri.to_string()),
        hls_m3u8::tags::VariantStream::ExtXIFrame { uri, .. } => Variant::IFrame(uri.to_string()),
    }).collect()
}

/// The URI of the stream at `index` is replaced.
#[verifier::external_body]
pub(crate) fn set_stream_uri(
    p: &mut hls_m3u8::MasterPlaylist<'static>,
    index: usize,
    new_uri: String,
)
    requires
        index < master_contents(*old(p)).variants.len(),
        master_contents(*old(p)).variants[index as int] is Stream,
    ensures
        master_contents(*final(p)) == (MasterView {
            variants: master_contents(*old(p)).variants.update(
                index as int,
                VariantView::Stream(new_uri@),
            ),
            ..master_contents(*old(p))
        }),
{
    match &mut p.variant_streams[index] {
        hls_m3u8::tags::VariantStream::ExtXStreamInf { uri, .. } => *uri = new_uri.into(),
        hls_m3u8::tags::VariantStream::ExtXIFrame { .. } => {},
    }
}

/// The line of a stream's attributes, and the line of its URI behind it.
pub open spec fn stream_lines(attributes: Seq<char>, uri: Seq<char>) -> Seq<char> {
    "\n#EXT-X-STREAM-INF:"@ + attributes + "\n"@ + uri + "\n"@
}

/// Whether a text holds the lines of a stream.
pub open spec fn holds_stream(text: Seq<char>, uri: Seq<char>) -> bool {
    exists|attributes: Seq<char>|
        !attributes.contains('\n') && has_part(text, #[trigger] stream_lines(attributes, uri))
}

/// Whether a text holds the lines of every stream of a master playlist.
pub open spec fn holds_streams(text: Seq<char>, m: MasterView) -> bool {
    forall|i: int|
        0 <= i < m.variants.len() ==> (#[trigger] m.variants[i] matches VariantView::Stream(uri)
            ==> holds_stream(text, uri))
}

/// `MasterPlaylist::to_string`. The URI of a stream is printed on the line
/// after that of its attributes.
#[verifier::external_body]
pub(crate) fn print_master(p: &hls_m3u8::MasterPlaylist<'static>) -> (r: String)
    ensures
        r@ == master_text(master_contents(*p)),
        master_contents(*p).is_tidy ==> holds_streams(r@, master_contents(*p)),
{
    p.to_string()
}

/// The master playlist that a text holds.
pub open spec fn spec_read_master(text: Seq<char>) -> Option<MasterView> {
    if readable(text) {
        master_of(text)
    } else {
        None
    }
}

pub fn read_master(text: &str) -> (r: Option<hls_m3u8::MasterPlaylist<'static>>)
    ensures
        match r {
            Some(p) => {
                &&& spec_read_master(text@) == Some(master_contents(p))
                &&& master_contents(p).source == text@
                &&& master_contents(p).is_tidy
            },
            None => spec_read_master(text@) is None,
        },
{
    if is_readable(text) {
        parse_master(text)
    } else {
        None
    }
}

/// The longest segment, in seconds, that keeps its length where it is counted
/// in floating point numbers.
pub const LONGEST_SEGMENT: u64 = 9_007_199_254_740_992;

/// The media playlist of one segment, a whole number of seconds long.
pub open spec fn single_segment_playlist(duration: nat, uri: Seq<char>) -> Seq<char> {
    "#EXTM3U\n#EXT-X-TARGETDURATION:"@ + decimal(duration) + "\n#EXTINF:"@ + decimal(duration)
        + ",\n"@ + uri + "\n#EXT-X-ENDLIST\n"@
}

/// `MediaSegment::builder` and `MediaPlaylist::builder`, for a playlist that
/// starts at media sequence number 0, has one segment and then ends; and
/// `to_string` on it.
#[verifier::external_body]
pub(crate) fn build_single_segment(duration: u64, uri: &str) -> (r: String)
    requires
        duration <= LONGEST_SEGMENT,
    ensures
        r@ == single_segment_playlist(duration as nat, uri@),
{
    let length = std::time::Duration::from_secs(duration);
    let segment = hls_m3u8::MediaSegment::builder().duration(length).uri(uri.to_string()).build();
    hls_m3u8::MediaPlaylist::builder()
        .media_sequence(0)
        .target_duration(length)
        .segments(vec![segment.unwrap()])
        .has_end_list(true)
        .build()
        .unwrap()
        .to_string()
}

} // verus!
