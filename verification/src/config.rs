//! Settings of the proxy: the command line, the server's configuration, and
//! the skip control of interstitials.

use vstd::prelude::*;

use crate::hls::option_text;
use crate::json_value::{insert, null, number, object, string, tree, Tree};
use crate::slots::LONGEST_SCHEDULE;
use crate::text::{join_texts, decimal, decimal_string, parse_u64, parsed_u64, to_chars};

verus! {

/// When ads are put into a stream.
#[derive(Clone, Copy, Debug, PartialEq, Eq, Structural)]
pub enum InsertionMode {
    /// At fixed intervals.
    Static,
    /// When they are asked for.
    Dynamic,
}

impl InsertionMode {
    pub open spec fn name(self) -> Seq<char> {
        match self {
            InsertionMode::Static => "static"@,
            InsertionMode::Dynamic => "dynamic"@,
        }
    }

    pub fn to_str(&self) -> (r: &str)
        ensures
            r@ == self.name(),
    {
        match self {
            InsertionMode::Static => "static",
            InsertionMode::Dynamic => "dynamic",
        }
    }
}

/// An asset that stands in for every ad.
#[derive(Clone, Debug)]
pub struct TestAsset {
    pub url: String,
    pub duration: u64,
}

impl TestAsset {
    pub fn new(url: String, duration: u64) -> (r: TestAsset)
        ensures
            r.url == url,
            r.duration == duration,
    {
        TestAsset { url, duration }
    }

    pub open spec fn json(self) -> Tree {
        Tree::Object(
            seq![("url"@, Tree::Text(self.url@)), ("duration"@, Tree::Number(self.duration as nat))],
        )
    }

    pub fn to_json(&self) -> (r: json::JsonValue)
        ensures
            tree(r) == self.json(),
    {
        proof {
            reveal_strlit("url");
            reveal_strlit("duration");
            assert("url"@.len() == 3);
            assert("duration"@.len() == 8);
        }
        let mut r = object();
        insert(&mut r, "url", string(self.url.as_str()));
        insert(&mut r, "duration", number(self.duration));
        assert(tree(r)->Object_0 =~= self.json()->Object_0);
        r
    }
}

/// The configuration that every request is served with.
#[derive(Clone, Debug)]
pub struct ServerConfig {
    /// The origin that requests are forwarded to.
    pub forward_url: String,
    /// The address at which players find the interstitials.
    pub interstitials_address: String,
    /// The path of the one master playlist that is served; `None` where any
    /// stream of the origin is.
    pub master_playlist_path: Option<String>,
    pub insertion_mode: InsertionMode,
    /// The length of an ad break, in seconds.
    pub target_ad_duration: u64,
    /// The time from one ad break to the next, in seconds.
    pub target_repeating_cycle: u64,
    /// How many ad breaks there are in static mode.
    pub target_ad_number: u64,
    pub test_asset: Option<TestAsset>,
    pub skip_control_offset: Option<u64>,
    pub skip_control_duration: Option<u64>,
    pub skip_control_label_id: Option<String>,
}

pub open spec fn optional_number(n: Option<u64>) -> Tree {
    match n {
        Some(n) => Tree::Number(n as nat),
        None => Tree::Null,
    }
}

pub open spec fn optional_string(s: Option<String>) -> Tree {
    match s {
        Some(s) => Tree::Text(s@),
        None => Tree::Null,
    }
}

fn number_or_null(n: Option<u64>) -> (r: json::JsonValue)
    ensures
        tree(r) == optional_number(n),
{
    match n {
        Some(n) => number(n),
        None => null(),
    }
}

fn string_or_null(s: &Option<String>) -> (r: json::JsonValue)
    ensures
        tree(r) == optional_string(*s),
{
    match s {
        Some(s) => string(s.as_str()),
        None => null(),
    }
}

impl ServerConfig {
    pub fn new(
        forward_url: String,
        interstitials_address: String,
        master_playlist_path: Option<String>,
        insertion_mode: InsertionMode,
        target_ad_duration: u64,
        target_repeating_cycle: u64,
        target_ad_number: u64,
        test_asset: Option<TestAsset>,
        skip_control_offset: Option<u64>,
        skip_control_duration: Option<u64>,
        skip_control_label_id: Option<String>,
    ) -> (r: ServerConfig)
        ensures
            r == (ServerConfig {
                forward_url,
                interstitials_address,
                master_playlist_path,
                insertion_mode,
                target_ad_duration,
                target_repeating_cycle,
                target_ad_number,
                test_asset,
                skip_control_offset,
                skip_control_duration,
                skip_control_label_id,
            }),
    {
        ServerConfig {
            forward_url,
            interstitials_address,
            master_playlist_path,
            insertion_mode,
            target_ad_duration,
            target_repeating_cycle,
            target_ad_number,
            test_asset,
            skip_control_offset,
            skip_control_duration,
            skip_control_label_id,
        }
    }

    /// Whether the fixed breaks lie no further ahead than time can be reckoned.
    pub open spec fn can_schedule(self) -> bool {
        self.insertion_mode == InsertionMode::Static ==> self.target_ad_number
            * self.target_repeating_cycle <= LONGEST_SCHEDULE
    }

    pub fn is_schedulable(&self) -> (r: bool)
        ensures
            r == self.can_schedule(),
    {
        match self.insertion_mode {
            InsertionMode::Static => {
                assert(self.target_ad_number * self.target_repeating_cycle <= u64::MAX * u64::MAX)
                    by (nonlinear_arith)
                    requires
                        self.target_ad_number <= u64::MAX,
                        self.target_repeating_cycle <= u64::MAX,
                ;
                self.target_ad_number as u128 * self.target_repeating_cycle as u128
                    <= LONGEST_SCHEDULE as u128
            },
            InsertionMode::Dynamic => true,
        }
    }

    pub open spec fn json(self) -> Tree {
        Tree::Object(
            seq![
                ("forward_url"@, Tree::Text(self.forward_url@)),
                ("interstitials_address"@, Tree::Text(self.interstitials_address@)),
                (
                    "master_playlist_path"@,
                    Tree::Text(
                        match self.master_playlist_path {
                            Some(path) => path@,
                            None => seq![],
                        },
                    ),
                ),
                ("insertion_mode"@, Tree::Text(self.insertion_mode.name())),
                ("target_ad_duration"@, Tree::Number(self.target_ad_duration as nat)),
                ("target_repeating_cycle"@, Tree::Number(self.target_repeating_cycle as nat)),
                ("target_ad_number"@, Tree::Number(self.target_ad_number as nat)),
                (
                    "test_asset"@,
                    match self.test_asset {
                        Some(asset) => asset.json(),
                        None => Tree::Object(seq![]),
                    },
                ),
                ("skip_control_offset"@, optional_number(self.skip_control_offset)),
                ("skip_control_duration"@, optional_number(self.skip_control_duration)),
                ("skip_control_label_id"@, optional_string(self.skip_control_label_id)),
            ],
        )
    }

    pub fn to_json(&self) -> (r: json::JsonValue)
        ensures
            tree(r) == self.json(),
    {
        proof {
            reveal_strlit("forward_url");
            reveal_strlit("interstitials_address");
            reveal_strlit("master_playlist_path");
            reveal_strlit("insertion_mode");
            reveal_strlit("target_ad_duration");
            reveal_strlit("target_repeating_cycle");
            reveal_strlit("target_ad_number");
            reveal_strlit("test_asset");
            reveal_strlit("skip_control_offset");
            reveal_strlit("skip_control_duration");
            reveal_strlit("skip_control_label_id");
            assert("forward_url"@.len() == 11);
            assert("interstitials_address"@.len() == 21);
            assert("master_playlist_path"@.len() == 20);
            assert("insertion_mode"@.len() == 14);
            assert("target_ad_duration"@.len() == 18);
            assert("target_repeating_cycle"@.len() == 22);
            assert("target_ad_number"@.len() == 16);
            assert("test_asset"@.len() == 10);
            assert("skip_control_offset"@.len() == 19);
            assert("skip_control_duration"@.len() == 21);
            assert("skip_control_label_id"@.len() == 21);
            // The keys of the same length differ in a character.
            assert("interstitials_address"@[0] != "skip_control_duration"@[0]);
            assert("interstitials_address"@[0] != "skip_control_label_id"@[0]);
            assert("skip_control_duration"@[13] != "skip_control_label_id"@[13]);
        }
        let path = match &self.master_playlist_path {
            Some(path) => string(path.as_str()),
            None => string(""),
        };
        let asset = match &self.test_asset {
            Some(asset) => asset.to_json(),
            None => object(),
        };
        proof {
            reveal_strlit("");
            assert(""@ =~= Seq::<char>::empty());
        }
        let mut r = object();
        insert(&mut r, "forward_url", string(self.forward_url.as_str()));
        insert(&mut r, "interstitials_address", string(self.interstitials_address.as_str()));
        insert(&mut r, "master_playlist_path", path);
        insert(&mut r, "insertion_mode", string(self.insertion_mode.to_str()));
        insert(&mut r, "target_ad_duration", number(self.target_ad_duration));
        insert(&mut r, "target_repeating_cycle", number(self.target_repeating_cycle));
        insert(&mut r, "target_ad_number", number(self.target_ad_number));
        insert(&mut r, "test_asset", asset);
        insert(&mut r, "skip_control_offset", number_or_null(self.skip_control_offset));
        insert(&mut r, "skip_control_duration", number_or_null(self.skip_control_duration));
        insert(&mut r, "skip_control_label_id", string_or_null(&self.skip_control_label_id));
        assert(tree(r)->Object_0 =~= self.json()->Object_0);
        r
    }
}

/// The arguments of the command line. An empty text stands for an argument
/// that was not given.
#[derive(Clone, Debug)]
pub struct CliArguments {
    pub listen_addr: String,
    pub listen_port: u16,
    pub ad_server_endpoint: Option<String>,
    pub master_playlist_url: Option<String>,
    pub origin_host: Option<String>,
    pub ad_insertion_mode: InsertionMode,
    pub interstitials_address: String,
    pub default_ad_duration: String,
    pub default_repeating_cycle: String,
    pub default_ad_number: String,
    pub test_asset_url: String,
    pub skip_control_offset: String,
    pub skip_control_duration: String,
    pub skip_control_label_id: String,
}

/// The number that a text holds, or `default`.
pub open spec fn number_or(text: Seq<char>, default: u64) -> u64 {
    match parsed_u64(text) {
        Some(n) => n,
        None => default,
    }
}

pub fn parse_into_u64(value: &str, default: u64) -> (r: u64)
    ensures
        r == number_or(value@, default),
{
    match parse_u64(value) {
        Some(n) => n,
        None => default,
    }
}

/// The length of an ad break, the time between two, and their number: 10
/// seconds, 30 seconds and 1000 where the arguments hold no number.
pub fn parse_default_values(args: &CliArguments) -> (r: (u64, u64, u64))
    ensures
        r.0 == number_or(args.default_ad_duration@, 10),
        r.1 == number_or(args.default_repeating_cycle@, 30),
        r.2 == number_or(args.default_ad_number@, 1000),
{
    (
        parse_into_u64(args.default_ad_duration.as_str(), 10),
        parse_into_u64(args.default_repeating_cycle.as_str(), 30),
        parse_into_u64(args.default_ad_number.as_str(), 1000),
    )
}

pub open spec fn is_label_char(c: char) -> bool {
    'a' <= c <= 'z' || 'A' <= c <= 'Z' || c == '-' || c == '_'
}

/// A label is not empty, and made of ASCII letters, hyphens and underscores.
pub open spec fn valid_label(s: Seq<char>) -> bool {
    s.len() > 0 && forall|i: int| 0 <= i < s.len() ==> is_label_char(#[trigger] s[i])
}

pub fn is_valid_label_id(s: &str) -> (r: bool)
    ensures
        r == valid_label(s@),
{
    let chars = to_chars(s);
    if chars.len() == 0 {
        return false;
    }
    for i in 0..chars.len()
        invariant
            chars@ == s@,
            forall|k: int| 0 <= k < i ==> is_label_char(#[trigger] s@[k]),
    {
        let c = chars[i];
        if !(('a' <= c && c <= 'z') || ('A' <= c && c <= 'Z') || c == '-' || c == '_') {
            assert(!is_label_char(s@[i as int]));
            return false;
        }
    }
    true
}

/// Seconds after the start of an interstitial at which the skip button
/// appears, as configured: nothing where the argument is not a number.
pub open spec fn configured_skip_offset(argument: Seq<char>) -> Option<u64> {
    parsed_u64(argument)
}

/// How long the skip button stays, as configured: a number, at least 1.
pub open spec fn configured_skip_duration(argument: Seq<char>) -> Option<u64> {
    match parsed_u64(argument) {
        Some(n) => if n >= 1 {
            Some(n)
        } else {
            None
        },
        None => None,
    }
}

/// The label of the skip button, as configured: a valid label.
pub open spec fn configured_label(argument: Seq<char>) -> Option<Seq<char>> {
    if valid_label(argument) {
        Some(argument)
    } else {
        None
    }
}

/// The skip control that the arguments ask for.
pub fn parse_skip_control(args: &CliArguments) -> (r: (Option<u64>, Option<u64>, Option<String>))
    ensures
        r.0 == configured_skip_offset(args.skip_control_offset@),
        r.1 == configured_skip_duration(args.skip_control_duration@),
        option_text(r.2) == configured_label(args.skip_control_label_id@),
{
    let offset = parse_u64(args.skip_control_offset.as_str());
    let duration = match parse_u64(args.skip_control_duration.as_str()) {
        Some(n) => if n >= 1 {
            Some(n)
        } else {
            None
        },
        None => None,
    };
    let label = if is_valid_label_id(args.skip_control_label_id.as_str()) {
        Some(args.skip_control_label_id.clone())
    } else {
        None
    };
    (offset, duration, label)
}

/// The base address of the interstitials: the one that was given, or this
/// machine and the port that is listened on.
pub open spec fn interstitials_base(args: CliArguments) -> Seq<char> {
    if args.interstitials_address@.len() == 0 {
        "http://localhost:"@ + decimal(args.listen_port as nat)
    } else {
        args.interstitials_address@
    }
}

pub fn choose_interstitials_address(args: &CliArguments) -> (r: String)
    ensures
        r@ == interstitials_base(*args),
{
    if args.interstitials_address.as_str().is_empty() {
        join_texts("http://localhost:", decimal_string(args.listen_port as u64).as_str())
    } else {
        args.interstitials_address.clone()
    }
}

/// The configuration that the arguments describe, for a given origin. A test
/// asset sets the length of every ad break.
pub fn configure(
    args: &CliArguments,
    forward_url: String,
    interstitials_address: String,
    master_playlist_path: Option<String>,
    test_asset: Option<TestAsset>,
) -> (r: ServerConfig)
    ensures
        r.forward_url == forward_url,
        r.interstitials_address == interstitials_address,
        r.master_playlist_path == master_playlist_path,
        r.insertion_mode == args.ad_insertion_mode,
        r.target_ad_duration == (match test_asset {
            Some(asset) => asset.duration,
            None => number_or(args.default_ad_duration@, 10),
        }),
        r.target_repeating_cycle == number_or(args.default_repeating_cycle@, 30),
        r.target_ad_number == number_or(args.default_ad_number@, 1000),
        r.test_asset == test_asset,
        r.skip_control_offset == configured_skip_offset(args.skip_control_offset@),
        r.skip_control_duration == configured_skip_duration(args.skip_control_duration@),
        option_text(r.skip_control_label_id) == configured_label(args.skip_control_label_id@),
{
    let (ad_duration, repeating_cycle, ad_number) = parse_default_values(args);
    let (offset, duration, label) = parse_skip_control(args);
    let target_ad_duration = match &test_asset {
        Some(asset) => asset.duration,
        None => ad_duration,
    };
    ServerConfig::new(
        forward_url,
        interstitials_address,
        master_playlist_path,
        args.ad_insertion_mode,
        target_ad_duration,
        repeating_cycle,
        ad_number,
        test_asset,
        offset,
        duration,
        label,
    )
}

/// The skip control of one interstitial.
#[derive(Clone, Debug)]
pub struct SkipControlAttrs {
    /// Seconds after the start at which the skip button appears.
    pub offset: u64,
    /// Seconds that the button stays; `None` for the whole interstitial.
    pub duration: Option<u64>,
    /// The key of the button's label.
    pub label_id: Option<String>,
}

#[verifier::ext_equal]
pub struct SkipControlView {
    pub offset: u64,
    pub duration: Option<u64>,
    pub label_id: Option<Seq<char>>,
}

impl View for SkipControlAttrs {
    type V = SkipControlView;

    open spec fn view(&self) -> SkipControlView {
        SkipControlView {
            offset: self.offset,
            duration: self.duration,
            label_id: option_text(self.label_id),
        }
    }
}

pub open spec fn option_skip(o: Option<SkipControlAttrs>) -> Option<SkipControlView> {
    match o {
        Some(s) => Some(s@),
        None => None,
    }
}

/// The skip control of an interstitial that lasts `slot_duration` seconds: none
/// unless an offset is configured and the button would appear before the end.
/// A label that is not valid is left out.
pub open spec fn skip_control(cfg: ServerConfig, slot_duration: u64) -> Option<SkipControlView> {
    match cfg.skip_control_offset {
        Some(offset) => if offset < slot_duration {
            Some(
                SkipControlView {
                    offset,
                    duration: cfg.skip_control_duration,
                    label_id: match cfg.skip_control_label_id {
                        Some(label) => configured_label(label@),
                        None => None,
                    },
                },
            )
        } else {
            None
        },
        None => None,
    }
}

pub fn resolve_skip_control(cfg: &ServerConfig, slot_duration: u64) -> (r: Option<
    SkipControlAttrs,
>)
    ensures
        option_skip(r) == skip_control(*cfg, slot_duration),
{
    match cfg.skip_control_offset {
        Some(offset) => {
            if offset >= slot_duration {
                return None;
            }
            let label_id = match &cfg.skip_control_label_id {
                Some(id) => if is_valid_label_id(id.as_str()) {
                    Some(id.clone())
                } else {
                    None
                },
                None => None,
            };
            Some(SkipControlAttrs { offset, duration: cfg.skip_control_duration, label_id })
        },
        None => None,
    }
}

} // verus!
