//! The origin: which streams are proxied, and where requests are forwarded to.

use vstd::prelude::*;

use crate::config::{choose_interstitials_address, interstitials_base, CliArguments};
use crate::hls::option_text;
use crate::text::same_text;
use crate::web::{check_room_for_path, has_room_for_path, join_url, joined_url, parse_url,
    replace_query, set_path, url_of, url_with_path, with_query};

verus! {

/// The master playlist of the one stream that is proxied.
#[derive(Clone, Debug, PartialEq, Eq)]
pub struct MasterAddress {
    pub url: String,
    pub path: String,
}

/// Where the streams come from: a host, and the master playlist where it is
/// only one stream.
#[derive(Clone, Debug, PartialEq, Eq)]
pub struct Origin {
    pub forward_url: String,
    pub master: Option<MasterAddress>,
}

#[verifier::ext_equal]
pub struct OriginView {
    pub forward_url: Seq<char>,
    /// The URL and the path of the master playlist.
    pub master: Option<(Seq<char>, Seq<char>)>,
}

impl View for Origin {
    type V = OriginView;

    open spec fn view(&self) -> OriginView {
        OriginView {
            forward_url: self.forward_url@,
            master: match self.master {
                Some(m) => Some((m.url@, m.path@)),
                None => None,
            },
        }
    }
}

pub open spec fn option_origin(o: Option<Origin>) -> Option<OriginView> {
    match o {
        Some(origin) => Some(origin@),
        None => None,
    }
}

/// The URL that a text holds, in normal form.
pub open spec fn normal_url(text: Seq<char>) -> Option<Seq<char>> {
    match url_of(text) {
        Some(url) => Some(url.text),
        None => None,
    }
}

fn normalize(text: &str) -> (r: Option<String>)
    ensures
        option_text(r) == normal_url(text@),
{
    match parse_url(text) {
        Some(url) => Some(url.text),
        None => None,
    }
}

/// The host of a URL: what `/` names there.
pub open spec fn base_of(url: Seq<char>) -> Option<Seq<char>> {
    joined_url(url, "/"@)
}

/// The scheme, host and port of a URL, with an empty path.
pub fn base_url(url: &str) -> (r: Option<String>)
    ensures
        option_text(r) == base_of(url@),
{
    join_url(url, "/")
}

/// The origin that the arguments name. Where a host is given, any of its
/// streams is proxied; else the one with the given master playlist. There is
/// none where what is needed is missing or no URL.
pub open spec fn named_origin(args: CliArguments) -> Option<OriginView> {
    match args.origin_host {
        Some(host) => match normal_url(host@) {
            Some(forward_url) => Some(OriginView { forward_url, master: None }),
            None => None,
        },
        None => match args.master_playlist_url {
            Some(master) => match url_of(master@) {
                Some(url) => match base_of(url.text) {
                    Some(forward_url) => Some(
                        OriginView { forward_url, master: Some((url.text, url.path)) },
                    ),
                    None => None,
                },
                None => None,
            },
            None => None,
        },
    }
}

pub fn choose_origin(args: &CliArguments) -> (r: Option<Origin>)
    ensures
        option_origin(r) == named_origin(*args),
{
    if let Some(host) = &args.origin_host {
        return match normalize(host.as_str()) {
            Some(forward_url) => Some(Origin { forward_url, master: None }),
            None => None,
        };
    }
    let master = match &args.master_playlist_url {
        Some(master) => master,
        None => return None,
    };
    match parse_url(master.as_str()) {
        Some(url) => match base_url(url.text.as_str()) {
            Some(forward_url) => Some(
                Origin {
                    forward_url,
                    master: Some(MasterAddress { url: url.text, path: url.path }),
                },
            ),
            None => None,
        },
        None => None,
    }
}

/// The URL of the ad server that the arguments name. Where a test asset is
/// served, no ad server is needed, and its place is held by one that nobody
/// asks.
pub open spec fn ad_server_address(args: CliArguments) -> Option<Seq<char>> {
    match args.ad_server_endpoint {
        Some(endpoint) => normal_url(endpoint@),
        None => normal_url("http://localhost/no-vast"@),
    }
}

pub fn choose_ad_server(args: &CliArguments) -> (r: Option<String>)
    ensures
        option_text(r) == ad_server_address(*args),
{
    match &args.ad_server_endpoint {
        Some(endpoint) => normalize(endpoint.as_str()),
        None => normalize("http://localhost/no-vast"),
    }
}

/// The base address of the interstitials as a URL in normal form.
pub fn choose_interstitials_url(args: &CliArguments) -> (r: Option<String>)
    ensures
        option_text(r) == normal_url(interstitials_base(*args)),
{
    normalize(choose_interstitials_address(args).as_str())
}

/// Where a request for `path` with `query` is forwarded to. There is nowhere
/// where the host is no URL or a text is too long to be counted.
pub open spec fn forwarded(
    forward_url: Seq<char>,
    path: Seq<char>,
    query: Option<Seq<char>>,
) -> Option<Seq<char>> {
    match url_of(forward_url) {
        Some(parts) => if has_room_for_path(parts.text, path) {
            with_query(url_with_path(forward_url, path)->0, query)
        } else {
            None
        },
        None => None,
    }
}

pub fn build_forward_url(forward_url: &str, path: &str, query: &Option<String>) -> (r: Option<
    String,
>)
    ensures
        option_text(r) == forwarded(forward_url@, path@, option_text(*query)),
{
    let parts = match parse_url(forward_url) {
        Some(parts) => parts,
        None => return None,
    };
    if !check_room_for_path(parts.text.as_str(), path) {
        return None;
    }
    match set_path(forward_url, path) {
        Some(url) => replace_query(url.as_str(), query),
        None => None,
    }
}

/// Whether a header of the origin's answer, its name in lower case, is passed
/// on: all are but the one about the connection itself.
pub fn is_passed_on(name: &str) -> (r: bool)
    ensures
        r == (name@ != "connection"@),
{
    !same_text(name, "connection")
}

} // verus!
