# ad_proxy

A proxy for HLS streams that inserts interstitials (ad breaks) into live and
recorded playlists. The origin's playlists pass through it: master playlists are
anchored at the proxy, media playlists get a date range for every break, and
players then ask the proxy for the list of ads that fill the break.

## Layout

- `src/` is the library: what is decided and computed, with contracts that Verus
  proves.
  - `text`, `time`, `ids`, `web`, `json_value`, `hls`, `vast`: values, and the
    calls into the crates that parse and print them. What those crates do is
    stated at each call and not proved.
  - `numbers`, `readable`: the playlist texts that can be handed to the playlist
    parser.
  - `config`, `origin`: the command line, the insertion mode, the skip button,
    and where requests are forwarded to.
  - `slots`, `stores`: breaks, ads and query strings that are kept.
  - `timeline`, `interstitials`, `preload`, `announce`: where breaks are put in
    a media playlist, and how players are told of them.
  - `master`, `media`, `live_edge`: what is served for a playlist, and the
    present of a stream.
  - `commands`, `requests`, `ads`, `assets`, `status`, `mp4_info`: what is
    answered to a request.
- `tests/` runs the library with the crates that it calls.
- `app/` is the server: arguments, sockets, and the requests to the origin and
  to the ad server.
