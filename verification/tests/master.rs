use ad_proxy::hls::{read_master, read_media};
use ad_proxy::master::{
    anchor_variants, handle_master_playlist, replace_absolute_url_with_relative_url, PlaylistReply,
};

const MASTER: &str = "#EXTM3U\n\
    #EXT-X-STREAM-INF:BANDWIDTH=100\n\
    https://cdn.example:8080/a/v0.m3u8?x=1\n\
    #EXT-X-STREAM-INF:BANDWIDTH=200\n\
    v1/media.m3u8\n\
    #EXT-X-I-FRAME-STREAM-INF:BANDWIDTH=50,URI=\"https://cdn.example/i.m3u8\"\n";

fn changed(reply: PlaylistReply) -> String {
    match reply {
        PlaylistReply::Changed(text) => text,
        other => panic!("{other:?}"),
    }
}

#[test]
fn absolute_urls_lose_scheme_and_host() {
    let mut master = read_master(MASTER).unwrap();
    replace_absolute_url_with_relative_url(&mut master);
    let text = master.to_string();
    assert!(text.contains("\n/a/v0.m3u8?x=1\n"), "{text}");
    assert!(text.contains("\nv1/media.m3u8\n"), "{text}");
    assert!(text.contains("URI=\"https://cdn.example/i.m3u8\""), "{text}");
}

#[test]
fn relative_uris_start_from_the_root() {
    let text = changed(handle_master_playlist(MASTER, "/loop/master.m3u8"));
    assert!(text.contains("\n/a/v0.m3u8?x=1\n"), "{text}");
    assert!(text.contains("\n/loop/v1/media.m3u8\n"), "{text}");
    let at_root = changed(handle_master_playlist(MASTER, "/master.m3u8"));
    assert!(at_root.contains("\nv1/media.m3u8\n"), "{at_root}");
    let no_slash = changed(handle_master_playlist(MASTER, "master.m3u8"));
    assert_eq!(at_root, no_slash);
}

#[test]
fn only_uris_of_streams_are_anchored() {
    let text = "#EXTM3U\nx\n#EXT-X-STREAM-INF:A\nv\n#EXT-X-STREAM-INF:A\n/v\n\
        #EXT-X-STREAM-INF:A\n#c\nw\n#EXT-X-STREAM-INF:A\nhttp://h/v";
    assert_eq!(
        anchor_variants(text, "/a/b/c"),
        "#EXTM3U\nx\n#EXT-X-STREAM-INF:A\n/a/b/v\n#EXT-X-STREAM-INF:A\n/v\n\
         #EXT-X-STREAM-INF:A\n#c\nw\n#EXT-X-STREAM-INF:A\nhttp://h/v\n"
    );
    assert_eq!(anchor_variants(text, "/c"), text);
}

#[test]
fn other_texts_are_left_alone() {
    for text in ["", "no playlist", "#EXTM3U\n#EXT-X-TARGETDURATION:4\n#EXTINF:4,\na.ts\n"] {
        assert!(matches!(handle_master_playlist(text, "/a/m.m3u8"), PlaylistReply::Unchanged));
    }
}

#[test]
fn a_broken_url_is_noticed() {
    let text = "#EXTM3U\n#EXT-X-STREAM-INF:BANDWIDTH=100\nhttp://[\n";
    assert!(matches!(handle_master_playlist(text, "/a/m.m3u8"), PlaylistReply::Broken));
}

#[test]
fn texts_that_cannot_be_read_are_no_playlists() {
    let start = "#EXTM3U\n#EXT-X-TARGETDURATION:4\n";
    assert!(read_media(&format!("{start}#EXTINF:4,\na.ts\n")).is_some());
    assert!(read_media(&format!("{start}#EXTINF:3.96,a-b e\na.ts\n")).is_some());
    for line in [
        "#EXTINF:-4,",
        "#EXTINF:inf,",
        "#EXTINF:nan,",
        "#EXTINF:1e30,",
        "#EXTINF:99999999999999999999,",
        "#EXT-X-DATERANGE:ID=\"a\",DURATION=-1\n#EXTINF:4,",
        "#EXT-X-DATERANGE:ID=\"a\",PLANNED-DURATION=inf\n#EXTINF:4,",
        "#EXT-X-DATERANGE:ID=\"\n#EXTINF:4,",
        "#EXT-X-BYTERANGE:18446744073709551615@18446744073709551615\n#EXTINF:4,",
        "#EXT-X-MAP:URI=\"a\",BYTERANGE=\"18446744073709551615@1\"\n#EXTINF:4,",
        "#EXT-X-MEDIA-SEQUENCE:18446744073709551615\n#EXTINF:4,\nb.ts\n#EXTINF:4,",
    ] {
        assert!(read_media(&format!("{start}{line}\na.ts\n")).is_none(), "{line}");
    }
    for line in [
        "#EXT-X-DATERANGE:ID=\"a\",START-DATE=\"2024-01-01T00:00:00Z\",DURATION=1.5\n#EXTINF:4,",
        "#EXT-X-DATERANGE:ID=\"a\",START-DATE=\"2024-01-01T00:00:00Z\",X-URL=\"http://h/?x=\"\n#EXTINF:4,",
        "#EXT-X-BYTERANGE:10@20\n#EXTINF:4,",
        "#EXT-X-MEDIA-SEQUENCE:1844674407370955161\n#EXTINF:4,",
        "#EXT-X-MEDIA-SEQUENCE:18446744073709551615\n#EXTINF:4,",
    ] {
        assert!(read_media(&format!("{start}{line}\na.ts\n")).is_some(), "{line}");
    }
}

#[test]
fn the_address_of_a_stream_may_look_like_a_tag() {
    let stream = "#EXTM3U\n#EXT-X-STREAM-INF:BANDWIDTH=1\n\n#EXTINF:-1\n";
    let playlist = ad_proxy::hls::read_master(stream).unwrap();
    assert_eq!(playlist.variant_streams.len(), 1);
    let quoted = "#EXTM3U\n#EXT-X-STREAM-INF:BANDWIDTH=1,CODECS=\"\nv.m3u8\n";
    assert!(ad_proxy::hls::read_master(quoted).is_none());
    let ignored = "#EXTM3U\n#EXT-X-STREAM-INF:BANDWIDTH=1,NAME=\"\nv.m3u8\n";
    assert!(ad_proxy::hls::read_master(ignored).is_some());
}

#[test]
fn replacing_urls_again_changes_nothing() {
    let text = "#EXTM3U\n#EXT-X-STREAM-INF:BANDWIDTH=1\nhttps://h:1/v/m.m3u8?a=1\n\
        #EXT-X-STREAM-INF:BANDWIDTH=2\nv.m3u8\n";
    let mut playlist = ad_proxy::hls::read_master(text).unwrap();
    ad_proxy::master::replace_absolute_url_with_relative_url(&mut playlist);
    let once = playlist.to_string();
    assert!(once.contains("BANDWIDTH=1\n/v/m.m3u8?a=1\n"), "{once}");
    ad_proxy::master::replace_absolute_url_with_relative_url(&mut playlist);
    assert_eq!(playlist.to_string(), once);
}
