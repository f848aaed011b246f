use youtube_subscriptions::codec::encode_videos;
use youtube_subscriptions::entry::{Video, Videos};

fn video(channel: &str, title: &str, url: &str, published: &str) -> Video {
    Video {
        channel: channel.to_string(),
        title: title.to_string(),
        thumbnail: format!("{}/thumb.jpg", url),
        url: url.to_string(),
        published: published.to_string(),
        description: format!("about {}", title),
    }
}

fn field<'a>(entry: &'a serde_json::Value, name: &str) -> &'a str {
    entry.get(name).and_then(|f| f.as_str()).expect(name)
}

#[test]
fn encoded_catalog_parses_back_to_the_same_records() {
    let videos = Videos {
        videos: vec![
            video("chan one", "plain title", "https://host/v/abc", "2021-01-01T00:00:00"),
            video(
                "with \"quotes\" and \\slashes\\",
                "line\nbreak\tand tab",
                "https://host/v/def?x=1",
                "2021-01-02T00:00:00",
            ),
        ],
    };
    let text = encode_videos(&videos);
    let parsed: serde_json::Value = serde_json::from_str(&text).expect("valid JSON");
    let entries = parsed
        .get("videos")
        .and_then(|v| v.as_array())
        .expect("videos array");
    assert_eq!(entries.len(), videos.videos.len());
    for (entry, original) in entries.iter().zip(videos.videos.iter()) {
        assert_eq!(field(entry, "channel"), original.channel);
        assert_eq!(field(entry, "title"), original.title);
        assert_eq!(field(entry, "thumbnail"), original.thumbnail);
        assert_eq!(field(entry, "url"), original.url);
        assert_eq!(field(entry, "published"), original.published);
        assert_eq!(field(entry, "description"), original.description);
    }
}

#[test]
fn empty_catalog_encodes_to_the_bare_document() {
    let videos = Videos { videos: Vec::new() };
    assert_eq!(encode_videos(&videos), "{\"videos\":[]}");
}

#[test]
fn exact_document_for_one_entry() {
    let videos = Videos {
        videos: vec![Video {
            channel: "c".to_string(),
            title: "t".to_string(),
            thumbnail: "th".to_string(),
            url: "u".to_string(),
            published: "p".to_string(),
            description: "d".to_string(),
        }],
    };
    assert_eq!(
        encode_videos(&videos),
        "{\"videos\":[{\"channel\":\"c\",\"title\":\"t\",\"thumbnail\":\"th\",\"url\":\"u\",\"published\":\"p\",\"description\":\"d\"}]}"
    );
}

#[test]
fn decode_undoes_encode() {
    let videos = Videos {
        videos: vec![
            video("a \"quoted\" channel", "tab\there", "https://h/v/x?a=b", "2021-05-06T01:02:03"),
            video("plain", "title", "https://h/v/y", "2021-05-07T01:02:03"),
        ],
    };
    let decoded = youtube_subscriptions::codec::decode_videos(&encode_videos(&videos))
        .expect("round trip");
    assert_eq!(decoded.videos, videos.videos);
}

#[test]
fn decode_rejects_malformed_documents() {
    assert!(youtube_subscriptions::codec::decode_videos("").is_none());
    assert!(youtube_subscriptions::codec::decode_videos("{\"videos\":[").is_none());
    assert!(youtube_subscriptions::codec::decode_videos("{\"videos\":[{}]}").is_none());
    assert!(youtube_subscriptions::codec::decode_videos("not json").is_none());
}

#[test]
fn decode_rejects_escapes_the_encoder_never_writes() {
    // \u0041 is valid JSON but never produced by the encoder: the decoder
    // must refuse it rather than guess, so a reader falls back to a refetch
    let doc = "{\"videos\":[{\"channel\":\"\\u0041\",\"title\":\"t\",\"thumbnail\":\"th\",\"url\":\"u\",\"published\":\"p\",\"description\":\"d\"}]}";
    assert!(youtube_subscriptions::codec::decode_videos(doc).is_none());
}
