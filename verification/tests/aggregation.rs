use youtube_subscriptions::entry::Video;
use youtube_subscriptions::fetch::{merge, parse_feed, subscription_urls};

fn video(title: &str) -> Video {
    Video {
        channel: "c".to_string(),
        title: title.to_string(),
        thumbnail: String::new(),
        url: String::new(),
        published: String::new(),
        description: String::new(),
    }
}

const FEED: &str = r#"<?xml version="1.0" encoding="UTF-8"?>
<feed xmlns:media="http://search.yahoo.com/mrss/" xmlns="http://www.w3.org/2005/Atom">
 <title>My Channel</title>
 <entry>
  <title>First video</title>
  <published>2021-01-01T00:00:00+00:00</published>
  <media:group>
   <media:content url="https://www.youtube.com/v/aaa111?version=3"/>
   <media:thumbnail url="https://i.ytimg.com/vi/aaa111/hq.jpg"/>
   <media:description>first description</media:description>
  </media:group>
 </entry>
 <entry>
  <title>Second video</title>
  <published>2021-01-02T00:00:00+00:00</published>
  <media:group>
   <media:content url="https://www.youtube.com/v/bbb222?version=3"/>
   <media:thumbnail url="https://i.ytimg.com/vi/bbb222/hq.jpg"/>
   <media:description>second description</media:description>
  </media:group>
 </entry>
</feed>"#;

#[test]
fn feed_entries_are_extracted() {
    let entries = parse_feed(FEED);
    assert_eq!(entries.len(), 2);
    assert_eq!(entries[0].channel, "My Channel");
    assert_eq!(entries[0].title, "First video");
    assert_eq!(entries[0].published, "2021-01-01T00:00:00+00:00");
    assert_eq!(entries[0].url, "https://www.youtube.com/v/aaa111?version=3");
    assert_eq!(entries[0].thumbnail, "https://i.ytimg.com/vi/aaa111/hq.jpg");
    assert_eq!(entries[0].description, "first description");
    assert_eq!(entries[1].title, "Second video");
    assert_eq!(entries[1].channel, "My Channel");
}

#[test]
fn malformed_feed_yields_no_entries() {
    assert!(parse_feed("this is not xml <<<").is_empty());
    assert!(parse_feed("").is_empty());
}

#[test]
fn feed_without_entries_yields_none() {
    let xml = r#"<feed xmlns="http://www.w3.org/2005/Atom"><title>Empty</title></feed>"#;
    assert!(parse_feed(xml).is_empty());
}

#[test]
fn subscription_urls_are_collected() {
    let xml = r#"<opml version="1.1">
 <body>
  <outline text="subs">
   <outline text="a" xmlUrl="https://example.org/feed-a.xml"/>
   <outline text="b" xmlUrl="https://example.org/feed-b.xml"/>
  </outline>
 </body>
</opml>"#;
    let extra = vec!["UCxyz".to_string()];
    let urls = subscription_urls(xml, &extra);
    assert_eq!(urls.len(), 3);
    assert_eq!(urls[0], "https://example.org/feed-a.xml");
    assert_eq!(urls[1], "https://example.org/feed-b.xml");
    assert_eq!(
        urls[2],
        "https://www.youtube.com/feeds/videos.xml?channel_id=UCxyz"
    );
}

#[test]
fn one_failed_source_leaves_the_others() {
    // one unreachable source contributes nothing; the other five entries
    // survive the merge untouched
    let good: Vec<Video> = (0..5).map(|k| video(&format!("v{}", k))).collect();
    let failed: Vec<Video> = parse_feed("not even xml");
    let merged = merge(&vec![failed, good.clone()]);
    assert_eq!(merged.len(), 5);
    for (a, b) in merged.iter().zip(good.iter()) {
        assert_eq!(a, b);
    }
}

#[test]
fn merge_keeps_duplicates_across_sources() {
    let a = vec![video("same")];
    let b = vec![video("same")];
    let merged = merge(&vec![a, b]);
    assert_eq!(merged.len(), 2);
}

#[test]
fn merge_of_nothing_is_empty() {
    let merged = merge(&Vec::new());
    assert!(merged.is_empty());
}

#[test]
fn refresh_with_failed_source_caches_exactly_the_good_entries() {
    // one source unreachable, one source with five entries: the catalog and
    // the cache document hold exactly those five
    let good: Vec<Video> = (0..5).map(|k| video(&format!("v{}", k))).collect();
    let merged = merge(&vec![parse_feed("<unreachable/>"), good.clone()]);
    assert_eq!(merged.len(), 5);
    let cache = youtube_subscriptions::codec::encode_videos(&youtube_subscriptions::entry::Videos {
        videos: merged,
    });
    let back = youtube_subscriptions::codec::decode_videos(&cache).expect("cache parses");
    assert_eq!(back.videos, good);
}
