use youtube_subscriptions::entry::{contains_str, get_id, lex_le_str, Video};

fn with_url(url: &str) -> Video {
    Video {
        channel: String::new(),
        title: String::new(),
        thumbnail: String::new(),
        url: url.to_string(),
        published: String::new(),
        description: String::new(),
    }
}

#[test]
fn id_is_last_segment_without_query() {
    let v = with_url("https://host/path/abc123?list=xyz");
    assert_eq!(get_id(&v), Some(Some("abc123".to_string())));
}

#[test]
fn id_without_query_is_whole_segment() {
    let v = with_url("https://www.youtube.com/v/dQw4w9WgXcQ");
    assert_eq!(get_id(&v), Some(Some("dQw4w9WgXcQ".to_string())));
}

#[test]
fn id_of_url_without_slash_is_prefix_before_query() {
    let v = with_url("plain?x=1");
    assert_eq!(get_id(&v), Some(Some("plain".to_string())));
}

#[test]
fn id_of_trailing_slash_is_empty() {
    let v = with_url("https://host/dir/");
    assert_eq!(get_id(&v), Some(Some(String::new())));
}

#[test]
fn lexical_order_on_timestamps() {
    assert!(lex_le_str(
        "2021-01-01T00:00:00+00:00",
        "2021-01-02T00:00:00+00:00"
    ));
    assert!(!lex_le_str(
        "2021-01-02T00:00:00+00:00",
        "2021-01-01T00:00:00+00:00"
    ));
    assert!(lex_le_str("same", "same"));
    assert!(lex_le_str("", "anything"));
    assert!(!lex_le_str("anything", ""));
    assert!(lex_le_str("abc", "abcd"));
}

#[test]
fn substring_search() {
    assert!(contains_str("hello world", "lo wo"));
    assert!(contains_str("hello", ""));
    assert!(contains_str("hello", "hello"));
    assert!(!contains_str("hello", "hello!"));
    assert!(!contains_str("short", "much longer needle"));
    assert!(contains_str("ababc", "abc"));
}
