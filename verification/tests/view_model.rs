use youtube_subscriptions::entry::Video;
use youtube_subscriptions::view::{filter_exec, sort_videos, to_show_videos};

fn video(channel: &str, title: &str, published: &str) -> Video {
    Video {
        channel: channel.to_string(),
        title: title.to_string(),
        thumbnail: String::new(),
        url: format!("https://host/videos/{}", title),
        published: published.to_string(),
        description: String::new(),
    }
}

#[test]
fn sort_is_newest_first() {
    let mut v = vec![
        video("a", "one", "2021-01-01T00:00:00+00:00"),
        video("b", "three", "2021-01-03T00:00:00+00:00"),
        video("c", "two", "2021-01-02T00:00:00+00:00"),
    ];
    sort_videos(&mut v);
    for w in v.windows(2) {
        assert!(w[0].published >= w[1].published);
    }
    assert_eq!(v[0].title, "three");
    assert_eq!(v[1].title, "two");
    assert_eq!(v[2].title, "one");
}

#[test]
fn sort_keeps_every_entry() {
    let mut v = vec![
        video("a", "one", "2"),
        video("a", "dup", "1"),
        video("a", "dup", "1"),
    ];
    sort_videos(&mut v);
    assert_eq!(v.len(), 3);
    assert_eq!(v.iter().filter(|x| x.title == "dup").count(), 2);
}

#[test]
fn filter_keeps_matching_entries_only() {
    let v = vec![
        video("rust weekly", "news", "1"),
        video("cooking", "rust removal", "2"),
        video("cooking", "pancakes", "3"),
    ];
    let kept = filter_exec(&v, "rust");
    assert_eq!(kept.len(), 2);
    assert_eq!(kept[0].channel, "rust weekly");
    assert_eq!(kept[1].title, "rust removal");
}

#[test]
fn empty_filter_keeps_all() {
    let v = vec![video("a", "x", "1"), video("b", "y", "2")];
    let kept = filter_exec(&v, "");
    assert_eq!(kept.len(), 2);
}

#[test]
fn filter_is_case_sensitive() {
    let v = vec![video("Rust", "x", "1")];
    assert_eq!(filter_exec(&v, "rust").len(), 0);
    assert_eq!(filter_exec(&v, "Rust").len(), 1);
}

#[test]
fn derive_two_most_recent_reversed() {
    // three entries published out of order; a window of two shows the
    // second-newest first, then the newest
    let mut v = vec![
        video("c", "jan3", "2021-01-03T00:00:00+00:00"),
        video("a", "jan1", "2021-01-01T00:00:00+00:00"),
        video("b", "jan2", "2021-01-02T00:00:00+00:00"),
    ];
    let shown = to_show_videos(&mut v, 0, 2, &String::new());
    assert_eq!(shown.len(), 2);
    assert_eq!(shown[0].title, "jan2");
    assert_eq!(shown[1].title, "jan3");
}

#[test]
fn derive_never_exceeds_window() {
    let mut v = vec![
        video("a", "1", "1"),
        video("a", "2", "2"),
        video("a", "3", "3"),
    ];
    let shown = to_show_videos(&mut v, 0, 2, &String::new());
    assert_eq!(shown.len(), 2);
    let shown = to_show_videos(&mut v, 1, 3, &String::new());
    assert_eq!(shown.len(), 2);
    let shown = to_show_videos(&mut v, 0, 10, &String::new());
    assert_eq!(shown.len(), 3);
}

#[test]
fn derive_out_of_range_start_is_empty() {
    let mut v = vec![video("a", "1", "1")];
    let shown = to_show_videos(&mut v, 5, 7, &String::new());
    assert!(shown.is_empty());
}

#[test]
fn derive_zero_window_is_empty() {
    let mut v = vec![video("a", "1", "1")];
    let shown = to_show_videos(&mut v, 0, 0, &String::new());
    assert!(shown.is_empty());
}

#[test]
fn derive_applies_filter_before_slicing() {
    let mut v = vec![
        video("news", "keep newest", "2021-01-04T00:00:00+00:00"),
        video("other", "skip", "2021-01-03T00:00:00+00:00"),
        video("news", "keep older", "2021-01-02T00:00:00+00:00"),
    ];
    let shown = to_show_videos(&mut v, 0, 2, &"news".to_string());
    assert_eq!(shown.len(), 2);
    assert_eq!(shown[0].title, "keep older");
    assert_eq!(shown[1].title, "keep newest");
}
