use youtube_subscriptions::config::AppConfig;
use youtube_subscriptions::entry::Video;
use youtube_subscriptions::render::render_rows;

fn video(channel: &str, title: &str, published: &str) -> Video {
    Video {
        channel: channel.to_string(),
        title: title.to_string(),
        thumbnail: String::new(),
        url: String::new(),
        published: published.to_string(),
        description: String::new(),
    }
}

#[test]
fn row_holds_date_channel_and_title() {
    let rows = render_rows(
        &vec![video("chan", "the title", "2021-01-02T00:00:00+00:00")],
        80,
    );
    assert_eq!(rows.len(), 1);
    assert_eq!(
        rows[0],
        "  \u{1b}[36m01-02\u{1b}[0m \u{1b}[34mchan\u{1b}[0m the title"
    );
}

#[test]
fn channels_are_padded_to_a_common_width() {
    let rows = render_rows(
        &vec![
            video("longest name", "a", "2021-01-02T00:00:00+00:00"),
            video("tiny", "b", "2021-01-03T00:00:00+00:00"),
        ],
        80,
    );
    assert!(rows[0].contains("longest name\u{1b}[0m a"));
    assert!(rows[1].contains("tiny\u{1b}[0m         b"));
}

#[test]
fn rows_are_truncated_to_the_terminal_width() {
    let long_title = "x".repeat(300);
    let rows = render_rows(&vec![video("c", &long_title, "2021-01-02T00:00:00")], 40);
    assert_eq!(rows[0].chars().count(), 40 + 16);
}

#[test]
fn short_date_renders_without_a_date() {
    let rows = render_rows(&vec![video("c", "t", "oops")], 80);
    assert_eq!(rows[0], "  \u{1b}[36m\u{1b}[0m \u{1b}[34mc\u{1b}[0m t");
}

#[test]
fn default_config_is_pinned() {
    let c = AppConfig::default();
    assert_eq!(c.video_path, "/tmp");
    assert_eq!(c.cache_path, "/tmp/yts.json");
    assert_eq!(c.youtubedl_format, "[height <=? 360][ext = mp4]");
    assert_eq!(c.video_extension, "mp4");
    assert_eq!(c.players.len(), 5);
    assert_eq!(c.players[0][0], "/usr/bin/omxplayer");
    assert_eq!(c.players[3], vec!["/usr/bin/mpv", "-really-quiet", "-fs"]);
    assert!(c.channel_ids.is_empty());
    assert!(c.mpv_mode);
    assert_eq!(c.mpv_path, "/usr/bin/mpv");
}
