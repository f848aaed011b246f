use youtube_subscriptions::entry::{Video, Videos};
use youtube_subscriptions::session::{Action, Key, YoutubeSubscribtions};

fn video(channel: &str, title: &str, published: &str) -> Video {
    Video {
        channel: channel.to_string(),
        title: title.to_string(),
        thumbnail: String::new(),
        url: format!("https://host/videos/{}?feature=x", title),
        published: published.to_string(),
        description: String::new(),
    }
}

fn catalog(n: usize) -> Videos {
    Videos {
        videos: (0..n)
            .map(|k| video("chan", &format!("t{}", k), &format!("2021-01-{:02}", k + 1)))
            .collect(),
    }
}

fn session(n: usize, lines: usize) -> YoutubeSubscribtions {
    let mut s = YoutubeSubscribtions::new(catalog(n));
    s.first_page(lines);
    s
}

#[test]
fn quit_key_quits() {
    let mut s = session(3, 10);
    assert!(matches!(s.step(Key::Char('q'), 10), Action::Quit));
}

#[test]
fn selection_wraps_down() {
    let mut s = session(3, 10);
    assert_eq!(s.toshow.len(), 3);
    s.step(Key::Char('j'), 10);
    assert_eq!(s.i, 1);
    s.step(Key::Char('l'), 10);
    s.step(Key::Down, 10);
    assert_eq!(s.i, 0, "moving past the last row wraps to the top");
}

#[test]
fn selection_wraps_up_from_top() {
    let mut s = session(3, 10);
    s.step(Key::Char('k'), 10);
    assert_eq!(s.i, 2, "moving up from row 0 wraps to the last row");
    s.step(Key::Up, 10);
    assert_eq!(s.i, 1);
}

#[test]
fn selection_jumps() {
    let mut s = session(5, 10);
    s.step(Key::Char('G'), 10);
    assert_eq!(s.i, 4);
    s.step(Key::Char('g'), 10);
    assert_eq!(s.i, 0);
    s.step(Key::Char('L'), 10);
    assert_eq!(s.i, 4);
    s.step(Key::Char('H'), 10);
    assert_eq!(s.i, 0);
    s.step(Key::Char('M'), 10);
    assert_eq!(s.i, 2);
}

#[test]
fn empty_window_never_panics_on_navigation() {
    let mut s = session(0, 10);
    s.step(Key::Char('j'), 10);
    s.step(Key::Char('k'), 10);
    s.step(Key::Char('G'), 10);
    s.step(Key::Char('M'), 10);
    assert_eq!(s.i, 0);
}

#[test]
fn unknown_key_is_flagged_and_changes_nothing() {
    let mut s = session(3, 10);
    let before_i = s.i;
    assert!(matches!(s.step(Key::Char('z'), 10), Action::Unsupported));
    assert_eq!(s.i, before_i);
}

#[test]
fn play_key_hands_out_the_selected_identifier() {
    let mut s = session(3, 10);
    // window shows oldest first: t0, t1, t2; row 0 is t0
    match s.step(Key::Char('p'), 10) {
        Action::Play(id) => assert_eq!(id, "t0"),
        other => panic!("expected Play, got {:?}", action_name(&other)),
    }
}

#[test]
fn play_on_empty_window_stays() {
    let mut s = session(0, 10);
    assert!(matches!(s.step(Key::Char('p'), 10), Action::Stay));
}

#[test]
fn open_key_hands_out_the_selected_url() {
    let mut s = session(2, 10);
    match s.step(Key::Char('o'), 10) {
        Action::OpenBrowser(url) => assert_eq!(url, "https://host/videos/t0?feature=x"),
        other => panic!("expected OpenBrowser, got {:?}", action_name(&other)),
    }
}

#[test]
fn info_key_hands_out_the_selected_entry() {
    let mut s = session(2, 10);
    s.step(Key::Char('j'), 10);
    match s.step(Key::Right, 10) {
        Action::Info(v) => assert_eq!(v.title, "t1"),
        other => panic!("expected Info, got {:?}", action_name(&other)),
    }
}

#[test]
fn refresh_help_and_prompt_keys() {
    let mut s = session(2, 10);
    assert!(matches!(s.step(Key::Char('R'), 10), Action::Refresh));
    assert!(matches!(s.step(Key::Char('h'), 10), Action::Help));
    assert!(matches!(s.step(Key::Char('?'), 10), Action::Help));
    assert!(matches!(s.step(Key::Char('/'), 10), Action::PromptSearch));
    assert!(matches!(s.step(Key::Char('f'), 10), Action::PromptFilter));
    assert!(matches!(s.step(Key::Char(':'), 10), Action::PromptCommand));
}

fn action_name(a: &Action) -> &'static str {
    match a {
        Action::Quit => "Quit",
        Action::Stay => "Stay",
        Action::Redraw => "Redraw",
        Action::Help => "Help",
        Action::Info(_) => "Info",
        Action::Play(_) => "Play",
        Action::Download(_) => "Download",
        Action::OpenBrowser(_) => "OpenBrowser",
        Action::PromptSearch => "PromptSearch",
        Action::PromptFilter => "PromptFilter",
        Action::PromptCommand => "PromptCommand",
        Action::Refresh => "Refresh",
        Action::Unsupported => "Unsupported",
    }
}

#[test]
fn paging_moves_forward_and_back() {
    let mut s = session(10, 3);
    assert_eq!(s.start, 0);
    s.step(Key::Char('P'), 3);
    assert_eq!(s.start, 3, "a full further page exists, so P advances");
    s.step(Key::Char('N'), 3);
    assert_eq!(s.start, 0);
    s.step(Key::Char('N'), 3);
    assert_eq!(s.start, 0, "paging back from the top stays clamped at 0");
}

#[test]
fn page_forward_stops_without_a_full_page() {
    let mut s = session(4, 3);
    s.step(Key::Char('P'), 3);
    assert_eq!(s.start, 0, "no two further pages of entries exist");
}

#[test]
fn soft_reload_rederives_from_top() {
    let mut s = session(10, 3);
    s.step(Key::Char('P'), 3);
    assert_eq!(s.start, 3);
    let r = s.step(Key::Char('r'), 3);
    assert!(matches!(r, Action::Redraw));
    assert_eq!(s.start, 0);
    assert_eq!(s.i, 0);
}

#[test]
fn find_returns_first_match_or_zero() {
    let mut s = YoutubeSubscribtions::new(Videos { videos: Vec::new() });
    s.toshow = vec![
        video("alpha", "one", "1"),
        video("beta", "two", "1"),
        video("beta", "three", "1"),
    ];
    assert_eq!(s.find("beta"), 1);
    assert_eq!(s.find("three"), 2);
    assert_eq!(s.find("missing"), 0);
    s.search("beta");
    assert_eq!(s.i, 1);
}

#[test]
fn filter_resets_pagination() {
    let mut s = session(10, 3);
    s.step(Key::Char('P'), 3);
    assert_eq!(s.start, 3);
    s.filter("t1".to_string(), 3);
    assert_eq!(s.start, 0);
    assert_eq!(s.filter.as_str(), "t1");
    assert_eq!(s.i, 0);
}

#[test]
fn command_recognizes_only_o_with_one_argument() {
    let s = session(1, 10);
    assert_eq!(s.command("o abc123"), Some("abc123".to_string()));
    assert_eq!(s.command("  o   abc123   "), Some("abc123".to_string()));
    assert_eq!(s.command("o"), None);
    assert_eq!(s.command(""), None);
    assert_eq!(s.command("p abc"), None);
    assert_eq!(s.command("o a b"), None);
    assert_eq!(s.command("oo abc"), None);
}

#[test]
fn hard_reload_installs_the_new_catalog() {
    let mut s = session(2, 10);
    s.hard_reload_with(catalog(7), 10);
    assert_eq!(s.videos.videos.len(), 7);
    assert_eq!(s.start, 0);
    assert_eq!(s.i, 0);
    assert_eq!(s.toshow.len(), 7);
}

#[test]
fn download_targets_take_newest_fetched_from_the_back() {
    // first_page leaves the catalog newest-first, as a refresh does
    let s = session(4, 10);
    let ids = s.download_targets(2);
    assert_eq!(ids, vec!["t3".to_string(), "t2".to_string()]);
    let all = s.download_targets(99);
    assert_eq!(all.len(), 4);
}
