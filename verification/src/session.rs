//! The session controller: a single-threaded state machine over keyboard
//! input. It owns the view state, turns single keystrokes into view
//! transitions, and hands every side effect (drawing, playing, downloading,
//! opening a browser, fetching) back to the caller as an `Action`.

use vstd::prelude::*;
use crate::entry::{video_id_of, get_id, matches_filter, video_matches, Video, Videos};
use crate::view::{filter_videos, sorted_by_published_desc, to_show_videos};

verus! {

/// The session state: catalog, view window and cursor.
pub struct YoutubeSubscribtions {
    /// Rows available for content on the last render.
    pub n: usize,
    /// Offset into the filtered, newest-first catalog.
    pub start: usize,
    /// The active filter text; empty keeps everything.
    pub filter: String,
    /// The selected row within the visible window.
    pub i: usize,
    /// The visible window, oldest visible entry first.
    pub toshow: Vec<Video>,
    /// The full catalog.
    pub videos: Videos,
}

/// One keystroke, as the session understands it.
pub enum Key {
    Char(char),
    Up,
    Down,
    Left,
    Right,
}

/// What the caller must do after a step; the session itself never draws,
/// spawns, fetches or blocks.
pub enum Action {
    /// Release the terminal and exit.
    Quit,
    /// Nothing to do.
    Stay,
    /// The view changed: clear and print the window again.
    Redraw,
    /// Show the help text, wait for a key, then soft-reload.
    Help,
    /// Show this entry's details, wait for a key, then soft-reload.
    Info(Video),
    /// Play the entry with this identifier.
    Play(String),
    /// Download the entry with this identifier.
    Download(String),
    /// Open this URL in a browser.
    OpenBrowser(String),
    /// Read a line with a `/` prompt, then call `search` with it.
    PromptSearch,
    /// Read a line with a `|` prompt, then call `filter` with it.
    PromptFilter,
    /// Read a line with a `:` prompt, then call `command` with it.
    PromptCommand,
    /// Fetch all sources again, then call `hard_reload_with` the result.
    Refresh,
    /// Flag the key as unsupported.
    Unsupported,
}

/// A whitespace character, for splitting a typed command line.
pub open spec fn is_space(c: char) -> bool {
    c == ' ' || c == '\t' || c == '\n' || c == '\r'
}

/// The least index of `s` whose character's space-ness equals `want`, or
/// `s.len()` when there is none.
pub open spec fn first_pos(s: Seq<char>, want: bool) -> int
    decreases s.len(),
{
    if s.len() == 0 {
        0
    } else if is_space(s[0]) == want {
        0
    } else {
        1 + first_pos(s.subrange(1, s.len() as int), want)
    }
}

/// `first_pos` stays within the sequence, hits what it looks for, and
/// nothing before it does.
proof fn lemma_first_pos_props(s: Seq<char>, want: bool)
    ensures
        0 <= first_pos(s, want) <= s.len(),
        first_pos(s, want) < s.len() ==> is_space(s[first_pos(s, want)]) == want,
        forall|k: int| 0 <= k < first_pos(s, want) ==> is_space(#[trigger] s[k]) != want,
    decreases s.len(),
{
    if s.len() == 0 {
    } else if is_space(s[0]) == want {
    } else {
        let t = s.subrange(1, s.len() as int);
        lemma_first_pos_props(t, want);
        assert forall|k: int| 0 <= k < first_pos(s, want) implies is_space(#[trigger] s[k])
            != want by {
            if k >= 1 {
                assert(t[k - 1] == s[k]);
                assert(k - 1 < first_pos(t, want));
            }
        }
    }
}

/// A position whose prefix misses `want` and which hits it, or is the
/// length, is the first such position.
proof fn lemma_first_pos_char(s: Seq<char>, want: bool, j: int)
    requires
        0 <= j <= s.len(),
        j < s.len() ==> is_space(s[j]) == want,
        forall|k: int| 0 <= k < j ==> is_space(#[trigger] s[k]) != want,
    ensures
        first_pos(s, want) == j,
    decreases s.len(),
{
    if s.len() == 0 {
    } else if is_space(s[0]) == want {
        assert(j == 0);
    } else {
        assert(j >= 1);
        let t = s.subrange(1, s.len() as int);
        assert(j - 1 < t.len() ==> t[j - 1] == s[j]);
        assert(forall|k: int| 0 <= k < j - 1 ==> #[trigger] t[k] == s[k + 1]);
        lemma_first_pos_char(t, want, j - 1);
    }
}

/// Space test on one character.
fn is_space_char(c: char) -> (r: bool)
    ensures
        r == is_space(c),
{
    c == ' ' || c == '\t' || c == '\n' || c == '\r'
}

/// Scans forward from `from` for the first character whose space-ness
/// equals `want`.
fn scan_pos(s: &str, from: usize, want: bool) -> (r: usize)
    requires
        from <= s@.len(),
    ensures
        from <= r <= s@.len(),
        r - from == first_pos(s@.subrange(from as int, s@.len() as int), want),
{
    let len = s.unicode_len();
    let mut k = from;
    while k < len
        invariant
            from <= k <= len,
            len == s@.len(),
            forall|m: int| from <= m < k ==> is_space(#[trigger] s@[m]) != want,
        decreases len - k,
    {
        if is_space_char(s.get_char(k)) == want {
            proof {
                let sub = s@.subrange(from as int, len as int);
                assert(forall|m: int| 0 <= m < sub.len() ==> #[trigger] sub[m] == s@[from + m]);
                lemma_first_pos_char(sub, want, k - from);
            }
            return k;
        }
        k = k + 1;
    }
    proof {
        let sub = s@.subrange(from as int, len as int);
        assert(forall|m: int| 0 <= m < sub.len() ==> #[trigger] sub[m] == s@[from + m]);
        lemma_first_pos_char(sub, want, len - from);
    }
    len
}

/// What a typed command line means: exactly the lines that split into the
/// two words `o <argument>` carry an argument; everything else is a no-op.
pub open spec fn command_arg(s: Seq<char>) -> Option<Seq<char>> {
    let len = s.len() as int;
    let a = first_pos(s, false);
    if a == len {
        Option::None
    } else {
        let e1 = a + first_pos(s.subrange(a, len), true);
        if s.subrange(a, e1) != "o"@ {
            Option::None
        } else {
            let b = e1 + first_pos(s.subrange(e1, len), false);
            if b == len {
                Option::None
            } else {
                let e2 = b + first_pos(s.subrange(b, len), true);
                let d = e2 + first_pos(s.subrange(e2, len), false);
                if d != len {
                    Option::None
                } else {
                    Option::Some(s.subrange(b, e2))
                }
            }
        }
    }
}

/// Where one page move puts the window offset: forward only when a full
/// further page exists, backward clamped at zero, reset to zero otherwise.
pub open spec fn moved_start(pre: YoutubeSubscribtions, direction: int, lines: int) -> int {
    if direction == 1 {
        if pre.start + 2 * lines < pre.videos.videos@.len() {
            pre.start + lines
        } else {
            pre.start as int
        }
    } else if direction == 0 {
        0
    } else if direction == -1 {
        if lines > pre.start {
            0
        } else {
            pre.start - lines
        }
    } else {
        pre.start as int
    }
}

/// The window end: one page past `start`, saturated at the machine limit.
pub open spec fn window_end(start: int, lines: int) -> int {
    if start + lines <= usize::MAX {
        start + lines
    } else {
        usize::MAX as int
    }
}

/// `w` is the window derived from `catalog` under `filter`: the slice
/// `[start, min(end, len))` of the filtered newest-first catalog, reversed.
pub open spec fn derived_window(
    catalog: Seq<Video>,
    filter: Seq<char>,
    start: int,
    end: int,
    w: Seq<Video>,
) -> bool {
    let f = filter_videos(catalog, filter);
    let hi = if end <= f.len() {
        end
    } else {
        f.len() as int
    };
    &&& start < hi ==> w.len() == hi - start && (forall|k: int|
        0 <= k < w.len() ==> w[k] == f[hi - 1 - k])
    &&& start >= hi ==> w.len() == 0
}

/// The full effect of one page move: the viewport height is re-read, the
/// offset moves as `moved_start` says, the catalog is re-sorted (same
/// entries), the window is re-derived and the cursor returns to the top row.
pub open spec fn page_transition(
    pre: YoutubeSubscribtions,
    post: YoutubeSubscribtions,
    direction: int,
    lines: int,
) -> bool {
    &&& post.n == lines
    &&& post.start == moved_start(pre, direction, lines)
    &&& post.filter == pre.filter
    &&& post.videos.videos@.to_multiset() == pre.videos.videos@.to_multiset()
    &&& post.videos.videos@.len() == pre.videos.videos@.len()
    &&& sorted_by_published_desc(post.videos.videos@)
    &&& derived_window(
        post.videos.videos@,
        post.filter@,
        post.start as int,
        window_end(post.start as int, lines),
        post.toshow@,
    )
    &&& post.i == 0
}

/// The row below the cursor, wrapping past the window's end.
pub open spec fn wrap_down(i: int, w: int) -> int {
    if w > 0 {
        (i + 1) % w
    } else {
        0
    }
}

/// The row above the cursor, wrapping from the top row to the last.
pub open spec fn wrap_up(i: int, w: int) -> int {
    if w > 0 {
        (if i > 0 {
            i - 1
        } else {
            w - 1
        }) % w
    } else {
        0
    }
}

/// The middle row of the window.
pub open spec fn mid_row(w: int) -> int {
    if w > 0 {
        w / 2
    } else {
        0
    }
}

/// The last row of the window.
pub open spec fn last_row(w: int) -> int {
    if w > 0 {
        w - 1
    } else {
        0
    }
}

/// The state with only the cursor moved.
pub open spec fn with_cursor(pre: YoutubeSubscribtions, i: int) -> YoutubeSubscribtions {
    YoutubeSubscribtions { i: i as usize, ..pre }
}

impl YoutubeSubscribtions {
    /// A fresh session around a catalog, before the first render.
    pub fn new(videos: Videos) -> (r: Self)
        ensures
            r.n == 0,
            r.start == 0,
            r.filter@.len() == 0,
            r.i == 0,
            r.toshow@.len() == 0,
            r.videos == videos,
    {
        YoutubeSubscribtions {
            n: 0,
            start: 0,
            filter: String::new(),
            i: 0,
            toshow: Vec::new(),
            videos,
        }
    }

    /// Moves the window one page forward (1), backward (-1) or to the top
    /// (0), re-reading the viewport height and re-deriving the window.
    pub fn move_page(&mut self, direction: i8, lines: usize)
        ensures
            page_transition(*old(self), *final(self), direction as int, lines as int),
    {
        self.n = lines;
        if direction == 1 {
            if (self.start as u128) + 2 * (lines as u128) < (self.videos.videos.len() as u128) {
                self.start = self.start + lines;
            }
        } else if direction == 0 {
            self.start = 0;
        } else if direction == -1 {
            if lines > self.start {
                self.start = 0;
            } else {
                self.start = self.start - lines;
            }
        }
        let end = if self.start <= usize::MAX - self.n {
            self.start + self.n
        } else {
            usize::MAX
        };
        self.toshow = to_show_videos(&mut self.videos.videos, self.start, end, &self.filter);
        self.i = 0;
    }

    /// One page toward newer entries.
    pub fn next_page(&mut self, lines: usize)
        ensures
            page_transition(*old(self), *final(self), -1, lines as int),
    {
        self.move_page(-1, lines);
    }

    /// One page toward older entries.
    pub fn previous_page(&mut self, lines: usize)
        ensures
            page_transition(*old(self), *final(self), 1, lines as int),
    {
        self.move_page(1, lines);
    }

    /// Re-derives the view from the in-memory catalog, back at the top.
    pub fn soft_reload(&mut self, lines: usize)
        ensures
            page_transition(*old(self), *final(self), 0, lines as int),
    {
        self.move_page(0, lines);
    }

    /// Installs a freshly aggregated catalog and re-derives the view; the
    /// fetching itself is the caller's work, answering `Action::Refresh`.
    pub fn hard_reload_with(&mut self, videos: Videos, lines: usize)
        ensures
            final(self).videos.videos@.to_multiset() == videos.videos@.to_multiset(),
            final(self).filter == old(self).filter,
            page_transition(
                YoutubeSubscribtions { videos, ..*old(self) },
                *final(self),
                0,
                lines as int,
            ),
    {
        self.videos = videos;
        self.move_page(0, lines);
    }

    /// Derives the first window of a fresh session, keeping the cursor.
    pub fn first_page(&mut self, lines: usize)
        ensures
            final(self).n == lines,
            final(self).start == old(self).start,
            final(self).filter == old(self).filter,
            final(self).i == old(self).i,
            final(self).videos.videos@.to_multiset() == old(self).videos.videos@.to_multiset(),
            final(self).videos.videos@.len() == old(self).videos.videos@.len(),
            sorted_by_published_desc(final(self).videos.videos@),
            derived_window(
                final(self).videos.videos@,
                final(self).filter@,
                final(self).start as int,
                lines as int,
                final(self).toshow@,
            ),
    {
        self.n = lines;
        self.toshow = to_show_videos(&mut self.videos.videos, self.start, self.n, &self.filter);
    }

    /// The first visible row whose title or channel contains `s`; row 0 when
    /// none does.
    pub fn find(&self, s: &str) -> (r: usize)
        ensures
            (exists|k: int|
                0 <= k < self.toshow@.len() && matches_filter(#[trigger] self.toshow@[k], s@))
                ==> {
                &&& r < self.toshow@.len()
                &&& matches_filter(self.toshow@[r as int], s@)
                &&& forall|k: int| 0 <= k < r ==> !matches_filter(#[trigger] self.toshow@[k], s@)
            },
            !(exists|k: int|
                0 <= k < self.toshow@.len() && matches_filter(#[trigger] self.toshow@[k], s@))
                ==> r == 0,
    {
        let mut k: usize = 0;
        while k < self.toshow.len()
            invariant
                k <= self.toshow@.len(),
                forall|m: int| 0 <= m < k ==> !matches_filter(#[trigger] self.toshow@[m], s@),
            decreases self.toshow@.len() - k,
        {
            if video_matches(&self.toshow[k], s) {
                return k;
            }
            k = k + 1;
        }
        0
    }

    /// Jumps the cursor to the first visible entry matching the typed text.
    pub fn search(&mut self, s: &str)
        ensures
            *final(self) == (YoutubeSubscribtions { i: final(self).i, ..*old(self) }),
            (exists|k: int|
                0 <= k < old(self).toshow@.len() && matches_filter(
                    #[trigger] old(self).toshow@[k],
                    s@,
                )) ==> {
                &&& (final(self).i as int) < old(self).toshow@.len()
                &&& matches_filter(old(self).toshow@[final(self).i as int], s@)
                &&& forall|k: int|
                    0 <= k < final(self).i ==> !matches_filter(#[trigger] old(self).toshow@[k], s@)
            },
            !(exists|k: int|
                0 <= k < old(self).toshow@.len() && matches_filter(
                    #[trigger] old(self).toshow@[k],
                    s@,
                )) ==> final(self).i == 0,
    {
        self.i = self.find(s);
    }

    /// Installs a new filter text and re-derives the view from the top:
    /// changing the filter always resets pagination.
    pub fn filter(&mut self, s: String, lines: usize)
        ensures
            final(self).filter == s,
            page_transition(
                YoutubeSubscribtions { filter: s, ..*old(self) },
                *final(self),
                0,
                lines as int,
            ),
    {
        self.filter = s;
        self.move_page(0, lines);
    }

    /// The identifier of the selected entry, when one is selected.
    pub fn play_current(&self) -> (r: Option<String>)
        ensures
            (self.i as int) < self.toshow@.len() ==> (r matches Some(id) && id@ == video_id_of(
                self.toshow@[self.i as int].url@,
            )),
            (self.i as int) >= self.toshow@.len() ==> r is None,
    {
        if self.i < self.toshow.len() {
            match get_id(&self.toshow[self.i]) {
                Some(Some(id)) => Some(id),
                _ => None,
            }
        } else {
            None
        }
    }

    /// The URL of the selected entry, when one is selected.
    pub fn open_current(&self) -> (r: Option<String>)
        ensures
            (self.i as int) < self.toshow@.len() ==> (r matches Some(u) && u
                == self.toshow@[self.i as int].url),
            (self.i as int) >= self.toshow@.len() ==> r is None,
    {
        if self.i < self.toshow.len() {
            Some(self.toshow[self.i].url.clone())
        } else {
            None
        }
    }

    /// The selected entry itself, for the details screen.
    pub fn info_current(&self) -> (r: Option<Video>)
        ensures
            (self.i as int) < self.toshow@.len() ==> (r matches Some(v) && v
                == self.toshow@[self.i as int]),
            (self.i as int) >= self.toshow@.len() ==> r is None,
    {
        if self.i < self.toshow.len() {
            Some(self.toshow[self.i].clone())
        } else {
            None
        }
    }

    /// The identifiers of the first `take` catalog entries. A refresh leaves
    /// the catalog newest-first, so right after one these are the `take`
    /// most recent entries.
    pub fn download_targets(&self, take: usize) -> (r: Vec<String>)
        ensures
            r@.len() == (if take <= self.videos.videos@.len() {
                take as int
            } else {
                self.videos.videos@.len() as int
            }),
            forall|m: int|
                0 <= m < r@.len() ==> (#[trigger] r@[m])@ == video_id_of(
                    self.videos.videos@[m].url@,
                ),
    {
        let len = self.videos.videos.len();
        let count = if take <= len {
            take
        } else {
            len
        };
        let mut r: Vec<String> = Vec::new();
        let mut m: usize = 0;
        while m < count
            invariant
                count <= len,
                len == self.videos.videos@.len(),
                m <= count,
                r@.len() == m,
                forall|p: int|
                    0 <= p < m ==> (#[trigger] r@[p])@ == video_id_of(
                        self.videos.videos@[p].url@,
                    ),
            decreases count - m,
        {
            match get_id(&self.videos.videos[m]) {
                Some(Some(id)) => {
                    r.push(id);
                },
                _ => (),
            }
            m = m + 1;
        }
        r
    }

    /// Parses a typed command line. Only `o <identifier>` is recognized and
    /// yields the identifier to play; any other line is a silent no-op.
    pub fn command(&self, s: &str) -> (r: Option<String>)
        ensures
            match r {
                Some(id) => command_arg(s@) matches Some(a) && a == id@,
                None => command_arg(s@) is None,
            },
    {
        proof {
            reveal_strlit("o");
            assert(s@.subrange(0, s@.len() as int) =~= s@);
        }
        let len = s.unicode_len();
        let a = scan_pos(s, 0, false);
        if a == len {
            return None;
        }
        let e1 = scan_pos(s, a, true);
        proof {
            lemma_first_pos_props(s@, false);
            let sube = s@.subrange(a as int, len as int);
            lemma_first_pos_props(sube, true);
            assert(sube[0] == s@[a as int]);
            assert(!is_space(sube[0]));
            assert(first_pos(sube, true) >= 1);
        }
        if e1 != a + 1 || s.get_char(a) != 'o' {
            proof {
                let tok = s@.subrange(a as int, e1 as int);
                assert("o"@.len() == 1);
                if e1 == a + 1 {
                    assert(tok[0] == s@[a as int]);
                    assert(tok[0] != 'o' && "o"@[0] == 'o');
                }
                assert(tok != "o"@);
            }
            return None;
        }
        proof {
            assert(s@.subrange(a as int, e1 as int) =~= "o"@);
        }
        let b = scan_pos(s, e1, false);
        if b == len {
            return None;
        }
        let e2 = scan_pos(s, b, true);
        let d = scan_pos(s, e2, false);
        if d != len {
            return None;
        }
        let id = s.substring_char(b, e2).to_owned();
        Some(id)
    }

    /// One keystroke while browsing: the key table of the session. Moves the
    /// cursor or the page, or leaves the state alone and tells the caller
    /// which side effect the key asks for.
    pub fn step(&mut self, key: Key, lines: usize) -> (r: Action)
        ensures
            ({
                let pre = *old(self);
                let post = *final(self);
                let w = pre.toshow@.len() as int;
                match key {
                    Key::Char(c) => {
                        if c == 'q' {
                            post == pre && r is Quit
                        } else if c == 'j' || c == 'l' {
                            post == with_cursor(pre, wrap_down(pre.i as int, w)) && r is Stay
                        } else if c == 'k' {
                            post == with_cursor(pre, wrap_up(pre.i as int, w)) && r is Stay
                        } else if c == 'g' || c == 'H' {
                            post == with_cursor(pre, 0) && r is Stay
                        } else if c == 'M' {
                            post == with_cursor(pre, mid_row(w)) && r is Stay
                        } else if c == 'G' || c == 'L' {
                            post == with_cursor(pre, last_row(w)) && r is Stay
                        } else if c == 'r' || c == '$' {
                            page_transition(pre, post, 0, lines as int) && r is Redraw
                        } else if c == 'P' {
                            page_transition(pre, post, 1, lines as int) && r is Redraw
                        } else if c == 'N' {
                            page_transition(pre, post, -1, lines as int) && r is Redraw
                        } else if c == 'R' {
                            post == pre && r is Refresh
                        } else if c == 'h' || c == '?' {
                            post == pre && r is Help
                        } else if c == 'i' {
                            post == pre && (if (pre.i as int) < w {
                                r matches Action::Info(v) && v == pre.toshow@[pre.i as int]
                            } else {
                                r is Stay
                            })
                        } else if c == 'p' || c == '\n' {
                            post == pre && (if (pre.i as int) < w {
                                r matches Action::Play(id) && id@ == video_id_of(
                                    pre.toshow@[pre.i as int].url@,
                                )
                            } else {
                                r is Stay
                            })
                        } else if c == 'd' {
                            post == pre && (if (pre.i as int) < w {
                                r matches Action::Download(id) && id@ == video_id_of(
                                    pre.toshow@[pre.i as int].url@,
                                )
                            } else {
                                r is Stay
                            })
                        } else if c == 'o' {
                            post == pre && (if (pre.i as int) < w {
                                r matches Action::OpenBrowser(u) && u
                                    == pre.toshow@[pre.i as int].url
                            } else {
                                r is Stay
                            })
                        } else if c == '/' {
                            post == pre && r is PromptSearch
                        } else if c == 'f' {
                            post == pre && r is PromptFilter
                        } else if c == ':' {
                            post == pre && r is PromptCommand
                        } else {
                            post == pre && r is Unsupported
                        }
                    },
                    Key::Down => post == with_cursor(pre, wrap_down(pre.i as int, w)) && r
                        is Stay,
                    Key::Up => post == with_cursor(pre, wrap_up(pre.i as int, w)) && r is Stay,
                    Key::Left => page_transition(pre, post, 0, lines as int) && r is Redraw,
                    Key::Right => post == pre && (if (pre.i as int) < w {
                        r matches Action::Info(v) && v == pre.toshow@[pre.i as int]
                    } else {
                        r is Stay
                    }),
                }
            }),
    {
        let w = self.toshow.len();
        match key {
            Key::Char(c) => {
                if c == 'q' {
                    Action::Quit
                } else if c == 'j' || c == 'l' {
                    self.cursor_down(w);
                    Action::Stay
                } else if c == 'k' {
                    self.cursor_up(w);
                    Action::Stay
                } else if c == 'g' || c == 'H' {
                    self.i = 0;
                    Action::Stay
                } else if c == 'M' {
                    self.i = if w > 0 {
                        w / 2
                    } else {
                        0
                    };
                    Action::Stay
                } else if c == 'G' || c == 'L' {
                    self.i = if w > 0 {
                        w - 1
                    } else {
                        0
                    };
                    Action::Stay
                } else if c == 'r' || c == '$' {
                    self.soft_reload(lines);
                    Action::Redraw
                } else if c == 'P' {
                    self.previous_page(lines);
                    Action::Redraw
                } else if c == 'N' {
                    self.next_page(lines);
                    Action::Redraw
                } else if c == 'R' {
                    Action::Refresh
                } else if c == 'h' || c == '?' {
                    Action::Help
                } else if c == 'i' {
                    match self.info_current() {
                        Some(v) => Action::Info(v),
                        None => Action::Stay,
                    }
                } else if c == 'p' || c == '\n' {
                    match self.play_current() {
                        Some(id) => Action::Play(id),
                        None => Action::Stay,
                    }
                } else if c == 'd' {
                    match self.play_current() {
                        Some(id) => Action::Download(id),
                        None => Action::Stay,
                    }
                } else if c == 'o' {
                    match self.open_current() {
                        Some(u) => Action::OpenBrowser(u),
                        None => Action::Stay,
                    }
                } else if c == '/' {
                    Action::PromptSearch
                } else if c == 'f' {
                    Action::PromptFilter
                } else if c == ':' {
                    Action::PromptCommand
                } else {
                    Action::Unsupported
                }
            },
            Key::Down => {
                self.cursor_down(w);
                Action::Stay
            },
            Key::Up => {
                self.cursor_up(w);
                Action::Stay
            },
            Key::Left => {
                self.soft_reload(lines);
                Action::Redraw
            },
            Key::Right => {
                match self.info_current() {
                    Some(v) => Action::Info(v),
                    None => Action::Stay,
                }
            },
        }
    }

    /// Moves the cursor one row down, wrapping at the window's end.
    fn cursor_down(&mut self, w: usize)
        requires
            w == old(self).toshow@.len(),
        ensures
            *final(self) == with_cursor(*old(self), wrap_down(old(self).i as int, w as int)),
    {
        if w > 0 {
            let ni = ((self.i as u128 + 1) % (w as u128)) as usize;
            self.i = ni;
        } else {
            self.i = 0;
        }
    }

    /// Moves the cursor one row up, wrapping at the top.
    fn cursor_up(&mut self, w: usize)
        requires
            w == old(self).toshow@.len(),
        ensures
            *final(self) == with_cursor(*old(self), wrap_up(old(self).i as int, w as int)),
    {
        if w > 0 {
            let base = if self.i > 0 {
                self.i - 1
            } else {
                w - 1
            };
            self.i = base % w;
        } else {
            self.i = 0;
        }
    }
}

} // verus!
