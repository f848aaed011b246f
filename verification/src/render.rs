//! Rendering the visible window: one line per entry, colored date, channel
//! padded to a common width, then the title, truncated to the terminal
//! width. Only the text is built here; writing it to the screen is the
//! surrounding program's work.

use vstd::prelude::*;
use vstd::string::StringExecFns;
use crate::entry::{ffind_char, first_index_of, Video};

verus! {

/// The day-and-month part of a published timestamp: characters 5 to 10 of
/// what stands before the `T`; empty when the date part is too short.
pub open spec fn date_part(p: Seq<char>) -> Seq<char> {
    if first_index_of(p, 'T') >= 10 {
        p.subrange(5, 10)
    } else {
        Seq::empty()
    }
}

/// `n` spaces, or none when `n` is not positive.
pub open spec fn spaces(n: int) -> Seq<char>
    decreases n,
{
    if n <= 0 {
        Seq::empty()
    } else {
        spaces(n - 1).push(' ')
    }
}

/// The widest channel name of the window, in characters.
pub open spec fn max_channel_width(s: Seq<Video>) -> int
    decreases s.len(),
{
    if s.len() == 0 {
        0
    } else {
        let rest = max_channel_width(s.drop_last());
        if s.last().channel@.len() > rest {
            s.last().channel@.len() as int
        } else {
            rest
        }
    }
}

/// One rendered line: date, channel padded to the window's widest channel,
/// title, cut to the terminal width plus what the color codes take.
pub open spec fn row_of(v: Video, maxw: int, cols: int) -> Seq<char> {
    let s = "  \u{1b}[36m"@ + date_part(v.published@) + "\u{1b}[0m \u{1b}[34m"@ + v.channel@
        + "\u{1b}[0m"@ + spaces(maxw - v.channel@.len()) + " "@ + v.title@;
    if s.len() <= cols + 16 {
        s
    } else {
        s.subrange(0, cols + 16)
    }
}

/// The widest channel name of the window.
fn max_channel_width_exec(toshow: &Vec<Video>) -> (r: usize)
    ensures
        r as int == max_channel_width(toshow@),
        forall|k: int| 0 <= k < toshow@.len() ==> (#[trigger] toshow@[k]).channel@.len() <= r,
{
    let mut r: usize = 0;
    let mut k: usize = 0;
    proof {
        assert(toshow@.subrange(0, 0) =~= Seq::<Video>::empty());
    }
    while k < toshow.len()
        invariant
            k <= toshow@.len(),
            r as int == max_channel_width(toshow@.subrange(0, k as int)),
            forall|m: int| 0 <= m < k ==> (#[trigger] toshow@[m]).channel@.len() <= r,
        decreases toshow@.len() - k,
    {
        proof {
            let pre = toshow@.subrange(0, k + 1);
            assert(pre.drop_last() =~= toshow@.subrange(0, k as int));
            assert(pre.last() == toshow@[k as int]);
        }
        let w = toshow[k].channel.as_str().unicode_len();
        if w > r {
            r = w;
        }
        k = k + 1;
    }
    proof {
        assert(toshow@.subrange(0, toshow@.len() as int) =~= toshow@);
    }
    r
}

/// Builds one rendered line.
fn render_row(v: &Video, maxw: usize, cols: usize) -> (r: String)
    requires
        v.channel@.len() <= maxw,
    ensures
        r@ == row_of(*v, maxw as int, cols as int),
{
    let p = v.published.as_str();
    let t = ffind_char(p, 'T');
    let mut s = "  \u{1b}[36m".to_owned();
    if t >= 10 {
        s.append(p.substring_char(5, 10));
    }
    proof {
        assert(s@ =~= "  \u{1b}[36m"@ + date_part(v.published@));
    }
    s.append("\u{1b}[0m \u{1b}[34m");
    s.append(v.channel.as_str());
    s.append("\u{1b}[0m");
    let clen = v.channel.as_str().unicode_len();
    let pad = maxw - clen;
    let ghost before = s@;
    let mut m: usize = 0;
    proof {
        reveal_strlit(" ");
        assert(" "@ =~= seq![' ']);
    }
    while m < pad
        invariant
            " "@ =~= seq![' '],
            m <= pad,
            s@ == before + spaces(m as int),
        decreases pad - m,
    {
        s.append(" ");
        proof {
            assert(before + spaces(m as int) + " "@ =~= before + spaces(m + 1));
        }
        m = m + 1;
    }
    s.append(" ");
    s.append(v.title.as_str());
    proof {
        assert(s@ =~= "  \u{1b}[36m"@ + date_part(v.published@) + "\u{1b}[0m \u{1b}[34m"@
            + v.channel@ + "\u{1b}[0m"@ + spaces(maxw - v.channel@.len()) + " "@ + v.title@);
    }
    let slen = s.as_str().unicode_len();
    let cap = if cols <= usize::MAX - 16 {
        cols + 16
    } else {
        usize::MAX
    };
    if slen <= cap {
        s
    } else {
        let cut = s.as_str().substring_char(0, cap).to_owned();
        cut
    }
}

/// Renders the visible window top to bottom: the window's first (oldest
/// visible) entry makes the first line.
pub fn render_rows(toshow: &Vec<Video>, cols: usize) -> (r: Vec<String>)
    ensures
        r@.len() == toshow@.len(),
        forall|k: int|
            0 <= k < r@.len() ==> (#[trigger] r@[k])@ == row_of(
                toshow@[k],
                max_channel_width(toshow@),
                cols as int,
            ),
{
    let maxw = max_channel_width_exec(toshow);
    let mut r: Vec<String> = Vec::new();
    let mut k: usize = 0;
    while k < toshow.len()
        invariant
            k <= toshow@.len(),
            maxw as int == max_channel_width(toshow@),
            forall|m: int| 0 <= m < toshow@.len() ==> (#[trigger] toshow@[m]).channel@.len()
                <= maxw,
            r@.len() == k,
            forall|m: int|
                0 <= m < k ==> (#[trigger] r@[m])@ == row_of(
                    toshow@[m],
                    maxw as int,
                    cols as int,
                ),
        decreases toshow@.len() - k,
    {
        r.push(render_row(&toshow[k], maxw, cols));
        k = k + 1;
    }
    r
}

} // verus!
