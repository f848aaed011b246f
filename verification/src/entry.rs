//! The data model: one feed entry and the catalog of all entries, together
//! with the string orderings and predicates that the view model is built on.

use vstd::prelude::*;

verus! {

/// One feed item: a video and its metadata. Identity is carried by `url`;
/// `published` keeps the feed's ISO-8601 lexical form, so that plain
/// character-by-character ordering on it is chronological ordering.
#[derive(Debug, PartialEq)]
pub struct Video {
    pub channel: String,
    pub title: String,
    pub thumbnail: String,
    pub url: String,
    pub published: String,
    pub description: String,
}

impl Clone for Video {
    fn clone(&self) -> (r: Self)
        ensures
            r == *self,
    {
        Video {
            channel: self.channel.clone(),
            title: self.title.clone(),
            thumbnail: self.thumbnail.clone(),
            url: self.url.clone(),
            published: self.published.clone(),
            description: self.description.clone(),
        }
    }
}

/// The catalog: every entry aggregated from every source, in no particular
/// order until the view model sorts it.
pub struct Videos {
    pub videos: Vec<Video>,
}

/// Lexicographic order on character sequences by code point: `a` comes before
/// `b` or equals it. This is the order `published` fields are sorted by.
pub open spec fn lex_le(a: Seq<char>, b: Seq<char>) -> bool
    decreases a.len(),
{
    if a.len() == 0 {
        true
    } else if b.len() == 0 {
        false
    } else if (a[0] as u32) < (b[0] as u32) {
        true
    } else if (a[0] as u32) > (b[0] as u32) {
        false
    } else {
        lex_le(a.subrange(1, a.len() as int), b.subrange(1, b.len() as int))
    }
}

/// `lex_le` is total: one of the two directions always holds.
pub proof fn lemma_lex_le_total(a: Seq<char>, b: Seq<char>)
    ensures
        lex_le(a, b) || lex_le(b, a),
    decreases a.len(),
{
    if a.len() == 0 || b.len() == 0 {
    } else if (a[0] as u32) == (b[0] as u32) {
        lemma_lex_le_total(a.subrange(1, a.len() as int), b.subrange(1, b.len() as int));
    }
}

/// `lex_le` is transitive.
pub proof fn lemma_lex_le_trans(a: Seq<char>, b: Seq<char>, c: Seq<char>)
    requires
        lex_le(a, b),
        lex_le(b, c),
    ensures
        lex_le(a, c),
    decreases a.len(),
{
    if a.len() == 0 {
    } else if b.len() == 0 {
    } else if c.len() == 0 {
    } else {
        if (a[0] as u32) == (b[0] as u32) && (b[0] as u32) == (c[0] as u32) {
            lemma_lex_le_trans(
                a.subrange(1, a.len() as int),
                b.subrange(1, b.len() as int),
                c.subrange(1, c.len() as int),
            );
        }
    }
}

/// Compares two strings in the order given by `lex_le`.
pub fn lex_le_str(a: &str, b: &str) -> (r: bool)
    ensures
        r == lex_le(a@, b@),
{
    let alen = a.unicode_len();
    let blen = b.unicode_len();
    let mut i: usize = 0;
    proof {
        assert(a@.subrange(0, alen as int) =~= a@);
        assert(b@.subrange(0, blen as int) =~= b@);
    }
    loop
        invariant
            alen == a@.len(),
            blen == b@.len(),
            i <= alen,
            i <= blen,
            lex_le(a@, b@) == lex_le(
                a@.subrange(i as int, alen as int),
                b@.subrange(i as int, blen as int),
            ),
            lex_le(b@, a@) == lex_le(
                b@.subrange(i as int, blen as int),
                a@.subrange(i as int, alen as int),
            ),
        decreases alen - i,
    {
        if i >= alen {
            proof {
                assert(a@.subrange(i as int, alen as int).len() == 0);
            }
            return true;
        }
        if i >= blen {
            proof {
                assert(b@.subrange(i as int, blen as int).len() == 0);
                assert(a@.subrange(i as int, alen as int).len() > 0);
            }
            return false;
        }
        let ca = a.get_char(i) as u32;
        let cb = b.get_char(i) as u32;
        proof {
            let sa = a@.subrange(i as int, alen as int);
            let sb = b@.subrange(i as int, blen as int);
            assert(sa[0] == a@[i as int]);
            assert(sb[0] == b@[i as int]);
            assert(sa.subrange(1, sa.len() as int) =~= a@.subrange(i + 1, alen as int));
            assert(sb.subrange(1, sb.len() as int) =~= b@.subrange(i + 1, blen as int));
            let sa2 = b@.subrange(i as int, blen as int);
            let sb2 = a@.subrange(i as int, alen as int);
            assert(sa2.subrange(1, sa2.len() as int) =~= b@.subrange(i + 1, blen as int));
            assert(sb2.subrange(1, sb2.len() as int) =~= a@.subrange(i + 1, alen as int));
        }
        if ca < cb {
            return true;
        }
        if ca > cb {
            return false;
        }
        i = i + 1;
    }
}

/// The needle occurs in the haystack starting at position `i`.
pub open spec fn is_substring_at(hay: Seq<char>, needle: Seq<char>, i: int) -> bool {
    0 <= i && i + needle.len() <= hay.len() && hay.subrange(i, i + needle.len() as int)
        == needle
}

/// The needle occurs somewhere in the haystack. An empty needle occurs in
/// every haystack.
pub open spec fn contains_seq(hay: Seq<char>, needle: Seq<char>) -> bool {
    exists|i: int| is_substring_at(hay, needle, i)
}

/// Every haystack contains the empty needle.
pub proof fn lemma_contains_empty(hay: Seq<char>, needle: Seq<char>)
    requires
        needle.len() == 0,
    ensures
        contains_seq(hay, needle),
{
    assert(hay.subrange(0, 0) =~= needle);
    assert(is_substring_at(hay, needle, 0));
}

fn match_at(hay: &str, needle: &str, i: usize, hlen: usize, nlen: usize) -> (r: bool)
    requires
        hlen == hay@.len(),
        nlen == needle@.len(),
        i + nlen <= hlen,
    ensures
        r == is_substring_at(hay@, needle@, i as int),
{
    let mut j: usize = 0;
    while j < nlen
        invariant
            hlen == hay@.len(),
            nlen == needle@.len(),
            i + nlen <= hlen,
            j <= nlen,
            forall|k: int| 0 <= k < j ==> hay@[i + k] == needle@[k],
        decreases nlen - j,
    {
        if hay.get_char(i + j) != needle.get_char(j) {
            proof {
                assert(hay@.subrange(i as int, i + nlen as int)[j as int] == hay@[i + j]);
            }
            return false;
        }
        j = j + 1;
    }
    proof {
        assert(hay@.subrange(i as int, i + nlen as int) =~= needle@);
    }
    true
}

/// Substring search: does `needle` occur in `hay`?
pub fn contains_str(hay: &str, needle: &str) -> (r: bool)
    ensures
        r == contains_seq(hay@, needle@),
{
    let hlen = hay.unicode_len();
    let nlen = needle.unicode_len();
    if nlen == 0 {
        proof {
            lemma_contains_empty(hay@, needle@);
        }
        return true;
    }
    if nlen > hlen {
        proof {
            assert(!contains_seq(hay@, needle@)) by {
                if contains_seq(hay@, needle@) {
                    let i = choose|i: int| is_substring_at(hay@, needle@, i);
                    assert(i >= 0 && i + needle@.len() <= hay@.len());
                }
            }
        }
        return false;
    }
    let bound = hlen - nlen;
    let mut i: usize = 0;
    while i <= bound
        invariant
            hlen == hay@.len(),
            nlen == needle@.len(),
            1 <= nlen <= hlen,
            bound == hlen - nlen,
            i <= bound + 1,
            forall|k: int| 0 <= k < i ==> !is_substring_at(hay@, needle@, k),
        decreases bound + 1 - i,
    {
        if match_at(hay, needle, i, hlen, nlen) {
            return true;
        }
        i = i + 1;
    }
    proof {
        assert(!contains_seq(hay@, needle@)) by {
            if contains_seq(hay@, needle@) {
                let k = choose|k: int| is_substring_at(hay@, needle@, k);
                assert(k + nlen <= hlen);
                assert(!is_substring_at(hay@, needle@, k));
            }
        }
    }
    false
}

/// An entry passes the filter when the filter text occurs in its title or in
/// its channel name; the empty filter passes everything.
pub open spec fn matches_filter(v: Video, f: Seq<char>) -> bool {
    contains_seq(v.title@, f) || contains_seq(v.channel@, f)
}

/// Filter check on one entry.
pub fn video_matches(v: &Video, f: &str) -> (r: bool)
    ensures
        r == matches_filter(*v, f@),
{
    contains_str(v.title.as_str(), f) || contains_str(v.channel.as_str(), f)
}

/// Index of the last occurrence of `c` in `s`, or -1 when `c` is absent.
pub open spec fn last_index_of(s: Seq<char>, c: char) -> int
    decreases s.len(),
{
    if s.len() == 0 {
        -1
    } else if s[s.len() - 1] == c {
        s.len() - 1
    } else {
        last_index_of(s.drop_last(), c)
    }
}

/// Index of the first occurrence of `c` in `s`, or `s.len()` when absent.
pub open spec fn first_index_of(s: Seq<char>, c: char) -> int
    decreases s.len(),
{
    if s.len() == 0 {
        0
    } else if s[0] == c {
        0
    } else {
        1 + first_index_of(s.subrange(1, s.len() as int), c)
    }
}

/// A position whose suffix is clean of `c`, and which holds `c` or is -1,
/// is the last occurrence.
proof fn lemma_last_index_char(s: Seq<char>, c: char, j: int)
    requires
        -1 <= j < s.len(),
        j >= 0 ==> s[j] == c,
        forall|k: int| j < k < s.len() ==> s[k] != c,
    ensures
        last_index_of(s, c) == j,
    decreases s.len(),
{
    if s.len() == 0 {
    } else if s[s.len() - 1] == c {
        assert(j == s.len() - 1);
    } else {
        assert(j < s.len() - 1);
        lemma_last_index_char(s.drop_last(), c, j);
    }
}

/// A position whose prefix is clean of `c`, and which holds `c` or is the
/// length, is the first occurrence.
proof fn lemma_first_index_char(s: Seq<char>, c: char, j: int)
    requires
        0 <= j <= s.len(),
        j < s.len() ==> s[j] == c,
        forall|k: int| 0 <= k < j ==> s[k] != c,
    ensures
        first_index_of(s, c) == j,
    decreases s.len(),
{
    if s.len() == 0 {
    } else if s[0] == c {
        assert(j == 0);
    } else {
        assert(j >= 1);
        let t = s.subrange(1, s.len() as int);
        assert(j - 1 < t.len() ==> t[j - 1] == c);
        assert(forall|k: int| 0 <= k < j - 1 ==> t[k] == s[k + 1] && s[k + 1] != c);
        lemma_first_index_char(t, c, j - 1);
    }
}

/// Finds the last occurrence of `c` in `s`.
fn rfind_char(s: &str, c: char) -> (r: Option<usize>)
    ensures
        match r {
            Some(j) => last_index_of(s@, c) == j,
            None => last_index_of(s@, c) == -1,
        },
{
    let len = s.unicode_len();
    let mut k = len;
    while k > 0
        invariant
            len == s@.len(),
            k <= len,
            forall|m: int| k <= m < len ==> s@[m] != c,
        decreases k,
    {
        if s.get_char(k - 1) == c {
            proof {
                lemma_last_index_char(s@, c, k - 1);
            }
            return Some(k - 1);
        }
        k = k - 1;
    }
    proof {
        lemma_last_index_char(s@, c, -1);
    }
    None
}

/// Finds the first occurrence of `c` in `s`, or returns the length.
pub fn ffind_char(s: &str, c: char) -> (r: usize)
    ensures
        first_index_of(s@, c) == r,
        r <= s@.len(),
{
    let len = s.unicode_len();
    let mut k: usize = 0;
    while k < len
        invariant
            len == s@.len(),
            k <= len,
            forall|m: int| 0 <= m < k ==> s@[m] != c,
        decreases len - k,
    {
        if s.get_char(k) == c {
            proof {
                lemma_first_index_char(s@, c, k as int);
            }
            return k;
        }
        k = k + 1;
    }
    proof {
        lemma_first_index_char(s@, c, len as int);
    }
    len
}

/// The stable identifier a media URL carries: the last path segment, with any
/// query string stripped.
pub open spec fn video_id_of(url: Seq<char>) -> Seq<char> {
    let t = url.subrange(last_index_of(url, '/') + 1, url.len() as int);
    t.subrange(0, first_index_of(t, '?'))
}

/// Bounds of `last_index_of`.
proof fn lemma_last_index_bounds(s: Seq<char>, c: char)
    ensures
        -1 <= last_index_of(s, c) < s.len(),
    decreases s.len(),
{
    if s.len() == 0 {
    } else if s[s.len() - 1] == c {
    } else {
        lemma_last_index_bounds(s.drop_last(), c);
    }
}

/// Derives the identifier of an entry from its media URL: everything after
/// the last `/`, cut at the first `?`.
pub fn get_id(v: &Video) -> (r: Option<Option<String>>)
    ensures
        r matches Some(o) && o matches Some(id) && id@ == video_id_of(v.url@),
{
    let url = v.url.as_str();
    let len = url.unicode_len();
    proof {
        lemma_last_index_bounds(url@, '/');
    }
    let tail_start = match rfind_char(url, '/') {
        Some(j) => j + 1,
        None => 0,
    };
    let tail = url.substring_char(tail_start, len);
    let q = ffind_char(tail, '?');
    let id = tail.substring_char(0, q).to_owned();
    Some(Some(id))
}

} // verus!
