//! The view model: derives the visible window of the catalog from a filter,
//! a scroll offset and the viewport size. Owns the sort and filter semantics.

use vstd::prelude::*;
use vstd::seq_lib::lemma_multiset_commutative;
use vstd::multiset::Multiset;
use crate::entry::{lex_le, lemma_lex_le_total, lemma_lex_le_trans, lex_le_str};
use crate::entry::{matches_filter, video_matches, Video};

verus! {

/// The catalog order: `published` fields never increase along the sequence,
/// so the newest entry comes first.
pub open spec fn sorted_by_published_desc(s: Seq<Video>) -> bool {
    forall|i: int, j: int|
        0 <= i <= j < s.len() ==> lex_le(#[trigger] s[j].published@, #[trigger] s[i].published@)
}

/// The entries of `s` that pass the filter, in their order in `s`.
pub open spec fn filter_videos(s: Seq<Video>, f: Seq<char>) -> Seq<Video>
    decreases s.len(),
{
    if s.len() == 0 {
        Seq::empty()
    } else {
        let rest = filter_videos(s.drop_last(), f);
        if matches_filter(s.last(), f) {
            rest.push(s.last())
        } else {
            rest
        }
    }
}

/// Filter correctness: an entry appears in the filtered catalog exactly when
/// it appears in the catalog and passes the filter.
pub proof fn lemma_filter_videos_correct(s: Seq<Video>, f: Seq<char>)
    ensures
        forall|v: Video| #[trigger] filter_videos(s, f).contains(v) <==> s.contains(v)
            && matches_filter(v, f),
    decreases s.len(),
{
    if s.len() == 0 {
    } else {
        let rest = filter_videos(s.drop_last(), f);
        lemma_filter_videos_correct(s.drop_last(), f);
        assert forall|v: Video| #[trigger] filter_videos(s, f).contains(v) implies s.contains(v)
            && matches_filter(v, f) by {
            let fv = filter_videos(s, f);
            let i = choose|i: int| 0 <= i < fv.len() && fv[i] == v;
            if matches_filter(s.last(), f) && i == fv.len() - 1 {
                assert(s[s.len() - 1] == v);
            } else {
                assert(rest.contains(v));
                assert(s.drop_last().contains(v));
                let k = choose|k: int| 0 <= k < s.drop_last().len() && s.drop_last()[k] == v;
                assert(s[k] == v);
            }
        }
        assert forall|v: Video| s.contains(v) && matches_filter(v, f) implies #[trigger]
        filter_videos(s, f).contains(v) by {
            let fv = filter_videos(s, f);
            let i = choose|i: int| 0 <= i < s.len() && s[i] == v;
            if i == s.len() - 1 {
                assert(fv[fv.len() - 1] == v);
            } else {
                assert(s.drop_last()[i] == v);
                assert(s.drop_last().contains(v));
                assert(rest.contains(v));
                let k = choose|k: int| 0 <= k < rest.len() && rest[k] == v;
                assert(fv[k] == v);
            }
        }
    }
}

/// The empty filter keeps the whole catalog, in order.
pub proof fn lemma_filter_videos_empty(s: Seq<Video>, f: Seq<char>)
    requires
        f.len() == 0,
    ensures
        filter_videos(s, f) == s,
    decreases s.len(),
{
    if s.len() == 0 {
        assert(filter_videos(s, f) =~= s);
    } else {
        crate::entry::lemma_contains_empty(s.last().title@, f);
        lemma_filter_videos_empty(s.drop_last(), f);
        assert(filter_videos(s, f) =~= s);
    }
}

/// Inserting an element anywhere into a sequence adds it to the multiset of
/// elements.
proof fn lemma_to_multiset_insert(s: Seq<Video>, i: int, a: Video)
    requires
        0 <= i <= s.len(),
    ensures
        s.insert(i, a).to_multiset() == s.to_multiset().insert(a),
{
    broadcast use vstd::seq_lib::group_to_multiset_ensures;

    let pre = s.subrange(0, i);
    let post = s.subrange(i, s.len() as int);
    assert(s.insert(i, a) =~= pre + (seq![a] + post));
    assert(s =~= pre + post);
    lemma_multiset_commutative(pre, seq![a] + post);
    lemma_multiset_commutative(seq![a], post);
    lemma_multiset_commutative(pre, post);
    assert(seq![a] =~= Seq::<Video>::empty().push(a));
    assert(Seq::<Video>::empty().to_multiset() =~= Multiset::<Video>::empty());
    assert(s.insert(i, a).to_multiset() =~= s.to_multiset().insert(a));
}

/// Sorts the catalog in place, newest first. The entries are rearranged and
/// nothing else: the multiset of entries is unchanged.
pub fn sort_videos(v: &mut Vec<Video>)
    ensures
        final(v)@.to_multiset() == old(v)@.to_multiset(),
        final(v)@.len() == old(v)@.len(),
        sorted_by_published_desc(final(v)@),
{
    broadcast use vstd::seq_lib::group_to_multiset_ensures;

    proof {
        assert forall|a: Seq<char>| #[trigger] lex_le(a, a) by {
            lemma_lex_le_total(a, a);
        }
    }
    let mut i: usize = 1;
    while i < v.len()
        invariant
            i >= 1,
            v@.len() == old(v)@.len(),
            v@.to_multiset() == old(v)@.to_multiset(),
            sorted_by_published_desc(v@.subrange(0, if i <= v@.len() { i as int } else { v@.len() as int })),
        decreases v@.len() - i,
    {
        let ghost prev = v@;
        let x = v.remove(i);
        let mut j: usize = 0;
        loop
            invariant_except_break
                i < prev.len(),
                v@ == prev.remove(i as int),
                j <= i,
                forall|k: int| 0 <= k < j ==> !lex_le(#[trigger] v@[k].published@, x.published@),
            ensures
                i < prev.len(),
                v@ == prev.remove(i as int),
                j <= i,
                forall|k: int| 0 <= k < j ==> !lex_le(#[trigger] v@[k].published@, x.published@),
                j < i ==> lex_le(v@[j as int].published@, x.published@),
            decreases i - j,
        {
            if j >= i {
                break;
            }
            if lex_le_str(v[j].published.as_str(), x.published.as_str()) {
                break;
            }
            j = j + 1;
        }
        proof {
            assert forall|k: int| 0 <= k < j implies lex_le(
                x.published@,
                #[trigger] v@[k].published@,
            ) by {
                lemma_lex_le_total(v@[k].published@, x.published@);
            }
        }
        let ghost mid = v@;
        v.insert(j, x);
        proof {
            lemma_to_multiset_insert(mid, j as int, x);
            broadcast use vstd::multiset::group_multiset_axioms;
            prev.to_multiset_ensures();
            assert(prev.contains(prev[i as int]));
            assert(prev.to_multiset().count(prev[i as int]) > 0);
            assert(mid.to_multiset() == prev.remove(i as int).to_multiset());
            assert(mid.to_multiset() =~= prev.to_multiset().remove(prev[i as int]));
            assert(prev.to_multiset() =~= mid.to_multiset().insert(prev[i as int]));
            assert(v@.to_multiset() =~= prev.to_multiset());
            // the freshly sorted prefix
            let snew = v@.subrange(0, i + 1);
            let sold = prev.subrange(0, i as int);
            assert forall|p: int, q: int| 0 <= p <= q < snew.len() implies lex_le(
                snew[q].published@,
                snew[p].published@,
            ) by {
                prev.remove_ensures(i as int);
                mid.insert_ensures(j as int, x);
                lemma_lex_le_total(x.published@, x.published@);
                assert(forall|k: int| 0 <= k < j ==> snew[k] == sold[k]);
                assert(snew[j as int] == x);
                assert(forall|k: int| j < k <= i ==> snew[k] == sold[k - 1]);
                assert(sorted_by_published_desc(sold));
                if q < j {
                    // both inside the untouched front
                } else if p < j && q == j {
                    // x after the front: x <= front elements
                } else if p < j && q > j {
                    assert(lex_le(sold[q - 1].published@, sold[j - 1].published@));
                    assert(lex_le(sold[j - 1].published@, sold[p].published@));
                    lemma_lex_le_trans(
                        sold[q - 1].published@,
                        sold[j - 1].published@,
                        sold[p].published@,
                    );
                } else if p == j && q > j {
                    // front of the back is below x: v[j] was <= x when the scan stopped
                    if j < i {
                        assert(lex_le(mid[j as int].published@, x.published@));
                        assert(lex_le(sold[q - 1].published@, sold[j as int].published@));
                        assert(mid[j as int] == sold[j as int]);
                        lemma_lex_le_trans(
                            sold[q - 1].published@,
                            sold[j as int].published@,
                            x.published@,
                        );
                    }
                } else if p > j {
                    // both inside the shifted back
                }
            }
            assert(sorted_by_published_desc(snew));
        }
        i = i + 1;
    }
    proof {
        if v@.len() > 0 {
            assert(v@.subrange(0, if i <= v@.len() { i as int } else { v@.len() as int }) =~= v@);
        }
    }
}

/// Keeps the entries that pass the filter, cloning them in order.
pub fn filter_exec(videos: &Vec<Video>, filter: &str) -> (r: Vec<Video>)
    ensures
        r@ == filter_videos(videos@, filter@),
{
    let mut r: Vec<Video> = Vec::new();
    let mut i: usize = 0;
    proof {
        assert(videos@.subrange(0, 0) =~= Seq::<Video>::empty());
    }
    while i < videos.len()
        invariant
            i <= videos@.len(),
            r@ == filter_videos(videos@.subrange(0, i as int), filter@),
        decreases videos@.len() - i,
    {
        proof {
            let pre = videos@.subrange(0, i + 1);
            assert(pre.drop_last() =~= videos@.subrange(0, i as int));
            assert(pre.last() == videos@[i as int]);
        }
        if video_matches(&videos[i], filter) {
            r.push(videos[i].clone());
        }
        i = i + 1;
    }
    proof {
        assert(videos@.subrange(0, videos@.len() as int) =~= videos@);
    }
    r
}

/// Derives the visible window: the catalog is sorted newest first, filtered,
/// the slice `[start, min(end, len))` is taken and then reversed, so the
/// oldest visible entry renders first. An out-of-range start or an empty
/// window yields no entries.
pub fn to_show_videos(videos: &mut Vec<Video>, start: usize, end: usize, filter: &String) -> (r:
    Vec<Video>)
    ensures
        final(videos)@.to_multiset() == old(videos)@.to_multiset(),
        final(videos)@.len() == old(videos)@.len(),
        sorted_by_published_desc(final(videos)@),
        ({
            let f = filter_videos(final(videos)@, filter@);
            let hi = if end <= f.len() {
                end as int
            } else {
                f.len() as int
            };
            &&& (start as int) < hi ==> r@.len() == hi - start && (forall|k: int|
                0 <= k < r@.len() ==> r@[k] == f[hi - 1 - k])
            &&& (start as int) >= hi ==> r@.len() == 0
        }),
        start <= end ==> r@.len() <= end - start,
{
    sort_videos(videos);
    let filtered = filter_exec(videos, filter.as_str());
    let flen = filtered.len();
    let hi = if end <= flen {
        end
    } else {
        flen
    };
    let mut r: Vec<Video> = Vec::new();
    if start >= hi {
        return r;
    }
    let mut k: usize = 0;
    while k < hi - start
        invariant
            start < hi <= flen,
            flen == filtered@.len(),
            k <= hi - start,
            r@.len() == k,
            forall|m: int| 0 <= m < k ==> r@[m] == filtered@[hi - 1 - m],
        decreases hi - start - k,
    {
        r.push(filtered[hi - 1 - k].clone());
        k = k + 1;
    }
    r
}

} // verus!
