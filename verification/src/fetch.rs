//! The source fetcher and aggregator: turns the text of one remote feed into
//! entries, extracts the feed URLs from the subscription document, and merges
//! the per-source results into one catalog. The network transfer itself is
//! not done here: callers hand in the document text.
//!
//! XML parsing and XPath evaluation are done by the sxd crates. Each wrapper
//! below parses the document text afresh and evaluates one path on it, so its
//! result is a function of the given strings alone; that function is given a
//! name, and everything built on the wrappers is specified through the names.
//! The wrappers admit only the fixed paths written in this module: those
//! select element and attribute nodes alone, whose document order the crate
//! keys deterministically, and hold no namespace prefix, which the empty
//! evaluation context could not resolve.

use vstd::prelude::*;
use vstd::string::StringExecFns;
use crate::entry::Video;

verus! {

/// Whether `xml` parses as an XML document: a function of the text alone.
/// The wrappers state only what an ill-formed document yields.
pub uninterp spec fn xml_well_formed(xml: Seq<char>) -> bool;

/// The string value of the XPath `path` evaluated on the document parsed
/// from `xml`; the empty string when the document or the path is bad.
pub uninterp spec fn xpath_string_of(xml: Seq<char>, path: Seq<char>) -> Seq<char>;

/// The number of nodes the XPath `path` selects on the document parsed from
/// `xml`; zero when the document or the path is bad.
pub uninterp spec fn xpath_count_of(xml: Seq<char>, path: Seq<char>) -> int;

/// The string value of the XPath `sub` evaluated on the `i`-th node, in
/// document order, of those `path` selects on the document parsed from
/// `xml`; the empty string when any step of that fails.
pub uninterp spec fn xpath_nth_of(xml: Seq<char>, path: Seq<char>, i: int, sub: Seq<char>) -> Seq<
    char,
>;

/// Relies on sxd_document::parser::parse and sxd_xpath::evaluate_xpath: the
/// result is computed from the two strings alone; a document that does not
/// parse yields the empty string. Only the feed-title path is admitted: it
/// selects no namespace nodes, whose relative order the crate leaves open,
/// and holds no namespace prefix, on which evaluation would not return.
#[verifier::external_body]
fn eval_xpath_string(xml: &str, path: &str) -> (r: String)
    requires
        path@ == feed_title_path(),
    ensures
        r@ == xpath_string_of(xml@, path@),
        !xml_well_formed(xml@) ==> r@.len() == 0,
{
    let package = match sxd_document::parser::parse(xml) { Ok(p) => p, Err(_) => return String::new() };
    let document = package.as_document();
    match sxd_xpath::evaluate_xpath(&document, path) {
        Ok(v) => v.string(),
        Err(_) => String::new(),
    }
}

/// Relies on sxd_document::parser::parse and sxd_xpath::evaluate_xpath: the
/// size of the selected nodeset is computed from the two strings alone; a
/// document that does not parse, or a non-nodeset result, counts as zero.
/// Only the two entry-selecting paths are admitted, for the reasons given
/// on the string wrapper.
#[verifier::external_body]
fn eval_xpath_count(xml: &str, path: &str) -> (r: usize)
    requires
        path@ == feed_entry_path() || path@ == outline_url_path(),
    ensures
        r as int == xpath_count_of(xml@, path@),
        !xml_well_formed(xml@) ==> r == 0,
{
    let package = match sxd_document::parser::parse(xml) { Ok(p) => p, Err(_) => return 0 };
    let document = package.as_document();
    match sxd_xpath::evaluate_xpath(&document, path) {
        Ok(sxd_xpath::Value::Nodeset(ns)) => ns.size(),
        _ => 0,
    }
}

/// Relies on sxd_document::parser::parse, sxd_xpath::evaluate_xpath and
/// sxd_xpath::XPath::evaluate: the selected nodeset is put in document order,
/// and `sub` is evaluated on its `i`-th node, all computed from the given
/// values alone; any failure yields the empty string. Only the fixed
/// path-and-field pairs of this module are admitted: they select element
/// and attribute nodes, which the document-order keying covers, so the
/// order is a function of the document, and none holds a namespace prefix.
#[verifier::external_body]
fn eval_xpath_nth(xml: &str, path: &str, i: usize, sub: &str) -> (r: String)
    requires
        path@ == feed_entry_path() && (sub@ == entry_title_path() || sub@
            == entry_thumbnail_path() || sub@ == entry_url_path() || sub@
            == entry_published_path() || sub@ == entry_description_path()) || path@
            == outline_url_path() && sub@ == self_value_path(),
    ensures
        r@ == xpath_nth_of(xml@, path@, i as int, sub@),
        !xml_well_formed(xml@) ==> r@.len() == 0,
{
    let package = match sxd_document::parser::parse(xml) { Ok(p) => p, Err(_) => return String::new() };
    let document = package.as_document();
    let nodes = match sxd_xpath::evaluate_xpath(&document, path) {
        Ok(sxd_xpath::Value::Nodeset(ns)) => ns.document_order(),
        _ => return String::new(),
    };
    match sxd_xpath::Factory::new().build(sub) {
        Ok(Some(xp)) => match nodes.get(i).map(|n| xp.evaluate(&sxd_xpath::context::Context::new(), *n)) {
            Some(Ok(v)) => v.string(),
            _ => String::new(),
        },
        _ => String::new(),
    }
}

/// The path selecting a feed's own title.
pub open spec fn feed_title_path() -> Seq<char> {
    "string(/*[local-name() = 'feed']/*[local-name() = 'title']/text())"@
}

/// The path selecting a feed's entries.
pub open spec fn feed_entry_path() -> Seq<char> {
    "/*[local-name() = 'feed']/*[local-name() = 'entry']"@
}

/// The path selecting an entry's title.
pub open spec fn entry_title_path() -> Seq<char> {
    "string(*[local-name() = 'title']/text())"@
}

/// The path selecting an entry's thumbnail URL.
pub open spec fn entry_thumbnail_path() -> Seq<char> {
    "string(*[local-name() = 'group']/*[local-name() = 'thumbnail']/@url)"@
}

/// The path selecting an entry's media URL.
pub open spec fn entry_url_path() -> Seq<char> {
    "string(*[local-name() = 'group']/*[local-name() = 'content']/@url)"@
}

/// The path selecting an entry's publication timestamp.
pub open spec fn entry_published_path() -> Seq<char> {
    "string(*[local-name() = 'published']/text())"@
}

/// The path selecting an entry's description.
pub open spec fn entry_description_path() -> Seq<char> {
    "string(*[local-name() = 'group']/*[local-name() = 'description']/text())"@
}

/// Parses one feed document into its entries. Every entry carries the feed's
/// own title as its channel name. A document that does not parse, or has no
/// entries, yields the empty sequence: one bad source never aborts a batch.
pub fn parse_feed(xml: &str) -> (r: Vec<Video>)
    ensures
        r@.len() == xpath_count_of(xml@, feed_entry_path()),
        !xml_well_formed(xml@) ==> r@.len() == 0,
        forall|k: int|
            0 <= k < r@.len() ==> {
                &&& (#[trigger] r@[k]).channel@ == xpath_string_of(xml@, feed_title_path())
                &&& r@[k].title@ == xpath_nth_of(xml@, feed_entry_path(), k, entry_title_path())
                &&& r@[k].thumbnail@ == xpath_nth_of(
                    xml@,
                    feed_entry_path(),
                    k,
                    entry_thumbnail_path(),
                )
                &&& r@[k].url@ == xpath_nth_of(xml@, feed_entry_path(), k, entry_url_path())
                &&& r@[k].published@ == xpath_nth_of(
                    xml@,
                    feed_entry_path(),
                    k,
                    entry_published_path(),
                )
                &&& r@[k].description@ == xpath_nth_of(
                    xml@,
                    feed_entry_path(),
                    k,
                    entry_description_path(),
                )
            },
{
    let entry_path = "/*[local-name() = 'feed']/*[local-name() = 'entry']";
    let title = eval_xpath_string(
        xml,
        "string(/*[local-name() = 'feed']/*[local-name() = 'title']/text())",
    );
    let count = eval_xpath_count(xml, entry_path);
    let mut r: Vec<Video> = Vec::new();
    let mut k: usize = 0;
    while k < count
        invariant
            count as int == xpath_count_of(xml@, feed_entry_path()),
            title@ == xpath_string_of(xml@, feed_title_path()),
            entry_path@ == feed_entry_path(),
            k <= count,
            r@.len() == k,
            forall|m: int|
                0 <= m < k ==> {
                    &&& (#[trigger] r@[m]).channel@ == xpath_string_of(xml@, feed_title_path())
                    &&& r@[m].title@ == xpath_nth_of(xml@, feed_entry_path(), m, entry_title_path())
                    &&& r@[m].thumbnail@ == xpath_nth_of(
                        xml@,
                        feed_entry_path(),
                        m,
                        entry_thumbnail_path(),
                    )
                    &&& r@[m].url@ == xpath_nth_of(xml@, feed_entry_path(), m, entry_url_path())
                    &&& r@[m].published@ == xpath_nth_of(
                        xml@,
                        feed_entry_path(),
                        m,
                        entry_published_path(),
                    )
                    &&& r@[m].description@ == xpath_nth_of(
                        xml@,
                        feed_entry_path(),
                        m,
                        entry_description_path(),
                    )
                },
        decreases count - k,
    {
        let video = Video {
            channel: title.clone(),
            title: eval_xpath_nth(xml, entry_path, k, "string(*[local-name() = 'title']/text())"),
            thumbnail: eval_xpath_nth(
                xml,
                entry_path,
                k,
                "string(*[local-name() = 'group']/*[local-name() = 'thumbnail']/@url)",
            ),
            url: eval_xpath_nth(
                xml,
                entry_path,
                k,
                "string(*[local-name() = 'group']/*[local-name() = 'content']/@url)",
            ),
            published: eval_xpath_nth(xml, entry_path, k, "string(*[local-name() = 'published']/text())"),
            description: eval_xpath_nth(
                xml,
                entry_path,
                k,
                "string(*[local-name() = 'group']/*[local-name() = 'description']/text())",
            ),
        };
        r.push(video);
        k = k + 1;
    }
    r
}

/// The path selecting the feed URLs of the subscription document.
pub open spec fn outline_url_path() -> Seq<char> {
    "//outline/@xmlUrl"@
}

/// The path taking a selected node to its own string value.
pub open spec fn self_value_path() -> Seq<char> {
    "string(.)"@
}

/// The feed URL prefix an extra channel identifier is appended to.
pub open spec fn channel_feed_prefix() -> Seq<char> {
    "https://www.youtube.com/feeds/videos.xml?channel_id="@
}

/// Extracts every feed URL from the subscription document, then appends one
/// derived feed URL for each extra channel identifier.
pub fn subscription_urls(xml: &str, additional_channel_ids: &Vec<String>) -> (r: Vec<String>)
    ensures
        r@.len() == xpath_count_of(xml@, outline_url_path()) + additional_channel_ids@.len(),
        !xml_well_formed(xml@) ==> r@.len() == additional_channel_ids@.len(),
        forall|k: int|
            0 <= k < xpath_count_of(xml@, outline_url_path()) ==> (#[trigger] r@[k])@
                == xpath_nth_of(xml@, outline_url_path(), k, self_value_path()),
        forall|j: int|
            0 <= j < additional_channel_ids@.len() ==> (#[trigger] r@[xpath_count_of(
                xml@,
                outline_url_path(),
            ) + j])@ == channel_feed_prefix() + additional_channel_ids@[j]@,
{
    let outline_path = "//outline/@xmlUrl";
    let count = eval_xpath_count(xml, outline_path);
    let mut r: Vec<String> = Vec::new();
    let mut k: usize = 0;
    while k < count
        invariant
            count as int == xpath_count_of(xml@, outline_url_path()),
            outline_path@ == outline_url_path(),
            k <= count,
            r@.len() == k,
            forall|m: int|
                0 <= m < k ==> (#[trigger] r@[m])@ == xpath_nth_of(
                    xml@,
                    outline_url_path(),
                    m,
                    self_value_path(),
                ),
        decreases count - k,
    {
        r.push(eval_xpath_nth(xml, outline_path, k, "string(.)"));
        k = k + 1;
    }
    let mut j: usize = 0;
    while j < additional_channel_ids.len()
        invariant
            count as int == xpath_count_of(xml@, outline_url_path()),
            j <= additional_channel_ids@.len(),
            r@.len() == count + j,
            forall|m: int|
                0 <= m < count ==> (#[trigger] r@[m])@ == xpath_nth_of(
                    xml@,
                    outline_url_path(),
                    m,
                    self_value_path(),
                ),
            forall|m: int|
                0 <= m < j ==> (#[trigger] r@[count + m])@ == channel_feed_prefix()
                    + additional_channel_ids@[m]@,
        decreases additional_channel_ids@.len() - j,
    {
        let url = "https://www.youtube.com/feeds/videos.xml?channel_id=".to_owned().concat(
            additional_channel_ids[j].as_str(),
        );
        r.push(url);
        j = j + 1;
    }
    r
}

/// The concatenation of the per-source results, in batch order.
pub open spec fn flat(s: Seq<Seq<Video>>) -> Seq<Video>
    decreases s.len(),
{
    if s.len() == 0 {
        Seq::empty()
    } else {
        flat(s.drop_last()) + s.last()
    }
}

/// Merges the per-source results of one aggregation batch into one catalog,
/// keeping every record of every source (duplicates across sources stay).
pub fn merge(results: &Vec<Vec<Video>>) -> (r: Vec<Video>)
    ensures
        r@ == flat(results@.map_values(|v: Vec<Video>| v@)),
{
    let ghost all = results@.map_values(|v: Vec<Video>| v@);
    let mut r: Vec<Video> = Vec::new();
    let mut i: usize = 0;
    proof {
        assert(all.subrange(0, 0) =~= Seq::<Seq<Video>>::empty());
    }
    while i < results.len()
        invariant
            all == results@.map_values(|v: Vec<Video>| v@),
            i <= results@.len(),
            r@ == flat(all.subrange(0, i as int)),
        decreases results@.len() - i,
    {
        let inner = &results[i];
        let mut j: usize = 0;
        while j < inner.len()
            invariant
                all == results@.map_values(|v: Vec<Video>| v@),
                i < results@.len(),
                inner@ == all[i as int],
                j <= inner@.len(),
                r@ == flat(all.subrange(0, i as int)) + inner@.subrange(0, j as int),
            decreases inner@.len() - j,
        {
            r.push(inner[j].clone());
            proof {
                assert(inner@.subrange(0, j + 1) =~= inner@.subrange(0, j as int).push(
                    inner@[j as int],
                ));
            }
            j = j + 1;
        }
        proof {
            let pre = all.subrange(0, i + 1);
            assert(pre.drop_last() =~= all.subrange(0, i as int));
            assert(pre.last() == all[i as int]);
            assert(inner@.subrange(0, inner@.len() as int) =~= inner@);
        }
        i = i + 1;
    }
    proof {
        assert(all.subrange(0, all.len() as int) =~= all);
    }
    r
}

/// Fetch isolation: a source that contributed nothing can be dropped from a
/// batch without changing the merged catalog, so one failed source costs the
/// catalog only that source's own entries.
pub proof fn lemma_fetch_isolation(results: Seq<Seq<Video>>, k: int)
    requires
        0 <= k < results.len(),
        results[k].len() == 0,
    ensures
        flat(results) == flat(results.remove(k)),
    decreases results.len(),
{
    if k == results.len() - 1 {
        assert(results.remove(k) =~= results.drop_last());
        assert(results.last() =~= Seq::<Video>::empty());
        assert(flat(results) =~= flat(results.drop_last()));
    } else {
        lemma_fetch_isolation(results.drop_last(), k);
        let shorter = results.remove(k);
        assert(shorter.drop_last() =~= results.drop_last().remove(k));
        assert(shorter.last() == results.last());
        assert(flat(results) =~= flat(shorter));
    }
}

} // verus!
