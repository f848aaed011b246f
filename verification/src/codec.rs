//! The cache document: the catalog serialized as one JSON document
//! `{"videos":[...]}` with the six string fields of every entry. The
//! encoder is exact to the character; the string escaping is proved to be
//! undone exactly by the matching unescape.

use vstd::prelude::*;
use vstd::string::StringExecFns;
use crate::entry::{Video, Videos};

verus! {

/// How one character is written inside a JSON string literal: quotes and
/// backslashes are escaped, the common control characters by letter, and
/// everything else stands as itself.
pub open spec fn esc_char(c: char) -> Seq<char> {
    if c == '"' || c == '\\' {
        seq!['\\', c]
    } else if c == '\n' {
        seq!['\\', 'n']
    } else if c == '\r' {
        seq!['\\', 'r']
    } else if c == '\t' {
        seq!['\\', 't']
    } else {
        seq![c]
    }
}

/// A whole string escaped for a JSON literal.
pub open spec fn esc(s: Seq<char>) -> Seq<char>
    decreases s.len(),
{
    if s.len() == 0 {
        Seq::empty()
    } else {
        esc_char(s[0]) + esc(s.subrange(1, s.len() as int))
    }
}

/// What an escape letter stands for.
pub open spec fn unesc_code(c: char) -> char {
    if c == 'n' {
        '\n'
    } else if c == 'r' {
        '\r'
    } else if c == 't' {
        '\t'
    } else {
        c
    }
}

/// Undoes `esc`: a backslash takes the next character by `unesc_code`; a
/// dangling final backslash is dropped.
pub open spec fn unesc(s: Seq<char>) -> Seq<char>
    decreases s.len(),
{
    if s.len() == 0 {
        Seq::empty()
    } else if s[0] == '\\' {
        if s.len() == 1 {
            Seq::empty()
        } else {
            seq![unesc_code(s[1])] + unesc(s.subrange(2, s.len() as int))
        }
    } else {
        seq![s[0]] + unesc(s.subrange(1, s.len() as int))
    }
}

/// Escaping round-trips: unescaping an escaped string gives the string
/// back, for every string.
pub proof fn lemma_unesc_esc(s: Seq<char>)
    ensures
        unesc(esc(s)) == s,
    decreases s.len(),
{
    if s.len() == 0 {
        assert(unesc(esc(s)) =~= s);
    } else {
        let rest = s.subrange(1, s.len() as int);
        lemma_unesc_esc(rest);
        let e = esc(s);
        let c = s[0];
        if c == '"' || c == '\\' || c == '\n' || c == '\r' || c == '\t' {
            assert(e[0] == '\\');
            assert(e.len() >= 2);
            assert(e.subrange(2, e.len() as int) =~= esc(rest));
            assert(seq![unesc_code(e[1])] =~= seq![c]);
            assert(unesc(e) =~= seq![c] + unesc(esc(rest)));
            assert(seq![c] + rest =~= s);
        } else {
            assert(e[0] == c && c != '\\');
            assert(e.subrange(1, e.len() as int) =~= esc(rest));
            assert(unesc(e) =~= seq![c] + unesc(esc(rest)));
            assert(seq![c] + rest =~= s);
        }
    }
}

/// Appends `esc(s@)` to `out`.
fn append_escaped(s: &str, out: &mut String)
    ensures
        final(out)@ == old(out)@ + esc(s@),
{
    proof {
        reveal_strlit("\\\"");
        reveal_strlit("\\\\");
        reveal_strlit("\\n");
        reveal_strlit("\\r");
        reveal_strlit("\\t");
    }
    let len = s.unicode_len();
    let ghost orig = out@;
    let mut i: usize = 0;
    proof {
        assert(s@.subrange(0, len as int) =~= s@);
    }
    while i < len
        invariant
            len == s@.len(),
            i <= len,
            out@ + esc(s@.subrange(i as int, len as int)) == orig + esc(s@),
            "\\\""@ =~= seq!['\\', '"'],
            "\\\\"@ =~= seq!['\\', '\\'],
            "\\n"@ =~= seq!['\\', 'n'],
            "\\r"@ =~= seq!['\\', 'r'],
            "\\t"@ =~= seq!['\\', 't'],
        decreases len - i,
    {
        proof {
            let suf = s@.subrange(i as int, len as int);
            assert(suf[0] == s@[i as int]);
            assert(suf.subrange(1, suf.len() as int) =~= s@.subrange(i + 1, len as int));
        }
        let c = s.get_char(i);
        if c == '"' {
            out.append("\\\"");
        } else if c == '\\' {
            out.append("\\\\");
        } else if c == '\n' {
            out.append("\\n");
        } else if c == '\r' {
            out.append("\\r");
        } else if c == '\t' {
            out.append("\\t");
        } else {
            out.append(s.substring_char(i, i + 1));
            proof {
                assert(s@.subrange(i as int, i + 1) =~= seq![s@[i as int]]);
            }
        }
        proof {
            let suf = s@.subrange(i as int, len as int);
            assert(out@ + esc(s@.subrange(i + 1, len as int)) =~= orig + esc(s@)) by {
                assert(esc(suf) =~= esc_char(s@[i as int]) + esc(s@.subrange(i + 1, len as int)));
            }
        }
        i = i + 1;
    }
    proof {
        assert(s@.subrange(len as int, len as int) =~= Seq::<char>::empty());
        assert(out@ =~= out@ + esc(s@.subrange(len as int, len as int)));
    }
}

/// The escape letters the encoder produces; the decoder admits no others.
pub open spec fn esc_letter(c: char) -> bool {
    c == '"' || c == '\\' || c == 'n' || c == 'r' || c == 't'
}

/// `x` begins with `p`.
pub open spec fn starts_with(x: Seq<char>, p: Seq<char>) -> bool {
    p.len() <= x.len() && x.subrange(0, p.len() as int) == p
}

/// Reading a JSON string literal from the front of `x`, up to its closing
/// quote: the unescaped content, and what follows the quote. An escape the
/// encoder never writes is rejected, not guessed at.
pub open spec fn scan_lit(x: Seq<char>) -> Option<(Seq<char>, Seq<char>)>
    decreases x.len(),
{
    if x.len() == 0 {
        Option::None
    } else if x[0] == '"' {
        Option::Some((Seq::empty(), x.subrange(1, x.len() as int)))
    } else if x[0] == '\\' {
        if x.len() < 2 || !esc_letter(x[1]) {
            Option::None
        } else {
            match scan_lit(x.subrange(2, x.len() as int)) {
                Option::Some(p) => Option::Some((seq![unesc_code(x[1])] + p.0, p.1)),
                Option::None => Option::None,
            }
        }
    } else {
        match scan_lit(x.subrange(1, x.len() as int)) {
            Option::Some(p) => Option::Some((seq![x[0]] + p.0, p.1)),
            Option::None => Option::None,
        }
    }
}

/// Reading an escaped string with its closing quote gives the string back,
/// whatever follows.
proof fn lemma_scan_lit_esc(s: Seq<char>, t: Seq<char>)
    ensures
        scan_lit(esc(s) + seq!['"'] + t) == Option::<(Seq<char>, Seq<char>)>::Some((s, t)),
    decreases s.len(),
{
    let x = esc(s) + seq!['"'] + t;
    if s.len() == 0 {
        assert(x[0] == '"');
        assert(x.subrange(1, x.len() as int) =~= t);
        assert(scan_lit(x) == Option::<(Seq<char>, Seq<char>)>::Some((Seq::<char>::empty(), t)));
        assert(s =~= Seq::<char>::empty());
    } else {
        let rest = s.subrange(1, s.len() as int);
        lemma_scan_lit_esc(rest, t);
        let c = s[0];
        assert(esc(s) =~= esc_char(c) + esc(rest));
        if c == '"' || c == '\\' || c == '\n' || c == '\r' || c == '\t' {
            assert(x[0] == '\\');
            assert(x[1] == esc_char(c)[1]);
            assert(esc_letter(x[1]));
            assert(x.subrange(2, x.len() as int) =~= esc(rest) + seq!['"'] + t);
            assert(unesc_code(esc_char(c)[1]) == c);
            assert(seq![c] + rest =~= s);
        } else {
            assert(x[0] == c);
            assert(x.subrange(1, x.len() as int) =~= esc(rest) + seq!['"'] + t);
            assert(seq![c] + rest =~= s);
        }
    }
}

/// The six fields of one parsed cache entry.
pub ghost struct VideoFields {
    pub channel: Seq<char>,
    pub title: Seq<char>,
    pub thumbnail: Seq<char>,
    pub url: Seq<char>,
    pub published: Seq<char>,
    pub description: Seq<char>,
}

/// The fields an entry serializes to.
pub open spec fn fields_of(v: Video) -> VideoFields {
    VideoFields {
        channel: v.channel@,
        title: v.title@,
        thumbnail: v.thumbnail@,
        url: v.url@,
        published: v.published@,
        description: v.description@,
    }
}

/// A labelled field: the label text, then a string literal.
pub open spec fn parse_field(x: Seq<char>, label: Seq<char>) -> Option<(Seq<char>, Seq<char>)> {
    if starts_with(x, label) {
        scan_lit(x.subrange(label.len() as int, x.len() as int))
    } else {
        Option::None
    }
}

/// Reading one serialized entry from the front of `x`: its fields, and what
/// follows the closing brace.
#[verifier::opaque]
pub open spec fn parse_video(x: Seq<char>) -> Option<(VideoFields, Seq<char>)> {
    match parse_field(x, "{\"channel\":\""@) {
        Option::Some((channel, x1)) => match parse_field(x1, ",\"title\":\""@) {
            Option::Some((title, x2)) => match parse_field(x2, ",\"thumbnail\":\""@) {
                Option::Some((thumbnail, x3)) => match parse_field(x3, ",\"url\":\""@) {
                    Option::Some((url, x4)) => match parse_field(x4, ",\"published\":\""@) {
                        Option::Some((published, x5)) => match parse_field(
                            x5,
                            ",\"description\":\""@,
                        ) {
                            Option::Some((description, x6)) => if starts_with(x6, "}"@) {
                                Option::Some(
                                    (
                                        VideoFields {
                                            channel,
                                            title,
                                            thumbnail,
                                            url,
                                            published,
                                            description,
                                        },
                                        x6.subrange(1, x6.len() as int),
                                    ),
                                )
                            } else {
                                Option::None
                            },
                            Option::None => Option::None,
                        },
                        Option::None => Option::None,
                    },
                    Option::None => Option::None,
                },
                Option::None => Option::None,
            },
            Option::None => Option::None,
        },
        Option::None => Option::None,
    }
}

/// What follows a parsed entry: either the end of the document, or a comma
/// and the entries after it.
pub open spec fn parse_rest(y: Seq<char>) -> Option<Seq<VideoFields>>
    decreases y.len(),
{
    if y == "]}"@ {
        Option::Some(Seq::empty())
    } else if starts_with(y, ","@) {
        match parse_video(y.subrange(1, y.len() as int)) {
            Option::Some((f, rest)) => if rest.len() < y.len() {
                match parse_rest(rest) {
                    Option::Some(fs) => Option::Some(seq![f] + fs),
                    Option::None => Option::None,
                }
            } else {
                Option::None
            },
            Option::None => Option::None,
        }
    } else {
        Option::None
    }
}

/// Reading a whole cache document: the fields of every entry, in order.
pub open spec fn parse_doc(x: Seq<char>) -> Option<Seq<VideoFields>> {
    if starts_with(x, "{\"videos\":["@) {
        let y = x.subrange("{\"videos\":["@.len() as int, x.len() as int);
        if y == "]}"@ {
            Option::Some(Seq::empty())
        } else {
            match parse_video(y) {
                Option::Some((f, rest)) => match parse_rest(rest) {
                    Option::Some(fs) => Option::Some(seq![f] + fs),
                    Option::None => Option::None,
                },
                Option::None => Option::None,
            }
        }
    } else {
        Option::None
    }
}

/// One serialized entry reads back as its own fields, whatever follows.
#[verifier::rlimit(100)]
proof fn lemma_parse_video_of(v: Video, t: Seq<char>)
    ensures
        parse_video(json_of_video(v) + t) == Option::<(VideoFields, Seq<char>)>::Some(
            (fields_of(v), t),
        ),
{
    reveal(parse_video);
    let x = json_of_video(v) + t;
    let x6 = "}"@ + t;
    reveal_strlit("\"}");
    reveal_strlit("}");
    reveal_strlit("\",\"title\":\"");
    reveal_strlit(",\"title\":\"");
    reveal_strlit("\",\"thumbnail\":\"");
    reveal_strlit(",\"thumbnail\":\"");
    reveal_strlit("\",\"url\":\"");
    reveal_strlit(",\"url\":\"");
    reveal_strlit("\",\"published\":\"");
    reveal_strlit(",\"published\":\"");
    reveal_strlit("\",\"description\":\"");
    reveal_strlit(",\"description\":\"");
    // each inter-field label is a quote followed by the next label
    assert("\",\"title\":\""@ =~= seq!['"'] + ",\"title\":\""@);
    assert("\",\"thumbnail\":\""@ =~= seq!['"'] + ",\"thumbnail\":\""@);
    assert("\",\"url\":\""@ =~= seq!['"'] + ",\"url\":\""@);
    assert("\",\"published\":\""@ =~= seq!['"'] + ",\"published\":\""@);
    assert("\",\"description\":\""@ =~= seq!['"'] + ",\"description\":\""@);
    assert("\"}"@ =~= seq!['"'] + "}"@);
    let r5 = ",\"description\":\""@ + esc(v.description@) + seq!['"'] + x6;
    let r4 = ",\"published\":\""@ + esc(v.published@) + seq!['"'] + r5;
    let r3 = ",\"url\":\""@ + esc(v.url@) + seq!['"'] + r4;
    let r2 = ",\"thumbnail\":\""@ + esc(v.thumbnail@) + seq!['"'] + r3;
    let r1 = ",\"title\":\""@ + esc(v.title@) + seq!['"'] + r2;
    assert(x =~= "{\"channel\":\""@ + (esc(v.channel@) + seq!['"'] + r1));
    assert(starts_with(x, "{\"channel\":\""@)) by {
        assert(x.subrange(0, "{\"channel\":\""@.len() as int) =~= "{\"channel\":\""@);
    }
    assert(x.subrange("{\"channel\":\""@.len() as int, x.len() as int) =~= esc(v.channel@)
        + seq!['"'] + r1);
    lemma_scan_lit_esc(v.channel@, r1);
    assert(starts_with(r1, ",\"title\":\""@)) by {
        assert(r1.subrange(0, ",\"title\":\""@.len() as int) =~= ",\"title\":\""@);
    }
    assert(r1.subrange(",\"title\":\""@.len() as int, r1.len() as int) =~= esc(v.title@)
        + seq!['"'] + r2);
    lemma_scan_lit_esc(v.title@, r2);
    assert(starts_with(r2, ",\"thumbnail\":\""@)) by {
        assert(r2.subrange(0, ",\"thumbnail\":\""@.len() as int) =~= ",\"thumbnail\":\""@);
    }
    assert(r2.subrange(",\"thumbnail\":\""@.len() as int, r2.len() as int) =~= esc(v.thumbnail@)
        + seq!['"'] + r3);
    lemma_scan_lit_esc(v.thumbnail@, r3);
    assert(starts_with(r3, ",\"url\":\""@)) by {
        assert(r3.subrange(0, ",\"url\":\""@.len() as int) =~= ",\"url\":\""@);
    }
    assert(r3.subrange(",\"url\":\""@.len() as int, r3.len() as int) =~= esc(v.url@) + seq!['"']
        + r4);
    lemma_scan_lit_esc(v.url@, r4);
    assert(starts_with(r4, ",\"published\":\""@)) by {
        assert(r4.subrange(0, ",\"published\":\""@.len() as int) =~= ",\"published\":\""@);
    }
    assert(r4.subrange(",\"published\":\""@.len() as int, r4.len() as int) =~= esc(v.published@)
        + seq!['"'] + r5);
    lemma_scan_lit_esc(v.published@, r5);
    assert(starts_with(r5, ",\"description\":\""@)) by {
        assert(r5.subrange(0, ",\"description\":\""@.len() as int) =~= ",\"description\":\""@);
    }
    assert(r5.subrange(",\"description\":\""@.len() as int, r5.len() as int) =~= esc(
        v.description@,
    ) + seq!['"'] + x6);
    lemma_scan_lit_esc(v.description@, x6);
    assert(starts_with(x6, "}"@)) by {
        assert(x6.subrange(0, "}"@.len() as int) =~= "}"@);
    }
    assert(x6.subrange(1, x6.len() as int) =~= t);
}

/// The serialized tail after some entries reads back as those entries.
#[verifier::rlimit(100)]
#[verifier::spinoff_prover]
proof fn lemma_parse_rest_of(vs: Seq<Video>)
    ensures
        vs.len() == 0 ==> parse_rest("]}"@) == Option::<Seq<VideoFields>>::Some(
            Seq::<VideoFields>::empty(),
        ),
        vs.len() > 0 ==> parse_rest(","@ + json_of_list(vs) + "]}"@) == Option::<
            Seq<VideoFields>,
        >::Some(vs.map_values(|v: Video| fields_of(v))),
    decreases vs.len(),
{
    reveal_strlit("]}");
    reveal_strlit(",");
    if vs.len() == 0 {
        assert(vs.map_values(|v: Video| fields_of(v)) =~= Seq::<VideoFields>::empty());
    } else {
        let y = ","@ + json_of_list(vs) + "]}"@;
        lemma_json_list_front(vs);
        let tail = vs.subrange(1, vs.len() as int);
        let t = if vs.len() == 1 {
            "]}"@
        } else {
            ","@ + json_of_list(tail) + "]}"@
        };
        assert(y.subrange(1, y.len() as int) =~= json_of_video(vs[0]) + t) by {
            if vs.len() == 1 {
                assert(json_of_list(vs) == json_of_video(vs[0]));
            } else {
                assert(json_of_list(vs) == json_of_video(vs[0]) + ","@ + json_of_list(tail));
            }
        }
        assert(y[0] == ',');
        assert(y != "]}"@) by {
            assert("]}"@[0] == ']');
        }
        assert(starts_with(y, ","@)) by {
            assert(y.subrange(0, 1) =~= ","@);
        }
        lemma_parse_video_of(vs[0], t);
        assert(t.len() < y.len());
        lemma_parse_rest_of(tail);
        if vs.len() == 1 {
            assert(tail.len() == 0);
            assert(parse_rest(t) == Option::<Seq<VideoFields>>::Some(Seq::<VideoFields>::empty()));
        }
        assert(seq![fields_of(vs[0])] + tail.map_values(|v: Video| fields_of(v)) =~= vs.map_values(
            |v: Video| fields_of(v),
        ));
    }
}

/// `json_of_list` unrolled from the front.
proof fn lemma_json_list_front(vs: Seq<Video>)
    requires
        vs.len() >= 1,
    ensures
        vs.len() == 1 ==> json_of_list(vs) == json_of_video(vs[0]),
        vs.len() > 1 ==> json_of_list(vs) == json_of_video(vs[0]) + ","@ + json_of_list(
            vs.subrange(1, vs.len() as int),
        ),
    decreases vs.len(),
{
    if vs.len() == 1 {
    } else {
        let head = vs.drop_last();
        let tail = vs.subrange(1, vs.len() as int);
        lemma_json_list_front(head);
        assert(tail.drop_last() =~= head.subrange(1, head.len() as int));
        assert(tail.last() == vs.last());
        assert(tail[0] == vs[1]);
        assert(head[0] == vs[0]);
        if vs.len() == 2 {
            assert(tail.len() == 1);
            assert(json_of_list(tail) == json_of_video(tail[0]));
            assert(json_of_list(vs) =~= json_of_video(vs[0]) + ","@ + json_of_list(tail));
        } else {
            assert(json_of_list(head) == json_of_video(head[0]) + ","@ + json_of_list(
                head.subrange(1, head.len() as int),
            ));
            assert(tail.len() > 1);
            assert(json_of_list(tail) == json_of_list(tail.drop_last()) + ","@ + json_of_video(
                tail.last(),
            ));
            assert(json_of_list(vs) == json_of_list(head) + ","@ + json_of_video(vs.last()));
            assert(json_of_list(vs) =~= json_of_video(vs[0]) + ","@ + json_of_list(tail));
        }
    }
}

/// Cache round-trip: the document a catalog serializes to parses back to
/// exactly that catalog's entries, field for field and in order.
#[verifier::rlimit(100)]
#[verifier::spinoff_prover]
pub proof fn lemma_cache_round_trip(vs: Seq<Video>)
    ensures
        parse_doc(json_of(vs)) == Option::<Seq<VideoFields>>::Some(
            vs.map_values(|v: Video| fields_of(v)),
        ),
{
    reveal_strlit("{\"videos\":[");
    reveal_strlit("]}");
    reveal_strlit("{\"channel\":\"");
    let x = json_of(vs);
    assert(starts_with(x, "{\"videos\":["@)) by {
        assert(x.subrange(0, "{\"videos\":["@.len() as int) =~= "{\"videos\":["@);
    }
    let y = x.subrange("{\"videos\":["@.len() as int, x.len() as int);
    assert(y =~= json_of_list(vs) + "]}"@);
    if vs.len() == 0 {
        assert(y =~= "]}"@);
        assert(vs.map_values(|v: Video| fields_of(v)) =~= Seq::<VideoFields>::empty());
    } else {
        lemma_json_list_front(vs);
        let tail = vs.subrange(1, vs.len() as int);
        let t = if vs.len() == 1 {
            "]}"@
        } else {
            ","@ + json_of_list(tail) + "]}"@
        };
        assert(y =~= json_of_video(vs[0]) + t);
        assert(y != "]}"@) by {
            assert(y[0] == '{');
            assert("]}"@[0] == ']');
        }
        lemma_parse_video_of(vs[0], t);
        lemma_parse_rest_of(tail);
        if vs.len() == 1 {
            assert(tail.len() == 0);
        }
        assert(seq![fields_of(vs[0])] + tail.map_values(|v: Video| fields_of(v)) =~= vs.map_values(
            |v: Video| fields_of(v),
        ));
    }
}

/// The spec scan of the whole suffix equals what was built so far plus the
/// spec scan of the remaining suffix.
spec fn scan_shift(
    whole: Option<(Seq<char>, Seq<char>)>,
    built: Seq<char>,
    suffix: Seq<char>,
) -> bool {
    match scan_lit(suffix) {
        Option::Some(pr2) => whole matches Option::Some(pr) && pr.0 == built + pr2.0 && pr.1
            == pr2.1,
        Option::None => whole is None,
    }
}

/// Reads one JSON string literal beginning at `p`, returning its unescaped
/// content and the position after the closing quote.
fn scan_lit_exec(s: &str, p: usize) -> (r: Option<(String, usize)>)
    requires
        p <= s@.len(),
    ensures
        match r {
            Some(pair) => {
                &&& p <= pair.1 <= s@.len()
                &&& scan_lit(s@.subrange(p as int, s@.len() as int)) matches Option::Some(pr)
                    && pr.0 == pair.0@ && pr.1 == s@.subrange(pair.1 as int, s@.len() as int)
            },
            None => scan_lit(s@.subrange(p as int, s@.len() as int)) is None,
        },
{
    proof {
        reveal_strlit("\n");
        reveal_strlit("\r");
        reveal_strlit("\t");
    }
    let len = s.unicode_len();
    let mut out = String::new();
    let mut q = p;
    loop
        invariant
            p <= q <= len,
            len == s@.len(),
            "\n"@ =~= seq!['\n'],
            "\r"@ =~= seq!['\r'],
            "\t"@ =~= seq!['\t'],
            scan_shift(
                scan_lit(s@.subrange(p as int, len as int)),
                out@,
                s@.subrange(q as int, len as int),
            ),
        decreases len - q,
    {
        let ghost suf = s@.subrange(q as int, len as int);
        if q >= len {
            proof {
                assert(suf.len() == 0);
            }
            return None;
        }
        proof {
            assert(suf[0] == s@[q as int]);
        }
        let c = s.get_char(q);
        if c == '"' {
            proof {
                assert(suf.subrange(1, suf.len() as int) =~= s@.subrange(q + 1, len as int));
            }
            return Some((out, q + 1));
        } else if c == '\\' {
            if q + 1 >= len {
                proof {
                    assert(suf.len() < 2);
                }
                return None;
            }
            proof {
                assert(suf[1] == s@[q + 1]);
                assert(suf.subrange(2, suf.len() as int) =~= s@.subrange(q + 2, len as int));
            }
            let ghost out0 = out@;
            let e = s.get_char(q + 1);
            if !(e == '"' || e == '\\' || e == 'n' || e == 'r' || e == 't') {
                proof {
                    assert(!esc_letter(suf[1]));
                }
                return None;
            }
            if e == 'n' {
                out.append("\n");
            } else if e == 'r' {
                out.append("\r");
            } else if e == 't' {
                out.append("\t");
            } else {
                out.append(s.substring_char(q + 1, q + 2));
                proof {
                    assert(s@.subrange(q + 1, q + 2) =~= seq![s@[q + 1]]);
                }
            }
            proof {
                assert(out@ =~= out0 + seq![unesc_code(s@[q + 1])]);
                match scan_lit(s@.subrange(q + 2, len as int)) {
                    Option::Some(pr2) => {
                        assert((out0 + seq![unesc_code(s@[q + 1])]) + pr2.0 =~= out0 + (seq![
                            unesc_code(s@[q + 1]),
                        ] + pr2.0));
                    },
                    Option::None => {},
                }
            }
            q = q + 2;
        } else {
            let ghost out0 = out@;
            out.append(s.substring_char(q, q + 1));
            proof {
                assert(s@.subrange(q as int, q + 1) =~= seq![s@[q as int]]);
                assert(suf.subrange(1, suf.len() as int) =~= s@.subrange(q + 1, len as int));
                match scan_lit(s@.subrange(q + 1, len as int)) {
                    Option::Some(pr2) => {
                        assert((out0 + seq![s@[q as int]]) + pr2.0 =~= out0 + (seq![s@[q as int]]
                            + pr2.0));
                    },
                    Option::None => {},
                }
            }
            q = q + 1;
        }
    }
}

/// Advances past `lit` when the text at `p` begins with it.
fn eat_lit(s: &str, p: usize, lit: &str) -> (r: Option<usize>)
    requires
        p <= s@.len(),
    ensures
        match r {
            Some(q) => q == p + lit@.len() && q <= s@.len() && starts_with(
                s@.subrange(p as int, s@.len() as int),
                lit@,
            ),
            None => !starts_with(s@.subrange(p as int, s@.len() as int), lit@),
        },
{
    let len = s.unicode_len();
    let llen = lit.unicode_len();
    if llen > len - p {
        return None;
    }
    let mut j: usize = 0;
    while j < llen
        invariant
            p + llen <= len,
            len == s@.len(),
            llen == lit@.len(),
            j <= llen,
            forall|k: int| 0 <= k < j ==> s@[p + k] == lit@[k],
        decreases llen - j,
    {
        if s.get_char(p + j) != lit.get_char(j) {
            proof {
                let suf = s@.subrange(p as int, len as int);
                assert(suf.subrange(0, llen as int)[j as int] == s@[p + j]);
            }
            return None;
        }
        j = j + 1;
    }
    proof {
        let suf = s@.subrange(p as int, len as int);
        assert(suf.subrange(0, llen as int) =~= lit@);
    }
    Some(p + llen)
}

/// Reads one serialized entry beginning at `p`: the entry, and the position
/// after its closing brace.
#[verifier::rlimit(100)]
fn parse_video_exec(s: &str, p: usize) -> (r: Option<(Video, usize)>)
    requires
        p <= s@.len(),
    ensures
        match r {
            Some(pair) => {
                &&& p < pair.1 <= s@.len()
                &&& parse_video(s@.subrange(p as int, s@.len() as int)) matches Option::Some(pr)
                    && pr.0 == fields_of(pair.0) && pr.1 == s@.subrange(
                    pair.1 as int,
                    s@.len() as int,
                )
            },
            None => parse_video(s@.subrange(p as int, s@.len() as int)) is None,
        },
{
    proof {
        reveal(parse_video);
    }
    let ghost len = s@.len() as int;
    let ghost x = s@.subrange(p as int, len);
    let p0 = match eat_lit(s, p, "{\"channel\":\"") {
        Some(q) => q,
        None => {
            return None;
        },
    };
    proof {
        assert(x.subrange("{\"channel\":\""@.len() as int, x.len() as int) =~= s@.subrange(
            p0 as int,
            len,
        ));
    }
    let (channel, p1) = match scan_lit_exec(s, p0) {
        Some(pair) => pair,
        None => {
            return None;
        },
    };
    let ghost x1 = s@.subrange(p1 as int, len);
    let q0 = match eat_lit(s, p1, ",\"title\":\"") {
        Some(q) => q,
        None => {
            return None;
        },
    };
    proof {
        assert(x1.subrange(",\"title\":\""@.len() as int, x1.len() as int) =~= s@.subrange(
            q0 as int,
            len,
        ));
    }
    let (title, p2) = match scan_lit_exec(s, q0) {
        Some(pair) => pair,
        None => {
            return None;
        },
    };
    let ghost x2 = s@.subrange(p2 as int, len);
    let q1 = match eat_lit(s, p2, ",\"thumbnail\":\"") {
        Some(q) => q,
        None => {
            return None;
        },
    };
    proof {
        assert(x2.subrange(",\"thumbnail\":\""@.len() as int, x2.len() as int) =~= s@.subrange(
            q1 as int,
            len,
        ));
    }
    let (thumbnail, p3) = match scan_lit_exec(s, q1) {
        Some(pair) => pair,
        None => {
            return None;
        },
    };
    let ghost x3 = s@.subrange(p3 as int, len);
    let q2 = match eat_lit(s, p3, ",\"url\":\"") {
        Some(q) => q,
        None => {
            return None;
        },
    };
    proof {
        assert(x3.subrange(",\"url\":\""@.len() as int, x3.len() as int) =~= s@.subrange(
            q2 as int,
            len,
        ));
    }
    let (url, p4) = match scan_lit_exec(s, q2) {
        Some(pair) => pair,
        None => {
            return None;
        },
    };
    let ghost x4 = s@.subrange(p4 as int, len);
    let q3 = match eat_lit(s, p4, ",\"published\":\"") {
        Some(q) => q,
        None => {
            return None;
        },
    };
    proof {
        assert(x4.subrange(",\"published\":\""@.len() as int, x4.len() as int) =~= s@.subrange(
            q3 as int,
            len,
        ));
    }
    let (published, p5) = match scan_lit_exec(s, q3) {
        Some(pair) => pair,
        None => {
            return None;
        },
    };
    let ghost x5 = s@.subrange(p5 as int, len);
    let q4 = match eat_lit(s, p5, ",\"description\":\"") {
        Some(q) => q,
        None => {
            return None;
        },
    };
    proof {
        assert(x5.subrange(",\"description\":\""@.len() as int, x5.len() as int) =~= s@.subrange(
            q4 as int,
            len,
        ));
    }
    let (description, p6) = match scan_lit_exec(s, q4) {
        Some(pair) => pair,
        None => {
            return None;
        },
    };
    let ghost x6 = s@.subrange(p6 as int, len);
    let p7 = match eat_lit(s, p6, "}") {
        Some(q) => q,
        None => {
            return None;
        },
    };
    proof {
        reveal_strlit("}");
        assert(x6.subrange(1, x6.len() as int) =~= s@.subrange(p7 as int, len));
    }
    let v = Video { channel, title, thumbnail, url, published, description };
    Some((v, p7))
}

/// The spec parse of the whole tail equals the entries built so far plus
/// the spec parse of the remaining tail.
spec fn rest_shift(
    whole: Option<Seq<VideoFields>>,
    built: Seq<VideoFields>,
    suffix: Seq<char>,
) -> bool {
    match parse_rest(suffix) {
        Option::Some(fs) => whole matches Option::Some(all) && all == built + fs,
        Option::None => whole is None,
    }
}

/// Deserializes a cache document; exactly the documents `parse_doc` accepts
/// are accepted, and they yield exactly its entries.
pub fn decode_videos(s: &str) -> (r: Option<Videos>)
    ensures
        match r {
            Some(videos) => parse_doc(s@) matches Option::Some(fs) && videos.videos@.map_values(
                |v: Video| fields_of(v),
            ) == fs,
            None => parse_doc(s@) is None,
        },
{
    proof {
        reveal_strlit("]}");
        reveal_strlit(",");
        assert(s@.subrange(0, s@.len() as int) =~= s@);
    }
    let len = s.unicode_len();
    let p0 = match eat_lit(s, 0, "{\"videos\":[") {
        Some(q) => q,
        None => {
            return None;
        },
    };
    let ghost y = s@.subrange(p0 as int, s@.len() as int);
    if let Some(q) = eat_lit(s, p0, "]}") {
        if q == len {
            proof {
                assert(y =~= "]}"@);
                assert(Seq::<Video>::empty().map_values(|v: Video| fields_of(v)) =~= Seq::<
                    VideoFields,
                >::empty());
            }
            return Some(Videos { videos: Vec::new() });
        }
    }
    proof {
        assert(y != "]}"@) by {
            if y == "]}"@ {
                assert(starts_with(y, "]}"@)) by {
                    assert(y.subrange(0, 2) =~= y);
                }
            }
        }
    }
    let mut vs: Vec<Video> = Vec::new();
    let (v0, mut q) = match parse_video_exec(s, p0) {
        Some(pair) => pair,
        None => {
            return None;
        },
    };
    vs.push(v0);
    proof {
        assert(vs@.map_values(|v: Video| fields_of(v)) =~= seq![fields_of(v0)]);
        match parse_rest(s@.subrange(q as int, s@.len() as int)) {
            Option::Some(fs) => {
                assert(seq![fields_of(v0)] + fs =~= vs@.map_values(|v: Video| fields_of(v)) + fs);
            },
            Option::None => {},
        }
    }
    loop
        invariant
            vs@.len() >= 1,
            q <= s@.len(),
            len == s@.len(),
            "]}"@ =~= seq![']', '}'],
            ","@ =~= seq![','],
            rest_shift(
                parse_doc(s@),
                vs@.map_values(|v: Video| fields_of(v)),
                s@.subrange(q as int, s@.len() as int),
            ),
        decreases s@.len() - q,
    {
        let ghost suffix = s@.subrange(q as int, s@.len() as int);
        if let Some(q2) = eat_lit(s, q, "]}") {
            if q2 == len {
                proof {
                    assert(suffix =~= "]}"@);
                }
                return Some(Videos { videos: vs });
            }
        }
        proof {
            assert(suffix != "]}"@) by {
                if suffix == "]}"@ {
                    assert(starts_with(suffix, "]}"@)) by {
                        assert(suffix.subrange(0, 2) =~= suffix);
                    }
                }
            }
        }
        let q3 = match eat_lit(s, q, ",") {
            Some(q3) => q3,
            None => {
                return None;
            },
        };
        proof {
            assert(suffix.subrange(1, suffix.len() as int) =~= s@.subrange(
                q3 as int,
                s@.len() as int,
            ));
        }
        let (v, q4) = match parse_video_exec(s, q3) {
            Some(pair) => pair,
            None => {
                return None;
            },
        };
        proof {
            assert(s@.subrange(q4 as int, s@.len() as int).len() < suffix.len());
            let old_built = vs@.map_values(|v2: Video| fields_of(v2));
            assert(old_built + seq![fields_of(v)] =~= vs@.push(v).map_values(
                |v2: Video| fields_of(v2),
            ));
            match parse_rest(s@.subrange(q4 as int, s@.len() as int)) {
                Option::Some(fs) => {
                    assert((old_built + seq![fields_of(v)]) + fs =~= old_built + (seq![
                        fields_of(v),
                    ] + fs));
                },
                Option::None => {},
            }
        }
        vs.push(v);
        q = q4;
    }
}

/// One entry as a JSON object, fields in cache order.
pub open spec fn json_of_video(v: Video) -> Seq<char> {
    "{\"channel\":\""@ + esc(v.channel@) + "\",\"title\":\""@ + esc(v.title@)
        + "\",\"thumbnail\":\""@ + esc(v.thumbnail@) + "\",\"url\":\""@ + esc(v.url@)
        + "\",\"published\":\""@ + esc(v.published@) + "\",\"description\":\""@ + esc(
        v.description@,
    ) + "\"}"@
}

/// The entries as a comma-separated JSON array body.
pub open spec fn json_of_list(s: Seq<Video>) -> Seq<char>
    decreases s.len(),
{
    if s.len() == 0 {
        Seq::empty()
    } else if s.len() == 1 {
        json_of_video(s[0])
    } else {
        json_of_list(s.drop_last()) + ","@ + json_of_video(s.last())
    }
}

/// The whole cache document for a catalog.
pub open spec fn json_of(s: Seq<Video>) -> Seq<char> {
    "{\"videos\":["@ + json_of_list(s) + "]}"@
}

/// Appends `json_of_video` of one entry.
fn append_video(v: &Video, out: &mut String)
    ensures
        final(out)@ == old(out)@ + json_of_video(*v),
{
    out.append("{\"channel\":\"");
    append_escaped(v.channel.as_str(), out);
    out.append("\",\"title\":\"");
    append_escaped(v.title.as_str(), out);
    out.append("\",\"thumbnail\":\"");
    append_escaped(v.thumbnail.as_str(), out);
    out.append("\",\"url\":\"");
    append_escaped(v.url.as_str(), out);
    out.append("\",\"published\":\"");
    append_escaped(v.published.as_str(), out);
    out.append("\",\"description\":\"");
    append_escaped(v.description.as_str(), out);
    out.append("\"}");
    proof {
        assert(out@ =~= old(out)@ + json_of_video(*v));
    }
}

/// Serializes the catalog as the cache document, exactly `json_of` of its
/// entries.
pub fn encode_videos(videos: &Videos) -> (r: String)
    ensures
        r@ == json_of(videos.videos@),
{
    let mut out = "{\"videos\":[".to_owned();
    let mut k: usize = 0;
    let vs = &videos.videos;
    proof {
        assert(vs@.subrange(0, 0) =~= Seq::<Video>::empty());
    }
    while k < vs.len()
        invariant
            k <= vs@.len(),
            out@ == "{\"videos\":["@ + json_of_list(vs@.subrange(0, k as int)),
        decreases vs@.len() - k,
    {
        if k > 0 {
            out.append(",");
        }
        append_video(&vs[k], &mut out);
        proof {
            let pre = vs@.subrange(0, k + 1);
            assert(pre.drop_last() =~= vs@.subrange(0, k as int));
            assert(pre.last() == vs@[k as int]);
            if k == 0 {
                assert(pre.len() == 1 && pre[0] == vs@[0]);
                assert(out@ =~= "{\"videos\":["@ + json_of_list(pre));
            } else {
                assert(out@ =~= "{\"videos\":["@ + json_of_list(pre));
            }
        }
        k = k + 1;
    }
    out.append("]}");
    proof {
        assert(vs@.subrange(0, vs@.len() as int) =~= vs@);
        assert(out@ =~= json_of(vs@));
    }
    out
}

} // verus!
