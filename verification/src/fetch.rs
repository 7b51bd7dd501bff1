//! Processing a fetched feed body.
//!
//! The runtime downloads the bytes and runs the outside feed parser;
//! everything around that is the engine's work: reject an empty body, strip
//! a byte-order mark, reject an HTML error page before the parse, and turn
//! whatever the parse produced — entries as plain values, or an error —
//! into article records afterwards, verified for every possible parser
//! outcome.  The parser call itself stays outside the library: it can be
//! made to abort on crafted duration fields, no precondition over the raw
//! bytes can exclude those inputs without also rejecting ordinary feeds
//! (character references can encode digits), and the boundary layer is the
//! one place such a failure can be contained and turned into this feed's
//! error.

use vstd::prelude::*;

use crate::records::{Article, ArticleV};

verus! {

/// One parsed feed entry, reduced to plain values.
pub struct RawEntry {
    /// The entry's identifier, used for de-duplication.
    pub id: String,
    pub title: Option<String>,
    pub url: Option<String>,
    pub author: Option<String>,
    pub summary: Option<String>,
    pub content: Option<String>,
    /// Publication (or update) time as Unix seconds.
    pub published: Option<i64>,
}

/// Mathematical image of a [`RawEntry`].
#[verifier::ext_equal]
pub struct RawEntryV {
    pub id: Seq<char>,
    pub title: Option<Seq<char>>,
    pub url: Option<Seq<char>>,
    pub author: Option<Seq<char>>,
    pub summary: Option<Seq<char>>,
    pub content: Option<Seq<char>>,
    pub published: Option<i64>,
}

impl View for RawEntry {
    type V = RawEntryV;

    open spec fn view(&self) -> RawEntryV {
        RawEntryV {
            id: self.id@,
            title: self.title.deep_view(),
            url: self.url.deep_view(),
            author: self.author.deep_view(),
            summary: self.summary.deep_view(),
            content: self.content.deep_view(),
            published: self.published,
        }
    }
}

pub open spec fn entries_v(s: Seq<RawEntry>) -> Seq<RawEntryV> {
    s.map_values(|e: RawEntry| e@)
}

/// The article record one entry becomes: a missing title becomes
/// "(untitled)", the identifiers start at zero (the store assigns them),
/// and both flags start cleared.
pub open spec fn article_of_entry(e: RawEntryV, feed_id: i64) -> ArticleV {
    ArticleV {
        id: 0,
        feed_id,
        guid: e.id,
        title: match e.title {
            Some(t) => t,
            None => "(untitled)"@,
        },
        url: e.url,
        author: e.author,
        summary: e.summary,
        content: e.content,
        published: e.published,
        is_read: false,
        is_starred: false,
    }
}

/// The records of a parsed entry list: one per entry with a non-empty
/// identifier, in order.  Entries without an identifier cannot be
/// de-duplicated and are dropped.
pub open spec fn articles_of_entries(es: Seq<RawEntryV>, feed_id: i64) -> Seq<ArticleV>
    decreases es,
{
    if es.len() == 0 {
        Seq::empty()
    } else {
        (if es[0].id.len() > 0 {
            seq![article_of_entry(es[0], feed_id)]
        } else {
            Seq::empty()
        }) + articles_of_entries(es.skip(1), feed_id)
    }
}

/// Turn parsed entries into article records for this feed.
pub fn entries_to_articles(entries: Vec<RawEntry>, feed_id: i64) -> (r: Vec<Article>)
    ensures
        crate::select::articles_v(r@) == articles_of_entries(entries_v(entries@), feed_id),
{
    let ghost esv = entries_v(entries@);
    let mut out: Vec<Article> = Vec::new();
    let mut i: usize = 0;
    proof {
        assert(crate::select::articles_v(out@) =~= Seq::<ArticleV>::empty());
        assert(articles_of_entries(esv.take(0), feed_id) =~= Seq::<ArticleV>::empty());
    }
    while i < entries.len()
        invariant
            i <= entries@.len(),
            esv == entries_v(entries@),
            esv.len() == entries@.len(),
            crate::select::articles_v(out@) == articles_of_entries(esv.take(i as int), feed_id),
        decreases entries@.len() - i,
    {
        proof {
            assert(esv[i as int] == entries@[i as int]@);
            lemma_articles_of_entries_take(esv, feed_id, i as int);
        }
        let e = &entries[i];
        if e.id.as_str().unicode_len() > 0 {
            let title = match &e.title {
                Some(t) => t.clone(),
                None => {
                    let t = "(untitled)".to_owned();
                    t
                },
            };
            let a = Article {
                id: 0,
                feed_id,
                guid: e.id.clone(),
                title,
                url: crate::config_tree::clone_opt_string(&e.url),
                author: crate::config_tree::clone_opt_string(&e.author),
                summary: crate::config_tree::clone_opt_string(&e.summary),
                content: crate::config_tree::clone_opt_string(&e.content),
                published: e.published,
                is_read: false,
                is_starred: false,
            };
            let ghost av = a@;
            let ghost o0 = out@;
            out.push(a);
            proof {
                assert(av =~= article_of_entry(esv[i as int], feed_id));
                assert(crate::select::articles_v(out@) =~= crate::select::articles_v(o0).push(
                    av,
                ));
                assert(crate::select::articles_v(out@) =~= articles_of_entries(
                    esv.take(i as int + 1),
                    feed_id,
                ));
            }
        } else {
            proof {
                assert(crate::select::articles_v(out@) =~= articles_of_entries(
                    esv.take(i as int + 1),
                    feed_id,
                ));
            }
        }
        i = i + 1;
    }
    proof {
        assert(esv.take(entries@.len() as int) =~= esv);
    }
    out
}

proof fn lemma_articles_of_entries_take(es: Seq<RawEntryV>, feed_id: i64, i: int)
    requires
        0 <= i < es.len(),
    ensures
        articles_of_entries(es.take(i + 1), feed_id) == articles_of_entries(es.take(i), feed_id)
            + (if es[i].id.len() > 0 {
            seq![article_of_entry(es[i], feed_id)]
        } else {
            Seq::<ArticleV>::empty()
        }),
    decreases i,
{
    if i == 0 {
        assert(es.take(1) =~= seq![es[0]]);
        assert(es.take(1).skip(1) =~= Seq::<RawEntryV>::empty());
        assert(es.take(0) =~= Seq::<RawEntryV>::empty());
        assert(articles_of_entries(es.take(1), feed_id) =~= articles_of_entries(
            es.take(0),
            feed_id,
        ) + (if es[0].id.len() > 0 {
            seq![article_of_entry(es[0], feed_id)]
        } else {
            Seq::<ArticleV>::empty()
        }));
    } else {
        lemma_articles_of_entries_take(es.skip(1), feed_id, i - 1);
        assert(es.take(i + 1)[0] == es[0]);
        assert(es.take(i)[0] == es[0]);
        assert(es.take(i + 1).skip(1) =~= es.skip(1).take(i));
        assert(es.take(i).skip(1) =~= es.skip(1).take(i - 1));
        assert(es.skip(1)[i - 1] == es[i]);
        assert(articles_of_entries(es.take(i + 1), feed_id) =~= articles_of_entries(
            es.take(i),
            feed_id,
        ) + (if es[i].id.len() > 0 {
            seq![article_of_entry(es[i], feed_id)]
        } else {
            Seq::<ArticleV>::empty()
        }));
    }
}

/// The body with a leading UTF-8 byte-order mark removed.
pub open spec fn bom_stripped(b: Seq<u8>) -> Seq<u8> {
    if b.len() >= 3 && b[0] == 0xEF && b[1] == 0xBB && b[2] == 0xBF {
        b.skip(3)
    } else {
        b
    }
}

/// Does the byte pattern occur within the first `window` bytes?
pub open spec fn occurs_within(b: Seq<u8>, pat: Seq<u8>, window: int) -> bool {
    exists|i: int|
        0 <= i && i + pat.len() <= b.len() && i < window && #[trigger] b.subrange(
            i,
            i + pat.len() as int,
        ) == pat
}

/// Does the body look like an HTML page rather than a feed?  The markers
/// are searched near the start, as an error page announces itself there.
pub open spec fn looks_like_html(b: Seq<u8>) -> bool {
    ||| occurs_within(b, "<html>"@.map_values(|c: char| c as u8), 200)
    ||| occurs_within(b, "<HTML>"@.map_values(|c: char| c as u8), 200)
    ||| occurs_within(b, "<!DOCTYPE html>"@.map_values(|c: char| c as u8), 200)
    ||| occurs_within(b, "<!DOCTYPE HTML>"@.map_values(|c: char| c as u8), 200)
}

/// Check a downloaded body before parsing: an empty body and an HTML page
/// are rejected, a byte-order mark is stripped.
pub fn prepare_body(bytes: Vec<u8>) -> (r: Result<Vec<u8>, String>)
    ensures
        bytes@.len() == 0 <==> (r matches Err(m) && m@ == "Empty response from feed"@),
        bytes@.len() > 0 && looks_like_html(bom_stripped(bytes@)) <==> (r matches Err(m) && m@
            == "Server returned HTML instead of feed"@),
        r matches Ok(out) ==> out@ == bom_stripped(bytes@) && !looks_like_html(out@),
{
    proof {
        reveal_strlit("Empty response from feed");
        reveal_strlit("Server returned HTML instead of feed");
        assert("Empty response from feed"@.len() != "Server returned HTML instead of feed"@.len());
        assert("Empty response from feed"@ != "Server returned HTML instead of feed"@);
    }
    if bytes.len() == 0 {
        return Err("Empty response from feed".to_owned());
    }
    let mut body = bytes;
    if body.len() >= 3 {
        if *body.get(0).unwrap() == 0xEF && *body.get(1).unwrap() == 0xBB && *body.get(2).unwrap()
            == 0xBF {
            let ghost pre = body@;
            let mut rest: Vec<u8> = Vec::new();
            let mut i: usize = 3;
            while i < body.len()
                invariant
                    3 <= i <= body@.len(),
                    body@ == pre,
                    rest@ == pre.subrange(3, i as int),
                decreases body@.len() - i,
            {
                let x = *body.get(i).unwrap();
                rest.push(x);
                proof {
                    assert(rest@ =~= pre.subrange(3, i as int + 1));
                }
                i = i + 1;
            }
            proof {
                assert(rest@ =~= pre.skip(3));
            }
            body = rest;
        }
    }
    if html_marker_near_start(&body) {
        return Err("Server returned HTML instead of feed".to_owned());
    }
    Ok(body)
}

/// Is one of the HTML markers within the opening window of the body?
fn html_marker_near_start(b: &Vec<u8>) -> (r: bool)
    ensures
        r == looks_like_html(b@),
{
    let mut found = false;
    proof {
        reveal_strlit("<html>");
        reveal_strlit("<HTML>");
        reveal_strlit("<!DOCTYPE html>");
        reveal_strlit("<!DOCTYPE HTML>");
    }
    let p1: [u8; 6] = [60, 104, 116, 109, 108, 62];
    let p2: [u8; 6] = [60, 72, 84, 77, 76, 62];
    let p3: [u8; 15] = [60, 33, 68, 79, 67, 84, 89, 80, 69, 32, 104, 116, 109, 108, 62];
    let p4: [u8; 15] = [60, 33, 68, 79, 67, 84, 89, 80, 69, 32, 72, 84, 77, 76, 62];
    proof {
        assert(p1@ =~= "<html>"@.map_values(|c: char| c as u8));
        assert(p2@ =~= "<HTML>"@.map_values(|c: char| c as u8));
        assert(p3@ =~= "<!DOCTYPE html>"@.map_values(|c: char| c as u8));
        assert(p4@ =~= "<!DOCTYPE HTML>"@.map_values(|c: char| c as u8));
    }
    let r1 = bytes_occur_within(b, &p1, 200);
    let r2 = bytes_occur_within(b, &p2, 200);
    let r3 = bytes_occur_within(b, &p3, 200);
    let r4 = bytes_occur_within(b, &p4, 200);
    r1 || r2 || r3 || r4
}

/// Scan for a byte pattern starting within the first `window` bytes.
fn bytes_occur_within(b: &Vec<u8>, pat: &[u8], window: usize) -> (r: bool)
    requires
        pat@.len() >= 1,
    ensures
        r == occurs_within(b@, pat@, window as int),
{
    let blen = b.len();
    let mut i: usize = 0;
    while i < b.len() && i < window
        invariant
            blen == b@.len(),
            forall|k: int| 0 <= k < i ==> !(k + pat@.len() <= b@.len() && #[trigger] b@.subrange(
                k,
                k + pat@.len() as int,
            ) == pat@),
            i <= b@.len(),
        decreases b@.len() - i,
    {
        if pat.len() <= b.len() - i {
            let mut j: usize = 0;
            let mut all = true;
            while j < pat.len()
                invariant
                    blen == b@.len(),
                    i + pat@.len() <= b@.len(),
                    j <= pat@.len(),
                    all == (forall|m: int| 0 <= m < j ==> b@[i + m] == pat@[m]),
                decreases pat@.len() - j,
            {
                let ghost allpre = all;
                proof {
                    assert(i + j < b@.len());
                }
                let idx = i + j;
                if *b.get(idx).unwrap() != pat[j] {
                    all = false;
                }
                proof {
                    if all {
                        assert forall|m: int| 0 <= m < j + 1 implies b@[i + m] == pat@[m] by {}
                    } else {
                        if allpre && b@[i + j as int] == pat@[j as int] {
                            assert(false);
                        }
                    }
                }
                j = j + 1;
            }
            if all {
                proof {
                    assert(b@.subrange(i as int, i + pat@.len() as int) =~= pat@);
                }
                return true;
            }
            proof {
                if b@.subrange(i as int, i + pat@.len()) == pat@ {
                    let m = choose|m: int|
                        0 <= m < pat@.len() && b@[i + m] != pat@[m];
                    assert(b@.subrange(i as int, i + pat@.len())[m] == b@[i + m]);
                }
            }
        } else {
            proof {
                assert(!(i + pat@.len() <= b@.len()));
            }
        }
        i = i + 1;
    }
    proof {
        if occurs_within(b@, pat@, window as int) {
            let k = choose|k: int|
                0 <= k && k + pat@.len() <= b@.len() && k < window && #[trigger] b@.subrange(
                    k,
                    k + pat@.len() as int,
                ) == pat@;
            assert(k >= i);
            assert(i >= b@.len() || i >= window);
        }
    }
    false
}

/// Turn the outcome of the outside feed parse into this feed's result:
/// entries become article records, a parse failure becomes this feed's
/// error and goes no further.
pub fn finish_fetched_body(
    parsed: Result<Vec<RawEntry>, String>,
    feed_id: i64,
) -> (r: Result<Vec<Article>, String>)
    ensures
        match parsed {
            Ok(es) => r matches Ok(arts) && crate::select::articles_v(arts@)
                == articles_of_entries(entries_v(es@), feed_id),
            Err(m) => r matches Err(m2) && m2@ == m@,
        },
{
    match parsed {
        Ok(entries) => Ok(entries_to_articles(entries, feed_id)),
        Err(m) => Err(m),
    }
}

} // verus!
