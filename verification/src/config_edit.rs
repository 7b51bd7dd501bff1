//! Structural edits on the persisted feed tree.
//!
//! Every operation takes a path as an ordered list of segments and recurses
//! one segment at a time.  Feeds are keyed by their feed URL; groups by their
//! canonical path.  An operation that finds nothing leaves the tree
//! unchanged and says so.

use vstd::prelude::*;

use vstd::multiset::Multiset;

use crate::config_tree::{
    child_path, clone_opt_string, collect_feeds_item, collect_feeds_list, group_v, item_v,
    items_v, lemma_items_v_index, lemma_items_v_len, source_v, FeedConfigItem, FeedGroup,
    FeedSource, GroupV, ItemV, SourceV,
};
use crate::paths::str_eq;

verus! {

/// The removal key: the entry is a standalone feed whose `feed` URL is `url`.
/// A feed without a `feed` URL never matches (the display URL is no key).
pub open spec fn feed_key_matches(f: SourceV, url: Seq<char>) -> bool {
    f.feed == Some(url)
}

/// Remove the first feed, depth-first in document order, whose feed URL is
/// `url`.  Returns the remaining entries and, when found, the removed source
/// with the titles of the groups it was removed from, outermost first (empty
/// when it stood outside every group).
///
/// "First" is plain document order: a group's entries are searched in the
/// order they stand, without visiting its direct feeds ahead of its
/// subgroups.  With feed URLs as unique keys the two orders remove the same
/// entry.
pub open spec fn remove_feed_listv(its: Seq<ItemV>, url: Seq<char>, segs: Seq<Seq<char>>) -> (
    Seq<ItemV>,
    Option<(Seq<Seq<char>>, SourceV)>,
)
    decreases its,
{
    if its.len() == 0 {
        (its, None::<(Seq<Seq<char>>, SourceV)>)
    } else {
        let rest = its.skip(1);
        match its[0] {
            ItemV::Standalone(f) => {
                if feed_key_matches(f, url) {
                    (rest, Some((segs, f)))
                } else {
                    let r = remove_feed_listv(rest, url, segs);
                    (seq![its[0]] + r.0, r.1)
                }
            },
            ItemV::Group(g) => {
                let rg = remove_feed_listv(g.feeds, url, segs.push(g.title));
                if rg.1 is Some {
                    (seq![ItemV::Group(GroupV { title: g.title, feeds: rg.0 })] + rest, rg.1)
                } else {
                    let r = remove_feed_listv(rest, url, segs);
                    (seq![ItemV::Group(GroupV { title: g.title, feeds: rg.0 })] + r.0, r.1)
                }
            },
        }
    }
}

/// When nothing was removed, nothing changed.
pub proof fn lemma_remove_feed_not_found(its: Seq<ItemV>, url: Seq<char>, segs: Seq<Seq<char>>)
    ensures
        remove_feed_listv(its, url, segs).1 is None ==> remove_feed_listv(its, url, segs).0 == its,
    decreases its,
{
    if its.len() > 0 {
        let rest = its.skip(1);
        match its[0] {
            ItemV::Standalone(f) => {
                lemma_remove_feed_not_found(rest, url, segs);
                if remove_feed_listv(its, url, segs).1 is None {
                    assert(seq![its[0]] + rest =~= its);
                }
            },
            ItemV::Group(g) => {
                lemma_remove_feed_not_found(g.feeds, url, segs.push(g.title));
                lemma_remove_feed_not_found(rest, url, segs);
                if remove_feed_listv(its, url, segs).1 is None {
                    let rg = remove_feed_listv(g.feeds, url, segs.push(g.title));
                    assert(rg.0 == g.feeds);
                    assert(ItemV::Group(GroupV { title: g.title, feeds: rg.0 }) == its[0]);
                    assert(seq![its[0]] + remove_feed_listv(rest, url, segs).0 =~= its);
                }
            },
        }
    }
}

/// Does this source carry `url` as its feed URL?
fn source_feed_is(f: &FeedSource, feed_url: &str) -> (r: bool)
    ensures
        r == feed_key_matches(source_v(*f), feed_url@),
{
    match &f.feed {
        Some(u) => str_eq(u.as_str(), feed_url),
        None => false,
    }
}

/// Remove the first feed whose feed URL is `feed_url`, returning the
/// remaining entries and the removed source.
fn remove_feed_vec(
    items: Vec<FeedConfigItem>,
    feed_url: &str,
    Ghost(segs): Ghost<Seq<Seq<char>>>,
) -> (r: (Vec<FeedConfigItem>, Option<FeedSource>))
    ensures
        items_v(r.0@) == remove_feed_listv(items_v(items@), feed_url@, segs).0,
        match r.1 {
            Some(f) => remove_feed_listv(items_v(items@), feed_url@, segs).1 matches Some(p)
                && p.1 == source_v(f),
            None => remove_feed_listv(items_v(items@), feed_url@, segs).1 is None,
        },
    decreases items@,
{
    let ghost its0 = items@;
    let mut items = items;
    if items.len() == 0 {
        proof {
            assert(items_v(items@) =~= Seq::<ItemV>::empty());
        }
        return (items, None);
    }
    let head = items.remove(0);
    proof {
        assert(items@ =~= its0.skip(1));
        lemma_items_v_index(its0, 0);
        assert(items_v(its0)[0] == item_v(head));
        lemma_items_v_skip(its0, 1);
        lemma_items_v_len(its0);
        assert(items_v(its0).skip(1) == items_v(items@));
        assert(items_v(its0) == seq![item_v(head)] + items_v(its0.skip(1)));
    }
    match head {
        FeedConfigItem::Standalone(f) => {
            if source_feed_is(&f, feed_url) {
                (items, Some(f))
            } else {
                let (mut out, rem) = remove_feed_vec(items, feed_url, Ghost(segs));
                let item = FeedConfigItem::Standalone(f);
                let ghost outs = out@;
                let ghost ig = item;
                out.insert(0, item);
                proof {
                    lemma_items_v_insert_front(outs, ig);
                }
                (out, rem)
            }
        },
        FeedConfigItem::Group(g) => {
            let ghost np = segs.push(g.title@);
            let (nf, rem) = remove_feed_vec(g.feeds, feed_url, Ghost(np));
            let g2 = FeedGroup { title: g.title, feeds: nf };
            if rem.is_some() {
                let mut out = items;
                let item = FeedConfigItem::Group(g2);
                let ghost outs = out@;
                let ghost ig = item;
                out.insert(0, item);
                proof {
                    lemma_items_v_insert_front(outs, ig);
                }
                (out, rem)
            } else {
                let (mut out, rem2) = remove_feed_vec(items, feed_url, Ghost(segs));
                let item = FeedConfigItem::Group(g2);
                let ghost outs = out@;
                let ghost ig = item;
                out.insert(0, item);
                proof {
                    lemma_items_v_insert_front(outs, ig);
                }
                (out, rem2)
            }
        },
    }
}

/// Remove the first feed whose feed URL is `feed_url` from the tree.
/// Emptied ancestor groups are left in place: an emptied group remains a
/// visible empty group.
pub fn remove_feed_recursive(feeds: &mut Vec<FeedConfigItem>, feed_url: &str) -> (found: bool)
    ensures
        items_v(final(feeds)@) == remove_feed_listv(
            items_v(old(feeds)@),
            feed_url@,
            Seq::empty(),
        ).0,
        found == (remove_feed_listv(items_v(old(feeds)@), feed_url@, Seq::empty()).1 is Some),
{
    let mut tmp: Vec<FeedConfigItem> = Vec::new();
    core::mem::swap(feeds, &mut tmp);
    let (out, removed) = remove_feed_vec(tmp, feed_url, Ghost(Seq::empty()));
    *feeds = out;
    removed.is_some()
}

/// Remove the first feed whose feed URL is `feed_url` and hand it back; used
/// by the cut operation, which keeps the removed source in the clipboard.
pub fn remove_and_return_feed(feeds: &mut Vec<FeedConfigItem>, feed_url: &str) -> (removed: Option<
    FeedSource,
>)
    ensures
        items_v(final(feeds)@) == remove_feed_listv(
            items_v(old(feeds)@),
            feed_url@,
            Seq::empty(),
        ).0,
        match removed {
            Some(f) => remove_feed_listv(items_v(old(feeds)@), feed_url@, Seq::empty()).1
                matches Some(p) && p.1 == source_v(f),
            None => remove_feed_listv(items_v(old(feeds)@), feed_url@, Seq::empty()).1 is None,
        },
{
    let mut tmp: Vec<FeedConfigItem> = Vec::new();
    core::mem::swap(feeds, &mut tmp);
    let (out, removed) = remove_feed_vec(tmp, feed_url, Ghost(Seq::empty()));
    *feeds = out;
    removed
}

/// Remove the group reached by following `comps` from `depth` on, deleting it
/// with all nested content.  At each level the first group carrying the
/// wanted title is taken; intermediate ancestor groups stay in place.
pub open spec fn remove_group_listv(its: Seq<ItemV>, comps: Seq<Seq<char>>, depth: int) -> (
    Seq<ItemV>,
    Option<GroupV>,
)
    decreases its,
{
    if !(0 <= depth < comps.len()) || its.len() == 0 {
        (its, None::<GroupV>)
    } else {
        let rest = its.skip(1);
        match its[0] {
            ItemV::Standalone(_) => {
                let r = remove_group_listv(rest, comps, depth);
                (seq![its[0]] + r.0, r.1)
            },
            ItemV::Group(g) => {
                if g.title == comps[depth] {
                    if depth == comps.len() - 1 {
                        (rest, Some(g))
                    } else {
                        let rg = remove_group_listv(g.feeds, comps, depth + 1);
                        (seq![ItemV::Group(GroupV { title: g.title, feeds: rg.0 })] + rest, rg.1)
                    }
                } else {
                    let r = remove_group_listv(rest, comps, depth);
                    (seq![its[0]] + r.0, r.1)
                }
            },
        }
    }
}

/// Cutting a root-level group and pasting it back at the root restores the
/// configuration up to item ordering at the root: the removed group is
/// re-appended at the end of the root list and every other item is
/// untouched, so the items are the same multiset as before the cut.
pub proof fn lemma_root_cut_paste_items(its: Seq<ItemV>, comps: Seq<Seq<char>>)
    requires
        comps.len() == 1,
    ensures
        ({
            let r = remove_group_listv(its, comps, 0);
            r.1 matches Some(gv) ==> r.0.push(ItemV::Group(gv)).to_multiset()
                == its.to_multiset()
        }),
    decreases its,
{
    broadcast use vstd::multiset::group_multiset_axioms;

    let r = remove_group_listv(its, comps, 0);
    if r.1 is Some && its.len() > 0 {
        let rest = its.skip(1);
        assert(its.remove(0) =~= rest);
        assert(rest.insert(0, its[0]) =~= its);
        vstd::seq_lib::to_multiset_insert(rest, 0, its[0]);
        match its[0] {
            ItemV::Standalone(_) => {
                let rr = remove_group_listv(rest, comps, 0);
                lemma_root_cut_paste_items(rest, comps);
                let gv = rr.1->Some_0;
                assert((seq![its[0]] + rr.0).push(ItemV::Group(gv)) =~= (rr.0.push(
                    ItemV::Group(gv),
                )).insert(0, its[0]));
                vstd::seq_lib::to_multiset_insert(rr.0.push(ItemV::Group(gv)), 0, its[0]);
                assert(r.0.push(ItemV::Group(gv)).to_multiset() =~= its.to_multiset());
            },
            ItemV::Group(g) => {
                if g.title == comps[0] {
                    vstd::seq_lib::to_multiset_build(rest, its[0]);
                    assert(r.0.push(ItemV::Group(g)) =~= rest.push(its[0]));
                    assert(r.0.push(ItemV::Group(g)).to_multiset() =~= its.to_multiset());
                } else {
                    let rr = remove_group_listv(rest, comps, 0);
                    lemma_root_cut_paste_items(rest, comps);
                    let gv = rr.1->Some_0;
                    assert((seq![its[0]] + rr.0).push(ItemV::Group(gv)) =~= (rr.0.push(
                        ItemV::Group(gv),
                    )).insert(0, its[0]));
                    vstd::seq_lib::to_multiset_insert(rr.0.push(ItemV::Group(gv)), 0, its[0]);
                    assert(r.0.push(ItemV::Group(gv)).to_multiset() =~= its.to_multiset());
                }
            },
        }
    }
}

/// When nothing was removed, nothing changed.
pub proof fn lemma_remove_group_not_found(its: Seq<ItemV>, comps: Seq<Seq<char>>, depth: int)
    ensures
        remove_group_listv(its, comps, depth).1 is None ==> remove_group_listv(
            its,
            comps,
            depth,
        ).0 == its,
    decreases its,
{
    if 0 <= depth < comps.len() && its.len() > 0 {
        let rest = its.skip(1);
        lemma_remove_group_not_found(rest, comps, depth);
        match its[0] {
            ItemV::Standalone(_) => {
                if remove_group_listv(its, comps, depth).1 is None {
                    assert(seq![its[0]] + rest =~= its);
                }
            },
            ItemV::Group(g) => {
                if g.title == comps[depth] && depth < comps.len() - 1 {
                    lemma_remove_group_not_found(g.feeds, comps, depth + 1);
                    if remove_group_listv(its, comps, depth).1 is None {
                        let rg = remove_group_listv(g.feeds, comps, depth + 1);
                        assert(rg.0 == g.feeds);
                        assert(ItemV::Group(GroupV { title: g.title, feeds: rg.0 }) == its[0]);
                        assert(seq![its[0]] + rest =~= its);
                    }
                } else if g.title != comps[depth] {
                    if remove_group_listv(its, comps, depth).1 is None {
                        assert(seq![its[0]] + remove_group_listv(rest, comps, depth).0 =~= its);
                    }
                }
            },
        }
    }
}

/// Remove and return the group reached by `comps` from `depth` on.
pub fn remove_and_return_group(
    items: Vec<FeedConfigItem>,
    comps: &Vec<String>,
    depth: usize,
) -> (r: (Vec<FeedConfigItem>, Option<FeedGroup>))
    ensures
        items_v(r.0@) == remove_group_listv(items_v(items@), comps.deep_view(), depth as int).0,
        match r.1 {
            Some(g) => remove_group_listv(items_v(items@), comps.deep_view(), depth as int).1
                matches Some(gv) && gv == group_v(g),
            None => remove_group_listv(items_v(items@), comps.deep_view(), depth as int).1
                is None,
        },
    decreases items@,
{
    let ghost its0 = items@;
    let mut items = items;
    if depth >= comps.len() || items.len() == 0 {
        proof {
            if items@.len() == 0 {
                assert(items_v(items@) =~= Seq::<ItemV>::empty());
            } else {
                lemma_items_v_len(items@);
            }
        }
        return (items, None);
    }
    let head = items.remove(0);
    proof {
        assert(items@ =~= its0.skip(1));
        lemma_items_v_index(its0, 0);
        lemma_items_v_skip(its0, 1);
        lemma_items_v_len(its0);
        assert(items_v(its0) == seq![item_v(head)] + items_v(its0.skip(1)));
    }
    match head {
        FeedConfigItem::Standalone(f) => {
            let (mut out, removed) = remove_and_return_group(items, comps, depth);
            let item = FeedConfigItem::Standalone(f);
            let ghost outs = out@;
            let ghost ig = item;
            out.insert(0, item);
            proof {
                lemma_items_v_insert_front(outs, ig);
            }
            (out, removed)
        },
        FeedConfigItem::Group(g) => {
            if str_eq(g.title.as_str(), comps[depth].as_str()) {
                if depth + 1 == comps.len() {
                    (items, Some(g))
                } else {
                    let (nf, removed) = remove_and_return_group(g.feeds, comps, depth + 1);
                    let item = FeedConfigItem::Group(FeedGroup { title: g.title, feeds: nf });
                    let mut out = items;
                    let ghost outs = out@;
                    let ghost ig = item;
                    out.insert(0, item);
                    proof {
                        lemma_items_v_insert_front(outs, ig);
                    }
                    (out, removed)
                }
            } else {
                let (mut out, removed) = remove_and_return_group(items, comps, depth);
                let item = FeedConfigItem::Group(g);
                let ghost outs = out@;
                let ghost ig = item;
                out.insert(0, item);
                proof {
                    lemma_items_v_insert_front(outs, ig);
                }
                (out, removed)
            }
        },
    }
}

/// Remove the group named by the canonical path `group_path`, with all its
/// nested content.
pub fn remove_group_recursive(feeds: &mut Vec<FeedConfigItem>, group_path: &str) -> (found: bool)
    ensures
        items_v(final(feeds)@) == remove_group_listv(
            items_v(old(feeds)@),
            crate::paths::split_segs(group_path@),
            0,
        ).0,
        found == (remove_group_listv(
            items_v(old(feeds)@),
            crate::paths::split_segs(group_path@),
            0,
        ).1 is Some),
{
    let components = crate::paths::split_path(group_path);
    let mut tmp: Vec<FeedConfigItem> = Vec::new();
    core::mem::swap(feeds, &mut tmp);
    let (out, removed) = remove_and_return_group(tmp, &components, 0);
    *feeds = out;
    removed.is_some()
}

/// The update key: the entry is a standalone feed whose display URL or feed
/// URL is `orig`.
pub open spec fn feed_update_matches(f: SourceV, orig: Seq<char>) -> bool {
    f.url == orig || f.feed == Some(orig)
}

/// Replace the fields of the first feed, depth-first in document order,
/// matching `orig`, with `nv`.
pub open spec fn update_feed_listv(its: Seq<ItemV>, orig: Seq<char>, nv: SourceV) -> (
    Seq<ItemV>,
    bool,
)
    decreases its,
{
    if its.len() == 0 {
        (its, false)
    } else {
        let rest = its.skip(1);
        match its[0] {
            ItemV::Standalone(f) => {
                if feed_update_matches(f, orig) {
                    (seq![ItemV::Standalone(nv)] + rest, true)
                } else {
                    let r = update_feed_listv(rest, orig, nv);
                    (seq![its[0]] + r.0, r.1)
                }
            },
            ItemV::Group(g) => {
                let rg = update_feed_listv(g.feeds, orig, nv);
                if rg.1 {
                    (seq![ItemV::Group(GroupV { title: g.title, feeds: rg.0 })] + rest, true)
                } else {
                    let r = update_feed_listv(rest, orig, nv);
                    (seq![ItemV::Group(GroupV { title: g.title, feeds: rg.0 })] + r.0, r.1)
                }
            },
        }
    }
}

fn update_feed_vec(
    items: Vec<FeedConfigItem>,
    original_url: &str,
    new_source: &FeedSource,
) -> (r: (Vec<FeedConfigItem>, bool))
    ensures
        items_v(r.0@) == update_feed_listv(
            items_v(items@),
            original_url@,
            source_v(*new_source),
        ).0,
        r.1 == update_feed_listv(items_v(items@), original_url@, source_v(*new_source)).1,
    decreases items@,
{
    let ghost its0 = items@;
    let mut items = items;
    if items.len() == 0 {
        proof {
            assert(items_v(items@) =~= Seq::<ItemV>::empty());
        }
        return (items, false);
    }
    let head = items.remove(0);
    proof {
        assert(items@ =~= its0.skip(1));
        lemma_items_v_index(its0, 0);
        lemma_items_v_skip(its0, 1);
        lemma_items_v_len(its0);
        assert(items_v(its0) == seq![item_v(head)] + items_v(its0.skip(1)));
    }
    match head {
        FeedConfigItem::Standalone(f) => {
            let is_match = str_eq(f.url.as_str(), original_url) || source_feed_is(
                &f,
                original_url,
            );
            if is_match {
                let item = FeedConfigItem::Standalone(new_source.clone_source());
                let mut out = items;
                let ghost outs = out@;
                let ghost ig = item;
                out.insert(0, item);
                proof {
                    lemma_items_v_insert_front(outs, ig);
                }
                (out, true)
            } else {
                let (mut out, found) = update_feed_vec(items, original_url, new_source);
                let item = FeedConfigItem::Standalone(f);
                let ghost outs = out@;
                let ghost ig = item;
                out.insert(0, item);
                proof {
                    lemma_items_v_insert_front(outs, ig);
                }
                (out, found)
            }
        },
        FeedConfigItem::Group(g) => {
            let (nf, found) = update_feed_vec(g.feeds, original_url, new_source);
            let g2 = FeedGroup { title: g.title, feeds: nf };
            if found {
                let item = FeedConfigItem::Group(g2);
                let mut out = items;
                let ghost outs = out@;
                let ghost ig = item;
                out.insert(0, item);
                proof {
                    lemma_items_v_insert_front(outs, ig);
                }
                (out, true)
            } else {
                let (mut out, found2) = update_feed_vec(items, original_url, new_source);
                let item = FeedConfigItem::Group(g2);
                let ghost outs = out@;
                let ghost ig = item;
                out.insert(0, item);
                proof {
                    lemma_items_v_insert_front(outs, ig);
                }
                (out, found2)
            }
        },
    }
}

/// Update the first feed matching `original_url` (by display URL or feed
/// URL), replacing its title, URL and feed URL.
pub fn update_feed_in_config(
    feeds: &mut Vec<FeedConfigItem>,
    original_url: &str,
    new_title: &str,
    new_url: &str,
    new_feed_url: &Option<String>,
) -> (found: bool)
    ensures
        ({
            let nv = SourceV {
                title: new_title@,
                url: new_url@,
                feed: new_feed_url.deep_view(),
            };
            &&& items_v(final(feeds)@) == update_feed_listv(
                items_v(old(feeds)@),
                original_url@,
                nv,
            ).0
            &&& found == update_feed_listv(items_v(old(feeds)@), original_url@, nv).1
        }),
{
    let new_source = FeedSource {
        title: new_title.to_owned(),
        url: new_url.to_owned(),
        feed: clone_opt_string(new_feed_url),
    };
    let mut tmp: Vec<FeedConfigItem> = Vec::new();
    core::mem::swap(feeds, &mut tmp);
    let (out, found) = update_feed_vec(tmp, original_url, &new_source);
    *feeds = out;
    proof {
        assert(source_v(new_source) =~= SourceV {
            title: new_title@,
            url: new_url@,
            feed: new_feed_url.deep_view(),
        });
    }
    found
}

/// Rename the group reached by following `comps` from `depth` on.  Unlike
/// removal, the scan goes on past a group whose subtree has no match.
pub open spec fn rename_group_listv(
    its: Seq<ItemV>,
    comps: Seq<Seq<char>>,
    depth: int,
    new_name: Seq<char>,
) -> (Seq<ItemV>, bool)
    decreases its,
{
    if !(0 <= depth < comps.len()) || its.len() == 0 {
        (its, false)
    } else {
        let rest = its.skip(1);
        match its[0] {
            ItemV::Standalone(_) => {
                let r = rename_group_listv(rest, comps, depth, new_name);
                (seq![its[0]] + r.0, r.1)
            },
            ItemV::Group(g) => {
                if g.title == comps[depth] {
                    if depth == comps.len() - 1 {
                        (seq![ItemV::Group(GroupV { title: new_name, feeds: g.feeds })] + rest, true)
                    } else {
                        let rg = rename_group_listv(g.feeds, comps, depth + 1, new_name);
                        if rg.1 {
                            (seq![ItemV::Group(GroupV { title: g.title, feeds: rg.0 })] + rest, true)
                        } else {
                            let r = rename_group_listv(rest, comps, depth, new_name);
                            (seq![ItemV::Group(GroupV { title: g.title, feeds: rg.0 })] + r.0, r.1)
                        }
                    }
                } else {
                    let r = rename_group_listv(rest, comps, depth, new_name);
                    (seq![its[0]] + r.0, r.1)
                }
            },
        }
    }
}

fn rename_group_vec(
    items: Vec<FeedConfigItem>,
    comps: &Vec<String>,
    depth: usize,
    new_name: &str,
) -> (r: (Vec<FeedConfigItem>, bool))
    ensures
        items_v(r.0@) == rename_group_listv(
            items_v(items@),
            comps.deep_view(),
            depth as int,
            new_name@,
        ).0,
        r.1 == rename_group_listv(items_v(items@), comps.deep_view(), depth as int, new_name@).1,
    decreases items@,
{
    let ghost its0 = items@;
    let mut items = items;
    if depth >= comps.len() || items.len() == 0 {
        proof {
            if items@.len() == 0 {
                assert(items_v(items@) =~= Seq::<ItemV>::empty());
            } else {
                lemma_items_v_len(items@);
            }
        }
        return (items, false);
    }
    let head = items.remove(0);
    proof {
        assert(items@ =~= its0.skip(1));
        lemma_items_v_index(its0, 0);
        lemma_items_v_skip(its0, 1);
        lemma_items_v_len(its0);
        assert(items_v(its0) == seq![item_v(head)] + items_v(its0.skip(1)));
    }
    match head {
        FeedConfigItem::Standalone(f) => {
            let (mut out, found) = rename_group_vec(items, comps, depth, new_name);
            let item = FeedConfigItem::Standalone(f);
            let ghost outs = out@;
            let ghost ig = item;
            out.insert(0, item);
            proof {
                lemma_items_v_insert_front(outs, ig);
            }
            (out, found)
        },
        FeedConfigItem::Group(g) => {
            if str_eq(g.title.as_str(), comps[depth].as_str()) {
                if depth + 1 == comps.len() {
                    let item = FeedConfigItem::Group(
                        FeedGroup { title: new_name.to_owned(), feeds: g.feeds },
                    );
                    let mut out = items;
                    let ghost outs = out@;
                    let ghost ig = item;
                    out.insert(0, item);
                    proof {
                        lemma_items_v_insert_front(outs, ig);
                    }
                    (out, true)
                } else {
                    let (nf, found) = rename_group_vec(g.feeds, comps, depth + 1, new_name);
                    let g2 = FeedGroup { title: g.title, feeds: nf };
                    if found {
                        let item = FeedConfigItem::Group(g2);
                        let mut out = items;
                        let ghost outs = out@;
                        let ghost ig = item;
                        out.insert(0, item);
                        proof {
                            lemma_items_v_insert_front(outs, ig);
                        }
                        (out, true)
                    } else {
                        let (mut out, found2) = rename_group_vec(items, comps, depth, new_name);
                        let item = FeedConfigItem::Group(g2);
                        let ghost outs = out@;
                        let ghost ig = item;
                        out.insert(0, item);
                        proof {
                            lemma_items_v_insert_front(outs, ig);
                        }
                        (out, found2)
                    }
                }
            } else {
                let (mut out, found) = rename_group_vec(items, comps, depth, new_name);
                let item = FeedConfigItem::Group(g);
                let ghost outs = out@;
                let ghost ig = item;
                out.insert(0, item);
                proof {
                    lemma_items_v_insert_front(outs, ig);
                }
                (out, found)
            }
        },
    }
}

/// Rename the group named by the canonical path `group_path` to `new_name`.
pub fn update_group_in_config(
    feeds: &mut Vec<FeedConfigItem>,
    group_path: &str,
    new_name: &str,
) -> (found: bool)
    ensures
        items_v(final(feeds)@) == rename_group_listv(
            items_v(old(feeds)@),
            crate::paths::split_segs(group_path@),
            0,
            new_name@,
        ).0,
        found == rename_group_listv(
            items_v(old(feeds)@),
            crate::paths::split_segs(group_path@),
            0,
            new_name@,
        ).1,
{
    let components = crate::paths::split_path(group_path);
    let mut tmp: Vec<FeedConfigItem> = Vec::new();
    core::mem::swap(feeds, &mut tmp);
    let (out, found) = rename_group_vec(tmp, &components, 0, new_name);
    *feeds = out;
    found
}

/// A fresh chain of nested groups for the path suffix `comps[depth..]`, with
/// `item` as the single entry of the innermost group.
pub open spec fn item_chain(comps: Seq<Seq<char>>, depth: int, item: ItemV) -> ItemV
    decreases comps.len() - depth,
{
    if !(0 <= depth < comps.len()) {
        item
    } else if depth == comps.len() - 1 {
        ItemV::Group(GroupV { title: comps[depth], feeds: seq![item] })
    } else {
        ItemV::Group(
            GroupV { title: comps[depth], feeds: seq![item_chain(comps, depth + 1, item)] },
        )
    }
}

/// Append `item` to the group reached by following `comps` from `depth` on,
/// walking into the first group carrying each wanted title and creating the
/// missing part of the path when the walk runs out of matches.
pub open spec fn insert_item_listv(
    its: Seq<ItemV>,
    comps: Seq<Seq<char>>,
    depth: int,
    item: ItemV,
) -> Seq<ItemV>
    decreases its,
{
    if !(0 <= depth < comps.len()) {
        its
    } else if its.len() == 0 {
        seq![item_chain(comps, depth, item)]
    } else {
        let rest = its.skip(1);
        match its[0] {
            ItemV::Standalone(_) => seq![its[0]] + insert_item_listv(rest, comps, depth, item),
            ItemV::Group(g) => {
                if g.title == comps[depth] {
                    if depth == comps.len() - 1 {
                        seq![ItemV::Group(GroupV { title: g.title, feeds: g.feeds.push(item) })]
                            + rest
                    } else {
                        seq![
                            ItemV::Group(
                                GroupV {
                                    title: g.title,
                                    feeds: insert_item_listv(g.feeds, comps, depth + 1, item),
                                },
                            ),
                        ] + rest
                    }
                } else {
                    seq![its[0]] + insert_item_listv(rest, comps, depth, item)
                }
            },
        }
    }
}

/// A fresh chain of nested empty groups for the path suffix `comps[depth..]`.
pub open spec fn group_chain(comps: Seq<Seq<char>>, depth: int) -> ItemV
    decreases comps.len() - depth,
{
    if !(0 <= depth < comps.len()) {
        ItemV::Group(GroupV { title: Seq::empty(), feeds: Seq::empty() })
    } else if depth == comps.len() - 1 {
        ItemV::Group(GroupV { title: comps[depth], feeds: Seq::empty() })
    } else {
        ItemV::Group(GroupV { title: comps[depth], feeds: seq![group_chain(comps, depth + 1)] })
    }
}

/// Make the group path `comps[depth..]` exist: walk into the first group
/// carrying each wanted title, create the missing part, and change nothing
/// when the full path already exists (the operation is idempotent).
pub open spec fn ensure_group_listv(its: Seq<ItemV>, comps: Seq<Seq<char>>, depth: int) -> Seq<
    ItemV,
>
    decreases its,
{
    if !(0 <= depth < comps.len()) {
        its
    } else if its.len() == 0 {
        seq![group_chain(comps, depth)]
    } else {
        let rest = its.skip(1);
        match its[0] {
            ItemV::Standalone(_) => seq![its[0]] + ensure_group_listv(rest, comps, depth),
            ItemV::Group(g) => {
                if g.title == comps[depth] {
                    if depth == comps.len() - 1 {
                        its
                    } else {
                        seq![
                            ItemV::Group(
                                GroupV {
                                    title: g.title,
                                    feeds: ensure_group_listv(g.feeds, comps, depth + 1),
                                },
                            ),
                        ] + rest
                    }
                } else {
                    seq![its[0]] + ensure_group_listv(rest, comps, depth)
                }
            },
        }
    }
}

/// Build the chain of nested groups for `comps[depth..]` with `item` inside.
fn item_chain_exec(comps: &Vec<String>, depth: usize, item: FeedConfigItem) -> (r: FeedConfigItem)
    requires
        depth < comps.len(),
    ensures
        item_v(r) == item_chain(comps.deep_view(), depth as int, item_v(item)),
    decreases comps.len() - depth,
{
    if depth + 1 == comps.len() {
        let mut feeds: Vec<FeedConfigItem> = Vec::new();
        let ghost iv = item_v(item);
        feeds.push(item);
        proof {
            assert(items_v(feeds@.skip(1)) =~= Seq::<ItemV>::empty());
            assert(items_v(feeds@) =~= seq![iv]);
        }
        FeedConfigItem::Group(FeedGroup { title: comps[depth].clone(), feeds })
    } else {
        let inner = item_chain_exec(comps, depth + 1, item);
        let mut feeds: Vec<FeedConfigItem> = Vec::new();
        let ghost iv = item_v(inner);
        feeds.push(inner);
        proof {
            assert(items_v(feeds@.skip(1)) =~= Seq::<ItemV>::empty());
            assert(items_v(feeds@) =~= seq![iv]);
        }
        FeedConfigItem::Group(FeedGroup { title: comps[depth].clone(), feeds })
    }
}

fn insert_item_vec(
    items: Vec<FeedConfigItem>,
    comps: &Vec<String>,
    depth: usize,
    item: FeedConfigItem,
) -> (r: Vec<FeedConfigItem>)
    requires
        depth < comps.len(),
    ensures
        items_v(r@) == insert_item_listv(
            items_v(items@),
            comps.deep_view(),
            depth as int,
            item_v(item),
        ),
    decreases items@,
{
    let ghost its0 = items@;
    let ghost iv = item_v(item);
    let ghost itemg = item;
    let mut items = items;
    if items.len() == 0 {
        proof {
            assert(items_v(items@) =~= Seq::<ItemV>::empty());
        }
        let chain = item_chain_exec(comps, depth, item);
        let ghost cv = item_v(chain);
        items.push(chain);
        proof {
            assert(items_v(items@.skip(1)) =~= Seq::<ItemV>::empty());
            assert(items_v(items@) =~= seq![cv]);
        }
        return items;
    }
    let head = items.remove(0);
    proof {
        assert(items@ =~= its0.skip(1));
        lemma_items_v_index(its0, 0);
        lemma_items_v_skip(its0, 1);
        lemma_items_v_len(its0);
        assert(items_v(its0) == seq![item_v(head)] + items_v(its0.skip(1)));
    }
    match head {
        FeedConfigItem::Standalone(f) => {
            let mut out = insert_item_vec(items, comps, depth, item);
            let h = FeedConfigItem::Standalone(f);
            let ghost outs = out@;
            let ghost hg = h;
            out.insert(0, h);
            proof {
                lemma_items_v_insert_front(outs, hg);
            }
            out
        },
        FeedConfigItem::Group(g) => {
            if str_eq(g.title.as_str(), comps[depth].as_str()) {
                if depth + 1 == comps.len() {
                    let mut nf = g.feeds;
                    let ghost nf0 = nf@;
                    nf.push(item);
                    proof {
                        crate::config_tree::lemma_items_v_push(nf0, itemg);
                    }
                    let h = FeedConfigItem::Group(FeedGroup { title: g.title, feeds: nf });
                    let mut out = items;
                    let ghost outs = out@;
                    let ghost hg = h;
                    out.insert(0, h);
                    proof {
                        lemma_items_v_insert_front(outs, hg);
                    }
                    out
                } else {
                    let nf = insert_item_vec(g.feeds, comps, depth + 1, item);
                    let h = FeedConfigItem::Group(FeedGroup { title: g.title, feeds: nf });
                    let mut out = items;
                    let ghost outs = out@;
                    let ghost hg = h;
                    out.insert(0, h);
                    proof {
                        lemma_items_v_insert_front(outs, hg);
                    }
                    out
                }
            } else {
                let mut out = insert_item_vec(items, comps, depth, item);
                let h = FeedConfigItem::Group(g);
                let ghost outs = out@;
                let ghost hg = h;
                out.insert(0, h);
                proof {
                    lemma_items_v_insert_front(outs, hg);
                }
                out
            }
        },
    }
}

/// Build the chain of nested empty groups for `comps[depth..]`.
fn group_chain_exec(comps: &Vec<String>, depth: usize) -> (r: FeedConfigItem)
    requires
        depth < comps.len(),
    ensures
        item_v(r) == group_chain(comps.deep_view(), depth as int),
    decreases comps.len() - depth,
{
    if depth + 1 == comps.len() {
        let feeds: Vec<FeedConfigItem> = Vec::new();
        proof {
            assert(items_v(feeds@) =~= Seq::<ItemV>::empty());
        }
        FeedConfigItem::Group(FeedGroup { title: comps[depth].clone(), feeds })
    } else {
        let inner = group_chain_exec(comps, depth + 1);
        let mut feeds: Vec<FeedConfigItem> = Vec::new();
        let ghost iv = item_v(inner);
        feeds.push(inner);
        proof {
            assert(items_v(feeds@.skip(1)) =~= Seq::<ItemV>::empty());
            assert(items_v(feeds@) =~= seq![iv]);
        }
        FeedConfigItem::Group(FeedGroup { title: comps[depth].clone(), feeds })
    }
}

fn ensure_group_vec(items: Vec<FeedConfigItem>, comps: &Vec<String>, depth: usize) -> (r: Vec<
    FeedConfigItem,
>)
    requires
        depth < comps.len(),
    ensures
        items_v(r@) == ensure_group_listv(items_v(items@), comps.deep_view(), depth as int),
    decreases items@,
{
    let ghost its0 = items@;
    let mut items = items;
    if items.len() == 0 {
        proof {
            assert(items_v(items@) =~= Seq::<ItemV>::empty());
        }
        let chain = group_chain_exec(comps, depth);
        let ghost cv = item_v(chain);
        items.push(chain);
        proof {
            assert(items_v(items@.skip(1)) =~= Seq::<ItemV>::empty());
            assert(items_v(items@) =~= seq![cv]);
        }
        return items;
    }
    let head = items.remove(0);
    proof {
        assert(items@ =~= its0.skip(1));
        lemma_items_v_index(its0, 0);
        lemma_items_v_skip(its0, 1);
        lemma_items_v_len(its0);
        assert(items_v(its0) == seq![item_v(head)] + items_v(its0.skip(1)));
    }
    match head {
        FeedConfigItem::Standalone(f) => {
            let mut out = ensure_group_vec(items, comps, depth);
            let h = FeedConfigItem::Standalone(f);
            let ghost outs = out@;
            let ghost hg = h;
            out.insert(0, h);
            proof {
                lemma_items_v_insert_front(outs, hg);
            }
            out
        },
        FeedConfigItem::Group(g) => {
            if str_eq(g.title.as_str(), comps[depth].as_str()) {
                if depth + 1 == comps.len() {
                    let h = FeedConfigItem::Group(g);
                    let mut out = items;
                    let ghost outs = out@;
                    let ghost hg = h;
                    out.insert(0, h);
                    proof {
                        lemma_items_v_insert_front(outs, hg);
                        assert(seq![item_v(hg)] + items_v(outs) =~= items_v(its0));
                    }
                    out
                } else {
                    let nf = ensure_group_vec(g.feeds, comps, depth + 1);
                    let h = FeedConfigItem::Group(FeedGroup { title: g.title, feeds: nf });
                    let mut out = items;
                    let ghost outs = out@;
                    let ghost hg = h;
                    out.insert(0, h);
                    proof {
                        lemma_items_v_insert_front(outs, hg);
                    }
                    out
                }
            } else {
                let mut out = ensure_group_vec(items, comps, depth);
                let h = FeedConfigItem::Group(g);
                let ghost outs = out@;
                let ghost hg = h;
                out.insert(0, h);
                proof {
                    lemma_items_v_insert_front(outs, hg);
                }
                out
            }
        },
    }
}

/// Make the group path `comps[depth..]` exist, creating what is missing;
/// a no-op when the full path is already there.
pub fn insert_group_recursive(
    feeds: &mut Vec<FeedConfigItem>,
    components: &Vec<String>,
    depth: usize,
)
    requires
        depth < components.len(),
    ensures
        items_v(final(feeds)@) == ensure_group_listv(
            items_v(old(feeds)@),
            components.deep_view(),
            depth as int,
        ),
{
    let mut tmp: Vec<FeedConfigItem> = Vec::new();
    core::mem::swap(feeds, &mut tmp);
    let out = ensure_group_vec(tmp, components, depth);
    *feeds = out;
}

/// Make the group named by the canonical path `group_path` exist.
pub fn add_group_to_config(feeds: &mut Vec<FeedConfigItem>, group_path: &str)
    ensures
        items_v(final(feeds)@) == ensure_group_listv(
            items_v(old(feeds)@),
            crate::paths::split_segs(group_path@),
            0,
        ),
{
    let components = crate::paths::split_path(group_path);
    insert_group_recursive(feeds, &components, 0);
}

/// Append a feed to the group reached by `components[depth..]`, creating
/// intermediate groups as needed.
pub fn insert_feed_into_group(
    feeds: &mut Vec<FeedConfigItem>,
    components: &Vec<String>,
    depth: usize,
    feed_source: FeedSource,
)
    requires
        depth < components.len(),
    ensures
        items_v(final(feeds)@) == insert_item_listv(
            items_v(old(feeds)@),
            components.deep_view(),
            depth as int,
            ItemV::Standalone(source_v(feed_source)),
        ),
{
    let mut tmp: Vec<FeedConfigItem> = Vec::new();
    core::mem::swap(feeds, &mut tmp);
    let out = insert_item_vec(tmp, components, depth, FeedConfigItem::Standalone(feed_source));
    *feeds = out;
}

/// Append `feed_item` to the group named by the canonical path `group_path`,
/// re-creating the group hierarchy when the target no longer exists.
pub fn paste_feed_into_group(
    feeds: &mut Vec<FeedConfigItem>,
    feed_item: FeedConfigItem,
    group_path: &str,
)
    ensures
        items_v(final(feeds)@) == insert_item_listv(
            items_v(old(feeds)@),
            crate::paths::split_segs(group_path@),
            0,
            item_v(feed_item),
        ),
{
    let components = crate::paths::split_path(group_path);
    let mut tmp: Vec<FeedConfigItem> = Vec::new();
    core::mem::swap(feeds, &mut tmp);
    let out = insert_item_vec(tmp, &components, 0, feed_item);
    *feeds = out;
}

/// Append `group_item` to the group named by the canonical path
/// `parent_path`, re-creating the hierarchy when the target no longer exists.
pub fn paste_group_into_group(
    feeds: &mut Vec<FeedConfigItem>,
    group_item: FeedConfigItem,
    parent_path: &str,
)
    ensures
        items_v(final(feeds)@) == insert_item_listv(
            items_v(old(feeds)@),
            crate::paths::split_segs(parent_path@),
            0,
            item_v(group_item),
        ),
{
    let components = crate::paths::split_path(parent_path);
    let mut tmp: Vec<FeedConfigItem> = Vec::new();
    core::mem::swap(feeds, &mut tmp);
    let out = insert_item_vec(tmp, &components, 0, group_item);
    *feeds = out;
}

impl FeedConfigItem {
    /// Deep copy of a configuration entry.
    pub fn clone_item(&self) -> (r: FeedConfigItem)
        ensures
            item_v(r) == item_v(*self),
        decreases *self,
    {
        match self {
            FeedConfigItem::Standalone(f) => FeedConfigItem::Standalone(f.clone_source()),
            FeedConfigItem::Group(g) => FeedConfigItem::Group(g.clone_group()),
        }
    }
}

impl FeedGroup {
    /// Deep copy of a group with all its nested content.
    pub fn clone_group(&self) -> (r: FeedGroup)
        ensures
            group_v(r) == group_v(*self),
        decreases *self,
    {
        let mut feeds: Vec<FeedConfigItem> = Vec::new();
        let mut i: usize = 0;
        proof {
            lemma_items_v_len(self.feeds@);
            assert(items_v(feeds@) =~= Seq::<ItemV>::empty());
            assert(items_v(self.feeds@).take(0) =~= Seq::<ItemV>::empty());
        }
        while i < self.feeds.len()
            invariant
                i <= self.feeds.len(),
                items_v(self.feeds@).len() == self.feeds@.len(),
                items_v(feeds@) == items_v(self.feeds@).take(i as int),
            decreases self.feeds.len() - i,
        {
            let c = self.feeds[i].clone_item();
            let ghost f0 = feeds@;
            let ghost cg = c;
            feeds.push(c);
            proof {
                crate::config_tree::lemma_items_v_push(f0, cg);
                lemma_items_v_index(self.feeds@, i as int);
                assert(items_v(self.feeds@).take(i + 1) =~= items_v(self.feeds@).take(
                    i as int,
                ).push(items_v(self.feeds@)[i as int]));
            }
            i = i + 1;
        }
        proof {
            assert(items_v(self.feeds@).take(self.feeds@.len() as int) =~= items_v(self.feeds@));
        }
        FeedGroup { title: self.title.clone(), feeds }
    }
}

/// Deep copy of a configuration item list; a structural edit snapshots the
/// feeds section with it before persisting, so a failed save can be rolled
/// back.
pub fn clone_items(items: &Vec<FeedConfigItem>) -> (r: Vec<FeedConfigItem>)
    ensures
        items_v(r@) == items_v(items@),
{
    let mut r: Vec<FeedConfigItem> = Vec::new();
    let mut i: usize = 0;
    proof {
        lemma_items_v_len(items@);
        assert(items_v(r@) =~= Seq::<ItemV>::empty());
        assert(items_v(items@).take(0) =~= Seq::<ItemV>::empty());
    }
    while i < items.len()
        invariant
            i <= items.len(),
            items_v(items@).len() == items@.len(),
            items_v(r@) == items_v(items@).take(i as int),
        decreases items.len() - i,
    {
        let c = items[i].clone_item();
        let ghost r0 = r@;
        let ghost cg = c;
        r.push(c);
        proof {
            crate::config_tree::lemma_items_v_push(r0, cg);
            lemma_items_v_index(items@, i as int);
            assert(items_v(items@).take(i + 1) =~= items_v(items@).take(i as int).push(
                items_v(items@)[i as int],
            ));
        }
        i = i + 1;
    }
    proof {
        assert(items_v(items@).take(items@.len() as int) =~= items_v(items@));
    }
    r
}

/// The canonical path of a segment list: nothing for the root, the joined
/// encoding otherwise.
pub open spec fn path_opt(segs: Seq<Seq<char>>) -> Option<Seq<char>> {
    if segs.len() == 0 {
        None
    } else {
        Some(crate::paths::join_segs(segs))
    }
}

/// One collected placement: the containing group's path and the source.
pub type Placement = (Option<Seq<char>>, SourceV);

proof fn lemma_ms_cons(x: Placement, s: Seq<Placement>)
    ensures
        (seq![x] + s).to_multiset() == s.to_multiset().insert(x),
{
    broadcast use vstd::multiset::group_multiset_axioms;

    vstd::seq_lib::lemma_seq_union_to_multiset_commutative(seq![x], s);
    assert(s + seq![x] =~= s.push(x));
    vstd::seq_lib::to_multiset_build(s, x);
}

proof fn lemma_ms_concat(a: Seq<Placement>, b: Seq<Placement>)
    ensures
        (a + b).to_multiset() == a.to_multiset().add(b.to_multiset()),
    decreases a,
{
    broadcast use vstd::multiset::group_multiset_axioms;

    if a.len() == 0 {
        assert(a + b =~= b);
        vstd::seq_lib::to_multiset_len(a);
        assert(a.to_multiset().len() == 0);
        assert(a.to_multiset() =~= Multiset::<Placement>::empty());
        assert(a.to_multiset().add(b.to_multiset()) =~= b.to_multiset());
    } else {
        lemma_ms_concat(a.skip(1), b);
        assert(a =~= seq![a[0]] + a.skip(1));
        assert(a + b =~= seq![a[0]] + (a.skip(1) + b));
        lemma_ms_cons(a[0], a.skip(1) + b);
        lemma_ms_cons(a[0], a.skip(1));
        assert((a + b).to_multiset() =~= a.to_multiset().add(b.to_multiset()));
    }
}

/// The path a child entry hangs under extends the parent path by one title.
proof fn lemma_child_path_push(segs: Seq<Seq<char>>, t: Seq<char>)
    ensures
        path_opt(segs.push(t)) == Some(child_path(path_opt(segs), t)),
{
    crate::paths::lemma_join_push(segs, t);
    if segs.len() == 0 {
        assert(crate::paths::join_segs(segs.push(t)) == t);
    }
}

/// Removing a feed takes exactly one placement out of the collected set.
proof fn lemma_remove_feed_collect(its: Seq<ItemV>, url: Seq<char>, segs: Seq<Seq<char>>)
    ensures
        ({
            let r = remove_feed_listv(its, url, segs);
            match r.1 {
                Some(p) => collect_feeds_list(its, path_opt(segs)).to_multiset()
                    == collect_feeds_list(r.0, path_opt(segs)).to_multiset().insert(
                    (path_opt(p.0), p.1),
                ),
                None => r.0 == its,
            }
        }),
    decreases its,
{
    broadcast use vstd::multiset::group_multiset_axioms;

    let path = path_opt(segs);
    let r = remove_feed_listv(its, url, segs);
    if its.len() == 0 {
    } else {
        let rest = its.skip(1);
        assert(its =~= seq![its[0]] + rest);
        lemma_collect_cons(its, path);
        match its[0] {
            ItemV::Standalone(f) => {
                if feed_key_matches(f, url) {
                    lemma_ms_cons((path, f), collect_feeds_list(rest, path));
                    assert(collect_feeds_item(its[0], path) =~= seq![(path, f)]);
                    assert(collect_feeds_list(its, path) =~= seq![(path, f)]
                        + collect_feeds_list(rest, path));
                } else {
                    lemma_remove_feed_collect(rest, url, segs);
                    let rr = remove_feed_listv(rest, url, segs);
                    match rr.1 {
                        Some(p) => {
                            lemma_collect_cons(seq![its[0]] + rr.0, path);
                            assert((seq![its[0]] + rr.0)[0] == its[0]);
                            assert((seq![its[0]] + rr.0).skip(1) =~= rr.0);
                            lemma_ms_concat(
                                collect_feeds_item(its[0], path),
                                collect_feeds_list(rest, path),
                            );
                            lemma_ms_concat(
                                collect_feeds_item(its[0], path),
                                collect_feeds_list(rr.0, path),
                            );
                            assert(collect_feeds_list(its, path).to_multiset()
                                =~= collect_feeds_list(r.0, path).to_multiset().insert(
                                (path_opt(p.0), p.1),
                            ));
                        },
                        None => {
                            assert(seq![its[0]] + rr.0 =~= its);
                        },
                    }
                }
            },
            ItemV::Group(g) => {
                let segs2 = segs.push(g.title);
                lemma_child_path_push(segs, g.title);
                let cp = Some(child_path(path, g.title));
                lemma_remove_feed_collect(g.feeds, url, segs2);
                let rg = remove_feed_listv(g.feeds, url, segs2);
                if rg.1 is Some {
                    let p = rg.1->0;
                    let h2 = ItemV::Group(GroupV { title: g.title, feeds: rg.0 });
                    lemma_collect_cons(seq![h2] + rest, path);
                    assert((seq![h2] + rest)[0] == h2);
                    assert((seq![h2] + rest).skip(1) =~= rest);
                    assert(collect_feeds_item(h2, path) == collect_feeds_list(rg.0, cp));
                    assert(collect_feeds_item(its[0], path) == collect_feeds_list(g.feeds, cp));
                    assert(path_opt(segs2) == cp);
                    lemma_ms_concat(
                        collect_feeds_list(g.feeds, cp),
                        collect_feeds_list(rest, path),
                    );
                    lemma_ms_concat(
                        collect_feeds_list(rg.0, cp),
                        collect_feeds_list(rest, path),
                    );
                    assert(collect_feeds_list(its, path).to_multiset()
                        =~= collect_feeds_list(r.0, path).to_multiset().insert(
                        (path_opt(p.0), p.1),
                    ));
                } else {
                    lemma_remove_feed_not_found(g.feeds, url, segs2);
                    assert(rg.0 == g.feeds);
                    let h2 = ItemV::Group(GroupV { title: g.title, feeds: rg.0 });
                    assert(h2 == its[0]);
                    lemma_remove_feed_collect(rest, url, segs);
                    let rr = remove_feed_listv(rest, url, segs);
                    match rr.1 {
                        Some(p) => {
                            lemma_collect_cons(seq![its[0]] + rr.0, path);
                            assert((seq![its[0]] + rr.0)[0] == its[0]);
                            assert((seq![its[0]] + rr.0).skip(1) =~= rr.0);
                            lemma_ms_concat(
                                collect_feeds_item(its[0], path),
                                collect_feeds_list(rest, path),
                            );
                            lemma_ms_concat(
                                collect_feeds_item(its[0], path),
                                collect_feeds_list(rr.0, path),
                            );
                            assert(collect_feeds_list(its, path).to_multiset()
                                =~= collect_feeds_list(r.0, path).to_multiset().insert(
                                (path_opt(p.0), p.1),
                            ));
                        },
                        None => {
                            assert(seq![its[0]] + rr.0 =~= its);
                        },
                    }
                }
            },
        }
    }
}

/// Unfold the collected placements of a non-empty list.
proof fn lemma_collect_cons(its: Seq<ItemV>, path: Option<Seq<char>>)
    requires
        its.len() > 0,
    ensures
        collect_feeds_list(its, path) == collect_feeds_item(its[0], path) + collect_feeds_list(
            its.skip(1),
            path,
        ),
{
}

/// Collected placements of a list with one entry appended.
proof fn lemma_collect_push(its: Seq<ItemV>, x: ItemV, path: Option<Seq<char>>)
    ensures
        collect_feeds_list(its.push(x), path) == collect_feeds_list(its, path)
            + collect_feeds_item(x, path),
    decreases its,
{
    if its.len() == 0 {
        assert(its.push(x)[0] == x);
        assert(its.push(x).skip(1) =~= Seq::<ItemV>::empty());
        assert(collect_feeds_list(its, path) == Seq::<Placement>::empty());
        assert(collect_feeds_list(its.push(x).skip(1), path) == Seq::<Placement>::empty());
        assert(collect_feeds_list(its.push(x), path) == collect_feeds_item(x, path)
            + Seq::<Placement>::empty());
        assert(collect_feeds_list(its.push(x), path) =~= collect_feeds_list(its, path)
            + collect_feeds_item(x, path));
    } else {
        lemma_collect_push(its.skip(1), x, path);
        assert(its.push(x)[0] == its[0]);
        assert(its.push(x).skip(1) =~= its.skip(1).push(x));
        assert(collect_feeds_list(its.push(x), path) =~= collect_feeds_list(its, path)
            + collect_feeds_item(x, path));
    }
}

/// The group path a feed lands under when inserted along `comps[depth..]`.
pub open spec fn landing_path(p: Option<Seq<char>>, comps: Seq<Seq<char>>, depth: int) -> Option<
    Seq<char>,
>
    decreases comps.len() - depth,
{
    if !(0 <= depth < comps.len()) {
        p
    } else if depth == comps.len() - 1 {
        Some(child_path(p, comps[depth]))
    } else {
        landing_path(Some(child_path(p, comps[depth])), comps, depth + 1)
    }
}

/// The chain created for a missing path holds exactly the one placement.
proof fn lemma_chain_collect(comps: Seq<Seq<char>>, depth: int, src: SourceV, p: Option<Seq<char>>)
    requires
        0 <= depth < comps.len(),
    ensures
        collect_feeds_item(item_chain(comps, depth, ItemV::Standalone(src)), p) == seq![
            (landing_path(p, comps, depth), src),
        ],
    decreases comps.len() - depth,
{
    let c = item_chain(comps, depth, ItemV::Standalone(src));
    let cp = Some(child_path(p, comps[depth]));
    if depth == comps.len() - 1 {
        assert(collect_feeds_item(c, p) == collect_feeds_list(
            seq![ItemV::Standalone(src)],
            cp,
        ));
        assert(seq![ItemV::Standalone(src)].skip(1) =~= Seq::<ItemV>::empty());
        assert(collect_feeds_list(seq![ItemV::Standalone(src)].skip(1), cp)
            == Seq::<Placement>::empty());
        assert(seq![ItemV::Standalone(src)][0] == ItemV::Standalone(src));
        assert(collect_feeds_list(seq![ItemV::Standalone(src)], cp) == collect_feeds_item(
            ItemV::Standalone(src),
            cp,
        ) + Seq::<Placement>::empty());
        assert(collect_feeds_item(ItemV::Standalone(src), cp) == seq![(cp, src)]);
        assert(collect_feeds_item(c, p) =~= seq![(cp, src)]);
    } else {
        lemma_chain_collect(comps, depth + 1, src, cp);
        let inner = item_chain(comps, depth + 1, ItemV::Standalone(src));
        assert(collect_feeds_item(c, p) == collect_feeds_list(seq![inner], cp));
        assert(seq![inner].skip(1) =~= Seq::<ItemV>::empty());
        assert(collect_feeds_list(seq![inner].skip(1), cp) == Seq::<Placement>::empty());
        assert(seq![inner][0] == inner);
        assert(collect_feeds_list(seq![inner], cp) == collect_feeds_item(inner, cp)
            + Seq::<Placement>::empty());
        assert(collect_feeds_list(seq![inner], cp) =~= collect_feeds_item(inner, cp));
    }
}

/// Inserting a feed adds exactly one placement to the collected set: the
/// source, under the target path.
proof fn lemma_insert_feed_collect(
    its: Seq<ItemV>,
    comps: Seq<Seq<char>>,
    depth: int,
    src: SourceV,
    p: Option<Seq<char>>,
)
    requires
        0 <= depth < comps.len(),
    ensures
        collect_feeds_list(
            insert_item_listv(its, comps, depth, ItemV::Standalone(src)),
            p,
        ).to_multiset() == collect_feeds_list(its, p).to_multiset().insert(
            (landing_path(p, comps, depth), src),
        ),
    decreases its,
{
    broadcast use vstd::multiset::group_multiset_axioms;

    let item = ItemV::Standalone(src);
    let r = insert_item_listv(its, comps, depth, item);
    let pair = (landing_path(p, comps, depth), src);
    if its.len() == 0 {
        lemma_chain_collect(comps, depth, src, p);
        assert(r =~= seq![item_chain(comps, depth, item)]);
        assert(r.skip(1) =~= Seq::<ItemV>::empty());
        assert(collect_feeds_list(r.skip(1), p) == Seq::<Placement>::empty());
        assert(r[0] == item_chain(comps, depth, item));
        assert(collect_feeds_list(r, p) == collect_feeds_item(item_chain(comps, depth, item), p)
            + Seq::<Placement>::empty());
        assert(collect_feeds_list(r, p) =~= seq![pair]);
        vstd::seq_lib::to_multiset_len(collect_feeds_list(its, p));
        assert(collect_feeds_list(its, p).to_multiset() =~= Multiset::<Placement>::empty());
        lemma_ms_cons(pair, Seq::<Placement>::empty());
        assert(seq![pair] =~= seq![pair] + Seq::<Placement>::empty());
        vstd::seq_lib::to_multiset_len(Seq::<Placement>::empty());
        assert(Seq::<Placement>::empty().to_multiset() =~= Multiset::<Placement>::empty());
        assert(collect_feeds_list(r, p).to_multiset() =~= collect_feeds_list(
            its,
            p,
        ).to_multiset().insert(pair));
    } else {
        let rest = its.skip(1);
        lemma_collect_cons(its, p);
        match its[0] {
            ItemV::Standalone(_) => {
                lemma_insert_feed_collect(rest, comps, depth, src, p);
                let t = insert_item_listv(rest, comps, depth, item);
                lemma_collect_cons(seq![its[0]] + t, p);
                assert((seq![its[0]] + t)[0] == its[0]);
                assert((seq![its[0]] + t).skip(1) =~= t);
                lemma_ms_concat(collect_feeds_item(its[0], p), collect_feeds_list(rest, p));
                lemma_ms_concat(collect_feeds_item(its[0], p), collect_feeds_list(t, p));
                assert(collect_feeds_list(r, p).to_multiset() =~= collect_feeds_list(
                    its,
                    p,
                ).to_multiset().insert(pair));
            },
            ItemV::Group(g) => {
                let cp = Some(child_path(p, g.title));
                if g.title == comps[depth] {
                    if depth == comps.len() - 1 {
                        let h2 = ItemV::Group(
                            GroupV { title: g.title, feeds: g.feeds.push(item) },
                        );
                        lemma_collect_cons(seq![h2] + rest, p);
                        assert((seq![h2] + rest)[0] == h2);
                        assert((seq![h2] + rest).skip(1) =~= rest);
                        lemma_collect_push(g.feeds, item, cp);
                        assert(collect_feeds_item(item, cp) =~= seq![(cp, src)]);
                        assert(collect_feeds_item(h2, p) == collect_feeds_list(g.feeds, cp)
                            + seq![(cp, src)]);
                        lemma_ms_concat(collect_feeds_list(g.feeds, cp), seq![(cp, src)]);
                        lemma_ms_cons((cp, src), Seq::<Placement>::empty());
                        assert(seq![(cp, src)] =~= seq![(cp, src)] + Seq::<Placement>::empty());
                        vstd::seq_lib::to_multiset_len(Seq::<Placement>::empty());
                        assert(Seq::<Placement>::empty().to_multiset()
                            =~= Multiset::<Placement>::empty());
                        lemma_ms_concat(collect_feeds_item(h2, p), collect_feeds_list(rest, p));
                        lemma_ms_concat(
                            collect_feeds_item(its[0], p),
                            collect_feeds_list(rest, p),
                        );
                        assert(pair == (cp, src));
                        assert(collect_feeds_list(r, p).to_multiset() =~= collect_feeds_list(
                            its,
                            p,
                        ).to_multiset().insert(pair));
                    } else {
                        lemma_insert_feed_collect(g.feeds, comps, depth + 1, src, cp);
                        let nf = insert_item_listv(g.feeds, comps, depth + 1, item);
                        let h2 = ItemV::Group(GroupV { title: g.title, feeds: nf });
                        lemma_collect_cons(seq![h2] + rest, p);
                        assert((seq![h2] + rest)[0] == h2);
                        assert((seq![h2] + rest).skip(1) =~= rest);
                        assert(collect_feeds_item(h2, p) == collect_feeds_list(nf, cp));
                        lemma_ms_concat(collect_feeds_list(nf, cp), collect_feeds_list(rest, p));
                        lemma_ms_concat(
                            collect_feeds_list(g.feeds, cp),
                            collect_feeds_list(rest, p),
                        );
                        assert(landing_path(cp, comps, depth + 1) == landing_path(
                            p,
                            comps,
                            depth,
                        ));
                        assert(collect_feeds_list(r, p).to_multiset() =~= collect_feeds_list(
                            its,
                            p,
                        ).to_multiset().insert(pair));
                    }
                } else {
                    lemma_insert_feed_collect(rest, comps, depth, src, p);
                    let t = insert_item_listv(rest, comps, depth, item);
                    lemma_collect_cons(seq![its[0]] + t, p);
                    assert((seq![its[0]] + t)[0] == its[0]);
                    assert((seq![its[0]] + t).skip(1) =~= t);
                    lemma_ms_concat(collect_feeds_item(its[0], p), collect_feeds_list(rest, p));
                    lemma_ms_concat(collect_feeds_item(its[0], p), collect_feeds_list(t, p));
                    assert(collect_feeds_list(r, p).to_multiset() =~= collect_feeds_list(
                        its,
                        p,
                    ).to_multiset().insert(pair));
                }
            },
        }
    }
}

/// The target path of an insertion along segments equals their joined
/// encoding.
proof fn lemma_landing_is_join(q: Seq<char>, comps: Seq<Seq<char>>, depth: int)
    requires
        0 <= depth < comps.len(),
    ensures
        landing_path(Some(q), comps, depth) == Some(
            q + seq![' ', '>', ' '] + crate::paths::join_segs(comps.skip(depth)),
        ),
    decreases comps.len() - depth,
{
    if depth == comps.len() - 1 {
        assert(comps.skip(depth) =~= seq![comps[depth]]);
        assert(crate::paths::join_segs(seq![comps[depth]]) == comps[depth]);
    } else {
        let q2 = q + seq![' ', '>', ' '] + comps[depth];
        lemma_landing_is_join(q2, comps, depth + 1);
        let tail = comps.skip(depth);
        assert(tail[0] == comps[depth]);
        assert(tail.skip(1) =~= comps.skip(depth + 1));
        assert(tail.len() >= 2);
        assert(crate::paths::join_segs(tail) == comps[depth] + seq![' ', '>', ' ']
            + crate::paths::join_segs(comps.skip(depth + 1)));
        assert(q2 + seq![' ', '>', ' '] + crate::paths::join_segs(comps.skip(depth + 1)) =~= q
            + seq![' ', '>', ' '] + crate::paths::join_segs(tail));
    }
}

proof fn lemma_landing_from_root(comps: Seq<Seq<char>>)
    requires
        comps.len() > 0,
    ensures
        landing_path(None, comps, 0) == Some(crate::paths::join_segs(comps)),
    decreases comps.len(),
{
    if comps.len() == 1 {
        assert(crate::paths::join_segs(comps) == comps[0]);
    } else {
        lemma_landing_is_join(comps[0], comps, 1);
        assert(comps.skip(0) =~= comps);
        assert(comps.skip(1).len() > 0);
        assert(crate::paths::join_segs(comps) == comps[0] + seq![' ', '>', ' ']
            + crate::paths::join_segs(comps.skip(1)));
    }
}

/// The cut/paste round trip: removing a feed by its feed URL and
/// re-inserting it at the path it was removed from — into the same group,
/// or at the root for a feed that stood outside every group — restores
/// exactly the multiset of (group path, feed) placements, so the
/// configuration tree is structurally equal to the original up to ordering
/// within the affected group.
pub proof fn lemma_cut_paste_round_trip(its: Seq<ItemV>, url: Seq<char>)
    requires
        remove_feed_listv(its, url, Seq::empty()).1 is Some,
    ensures
        ({
            let r = remove_feed_listv(its, url, Seq::empty());
            let p = r.1->0;
            let back = if p.0.len() == 0 {
                r.0.push(ItemV::Standalone(p.1))
            } else {
                insert_item_listv(r.0, p.0, 0, ItemV::Standalone(p.1))
            };
            collect_feeds_list(back, None).to_multiset() == collect_feeds_list(
                its,
                None,
            ).to_multiset()
        }),
{
    broadcast use vstd::multiset::group_multiset_axioms;

    let r = remove_feed_listv(its, url, Seq::empty());
    let p = r.1->0;
    lemma_remove_feed_collect(its, url, Seq::empty());
    assert(path_opt(Seq::empty()) is None);
    if p.0.len() == 0 {
        let back = r.0.push(ItemV::Standalone(p.1));
        lemma_collect_push(r.0, ItemV::Standalone(p.1), None);
        assert(collect_feeds_item(ItemV::Standalone(p.1), None) =~= seq![
            (None::<Seq<char>>, p.1),
        ]);
        lemma_ms_concat(collect_feeds_list(r.0, None), seq![(None::<Seq<char>>, p.1)]);
        lemma_ms_cons((None::<Seq<char>>, p.1), Seq::<Placement>::empty());
        assert(seq![(None::<Seq<char>>, p.1)] =~= seq![(None::<Seq<char>>, p.1)]
            + Seq::<Placement>::empty());
        vstd::seq_lib::to_multiset_len(Seq::<Placement>::empty());
        assert(Seq::<Placement>::empty().to_multiset() =~= Multiset::<Placement>::empty());
        assert(path_opt(p.0) is None);
        assert(collect_feeds_list(back, None).to_multiset() =~= collect_feeds_list(
            its,
            None,
        ).to_multiset());
    } else {
        lemma_insert_feed_collect(r.0, p.0, 0, p.1, None);
        lemma_landing_from_root(p.0);
        assert(landing_path(None, p.0, 0) == path_opt(p.0));
    }
}

/// `items_v` of a tail.
pub proof fn lemma_items_v_skip(s: Seq<FeedConfigItem>, n: int)
    requires
        0 <= n <= s.len(),
    ensures
        items_v(s.skip(n)) == items_v(s).skip(n),
    decreases n,
{
    lemma_items_v_len(s);
    if n == 0 {
        assert(s.skip(0) =~= s);
        assert(items_v(s).skip(0) =~= items_v(s));
    } else {
        lemma_items_v_skip(s.skip(1), n - 1);
        assert(s.skip(1).skip(n - 1) =~= s.skip(n));
        lemma_items_v_len(s.skip(1));
        assert(items_v(s).skip(1).skip(n - 1) =~= items_v(s).skip(n));
    }
}

/// `items_v` after putting one entry at the front.
pub proof fn lemma_items_v_insert_front(olds: Seq<FeedConfigItem>, x: FeedConfigItem)
    ensures
        items_v(olds.insert(0, x)) == seq![item_v(x)] + items_v(olds),
{
    let s = olds.insert(0, x);
    assert(s[0] == x);
    assert(s.skip(1) =~= olds);
    assert(items_v(s) == seq![item_v(x)] + items_v(olds));
}

} // verus!
