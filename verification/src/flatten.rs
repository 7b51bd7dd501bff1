//! The display flattener.
//!
//! Turns the group tree into the ordered flat list shown in the feeds pane:
//! the synthetic "All" row, then the standalone feeds in record order, then
//! the group forest depth-first — a header for every visible group, its
//! direct feeds, then its child groups.  A collapsed group still shows its
//! header; only its descendants are hidden.

use vstd::multiset::Multiset;
use vstd::prelude::*;

use crate::records::{Feed, FeedV};
use crate::tree::{
    feeds_unread, feeds_v, lemma_feeds_unread_nonneg, lemma_feeds_unread_split,
    lemma_feeds_unread_take, lemma_nodes_v_index, lemma_nodes_v_len, node_v, nodes_v, GroupNode,
    NodeV,
};

verus! {

/// A single row in the feeds pane.
pub enum FeedListItem {
    /// Shows all articles from all feeds.
    All { unread_count: u32 },
    /// A collapsible group header.
    GroupHeader { title: String, full_path: String, collapsed: bool, unread_count: u32, depth: u8 },
    /// An individual feed.
    Feed { feed: Feed, depth: u8 },
}

/// Mathematical image of a [`FeedListItem`].
#[verifier::ext_equal]
pub enum RowV {
    All { unread_count: u32 },
    GroupHeader { title: Seq<char>, full_path: Seq<char>, collapsed: bool, unread_count: u32, depth: u8 },
    Feed { feed: FeedV, depth: u8 },
}

pub open spec fn row_v(r: FeedListItem) -> RowV {
    match r {
        FeedListItem::All { unread_count } => RowV::All { unread_count },
        FeedListItem::GroupHeader { title, full_path, collapsed, unread_count, depth } => {
            RowV::GroupHeader {
                title: title@,
                full_path: full_path@,
                collapsed,
                unread_count,
                depth,
            }
        },
        FeedListItem::Feed { feed, depth } => RowV::Feed { feed: feed@, depth },
    }
}

pub open spec fn rows_v(s: Seq<FeedListItem>) -> Seq<RowV> {
    s.map_values(|r: FeedListItem| row_v(r))
}

/// `rows_v` distributes over push.
pub proof fn lemma_rows_v_push(s: Seq<FeedListItem>, x: FeedListItem)
    ensures
        rows_v(s.push(x)) == rows_v(s).push(row_v(x)),
{
    assert(rows_v(s.push(x)) =~= rows_v(s).push(row_v(x)));
}

/// Membership of a path in the collapsed-group set.
pub open spec fn path_in(cs: Seq<Seq<char>>, p: Seq<char>) -> bool {
    exists|k: int| 0 <= k < cs.len() && cs[k] == p
}

/// The next nesting depth, capped at the widest displayable indent.
pub open spec fn depth_down(d: u8) -> u8 {
    if d == u8::MAX {
        d
    } else {
        (d + 1) as u8
    }
}

/// The feed rows of one group, in record order.
pub open spec fn feed_rows(fs: Seq<FeedV>, depth: u8) -> Seq<RowV> {
    fs.map_values(|f: FeedV| RowV::Feed { feed: f, depth })
}

/// The rows of one visible node: its header, then — unless the node is
/// collapsed — its direct feeds and its child groups, depth-first.
pub open spec fn flatten_node(n: NodeV, depth: u8, cs: Seq<Seq<char>>) -> Seq<RowV>
    decreases n,
{
    let collapsed = path_in(cs, n.full_path);
    let header = RowV::GroupHeader {
        title: n.title,
        full_path: n.full_path,
        collapsed,
        unread_count: n.unread_count,
        depth,
    };
    seq![header] + if collapsed {
        Seq::empty()
    } else {
        feed_rows(n.feeds, depth_down(depth)) + flatten_forest(n.children, depth_down(depth), cs)
    }
}

/// The rows of a forest of visible nodes.
pub open spec fn flatten_forest(ns: Seq<NodeV>, depth: u8, cs: Seq<Seq<char>>) -> Seq<RowV>
    decreases ns,
{
    if ns.len() == 0 {
        Seq::empty()
    } else {
        flatten_node(ns[0], depth, cs) + flatten_forest(ns.skip(1), depth, cs)
    }
}

/// The standalone feed rows: every feed with an empty group path, in record
/// order.
pub open spec fn standalone_rows(fs: Seq<FeedV>) -> Seq<RowV>
    decreases fs,
{
    if fs.len() == 0 {
        Seq::empty()
    } else {
        (if fs[0].group_title.len() == 0 {
            seq![RowV::Feed { feed: fs[0], depth: 0u8 }]
        } else {
            Seq::empty()
        }) + standalone_rows(fs.skip(1))
    }
}

/// The full display list: the "All" row carrying the unread total of every
/// feed, the standalone feeds, then the group forest.
pub open spec fn display_rows(fs: Seq<FeedV>, ns: Seq<NodeV>, cs: Seq<Seq<char>>) -> Seq<RowV> {
    seq![RowV::All { unread_count: feeds_unread(fs) as u32 }] + standalone_rows(fs)
        + flatten_forest(ns, 0u8, cs)
}

pub fn is_collapsed_in(collapsed: &Vec<String>, p: &str) -> (r: bool)
    ensures
        r == path_in(collapsed.deep_view(), p@),
{
    let mut i: usize = 0;
    while i < collapsed.len()
        invariant
            i <= collapsed@.len(),
            forall|k: int| 0 <= k < i ==> collapsed.deep_view()[k] != p@,
        decreases collapsed@.len() - i,
    {
        if crate::paths::str_eq(collapsed[i].as_str(), p) {
            proof {
                assert(collapsed.deep_view()[i as int] == collapsed@[i as int]@);
            }
            return true;
        }
        proof {
            assert(collapsed.deep_view()[i as int] == collapsed@[i as int]@);
        }
        i = i + 1;
    }
    false
}

/// Append the rows of one visible node.
fn push_node_rows(n: &GroupNode, depth: u8, collapsed: &Vec<String>, out: &mut Vec<FeedListItem>)
    ensures
        rows_v(final(out)@) == rows_v(old(out)@) + flatten_node(
            node_v(*n),
            depth,
            collapsed.deep_view(),
        ),
    decreases *n,
{
    let is_col = is_collapsed_in(collapsed, n.full_path.as_str());
    let ghost base = rows_v(out@);
    let header = FeedListItem::GroupHeader {
        title: n.title.clone(),
        full_path: n.full_path.clone(),
        collapsed: is_col,
        unread_count: n.unread_count,
        depth,
    };
    let ghost hv = row_v(header);
    let ghost out0 = out@;
    out.push(header);
    proof {
        assert(rows_v(out@) =~= base.push(hv));
    }
    if !is_col {
        let d2 = if depth == u8::MAX {
            depth
        } else {
            depth + 1
        };
        let mut i: usize = 0;
        proof {
            assert(feeds_v(n.feeds@).take(0).map_values(|f: FeedV| RowV::Feed { feed: f, depth: d2 })
                =~= Seq::<RowV>::empty());
            assert(rows_v(out@) =~= base.push(hv) + feed_rows(feeds_v(n.feeds@).take(0), d2));
        }
        while i < n.feeds.len()
            invariant
                i <= n.feeds@.len(),
                feeds_v(n.feeds@).len() == n.feeds@.len(),
                d2 == depth_down(depth),
                rows_v(out@) == base.push(hv) + feed_rows(feeds_v(n.feeds@).take(i as int), d2),
            decreases n.feeds@.len() - i,
        {
            let f = n.feeds[i].clone();
            let item = FeedListItem::Feed { feed: f, depth: d2 };
            let ghost ig = item;
            let ghost o0 = out@;
            out.push(item);
            proof {
                lemma_rows_v_push(o0, ig);
                assert(feeds_v(n.feeds@)[i as int] == n.feeds@[i as int]@);
                assert(feeds_v(n.feeds@).take(i + 1) =~= feeds_v(n.feeds@).take(i as int).push(
                    n.feeds@[i as int]@,
                ));
                assert(feed_rows(feeds_v(n.feeds@).take(i + 1), d2) =~= feed_rows(
                    feeds_v(n.feeds@).take(i as int),
                    d2,
                ).push(row_v(ig)));
                assert(rows_v(out@) =~= base.push(hv) + feed_rows(
                    feeds_v(n.feeds@).take(i + 1),
                    d2,
                ));
            }
            i = i + 1;
        }
        proof {
            assert(feeds_v(n.feeds@).take(n.feeds@.len() as int) =~= feeds_v(n.feeds@));
        }
        let mut j: usize = 0;
        proof {
            lemma_nodes_v_len(n.children@);
            assert(flatten_forest(nodes_v(n.children@).take(0), d2, collapsed.deep_view())
                =~= Seq::<RowV>::empty());
            assert(rows_v(out@) =~= base.push(hv) + feed_rows(feeds_v(n.feeds@), d2)
                + flatten_forest(nodes_v(n.children@).take(0), d2, collapsed.deep_view()));
        }
        while j < n.children.len()
            invariant
                j <= n.children@.len(),
                nodes_v(n.children@).len() == n.children@.len(),
                d2 == depth_down(depth),
                rows_v(out@) == base.push(hv) + feed_rows(feeds_v(n.feeds@), d2) + flatten_forest(
                    nodes_v(n.children@).take(j as int),
                    d2,
                    collapsed.deep_view(),
                ),
            decreases n.children@.len() - j,
        {
            push_node_rows(&n.children[j], d2, collapsed, out);
            proof {
                lemma_nodes_v_index(n.children@, j as int);
                lemma_flatten_forest_take(nodes_v(n.children@), d2, collapsed.deep_view(), j as int);
            }
            j = j + 1;
        }
        proof {
            assert(nodes_v(n.children@).take(n.children@.len() as int) =~= nodes_v(n.children@));
            assert(rows_v(out@) =~= rows_v(old(out)@) + flatten_node(
                node_v(*n),
                depth,
                collapsed.deep_view(),
            ));
        }
    } else {
        proof {
            assert(base.push(hv) =~= base + seq![hv]);
            assert(rows_v(out@) =~= rows_v(old(out)@) + flatten_node(
                node_v(*n),
                depth,
                collapsed.deep_view(),
            ));
        }
    }
}

proof fn lemma_flatten_forest_take(ns: Seq<NodeV>, depth: u8, cs: Seq<Seq<char>>, i: int)
    requires
        0 <= i < ns.len(),
    ensures
        flatten_forest(ns.take(i + 1), depth, cs) == flatten_forest(ns.take(i), depth, cs)
            + flatten_node(ns[i], depth, cs),
    decreases i,
{
    if i == 0 {
        assert(ns.take(1) =~= seq![ns[0]]);
        assert(ns.take(1).skip(1) =~= Seq::<NodeV>::empty());
        assert(ns.take(0) =~= Seq::<NodeV>::empty());
        assert(flatten_forest(ns.take(1), depth, cs) =~= flatten_forest(ns.take(0), depth, cs)
            + flatten_node(ns[0], depth, cs));
    } else {
        lemma_flatten_forest_take(ns.skip(1), depth, cs, i - 1);
        assert(ns.take(i + 1)[0] == ns[0]);
        assert(ns.take(i)[0] == ns[0]);
        assert(ns.take(i + 1).skip(1) =~= ns.skip(1).take(i));
        assert(ns.take(i).skip(1) =~= ns.skip(1).take(i - 1));
        assert(ns.skip(1)[i - 1] == ns[i]);
        assert(flatten_forest(ns.take(i + 1), depth, cs) =~= flatten_forest(ns.take(i), depth, cs)
            + flatten_node(ns[i], depth, cs));
    }
}

/// Build the display list from the cached feed records, the group tree and
/// the collapsed-group set.
pub fn build_display_rows(
    feeds: &Vec<Feed>,
    tree: &Vec<GroupNode>,
    collapsed: &Vec<String>,
) -> (rows: Vec<FeedListItem>)
    requires
        feeds_unread(feeds_v(feeds@)) <= u32::MAX,
    ensures
        rows_v(rows@) == display_rows(feeds_v(feeds@), nodes_v(tree@), collapsed.deep_view()),
{
    proof {
        lemma_feeds_unread_nonneg(feeds_v(feeds@));
    }
    let mut out: Vec<FeedListItem> = Vec::new();

    // The "All" row: total unread across every feed.
    let mut total: u32 = 0;
    let mut i: usize = 0;
    proof {
        assert(feeds_v(feeds@).take(0) =~= Seq::<FeedV>::empty());
    }
    while i < feeds.len()
        invariant
            i <= feeds@.len(),
            feeds_v(feeds@).len() == feeds@.len(),
            feeds_unread(feeds_v(feeds@)) <= u32::MAX,
            total == feeds_unread(feeds_v(feeds@).take(i as int)),
        decreases feeds@.len() - i,
    {
        proof {
            lemma_feeds_unread_take(feeds_v(feeds@), i as int);
            lemma_feeds_unread_split(feeds_v(feeds@), i as int + 1);
            lemma_feeds_unread_nonneg(feeds_v(feeds@).skip(i as int + 1));
            lemma_feeds_unread_nonneg(feeds_v(feeds@).take(i as int + 1));
            assert(feeds_v(feeds@)[i as int] == feeds@[i as int]@);
        }
        total = total + feeds[i].unread_count;
        i = i + 1;
    }
    proof {
        assert(feeds_v(feeds@).take(feeds@.len() as int) =~= feeds_v(feeds@));
    }
    out.push(FeedListItem::All { unread_count: total });
    proof {
        assert(rows_v(out@) =~= seq![RowV::All { unread_count: feeds_unread(feeds_v(feeds@)) as u32 }]);
    }

    // Standalone feeds, in record order.
    let ghost allrow = seq![RowV::All { unread_count: feeds_unread(feeds_v(feeds@)) as u32 }];
    let mut i: usize = 0;
    proof {
        assert(standalone_rows(feeds_v(feeds@).take(0)) =~= Seq::<RowV>::empty());
        assert(rows_v(out@) =~= allrow + standalone_rows(feeds_v(feeds@).take(0)));
    }
    while i < feeds.len()
        invariant
            i <= feeds@.len(),
            feeds_v(feeds@).len() == feeds@.len(),
            rows_v(out@) == allrow + standalone_rows(feeds_v(feeds@).take(i as int)),
        decreases feeds@.len() - i,
    {
        proof {
            lemma_standalone_rows_take(feeds_v(feeds@), i as int);
            assert(feeds_v(feeds@)[i as int] == feeds@[i as int]@);
        }
        if feeds[i].group_title.as_str().is_empty() {
            let f = feeds[i].clone();
            let item = FeedListItem::Feed { feed: f, depth: 0 };
            let ghost ig = item;
            let ghost o0 = out@;
            out.push(item);
            proof {
                lemma_rows_v_push(o0, ig);
                assert(rows_v(out@) =~= allrow + standalone_rows(feeds_v(feeds@).take(i + 1)));
            }
        } else {
            proof {
                assert(rows_v(out@) =~= allrow + standalone_rows(feeds_v(feeds@).take(i + 1)));
            }
        }
        i = i + 1;
    }
    proof {
        assert(feeds_v(feeds@).take(feeds@.len() as int) =~= feeds_v(feeds@));
    }

    // The group forest.
    let ghost mid = allrow + standalone_rows(feeds_v(feeds@));
    let mut j: usize = 0;
    proof {
        lemma_nodes_v_len(tree@);
        assert(flatten_forest(nodes_v(tree@).take(0), 0u8, collapsed.deep_view())
            =~= Seq::<RowV>::empty());
        assert(rows_v(out@) =~= mid + flatten_forest(
            nodes_v(tree@).take(0),
            0u8,
            collapsed.deep_view(),
        ));
    }
    while j < tree.len()
        invariant
            j <= tree@.len(),
            nodes_v(tree@).len() == tree@.len(),
            rows_v(out@) == mid + flatten_forest(
                nodes_v(tree@).take(j as int),
                0u8,
                collapsed.deep_view(),
            ),
        decreases tree@.len() - j,
    {
        push_node_rows(&tree[j], 0, collapsed, &mut out);
        proof {
            lemma_nodes_v_index(tree@, j as int);
            lemma_flatten_forest_take(nodes_v(tree@), 0u8, collapsed.deep_view(), j as int);
        }
        j = j + 1;
    }
    proof {
        assert(nodes_v(tree@).take(tree@.len() as int) =~= nodes_v(tree@));
        assert(rows_v(out@) =~= display_rows(
            feeds_v(feeds@),
            nodes_v(tree@),
            collapsed.deep_view(),
        ));
    }
    out
}

proof fn lemma_standalone_rows_take(fs: Seq<FeedV>, i: int)
    requires
        0 <= i < fs.len(),
    ensures
        standalone_rows(fs.take(i + 1)) == standalone_rows(fs.take(i)) + (if fs[i].group_title.len()
            == 0 {
            seq![RowV::Feed { feed: fs[i], depth: 0u8 }]
        } else {
            Seq::<RowV>::empty()
        }),
    decreases i,
{
    if i == 0 {
        assert(fs.take(1) =~= seq![fs[0]]);
        assert(fs.take(1).skip(1) =~= Seq::<FeedV>::empty());
        assert(fs.take(0) =~= Seq::<FeedV>::empty());
        assert(standalone_rows(fs.take(1)) =~= standalone_rows(fs.take(0)) + (
        if fs[0].group_title.len() == 0 {
            seq![RowV::Feed { feed: fs[0], depth: 0u8 }]
        } else {
            Seq::<RowV>::empty()
        }));
    } else {
        lemma_standalone_rows_take(fs.skip(1), i - 1);
        assert(fs.take(i + 1)[0] == fs[0]);
        assert(fs.take(i)[0] == fs[0]);
        assert(fs.take(i + 1).skip(1) =~= fs.skip(1).take(i));
        assert(fs.take(i).skip(1) =~= fs.skip(1).take(i - 1));
        assert(fs.skip(1)[i - 1] == fs[i]);
        assert(standalone_rows(fs.take(i + 1)) =~= standalone_rows(fs.take(i)) + (
        if fs[i].group_title.len() == 0 {
            seq![RowV::Feed { feed: fs[i], depth: 0u8 }]
        } else {
            Seq::<RowV>::empty()
        }));
    }
}

/// Is this row the group header of the group with this title and path?
pub open spec fn header_row_for(r: RowV, title: Seq<char>, full_path: Seq<char>) -> bool {
    &&& r is GroupHeader
    &&& r->GroupHeader_title == title
    &&& r->GroupHeader_full_path == full_path
}

/// Collapsing hides descendants only: whatever the collapsed set, the header
/// of every root group is still a row of the flattened forest.
pub proof fn lemma_headers_survive_collapse(ns: Seq<NodeV>, depth: u8, cs: Seq<Seq<char>>)
    ensures
        forall|i: int| 0 <= i < ns.len() ==> exists|j: int|
            0 <= j < flatten_forest(ns, depth, cs).len() && header_row_for(
                flatten_forest(ns, depth, cs)[j],
                (#[trigger] ns[i]).title,
                ns[i].full_path,
            ),
    decreases ns,
{
    if ns.len() > 0 {
        lemma_headers_survive_collapse(ns.skip(1), depth, cs);
        let r = flatten_forest(ns, depth, cs);
        let hd = flatten_node(ns[0], depth, cs);
        let tl = flatten_forest(ns.skip(1), depth, cs);
        assert(r == hd + tl);
        assert forall|i: int| 0 <= i < ns.len() implies exists|j: int|
            0 <= j < r.len() && header_row_for(r[j], (#[trigger] ns[i]).title, ns[i].full_path) by {
            if i == 0 {
                assert(r[0] == hd[0]);
                assert(header_row_for(r[0], ns[0].title, ns[0].full_path));
            } else {
                assert(ns.skip(1)[i - 1] == ns[i]);
                let j = choose|j: int|
                    0 <= j < tl.len() && header_row_for(
                        tl[j],
                        ns.skip(1)[i - 1].title,
                        ns.skip(1)[i - 1].full_path,
                    );
                assert(r[hd.len() + j] == tl[j]);
                assert(header_row_for(r[hd.len() + j], ns[i].title, ns[i].full_path));
            }
        }
    }
}

/// With every root collapsed, the flattened forest is exactly one header row
/// per root group: collapsing never removes header rows, only descendants.
pub proof fn lemma_flatten_all_collapsed(ns: Seq<NodeV>, depth: u8, cs: Seq<Seq<char>>)
    requires
        forall|i: int| 0 <= i < ns.len() ==> path_in(cs, (#[trigger] ns[i]).full_path),
    ensures
        flatten_forest(ns, depth, cs).len() == ns.len(),
        forall|i: int| 0 <= i < ns.len() ==> flatten_forest(ns, depth, cs)[i] == (RowV::GroupHeader {
            title: (#[trigger] ns[i]).title,
            full_path: ns[i].full_path,
            collapsed: true,
            unread_count: ns[i].unread_count,
            depth,
        }),
    decreases ns,
{
    if ns.len() > 0 {
        assert(path_in(cs, ns[0].full_path));
        assert forall|i: int| 0 <= i < ns.skip(1).len() implies path_in(
            cs,
            (#[trigger] ns.skip(1)[i]).full_path,
        ) by {
            assert(ns.skip(1)[i] == ns[i + 1]);
        }
        lemma_flatten_all_collapsed(ns.skip(1), depth, cs);
        let r = flatten_forest(ns, depth, cs);
        let hd = flatten_node(ns[0], depth, cs);
        let tl = flatten_forest(ns.skip(1), depth, cs);
        assert(hd =~= seq![
            RowV::GroupHeader {
                title: ns[0].title,
                full_path: ns[0].full_path,
                collapsed: true,
                unread_count: ns[0].unread_count,
                depth,
            },
        ]);
        assert forall|i: int| 0 <= i < ns.len() implies r[i] == (RowV::GroupHeader {
            title: (#[trigger] ns[i]).title,
            full_path: ns[i].full_path,
            collapsed: true,
            unread_count: ns[i].unread_count,
            depth,
        }) by {
            if i > 0 {
                assert(r[i] == tl[i - 1]);
                assert(ns.skip(1)[i - 1] == ns[i]);
            }
        }
    }
}

/// Is this row a group header carrying this full path?
pub open spec fn header_at(r: RowV, p: Seq<char>) -> bool {
    r is GroupHeader && r->GroupHeader_full_path == p
}

/// Does a group with this full path stand in the forest with no collapsed
/// group above it?
pub open spec fn visible_in_forest(ns: Seq<NodeV>, cs: Seq<Seq<char>>, p: Seq<char>) -> bool
    decreases ns,
{
    if ns.len() == 0 {
        false
    } else {
        visible_in_node(ns[0], cs, p) || visible_in_forest(ns.skip(1), cs, p)
    }
}

/// Does this node, or a descendant reached without passing through a
/// collapsed group, carry this full path?  The node's own collapse state
/// does not hide its own header, only its descendants'.
pub open spec fn visible_in_node(n: NodeV, cs: Seq<Seq<char>>, p: Seq<char>) -> bool
    decreases n,
{
    ||| n.full_path == p
    ||| (!path_in(cs, n.full_path) && visible_in_forest(n.children, cs, p))
}

/// No standalone row is a group header.
proof fn lemma_standalone_rows_no_header(fs: Seq<FeedV>)
    ensures
        forall|j: int|
            0 <= j < standalone_rows(fs).len() ==> !((#[trigger] standalone_rows(fs)[j])
                is GroupHeader),
    decreases fs,
{
    if fs.len() > 0 {
        lemma_standalone_rows_no_header(fs.skip(1));
        let hd = (if fs[0].group_title.len() == 0 {
            seq![RowV::Feed { feed: fs[0], depth: 0u8 }]
        } else {
            Seq::<RowV>::empty()
        });
        let tl = standalone_rows(fs.skip(1));
        assert forall|j: int| 0 <= j < standalone_rows(fs).len() implies !((
        #[trigger] standalone_rows(fs)[j]) is GroupHeader) by {
            if j >= hd.len() {
                assert(standalone_rows(fs)[j] == tl[j - hd.len()]);
            }
        }
    }
}

/// A header row for a path stands in the flattened node exactly when a
/// group with that path is visible under it.
pub proof fn lemma_header_iff_visible_node(n: NodeV, depth: u8, cs: Seq<Seq<char>>, p: Seq<char>)
    ensures
        (exists|j: int|
            0 <= j < flatten_node(n, depth, cs).len() && header_at(
                #[trigger] flatten_node(n, depth, cs)[j],
                p,
            )) <==> visible_in_node(n, cs, p),
    decreases n,
{
    let r = flatten_node(n, depth, cs);
    let collapsed = path_in(cs, n.full_path);
    let header = RowV::GroupHeader {
        title: n.title,
        full_path: n.full_path,
        collapsed,
        unread_count: n.unread_count,
        depth,
    };
    assert(r[0] == header);
    if n.full_path == p {
        assert(header_at(r[0], p));
    }
    if collapsed {
        assert(r.len() == 1);
        if exists|j: int| 0 <= j < r.len() && header_at(#[trigger] r[j], p) {
            let j = choose|j: int| 0 <= j < r.len() && header_at(#[trigger] r[j], p);
            assert(j == 0);
            assert(n.full_path == p);
        }
    } else {
        let fr = feed_rows(n.feeds, depth_down(depth));
        let cr = flatten_forest(n.children, depth_down(depth), cs);
        assert(r =~= seq![header] + fr + cr);
        lemma_header_iff_visible_forest(n.children, depth_down(depth), cs, p);
        if visible_in_forest(n.children, cs, p) {
            let j = choose|j: int| 0 <= j < cr.len() && header_at(#[trigger] cr[j], p);
            assert(r[1 + fr.len() + j] == cr[j]);
            assert(header_at(r[1 + fr.len() + j], p));
        }
        if exists|j: int| 0 <= j < r.len() && header_at(#[trigger] r[j], p) {
            let j = choose|j: int| 0 <= j < r.len() && header_at(#[trigger] r[j], p);
            if j == 0 {
                assert(n.full_path == p);
            } else if j < 1 + fr.len() {
                assert(r[j] == fr[j - 1]);
                assert(fr[j - 1] == RowV::Feed { feed: n.feeds[j - 1], depth: depth_down(depth) });
                assert(false);
            } else {
                assert(r[j] == cr[j - 1 - fr.len()]);
                assert(visible_in_forest(n.children, cs, p));
            }
        }
    }
}

/// A header row for a path stands in the flattened forest exactly when a
/// group with that path is visible in it.
pub proof fn lemma_header_iff_visible_forest(
    ns: Seq<NodeV>,
    depth: u8,
    cs: Seq<Seq<char>>,
    p: Seq<char>,
)
    ensures
        (exists|j: int|
            0 <= j < flatten_forest(ns, depth, cs).len() && header_at(
                #[trigger] flatten_forest(ns, depth, cs)[j],
                p,
            )) <==> visible_in_forest(ns, cs, p),
    decreases ns,
{
    let r = flatten_forest(ns, depth, cs);
    if ns.len() > 0 {
        let hd = flatten_node(ns[0], depth, cs);
        let tl = flatten_forest(ns.skip(1), depth, cs);
        assert(r == hd + tl);
        lemma_header_iff_visible_node(ns[0], depth, cs, p);
        lemma_header_iff_visible_forest(ns.skip(1), depth, cs, p);
        if visible_in_node(ns[0], cs, p) {
            let j = choose|j: int| 0 <= j < hd.len() && header_at(#[trigger] hd[j], p);
            assert(r[j] == hd[j]);
            assert(header_at(r[j], p));
        } else if visible_in_forest(ns.skip(1), cs, p) {
            let j = choose|j: int| 0 <= j < tl.len() && header_at(#[trigger] tl[j], p);
            assert(r[hd.len() + j] == tl[j]);
            assert(header_at(r[hd.len() + j], p));
        }
        if exists|j: int| 0 <= j < r.len() && header_at(#[trigger] r[j], p) {
            let j = choose|j: int| 0 <= j < r.len() && header_at(#[trigger] r[j], p);
            if j < hd.len() {
                assert(hd[j] == r[j]);
            } else {
                assert(tl[j - hd.len()] == r[j]);
            }
        }
    }
}

/// Is this row the feed row of this feed?
pub open spec fn feed_row_at(r: RowV, f: FeedV) -> bool {
    r is Feed && r->Feed_feed == f
}

/// Is this feed attached to a group shown expanded: a node reached without
/// passing through a collapsed group, itself not collapsed?
pub open spec fn feed_visible_in_forest(ns: Seq<NodeV>, cs: Seq<Seq<char>>, f: FeedV) -> bool
    decreases ns,
{
    if ns.len() == 0 {
        false
    } else {
        feed_visible_in_node(ns[0], cs, f) || feed_visible_in_forest(ns.skip(1), cs, f)
    }
}

pub open spec fn feed_visible_in_node(n: NodeV, cs: Seq<Seq<char>>, f: FeedV) -> bool
    decreases n,
{
    &&& !path_in(cs, n.full_path)
    &&& (n.feeds.contains(f) || feed_visible_in_forest(n.children, cs, f))
}

/// A feed row for a feed stands in the flattened node exactly when the
/// feed is visible under it.
pub proof fn lemma_feed_row_iff_visible_node(n: NodeV, depth: u8, cs: Seq<Seq<char>>, f: FeedV)
    ensures
        (exists|j: int|
            0 <= j < flatten_node(n, depth, cs).len() && feed_row_at(
                #[trigger] flatten_node(n, depth, cs)[j],
                f,
            )) <==> feed_visible_in_node(n, cs, f),
    decreases n,
{
    let r = flatten_node(n, depth, cs);
    let collapsed = path_in(cs, n.full_path);
    if collapsed {
        assert(r.len() == 1);
        if exists|j: int| 0 <= j < r.len() && feed_row_at(#[trigger] r[j], f) {
            let j = choose|j: int| 0 <= j < r.len() && feed_row_at(#[trigger] r[j], f);
            assert(j == 0);
            assert(false);
        }
    } else {
        let header = RowV::GroupHeader {
            title: n.title,
            full_path: n.full_path,
            collapsed,
            unread_count: n.unread_count,
            depth,
        };
        let fr = feed_rows(n.feeds, depth_down(depth));
        let cr = flatten_forest(n.children, depth_down(depth), cs);
        assert(r =~= seq![header] + fr + cr);
        lemma_feed_row_iff_visible_forest(n.children, depth_down(depth), cs, f);
        if n.feeds.contains(f) {
            let t = choose|t: int| 0 <= t < n.feeds.len() && n.feeds[t] == f;
            assert(fr[t] == RowV::Feed { feed: n.feeds[t], depth: depth_down(depth) });
            assert(r[1 + t] == fr[t]);
            assert(feed_row_at(r[1 + t], f));
        } else if feed_visible_in_forest(n.children, cs, f) {
            let j = choose|j: int| 0 <= j < cr.len() && feed_row_at(#[trigger] cr[j], f);
            assert(r[1 + fr.len() + j] == cr[j]);
            assert(feed_row_at(r[1 + fr.len() + j], f));
        }
        if exists|j: int| 0 <= j < r.len() && feed_row_at(#[trigger] r[j], f) {
            let j = choose|j: int| 0 <= j < r.len() && feed_row_at(#[trigger] r[j], f);
            if j == 0 {
                assert(false);
            } else if j < 1 + fr.len() {
                assert(r[j] == fr[j - 1]);
                assert(fr[j - 1] == RowV::Feed { feed: n.feeds[j - 1], depth: depth_down(depth) });
                assert(n.feeds[j - 1] == f);
                assert(n.feeds.contains(f));
            } else {
                assert(r[j] == cr[j - 1 - fr.len()]);
                assert(feed_visible_in_forest(n.children, cs, f));
            }
        }
    }
}

/// A feed row for a feed stands in the flattened forest exactly when the
/// feed is visible in it.
pub proof fn lemma_feed_row_iff_visible_forest(
    ns: Seq<NodeV>,
    depth: u8,
    cs: Seq<Seq<char>>,
    f: FeedV,
)
    ensures
        (exists|j: int|
            0 <= j < flatten_forest(ns, depth, cs).len() && feed_row_at(
                #[trigger] flatten_forest(ns, depth, cs)[j],
                f,
            )) <==> feed_visible_in_forest(ns, cs, f),
    decreases ns,
{
    let r = flatten_forest(ns, depth, cs);
    if ns.len() > 0 {
        let hd = flatten_node(ns[0], depth, cs);
        let tl = flatten_forest(ns.skip(1), depth, cs);
        assert(r == hd + tl);
        lemma_feed_row_iff_visible_node(ns[0], depth, cs, f);
        lemma_feed_row_iff_visible_forest(ns.skip(1), depth, cs, f);
        if feed_visible_in_node(ns[0], cs, f) {
            let j = choose|j: int| 0 <= j < hd.len() && feed_row_at(#[trigger] hd[j], f);
            assert(r[j] == hd[j]);
            assert(feed_row_at(r[j], f));
        } else if feed_visible_in_forest(ns.skip(1), cs, f) {
            let j = choose|j: int| 0 <= j < tl.len() && feed_row_at(#[trigger] tl[j], f);
            assert(r[hd.len() + j] == tl[j]);
            assert(feed_row_at(r[hd.len() + j], f));
        }
        if exists|j: int| 0 <= j < r.len() && feed_row_at(#[trigger] r[j], f) {
            let j = choose|j: int| 0 <= j < r.len() && feed_row_at(#[trigger] r[j], f);
            if j < hd.len() {
                assert(hd[j] == r[j]);
            } else {
                assert(tl[j - hd.len()] == r[j]);
            }
        }
    }
}

/// Does a standalone row for this feed stand in the standalone section?
proof fn lemma_standalone_feed_iff(fs: Seq<FeedV>, f: FeedV)
    ensures
        (exists|j: int|
            0 <= j < standalone_rows(fs).len() && feed_row_at(
                #[trigger] standalone_rows(fs)[j],
                f,
            )) <==> (exists|i: int|
            0 <= i < fs.len() && #[trigger] fs[i] == f && fs[i].group_title.len() == 0),
    decreases fs,
{
    let r = standalone_rows(fs);
    if fs.len() > 0 {
        let hd = (if fs[0].group_title.len() == 0 {
            seq![RowV::Feed { feed: fs[0], depth: 0u8 }]
        } else {
            Seq::<RowV>::empty()
        });
        let tl = standalone_rows(fs.skip(1));
        lemma_standalone_feed_iff(fs.skip(1), f);
        if fs[0] == f && fs[0].group_title.len() == 0 {
            assert(feed_row_at(r[0], f));
        }
        if exists|i: int|
            1 <= i < fs.len() && #[trigger] fs[i] == f && fs[i].group_title.len() == 0 {
            let i = choose|i: int|
                1 <= i < fs.len() && #[trigger] fs[i] == f && fs[i].group_title.len() == 0;
            assert(fs.skip(1)[i - 1] == fs[i]);
            let j = choose|j: int| 0 <= j < tl.len() && feed_row_at(#[trigger] tl[j], f);
            assert(r[hd.len() + j] == tl[j]);
            assert(feed_row_at(r[hd.len() + j], f));
        }
        if exists|j: int| 0 <= j < r.len() && feed_row_at(#[trigger] r[j], f) {
            let j = choose|j: int| 0 <= j < r.len() && feed_row_at(#[trigger] r[j], f);
            if j < hd.len() {
                assert(fs[0] == f && fs[0].group_title.len() == 0);
            } else {
                assert(r[j] == tl[j - hd.len()]);
                let i = choose|i: int|
                    0 <= i < fs.skip(1).len() && #[trigger] fs.skip(1)[i] == f && fs.skip(
                        1,
                    )[i].group_title.len() == 0;
                assert(fs[i + 1] == f);
            }
        }
    }
}

/// Collapsing never hides a feed behind the user's back, stated in full: a
/// feed's row stands in the display list exactly when the feed is
/// standalone, or sits in a group that is expanded and reached through
/// expanded groups only.
pub proof fn lemma_display_feed_row_iff_visible(
    fs: Seq<FeedV>,
    ns: Seq<NodeV>,
    cs: Seq<Seq<char>>,
    f: FeedV,
)
    ensures
        (exists|j: int|
            0 <= j < display_rows(fs, ns, cs).len() && feed_row_at(
                #[trigger] display_rows(fs, ns, cs)[j],
                f,
            )) <==> ((exists|i: int|
            0 <= i < fs.len() && #[trigger] fs[i] == f && fs[i].group_title.len() == 0)
            || feed_visible_in_forest(ns, cs, f)),
{
    let r = display_rows(fs, ns, cs);
    let sr = standalone_rows(fs);
    let pre = seq![RowV::All { unread_count: feeds_unread(fs) as u32 }] + sr;
    let fr = flatten_forest(ns, 0u8, cs);
    assert(r =~= pre + fr);
    lemma_standalone_feed_iff(fs, f);
    lemma_feed_row_iff_visible_forest(ns, 0u8, cs, f);
    if exists|i: int| 0 <= i < fs.len() && #[trigger] fs[i] == f && fs[i].group_title.len() == 0 {
        let j = choose|j: int| 0 <= j < sr.len() && feed_row_at(#[trigger] sr[j], f);
        assert(r[1 + j] == sr[j]);
        assert(feed_row_at(r[1 + j], f));
    } else if feed_visible_in_forest(ns, cs, f) {
        let j = choose|j: int| 0 <= j < fr.len() && feed_row_at(#[trigger] fr[j], f);
        assert(r[pre.len() + j] == fr[j]);
        assert(feed_row_at(r[pre.len() + j], f));
    }
    if exists|j: int| 0 <= j < r.len() && feed_row_at(#[trigger] r[j], f) {
        let j = choose|j: int| 0 <= j < r.len() && feed_row_at(#[trigger] r[j], f);
        if j == 0 {
            assert(false);
        } else if j < pre.len() {
            assert(r[j] == sr[j - 1]);
        } else {
            assert(fr[j - pre.len()] == r[j]);
        }
    }
}

/// The feeds of the feed rows, in display order.
pub open spec fn row_feeds(rows: Seq<RowV>) -> Seq<FeedV>
    decreases rows.len(),
{
    if rows.len() == 0 {
        Seq::empty()
    } else {
        (match rows[0] {
            RowV::Feed { feed, .. } => seq![feed],
            _ => Seq::<FeedV>::empty(),
        }) + row_feeds(rows.skip(1))
    }
}

proof fn lemma_row_feeds_concat(a: Seq<RowV>, b: Seq<RowV>)
    ensures
        row_feeds(a + b) == row_feeds(a) + row_feeds(b),
    decreases a,
{
    if a.len() == 0 {
        assert(a + b =~= b);
        assert(row_feeds(a) =~= Seq::<FeedV>::empty());
        assert(row_feeds(a + b) =~= row_feeds(a) + row_feeds(b));
    } else {
        lemma_row_feeds_concat(a.skip(1), b);
        assert((a + b)[0] == a[0]);
        assert((a + b).skip(1) =~= a.skip(1) + b);
        assert(row_feeds(a + b) =~= row_feeds(a) + row_feeds(b));
    }
}

proof fn lemma_row_feeds_feed_rows(fs: Seq<FeedV>, depth: u8)
    ensures
        row_feeds(feed_rows(fs, depth)) == fs,
    decreases fs,
{
    if fs.len() == 0 {
        assert(feed_rows(fs, depth) =~= Seq::<RowV>::empty());
        assert(row_feeds(feed_rows(fs, depth)) =~= fs);
    } else {
        lemma_row_feeds_feed_rows(fs.skip(1), depth);
        assert(feed_rows(fs, depth)[0] == RowV::Feed { feed: fs[0], depth });
        assert(feed_rows(fs, depth).skip(1) =~= feed_rows(fs.skip(1), depth));
        assert(row_feeds(feed_rows(fs, depth)) =~= fs);
    }
}

/// With nothing collapsed a node's rows carry its attached feeds, each
/// exactly once.
proof fn lemma_flatten_feeds_expanded_node(n: NodeV, depth: u8)
    ensures
        row_feeds(flatten_node(n, depth, Seq::empty())).to_multiset()
            == crate::tree::node_feeds_ms(n),
    decreases n,
{
    broadcast use vstd::multiset::group_multiset_axioms;

    assert(!path_in(Seq::empty(), n.full_path));
    let header = RowV::GroupHeader {
        title: n.title,
        full_path: n.full_path,
        collapsed: false,
        unread_count: n.unread_count,
        depth,
    };
    let fr = feed_rows(n.feeds, depth_down(depth));
    let cr = flatten_forest(n.children, depth_down(depth), Seq::empty());
    assert(flatten_node(n, depth, Seq::empty()) == seq![header] + (fr + cr));
    lemma_row_feeds_concat(seq![header], fr + cr);
    lemma_row_feeds_concat(fr, cr);
    assert(seq![header].skip(1) =~= Seq::<RowV>::empty());
    assert(row_feeds(Seq::<RowV>::empty()) =~= Seq::<FeedV>::empty());
    assert(row_feeds(seq![header]) =~= Seq::<FeedV>::empty());
    lemma_row_feeds_feed_rows(n.feeds, depth_down(depth));
    lemma_flatten_feeds_expanded_forest(n.children, depth_down(depth));
    assert(row_feeds(flatten_node(n, depth, Seq::empty())) =~= n.feeds + row_feeds(cr));
    crate::tree::lemma_feed_seq_ms_concat(n.feeds, row_feeds(cr));
}

/// With nothing collapsed a forest's rows carry its attached feeds, each
/// exactly once.
proof fn lemma_flatten_feeds_expanded_forest(ns: Seq<NodeV>, depth: u8)
    ensures
        row_feeds(flatten_forest(ns, depth, Seq::empty())).to_multiset()
            == crate::tree::forest_feeds_ms(ns),
    decreases ns,
{
    broadcast use vstd::multiset::group_multiset_axioms;

    if ns.len() == 0 {
        assert(row_feeds(flatten_forest(ns, depth, Seq::empty())) =~= Seq::<FeedV>::empty());
        vstd::seq_lib::to_multiset_len(Seq::<FeedV>::empty());
        assert(Seq::<FeedV>::empty().to_multiset() =~= Multiset::<FeedV>::empty());
    } else {
        let hd = flatten_node(ns[0], depth, Seq::empty());
        let tl = flatten_forest(ns.skip(1), depth, Seq::empty());
        lemma_row_feeds_concat(hd, tl);
        lemma_flatten_feeds_expanded_node(ns[0], depth);
        lemma_flatten_feeds_expanded_forest(ns.skip(1), depth);
        crate::tree::lemma_feed_seq_ms_concat(row_feeds(hd), row_feeds(tl));
    }
}

/// The feeds with an empty group path, in record order.
pub open spec fn standalones_of(fs: Seq<FeedV>) -> Seq<FeedV>
    decreases fs,
{
    if fs.len() == 0 {
        Seq::empty()
    } else {
        (if fs[0].group_title.len() == 0 {
            seq![fs[0]]
        } else {
            Seq::<FeedV>::empty()
        }) + standalones_of(fs.skip(1))
    }
}

proof fn lemma_row_feeds_standalone(fs: Seq<FeedV>)
    ensures
        row_feeds(standalone_rows(fs)) == standalones_of(fs),
    decreases fs,
{
    if fs.len() > 0 {
        lemma_row_feeds_standalone(fs.skip(1));
        let hd = (if fs[0].group_title.len() == 0 {
            seq![RowV::Feed { feed: fs[0], depth: 0u8 }]
        } else {
            Seq::<RowV>::empty()
        });
        let tl = standalone_rows(fs.skip(1));
        lemma_row_feeds_concat(hd, tl);
        if fs[0].group_title.len() == 0 {
            assert(hd.skip(1) =~= Seq::<RowV>::empty());
            assert(row_feeds(Seq::<RowV>::empty()) =~= Seq::<FeedV>::empty());
            assert(row_feeds(hd) =~= seq![fs[0]]);
        } else {
            assert(row_feeds(hd) =~= Seq::<FeedV>::empty());
        }
        assert(row_feeds(standalone_rows(fs)) =~= standalones_of(fs));
    } else {
        assert(row_feeds(standalone_rows(fs)) =~= standalones_of(fs));
    }
}

/// The standalone and grouped feeds partition the records.
proof fn lemma_partition_ms(fs: Seq<FeedV>)
    ensures
        standalones_of(fs).to_multiset().add(crate::tree::grouped_of(fs).to_multiset())
            == fs.to_multiset(),
    decreases fs,
{
    broadcast use vstd::multiset::group_multiset_axioms;

    if fs.len() == 0 {
        assert forall|x: FeedV|
            fs.to_multiset().count(x) == Multiset::<FeedV>::empty().count(x) by {
            vstd::seq_lib::to_multiset_contains(fs, x);
        }
        assert(fs.to_multiset() =~= Multiset::<FeedV>::empty());
        assert(standalones_of(fs) =~= fs);
        assert(crate::tree::grouped_of(fs) =~= fs);
        assert(standalones_of(fs).to_multiset().add(
            crate::tree::grouped_of(fs).to_multiset(),
        ) =~= fs.to_multiset());
    } else {
        lemma_partition_ms(fs.skip(1));
        assert(fs =~= seq![fs[0]] + fs.skip(1));
        crate::tree::lemma_feed_seq_ms_concat(seq![fs[0]], fs.skip(1));
        if fs[0].group_title.len() == 0 {
            crate::tree::lemma_feed_seq_ms_concat(seq![fs[0]], standalones_of(fs.skip(1)));
            assert(crate::tree::grouped_of(fs) =~= crate::tree::grouped_of(fs.skip(1)));
            assert(standalones_of(fs) =~= seq![fs[0]] + standalones_of(fs.skip(1)));
        } else {
            crate::tree::lemma_feed_seq_ms_concat(
                seq![fs[0]],
                crate::tree::grouped_of(fs.skip(1)),
            );
            assert(standalones_of(fs) =~= standalones_of(fs.skip(1)));
            assert(crate::tree::grouped_of(fs) =~= seq![fs[0]] + crate::tree::grouped_of(
                fs.skip(1),
            ));
        }
        assert(standalones_of(fs).to_multiset().add(
            crate::tree::grouped_of(fs).to_multiset(),
        ) =~= fs.to_multiset());
    }
}

/// With nothing collapsed the display list shows every feed of the state
/// exactly once: the feeds of its feed rows are, as a multiset, exactly
/// the feed records.  The premise is what the tree builder guarantees —
/// the forest's attached feeds are exactly the grouped records.
pub proof fn lemma_display_all_feeds_once(fs: Seq<FeedV>, ns: Seq<NodeV>)
    requires
        crate::tree::forest_feeds_ms(ns) == crate::tree::grouped_of(fs).to_multiset(),
    ensures
        row_feeds(display_rows(fs, ns, Seq::empty())).to_multiset() == fs.to_multiset(),
{
    broadcast use vstd::multiset::group_multiset_axioms;

    let r = display_rows(fs, ns, Seq::empty());
    let all = seq![RowV::All { unread_count: feeds_unread(fs) as u32 }];
    let sr = standalone_rows(fs);
    let fr = flatten_forest(ns, 0u8, Seq::empty());
    assert(r == all + sr + fr);
    lemma_row_feeds_concat(all + sr, fr);
    lemma_row_feeds_concat(all, sr);
    assert(all.skip(1) =~= Seq::<RowV>::empty());
    assert(row_feeds(Seq::<RowV>::empty()) =~= Seq::<FeedV>::empty());
    assert(row_feeds(all) =~= Seq::<FeedV>::empty());
    lemma_row_feeds_standalone(fs);
    lemma_flatten_feeds_expanded_forest(ns, 0u8);
    assert(row_feeds(all + sr) =~= standalones_of(fs));
    crate::tree::lemma_feed_seq_ms_concat(row_feeds(all + sr), row_feeds(fr));
    lemma_partition_ms(fs);
    assert(row_feeds(r).to_multiset() =~= fs.to_multiset());
}

/// Collapsing hides descendants only, stated in full: a group's header is a
/// row of the display list exactly when the group stands in the forest and
/// none of the groups strictly above it is collapsed.  In particular a
/// collapsed group keeps its own header, and no collapse set removes a root
/// group's header.
pub proof fn lemma_display_header_iff_visible(
    fs: Seq<FeedV>,
    ns: Seq<NodeV>,
    cs: Seq<Seq<char>>,
    p: Seq<char>,
)
    ensures
        (exists|j: int|
            0 <= j < display_rows(fs, ns, cs).len() && header_at(
                #[trigger] display_rows(fs, ns, cs)[j],
                p,
            )) <==> visible_in_forest(ns, cs, p),
{
    let r = display_rows(fs, ns, cs);
    let pre = seq![RowV::All { unread_count: feeds_unread(fs) as u32 }] + standalone_rows(fs);
    let fr = flatten_forest(ns, 0u8, cs);
    assert(r =~= pre + fr);
    lemma_standalone_rows_no_header(fs);
    lemma_header_iff_visible_forest(ns, 0u8, cs, p);
    if visible_in_forest(ns, cs, p) {
        let j = choose|j: int| 0 <= j < fr.len() && header_at(#[trigger] fr[j], p);
        assert(r[pre.len() + j] == fr[j]);
        assert(header_at(r[pre.len() + j], p));
    }
    if exists|j: int| 0 <= j < r.len() && header_at(#[trigger] r[j], p) {
        let j = choose|j: int| 0 <= j < r.len() && header_at(#[trigger] r[j], p);
        if j < pre.len() {
            if j > 0 {
                assert(pre[j] == standalone_rows(fs)[j - 1]);
            }
            assert(!(r[j] is GroupHeader));
            assert(false);
        } else {
            assert(fr[j - pre.len()] == r[j]);
        }
    }
}

} // verus!
