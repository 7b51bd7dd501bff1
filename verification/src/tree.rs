//! The transient group tree.
//!
//! Rebuilt on every cycle from the flat feed records plus the explicit list
//! of empty-group paths; never persisted.  Every node carries the sum of the
//! unread counts of all feeds in its subtree, recomputed bottom-up after each
//! rebuild.

use vstd::multiset::Multiset;
use vstd::prelude::*;

use crate::paths::{join_segs, split_segs, str_eq};
use crate::records::{Feed, FeedV};

verus! {

/// A node in the group tree.
pub struct GroupNode {
    /// Display title: the last segment of the path.
    pub title: String,
    /// Full canonical path, for collapse tracking.
    pub full_path: String,
    /// Total unread count of the subtree.
    pub unread_count: u32,
    /// Feeds directly in this group.
    pub feeds: Vec<Feed>,
    /// Nested child groups.
    pub children: Vec<GroupNode>,
}

/// Mathematical image of a [`GroupNode`].
#[verifier::ext_equal]
pub struct NodeV {
    pub title: Seq<char>,
    pub full_path: Seq<char>,
    pub unread_count: u32,
    pub feeds: Seq<FeedV>,
    pub children: Seq<NodeV>,
}

pub open spec fn feeds_v(fs: Seq<Feed>) -> Seq<FeedV> {
    fs.map_values(|f: Feed| f@)
}

/// `feeds_v` distributes over push.
pub proof fn lemma_feeds_v_push(s: Seq<Feed>, x: Feed)
    ensures
        feeds_v(s.push(x)) == feeds_v(s).push(x@),
{
    assert(feeds_v(s.push(x)) =~= feeds_v(s).push(x@));
}

pub open spec fn node_v(n: GroupNode) -> NodeV
    decreases n,
{
    NodeV {
        title: n.title@,
        full_path: n.full_path@,
        unread_count: n.unread_count,
        feeds: feeds_v(n.feeds@),
        children: nodes_v(n.children@),
    }
}

pub open spec fn nodes_v(s: Seq<GroupNode>) -> Seq<NodeV>
    decreases s,
{
    if s.len() == 0 {
        Seq::empty()
    } else {
        seq![node_v(s[0])] + nodes_v(s.skip(1))
    }
}

pub broadcast proof fn lemma_nodes_v_len(s: Seq<GroupNode>)
    ensures
        (#[trigger] nodes_v(s)).len() == s.len(),
    decreases s,
{
    if s.len() > 0 {
        lemma_nodes_v_len(s.skip(1));
    }
}

pub broadcast proof fn lemma_nodes_v_index(s: Seq<GroupNode>, i: int)
    requires
        0 <= i < s.len(),
    ensures
        #[trigger] nodes_v(s)[i] == node_v(s[i]),
    decreases s,
{
    lemma_nodes_v_len(s);
    if i > 0 {
        lemma_nodes_v_index(s.skip(1), i - 1);
    }
}

pub broadcast proof fn lemma_nodes_v_push(s: Seq<GroupNode>, x: GroupNode)
    ensures
        #[trigger] nodes_v(s.push(x)) == nodes_v(s).push(node_v(x)),
    decreases s,
{
    lemma_nodes_v_len(s);
    if s.len() == 0 {
        assert(s.push(x)[0] == x);
        assert(s.push(x).skip(1) =~= Seq::<GroupNode>::empty());
        assert(nodes_v(s) == Seq::<NodeV>::empty());
        assert(nodes_v(s.push(x).skip(1)) == Seq::<NodeV>::empty());
        assert(nodes_v(s.push(x)) == seq![node_v(x)] + Seq::<NodeV>::empty());
        assert(nodes_v(s.push(x)) =~= nodes_v(s).push(node_v(x)));
    } else {
        lemma_nodes_v_push(s.skip(1), x);
        assert(s.push(x).skip(1) =~= s.skip(1).push(x));
        assert(s.push(x)[0] == s[0]);
        lemma_nodes_v_len(s.skip(1));
        assert(nodes_v(s.push(x)) =~= nodes_v(s).push(node_v(x)));
    }
}

/// Sum of the unread counts of a feed list.
pub open spec fn feeds_unread(fs: Seq<FeedV>) -> int
    decreases fs,
{
    if fs.len() == 0 {
        0
    } else {
        fs[0].unread_count + feeds_unread(fs.skip(1))
    }
}

/// Sum of the unread counts of all feeds in the subtree of a node.
pub open spec fn node_unread(n: NodeV) -> int
    decreases n,
{
    feeds_unread(n.feeds) + forest_unread(n.children)
}

/// Sum of the unread counts of all feeds in a forest.
pub open spec fn forest_unread(ns: Seq<NodeV>) -> int
    decreases ns,
{
    if ns.len() == 0 {
        0
    } else {
        node_unread(ns[0]) + forest_unread(ns.skip(1))
    }
}

/// Every node's stored count equals the sum of the unread counts of the
/// feeds in its subtree.
pub open spec fn node_counts_ok(n: NodeV) -> bool
    decreases n,
{
    &&& n.unread_count == node_unread(n)
    &&& forest_counts_ok(n.children)
}

pub open spec fn forest_counts_ok(ns: Seq<NodeV>) -> bool
    decreases ns,
{
    if ns.len() == 0 {
        true
    } else {
        node_counts_ok(ns[0]) && forest_counts_ok(ns.skip(1))
    }
}

/// Every subtree sum fits in the stored `u32` counter.
pub open spec fn node_fits(n: NodeV) -> bool
    decreases n,
{
    node_unread(n) <= u32::MAX && forest_fits(n.children)
}

pub open spec fn forest_fits(ns: Seq<NodeV>) -> bool
    decreases ns,
{
    if ns.len() == 0 {
        true
    } else {
        node_fits(ns[0]) && forest_fits(ns.skip(1))
    }
}

/// The tree with every stored count replaced by its subtree sum; nothing
/// else changes.
pub open spec fn with_counts_node(n: NodeV) -> NodeV
    decreases n,
{
    NodeV {
        title: n.title,
        full_path: n.full_path,
        unread_count: node_unread(n) as u32,
        feeds: n.feeds,
        children: with_counts_list(n.children),
    }
}

pub open spec fn with_counts_list(ns: Seq<NodeV>) -> Seq<NodeV>
    decreases ns,
{
    if ns.len() == 0 {
        Seq::empty()
    } else {
        seq![with_counts_node(ns[0])] + with_counts_list(ns.skip(1))
    }
}

pub proof fn lemma_unread_nonneg(ns: Seq<NodeV>)
    ensures
        forest_unread(ns) >= 0,
        forall|i: int| 0 <= i < ns.len() ==> #[trigger] node_unread(ns[i]) >= 0,
    decreases ns, 1int,
{
    if ns.len() > 0 {
        lemma_node_unread_nonneg(ns[0]);
        lemma_unread_nonneg(ns.skip(1));
        assert forall|i: int| 0 <= i < ns.len() implies #[trigger] node_unread(ns[i]) >= 0 by {
            if i > 0 {
                assert(ns.skip(1)[i - 1] == ns[i]);
            }
        }
    }
}

pub proof fn lemma_node_unread_nonneg(n: NodeV)
    ensures
        node_unread(n) >= 0,
    decreases n, 0int,
{
    lemma_feeds_unread_nonneg(n.feeds);
    lemma_unread_nonneg(n.children);
}

pub proof fn lemma_feeds_unread_nonneg(fs: Seq<FeedV>)
    ensures
        feeds_unread(fs) >= 0,
        forall|i: int| 0 <= i < fs.len() ==> #[trigger] fs[i].unread_count <= feeds_unread(fs),
    decreases fs,
{
    if fs.len() > 0 {
        lemma_feeds_unread_nonneg(fs.skip(1));
        assert forall|i: int| 0 <= i < fs.len() implies #[trigger] fs[i].unread_count
            <= feeds_unread(fs) by {
            if i > 0 {
                assert(fs.skip(1)[i - 1] == fs[i]);
            }
        }
    }
}

pub proof fn lemma_feeds_unread_take(fs: Seq<FeedV>, i: int)
    requires
        0 <= i < fs.len(),
    ensures
        feeds_unread(fs.take(i + 1)) == feeds_unread(fs.take(i)) + fs[i].unread_count,
    decreases i,
{
    if i == 0 {
        assert(fs.take(1) =~= seq![fs[0]]);
        assert(fs.take(1).skip(1) =~= Seq::<FeedV>::empty());
        assert(fs.take(0) =~= Seq::<FeedV>::empty());
    } else {
        lemma_feeds_unread_take(fs.skip(1), i - 1);
        assert(fs.take(i + 1)[0] == fs[0]);
        assert(fs.take(i)[0] == fs[0]);
        assert(fs.take(i + 1).skip(1) =~= fs.skip(1).take(i));
        assert(fs.take(i).skip(1) =~= fs.skip(1).take(i - 1));
        assert(fs.skip(1)[i - 1] == fs[i]);
    }
}

/// `feeds_unread` splits around any index.
pub proof fn lemma_feeds_unread_split(fs: Seq<FeedV>, i: int)
    requires
        0 <= i <= fs.len(),
    ensures
        feeds_unread(fs) == feeds_unread(fs.take(i)) + feeds_unread(fs.skip(i)),
    decreases i,
{
    if i == 0 {
        assert(fs.take(0) =~= Seq::<FeedV>::empty());
        assert(fs.skip(0) =~= fs);
    } else {
        lemma_feeds_unread_split(fs, i - 1);
        lemma_feeds_unread_take(fs, i - 1);
        assert(fs.skip(i - 1)[0] == fs[i - 1]);
        assert(fs.skip(i - 1).skip(1) =~= fs.skip(i));
    }
}

proof fn lemma_forest_unread_take(ns: Seq<NodeV>, i: int)
    requires
        0 <= i < ns.len(),
    ensures
        forest_unread(ns.take(i + 1)) == forest_unread(ns.take(i)) + node_unread(ns[i]),
    decreases i,
{
    if i == 0 {
        assert(ns.take(1) =~= seq![ns[0]]);
        assert(ns.take(1).skip(1) =~= Seq::<NodeV>::empty());
        assert(ns.take(0) =~= Seq::<NodeV>::empty());
    } else {
        lemma_forest_unread_take(ns.skip(1), i - 1);
        assert(ns.take(i + 1)[0] == ns[0]);
        assert(ns.take(i)[0] == ns[0]);
        assert(ns.take(i + 1).skip(1) =~= ns.skip(1).take(i));
        assert(ns.take(i).skip(1) =~= ns.skip(1).take(i - 1));
        assert(ns.skip(1)[i - 1] == ns[i]);
    }
}

proof fn lemma_forest_unread_elem_le(ns: Seq<NodeV>, i: int)
    requires
        0 <= i < ns.len(),
    ensures
        node_unread(ns[i]) <= forest_unread(ns),
    decreases ns,
{
    lemma_unread_nonneg(ns);
    if i == 0 {
        lemma_unread_nonneg(ns.skip(1));
    } else {
        lemma_forest_unread_elem_le(ns.skip(1), i - 1);
        lemma_node_unread_nonneg(ns[0]);
        assert(ns.skip(1)[i - 1] == ns[i]);
    }
}

impl GroupNode {
    /// The total unread count of this subtree, recomputed from the feeds.
    pub fn calculate_unread_count(&self) -> (r: u32)
        requires
            node_unread(node_v(*self)) <= u32::MAX,
        ensures
            r == node_unread(node_v(*self)),
        decreases *self,
    {
        proof {
            lemma_feeds_unread_nonneg(node_v(*self).feeds);
            lemma_unread_nonneg(node_v(*self).children);
        }
        let mut sum: u32 = 0;
        let mut i: usize = 0;
        proof {
            assert(feeds_v(self.feeds@).take(0) =~= Seq::<FeedV>::empty());
        }
        while i < self.feeds.len()
            invariant
                i <= self.feeds.len(),
                feeds_v(self.feeds@).len() == self.feeds@.len(),
                sum == feeds_unread(feeds_v(self.feeds@).take(i as int)),
                feeds_unread(feeds_v(self.feeds@)) <= u32::MAX,
                forest_unread(nodes_v(self.children@)) >= 0,
                feeds_unread(feeds_v(self.feeds@)) + forest_unread(nodes_v(self.children@))
                    <= u32::MAX,
            decreases self.feeds.len() - i,
        {
            proof {
                lemma_feeds_unread_take(feeds_v(self.feeds@), i as int);
                lemma_feeds_unread_split(feeds_v(self.feeds@), i as int + 1);
                lemma_feeds_unread_nonneg(feeds_v(self.feeds@).skip(i as int + 1));
                lemma_feeds_unread_nonneg(feeds_v(self.feeds@).take(i as int + 1));
                assert(feeds_v(self.feeds@)[i as int] == self.feeds@[i as int]@);
            }
            sum = sum + self.feeds[i].unread_count;
            i = i + 1;
        }
        proof {
            assert(feeds_v(self.feeds@).take(self.feeds@.len() as int) =~= feeds_v(self.feeds@));
            lemma_nodes_v_len(self.children@);
            assert(nodes_v(self.children@).take(0) =~= Seq::<NodeV>::empty());
        }
        let mut j: usize = 0;
        while j < self.children.len()
            invariant
                j <= self.children.len(),
                nodes_v(self.children@).len() == self.children@.len(),
                sum == feeds_unread(feeds_v(self.feeds@)) + forest_unread(
                    nodes_v(self.children@).take(j as int),
                ),
                feeds_unread(feeds_v(self.feeds@)) >= 0,
                feeds_unread(feeds_v(self.feeds@)) + forest_unread(nodes_v(self.children@))
                    <= u32::MAX,
            decreases self.children.len() - j,
        {
            proof {
                lemma_nodes_v_index(self.children@, j as int);
                lemma_forest_unread_take(nodes_v(self.children@), j as int);
                lemma_forest_unread_elem_le(nodes_v(self.children@), j as int);
                lemma_unread_nonneg(nodes_v(self.children@).take(j as int));
                lemma_node_unread_nonneg(nodes_v(self.children@)[j as int]);
                // The running sum plus the next child stays within the total.
                lemma_forest_unread_take_le(nodes_v(self.children@), j as int);
            }
            let c = self.children[j].calculate_unread_count();
            sum = sum + c;
            j = j + 1;
        }
        proof {
            assert(nodes_v(self.children@).take(self.children@.len() as int) =~= nodes_v(
                self.children@,
            ));
        }
        sum
    }

    /// Recompute the stored count of this node and of every descendant.
    pub fn update_unread_counts(&mut self)
        requires
            node_unread(node_v(*old(self))) <= u32::MAX,
            forest_fits(node_v(*old(self)).children),
        ensures
            node_v(*final(self)) == with_counts_node(node_v(*old(self))),
    {
        let r = update_counts_node(self);
        *self = r;
    }
}

/// Prefix sums never exceed the whole.
proof fn lemma_forest_unread_take_le(ns: Seq<NodeV>, i: int)
    requires
        0 <= i < ns.len(),
    ensures
        forest_unread(ns.take(i + 1)) <= forest_unread(ns),
    decreases ns.len() - i,
{
    if i + 1 == ns.len() {
        assert(ns.take(i + 1) =~= ns);
    } else {
        lemma_forest_unread_take_le(ns, i + 1);
        lemma_forest_unread_take(ns, i + 1);
        lemma_unread_nonneg(ns);
    }
}

/// Copy of the node with every stored count replaced by its subtree sum.
fn update_counts_node(n: &GroupNode) -> (r: GroupNode)
    requires
        node_unread(node_v(*n)) <= u32::MAX,
        forest_fits(node_v(*n).children),
    ensures
        node_v(r) == with_counts_node(node_v(*n)),
    decreases *n,
{
    let count = n.calculate_unread_count();
    let mut children: Vec<GroupNode> = Vec::new();
    let mut i: usize = 0;
    proof {
        lemma_nodes_v_len(n.children@);
        assert(nodes_v(children@) =~= Seq::<NodeV>::empty());
        assert(with_counts_list(nodes_v(n.children@).take(0)) =~= Seq::<NodeV>::empty());
    }
    while i < n.children.len()
        invariant
            i <= n.children.len(),
            nodes_v(n.children@).len() == n.children@.len(),
            forest_fits(nodes_v(n.children@)),
            nodes_v(children@) == with_counts_list(nodes_v(n.children@).take(i as int)),
        decreases n.children.len() - i,
    {
        proof {
            lemma_nodes_v_index(n.children@, i as int);
            lemma_forest_fits_elem(nodes_v(n.children@), i as int);
        }
        let c = update_counts_node(&n.children[i]);
        let ghost cs = children@;
        let ghost cg = c;
        children.push(c);
        proof {
            lemma_nodes_v_push(cs, cg);
            lemma_with_counts_list_take(nodes_v(n.children@), i as int);
        }
        i = i + 1;
    }
    proof {
        assert(nodes_v(n.children@).take(n.children@.len() as int) =~= nodes_v(n.children@));
    }
    let mut feeds: Vec<Feed> = Vec::new();
    let mut j: usize = 0;
    proof {
        assert(feeds_v(feeds@) =~= Seq::<FeedV>::empty());
        assert(feeds_v(n.feeds@).take(0) =~= Seq::<FeedV>::empty());
    }
    while j < n.feeds.len()
        invariant
            j <= n.feeds.len(),
            feeds_v(n.feeds@).len() == n.feeds@.len(),
            feeds_v(feeds@) == feeds_v(n.feeds@).take(j as int),
        decreases n.feeds.len() - j,
    {
        let f = n.feeds[j].clone();
        let ghost fs0 = feeds@;
        let ghost fval = f;
        feeds.push(f);
        proof {
            lemma_feeds_v_push(fs0, fval);
            assert(feeds_v(n.feeds@)[j as int] == n.feeds@[j as int]@);
            assert(feeds_v(feeds@) =~= feeds_v(n.feeds@).take(j as int + 1));
        }
        j = j + 1;
    }
    proof {
        assert(feeds_v(n.feeds@).take(n.feeds@.len() as int) =~= feeds_v(n.feeds@));
    }
    let r = GroupNode {
        title: n.title.clone(),
        full_path: n.full_path.clone(),
        unread_count: count,
        feeds,
        children,
    };
    proof {
        assert(node_v(r) =~= with_counts_node(node_v(*n)));
    }
    r
}


/// The multiset of feed records attached anywhere in a node's subtree.
pub open spec fn node_feeds_ms(n: NodeV) -> Multiset<FeedV>
    decreases n,
{
    n.feeds.to_multiset().add(forest_feeds_ms(n.children))
}

pub open spec fn forest_feeds_ms(ns: Seq<NodeV>) -> Multiset<FeedV>
    decreases ns,
{
    if ns.len() == 0 {
        Multiset::empty()
    } else {
        node_feeds_ms(ns[0]).add(forest_feeds_ms(ns.skip(1)))
    }
}

/// Every attached feed carries its node's canonical path as its group path.
pub open spec fn node_feeds_placed(n: NodeV) -> bool
    decreases n,
{
    &&& (forall|k: int| 0 <= k < n.feeds.len() ==> (#[trigger] n.feeds[k]).group_title
        == n.full_path)
    &&& forest_feeds_placed(n.children)
}

pub open spec fn forest_feeds_placed(ns: Seq<NodeV>) -> bool
    decreases ns,
{
    forall|i: int| 0 <= i < ns.len() ==> node_feeds_placed(#[trigger] ns[i])
}

/// The grouped input feeds: those with a non-empty group path, in order.
pub open spec fn grouped_of(fs: Seq<FeedV>) -> Seq<FeedV>
    decreases fs,
{
    if fs.len() == 0 {
        Seq::empty()
    } else {
        (if fs[0].group_title.len() > 0 {
            seq![fs[0]]
        } else {
            Seq::empty()
        }) + grouped_of(fs.skip(1))
    }
}

/// Every grouped element is an input feed with a non-empty group path.
proof fn lemma_grouped_elems(fs: Seq<FeedV>)
    ensures
        forall|t: int| 0 <= t < grouped_of(fs).len() ==> (#[trigger] grouped_of(fs)[t]).group_title.len()
            > 0 && (exists|j: int| 0 <= j < fs.len() && #[trigger] fs[j] == grouped_of(fs)[t]),
    decreases fs,
{
    if fs.len() > 0 {
        lemma_grouped_elems(fs.skip(1));
        let g = grouped_of(fs);
        let head = if fs[0].group_title.len() > 0 {
            seq![fs[0]]
        } else {
            Seq::<FeedV>::empty()
        };
        assert forall|t: int| 0 <= t < g.len() implies (#[trigger] g[t]).group_title.len() > 0
            && (exists|j: int| 0 <= j < fs.len() && #[trigger] fs[j] == g[t]) by {
            if t < head.len() {
                assert(g[t] == fs[0]);
            } else {
                assert(g[t] == grouped_of(fs.skip(1))[t - head.len()]);
                let j = choose|j: int|
                    0 <= j < fs.skip(1).len() && #[trigger] fs.skip(1)[j] == grouped_of(
                        fs.skip(1),
                    )[t - head.len()];
                assert(fs[j + 1] == g[t]);
            }
        }
    }
}

proof fn lemma_grouped_of_take(fs: Seq<FeedV>, i: int)
    requires
        0 <= i < fs.len(),
    ensures
        grouped_of(fs.take(i + 1)) == grouped_of(fs.take(i)) + (if fs[i].group_title.len() > 0 {
            seq![fs[i]]
        } else {
            Seq::<FeedV>::empty()
        }),
    decreases i,
{
    if i == 0 {
        assert(fs.take(1) =~= seq![fs[0]]);
        assert(fs.take(1).skip(1) =~= Seq::<FeedV>::empty());
        assert(fs.take(0) =~= Seq::<FeedV>::empty());
        assert(grouped_of(fs.take(1)) =~= grouped_of(fs.take(0)) + (if fs[0].group_title.len()
            > 0 {
            seq![fs[0]]
        } else {
            Seq::<FeedV>::empty()
        }));
    } else {
        lemma_grouped_of_take(fs.skip(1), i - 1);
        assert(fs.take(i + 1)[0] == fs[0]);
        assert(fs.take(i)[0] == fs[0]);
        assert(fs.take(i + 1).skip(1) =~= fs.skip(1).take(i));
        assert(fs.take(i).skip(1) =~= fs.skip(1).take(i - 1));
        assert(fs.skip(1)[i - 1] == fs[i]);
        assert(grouped_of(fs.take(i + 1)) =~= grouped_of(fs.take(i)) + (
        if fs[i].group_title.len() > 0 {
            seq![fs[i]]
        } else {
            Seq::<FeedV>::empty()
        }));
    }
}

/// Feed multisets concatenate over sequence concatenation.
pub proof fn lemma_feed_seq_ms_concat(a: Seq<FeedV>, b: Seq<FeedV>)
    ensures
        (a + b).to_multiset() == a.to_multiset().add(b.to_multiset()),
    decreases a,
{
    broadcast use vstd::multiset::group_multiset_axioms;

    if a.len() == 0 {
        assert(a + b =~= b);
        vstd::seq_lib::to_multiset_len(a);
        assert(a.to_multiset() =~= Multiset::<FeedV>::empty());
        assert((a + b).to_multiset() =~= a.to_multiset().add(b.to_multiset()));
    } else {
        lemma_feed_seq_ms_concat(a.skip(1), b);
        assert(a =~= seq![a[0]] + a.skip(1));
        assert(a + b =~= seq![a[0]] + (a.skip(1) + b));
        lemma_feed_ms_cons(a[0], a.skip(1) + b);
        lemma_feed_ms_cons(a[0], a.skip(1));
        assert((a + b).to_multiset() =~= a.to_multiset().add(b.to_multiset()));
    }
}

proof fn lemma_feed_ms_cons(x: FeedV, t: Seq<FeedV>)
    ensures
        (seq![x] + t).to_multiset() == t.to_multiset().insert(x),
{
    broadcast use vstd::multiset::group_multiset_axioms;

    vstd::seq_lib::lemma_seq_union_to_multiset_commutative(seq![x], t);
    assert(t + seq![x] =~= t.push(x));
    vstd::seq_lib::to_multiset_build(t, x);
}

proof fn lemma_forest_ms_cons(x: NodeV, t: Seq<NodeV>)
    ensures
        forest_feeds_ms(seq![x] + t) == node_feeds_ms(x).add(forest_feeds_ms(t)),
{
    assert((seq![x] + t)[0] == x);
    assert((seq![x] + t).skip(1) =~= t);
}

/// A fresh chain carries exactly the attached feeds.
proof fn lemma_chain_feeds_ms(comps: Seq<Seq<char>>, depth: int, full: Seq<char>, fs: Seq<FeedV>)
    requires
        0 <= depth < comps.len(),
    ensures
        node_feeds_ms(node_chain(comps, depth, full, fs)) == fs.to_multiset(),
    decreases comps.len() - depth,
{
    broadcast use vstd::multiset::group_multiset_axioms;

    let c = node_chain(comps, depth, full, fs);
    if depth == comps.len() - 1 {
        assert(forest_feeds_ms(c.children) =~= Multiset::<FeedV>::empty());
        assert(node_feeds_ms(c) =~= fs.to_multiset());
    } else {
        lemma_chain_feeds_ms(comps, depth + 1, full, fs);
        lemma_forest_ms_cons(node_chain(comps, depth + 1, full, fs), Seq::empty());
        assert(c.children =~= seq![node_chain(comps, depth + 1, full, fs)] + Seq::<NodeV>::empty());
        vstd::seq_lib::to_multiset_len(c.feeds);
        assert(c.feeds.to_multiset() =~= Multiset::<FeedV>::empty());
        assert(forest_feeds_ms(Seq::<NodeV>::empty()) =~= Multiset::<FeedV>::empty());
        assert(node_feeds_ms(c) =~= fs.to_multiset());
    }
}

/// A fresh chain places its feeds at the terminal node's path.
proof fn lemma_chain_feeds_placed(
    comps: Seq<Seq<char>>,
    depth: int,
    full: Seq<char>,
    fs: Seq<FeedV>,
)
    requires
        0 <= depth < comps.len(),
        full == join_segs(comps),
        forall|k: int| 0 <= k < fs.len() ==> (#[trigger] fs[k]).group_title == full,
    ensures
        node_feeds_placed(node_chain(comps, depth, full, fs)),
    decreases comps.len() - depth,
{
    let c = node_chain(comps, depth, full, fs);
    if depth == comps.len() - 1 {
        assert(forest_feeds_placed(c.children));
    } else {
        lemma_chain_feeds_placed(comps, depth + 1, full, fs);
        assert(c.children == seq![node_chain(comps, depth + 1, full, fs)]);
        assert(forest_feeds_placed(c.children)) by {
            assert(c.children[0] == node_chain(comps, depth + 1, full, fs));
        }
    }
}

/// Insertion adds exactly the attached feeds to the forest's multiset.
pub proof fn lemma_insert_forest_feeds_ms(
    ns: Seq<NodeV>,
    comps: Seq<Seq<char>>,
    depth: int,
    full: Seq<char>,
    fs: Seq<FeedV>,
)
    requires
        0 <= depth < comps.len(),
    ensures
        forest_feeds_ms(insert_forest(ns, comps, depth, full, fs)) == forest_feeds_ms(ns).add(
            fs.to_multiset(),
        ),
    decreases ns,
{
    broadcast use vstd::multiset::group_multiset_axioms;

    let r = insert_forest(ns, comps, depth, full, fs);
    if ns.len() == 0 {
        lemma_chain_feeds_ms(comps, depth, full, fs);
        lemma_forest_ms_cons(node_chain(comps, depth, full, fs), Seq::empty());
        assert(r =~= seq![node_chain(comps, depth, full, fs)] + Seq::<NodeV>::empty());
        assert(forest_feeds_ms(Seq::<NodeV>::empty()) =~= Multiset::<FeedV>::empty());
        assert(forest_feeds_ms(r) =~= forest_feeds_ms(ns).add(fs.to_multiset()));
    } else if ns[0].title == comps[depth] {
        if depth == comps.len() - 1 {
            let h = NodeV {
                title: ns[0].title,
                full_path: ns[0].full_path,
                unread_count: ns[0].unread_count,
                feeds: ns[0].feeds + fs,
                children: ns[0].children,
            };
            lemma_feed_seq_ms_concat(ns[0].feeds, fs);
            lemma_forest_ms_cons(h, ns.skip(1));
            lemma_forest_ms_cons(ns[0], ns.skip(1));
            assert(ns =~= seq![ns[0]] + ns.skip(1));
            assert(forest_feeds_ms(r) =~= forest_feeds_ms(ns).add(fs.to_multiset()));
        } else {
            lemma_insert_forest_feeds_ms(ns[0].children, comps, depth + 1, full, fs);
            let h = NodeV {
                title: ns[0].title,
                full_path: ns[0].full_path,
                unread_count: ns[0].unread_count,
                feeds: ns[0].feeds,
                children: insert_forest(ns[0].children, comps, depth + 1, full, fs),
            };
            lemma_forest_ms_cons(h, ns.skip(1));
            lemma_forest_ms_cons(ns[0], ns.skip(1));
            assert(ns =~= seq![ns[0]] + ns.skip(1));
            assert(forest_feeds_ms(r) =~= forest_feeds_ms(ns).add(fs.to_multiset()));
        }
    } else {
        lemma_insert_forest_feeds_ms(ns.skip(1), comps, depth, full, fs);
        lemma_forest_ms_cons(ns[0], insert_forest(ns.skip(1), comps, depth, full, fs));
        lemma_forest_ms_cons(ns[0], ns.skip(1));
        assert(ns =~= seq![ns[0]] + ns.skip(1));
        assert(forest_feeds_ms(r) =~= forest_feeds_ms(ns).add(fs.to_multiset()));
    }
}

/// Insertion keeps every feed placed at its node's canonical path, when the
/// attached feeds carry the inserted path as their group path.
pub proof fn lemma_insert_forest_feeds_placed(
    ns: Seq<NodeV>,
    comps: Seq<Seq<char>>,
    depth: int,
    full: Seq<char>,
    fs: Seq<FeedV>,
)
    requires
        0 <= depth < comps.len(),
        full == join_segs(comps),
        forest_paths_wf(ns, comps.take(depth)),
        forest_feeds_placed(ns),
        forall|k: int| 0 <= k < fs.len() ==> (#[trigger] fs[k]).group_title == full,
    ensures
        forest_feeds_placed(insert_forest(ns, comps, depth, full, fs)),
    decreases ns,
{
    let r = insert_forest(ns, comps, depth, full, fs);
    let prefix = comps.take(depth);
    if ns.len() == 0 {
        lemma_chain_feeds_placed(comps, depth, full, fs);
        assert(r =~= seq![node_chain(comps, depth, full, fs)]);
        assert forall|i: int| 0 <= i < r.len() implies node_feeds_placed(#[trigger] r[i]) by {
            assert(r[0] == node_chain(comps, depth, full, fs));
        }
    } else if ns[0].title == comps[depth] {
        if depth == comps.len() - 1 {
            // The reused terminal node's stored path is the inserted path.
            assert(ns[0].full_path == join_segs(prefix.push(ns[0].title)));
            assert(prefix.push(ns[0].title) =~= comps.take(depth + 1));
            assert(comps.take(depth + 1) =~= comps);
            assert forall|i: int| 0 <= i < r.len() implies node_feeds_placed(
                #[trigger] r[i],
            ) by {
                if i == 0 {
                    assert(node_feeds_placed(ns[0]));
                    assert forall|k: int| 0 <= k < r[0].feeds.len() implies (
                    #[trigger] r[0].feeds[k]).group_title == r[0].full_path by {
                        if k < ns[0].feeds.len() {
                            assert(r[0].feeds[k] == ns[0].feeds[k]);
                        } else {
                            assert(r[0].feeds[k] == fs[k - ns[0].feeds.len()]);
                        }
                    }
                    assert(r[0].children == ns[0].children);
                } else {
                    assert(r[i] == ns.skip(1)[i - 1]);
                    assert(ns.skip(1)[i - 1] == ns[i]);
                    assert(node_feeds_placed(ns[i]));
                }
            }
        } else {
            assert(node_feeds_placed(ns[0]));
            assert(forest_paths_wf(ns[0].children, prefix.push(ns[0].title)));
            assert(prefix.push(ns[0].title) =~= comps.take(depth + 1));
            lemma_insert_forest_feeds_placed(ns[0].children, comps, depth + 1, full, fs);
            assert forall|i: int| 0 <= i < r.len() implies node_feeds_placed(
                #[trigger] r[i],
            ) by {
                if i == 0 {
                } else {
                    assert(r[i] == ns.skip(1)[i - 1]);
                    assert(ns.skip(1)[i - 1] == ns[i]);
                    assert(node_feeds_placed(ns[i]));
                }
            }
        }
    } else {
        assert(forest_paths_wf(ns.skip(1), prefix)) by {
            assert forall|i: int| 0 <= i < ns.skip(1).len() implies {
                &&& (#[trigger] ns.skip(1)[i]).full_path == join_segs(
                    prefix.push(ns.skip(1)[i].title),
                )
                &&& forest_paths_wf(ns.skip(1)[i].children, prefix.push(ns.skip(1)[i].title))
            } by {
                assert(ns.skip(1)[i] == ns[i + 1]);
            }
        }
        assert(forest_feeds_placed(ns.skip(1))) by {
            assert forall|i: int| 0 <= i < ns.skip(1).len() implies node_feeds_placed(
                #[trigger] ns.skip(1)[i],
            ) by {
                assert(ns.skip(1)[i] == ns[i + 1]);
            }
        }
        lemma_insert_forest_feeds_placed(ns.skip(1), comps, depth, full, fs);
        let t = insert_forest(ns.skip(1), comps, depth, full, fs);
        assert forall|i: int| 0 <= i < r.len() implies node_feeds_placed(#[trigger] r[i]) by {
            if i == 0 {
                assert(r[0] == ns[0]);
                assert(node_feeds_placed(ns[0]));
            } else {
                assert(r[i] == t[i - 1]);
                assert(node_feeds_placed(t[i - 1]));
            }
        }
    }
}

/// Recomputing counts keeps the attached feeds and their placement.
pub proof fn lemma_with_counts_feeds(ns: Seq<NodeV>)
    ensures
        forest_feeds_ms(with_counts_list(ns)) == forest_feeds_ms(ns),
        forest_feeds_placed(ns) ==> forest_feeds_placed(with_counts_list(ns)),
    decreases ns, 1int,
{
    broadcast use vstd::multiset::group_multiset_axioms;

    if ns.len() > 0 {
        lemma_with_counts_node_feeds(ns[0]);
        lemma_with_counts_feeds(ns.skip(1));
        lemma_forest_ms_cons(with_counts_node(ns[0]), with_counts_list(ns.skip(1)));
        lemma_forest_ms_cons(ns[0], ns.skip(1));
        assert(ns =~= seq![ns[0]] + ns.skip(1));
        assert(forest_feeds_ms(with_counts_list(ns)) =~= forest_feeds_ms(ns));
        if forest_feeds_placed(ns) {
            assert(node_feeds_placed(ns[0]));
            assert(forest_feeds_placed(ns.skip(1))) by {
                assert forall|i: int| 0 <= i < ns.skip(1).len() implies node_feeds_placed(
                    #[trigger] ns.skip(1)[i],
                ) by {
                    assert(ns.skip(1)[i] == ns[i + 1]);
                }
            }
            let r = with_counts_list(ns);
            lemma_with_counts_len(ns);
            assert forall|i: int| 0 <= i < r.len() implies node_feeds_placed(
                #[trigger] r[i],
            ) by {
                lemma_with_counts_index(ns, i);
                if i == 0 {
                } else {
                    assert(with_counts_list(ns.skip(1))[i - 1] == with_counts_node(ns[i])) by {
                        lemma_with_counts_index(ns.skip(1), i - 1);
                        assert(ns.skip(1)[i - 1] == ns[i]);
                    }
                }
            }
        }
    }
}

pub proof fn lemma_with_counts_node_feeds(n: NodeV)
    ensures
        node_feeds_ms(with_counts_node(n)) == node_feeds_ms(n),
        node_feeds_placed(n) ==> node_feeds_placed(with_counts_node(n)),
    decreases n, 0int,
{
    lemma_with_counts_feeds(n.children);
}


/// A canonical path gathered from the inputs: a non-empty group path of
/// one of the feeds, or one of the empty-group paths.
pub open spec fn input_path(fs: Seq<FeedV>, es: Seq<String>, p: Seq<char>) -> bool {
    ||| (exists|i: int| 0 <= i < fs.len() && (#[trigger] fs[i]).group_title == p && p.len() > 0)
    ||| (exists|i: int| 0 <= i < es.len() && (#[trigger] es[i])@ == p)
}

/// `a` is a segment-prefix of `b`.
pub open spec fn seg_prefix(a: Seq<Seq<char>>, b: Seq<Seq<char>>) -> bool {
    a.len() <= b.len() && a == b.take(a.len() as int)
}

/// The segment path is a prefix of one of the allowed paths.
pub open spec fn covered(paths: Seq<Seq<Seq<char>>>, segs: Seq<Seq<char>>) -> bool {
    exists|i: int| 0 <= i < paths.len() && seg_prefix(segs, #[trigger] paths[i])
}

/// Every node's segment path is a prefix of an allowed path: the tree holds
/// no nodes beyond the gathered paths.
pub open spec fn forest_within(
    ns: Seq<NodeV>,
    paths: Seq<Seq<Seq<char>>>,
    prefix: Seq<Seq<char>>,
) -> bool
    decreases ns,
{
    forall|i: int| 0 <= i < ns.len() ==> {
        &&& covered(paths, prefix.push((#[trigger] ns[i]).title))
        &&& forest_within(ns[i].children, paths, prefix.push(ns[i].title))
    }
}

/// The fresh chain for an allowed path stays within the allowed paths.
proof fn lemma_chain_within(
    comps: Seq<Seq<char>>,
    depth: int,
    full: Seq<char>,
    fs: Seq<FeedV>,
    paths: Seq<Seq<Seq<char>>>,
    w: int,
)
    requires
        0 <= depth < comps.len(),
        0 <= w < paths.len(),
        paths[w] == comps,
    ensures
        forest_within(seq![node_chain(comps, depth, full, fs)], paths, comps.take(depth)),
    decreases comps.len() - depth,
{
    let c = node_chain(comps, depth, full, fs);
    assert(comps.take(depth).push(comps[depth]) =~= comps.take(depth + 1));
    assert(seg_prefix(comps.take(depth + 1), comps)) by {
        assert(comps.take(depth + 1) =~= comps.take(comps.take(depth + 1).len() as int));
    }
    assert(covered(paths, comps.take(depth + 1)));
    if depth == comps.len() - 1 {
        assert(forest_within(c.children, paths, comps.take(depth + 1)));
    } else {
        lemma_chain_within(comps, depth + 1, full, fs, paths, w);
        assert(c.children == seq![node_chain(comps, depth + 1, full, fs)]);
    }
    assert(seq![c][0] == c);
}

/// Insertion of an allowed path keeps the tree within the allowed paths.
pub proof fn lemma_insert_forest_within(
    ns: Seq<NodeV>,
    comps: Seq<Seq<char>>,
    depth: int,
    full: Seq<char>,
    fs: Seq<FeedV>,
    paths: Seq<Seq<Seq<char>>>,
    w: int,
)
    requires
        forest_within(ns, paths, comps.take(depth)),
        0 <= depth < comps.len(),
        0 <= w < paths.len(),
        paths[w] == comps,
    ensures
        forest_within(insert_forest(ns, comps, depth, full, fs), paths, comps.take(depth)),
    decreases ns,
{
    let r = insert_forest(ns, comps, depth, full, fs);
    let prefix = comps.take(depth);
    if ns.len() == 0 {
        lemma_chain_within(comps, depth, full, fs, paths, w);
        assert(r =~= seq![node_chain(comps, depth, full, fs)]);
    } else if ns[0].title == comps[depth] {
        assert(prefix.push(ns[0].title) =~= comps.take(depth + 1));
        if depth == comps.len() - 1 {
            assert forall|i: int| 0 <= i < r.len() implies {
                &&& covered(paths, prefix.push((#[trigger] r[i]).title))
                &&& forest_within(r[i].children, paths, prefix.push(r[i].title))
            } by {
                if i == 0 {
                    assert(r[0].title == ns[0].title);
                    assert(r[0].children == ns[0].children);
                    assert(covered(paths, prefix.push(ns[0].title)));
                    assert(forest_within(ns[0].children, paths, prefix.push(ns[0].title)));
                } else {
                    assert(r[i] == ns.skip(1)[i - 1]);
                    assert(ns.skip(1)[i - 1] == ns[i]);
                    assert(covered(paths, prefix.push(ns[i].title)));
                    assert(forest_within(ns[i].children, paths, prefix.push(ns[i].title)));
                }
            }
        } else {
            assert(forest_within(ns[0].children, paths, comps.take(depth + 1)));
            lemma_insert_forest_within(ns[0].children, comps, depth + 1, full, fs, paths, w);
            assert forall|i: int| 0 <= i < r.len() implies {
                &&& covered(paths, prefix.push((#[trigger] r[i]).title))
                &&& forest_within(r[i].children, paths, prefix.push(r[i].title))
            } by {
                if i == 0 {
                    assert(r[0].title == ns[0].title);
                    assert(prefix.push(r[0].title) =~= comps.take(depth + 1));
                    assert(covered(paths, prefix.push(ns[0].title)));
                } else {
                    assert(r[i] == ns.skip(1)[i - 1]);
                    assert(ns.skip(1)[i - 1] == ns[i]);
                    assert(covered(paths, prefix.push(ns[i].title)));
                    assert(forest_within(ns[i].children, paths, prefix.push(ns[i].title)));
                }
            }
        }
    } else {
        assert(forest_within(ns.skip(1), paths, prefix)) by {
            assert forall|i: int| 0 <= i < ns.skip(1).len() implies {
                &&& covered(paths, prefix.push((#[trigger] ns.skip(1)[i]).title))
                &&& forest_within(ns.skip(1)[i].children, paths, prefix.push(ns.skip(1)[i].title))
            } by {
                assert(ns.skip(1)[i] == ns[i + 1]);
            }
        }
        lemma_insert_forest_within(ns.skip(1), comps, depth, full, fs, paths, w);
        let t = insert_forest(ns.skip(1), comps, depth, full, fs);
        assert forall|i: int| 0 <= i < r.len() implies {
            &&& covered(paths, prefix.push((#[trigger] r[i]).title))
            &&& forest_within(r[i].children, paths, prefix.push(r[i].title))
        } by {
            if i == 0 {
                assert(r[0] == ns[0]);
                assert(covered(paths, prefix.push(ns[0].title)));
                assert(forest_within(ns[0].children, paths, prefix.push(ns[0].title)));
            } else {
                assert(r[i] == t[i - 1]);
            }
        }
    }
}

/// Recomputing counts keeps the tree within the allowed paths.
pub proof fn lemma_with_counts_within(
    ns: Seq<NodeV>,
    paths: Seq<Seq<Seq<char>>>,
    prefix: Seq<Seq<char>>,
)
    requires
        forest_within(ns, paths, prefix),
    ensures
        forest_within(with_counts_list(ns), paths, prefix),
    decreases ns,
{
    let r = with_counts_list(ns);
    lemma_with_counts_len(ns);
    assert forall|i: int| 0 <= i < r.len() implies {
        &&& covered(paths, prefix.push((#[trigger] r[i]).title))
        &&& forest_within(r[i].children, paths, prefix.push(r[i].title))
    } by {
        lemma_with_counts_index(ns, i);
        assert(covered(paths, prefix.push(ns[i].title)));
        assert(forest_within(ns[i].children, paths, prefix.push(ns[i].title)));
        lemma_with_counts_within(ns[i].children, paths, prefix.push(ns[i].title));
    }
}

/// No two sibling nodes carry the same title, at any depth: two paths that
/// share a prefix converge on the same node.
pub open spec fn siblings_distinct(ns: Seq<NodeV>) -> bool {
    forall|i: int, j: int| 0 <= i < j < ns.len() ==> ns[i].title != ns[j].title
}

pub open spec fn forest_nodup(ns: Seq<NodeV>) -> bool
    decreases ns,
{
    &&& siblings_distinct(ns)
    &&& forall|i: int| 0 <= i < ns.len() ==> forest_nodup((#[trigger] ns[i]).children)
}

/// Every node's stored full path is the canonical encoding of the segment
/// path leading to it.
pub open spec fn forest_paths_wf(ns: Seq<NodeV>, prefix: Seq<Seq<char>>) -> bool
    decreases ns,
{
    forall|i: int| 0 <= i < ns.len() ==> {
        &&& (#[trigger] ns[i]).full_path == join_segs(prefix.push(ns[i].title))
        &&& forest_paths_wf(ns[i].children, prefix.push(ns[i].title))
    }
}

/// There is a node reachable by the segment path `segs`.
pub open spec fn forest_has(ns: Seq<NodeV>, segs: Seq<Seq<char>>) -> bool
    decreases segs.len(),
{
    segs.len() == 0 || exists|i: int|
        0 <= i < ns.len() && (#[trigger] ns[i]).title == segs[0] && forest_has(
            ns[i].children,
            segs.skip(1),
        )
}

/// The chain of fresh nodes created when a path suffix has no existing nodes:
/// intermediate nodes carry no feeds; the terminal node carries `fs` and the
/// full canonical path `full`.
pub open spec fn node_chain(comps: Seq<Seq<char>>, depth: int, full: Seq<char>, fs: Seq<FeedV>) -> NodeV
    decreases comps.len() - depth,
{
    if !(0 <= depth < comps.len()) {
        NodeV {
            title: Seq::empty(),
            full_path: Seq::empty(),
            unread_count: 0,
            feeds: Seq::empty(),
            children: Seq::empty(),
        }
    } else if depth == comps.len() - 1 {
        NodeV { title: comps[depth], full_path: full, unread_count: 0, feeds: fs, children: Seq::empty() }
    } else {
        NodeV {
            title: comps[depth],
            full_path: join_segs(comps.take(depth + 1)),
            unread_count: 0,
            feeds: Seq::empty(),
            children: seq![node_chain(comps, depth + 1, full, fs)],
        }
    }
}

/// Insert a path into the forest: walk or create a node for each segment and
/// attach the feeds at the terminal segment only.  An existing node for a
/// segment is reused, never duplicated.
pub open spec fn insert_forest(
    ns: Seq<NodeV>,
    comps: Seq<Seq<char>>,
    depth: int,
    full: Seq<char>,
    fs: Seq<FeedV>,
) -> Seq<NodeV>
    decreases ns,
{
    if !(0 <= depth < comps.len()) {
        ns
    } else if ns.len() == 0 {
        seq![node_chain(comps, depth, full, fs)]
    } else if ns[0].title == comps[depth] {
        if depth == comps.len() - 1 {
            seq![
                NodeV {
                    title: ns[0].title,
                    full_path: ns[0].full_path,
                    unread_count: ns[0].unread_count,
                    feeds: ns[0].feeds + fs,
                    children: ns[0].children,
                },
            ] + ns.skip(1)
        } else {
            seq![
                NodeV {
                    title: ns[0].title,
                    full_path: ns[0].full_path,
                    unread_count: ns[0].unread_count,
                    feeds: ns[0].feeds,
                    children: insert_forest(ns[0].children, comps, depth + 1, full, fs),
                },
            ] + ns.skip(1)
        }
    } else {
        seq![ns[0]] + insert_forest(ns.skip(1), comps, depth, full, fs)
    }
}

/// The feeds of `fs` whose group path is `p`, in their own order.
pub open spec fn feeds_at(fs: Seq<FeedV>, p: Seq<char>) -> Seq<FeedV>
    decreases fs.len(),
{
    if fs.len() == 0 {
        Seq::empty()
    } else {
        (if fs[0].group_title == p {
            seq![fs[0]]
        } else {
            Seq::<FeedV>::empty()
        }) + feeds_at(fs.skip(1), p)
    }
}

/// The feeds of `fs` whose group path is not `p`, in their own order.
pub open spec fn feeds_not_at(fs: Seq<FeedV>, p: Seq<char>) -> Seq<FeedV>
    decreases fs.len(),
{
    if fs.len() == 0 {
        Seq::empty()
    } else {
        (if fs[0].group_title != p {
            seq![fs[0]]
        } else {
            Seq::<FeedV>::empty()
        }) + feeds_not_at(fs.skip(1), p)
    }
}

proof fn lemma_feeds_at_take(fs: Seq<FeedV>, p: Seq<char>, i: int)
    requires
        0 <= i < fs.len(),
    ensures
        feeds_at(fs.take(i + 1), p) == feeds_at(fs.take(i), p) + (if fs[i].group_title == p {
            seq![fs[i]]
        } else {
            Seq::<FeedV>::empty()
        }),
        feeds_not_at(fs.take(i + 1), p) == feeds_not_at(fs.take(i), p) + (
        if fs[i].group_title != p {
            seq![fs[i]]
        } else {
            Seq::<FeedV>::empty()
        }),
    decreases i,
{
    if i == 0 {
        assert(fs.take(1) =~= seq![fs[0]]);
        assert(fs.take(1).skip(1) =~= Seq::<FeedV>::empty());
        assert(fs.take(0) =~= Seq::<FeedV>::empty());
        assert(feeds_at(fs.take(1), p) =~= feeds_at(fs.take(0), p) + (if fs[0].group_title == p {
            seq![fs[0]]
        } else {
            Seq::<FeedV>::empty()
        }));
        assert(feeds_not_at(fs.take(1), p) =~= feeds_not_at(fs.take(0), p) + (
        if fs[0].group_title != p {
            seq![fs[0]]
        } else {
            Seq::<FeedV>::empty()
        }));
    } else {
        lemma_feeds_at_take(fs.skip(1), p, i - 1);
        assert(fs.take(i + 1)[0] == fs[0]);
        assert(fs.take(i)[0] == fs[0]);
        assert(fs.take(i + 1).skip(1) =~= fs.skip(1).take(i));
        assert(fs.take(i).skip(1) =~= fs.skip(1).take(i - 1));
        assert(fs.skip(1)[i - 1] == fs[i]);
        assert(feeds_at(fs.take(i + 1), p) =~= feeds_at(fs.take(i), p) + (
        if fs[i].group_title == p {
            seq![fs[i]]
        } else {
            Seq::<FeedV>::empty()
        }));
        assert(feeds_not_at(fs.take(i + 1), p) =~= feeds_not_at(fs.take(i), p) + (
        if fs[i].group_title != p {
            seq![fs[i]]
        } else {
            Seq::<FeedV>::empty()
        }));
    }
}

/// The canonical construction of the group forest: each path of `ps` is
/// inserted in turn, taking with it the feeds of `fs` that live at it, in
/// their own order.  Stating the built tree as this fold pins the sibling
/// order of the groups — the order of the paths in `ps` — along with the
/// feeds and position of every node.
pub open spec fn built_forest(acc: Seq<NodeV>, ps: Seq<Seq<char>>, fs: Seq<FeedV>) -> Seq<NodeV>
    decreases ps.len(),
{
    if ps.len() == 0 {
        acc
    } else {
        built_forest(
            insert_forest(acc, split_segs(ps[0]), 0, ps[0], feeds_at(fs, ps[0])),
            ps.skip(1),
            feeds_not_at(fs, ps[0]),
        )
    }
}

/// Build the chain of fresh nodes for `comps[depth..]`.
fn node_chain_exec(comps: &Vec<String>, depth: usize, full_path: &String, feeds: Vec<Feed>) -> (r: GroupNode)
    requires
        depth < comps.len(),
    ensures
        node_v(r) == node_chain(comps.deep_view(), depth as int, full_path@, feeds_v(feeds@)),
    decreases comps.len() - depth,
{
    if depth + 1 == comps.len() {
        let r = GroupNode {
            title: comps[depth].clone(),
            full_path: full_path.clone(),
            unread_count: 0,
            feeds,
            children: Vec::new(),
        };
        proof {
            assert(nodes_v(r.children@) =~= Seq::<NodeV>::empty());
            assert(node_v(r) =~= node_chain(
                comps.deep_view(),
                depth as int,
                full_path@,
                feeds_v(r.feeds@),
            ));
        }
        r
    } else {
        let ghost fsv = feeds_v(feeds@);
        let partial = crate::paths::join_path_prefix(comps, depth + 1);
        let inner = node_chain_exec(comps, depth + 1, full_path, feeds);
        let ghost iv = node_v(inner);
        let mut children: Vec<GroupNode> = Vec::new();
        children.push(inner);
        proof {
            assert(nodes_v(children@.skip(1)) =~= Seq::<NodeV>::empty());
            assert(nodes_v(children@) =~= seq![iv]);
        }
        let r = GroupNode {
            title: comps[depth].clone(),
            full_path: partial,
            unread_count: 0,
            feeds: Vec::new(),
            children,
        };
        proof {
            assert(feeds_v(r.feeds@) =~= Seq::<FeedV>::empty());
            assert(node_v(r) =~= node_chain(
                comps.deep_view(),
                depth as int,
                full_path@,
                fsv,
            ));
        }
        r
    }
}

fn insert_forest_vec(
    nodes: Vec<GroupNode>,
    comps: &Vec<String>,
    depth: usize,
    full_path: &String,
    feeds: Vec<Feed>,
) -> (r: Vec<GroupNode>)
    requires
        depth < comps.len(),
    ensures
        nodes_v(r@) == insert_forest(
            nodes_v(nodes@),
            comps.deep_view(),
            depth as int,
            full_path@,
            feeds_v(feeds@),
        ),
    decreases nodes@,
{
    let ghost ns0 = nodes@;
    let ghost fsv = feeds_v(feeds@);
    let mut nodes = nodes;
    if nodes.len() == 0 {
        proof {
            assert(nodes_v(nodes@) =~= Seq::<NodeV>::empty());
        }
        let chain = node_chain_exec(comps, depth, full_path, feeds);
        let ghost cv = node_v(chain);
        nodes.push(chain);
        proof {
            assert(nodes_v(nodes@.skip(1)) =~= Seq::<NodeV>::empty());
            assert(nodes_v(nodes@) =~= seq![cv]);
        }
        return nodes;
    }
    let head = nodes.remove(0);
    proof {
        assert(nodes@ =~= ns0.skip(1));
        lemma_nodes_v_index(ns0, 0);
        lemma_nodes_v_skip(ns0, 1);
        lemma_nodes_v_len(ns0);
        assert(nodes_v(ns0) == seq![node_v(head)] + nodes_v(ns0.skip(1)));
    }
    if str_eq(head.title.as_str(), comps[depth].as_str()) {
        if depth + 1 == comps.len() {
            let mut head = head;
            let ghost hf0 = head.feeds@;
            let mut feeds = feeds;
            head.feeds.append(&mut feeds);
            proof {
                lemma_feeds_v_add(hf0, head.feeds@.skip(hf0.len() as int));
                assert(head.feeds@.take(hf0.len() as int) =~= hf0);
                assert(head.feeds@.skip(hf0.len() as int).map_values(|f: Feed| f@) =~= fsv);
                assert(head.feeds@ =~= head.feeds@.take(hf0.len() as int) + head.feeds@.skip(
                    hf0.len() as int,
                ));
                assert(feeds_v(head.feeds@) =~= feeds_v(hf0) + fsv);
            }
            let ghost hg = head;
            let mut out = nodes;
            let ghost outs = out@;
            out.insert(0, head);
            proof {
                lemma_nodes_v_insert_front(outs, hg);
            }
            out
        } else {
            let nc = insert_forest_vec(head.children, comps, depth + 1, full_path, feeds);
            let h = GroupNode {
                title: head.title,
                full_path: head.full_path,
                unread_count: head.unread_count,
                feeds: head.feeds,
                children: nc,
            };
            let ghost hg = h;
            let mut out = nodes;
            let ghost outs = out@;
            out.insert(0, h);
            proof {
                lemma_nodes_v_insert_front(outs, hg);
            }
            out
        }
    } else {
        let mut out = insert_forest_vec(nodes, comps, depth, full_path, feeds);
        let ghost outs = out@;
        let ghost hg = head;
        out.insert(0, head);
        proof {
            lemma_nodes_v_insert_front(outs, hg);
        }
        out
    }
}

/// `nodes_v` of a tail.
pub proof fn lemma_nodes_v_skip(s: Seq<GroupNode>, n: int)
    requires
        0 <= n <= s.len(),
    ensures
        nodes_v(s.skip(n)) == nodes_v(s).skip(n),
    decreases n,
{
    lemma_nodes_v_len(s);
    if n == 0 {
        assert(s.skip(0) =~= s);
        assert(nodes_v(s).skip(0) =~= nodes_v(s));
    } else {
        lemma_nodes_v_skip(s.skip(1), n - 1);
        assert(s.skip(1).skip(n - 1) =~= s.skip(n));
        lemma_nodes_v_len(s.skip(1));
        assert(nodes_v(s).skip(1).skip(n - 1) =~= nodes_v(s).skip(n));
    }
}

/// `nodes_v` after putting one node at the front.
pub proof fn lemma_nodes_v_insert_front(olds: Seq<GroupNode>, x: GroupNode)
    ensures
        nodes_v(olds.insert(0, x)) == seq![node_v(x)] + nodes_v(olds),
{
    let s = olds.insert(0, x);
    assert(s[0] == x);
    assert(s.skip(1) =~= olds);
    assert(nodes_v(s) == seq![node_v(x)] + nodes_v(olds));
}

/// `feeds_v` distributes over concatenation.
pub proof fn lemma_feeds_v_add(a: Seq<Feed>, b: Seq<Feed>)
    ensures
        feeds_v(a + b) == feeds_v(a) + feeds_v(b),
{
    assert(feeds_v(a + b) =~= feeds_v(a) + feeds_v(b));
}

/// `feeds_unread` distributes over concatenation.
pub proof fn lemma_feeds_unread_add(a: Seq<FeedV>, b: Seq<FeedV>)
    ensures
        feeds_unread(a + b) == feeds_unread(a) + feeds_unread(b),
    decreases a,
{
    if a.len() == 0 {
        assert(a + b =~= b);
    } else {
        lemma_feeds_unread_add(a.skip(1), b);
        assert((a + b)[0] == a[0]);
        assert((a + b).skip(1) =~= a.skip(1) + b);
    }
}

/// `forest_unread` of a forest with one node at the front.
pub proof fn lemma_forest_unread_cons(x: NodeV, t: Seq<NodeV>)
    ensures
        forest_unread(seq![x] + t) == node_unread(x) + forest_unread(t),
{
    assert((seq![x] + t)[0] == x);
    assert((seq![x] + t).skip(1) =~= t);
}

/// A fresh chain carries exactly the attached feeds.
pub proof fn lemma_chain_unread(comps: Seq<Seq<char>>, depth: int, full: Seq<char>, fs: Seq<FeedV>)
    requires
        0 <= depth < comps.len(),
    ensures
        node_unread(node_chain(comps, depth, full, fs)) == feeds_unread(fs),
    decreases comps.len() - depth,
{
    let c = node_chain(comps, depth, full, fs);
    if depth == comps.len() - 1 {
        assert(forest_unread(c.children) == 0);
    } else {
        lemma_chain_unread(comps, depth + 1, full, fs);
        lemma_forest_unread_cons(node_chain(comps, depth + 1, full, fs), Seq::empty());
        assert(c.children =~= seq![node_chain(comps, depth + 1, full, fs)] + Seq::<NodeV>::empty());
        assert(feeds_unread(c.feeds) == 0);
    }
}

/// Inserting a path adds exactly the attached feeds' unread counts.
pub proof fn lemma_insert_forest_unread(
    ns: Seq<NodeV>,
    comps: Seq<Seq<char>>,
    depth: int,
    full: Seq<char>,
    fs: Seq<FeedV>,
)
    requires
        0 <= depth < comps.len(),
    ensures
        forest_unread(insert_forest(ns, comps, depth, full, fs)) == forest_unread(ns)
            + feeds_unread(fs),
    decreases ns,
{
    let r = insert_forest(ns, comps, depth, full, fs);
    if ns.len() == 0 {
        lemma_chain_unread(comps, depth, full, fs);
        lemma_forest_unread_cons(node_chain(comps, depth, full, fs), Seq::empty());
        assert(r =~= seq![node_chain(comps, depth, full, fs)] + Seq::<NodeV>::empty());
    } else if ns[0].title == comps[depth] {
        if depth == comps.len() - 1 {
            let h = NodeV {
                title: ns[0].title,
                full_path: ns[0].full_path,
                unread_count: ns[0].unread_count,
                feeds: ns[0].feeds + fs,
                children: ns[0].children,
            };
            lemma_feeds_unread_add(ns[0].feeds, fs);
            lemma_forest_unread_cons(h, ns.skip(1));
            lemma_forest_unread_cons(ns[0], ns.skip(1));
            assert(ns =~= seq![ns[0]] + ns.skip(1));
        } else {
            lemma_insert_forest_unread(ns[0].children, comps, depth + 1, full, fs);
            let h = NodeV {
                title: ns[0].title,
                full_path: ns[0].full_path,
                unread_count: ns[0].unread_count,
                feeds: ns[0].feeds,
                children: insert_forest(ns[0].children, comps, depth + 1, full, fs),
            };
            lemma_forest_unread_cons(h, ns.skip(1));
            lemma_forest_unread_cons(ns[0], ns.skip(1));
            assert(ns =~= seq![ns[0]] + ns.skip(1));
        }
    } else {
        lemma_insert_forest_unread(ns.skip(1), comps, depth, full, fs);
        lemma_forest_unread_cons(ns[0], insert_forest(ns.skip(1), comps, depth, full, fs));
        lemma_forest_unread_cons(ns[0], ns.skip(1));
        assert(ns =~= seq![ns[0]] + ns.skip(1));
    }
}

/// A fresh chain contains the inserted path suffix.
pub proof fn lemma_chain_has(comps: Seq<Seq<char>>, depth: int, full: Seq<char>, fs: Seq<FeedV>)
    requires
        0 <= depth < comps.len(),
    ensures
        forest_has(seq![node_chain(comps, depth, full, fs)], comps.skip(depth)),
    decreases comps.len() - depth,
{
    let c = node_chain(comps, depth, full, fs);
    let segs = comps.skip(depth);
    assert(segs[0] == comps[depth]);
    if depth == comps.len() - 1 {
        assert(segs.skip(1).len() == 0);
        assert(forest_has(c.children, segs.skip(1)));
        assert(seq![c][0] == c);
    } else {
        lemma_chain_has(comps, depth + 1, full, fs);
        assert(segs.skip(1) =~= comps.skip(depth + 1));
        assert(c.children == seq![node_chain(comps, depth + 1, full, fs)]);
        assert(seq![c][0] == c);
    }
}

/// After the insertion the forest contains the inserted path.
pub proof fn lemma_insert_forest_has(
    ns: Seq<NodeV>,
    comps: Seq<Seq<char>>,
    depth: int,
    full: Seq<char>,
    fs: Seq<FeedV>,
)
    requires
        0 <= depth < comps.len(),
    ensures
        forest_has(insert_forest(ns, comps, depth, full, fs), comps.skip(depth)),
    decreases ns,
{
    let r = insert_forest(ns, comps, depth, full, fs);
    let segs = comps.skip(depth);
    assert(segs[0] == comps[depth]);
    if ns.len() == 0 {
        lemma_chain_has(comps, depth, full, fs);
        assert(r =~= seq![node_chain(comps, depth, full, fs)]);
    } else if ns[0].title == comps[depth] {
        if depth == comps.len() - 1 {
            assert(segs.skip(1).len() == 0);
            assert(r[0].title == comps[depth]);
            assert(forest_has(r[0].children, segs.skip(1)));
        } else {
            lemma_insert_forest_has(ns[0].children, comps, depth + 1, full, fs);
            assert(segs.skip(1) =~= comps.skip(depth + 1));
            assert(r[0].title == comps[depth]);
            assert(forest_has(r[0].children, segs.skip(1)));
        }
    } else {
        lemma_insert_forest_has(ns.skip(1), comps, depth, full, fs);
        let t = insert_forest(ns.skip(1), comps, depth, full, fs);
        let i = choose|i: int|
            0 <= i < t.len() && (#[trigger] t[i]).title == segs[0] && forest_has(
                t[i].children,
                segs.skip(1),
            );
        assert(r[i + 1] == t[i]);
    }
}

/// Insertion never loses a path that the forest already contains.
pub proof fn lemma_insert_forest_keeps(
    ns: Seq<NodeV>,
    comps: Seq<Seq<char>>,
    depth: int,
    full: Seq<char>,
    fs: Seq<FeedV>,
    segs: Seq<Seq<char>>,
)
    requires
        forest_has(ns, segs),
    ensures
        forest_has(insert_forest(ns, comps, depth, full, fs), segs),
    decreases ns, segs.len(),
{
    let r = insert_forest(ns, comps, depth, full, fs);
    if segs.len() == 0 {
    } else if !(0 <= depth < comps.len()) {
    } else {
        let w = choose|w: int|
            0 <= w < ns.len() && (#[trigger] ns[w]).title == segs[0] && forest_has(
                ns[w].children,
                segs.skip(1),
            );
        if ns[0].title == comps[depth] {
            if depth == comps.len() - 1 {
                if w == 0 {
                    assert(r[0].title == segs[0]);
                    assert(r[0].children == ns[0].children);
                    assert(forest_has(r[0].children, segs.skip(1)));
                } else {
                    assert(r[w] == ns.skip(1)[w - 1]);
                    assert(ns.skip(1)[w - 1] == ns[w]);
                    assert(forest_has(r[w].children, segs.skip(1)));
                }
            } else {
                if w == 0 {
                    lemma_insert_forest_keeps(
                        ns[0].children,
                        comps,
                        depth + 1,
                        full,
                        fs,
                        segs.skip(1),
                    );
                    assert(r[0].title == segs[0]);
                    assert(forest_has(r[0].children, segs.skip(1)));
                } else {
                    assert(r[w] == ns.skip(1)[w - 1]);
                    assert(ns.skip(1)[w - 1] == ns[w]);
                    assert(forest_has(r[w].children, segs.skip(1)));
                }
            }
        } else {
            if w == 0 {
                assert(r[0] == ns[0]);
                assert(forest_has(r[0].children, segs.skip(1)));
            } else {
                assert(ns.skip(1)[w - 1] == ns[w]);
                assert(forest_has(ns.skip(1), segs)) by {
                    assert((ns.skip(1))[w - 1].title == segs[0]);
                }
                lemma_insert_forest_keeps(ns.skip(1), comps, depth, full, fs, segs);
                let t = insert_forest(ns.skip(1), comps, depth, full, fs);
                let j = choose|j: int|
                    0 <= j < t.len() && (#[trigger] t[j]).title == segs[0] && forest_has(
                        t[j].children,
                        segs.skip(1),
                    );
                assert(r[j + 1] == t[j]);
            }
        }
    }
}

/// Insertion either reuses an existing node (titles unchanged) or appends
/// one new node, titled with the inserted segment, at the end — and appends
/// only when no sibling already carries that title.
pub proof fn lemma_insert_forest_shape(
    ns: Seq<NodeV>,
    comps: Seq<Seq<char>>,
    depth: int,
    full: Seq<char>,
    fs: Seq<FeedV>,
)
    requires
        0 <= depth < comps.len(),
    ensures
        ({
            let r = insert_forest(ns, comps, depth, full, fs);
            ||| (r.len() == ns.len() && (forall|k: int|
                0 <= k < ns.len() ==> (#[trigger] r[k]).title == ns[k].title))
            ||| (r.len() == ns.len() + 1 && (forall|k: int|
                0 <= k < ns.len() ==> (#[trigger] r[k]).title == ns[k].title) && r[ns.len()
                as int].title == comps[depth] && (forall|k: int|
                0 <= k < ns.len() ==> (#[trigger] ns[k]).title != comps[depth]))
        }),
    decreases ns,
{
    let r = insert_forest(ns, comps, depth, full, fs);
    if ns.len() == 0 {
        assert(r =~= seq![node_chain(comps, depth, full, fs)]);
        assert(r[0].title == comps[depth]);
    } else if ns[0].title == comps[depth] {
        assert forall|k: int| 0 <= k < ns.len() implies (#[trigger] r[k]).title
            == ns[k].title by {
            if k > 0 {
                assert(r[k] == ns.skip(1)[k - 1]);
                assert(ns.skip(1)[k - 1] == ns[k]);
            }
        }
    } else {
        lemma_insert_forest_shape(ns.skip(1), comps, depth, full, fs);
        let t = insert_forest(ns.skip(1), comps, depth, full, fs);
        if t.len() == ns.skip(1).len() && (forall|k: int|
            0 <= k < ns.skip(1).len() ==> (#[trigger] t[k]).title == ns.skip(1)[k].title) {
            assert forall|k: int| 0 <= k < ns.len() implies (#[trigger] r[k]).title
                == ns[k].title by {
                if k > 0 {
                    assert(r[k] == t[k - 1]);
                    assert(ns.skip(1)[k - 1] == ns[k]);
                }
            }
        } else {
            assert forall|k: int| 0 <= k < ns.len() implies (#[trigger] r[k]).title
                == ns[k].title by {
                if k > 0 {
                    assert(r[k] == t[k - 1]);
                    assert(ns.skip(1)[k - 1] == ns[k]);
                }
            }
            assert(r[ns.len() as int] == t[ns.len() - 1]);
            assert forall|k: int| 0 <= k < ns.len() implies (#[trigger] ns[k]).title
                != comps[depth] by {
                if k > 0 {
                    assert(ns.skip(1)[k - 1] == ns[k]);
                }
            }
        }
    }
}

/// A fresh chain has no duplicate siblings anywhere.
pub proof fn lemma_chain_nodup(comps: Seq<Seq<char>>, depth: int, full: Seq<char>, fs: Seq<FeedV>)
    requires
        0 <= depth < comps.len(),
    ensures
        forest_nodup(seq![node_chain(comps, depth, full, fs)]),
    decreases comps.len() - depth,
{
    let c = node_chain(comps, depth, full, fs);
    if depth == comps.len() - 1 {
        assert(forall|i: int| 0 <= i < c.children.len() ==> forest_nodup(
            (#[trigger] c.children[i]).children,
        ));
        assert(forest_nodup(c.children));
    } else {
        lemma_chain_nodup(comps, depth + 1, full, fs);
        assert(c.children == seq![node_chain(comps, depth + 1, full, fs)]);
    }
    assert(seq![c][0] == c);
}

/// Insertion preserves the no-duplicate-siblings invariant.
pub proof fn lemma_insert_forest_nodup(
    ns: Seq<NodeV>,
    comps: Seq<Seq<char>>,
    depth: int,
    full: Seq<char>,
    fs: Seq<FeedV>,
)
    requires
        forest_nodup(ns),
        0 <= depth < comps.len(),
    ensures
        forest_nodup(insert_forest(ns, comps, depth, full, fs)),
    decreases ns,
{
    let r = insert_forest(ns, comps, depth, full, fs);
    if ns.len() == 0 {
        lemma_chain_nodup(comps, depth, full, fs);
        assert(r =~= seq![node_chain(comps, depth, full, fs)]);
    } else if ns[0].title == comps[depth] {
        assert(forest_nodup(ns[0].children));
        if depth == comps.len() - 1 {
            assert forall|i: int| 0 <= i < r.len() implies forest_nodup(
                (#[trigger] r[i]).children,
            ) by {
                if i == 0 {
                    assert(r[0].children == ns[0].children);
                } else {
                    assert(r[i] == ns.skip(1)[i - 1]);
                    assert(ns.skip(1)[i - 1] == ns[i]);
                    assert(forest_nodup(ns[i].children));
                }
            }
            assert(siblings_distinct(r)) by {
                assert forall|i: int, j: int| 0 <= i < j < r.len() implies r[i].title
                    != r[j].title by {
                    if i > 0 {
                        assert(r[i] == ns.skip(1)[i - 1]);
                        assert(ns.skip(1)[i - 1] == ns[i]);
                    }
                    assert(r[j] == ns.skip(1)[j - 1]);
                    assert(ns.skip(1)[j - 1] == ns[j]);
                }
            }
        } else {
            lemma_insert_forest_nodup(ns[0].children, comps, depth + 1, full, fs);
            assert forall|i: int| 0 <= i < r.len() implies forest_nodup(
                (#[trigger] r[i]).children,
            ) by {
                if i > 0 {
                    assert(r[i] == ns.skip(1)[i - 1]);
                    assert(ns.skip(1)[i - 1] == ns[i]);
                    assert(forest_nodup(ns[i].children));
                }
            }
            assert(siblings_distinct(r)) by {
                assert forall|i: int, j: int| 0 <= i < j < r.len() implies r[i].title
                    != r[j].title by {
                    if i > 0 {
                        assert(r[i] == ns.skip(1)[i - 1]);
                        assert(ns.skip(1)[i - 1] == ns[i]);
                    }
                    assert(r[j] == ns.skip(1)[j - 1]);
                    assert(ns.skip(1)[j - 1] == ns[j]);
                }
            }
        }
    } else {
        assert(forest_nodup(ns.skip(1))) by {
            assert forall|i: int| 0 <= i < ns.skip(1).len() implies forest_nodup(
                (#[trigger] ns.skip(1)[i]).children,
            ) by {
                assert(ns.skip(1)[i] == ns[i + 1]);
                assert(forest_nodup(ns[i + 1].children));
            }
        }
        lemma_insert_forest_nodup(ns.skip(1), comps, depth, full, fs);
        lemma_insert_forest_shape(ns.skip(1), comps, depth, full, fs);
        let t = insert_forest(ns.skip(1), comps, depth, full, fs);
        assert forall|i: int| 0 <= i < r.len() implies forest_nodup(
            (#[trigger] r[i]).children,
        ) by {
            if i == 0 {
                assert(r[0] == ns[0]);
                assert(forest_nodup(ns[0].children));
            } else {
                assert(r[i] == t[i - 1]);
                assert(forest_nodup(t[i - 1].children));
            }
        }
        assert(siblings_distinct(r)) by {
            assert forall|i: int, j: int| 0 <= i < j < r.len() implies r[i].title
                != r[j].title by {
                if i == 0 {
                    // The head keeps its title; every node of the new tail
                    // either keeps a title from the old tail or carries the
                    // inserted segment, which differs from the head's title.
                    assert(r[j] == t[j - 1]);
                    if j - 1 < ns.skip(1).len() {
                        assert(t[j - 1].title == ns.skip(1)[j - 1].title);
                        assert(ns.skip(1)[j - 1] == ns[j]);
                    } else {
                        assert(t[j - 1].title == comps[depth]);
                    }
                } else {
                    assert(r[i] == t[i - 1]);
                    assert(r[j] == t[j - 1]);
                    assert(siblings_distinct(t));
                }
            }
        }
    }
}

/// A fresh chain stores canonical paths consistent with its position.
pub proof fn lemma_chain_paths_wf(
    comps: Seq<Seq<char>>,
    depth: int,
    full: Seq<char>,
    fs: Seq<FeedV>,
)
    requires
        0 <= depth < comps.len(),
        full == crate::paths::join_segs(comps),
    ensures
        forest_paths_wf(seq![node_chain(comps, depth, full, fs)], comps.take(depth)),
    decreases comps.len() - depth,
{
    let c = node_chain(comps, depth, full, fs);
    assert(comps.take(depth).push(comps[depth]) =~= comps.take(depth + 1));
    if depth == comps.len() - 1 {
        assert(comps.take(depth + 1) =~= comps);
        assert(c.full_path == join_segs(comps.take(depth).push(c.title)));
        assert(forest_paths_wf(c.children, comps.take(depth + 1)));
    } else {
        lemma_chain_paths_wf(comps, depth + 1, full, fs);
        assert(c.children == seq![node_chain(comps, depth + 1, full, fs)]);
        assert(forest_paths_wf(c.children, comps.take(depth + 1)));
    }
    assert(seq![c][0] == c);
}

/// Insertion preserves canonical stored paths.
pub proof fn lemma_insert_forest_paths_wf(
    ns: Seq<NodeV>,
    comps: Seq<Seq<char>>,
    depth: int,
    full: Seq<char>,
    fs: Seq<FeedV>,
)
    requires
        forest_paths_wf(ns, comps.take(depth)),
        0 <= depth < comps.len(),
        full == crate::paths::join_segs(comps),
    ensures
        forest_paths_wf(insert_forest(ns, comps, depth, full, fs), comps.take(depth)),
    decreases ns,
{
    let r = insert_forest(ns, comps, depth, full, fs);
    let prefix = comps.take(depth);
    if ns.len() == 0 {
        lemma_chain_paths_wf(comps, depth, full, fs);
        assert(r =~= seq![node_chain(comps, depth, full, fs)]);
    } else if ns[0].title == comps[depth] {
        assert(prefix.push(ns[0].title) =~= comps.take(depth + 1));
        if depth == comps.len() - 1 {
            assert forall|i: int| 0 <= i < r.len() implies {
                &&& (#[trigger] r[i]).full_path == join_segs(prefix.push(r[i].title))
                &&& forest_paths_wf(r[i].children, prefix.push(r[i].title))
            } by {
                if i == 0 {
                    assert(r[0].title == ns[0].title);
                    assert(r[0].children == ns[0].children);
                } else {
                    assert(r[i] == ns.skip(1)[i - 1]);
                    assert(ns.skip(1)[i - 1] == ns[i]);
                }
            }
        } else {
            assert(forest_paths_wf(ns[0].children, comps.take(depth + 1)));
            lemma_insert_forest_paths_wf(ns[0].children, comps, depth + 1, full, fs);
            assert forall|i: int| 0 <= i < r.len() implies {
                &&& (#[trigger] r[i]).full_path == join_segs(prefix.push(r[i].title))
                &&& forest_paths_wf(r[i].children, prefix.push(r[i].title))
            } by {
                if i == 0 {
                    assert(r[0].title == ns[0].title);
                    assert(prefix.push(r[0].title) =~= comps.take(depth + 1));
                } else {
                    assert(r[i] == ns.skip(1)[i - 1]);
                    assert(ns.skip(1)[i - 1] == ns[i]);
                }
            }
        }
    } else {
        assert(forest_paths_wf(ns.skip(1), prefix)) by {
            assert forall|i: int| 0 <= i < ns.skip(1).len() implies {
                &&& (#[trigger] ns.skip(1)[i]).full_path == join_segs(
                    prefix.push(ns.skip(1)[i].title),
                )
                &&& forest_paths_wf(ns.skip(1)[i].children, prefix.push(ns.skip(1)[i].title))
            } by {
                assert(ns.skip(1)[i] == ns[i + 1]);
            }
        }
        lemma_insert_forest_paths_wf(ns.skip(1), comps, depth, full, fs);
        let t = insert_forest(ns.skip(1), comps, depth, full, fs);
        assert forall|i: int| 0 <= i < r.len() implies {
            &&& (#[trigger] r[i]).full_path == join_segs(prefix.push(r[i].title))
            &&& forest_paths_wf(r[i].children, prefix.push(r[i].title))
        } by {
            if i == 0 {
                assert(r[0] == ns[0]);
            } else {
                assert(r[i] == t[i - 1]);
            }
        }
    }
}

pub proof fn lemma_with_counts_len(ns: Seq<NodeV>)
    ensures
        with_counts_list(ns).len() == ns.len(),
    decreases ns,
{
    if ns.len() > 0 {
        lemma_with_counts_len(ns.skip(1));
    }
}

pub proof fn lemma_with_counts_index(ns: Seq<NodeV>, i: int)
    requires
        0 <= i < ns.len(),
    ensures
        with_counts_list(ns)[i] == with_counts_node(ns[i]),
    decreases ns,
{
    lemma_with_counts_len(ns);
    if i > 0 {
        lemma_with_counts_index(ns.skip(1), i - 1);
        lemma_with_counts_len(ns.skip(1));
    }
}

/// Recomputing counts changes no unread sum.
pub proof fn lemma_with_counts_unread(ns: Seq<NodeV>)
    ensures
        forest_unread(with_counts_list(ns)) == forest_unread(ns),
        forall|i: int| 0 <= i < ns.len() ==> node_unread(with_counts_node(#[trigger] ns[i]))
            == node_unread(ns[i]),
    decreases ns, 1int,
{
    if ns.len() > 0 {
        lemma_with_counts_node_unread(ns[0]);
        lemma_with_counts_unread(ns.skip(1));
        lemma_forest_unread_cons(with_counts_node(ns[0]), with_counts_list(ns.skip(1)));
        assert forall|i: int| 0 <= i < ns.len() implies node_unread(
            with_counts_node(#[trigger] ns[i]),
        ) == node_unread(ns[i]) by {
            if i == 0 {
                lemma_with_counts_node_unread(ns[0]);
            } else {
                assert(ns.skip(1)[i - 1] == ns[i]);
            }
        }
    }
}

pub proof fn lemma_with_counts_node_unread(n: NodeV)
    ensures
        node_unread(with_counts_node(n)) == node_unread(n),
    decreases n, 0int,
{
    lemma_with_counts_unread(n.children);
}

/// After recomputation the stored counts are the subtree sums, provided the
/// sums fit the counter.
pub proof fn lemma_with_counts_ok(ns: Seq<NodeV>)
    requires
        forest_fits(ns),
    ensures
        forest_counts_ok(with_counts_list(ns)),
    decreases ns, 1int,
{
    if ns.len() > 0 {
        lemma_with_counts_node_ok(ns[0]);
        lemma_with_counts_ok(ns.skip(1));
        let r = with_counts_list(ns);
        assert(r[0] == with_counts_node(ns[0]));
        assert(r.skip(1) =~= with_counts_list(ns.skip(1)));
    }
}

pub proof fn lemma_with_counts_node_ok(n: NodeV)
    requires
        node_fits(n),
    ensures
        node_counts_ok(with_counts_node(n)),
    decreases n, 0int,
{
    lemma_node_unread_nonneg(n);
    lemma_with_counts_node_unread(n);
    lemma_with_counts_ok(n.children);
}

/// Recomputing counts keeps every reachable path.
pub proof fn lemma_with_counts_has(ns: Seq<NodeV>, segs: Seq<Seq<char>>)
    requires
        forest_has(ns, segs),
    ensures
        forest_has(with_counts_list(ns), segs),
    decreases segs.len(),
{
    if segs.len() > 0 {
        let w = choose|w: int|
            0 <= w < ns.len() && (#[trigger] ns[w]).title == segs[0] && forest_has(
                ns[w].children,
                segs.skip(1),
            );
        lemma_with_counts_has(ns[w].children, segs.skip(1));
        lemma_with_counts_len(ns);
        lemma_with_counts_index(ns, w);
        assert(with_counts_list(ns)[w].title == segs[0]);
        assert(with_counts_list(ns)[w].children == with_counts_list(ns[w].children));
    }
}

/// Recomputing counts keeps siblings distinct.
pub proof fn lemma_with_counts_nodup(ns: Seq<NodeV>)
    requires
        forest_nodup(ns),
    ensures
        forest_nodup(with_counts_list(ns)),
    decreases ns,
{
    let r = with_counts_list(ns);
    lemma_with_counts_len(ns);
    assert(siblings_distinct(r)) by {
        assert forall|i: int, j: int| 0 <= i < j < r.len() implies r[i].title != r[j].title by {
            lemma_with_counts_index(ns, i);
            lemma_with_counts_index(ns, j);
        }
    }
    assert forall|i: int| 0 <= i < r.len() implies forest_nodup((#[trigger] r[i]).children) by {
        lemma_with_counts_index(ns, i);
        assert(forest_nodup(ns[i].children));
        lemma_with_counts_nodup(ns[i].children);
    }
}

/// Recomputing counts keeps the stored paths.
pub proof fn lemma_with_counts_paths_wf(ns: Seq<NodeV>, prefix: Seq<Seq<char>>)
    requires
        forest_paths_wf(ns, prefix),
    ensures
        forest_paths_wf(with_counts_list(ns), prefix),
    decreases ns,
{
    let r = with_counts_list(ns);
    lemma_with_counts_len(ns);
    assert forall|i: int| 0 <= i < r.len() implies {
        &&& (#[trigger] r[i]).full_path == join_segs(prefix.push(r[i].title))
        &&& forest_paths_wf(r[i].children, prefix.push(r[i].title))
    } by {
        lemma_with_counts_index(ns, i);
        assert(forest_paths_wf(ns[i].children, prefix.push(ns[i].title)));
        lemma_with_counts_paths_wf(ns[i].children, prefix.push(ns[i].title));
    }
}

/// A forest whose total fits has every subtree sum fitting.
pub proof fn lemma_fits_from_total(ns: Seq<NodeV>)
    requires
        forest_unread(ns) <= u32::MAX,
    ensures
        forest_fits(ns),
    decreases ns, 1int,
{
    if ns.len() > 0 {
        lemma_node_unread_nonneg(ns[0]);
        lemma_unread_nonneg(ns.skip(1));
        lemma_node_fits_from_total(ns[0]);
        lemma_fits_from_total(ns.skip(1));
    }
}

pub proof fn lemma_node_fits_from_total(n: NodeV)
    requires
        node_unread(n) <= u32::MAX,
    ensures
        node_fits(n),
    decreases n, 0int,
{
    lemma_feeds_unread_nonneg(n.feeds);
    lemma_unread_nonneg(n.children);
    lemma_fits_from_total(n.children);
}

proof fn lemma_forest_fits_elem(ns: Seq<NodeV>, i: int)
    requires
        0 <= i < ns.len(),
        forest_fits(ns),
    ensures
        node_fits(ns[i]),
    decreases i,
{
    if i > 0 {
        lemma_forest_fits_elem(ns.skip(1), i - 1);
        assert(ns.skip(1)[i - 1] == ns[i]);
    }
}

/// `feeds_unread` of one more feed.
pub proof fn lemma_feeds_unread_push(s: Seq<FeedV>, x: FeedV)
    ensures
        feeds_unread(s.push(x)) == feeds_unread(s) + x.unread_count,
{
    assert(s.push(x) =~= s + seq![x]);
    lemma_feeds_unread_add(s, seq![x]);
    assert(seq![x].skip(1) =~= Seq::<FeedV>::empty());
    assert(seq![x][0] == x);
    assert(feeds_unread(seq![x]) == x.unread_count + feeds_unread(Seq::<FeedV>::empty()));
}

/// Is the path `p` among the gathered path strings?
pub open spec fn path_listed(ps: Seq<String>, p: Seq<char>) -> bool {
    exists|k: int| 0 <= k < ps.len() && (#[trigger] ps[k])@ == p
}

fn contains_path(paths: &Vec<String>, p: &str) -> (r: bool)
    ensures
        r == path_listed(paths@, p@),
{
    let mut i: usize = 0;
    while i < paths.len()
        invariant
            i <= paths@.len(),
            forall|k: int| 0 <= k < i ==> (#[trigger] paths@[k])@ != p@,
        decreases paths@.len() - i,
    {
        if str_eq(paths[i].as_str(), p) {
            return true;
        }
        i = i + 1;
    }
    false
}

/// A multiset-equal list of strings lists the same paths.
proof fn lemma_listed_via_multiset(a: Seq<String>, b: Seq<String>, p: Seq<char>)
    requires
        a.to_multiset() == b.to_multiset(),
        path_listed(a, p),
    ensures
        path_listed(b, p),
{
    let k = choose|k: int| 0 <= k < a.len() && (#[trigger] a[k])@ == p;
    let x = a[k];
    vstd::seq_lib::to_multiset_contains(a, x);
    vstd::seq_lib::to_multiset_contains(b, x);
    assert(a.contains(x));
    let m = choose|m: int| 0 <= m < b.len() && b[m] == x;
    assert((b[m])@ == p);
}

/// Recompute every root's stored counts, bottom-up.
pub fn update_counts_forest(nodes: &Vec<GroupNode>) -> (r: Vec<GroupNode>)
    requires
        forest_fits(nodes_v(nodes@)),
    ensures
        nodes_v(r@) == with_counts_list(nodes_v(nodes@)),
{
    let mut out: Vec<GroupNode> = Vec::new();
    let mut i: usize = 0;
    proof {
        lemma_nodes_v_len(nodes@);
        assert(nodes_v(out@) =~= Seq::<NodeV>::empty());
        assert(with_counts_list(nodes_v(nodes@).take(0)) =~= Seq::<NodeV>::empty());
    }
    while i < nodes.len()
        invariant
            i <= nodes@.len(),
            nodes_v(nodes@).len() == nodes@.len(),
            forest_fits(nodes_v(nodes@)),
            nodes_v(out@) == with_counts_list(nodes_v(nodes@).take(i as int)),
        decreases nodes@.len() - i,
    {
        proof {
            lemma_nodes_v_index(nodes@, i as int);
            lemma_forest_fits_elem(nodes_v(nodes@), i as int);
        }
        let c = update_counts_node(&nodes[i]);
        let ghost outs = out@;
        let ghost cg = c;
        out.push(c);
        proof {
            lemma_nodes_v_push(outs, cg);
            lemma_with_counts_list_take(nodes_v(nodes@), i as int);
        }
        i = i + 1;
    }
    proof {
        assert(nodes_v(nodes@).take(nodes@.len() as int) =~= nodes_v(nodes@));
    }
    out
}

/// Build the group tree from the flat feed records and the explicit
/// empty-group paths.
///
/// Feeds are grouped by their full group path; every gathered path — from a
/// feed or from the empty-group list — is split into segments and walked into
/// the tree, creating nodes as needed and attaching feeds only at the
/// terminal segment.  Paths are sorted before insertion so that the resulting
/// order does not depend on input order.  Afterwards every node's count is
/// the unread sum of its subtree.
///
/// The result has no two siblings with equal titles and stores the canonical
/// path of every node, so together with membership there is exactly one node
/// per gathered path.  Standalone feeds (empty group path) are excluded and
/// handled by the display flattener.
pub fn build_group_tree(feeds: &Vec<Feed>, empty_groups: &Vec<String>) -> (tree: Vec<GroupNode>)
    requires
        feeds_unread(feeds_v(feeds@)) <= u32::MAX,
    ensures
        forest_nodup(nodes_v(tree@)),
        forest_paths_wf(nodes_v(tree@), Seq::empty()),
        forest_counts_ok(nodes_v(tree@)),
        forall|i: int| 0 <= i < feeds@.len() && (#[trigger] feeds@[i])@.group_title.len() > 0
            ==> forest_has(nodes_v(tree@), split_segs(feeds@[i]@.group_title)),
        forall|i: int| 0 <= i < empty_groups@.len() ==> forest_has(
            nodes_v(tree@),
            split_segs((#[trigger] empty_groups@[i])@),
        ),
        forest_feeds_ms(nodes_v(tree@)) == grouped_of(feeds_v(feeds@)).to_multiset(),
        forest_feeds_placed(nodes_v(tree@)),
        exists|gps: Seq<Seq<Seq<char>>>|
            {
                &&& (forall|i: int| 0 <= i < gps.len() ==> (exists|p: Seq<char>|
                    input_path(feeds_v(feeds@), empty_groups@, p) && #[trigger] gps[i]
                        == split_segs(p)))
                &&& forest_within(nodes_v(tree@), gps, Seq::empty())
            },
        exists|sp: Seq<Seq<char>>|
            {
                &&& crate::paths::paths_sorted(sp)
                &&& sp.no_duplicates()
                &&& (forall|q: Seq<char>| sp.contains(q) <==> input_path(
                    feeds_v(feeds@),
                    empty_groups@,
                    q,
                ))
                &&& nodes_v(tree@) == with_counts_list(built_forest(
                    Seq::empty(),
                    sp,
                    grouped_of(feeds_v(feeds@)),
                ))
            },
{
    // Gather the distinct group paths, feeds first, then empty groups.
    let mut all_paths: Vec<String> = Vec::new();
    let mut i: usize = 0;
    while i < feeds.len()
        invariant
            i <= feeds@.len(),
            forall|j: int| 0 <= j < i && (#[trigger] feeds@[j])@.group_title.len() > 0
                ==> path_listed(all_paths@, feeds@[j]@.group_title),
            forall|k: int| 0 <= k < all_paths@.len() ==> input_path(
                feeds_v(feeds@),
                empty_groups@,
                (#[trigger] all_paths@[k])@,
            ),
            forall|a: int, b: int| 0 <= a < b < all_paths@.len() ==> (#[trigger] all_paths@[a])@
                != (#[trigger] all_paths@[b])@,
        decreases feeds@.len() - i,
    {
        if !feeds[i].group_title.as_str().is_empty() {
            if !contains_path(&all_paths, feeds[i].group_title.as_str()) {
                let ghost ap0 = all_paths@;
                let c = feeds[i].group_title.clone();
                let ghost cg = c;
                all_paths.push(c);
                proof {
                    assert(all_paths@[ap0.len() as int] == cg);
                    assert(input_path(feeds_v(feeds@), empty_groups@, cg@)) by {
                        assert(feeds_v(feeds@)[i as int] == feeds@[i as int]@);
                        assert((feeds_v(feeds@)[i as int]).group_title == cg@);
                    }
                    assert forall|a: int, b: int|
                        0 <= a < b < all_paths@.len() implies (#[trigger] all_paths@[a])@ != (
                    #[trigger] all_paths@[b])@ by {
                        if b < ap0.len() {
                            assert(all_paths@[a] == ap0[a]);
                            assert(all_paths@[b] == ap0[b]);
                        } else {
                            assert(all_paths@[a] == ap0[a]);
                            assert(all_paths@[b] == cg);
                            if ap0[a]@ == cg@ {
                                assert(path_listed(ap0, cg@));
                            }
                        }
                    }
                    assert forall|k: int| 0 <= k < all_paths@.len() implies input_path(
                        feeds_v(feeds@),
                        empty_groups@,
                        (#[trigger] all_paths@[k])@,
                    ) by {
                        if k < ap0.len() {
                            assert(all_paths@[k] == ap0[k]);
                        }
                    }
                    assert forall|j: int|
                        0 <= j < i + 1 && (#[trigger] feeds@[j])@.group_title.len()
                            > 0 implies path_listed(all_paths@, feeds@[j]@.group_title) by {
                        if j < i {
                            let ghost pj = feeds@[j]@.group_title;
                            let k = choose|k: int|
                                0 <= k < ap0.len() && (#[trigger] ap0[k])@ == pj;
                            assert(all_paths@[k] == ap0[k]);
                        } else {
                            assert((all_paths@[ap0.len() as int])@ == feeds@[j]@.group_title);
                        }
                    }
                }
            }
        }
        i = i + 1;
    }
    let mut e: usize = 0;
    while e < empty_groups.len()
        invariant
            e <= empty_groups@.len(),
            forall|j: int| 0 <= j < feeds@.len() && (#[trigger] feeds@[j])@.group_title.len() > 0
                ==> path_listed(all_paths@, feeds@[j]@.group_title),
            forall|j: int| 0 <= j < e ==> path_listed(all_paths@, (#[trigger] empty_groups@[j])@),
            forall|k: int| 0 <= k < all_paths@.len() ==> input_path(
                feeds_v(feeds@),
                empty_groups@,
                (#[trigger] all_paths@[k])@,
            ),
            forall|a: int, b: int| 0 <= a < b < all_paths@.len() ==> (#[trigger] all_paths@[a])@
                != (#[trigger] all_paths@[b])@,
        decreases empty_groups@.len() - e,
    {
        if !contains_path(&all_paths, empty_groups[e].as_str()) {
            let ghost ap0 = all_paths@;
            let c = empty_groups[e].clone();
            let ghost cg = c;
            all_paths.push(c);
            proof {
                assert(all_paths@[ap0.len() as int] == cg);
                assert(input_path(feeds_v(feeds@), empty_groups@, cg@)) by {
                    assert((empty_groups@[e as int])@ == cg@);
                }
                assert forall|a: int, b: int|
                    0 <= a < b < all_paths@.len() implies (#[trigger] all_paths@[a])@ != (
                #[trigger] all_paths@[b])@ by {
                    if b < ap0.len() {
                        assert(all_paths@[a] == ap0[a]);
                        assert(all_paths@[b] == ap0[b]);
                    } else {
                        assert(all_paths@[a] == ap0[a]);
                        assert(all_paths@[b] == cg);
                        if ap0[a]@ == cg@ {
                            assert(path_listed(ap0, cg@));
                        }
                    }
                }
                assert forall|k: int| 0 <= k < all_paths@.len() implies input_path(
                    feeds_v(feeds@),
                    empty_groups@,
                    (#[trigger] all_paths@[k])@,
                ) by {
                    if k < ap0.len() {
                        assert(all_paths@[k] == ap0[k]);
                    }
                }
                assert forall|j: int|
                    0 <= j < feeds@.len() && (#[trigger] feeds@[j])@.group_title.len()
                        > 0 implies path_listed(all_paths@, feeds@[j]@.group_title) by {
                    let k = choose|k: int|
                        0 <= k < ap0.len() && (#[trigger] ap0[k])@ == feeds@[j]@.group_title;
                    assert(all_paths@[k] == ap0[k]);
                }
                assert forall|j: int| 0 <= j < e + 1 implies path_listed(
                    all_paths@,
                    (#[trigger] empty_groups@[j])@,
                ) by {
                    if j < e {
                        let k = choose|k: int|
                            0 <= k < ap0.len() && (#[trigger] ap0[k])@ == empty_groups@[j]@;
                        assert(all_paths@[k] == ap0[k]);
                    } else {
                        assert((all_paths@[ap0.len() as int])@ == empty_groups@[j]@);
                    }
                }
            }
        }
        e = e + 1;
    }

    // Sort for a stable, input-order-independent tree.
    let ghost unsorted = all_paths@;
    let ghost unsortedd = all_paths.deep_view();
    let sorted = crate::paths::sort_paths(all_paths);
    proof {
        assert(unsortedd.no_duplicates()) by {
            assert forall|a: int, b: int|
                0 <= a < unsortedd.len() && 0 <= b < unsortedd.len() && a
                    != b implies unsortedd[a] != unsortedd[b] by {
                assert(unsortedd[a] == unsorted[a]@);
                assert(unsortedd[b] == unsorted[b]@);
            }
        }
        unsortedd.lemma_multiset_has_no_duplicates();
        assert(sorted.deep_view().to_multiset() == unsortedd.to_multiset());
        sorted.deep_view().lemma_multiset_has_no_duplicates_conv();
        assert(sorted.deep_view().no_duplicates());
        assert forall|j: int|
            0 <= j < feeds@.len() && (#[trigger] feeds@[j])@.group_title.len()
                > 0 implies path_listed(sorted@, feeds@[j]@.group_title) by {
            lemma_listed_via_multiset(unsorted, sorted@, feeds@[j]@.group_title);
        }
        assert forall|j: int| 0 <= j < empty_groups@.len() implies path_listed(
            sorted@,
            (#[trigger] empty_groups@[j])@,
        ) by {
            lemma_listed_via_multiset(unsorted, sorted@, empty_groups@[j]@);
        }
        assert forall|k: int| 0 <= k < sorted@.len() implies input_path(
            feeds_v(feeds@),
            empty_groups@,
            (#[trigger] sorted@[k])@,
        ) by {
            vstd::seq_lib::to_multiset_contains(sorted@, sorted@[k]);
            vstd::seq_lib::to_multiset_contains(unsorted, sorted@[k]);
            assert(sorted@.contains(sorted@[k]));
            assert(unsorted.contains(sorted@[k]));
            let m = choose|m: int| 0 <= m < unsorted.len() && unsorted[m] == sorted@[k];
            assert(input_path(feeds_v(feeds@), empty_groups@, (unsorted[m])@));
        }
    }

    // The grouped feeds, to be handed out path by path.
    let mut remaining: Vec<Feed> = Vec::new();
    let mut i: usize = 0;
    proof {
        assert(feeds_v(remaining@) =~= Seq::<FeedV>::empty());
        assert(feeds_v(feeds@).take(0) =~= Seq::<FeedV>::empty());
    }
    proof {
        assert(grouped_of(feeds_v(feeds@).take(0)) =~= Seq::<FeedV>::empty());
    }
    while i < feeds.len()
        invariant
            i <= feeds@.len(),
            feeds_unread(feeds_v(feeds@)) <= u32::MAX,
            feeds_unread(feeds_v(remaining@)) <= feeds_unread(feeds_v(feeds@).take(i as int)),
            feeds_unread(feeds_v(remaining@)) >= 0,
            feeds_v(remaining@) == grouped_of(feeds_v(feeds@).take(i as int)),
        decreases feeds@.len() - i,
    {
        proof {
            lemma_feeds_unread_take(feeds_v(feeds@), i as int);
            lemma_grouped_of_take(feeds_v(feeds@), i as int);
            assert(feeds_v(feeds@)[i as int] == feeds@[i as int]@);
        }
        if !feeds[i].group_title.as_str().is_empty() {
            let c = feeds[i].clone();
            let ghost r0 = remaining@;
            let ghost cg = c;
            remaining.push(c);
            proof {
                lemma_feeds_v_push(r0, cg);
                lemma_feeds_unread_push(feeds_v(r0), cg@);
                assert(feeds_v(remaining@) =~= grouped_of(feeds_v(feeds@).take(i as int + 1)));
            }
        } else {
            proof {
                assert(feeds_v(remaining@) =~= grouped_of(feeds_v(feeds@).take(i as int + 1)));
            }
        }
        i = i + 1;
    }
    proof {
        assert(feeds_v(feeds@).take(feeds@.len() as int) =~= feeds_v(feeds@));
    }

    // Insert every path, with the feeds that belong to it.
    let ghost allp: Seq<Seq<Seq<char>>> = Seq::new(
        sorted@.len() as nat,
        |i: int| split_segs(sorted@[i]@),
    );
    let ghost spv = sorted.deep_view();
    let mut tree: Vec<GroupNode> = Vec::new();
    let mut pi: usize = 0;
    proof {
        broadcast use vstd::multiset::group_multiset_axioms;

        assert(forest_within(nodes_v(Seq::<GroupNode>::empty()), allp, Seq::empty()));
        assert(nodes_v(tree@) =~= Seq::<NodeV>::empty());
        assert(spv.skip(0) =~= spv);
        assert(feeds_v(remaining@) == grouped_of(feeds_v(feeds@)));
        assert(built_forest(nodes_v(tree@), spv.skip(0), feeds_v(remaining@)) == built_forest(
            Seq::<NodeV>::empty(),
            spv,
            grouped_of(feeds_v(feeds@)),
        ));
        assert(forest_unread(nodes_v(tree@)) == 0);
        assert(forest_nodup(nodes_v(tree@)));
        assert(forest_paths_wf(nodes_v(tree@), Seq::empty()));
        assert(forest_feeds_ms(nodes_v(tree@)) =~= Multiset::<FeedV>::empty());
        assert(forest_feeds_ms(nodes_v(tree@)).add(feeds_v(remaining@).to_multiset())
            =~= grouped_of(feeds_v(feeds@)).to_multiset());
        lemma_grouped_elems(feeds_v(feeds@));
        assert forall|t: int| 0 <= t < feeds_v(remaining@).len() implies (exists|j: int|
            0 <= j < sorted@.len() && (#[trigger] sorted@[j])@ == (#[trigger] feeds_v(
                remaining@,
            )[t]).group_title) by {
            let fv = feeds_v(feeds@);
            let jj = choose|j: int| 0 <= j < fv.len() && #[trigger] fv[j] == grouped_of(fv)[t];
            assert(feeds@[jj]@ == feeds_v(remaining@)[t]);
            assert(path_listed(sorted@, feeds@[jj]@.group_title));
            let kk = choose|k: int|
                0 <= k < sorted@.len() && (#[trigger] sorted@[k])@ == feeds@[jj]@.group_title;
            assert((sorted@[kk])@ == feeds_v(remaining@)[t].group_title);
        }
    }
    while pi < sorted.len()
        invariant
            pi <= sorted@.len(),
            forest_nodup(nodes_v(tree@)),
            forest_paths_wf(nodes_v(tree@), Seq::empty()),
            forest_unread(nodes_v(tree@)) >= 0,
            feeds_unread(feeds_v(remaining@)) >= 0,
            forest_unread(nodes_v(tree@)) + feeds_unread(feeds_v(remaining@)) <= u32::MAX,
            forall|j: int| 0 <= j < pi ==> forest_has(
                nodes_v(tree@),
                split_segs((#[trigger] sorted@[j])@),
            ),
            forest_feeds_placed(nodes_v(tree@)),
            forest_feeds_ms(nodes_v(tree@)).add(feeds_v(remaining@).to_multiset()) == grouped_of(
                feeds_v(feeds@),
            ).to_multiset(),
            forall|t: int| 0 <= t < feeds_v(remaining@).len() ==> (exists|j: int|
                pi <= j < sorted@.len() && (#[trigger] sorted@[j])@ == (#[trigger] feeds_v(
                    remaining@,
                )[t]).group_title),
            allp == Seq::new(sorted@.len() as nat, |i: int| split_segs(sorted@[i]@)),
            forest_within(nodes_v(tree@), allp, Seq::empty()),
            spv == sorted.deep_view(),
            built_forest(nodes_v(tree@), spv.skip(pi as int), feeds_v(remaining@)) == built_forest(
                Seq::<NodeV>::empty(),
                spv,
                grouped_of(feeds_v(feeds@)),
            ),
        decreases sorted@.len() - pi,
    {
        let p = sorted[pi].clone();

        // Hand the feeds of this path out of `remaining`.
        let mut mine: Vec<Feed> = Vec::new();
        let mut rest: Vec<Feed> = Vec::new();
        let mut k: usize = 0;
        proof {
            broadcast use vstd::multiset::group_multiset_axioms;

            assert(feeds_v(mine@) =~= Seq::<FeedV>::empty());
            assert(feeds_v(rest@) =~= Seq::<FeedV>::empty());
            assert(feeds_v(remaining@).take(0) =~= Seq::<FeedV>::empty());
            vstd::seq_lib::to_multiset_len(feeds_v(mine@));
            vstd::seq_lib::to_multiset_len(feeds_v(rest@));
            vstd::seq_lib::to_multiset_len(feeds_v(remaining@).take(0));
            assert(feeds_v(mine@).to_multiset() =~= Multiset::<FeedV>::empty());
            assert(feeds_v(rest@).to_multiset() =~= Multiset::<FeedV>::empty());
            assert(feeds_v(remaining@).take(0).to_multiset() =~= Multiset::<FeedV>::empty());
            assert(feeds_v(mine@).to_multiset().add(feeds_v(rest@).to_multiset()) =~= feeds_v(
                remaining@,
            ).take(0).to_multiset());
            assert(feeds_at(feeds_v(remaining@).take(0), p@) =~= Seq::<FeedV>::empty());
            assert(feeds_not_at(feeds_v(remaining@).take(0), p@) =~= Seq::<FeedV>::empty());
        }
        while k < remaining.len()
            invariant
                k <= remaining@.len(),
                pi < sorted@.len(),
                p@ == sorted@[pi as int]@,
                feeds_unread(feeds_v(mine@)) + feeds_unread(feeds_v(rest@)) == feeds_unread(
                    feeds_v(remaining@).take(k as int),
                ),
                feeds_unread(feeds_v(mine@)) >= 0,
                feeds_unread(feeds_v(rest@)) >= 0,
                feeds_v(mine@).to_multiset().add(feeds_v(rest@).to_multiset()) == feeds_v(
                    remaining@,
                ).take(k as int).to_multiset(),
                forall|t: int| 0 <= t < feeds_v(mine@).len() ==> (#[trigger] feeds_v(
                    mine@,
                )[t]).group_title == p@,
                feeds_v(mine@) == feeds_at(feeds_v(remaining@).take(k as int), p@),
                feeds_v(rest@) == feeds_not_at(feeds_v(remaining@).take(k as int), p@),
                forall|t: int| 0 <= t < feeds_v(rest@).len() ==> (exists|j: int|
                    pi + 1 <= j < sorted@.len() && (#[trigger] sorted@[j])@ == (#[trigger] feeds_v(
                        rest@,
                    )[t]).group_title),
                forall|t: int| 0 <= t < feeds_v(remaining@).len() ==> (exists|j: int|
                    pi <= j < sorted@.len() && (#[trigger] sorted@[j])@ == (#[trigger] feeds_v(
                        remaining@,
                    )[t]).group_title),
            decreases remaining@.len() - k,
        {
            proof {
                broadcast use vstd::multiset::group_multiset_axioms;

                lemma_feeds_unread_take(feeds_v(remaining@), k as int);
                assert(feeds_v(remaining@)[k as int] == remaining@[k as int]@);
                assert(feeds_v(remaining@).take(k as int + 1) =~= feeds_v(remaining@).take(
                    k as int,
                ).push(feeds_v(remaining@)[k as int]));
                vstd::seq_lib::to_multiset_build(
                    feeds_v(remaining@).take(k as int),
                    feeds_v(remaining@)[k as int],
                );
                lemma_feeds_at_take(feeds_v(remaining@), p@, k as int);
            }
            let f = remaining[k].clone();
            let ghost fg = f;
            if str_eq(f.group_title.as_str(), p.as_str()) {
                let ghost m0 = mine@;
                mine.push(f);
                proof {
                    broadcast use vstd::multiset::group_multiset_axioms;

                    lemma_feeds_v_push(m0, fg);
                    lemma_feeds_unread_push(feeds_v(m0), fg@);
                    vstd::seq_lib::to_multiset_build(feeds_v(m0), fg@);
                    assert(feeds_v(mine@).to_multiset().add(feeds_v(rest@).to_multiset())
                        =~= feeds_v(remaining@).take(k as int + 1).to_multiset());
                    assert(fg@ == feeds_v(remaining@)[k as int]);
                    assert(feeds_v(mine@) =~= feeds_at(
                        feeds_v(remaining@).take(k as int + 1),
                        p@,
                    ));
                    assert(feeds_v(rest@) =~= feeds_not_at(
                        feeds_v(remaining@).take(k as int + 1),
                        p@,
                    ));
                }
            } else {
                let ghost r0 = rest@;
                rest.push(f);
                proof {
                    broadcast use vstd::multiset::group_multiset_axioms;

                    lemma_feeds_v_push(r0, fg);
                    lemma_feeds_unread_push(feeds_v(r0), fg@);
                    vstd::seq_lib::to_multiset_build(feeds_v(r0), fg@);
                    assert(feeds_v(mine@).to_multiset().add(feeds_v(rest@).to_multiset())
                        =~= feeds_v(remaining@).take(k as int + 1).to_multiset());
                    assert forall|t: int| 0 <= t < feeds_v(rest@).len() implies (exists|j: int|
                        pi + 1 <= j < sorted@.len() && (#[trigger] sorted@[j])@ == (
                    #[trigger] feeds_v(rest@)[t]).group_title) by {
                        if t < feeds_v(r0).len() {
                            assert(feeds_v(rest@)[t] == feeds_v(r0)[t]);
                        } else {
                            assert(feeds_v(rest@)[t] == fg@);
                            assert(fg@ == feeds_v(remaining@)[k as int]);
                            let jj = choose|j: int|
                                pi <= j < sorted@.len() && (#[trigger] sorted@[j])@ == feeds_v(
                                    remaining@,
                                )[k as int].group_title;
                            assert(fg@.group_title != p@);
                            assert(jj != pi);
                            assert((sorted@[jj])@ == feeds_v(rest@)[t].group_title);
                        }
                    }
                    assert(fg@ == feeds_v(remaining@)[k as int]);
                    assert(feeds_v(mine@) =~= feeds_at(
                        feeds_v(remaining@).take(k as int + 1),
                        p@,
                    ));
                    assert(feeds_v(rest@) =~= feeds_not_at(
                        feeds_v(remaining@).take(k as int + 1),
                        p@,
                    ));
                }
            }
            k = k + 1;
        }
        proof {
            assert(feeds_v(remaining@).take(remaining@.len() as int) =~= feeds_v(remaining@));
        }

        let comps = crate::paths::split_path(p.as_str());
        let ghost tree0 = nodes_v(tree@);
        let ghost minev = feeds_v(mine@);
        let ghost restv = feeds_v(rest@);
        let ghost remv = feeds_v(remaining@);
        proof {
            assert(minev == feeds_at(remv, p@));
            assert(restv == feeds_not_at(remv, p@));
            crate::paths::lemma_join_split(p@);
            assert(comps.deep_view() == split_segs(p@));
            assert(comps.deep_view().take(0) =~= Seq::<Seq<char>>::empty());
            lemma_insert_forest_unread(tree0, comps.deep_view(), 0, p@, minev);
            lemma_insert_forest_nodup(tree0, comps.deep_view(), 0, p@, minev);
            lemma_insert_forest_paths_wf(tree0, comps.deep_view(), 0, p@, minev);
            lemma_insert_forest_has(tree0, comps.deep_view(), 0, p@, minev);
            lemma_insert_forest_feeds_ms(tree0, comps.deep_view(), 0, p@, minev);
            lemma_insert_forest_feeds_placed(tree0, comps.deep_view(), 0, p@, minev);
            assert(allp[pi as int] == comps.deep_view());
            lemma_insert_forest_within(tree0, comps.deep_view(), 0, p@, minev, allp, pi as int);
        }
        let t2 = insert_forest_vec(tree, &comps, 0, &p, mine);
        tree = t2;
        remaining = rest;
        proof {
            broadcast use vstd::multiset::group_multiset_axioms;

            assert forall|j: int| 0 <= j < pi + 1 implies forest_has(
                nodes_v(tree@),
                split_segs((#[trigger] sorted@[j])@),
            ) by {
                if j < pi {
                    lemma_insert_forest_keeps(
                        tree0,
                        comps.deep_view(),
                        0,
                        p@,
                        minev,
                        split_segs(sorted@[j]@),
                    );
                } else {
                    assert(comps.deep_view().skip(0) =~= comps.deep_view());
                    assert(p@ == sorted@[j]@);
                }
            }
            assert(forest_feeds_ms(nodes_v(tree@)).add(feeds_v(remaining@).to_multiset())
                =~= forest_feeds_ms(tree0).add(minev.to_multiset().add(restv.to_multiset())));
            assert(forest_feeds_ms(nodes_v(tree@)).add(feeds_v(remaining@).to_multiset())
                =~= grouped_of(feeds_v(feeds@)).to_multiset());
            assert forall|t: int| 0 <= t < feeds_v(remaining@).len() implies (exists|j: int|
                pi + 1 <= j < sorted@.len() && (#[trigger] sorted@[j])@ == (#[trigger] feeds_v(
                    remaining@,
                )[t]).group_title) by {
                assert(feeds_v(remaining@)[t] == restv[t]);
            }
            assert(spv[pi as int] == sorted@[pi as int]@);
            assert(spv.skip(pi as int)[0] == spv[pi as int]);
            assert(spv.skip(pi as int)[0] == p@);
            assert(spv.skip(pi as int).skip(1) =~= spv.skip(pi as int + 1));
            assert(comps.deep_view() == split_segs(p@));
            assert(built_forest(tree0, spv.skip(pi as int), remv) == built_forest(
                insert_forest(tree0, split_segs(p@), 0, p@, feeds_at(remv, p@)),
                spv.skip(pi as int + 1),
                feeds_not_at(remv, p@),
            ));
            assert(nodes_v(tree@) == insert_forest(tree0, split_segs(p@), 0, p@, minev));
            assert(built_forest(nodes_v(tree@), spv.skip(pi as int + 1), feeds_v(remaining@))
                == built_forest(Seq::<NodeV>::empty(), spv, grouped_of(feeds_v(feeds@))));
        }
        pi = pi + 1;
    }

    // Every grouped feed's path was gathered, so the handing-out loop has
    // placed every one of them in the tree.
    proof {
        broadcast use vstd::multiset::group_multiset_axioms;

        if feeds_v(remaining@).len() > 0 {
            let jw = choose|j: int|
                sorted@.len() <= j < sorted@.len() && (#[trigger] sorted@[j])@ == feeds_v(
                    remaining@,
                )[0].group_title;
            assert(false);
        }
        vstd::seq_lib::to_multiset_len(feeds_v(remaining@));
        assert(feeds_v(remaining@).to_multiset() =~= Multiset::<FeedV>::empty());
        assert(forest_feeds_ms(nodes_v(tree@)) =~= grouped_of(feeds_v(feeds@)).to_multiset());
        assert(spv.skip(pi as int) =~= Seq::<Seq<char>>::empty());
        assert(nodes_v(tree@) == built_forest(
            Seq::<NodeV>::empty(),
            spv,
            grouped_of(feeds_v(feeds@)),
        ));
    }

    // Recompute the aggregated counts bottom-up.
    proof {
        lemma_fits_from_total(nodes_v(tree@));
    }
    let result = update_counts_forest(&tree);
    proof {
        let tv = nodes_v(tree@);
        lemma_with_counts_nodup(tv);
        lemma_with_counts_paths_wf(tv, Seq::empty());
        lemma_with_counts_ok(tv);
        lemma_with_counts_feeds(tv);
        lemma_with_counts_within(tv, allp, Seq::empty());
        assert forall|i: int| 0 <= i < allp.len() implies (exists|p: Seq<char>|
            input_path(feeds_v(feeds@), empty_groups@, p) && #[trigger] allp[i] == split_segs(
                p,
            )) by {
            assert(input_path(feeds_v(feeds@), empty_groups@, (sorted@[i])@));
            assert(allp[i] == split_segs((sorted@[i])@));
        }
        assert forall|i: int|
            0 <= i < feeds@.len() && (#[trigger] feeds@[i])@.group_title.len()
                > 0 implies forest_has(nodes_v(result@), split_segs(feeds@[i]@.group_title)) by {
            let pth = feeds@[i]@.group_title;
            let m = choose|m: int| 0 <= m < sorted@.len() && (#[trigger] sorted@[m])@ == pth;
            assert(forest_has(tv, split_segs(sorted@[m]@)));
            lemma_with_counts_has(tv, split_segs(pth));
        }
        assert forall|i: int| 0 <= i < empty_groups@.len() implies forest_has(
            nodes_v(result@),
            split_segs((#[trigger] empty_groups@[i])@),
        ) by {
            let pth = empty_groups@[i]@;
            let m = choose|m: int| 0 <= m < sorted@.len() && (#[trigger] sorted@[m])@ == pth;
            assert(forest_has(tv, split_segs(sorted@[m]@)));
            lemma_with_counts_has(tv, split_segs(pth));
        }
        assert(nodes_v(result@) == with_counts_list(built_forest(
            Seq::empty(),
            spv,
            grouped_of(feeds_v(feeds@)),
        )));
        assert(crate::paths::paths_sorted(spv));
        assert(spv.no_duplicates());
        assert forall|q: Seq<char>| spv.contains(q) implies input_path(
            feeds_v(feeds@),
            empty_groups@,
            q,
        ) by {
            let kq = choose|kq: int| 0 <= kq < spv.len() && spv[kq] == q;
            assert(input_path(feeds_v(feeds@), empty_groups@, (sorted@[kq])@));
        }
        assert forall|q: Seq<char>|
            input_path(feeds_v(feeds@), empty_groups@, q) implies spv.contains(q) by {
            if exists|i: int|
                0 <= i < feeds_v(feeds@).len() && (#[trigger] feeds_v(feeds@)[i]).group_title == q
                    && q.len() > 0 {
                let i = choose|i: int|
                    0 <= i < feeds_v(feeds@).len() && (#[trigger] feeds_v(feeds@)[i]).group_title
                        == q && q.len() > 0;
                assert(feeds@[i]@.group_title == q);
                assert(path_listed(sorted@, q));
                let kq = choose|kq: int|
                    0 <= kq < sorted@.len() && (#[trigger] sorted@[kq])@ == q;
                assert(spv[kq] == q);
            } else {
                let i = choose|i: int|
                    0 <= i < empty_groups@.len() && (#[trigger] empty_groups@[i])@ == q;
                assert(path_listed(sorted@, q));
                let kq = choose|kq: int|
                    0 <= kq < sorted@.len() && (#[trigger] sorted@[kq])@ == q;
                assert(spv[kq] == q);
            }
        }
    }
    result
}

proof fn lemma_with_counts_list_take(ns: Seq<NodeV>, i: int)
    requires
        0 <= i < ns.len(),
    ensures
        with_counts_list(ns.take(i + 1)) == with_counts_list(ns.take(i)).push(
            with_counts_node(ns[i]),
        ),
    decreases i,
{
    if i == 0 {
        assert(ns.take(1) =~= seq![ns[0]]);
        assert(ns.take(1).skip(1) =~= Seq::<NodeV>::empty());
        assert(ns.take(0) =~= Seq::<NodeV>::empty());
        assert(with_counts_list(ns.take(1)) =~= with_counts_list(ns.take(0)).push(
            with_counts_node(ns[0]),
        ));
    } else {
        lemma_with_counts_list_take(ns.skip(1), i - 1);
        assert(ns.take(i + 1)[0] == ns[0]);
        assert(ns.take(i)[0] == ns[0]);
        assert(ns.take(i + 1).skip(1) =~= ns.skip(1).take(i));
        assert(ns.take(i).skip(1) =~= ns.skip(1).take(i - 1));
        assert(ns.skip(1)[i - 1] == ns[i]);
        assert(with_counts_list(ns.take(i + 1)) =~= with_counts_list(ns.take(i)).push(
            with_counts_node(ns[i]),
        ));
    }
}

} // verus!
