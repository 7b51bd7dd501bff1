//! The persisted feed tree.
//!
//! A configuration entry is either a standalone feed or a named group whose
//! children are again entries, nested to any depth.  A group may be empty:
//! empty groups are first-class and stay visible.  The editing operations in
//! [`crate::config_edit`] mutate this tree; the functions here read it.

use vstd::prelude::*;

use crate::paths::join_segs;
use crate::settings::DisplayConfig;

verus! {

/// A single feed source within the configuration.
pub struct FeedSource {
    pub title: String,
    /// URL of the website, for reference and for opening in a browser.
    pub url: String,
    /// URL of the feed itself; when absent, `url` doubles as the feed URL.
    pub feed: Option<String>,
}

/// A named group of feeds; may contain nested groups, and may be empty.
pub struct FeedGroup {
    pub title: String,
    pub feeds: Vec<FeedConfigItem>,
}

/// A configuration entry: a standalone feed or a group of entries.
pub enum FeedConfigItem {
    Standalone(FeedSource),
    Group(FeedGroup),
}

/// Mathematical image of a [`FeedSource`].
#[verifier::ext_equal]
pub struct SourceV {
    pub title: Seq<char>,
    pub url: Seq<char>,
    pub feed: Option<Seq<char>>,
}

/// Mathematical image of a [`FeedGroup`].
#[verifier::ext_equal]
pub struct GroupV {
    pub title: Seq<char>,
    pub feeds: Seq<ItemV>,
}

/// Mathematical image of a [`FeedConfigItem`].
#[verifier::ext_equal]
pub enum ItemV {
    Standalone(SourceV),
    Group(GroupV),
}

pub open spec fn source_v(f: FeedSource) -> SourceV {
    SourceV { title: f.title@, url: f.url@, feed: f.feed.deep_view() }
}

pub open spec fn group_v(g: FeedGroup) -> GroupV
    decreases g,
{
    GroupV { title: g.title@, feeds: items_v(g.feeds@) }
}

pub open spec fn item_v(item: FeedConfigItem) -> ItemV
    decreases item,
{
    match item {
        FeedConfigItem::Standalone(f) => ItemV::Standalone(source_v(f)),
        FeedConfigItem::Group(g) => ItemV::Group(group_v(g)),
    }
}

pub open spec fn items_v(s: Seq<FeedConfigItem>) -> Seq<ItemV>
    decreases s,
{
    if s.len() == 0 {
        Seq::empty()
    } else {
        seq![item_v(s[0])] + items_v(s.skip(1))
    }
}

pub broadcast proof fn lemma_items_v_len(s: Seq<FeedConfigItem>)
    ensures
        (#[trigger] items_v(s)).len() == s.len(),
    decreases s,
{
    if s.len() > 0 {
        lemma_items_v_len(s.skip(1));
    }
}

pub broadcast proof fn lemma_items_v_index(s: Seq<FeedConfigItem>, i: int)
    requires
        0 <= i < s.len(),
    ensures
        #[trigger] items_v(s)[i] == item_v(s[i]),
    decreases s,
{
    lemma_items_v_len(s);
    if i > 0 {
        lemma_items_v_index(s.skip(1), i - 1);
    }
}

pub broadcast proof fn lemma_items_v_push(s: Seq<FeedConfigItem>, x: FeedConfigItem)
    ensures
        #[trigger] items_v(s.push(x)) == items_v(s).push(item_v(x)),
    decreases s,
{
    lemma_items_v_len(s);
    if s.len() == 0 {
        assert(s.push(x)[0] == x);
        assert(s.push(x).skip(1) =~= Seq::<FeedConfigItem>::empty());
        assert(items_v(s) == Seq::<ItemV>::empty());
        assert(items_v(s.push(x).skip(1)) == Seq::<ItemV>::empty());
        assert(items_v(s.push(x)) == seq![item_v(x)] + Seq::<ItemV>::empty());
        assert(items_v(s.push(x)) =~= items_v(s).push(item_v(x)));
    } else {
        lemma_items_v_push(s.skip(1), x);
        assert(s.push(x).skip(1) =~= s.skip(1).push(x));
        assert(s.push(x)[0] == s[0]);
        lemma_items_v_len(s.skip(1));
        assert(items_v(s.push(x)) =~= items_v(s).push(item_v(x)));
    }
}

/// The canonical path of a child entry: the parent path extended with the
/// child group's title, or the title alone at the root.
pub open spec fn child_path(path: Option<Seq<char>>, title: Seq<char>) -> Seq<char> {
    match path {
        Some(p) => p + seq![' ', '>', ' '] + title,
        None => title,
    }
}

/// All feeds below an entry, each with the canonical path of its containing
/// group (`None` for a feed outside every group), in document order.
pub open spec fn collect_feeds_item(it: ItemV, path: Option<Seq<char>>) -> Seq<
    (Option<Seq<char>>, SourceV),
>
    decreases it,
{
    match it {
        ItemV::Standalone(f) => seq![(path, f)],
        ItemV::Group(g) => collect_feeds_list(g.feeds, Some(child_path(path, g.title))),
    }
}

pub open spec fn collect_feeds_list(its: Seq<ItemV>, path: Option<Seq<char>>) -> Seq<
    (Option<Seq<char>>, SourceV),
>
    decreases its,
{
    if its.len() == 0 {
        Seq::empty()
    } else {
        collect_feeds_item(its[0], path) + collect_feeds_list(its.skip(1), path)
    }
}

/// The canonical paths of all empty groups below an entry, in document order.
pub open spec fn empty_groups_item(it: ItemV, path: Option<Seq<char>>) -> Seq<Seq<char>>
    decreases it,
{
    match it {
        ItemV::Standalone(_) => Seq::empty(),
        ItemV::Group(g) => {
            let np = child_path(path, g.title);
            (if g.feeds.len() == 0 {
                seq![np]
            } else {
                Seq::empty()
            }) + empty_groups_list(g.feeds, Some(np))
        },
    }
}

pub open spec fn empty_groups_list(its: Seq<ItemV>, path: Option<Seq<char>>) -> Seq<Seq<char>>
    decreases its,
{
    if its.len() == 0 {
        Seq::empty()
    } else {
        empty_groups_item(its[0], path) + empty_groups_list(its.skip(1), path)
    }
}

/// View of a collected `(group path, feed source)` pair.
pub open spec fn pair_v(p: (Option<String>, FeedSource)) -> (Option<Seq<char>>, SourceV) {
    (p.0.deep_view(), source_v(p.1))
}

pub open spec fn pairs_v(s: Seq<(Option<String>, FeedSource)>) -> Seq<
    (Option<Seq<char>>, SourceV),
> {
    s.map_values(|p: (Option<String>, FeedSource)| pair_v(p))
}

impl FeedSource {
    pub fn clone_source(&self) -> (r: FeedSource)
        ensures
            source_v(r) == source_v(*self),
    {
        let r = FeedSource {
            title: self.title.clone(),
            url: self.url.clone(),
            feed: match &self.feed {
                Some(u) => Some(u.clone()),
                None => None,
            },
        };
        proof {
            assert(source_v(r) =~= source_v(*self));
        }
        r
    }
}

/// The canonical path of `title` under the optional parent path `path`.
fn child_path_exec(path: &Option<String>, title: &String) -> (r: String)
    ensures
        r@ == child_path(match path {
            Some(p) => Some(p@),
            None => None,
        }, title@),
{
    match path {
        Some(p) => {
            let mut r = p.clone();
            r.append(" > ");
            proof {
                reveal_strlit(" > ");
                assert(" > "@ =~= seq![' ', '>', ' ']);
            }
            r.append(title.as_str());
            r
        },
        None => title.clone(),
    }
}

impl FeedConfigItem {
    /// All feeds below this entry, paired with the canonical path of their
    /// containing group (`None` for a feed outside every group).
    pub fn collect_feeds(&self) -> (r: Vec<(Option<String>, FeedSource)>)
        ensures
            pairs_v(r@) == collect_feeds_item(item_v(*self), None),
    {
        let mut result: Vec<(Option<String>, FeedSource)> = Vec::new();
        self.collect_feeds_recursive(None, &mut result);
        proof {
            assert(pairs_v(result@) =~= collect_feeds_item(item_v(*self), None));
        }
        result
    }

    /// Walk the subtree, appending each feed with its full group path.
    pub fn collect_feeds_recursive(
        &self,
        current_path: Option<String>,
        result: &mut Vec<(Option<String>, FeedSource)>,
    )
        ensures
            pairs_v(final(result)@) == pairs_v(old(result)@) + collect_feeds_item(
                item_v(*self),
                current_path.deep_view(),
            ),
        decreases *self,
    {
        match self {
            FeedConfigItem::Standalone(f) => {
                let ghost before = result@;
                result.push((clone_opt_string(&current_path), f.clone_source()));
                proof {
                    assert(pairs_v(result@) =~= pairs_v(before) + collect_feeds_item(
                        item_v(*self),
                        current_path.deep_view(),
                    ));
                }
            },
            FeedConfigItem::Group(g) => {
                let new_path = child_path_exec(&current_path, &g.title);
                collect_feeds_vec(&g.feeds, Some(new_path), result);
                proof {
                    assert(pairs_v(result@) =~= pairs_v(old(result)@) + collect_feeds_item(
                        item_v(*self),
                        current_path.deep_view(),
                    ));
                }
            },
        }
    }

    /// The canonical paths of all empty groups below this entry.
    pub fn collect_empty_groups(&self) -> (r: Vec<String>)
        ensures
            r.deep_view() == empty_groups_item(item_v(*self), None),
    {
        let mut result: Vec<String> = Vec::new();
        self.collect_empty_groups_recursive(None, &mut result);
        proof {
            assert(result.deep_view() =~= empty_groups_item(item_v(*self), None));
        }
        result
    }

    /// Walk the subtree, appending the path of every group with no children.
    pub fn collect_empty_groups_recursive(
        &self,
        current_path: Option<String>,
        result: &mut Vec<String>,
    )
        ensures
            final(result).deep_view() == old(result).deep_view() + empty_groups_item(
                item_v(*self),
                current_path.deep_view(),
            ),
        decreases *self,
    {
        match self {
            FeedConfigItem::Standalone(_) => {
                proof {
                    assert(result.deep_view() =~= old(result).deep_view() + empty_groups_item(
                        item_v(*self),
                        current_path.deep_view(),
                    ));
                }
            },
            FeedConfigItem::Group(g) => {
                let new_path = child_path_exec(&current_path, &g.title);
                if g.feeds.len() == 0 {
                    result.push(new_path.clone());
                }
                collect_empty_groups_vec(&g.feeds, Some(new_path), result);
                proof {
                    assert(result.deep_view() =~= old(result).deep_view() + empty_groups_item(
                        item_v(*self),
                        current_path.deep_view(),
                    ));
                }
            },
        }
    }
}

/// Walk every entry of a list, appending each feed with its full group path.
fn collect_feeds_vec(
    items: &Vec<FeedConfigItem>,
    path: Option<String>,
    result: &mut Vec<(Option<String>, FeedSource)>,
)
    ensures
        pairs_v(final(result)@) == pairs_v(old(result)@) + collect_feeds_list(
            items_v(items@),
            path.deep_view(),
        ),
    decreases items@,
{
    let mut i: usize = 0;
    let ghost base = result@;
    proof {
        lemma_items_v_len(items@);
        assert(items_v(items@).take(0) =~= Seq::<ItemV>::empty());
        assert(pairs_v(base) + collect_feeds_list(items_v(items@).take(0), path.deep_view())
            =~= pairs_v(base));
    }
    while i < items.len()
        invariant
            i <= items.len(),
            items_v(items@).len() == items@.len(),
            pairs_v(result@) == pairs_v(base) + collect_feeds_list(
                items_v(items@).take(i as int),
                path.deep_view(),
            ),
        decreases items@.len() - i,
    {
        let ghost itsv = items_v(items@);
        items[i].collect_feeds_recursive(clone_opt_string(&path), result);
        proof {
            lemma_items_v_index(items@, i as int);
            lemma_collect_feeds_list_take(itsv, path.deep_view(), i as int);
        }
        i = i + 1;
    }
    proof {
        assert(items_v(items@).take(items@.len() as int) =~= items_v(items@));
    }
}

/// Walk every entry of a list, appending the path of each empty group.
fn collect_empty_groups_vec(items: &Vec<FeedConfigItem>, path: Option<String>, result: &mut Vec<String>)
    ensures
        final(result).deep_view() == old(result).deep_view() + empty_groups_list(
            items_v(items@),
            path.deep_view(),
        ),
    decreases items@,
{
    let mut i: usize = 0;
    let ghost base = result.deep_view();
    proof {
        lemma_items_v_len(items@);
        assert(items_v(items@).take(0) =~= Seq::<ItemV>::empty());
        assert(base + empty_groups_list(items_v(items@).take(0), path.deep_view()) =~= base);
    }
    while i < items.len()
        invariant
            i <= items.len(),
            items_v(items@).len() == items@.len(),
            result.deep_view() == base + empty_groups_list(
                items_v(items@).take(i as int),
                path.deep_view(),
            ),
        decreases items@.len() - i,
    {
        let ghost itsv = items_v(items@);
        items[i].collect_empty_groups_recursive(clone_opt_string(&path), result);
        proof {
            lemma_items_v_index(items@, i as int);
            lemma_empty_groups_list_take(itsv, path.deep_view(), i as int);
        }
        i = i + 1;
    }
    proof {
        assert(items_v(items@).take(items@.len() as int) =~= items_v(items@));
    }
}

/// Clone an optional string, preserving its view.
pub fn clone_opt_string(s: &Option<String>) -> (r: Option<String>)
    ensures
        r.deep_view() == s.deep_view(),
{
    match s {
        Some(x) => Some(x.clone()),
        None => None,
    }
}

pub proof fn lemma_collect_feeds_list_take(its: Seq<ItemV>, path: Option<Seq<char>>, i: int)
    requires
        0 <= i < its.len(),
    ensures
        collect_feeds_list(its.take(i + 1), path) == collect_feeds_list(its.take(i), path)
            + collect_feeds_item(its[i], path),
    decreases i,
{
    if i == 0 {
        assert(its.take(1) =~= seq![its[0]]);
        assert(its.take(1).skip(1) =~= Seq::<ItemV>::empty());
        assert(its.take(0) =~= Seq::<ItemV>::empty());
        assert(collect_feeds_list(its.take(1), path) =~= collect_feeds_list(its.take(0), path)
            + collect_feeds_item(its[0], path));
    } else {
        lemma_collect_feeds_list_take(its.skip(1), path, i - 1);
        assert(its.take(i + 1)[0] == its[0]);
        assert(its.take(i)[0] == its[0]);
        assert(its.take(i + 1).skip(1) =~= its.skip(1).take(i));
        assert(its.take(i).skip(1) =~= its.skip(1).take(i - 1));
        assert(its.skip(1)[i - 1] == its[i]);
        assert(collect_feeds_list(its.take(i + 1), path) =~= collect_feeds_list(its.take(i), path)
            + collect_feeds_item(its[i], path));
    }
}

proof fn lemma_empty_groups_list_take(its: Seq<ItemV>, path: Option<Seq<char>>, i: int)
    requires
        0 <= i < its.len(),
    ensures
        empty_groups_list(its.take(i + 1), path) == empty_groups_list(its.take(i), path)
            + empty_groups_item(its[i], path),
    decreases i,
{
    if i == 0 {
        assert(its.take(1) =~= seq![its[0]]);
        assert(its.take(1).skip(1) =~= Seq::<ItemV>::empty());
        assert(its.take(0) =~= Seq::<ItemV>::empty());
        assert(empty_groups_list(its.take(1), path) =~= empty_groups_list(its.take(0), path)
            + empty_groups_item(its[0], path));
    } else {
        lemma_empty_groups_list_take(its.skip(1), path, i - 1);
        assert(its.take(i + 1)[0] == its[0]);
        assert(its.take(i)[0] == its[0]);
        assert(its.take(i + 1).skip(1) =~= its.skip(1).take(i));
        assert(its.take(i).skip(1) =~= its.skip(1).take(i - 1));
        assert(its.skip(1)[i - 1] == its[i]);
        assert(empty_groups_list(its.take(i + 1), path) =~= empty_groups_list(its.take(i), path)
            + empty_groups_item(its[i], path));
    }
}

/// Top-level application configuration, as far as the engine reads it.
pub struct Config {
    /// How often, in seconds, to refresh feeds automatically.
    pub refresh_every: u64,
    /// Whether to refresh all feeds on startup.
    pub refresh_on_start: bool,
    /// Display-related settings.
    pub display: DisplayConfig,
    /// The persisted feed tree.
    pub feeds: Vec<FeedConfigItem>,
}

/// The canonical paths of all empty groups in the configuration, in document
/// order.
pub fn collect_empty_groups_from_config(config: &Config) -> (r: Vec<String>)
    ensures
        r.deep_view() == empty_groups_list(items_v(config.feeds@), None),
{
    let mut result: Vec<String> = Vec::new();
    collect_empty_groups_vec(&config.feeds, None, &mut result);
    proof {
        assert(result.deep_view() =~= empty_groups_list(items_v(config.feeds@), None));
    }
    result
}

} // verus!
