//! The async result router and state owner.
//!
//! User actions and background completions are both funneled through this
//! state machine.  It owns every piece of engine state, applies a completion
//! only when it is still relevant to the current view, re-derives the
//! display list, and keeps the cursor stable by identity.  It never performs
//! I/O itself: anything the runtime must do comes back as an [`Effect`].

use vstd::prelude::*;

use crate::config_tree::{Config, FeedConfigItem, FeedGroup, FeedSource};
use crate::flatten::{
    build_display_rows, display_rows, path_in, rows_v, FeedListItem, RowV,
};
use crate::records::{Article, Feed};
use crate::select::{
    articles_v, first_article_pos, reconcile_article_selection, reconcile_articles_spec,
    reconcile_feed_selection, reconcile_spec,
};
use crate::tree::{
    build_group_tree, feeds_unread, feeds_v, forest_counts_ok, forest_has, forest_nodup,
    forest_paths_wf, nodes_v,
};

verus! {

/// High-level actions the engine performs in response to user input.
pub enum Action {
    Quit,
    FocusNext,
    FocusPrev,
    MoveUp,
    MoveDown,
    Select,
    ToggleRead,
    ToggleStar,
    OpenInBrowser,
    MarkAllRead,
    ScrollUp,
    ScrollDown,
    ScrollHalfPageUp,
    ScrollHalfPageDown,
    RefreshAll,
    RefreshCurrent,
    ToggleCollapse,
    ToggleCollapseRecursive,
    JumpToTop,
    JumpToBottom,
    ExpandAllGroups,
    CollapseAllGroups,
    ToggleAllGroups,
    CreateGroup,
    CreateFeed,
    Delete,
    Cut,
    Paste,
    Edit,
    /// A digit of a count prefix.
    Digit(u8),
}

/// Which pane has keyboard focus.
pub enum ActivePane {
    Feeds,
    Articles,
    ArticleView,
}

/// Result of an asynchronous store operation, delivered by the runtime.
pub enum DbResult {
    /// All feeds have been loaded.
    FeedsLoaded(Vec<Feed>),
    /// Articles for one feed have been loaded.
    ArticlesLoaded { feed_id: i64, articles: Vec<Article> },
    /// Articles for one group have been loaded.
    GroupArticlesLoaded { group_title: String, articles: Vec<Article> },
    /// All articles have been loaded.
    AllArticlesLoaded(Vec<Article>),
    /// An article's read flag was toggled.
    ReadToggled { article_id: i64, new_value: bool },
    /// An article's starred flag was toggled.
    StarToggled { article_id: i64, new_value: bool },
    /// Articles were marked read, for one feed or for all.
    MarkedRead { feed_id: Option<i64> },
    /// A store operation failed with this message.
    StoreError(String),
    /// The feeds section was persisted, or failed to persist with this
    /// message; `previous` is the section as it stood before the edit.
    FeedsSaved {
        error: Option<String>,
        previous: Vec<crate::config_tree::FeedConfigItem>,
    },
}

/// Result of asynchronous article content rendering.
pub struct RenderResult {
    /// The rendered plain-text content.
    pub content: String,
}

/// A cut feed or group waiting to be pasted.
pub enum ClipboardItem {
    /// A cut feed, with the canonical path of the group it came from.
    Feed { feed_source: FeedSource, original_group: Option<String> },
    /// A cut group with all its contents, and its original canonical path.
    Group { original_path: String, group: FeedGroup },
}

/// What the engine asks the surrounding runtime to do.  The runtime performs
/// each effect in the background and posts the outcome back as a
/// [`DbResult`], a feed-update completion, or a render completion.
pub enum Effect {
    /// Load all feeds from the store.
    ReloadFeeds,
    /// Load the articles of one feed.
    LoadArticlesForFeed(i64),
    /// Load the articles of one group.
    LoadArticlesForGroup(String),
    /// Load all articles.
    LoadAllArticles,
    /// Toggle an article's read flag in the store.
    ToggleRead(i64),
    /// Toggle an article's starred flag in the store.
    ToggleStar(i64),
    /// Mark every article of one feed read.
    MarkAllRead(i64),
    /// Mark every article read.
    MarkAllReadAll,
    /// Fetch these feeds from the network.
    RefreshFeeds(Vec<Feed>),
    /// Persist the feeds section of the configuration; `previous` is the
    /// section as it stood before the edit, handed back with the outcome so
    /// a failed save can be rolled back.
    SaveFeeds { previous: Vec<crate::config_tree::FeedConfigItem> },
    /// Reconcile the store with the configuration, then reload feeds.
    SyncConfig,
    /// Render the currently selected article's content off-thread.
    RenderCurrentArticle,
    /// Open this URL in the browser.
    OpenUrl(String),
    /// Persist these fetched articles, stamp the feed, then reload feeds.
    PersistFetched { feed_id: i64, articles: Vec<Article> },
}

/// The engine state.  Owned by the single event loop; background tasks only
/// ever hand results back through [`AppCore::handle_db_result`] and its
/// siblings.
pub struct AppCore {
    /// When true the main loop exits.
    pub should_quit: bool,
    /// Which pane has keyboard focus.
    pub active_pane: ActivePane,
    /// The flat display list of the feeds pane.
    pub feed_list_items: Vec<FeedListItem>,
    /// Cursor into `feed_list_items`.
    pub feeds_selected: Option<usize>,
    /// Articles of the current selection.
    pub articles: Vec<Article>,
    /// Cursor into `articles`.
    pub articles_selected: Option<usize>,
    /// Id of the selected article, for restoring the cursor by identity.
    pub selected_article_id: Option<i64>,
    /// Rendered plain text of the selected article.
    pub article_content: String,
    /// Scroll offset in the article view.
    pub article_scroll: u16,
    /// Line count of the rendered content.
    pub article_content_lines: u16,
    /// The configuration.
    pub config: Config,
    /// Whether a background refresh is in progress.
    pub is_refreshing: bool,
    /// A transient status message.
    pub status_message: Option<String>,
    /// Pending count prefix for repeated navigation.
    pub pending_count: Option<u32>,
    /// The active popup, if any.
    pub popup: Option<crate::popup::Popup>,
    /// The clipboard slot for cut/paste.
    pub clipboard: Option<ClipboardItem>,
    /// Cached feed records from the store.
    pub feeds: Vec<Feed>,
    /// Canonical paths of the collapsed groups.
    pub collapsed_groups: Vec<String>,
    /// Canonical paths of the configured empty groups.
    pub empty_groups: Vec<String>,
    /// Number of outstanding background fetches.
    pub pending_refreshes: usize,
    /// Skip the article reload after the next feed load (count-only update).
    pub skip_articles_reload_after_feeds_load: bool,
    /// Trigger a full refresh once the initial feed load lands.
    pub refresh_on_startup_pending: bool,
}

/// The display list was rebuilt from these feeds, empty groups and collapse
/// set: there is a group tree with correct counts, unique canonical paths,
/// one node per gathered path, whose flattening these rows are.  The tree
/// is pinned completely: it is the canonical fold of the sorted gathered
/// paths, so sibling order and the whole display order are functions of
/// the feed list and the collapse set.
pub open spec fn rows_built_from(
    rows: Seq<RowV>,
    fs: Seq<crate::records::FeedV>,
    empties: Seq<String>,
    cs: Seq<Seq<char>>,
) -> bool {
    exists|tv: Seq<crate::tree::NodeV>|
        {
            &&& forest_nodup(tv)
            &&& forest_paths_wf(tv, Seq::empty())
            &&& forest_counts_ok(tv)
            &&& (forall|i: int| 0 <= i < fs.len() && (#[trigger] fs[i]).group_title.len() > 0
                ==> forest_has(tv, crate::paths::split_segs(fs[i].group_title)))
            &&& (forall|i: int| 0 <= i < empties.len() ==> forest_has(
                tv,
                crate::paths::split_segs((#[trigger] empties[i])@),
            ))
            &&& crate::tree::forest_feeds_ms(tv) == crate::tree::grouped_of(fs).to_multiset()
            &&& crate::tree::forest_feeds_placed(tv)
            &&& (exists|gps: Seq<Seq<Seq<char>>>|
                {
                    &&& (forall|i: int| 0 <= i < gps.len() ==> (exists|p: Seq<char>|
                        crate::tree::input_path(fs, empties, p) && #[trigger] gps[i]
                            == crate::paths::split_segs(p)))
                    &&& crate::tree::forest_within(tv, gps, Seq::empty())
                })
            &&& (exists|sp: Seq<Seq<char>>|
                {
                    &&& crate::paths::paths_sorted(sp)
                    &&& sp.no_duplicates()
                    &&& (forall|q: Seq<char>| sp.contains(q) <==> crate::tree::input_path(
                        fs,
                        empties,
                        q,
                    ))
                    &&& tv == crate::tree::with_counts_list(crate::tree::built_forest(
                        Seq::empty(),
                        sp,
                        crate::tree::grouped_of(fs),
                    ))
                })
            &&& rows == display_rows(fs, tv, cs)
        }
}

/// The machine bound the display rebuild lives under: every unread total
/// must fit the counters.
pub open spec fn unread_fits(fs: Seq<crate::records::FeedV>) -> bool {
    feeds_unread(fs) <= u32::MAX
}

/// The state is well formed: cursors in bounds, counts within range.
pub open spec fn wf(s: AppCore) -> bool {
    &&& (s.feeds_selected matches Some(i) ==> i < s.feed_list_items@.len())
    &&& (s.articles_selected matches Some(i) ==> i < s.articles@.len())
    &&& unread_fits(feeds_v(s.feeds@))
}

impl AppCore {
    /// The fresh engine state for a configuration.  The display holds a
    /// placeholder "All" row until the first feed load lands; the returned
    /// effects start that load.
    pub fn new(config: Config) -> (r: (AppCore, Vec<Effect>))
        ensures
            wf(r.0),
            r.0.should_quit == false,
            r.0.active_pane is Articles,
            r.0.feeds@.len() == 0,
            r.0.feed_list_items@.len() == 1,
            rows_v(r.0.feed_list_items@)[0] == (RowV::All { unread_count: 0u32 }),
            r.0.feeds_selected == Some(0usize),
            r.0.articles@.len() == 0,
            r.0.articles_selected is None,
            r.0.is_refreshing == r.0.config.refresh_on_start,
            r.0.refresh_on_startup_pending == r.0.config.refresh_on_start,
            r.0.empty_groups.deep_view() == crate::config_tree::empty_groups_list(
                crate::config_tree::items_v(r.0.config.feeds@),
                None,
            ),
            r.0.clipboard is None,
            r.0.collapsed_groups@.len() == 0,
            r.1@.len() == 1,
            r.1@[0] is ReloadFeeds,
    {
        let refresh_on_start = config.refresh_on_start;
        let empty_groups = crate::config_tree::collect_empty_groups_from_config(&config);
        let mut items: Vec<FeedListItem> = Vec::new();
        items.push(FeedListItem::All { unread_count: 0 });
        let core = AppCore {
            should_quit: false,
            active_pane: ActivePane::Articles,
            feed_list_items: items,
            feeds_selected: Some(0),
            articles: Vec::new(),
            articles_selected: None,
            selected_article_id: None,
            article_content: String::new(),
            article_scroll: 0,
            article_content_lines: 0,
            config,
            is_refreshing: refresh_on_start,
            status_message: None,
            pending_count: None,
            popup: None,
            clipboard: None,
            feeds: Vec::new(),
            collapsed_groups: Vec::new(),
            empty_groups,
            pending_refreshes: 0,
            skip_articles_reload_after_feeds_load: false,
            refresh_on_startup_pending: refresh_on_start,
        };
        let mut effects: Vec<Effect> = Vec::new();
        effects.push(Effect::ReloadFeeds);
        proof {
            assert(feeds_v(core.feeds@) =~= Seq::<crate::records::FeedV>::empty());
            assert(rows_v(core.feed_list_items@)[0] == (RowV::All { unread_count: 0u32 }));
        }
        (core, effects)
    }

    /// The row at the current feeds cursor, if any.
    pub fn selected_row(&self) -> (r: Option<&FeedListItem>)
        ensures
            match self.feeds_selected {
                Some(i) => if i < self.feed_list_items@.len() {
                    r matches Some(it) && *it == self.feed_list_items@[i as int]
                } else {
                    r is None
                },
                None => r is None,
            },
    {
        match self.feeds_selected {
            Some(i) => {
                if i < self.feed_list_items.len() {
                    Some(&self.feed_list_items[i])
                } else {
                    None
                }
            },
            None => None,
        }
    }

    /// The feed at the current feeds cursor, or nothing when the cursor is
    /// on "All" or a group header.
    pub fn selected_feed(&self) -> (r: Option<&Feed>)
        ensures
            match r {
                Some(f) => self.feeds_selected matches Some(i) && i < self.feed_list_items@.len()
                    && (self.feed_list_items@[i as int] matches FeedListItem::Feed { feed, .. }
                    && f@ == feed@),
                None => !(self.feeds_selected matches Some(i) && i < self.feed_list_items@.len()
                    && self.feed_list_items@[i as int] is Feed),
            },
    {
        match self.feeds_selected {
            Some(i) => {
                if i < self.feed_list_items.len() {
                    match &self.feed_list_items[i] {
                        FeedListItem::Feed { feed, .. } => Some(feed),
                        _ => None,
                    }
                } else {
                    None
                }
            },
            None => None,
        }
    }

    /// The article at the current articles cursor.
    pub fn selected_article(&self) -> (r: Option<&Article>)
        ensures
            match r {
                Some(a) => self.articles_selected matches Some(i) && i < self.articles@.len()
                    && a@ == self.articles@[i as int]@,
                None => !(self.articles_selected matches Some(i) && i < self.articles@.len()),
            },
    {
        match self.articles_selected {
            Some(i) => {
                if i < self.articles.len() {
                    Some(&self.articles[i])
                } else {
                    None
                }
            },
            None => None,
        }
    }

    /// Is the current feeds-pane selection the "All" row?
    pub fn viewing_all(&self) -> (r: bool)
        ensures
            r == viewing_all_spec(*self),
    {
        match self.feeds_selected {
            Some(i) => {
                if i < self.feed_list_items.len() {
                    match &self.feed_list_items[i] {
                        FeedListItem::All { .. } => true,
                        _ => false,
                    }
                } else {
                    false
                }
            },
            None => false,
        }
    }

    /// Is the current feeds-pane selection this feed id?
    pub fn viewing_feed(&self, feed_id: i64) -> (r: bool)
        ensures
            r == viewing_feed_spec(*self, feed_id),
    {
        match self.feeds_selected {
            Some(i) => {
                if i < self.feed_list_items.len() {
                    match &self.feed_list_items[i] {
                        FeedListItem::Feed { feed, .. } => feed.id == feed_id,
                        _ => false,
                    }
                } else {
                    false
                }
            },
            None => false,
        }
    }

    /// Is the current feeds-pane selection the group with this path?
    pub fn viewing_group(&self, group_title: &str) -> (r: bool)
        ensures
            r == viewing_group_spec(*self, group_title@),
    {
        match self.feeds_selected {
            Some(i) => {
                if i < self.feed_list_items.len() {
                    match &self.feed_list_items[i] {
                        FeedListItem::GroupHeader { full_path, .. } => crate::paths::str_eq(
                            full_path.as_str(),
                            group_title,
                        ),
                        _ => false,
                    }
                } else {
                    false
                }
            },
            None => false,
        }
    }
}

/// The id of the article under the cursor, before a batch replacement.
pub open spec fn prev_selected_article_id(s: AppCore) -> Option<i64> {
    match s.articles_selected {
        Some(i) => if i < s.articles@.len() {
            Some(s.articles@[i as int].id)
        } else {
            None
        },
        None => None,
    }
}

/// The one effect that loads articles for the current feeds-pane selection.
pub open spec fn loads_current_selection(s: AppCore, e: Effect) -> bool {
    match s.feeds_selected {
        Some(i) => i < s.feed_list_items@.len() && (match s.feed_list_items@[i as int] {
            FeedListItem::All { .. } => e is LoadAllArticles,
            FeedListItem::GroupHeader { full_path, .. } => e matches Effect::LoadArticlesForGroup(
                p,
            ) && p@ == full_path@,
            FeedListItem::Feed { feed, .. } => e matches Effect::LoadArticlesForFeed(id) && id
                == feed.id,
        }),
        None => false,
    }
}

/// A fresh article batch was applied for a still-relevant target: the list
/// is replaced, the cursor restored by identity (or moved to the first
/// article, marking it read when unread), and a render is requested
/// whenever the cursor landed somewhere worth showing.
pub open spec fn article_batch_applied(
    o: AppCore,
    n: AppCore,
    arts: Seq<crate::records::ArticleV>,
    effects: Seq<Effect>,
) -> bool {
    let prev = prev_selected_article_id(o);
    let sel = reconcile_articles_spec(arts, prev);
    &&& articles_v(n.articles@) == arts
    &&& (sel is None ==> {
        &&& n.articles_selected is None
        &&& n.selected_article_id is None
        &&& effects.len() == 0
    })
    &&& (sel matches Some(j) ==> {
        &&& (n.articles_selected matches Some(u) && u == j && u < n.articles@.len())
        &&& if prev is Some && first_article_pos(arts, prev->0) is Some {
            // Restored by identity: reset the scroll and re-render.
            &&& n.selected_article_id == prev
            &&& n.article_scroll == 0
            &&& effects.len() == 1
            &&& effects[0] is RenderCurrentArticle
        } else {
            // First article selected; mark it read when unread.
            &&& n.selected_article_id == Some(arts[j].id)
            &&& n.article_scroll == 0
            &&& if !arts[j].is_read {
                &&& effects.len() == 2
                &&& (effects[0] matches Effect::ToggleRead(id) && id == arts[j].id)
                &&& effects[1] is RenderCurrentArticle
            } else {
                &&& effects.len() == 1
                &&& effects[0] is RenderCurrentArticle
            }
        }
    })
    &&& n == (AppCore {
        articles: n.articles,
        articles_selected: n.articles_selected,
        selected_article_id: n.selected_article_id,
        article_scroll: n.article_scroll,
        ..o
    })
}

impl AppCore {
    /// Rebuild the display list from the cached feeds, the empty-group list
    /// and the collapse set, and restore the feeds cursor by identity.
    fn rebuild_feed_list(&mut self)
        requires
            unread_fits(feeds_v(old(self).feeds@)),
        ensures
            rows_built_from(
                rows_v(final(self).feed_list_items@),
                feeds_v(final(self).feeds@),
                final(self).empty_groups@,
                final(self).collapsed_groups.deep_view(),
            ),
            ({
                let r = reconcile_spec(
                    rows_v(old(self).feed_list_items@),
                    match old(self).feeds_selected {
                        Some(i) => Some(i as int),
                        None => None,
                    },
                    rows_v(final(self).feed_list_items@),
                );
                match final(self).feeds_selected {
                    Some(j) => r == Some(j as int) && j < final(self).feed_list_items@.len(),
                    None => r is None,
                }
            }),
            *final(self) == (AppCore {
                feed_list_items: final(self).feed_list_items,
                feeds_selected: final(self).feeds_selected,
                ..*old(self)
            }),
    {
        let tree = build_group_tree(&self.feeds, &self.empty_groups);
        let new_items = build_display_rows(&self.feeds, &tree, &self.collapsed_groups);
        let new_sel = reconcile_feed_selection(&self.feed_list_items, self.feeds_selected, &new_items);
        proof {
            let tv = nodes_v(tree@);
            assert(rows_built_from(
                rows_v(new_items@),
                feeds_v(self.feeds@),
                self.empty_groups@,
                self.collapsed_groups.deep_view(),
            ));
            if new_sel is Some {
                lemma_reconcile_in_bounds(
                    rows_v(self.feed_list_items@),
                    match self.feeds_selected {
                        Some(i) => Some(i as int),
                        None => None,
                    },
                    rows_v(new_items@),
                );
                assert(rows_v(new_items@).len() == new_items@.len());
            }
        }
        self.feed_list_items = new_items;
        self.feeds_selected = new_sel;
    }

    /// Replace the article list with a fresh batch for a still-relevant
    /// target, reconciling the cursor by identity.
    fn apply_article_batch(&mut self, articles: Vec<Article>) -> (effects: Vec<Effect>)
        ensures
            article_batch_applied(*old(self), *final(self), articles_v(articles@), effects@),
    {
        let ghost arts = articles_v(articles@);
        let prev_id = match self.articles_selected {
            Some(i) => {
                if i < self.articles.len() {
                    Some(self.articles[i].id)
                } else {
                    None
                }
            },
            None => None,
        };
        proof {
            assert(prev_id == prev_selected_article_id(*self));
            assert(articles_v(self.articles@).len() == self.articles@.len());
        }
        let restored = reconcile_article_selection(&articles, prev_id);
        let mut effects: Vec<Effect> = Vec::new();
        self.articles = articles;
        match restored {
            None => {
                self.articles_selected = None;
                self.selected_article_id = None;
            },
            Some(j) => {
                proof {
                    lemma_reconcile_articles_in_bounds(arts, prev_id);
                }
                self.articles_selected = Some(j);
                let was_restored = match prev_id {
                    Some(_) => j != 0 || {
                        // Index 0 may be either a restored match or the
                        // first-article fallback; decide by the id.
                        self.articles[0].id == match prev_id {
                            Some(id) => id,
                            None => 0,
                        }
                    },
                    None => false,
                };
                proof {
                    assert(arts.len() == self.articles@.len());
                    assert(j < self.articles@.len());
                    assert(articles_v(self.articles@)[j as int] == self.articles@[j as int]@);
                }
                if was_restored {
                    proof {
                        lemma_restored_means_found(arts, prev_id, j as int);
                    }
                    self.selected_article_id = prev_id;
                    self.article_scroll = 0;
                    effects.push(Effect::RenderCurrentArticle);
                } else {
                    proof {
                        lemma_not_restored_means_first(arts, prev_id, j as int);
                    }
                    let new_id = self.articles[j].id;
                    self.selected_article_id = Some(new_id);
                    self.article_scroll = 0;
                    if !self.articles[j].is_read {
                        effects.push(Effect::ToggleRead(new_id));
                    }
                    effects.push(Effect::RenderCurrentArticle);
                }
            },
        }
        effects
    }
}

/// The reconciled feeds cursor lands inside the new list.
proof fn lemma_reconcile_in_bounds(
    oldrows: Seq<RowV>,
    old_sel: Option<int>,
    newrows: Seq<RowV>,
)
    requires
        old_sel matches Some(i) ==> i >= 0,
    ensures
        reconcile_spec(oldrows, old_sel, newrows) matches Some(j) ==> 0 <= j < newrows.len(),
{
    let prev: Option<RowV> = if old_sel matches Some(i) && 0 <= i < oldrows.len() {
        Some(oldrows[old_sel->0])
    } else {
        None
    };
    match prev {
        Some(r) => {
            if r is Feed {
                lemma_first_feed_pos_bound(newrows, r->Feed_feed.id);
            }
            if r is GroupHeader {
                lemma_first_group_pos_bound(newrows, r->GroupHeader_full_path);
            }
        },
        None => {},
    }
}

proof fn lemma_first_feed_pos_bound(rows: Seq<RowV>, id: i64)
    ensures
        crate::select::first_feed_pos(rows, id) matches Some(j) ==> 0 <= j < rows.len(),
    decreases rows,
{
    if rows.len() > 0 {
        lemma_first_feed_pos_bound(rows.skip(1), id);
    }
}

proof fn lemma_first_group_pos_bound(rows: Seq<RowV>, p: Seq<char>)
    ensures
        crate::select::first_group_pos(rows, p) matches Some(j) ==> 0 <= j < rows.len(),
    decreases rows,
{
    if rows.len() > 0 {
        lemma_first_group_pos_bound(rows.skip(1), p);
    }
}

/// The reconciled article cursor lands inside the new batch.
proof fn lemma_reconcile_articles_in_bounds(
    arts: Seq<crate::records::ArticleV>,
    prev: Option<i64>,
)
    ensures
        reconcile_articles_spec(arts, prev) matches Some(j) ==> 0 <= j < arts.len(),
{
    if prev is Some {
        lemma_first_article_pos_bounds(arts, prev->0);
    }
}

proof fn lemma_first_article_pos_bounds(arts: Seq<crate::records::ArticleV>, id: i64)
    ensures
        first_article_pos(arts, id) matches Some(j) ==> 0 <= j < arts.len(),
    decreases arts,
{
    if arts.len() > 0 {
        lemma_first_article_pos_bounds(arts.skip(1), id);
    }
}

/// A cursor that is nonzero, or that points at the previous id, was restored
/// by identity.
proof fn lemma_restored_means_found(
    arts: Seq<crate::records::ArticleV>,
    prev: Option<i64>,
    j: int,
)
    requires
        reconcile_articles_spec(arts, prev) == Some(j),
        0 <= j < arts.len(),
        prev is Some,
        j != 0 || arts[0].id == prev->0,
    ensures
        first_article_pos(arts, prev->0) is Some,
        arts[j].id == prev->0,
{
    if first_article_pos(arts, prev->0) is None {
        assert(j == 0);
        assert(arts[0].id == prev->0);
        lemma_first_pos_finds(arts, prev->0, 0);
    }
    lemma_first_pos_id(arts, prev->0);
}

proof fn lemma_first_pos_finds(arts: Seq<crate::records::ArticleV>, id: i64, j: int)
    requires
        0 <= j < arts.len(),
        arts[j].id == id,
    ensures
        first_article_pos(arts, id) is Some,
    decreases arts,
{
    if arts[0].id != id {
        assert(arts.skip(1)[j - 1] == arts[j]);
        lemma_first_pos_finds(arts.skip(1), id, j - 1);
    }
}

proof fn lemma_first_pos_id(arts: Seq<crate::records::ArticleV>, id: i64)
    ensures
        first_article_pos(arts, id) matches Some(j) ==> 0 <= j < arts.len() && arts[j].id == id,
    decreases arts,
{
    if arts.len() > 0 {
        lemma_first_pos_id(arts.skip(1), id);
        match first_article_pos(arts, id) {
            Some(j) => {
                if j > 0 {
                    assert(arts.skip(1)[j - 1] == arts[j]);
                }
            },
            None => {},
        }
    }
}

/// A cursor at index zero whose row does not carry the previous id is the
/// first-article fallback.
proof fn lemma_not_restored_means_first(
    arts: Seq<crate::records::ArticleV>,
    prev: Option<i64>,
    j: int,
)
    requires
        reconcile_articles_spec(arts, prev) == Some(j),
        0 <= j < arts.len(),
        prev is None || (j == 0 && arts[0].id != prev->0),
    ensures
        !(prev is Some && first_article_pos(arts, prev->0) is Some),
        j == 0,
{
    if prev matches Some(id) && first_article_pos(arts, id) is Some {
        lemma_first_pos_id(arts, prev->0);
        assert(arts[j].id == prev->0);
    }
}

/// The article list with the read flag of the first article carrying this
/// id replaced; unchanged when no article carries it.
pub open spec fn read_flag_set(
    olds: Seq<crate::records::ArticleV>,
    id: i64,
    v: bool,
) -> Seq<crate::records::ArticleV> {
    match first_article_pos(olds, id) {
        Some(j) => olds.update(
            j,
            crate::records::ArticleV {
                is_read: v,
                ..olds[j]
            },
        ),
        None => olds,
    }
}

/// The article list with the starred flag of the first article carrying
/// this id replaced; unchanged when no article carries it.
pub open spec fn star_flag_set(
    olds: Seq<crate::records::ArticleV>,
    id: i64,
    v: bool,
) -> Seq<crate::records::ArticleV> {
    match first_article_pos(olds, id) {
        Some(j) => olds.update(
            j,
            crate::records::ArticleV {
                is_starred: v,
                ..olds[j]
            },
        ),
        None => olds,
    }
}

impl AppCore {
    /// Flip the stored read flag of the first article with this id.
    fn set_read_flag(&mut self, article_id: i64, new_value: bool)
        ensures
            articles_v(final(self).articles@) == read_flag_set(
                articles_v(old(self).articles@),
                article_id,
                new_value,
            ),
            final(self).articles@.len() == old(self).articles@.len(),
            *final(self) == (AppCore { articles: final(self).articles, ..*old(self) }),
    {
        let ghost olds = articles_v(self.articles@);
        let mut i: usize = 0;
        while i < self.articles.len()
            invariant
                i <= self.articles@.len(),
                olds == articles_v(self.articles@),
                olds.len() == self.articles@.len(),
                *self == (AppCore { articles: self.articles, ..*old(self) }),
                self.articles@ == old(self).articles@,
                forall|k: int| 0 <= k < i ==> olds[k].id != article_id,
            decreases self.articles@.len() - i,
        {
            proof {
                assert(olds[i as int] == self.articles@[i as int]@);
            }
            if self.articles[i].id == article_id {
                let mut a = self.articles[i].clone();
                a.is_read = new_value;
                let ghost av = a@;
                self.articles.set(i, a);
                proof {
                    lemma_first_article_pos_found_pub(olds, article_id, i as int);
                    assert(articles_v(self.articles@) =~= olds.update(i as int, av));
                    assert(av =~= (crate::records::ArticleV {
                        is_read: new_value,
                        ..olds[i as int]
                    }));
                }
                return ;
            }
            i = i + 1;
        }
        proof {
            lemma_first_article_pos_none_pub(olds, article_id);
        }
    }

    /// Flip the stored starred flag of the first article with this id.
    fn set_star_flag(&mut self, article_id: i64, new_value: bool)
        ensures
            articles_v(final(self).articles@) == star_flag_set(
                articles_v(old(self).articles@),
                article_id,
                new_value,
            ),
            final(self).articles@.len() == old(self).articles@.len(),
            *final(self) == (AppCore { articles: final(self).articles, ..*old(self) }),
    {
        let ghost olds = articles_v(self.articles@);
        let mut i: usize = 0;
        while i < self.articles.len()
            invariant
                i <= self.articles@.len(),
                olds == articles_v(self.articles@),
                olds.len() == self.articles@.len(),
                *self == (AppCore { articles: self.articles, ..*old(self) }),
                self.articles@ == old(self).articles@,
                forall|k: int| 0 <= k < i ==> olds[k].id != article_id,
            decreases self.articles@.len() - i,
        {
            proof {
                assert(olds[i as int] == self.articles@[i as int]@);
            }
            if self.articles[i].id == article_id {
                let mut a = self.articles[i].clone();
                a.is_starred = new_value;
                let ghost av = a@;
                self.articles.set(i, a);
                proof {
                    lemma_first_article_pos_found_pub(olds, article_id, i as int);
                    assert(articles_v(self.articles@) =~= olds.update(i as int, av));
                    assert(av =~= (crate::records::ArticleV {
                        is_starred: new_value,
                        ..olds[i as int]
                    }));
                }
                return ;
            }
            i = i + 1;
        }
        proof {
            lemma_first_article_pos_none_pub(olds, article_id);
        }
    }

    /// Apply a completed store operation.
    ///
    /// A feed-list result is always applied; an article-list result is
    /// discarded unless the view still targets the same feed, group or
    /// "All" — the guard against results that arrive after the user has
    /// navigated away.  Toggle results patch the one matching article in
    /// place; a read toggle and a mark-all-read additionally refresh the
    /// feed list so the unread counts stay correct.
    pub fn handle_db_result(&mut self, result: DbResult) -> (effects: Vec<Effect>)
        requires
            wf(*old(self)),
            result matches DbResult::FeedsLoaded(feeds) ==> unread_fits(feeds_v(feeds@)),
        ensures
            wf(*final(self)),
            match result {
                DbResult::FeedsLoaded(feeds) => {
                    let want_refresh = old(self).refresh_on_startup_pending && feeds@.len() > 0;
                    let want_load = !old(self).skip_articles_reload_after_feeds_load;
                    &&& final(self).feeds@ == feeds@
                    &&& rows_built_from(
                        rows_v(final(self).feed_list_items@),
                        feeds_v(feeds@),
                        final(self).empty_groups@,
                        final(self).collapsed_groups.deep_view(),
                    )
                    &&& reconciled_cursor(*old(self), *final(self))
                    &&& final(self).refresh_on_startup_pending == false
                    &&& final(self).skip_articles_reload_after_feeds_load == false
                    &&& (want_refresh ==> final(self).is_refreshing
                        && final(self).pending_refreshes == feeds@.len())
                    &&& if want_load && has_loadable_selection(*final(self)) {
                        &&& (want_refresh ==> effects@.len() == 2 && (effects@[0]
                            matches Effect::RefreshFeeds(v) && feeds_v(v@) == feeds_v(feeds@))
                            && loads_current_selection(*final(self), effects@[1]))
                        &&& (!want_refresh ==> effects@.len() == 1 && loads_current_selection(
                            *final(self),
                            effects@[0],
                        ))
                    } else {
                        &&& (want_refresh ==> effects@.len() == 1 && (effects@[0]
                            matches Effect::RefreshFeeds(v) && feeds_v(v@) == feeds_v(feeds@)))
                        &&& (!want_refresh ==> effects@.len() == 0)
                    }
                },
                DbResult::ArticlesLoaded { feed_id, articles } => if viewing_feed_spec(
                    *old(self),
                    feed_id,
                ) {
                    article_batch_applied(
                        *old(self),
                        *final(self),
                        articles_v(articles@),
                        effects@,
                    )
                } else {
                    // The user has navigated away: the stale result is
                    // discarded without a trace.
                    *final(self) == *old(self) && effects@.len() == 0
                },
                DbResult::GroupArticlesLoaded { group_title, articles } => if viewing_group_spec(
                    *old(self),
                    group_title@,
                ) {
                    article_batch_applied(
                        *old(self),
                        *final(self),
                        articles_v(articles@),
                        effects@,
                    )
                } else {
                    *final(self) == *old(self) && effects@.len() == 0
                },
                DbResult::AllArticlesLoaded(articles) => if viewing_all_spec(*old(self)) {
                    article_batch_applied(
                        *old(self),
                        *final(self),
                        articles_v(articles@),
                        effects@,
                    )
                } else {
                    *final(self) == *old(self) && effects@.len() == 0
                },
                DbResult::ReadToggled { article_id, new_value } => {
                    &&& articles_v(final(self).articles@) == read_flag_set(
                        articles_v(old(self).articles@),
                        article_id,
                        new_value,
                    )
                    &&& final(self).skip_articles_reload_after_feeds_load == true
                    &&& effects@.len() == 1 && effects@[0] is ReloadFeeds
                    &&& *final(self) == (AppCore {
                        articles: final(self).articles,
                        skip_articles_reload_after_feeds_load: true,
                        ..*old(self)
                    })
                },
                DbResult::StarToggled { article_id, new_value } => {
                    &&& articles_v(final(self).articles@) == star_flag_set(
                        articles_v(old(self).articles@),
                        article_id,
                        new_value,
                    )
                    &&& effects@.len() == 0
                    &&& *final(self) == (AppCore {
                        articles: final(self).articles,
                        ..*old(self)
                    })
                },
                DbResult::MarkedRead { feed_id } => {
                    &&& *final(self) == *old(self)
                    &&& match feed_id {
                        Some(id) => if viewing_feed_spec(*old(self), id) {
                            effects@.len() == 2 && (effects@[0]
                                matches Effect::LoadArticlesForFeed(x) && x == id)
                                && effects@[1] is ReloadFeeds
                        } else {
                            effects@.len() == 1 && effects@[0] is ReloadFeeds
                        },
                        None => effects@.len() == 2 && effects@[0] is LoadAllArticles
                            && effects@[1] is ReloadFeeds,
                    }
                },
                DbResult::StoreError(message) => {
                    &&& *final(self) == (AppCore {
                        status_message: final(self).status_message,
                        ..*old(self)
                    })
                    &&& (final(self).status_message matches Some(m) && m@ == "Store error: "@
                        + message@)
                    &&& effects@.len() == 0
                },
                DbResult::FeedsSaved { error, previous } => match error {
                    None => *final(self) == *old(self) && effects@.len() == 0,
                    Some(e) => {
                        &&& crate::config_tree::items_v(final(self).config.feeds@)
                            == crate::config_tree::items_v(previous@)
                        &&& final(self).config == (crate::config_tree::Config {
                            feeds: final(self).config.feeds,
                            ..old(self).config
                        })
                        &&& empties_match(*final(self))
                        &&& (final(self).status_message matches Some(m) && m@
                            == "Failed to save config: "@ + e@)
                        &&& *final(self) == (AppCore {
                            config: final(self).config,
                            empty_groups: final(self).empty_groups,
                            status_message: final(self).status_message,
                            ..*old(self)
                        })
                        &&& effects@.len() == 1 && effects@[0] is SyncConfig
                    },
                },
            },
    {
        match result {
            DbResult::FeedsLoaded(feeds) => {
                self.feeds = feeds;
                self.rebuild_feed_list();
                let mut effects: Vec<Effect> = Vec::new();
                let want_refresh = self.refresh_on_startup_pending && self.feeds.len() > 0;
                self.refresh_on_startup_pending = false;
                if want_refresh {
                    self.pending_refreshes = self.feeds.len();
                    self.is_refreshing = true;
                    effects.push(Effect::RefreshFeeds(clone_feeds(&self.feeds)));
                }
                let want_load = !self.skip_articles_reload_after_feeds_load;
                self.skip_articles_reload_after_feeds_load = false;
                if want_load {
                    match self.load_current_selection_effect() {
                        Some(e) => {
                            effects.push(e);
                        },
                        None => {},
                    }
                }
                effects
            },
            DbResult::ArticlesLoaded { feed_id, articles } => {
                if self.viewing_feed(feed_id) {
                    self.apply_article_batch(articles)
                } else {
                    Vec::new()
                }
            },
            DbResult::GroupArticlesLoaded { group_title, articles } => {
                if self.viewing_group(group_title.as_str()) {
                    self.apply_article_batch(articles)
                } else {
                    Vec::new()
                }
            },
            DbResult::AllArticlesLoaded(articles) => {
                if self.viewing_all() {
                    self.apply_article_batch(articles)
                } else {
                    Vec::new()
                }
            },
            DbResult::ReadToggled { article_id, new_value } => {
                self.set_read_flag(article_id, new_value);
                self.skip_articles_reload_after_feeds_load = true;
                let mut effects: Vec<Effect> = Vec::new();
                effects.push(Effect::ReloadFeeds);
                effects
            },
            DbResult::StarToggled { article_id, new_value } => {
                self.set_star_flag(article_id, new_value);
                Vec::new()
            },
            DbResult::MarkedRead { feed_id } => {
                let mut effects: Vec<Effect> = Vec::new();
                match feed_id {
                    Some(id) => {
                        if self.viewing_feed(id) {
                            effects.push(Effect::LoadArticlesForFeed(id));
                        }
                    },
                    None => {
                        effects.push(Effect::LoadAllArticles);
                    },
                }
                effects.push(Effect::ReloadFeeds);
                effects
            },
            DbResult::StoreError(message) => {
                let mut msg = "Store error: ".to_owned();
                proof {
                    reveal_strlit("Store error: ");
                }
                msg.append(message.as_str());
                self.status_message = Some(msg);
                Vec::new()
            },
            DbResult::FeedsSaved { error, previous } => {
                match error {
                    None => Vec::new(),
                    Some(e) => {
                        // The save failed: the edit is rolled back so the
                        // in-memory configuration matches what is on disk,
                        // and the store is re-synchronized with it.
                        self.config.feeds = previous;
                        self.empty_groups =
                            crate::config_tree::collect_empty_groups_from_config(&self.config);
                        let mut msg = "Failed to save config: ".to_owned();
                        proof {
                            reveal_strlit("Failed to save config: ");
                        }
                        msg.append(e.as_str());
                        self.status_message = Some(msg);
                        let mut effects: Vec<Effect> = Vec::new();
                        effects.push(Effect::SyncConfig);
                        effects
                    },
                }
            },
        }
    }

    /// The effect that loads articles for the current feeds-pane selection.
    fn load_current_selection_effect(&self) -> (r: Option<Effect>)
        ensures
            match r {
                Some(e) => loads_current_selection(*self, e),
                None => !has_loadable_selection(*self),
            },
    {
        match self.feeds_selected {
            Some(i) => {
                if i < self.feed_list_items.len() {
                    match &self.feed_list_items[i] {
                        FeedListItem::All { .. } => Some(Effect::LoadAllArticles),
                        FeedListItem::GroupHeader { full_path, .. } => Some(
                            Effect::LoadArticlesForGroup(full_path.clone()),
                        ),
                        FeedListItem::Feed { feed, .. } => Some(
                            Effect::LoadArticlesForFeed(feed.id),
                        ),
                    }
                } else {
                    None
                }
            },
            None => None,
        }
    }

    /// Record the rendered article content and clamp the scroll offset to
    /// the new line count.
    pub fn handle_render_result(&mut self, result: RenderResult)
        ensures
            final(self).article_content@ == result.content@,
            final(self).article_content_lines == clamped_line_count(result.content@),
            final(self).article_scroll == clamp_scroll(
                old(self).article_scroll,
                clamped_line_count(result.content@),
            ),
            *final(self) == (AppCore {
                article_content: final(self).article_content,
                article_content_lines: final(self).article_content_lines,
                article_scroll: final(self).article_scroll,
                ..*old(self)
            }),
    {
        let lines = count_lines(result.content.as_str());
        self.article_content = result.content;
        self.article_content_lines = lines;
        if self.article_scroll > 0 {
            let max = if lines > 0 {
                lines - 1
            } else {
                0
            };
            if self.article_scroll >= max {
                self.article_scroll = max;
            }
        }
    }

    /// Account for one finished background fetch: persist its articles,
    /// surface its error, and clear the refresh indicator when it was the
    /// last one out.
    pub fn handle_feed_update(
        &mut self,
        feed_id: i64,
        articles: Vec<Article>,
        error: Option<String>,
    ) -> (effects: Vec<Effect>)
        ensures
            final(self).pending_refreshes == if old(self).pending_refreshes > 0 {
                (old(self).pending_refreshes - 1) as usize
            } else {
                0usize
            },
            final(self).is_refreshing == (final(self).pending_refreshes != 0),
            (error matches Some(e) ==> final(self).status_message matches Some(m) && m@
                == "Fetch error: "@ + e@),
            (error is None ==> final(self).status_message == old(self).status_message),
            effects@.len() == 1,
            effects@[0] matches Effect::PersistFetched { feed_id: f, articles: a } && f == feed_id
                && articles_v(a@) == articles_v(articles@),
            *final(self) == (AppCore {
                pending_refreshes: final(self).pending_refreshes,
                is_refreshing: final(self).is_refreshing,
                status_message: final(self).status_message,
                ..*old(self)
            }),
    {
        match error {
            Some(err) => {
                let mut msg = "Fetch error: ".to_owned();
                proof {
                    reveal_strlit("Fetch error: ");
                }
                msg.append(err.as_str());
                self.status_message = Some(msg);
            },
            None => {},
        }
        if self.pending_refreshes > 0 {
            self.pending_refreshes = self.pending_refreshes - 1;
        }
        self.is_refreshing = self.pending_refreshes != 0;
        let mut effects: Vec<Effect> = Vec::new();
        effects.push(Effect::PersistFetched { feed_id, articles });
        effects
    }

    /// Kick off a background refresh of every cached feed; a no-op with no
    /// feeds.
    pub fn start_refresh_all(&mut self) -> (effects: Vec<Effect>)
        ensures
            refresh_started(*old(self), *final(self), effects@),
    {
        if self.feeds.len() == 0 {
            return Vec::new();
        }
        self.pending_refreshes = self.feeds.len();
        self.is_refreshing = true;
        let mut effects: Vec<Effect> = Vec::new();
        effects.push(Effect::RefreshFeeds(clone_feeds(&self.feeds)));
        effects
    }
}

/// Circular cursor movement: `count` steps down (or up) from a cursor below
/// `len`, with wrap-around; the result is the movement modulo the length.
pub open spec fn wrap_index(current: int, len: int, down: bool, count: int) -> int {
    if len <= 0 {
        0
    } else {
        let off = count % len;
        if down {
            if current < len - off {
                current + off
            } else {
                current - (len - off)
            }
        } else {
            if off <= current {
                current - off
            } else {
                len - (off - current)
            }
        }
    }
}


/// The count a movement action consumes: the pending prefix, one by default.
pub open spec fn count_of(pc: Option<u32>) -> int {
    match pc {
        Some(c) => if c == 0 {
            1int
        } else {
            c as int
        },
        None => 1int,
    }
}

/// The feeds cursor moved circularly and the new row's articles requested.
pub open spec fn feed_move_applied(
    pre: AppCore,
    post: AppCore,
    eff: Seq<Effect>,
    down: bool,
    count: int,
) -> bool {
    &&& (pre.feed_list_items@.len() == 0 ==> post == pre && eff.len() == 0)
    &&& (pre.feed_list_items@.len() > 0 ==> {
        let cur = match pre.feeds_selected {
            Some(i) => i as int,
            None => 0,
        };
        let ni = wrap_index(cur, pre.feed_list_items@.len() as int, down, count);
        &&& post.feeds_selected == Some(ni as usize)
        &&& eff.len() == 1 && loads_current_selection(post, eff[0])
        &&& post == (AppCore { feeds_selected: post.feeds_selected, ..pre })
    })
}

/// The articles cursor moved circularly; a change of row marks an unread
/// row read and re-renders.
pub open spec fn article_move_applied(
    pre: AppCore,
    post: AppCore,
    eff: Seq<Effect>,
    down: bool,
    count: int,
) -> bool {
    &&& (pre.articles@.len() == 0 ==> post == pre && eff.len() == 0)
    &&& (pre.articles@.len() > 0 ==> {
        let cur = match pre.articles_selected {
            Some(i) => i as int,
            None => 0,
        };
        let ni = wrap_index(cur, pre.articles@.len() as int, down, count);
        let a = pre.articles@[ni]@;
        &&& post.articles_selected == Some(ni as usize)
        &&& post.selected_article_id == Some(a.id)
        &&& (if ni != cur && !a.is_read {
            eff.len() == 2 && (eff[0] matches Effect::ToggleRead(x) && x == a.id) && eff[1]
                is RenderCurrentArticle
        } else {
            eff.len() == 1 && eff[0] is RenderCurrentArticle
        })
        &&& post == (AppCore {
            articles_selected: post.articles_selected,
            selected_article_id: post.selected_article_id,
            ..pre
        })
    })
}

/// One group's membership in the collapse set flipped and the display list
/// rebuilt around it.
pub open spec fn collapse_toggled(pre: AppCore, post: AppCore, path: Seq<char>) -> bool {
    &&& (forall|q: Seq<char>| path_in(post.collapsed_groups.deep_view(), q) <==> (path_in(
        pre.collapsed_groups.deep_view(),
        q,
    ) != (q == path)))
    &&& rows_built_from(
        rows_v(post.feed_list_items@),
        feeds_v(post.feeds@),
        post.empty_groups@,
        post.collapsed_groups.deep_view(),
    )
    &&& reconciled_cursor(pre, post)
    &&& post == (AppCore {
        feed_list_items: post.feed_list_items,
        feeds_selected: post.feeds_selected,
        collapsed_groups: post.collapsed_groups,
        ..pre
    })
}

/// The feeds cursor was recomputed by identity from the old display list.
pub open spec fn reconciled_cursor(pre: AppCore, post: AppCore) -> bool {
    let r = reconcile_spec(
        rows_v(pre.feed_list_items@),
        match pre.feeds_selected {
            Some(i) => Some(i as int),
            None => None,
        },
        rows_v(post.feed_list_items@),
    );
    match post.feeds_selected {
        Some(j) => r == Some(j as int) && j < post.feed_list_items@.len(),
        None => r is None,
    }
}

/// Every group expanded and the display list rebuilt.
pub open spec fn all_expanded(pre: AppCore, post: AppCore) -> bool {
    &&& post.collapsed_groups@.len() == 0
    &&& rows_built_from(
        rows_v(post.feed_list_items@),
        feeds_v(post.feeds@),
        post.empty_groups@,
        post.collapsed_groups.deep_view(),
    )
    &&& reconciled_cursor(pre, post)
    &&& post == (AppCore {
        feed_list_items: post.feed_list_items,
        feeds_selected: post.feeds_selected,
        collapsed_groups: post.collapsed_groups,
        ..pre
    })
}

/// Every group collapsed: the collapse set becomes the cached feeds' group
/// paths, and the display list rebuilt.
pub open spec fn all_collapsed_set(pre: AppCore, post: AppCore) -> bool {
    &&& (forall|q: Seq<char>| #[trigger] path_in(post.collapsed_groups.deep_view(), q) <==> (
    exists|k: int| 0 <= k < pre.feeds@.len() && (#[trigger] pre.feeds@[k])@.group_title == q))
    &&& rows_built_from(
        rows_v(post.feed_list_items@),
        feeds_v(post.feeds@),
        post.empty_groups@,
        post.collapsed_groups.deep_view(),
    )
    &&& reconciled_cursor(pre, post)
    &&& post == (AppCore {
        feed_list_items: post.feed_list_items,
        feeds_selected: post.feeds_selected,
        collapsed_groups: post.collapsed_groups,
        ..pre
    })
}

/// Every feed of the group marked read, and a status message set.
pub open spec fn group_marked(
    pre: AppCore,
    post: AppCore,
    eff: Seq<Effect>,
    path: Seq<char>,
    recursive: bool,
) -> bool {
    let ids = group_feed_ids(feeds_v(pre.feeds@), path, recursive);
    &&& eff.len() == ids.len()
    &&& (forall|k: int| 0 <= k < ids.len() ==> ((#[trigger] eff[k]) matches Effect::MarkAllRead(x)
        && x == ids[k]))
    &&& post.status_message is Some
    &&& post == (AppCore { status_message: post.status_message, ..pre })
}

/// A background refresh of every cached feed was started; a no-op with no
/// feeds.
pub open spec fn refresh_started(pre: AppCore, post: AppCore, eff: Seq<Effect>) -> bool {
    &&& (pre.feeds@.len() == 0 ==> post == pre && eff.len() == 0)
    &&& (pre.feeds@.len() > 0 ==> {
        &&& post.pending_refreshes == pre.feeds@.len()
        &&& post.is_refreshing
        &&& eff.len() == 1
        &&& (eff[0] matches Effect::RefreshFeeds(v) && feeds_v(v@) == feeds_v(pre.feeds@))
        &&& post == (AppCore {
            pending_refreshes: post.pending_refreshes,
            is_refreshing: true,
            ..pre
        })
    })
}

/// The articles cursor jumped to the first or last row; an unread landing
/// row on a changed cursor is marked read, and the view re-rendered.
pub open spec fn articles_jumped(pre: AppCore, post: AppCore, eff: Seq<Effect>, top: bool) -> bool {
    &&& (pre.articles@.len() == 0 ==> post == pre && eff.len() == 0)
    &&& (pre.articles@.len() > 0 ==> {
        let cur = match pre.articles_selected {
            Some(i) => i as int,
            None => 0,
        };
        let t: int = if top {
            0
        } else {
            pre.articles@.len() - 1
        };
        let a = pre.articles@[t]@;
        &&& post.articles_selected == Some(t as usize)
        &&& (if cur != t {
            post.selected_article_id == Some(a.id) && (if !a.is_read {
                eff.len() == 2 && (eff[0] matches Effect::ToggleRead(x) && x == a.id) && eff[1]
                    is RenderCurrentArticle
            } else {
                eff.len() == 1 && eff[0] is RenderCurrentArticle
            })
        } else {
            post.selected_article_id == pre.selected_article_id && eff.len() == 1 && eff[0]
                is RenderCurrentArticle
        })
        &&& post == (AppCore {
            articles_selected: post.articles_selected,
            selected_article_id: post.selected_article_id,
            ..pre
        })
    })
}

/// The article view scrolled down, stopping at the last line.
pub open spec fn scrolled_down(pre: AppCore, post: AppCore, n: u16) -> bool {
    let max = if pre.article_content_lines > 0 {
        (pre.article_content_lines - 1) as u16
    } else {
        0u16
    };
    let want = pre.article_scroll + n;
    &&& post.article_scroll == if want > max {
        max
    } else {
        want as u16
    }
    &&& post == (AppCore { article_scroll: post.article_scroll, ..pre })
}

/// Enter on the feeds pane: a group header toggled its collapse, any other
/// row moved focus to the articles pane.
pub open spec fn feed_row_selected(pre: AppCore, post: AppCore, eff: Seq<Effect>) -> bool {
    &&& eff.len() == 0
    &&& match selected_row_kind(pre) {
        SelKind::Group(path) => collapse_toggled(pre, post, path),
        SelKind::All => post == (AppCore { active_pane: ActivePane::Articles, ..pre }),
        SelKind::Feed(_) => post == (AppCore { active_pane: ActivePane::Articles, ..pre }),
        SelKind::None_ => post == pre,
    }
}

/// Enter on the articles pane: the unread row under the cursor marked read
/// and focus moved to the article view.
pub open spec fn article_opened(pre: AppCore, post: AppCore, eff: Seq<Effect>) -> bool {
    &&& (match pre.articles_selected {
        Some(i) => if i < pre.articles@.len() {
            &&& post.active_pane is ArticleView
            &&& if !pre.articles@[i as int]@.is_read {
                let aid = pre.articles@[i as int]@.id;
                eff.len() == 1 && (eff[0] matches Effect::ToggleRead(x) && x == aid)
            } else {
                eff.len() == 0
            }
        } else {
            post == pre && eff.len() == 0
        },
        None => post == pre && eff.len() == 0,
    })
    &&& post == (AppCore { active_pane: post.active_pane, ..pre })
}

/// The edit popup opened for the selected feed or group, pre-filled from
/// the row; the "All" row and an empty cursor only set a message.
pub open spec fn edit_popup_opened(pre: AppCore, post: AppCore) -> bool {
    &&& post == (AppCore { popup: post.popup, status_message: post.status_message, ..pre })
    &&& match pre.feeds_selected {
        Some(i) => if i < pre.feed_list_items@.len() {
            match pre.feed_list_items@[i as int] {
                FeedListItem::All { .. } => post.popup == pre.popup && post.status_message
                    is Some,
                FeedListItem::GroupHeader { title, full_path, .. } => (post.popup matches Some(p)
                    && p@ == (crate::popup::PopupV::EditGroup {
                    original_path: full_path@,
                    input: title@,
                })) && post.status_message == pre.status_message,
                FeedListItem::Feed { feed, .. } => (post.popup matches Some(p) && p@ == (
                crate::popup::PopupV::EditFeed {
                    original_url: feed.url@,
                    title: feed.title@,
                    url: match feed.site_url {
                        Some(u) => u@,
                        None => Seq::<char>::empty(),
                    },
                    feed_url: feed.url@,
                    selected_field: 0usize,
                })) && post.status_message == pre.status_message,
            }
        } else {
            post.popup == pre.popup && post.status_message is Some
        },
        None => post.popup == pre.popup && post.status_message is Some,
    }
}

/// The URL of the article under the cursor, if any.
pub open spec fn selected_article_url(s: AppCore) -> Option<Seq<char>> {
    match s.articles_selected {
        Some(i) => if i < s.articles@.len() {
            s.articles@[i as int]@.url
        } else {
            None
        },
        None => None,
    }
}

impl AppCore {
    /// Move the feeds cursor circularly and load articles for the new row.
    fn move_feed_selection(&mut self, down: bool, count: usize) -> (effects: Vec<Effect>)
        requires
            wf(*old(self)),
        ensures
            wf(*final(self)),
            feed_move_applied(*old(self), *final(self), effects@, down, count as int),
    {
        if self.feed_list_items.len() == 0 {
            return Vec::new();
        }
        let current = match self.feeds_selected {
            Some(i) => i,
            None => 0,
        };
        let len = self.feed_list_items.len();
        let off = count % len;
        let new_idx = if down {
            if current < len - off {
                current + off
            } else {
                current - (len - off)
            }
        } else {
            if off <= current {
                current - off
            } else {
                len - (off - current)
            }
        };
        proof {
            assert(new_idx as int == wrap_index(current as int, len as int, down, count as int));
            assert(new_idx < len);
        }
        self.feeds_selected = Some(new_idx);
        let mut effects: Vec<Effect> = Vec::new();
        match self.load_current_selection_effect() {
            Some(e) => {
                effects.push(e);
            },
            None => {},
        }
        effects
    }

    /// Move the articles cursor circularly; a change of row marks an unread
    /// row read and re-renders.
    fn move_article_selection(&mut self, down: bool, count: usize) -> (effects: Vec<Effect>)
        requires
            wf(*old(self)),
        ensures
            wf(*final(self)),
            article_move_applied(*old(self), *final(self), effects@, down, count as int),
    {
        if self.articles.len() == 0 {
            return Vec::new();
        }
        let current = match self.articles_selected {
            Some(i) => i,
            None => 0,
        };
        let len = self.articles.len();
        let off = count % len;
        let new_idx = if down {
            if current < len - off {
                current + off
            } else {
                current - (len - off)
            }
        } else {
            if off <= current {
                current - off
            } else {
                len - (off - current)
            }
        };
        proof {
            assert(new_idx as int == wrap_index(current as int, len as int, down, count as int));
            assert(new_idx < len);
        }
        let changed = new_idx != current;
        self.articles_selected = Some(new_idx);
        let id = self.articles[new_idx].id;
        self.selected_article_id = Some(id);
        let mut effects: Vec<Effect> = Vec::new();
        if changed && !self.articles[new_idx].is_read {
            effects.push(Effect::ToggleRead(id));
        }
        effects.push(Effect::RenderCurrentArticle);
        effects
    }

    /// Toggle one group's collapsed state and rebuild the display list.
    fn toggle_collapse(&mut self, path: &str)
        requires
            wf(*old(self)),
        ensures
            wf(*final(self)),
            collapse_toggled(*old(self), *final(self), path@),
    {
        let present = crate::flatten::is_collapsed_in(&self.collapsed_groups, path);
        if present {
            let mut out: Vec<String> = Vec::new();
            let mut i: usize = 0;
            proof {
                assert(forall|q: Seq<char>|
                    !path_in(out.deep_view(), q));
            }
            while i < self.collapsed_groups.len()
                invariant
                    i <= self.collapsed_groups@.len(),
                    forall|q: Seq<char>| #[trigger] path_in(out.deep_view(), q) <==> (path_in(
                        self.collapsed_groups.deep_view().take(i as int),
                        q,
                    ) && q != path@),
                    *self == *old(self),
                decreases self.collapsed_groups@.len() - i,
            {
                let ghost pre = out.deep_view();
                proof {
                    assert(self.collapsed_groups.deep_view()[i as int]
                        == self.collapsed_groups@[i as int]@);
                }
                if !crate::paths::str_eq(self.collapsed_groups[i].as_str(), path) {
                    let c = self.collapsed_groups[i].clone();
                    let ghost cg = c;
                    out.push(c);
                    proof {
                        assert(out.deep_view() =~= pre.push(cg@));
                    }
                }
                proof {
                    lemma_path_in_take_step(
                        self.collapsed_groups.deep_view(),
                        out.deep_view(),
                        pre,
                        path@,
                        i as int,
                    );
                }
                i = i + 1;
            }
            proof {
                assert(self.collapsed_groups.deep_view().take(
                    self.collapsed_groups@.len() as int,
                ) =~= self.collapsed_groups.deep_view());
            }
            self.collapsed_groups = out;
        } else {
            let ghost pre = self.collapsed_groups.deep_view();
            self.collapsed_groups.push(path.to_owned());
            proof {
                assert(self.collapsed_groups.deep_view() =~= pre.push(path@));
                assert forall|q: Seq<char>| #[trigger] path_in(
                    self.collapsed_groups.deep_view(),
                    q,
                ) <==> (path_in(pre, q) != (q == path@)) by {
                    let cs = self.collapsed_groups.deep_view();
                    if path_in(pre, q) {
                        let k = choose|k: int| 0 <= k < pre.len() && pre[k] == q;
                        assert(cs[k] == q);
                    }
                    if q == path@ {
                        assert(cs[pre.len() as int] == q);
                    }
                    if path_in(cs, q) {
                        let k = choose|k: int| 0 <= k < cs.len() && cs[k] == q;
                        if k < pre.len() {
                            assert(pre[k] == q);
                        }
                    }
                }
            }
        }
        self.rebuild_feed_list();
    }
}

proof fn lemma_path_in_take_step(
    src: Seq<Seq<char>>,
    now: Seq<Seq<char>>,
    pre: Seq<Seq<char>>,
    path: Seq<char>,
    i: int,
)
    requires
        0 <= i < src.len(),
        forall|q: Seq<char>| #[trigger] path_in(pre, q) <==> (path_in(src.take(i), q) && q
            != path),
        src[i] == path ==> now == pre,
        src[i] != path ==> now == pre.push(src[i]),
    ensures
        forall|q: Seq<char>| #[trigger] path_in(now, q) <==> (path_in(src.take(i + 1), q) && q
            != path),
{
    assert(src.take(i + 1)[i] == src[i]);
    assert forall|q: Seq<char>| #[trigger] path_in(now, q) implies (path_in(src.take(i + 1), q)
        && q != path) by {
        let k = choose|k: int| 0 <= k < now.len() && #[trigger] now[k] == q;
        if k < pre.len() {
            assert(pre[k] == q);
            assert(path_in(pre, q));
            let m = choose|m: int| 0 <= m < src.take(i).len() && #[trigger] src.take(i)[m] == q;
            assert(src.take(i + 1)[m] == q);
            assert(path_in(src.take(i + 1), q));
        } else {
            assert(q == src[i]);
            assert(path_in(src.take(i + 1), q));
        }
    }
    assert forall|q: Seq<char>| (path_in(src.take(i + 1), q) && q != path) implies #[trigger]
        path_in(now, q) by {
        let m = choose|m: int| 0 <= m < src.take(i + 1).len() && #[trigger] src.take(i + 1)[m]
            == q;
        if m < i {
            assert(src.take(i)[m] == q);
            assert(path_in(src.take(i), q));
            assert(path_in(pre, q));
            let k = choose|k: int| 0 <= k < pre.len() && #[trigger] pre[k] == q;
            if src[i] != path {
                assert(now[k] == q);
            } else {
                assert(now[k] == q);
            }
        } else {
            assert(q == src[i]);
            assert(src[i] != path);
            assert(now[pre.len() as int] == q);
        }
    }
}

/// The canonical path of the group the current selection belongs to:
/// nothing on "All" or a standalone feed, the group's own path on a header,
/// the containing group's path on a grouped feed.
pub open spec fn selected_group_path_spec(s: AppCore) -> Option<Seq<char>> {
    match s.feeds_selected {
        Some(i) => if i < s.feed_list_items@.len() {
            match s.feed_list_items@[i as int] {
                FeedListItem::All { .. } => None,
                FeedListItem::GroupHeader { full_path, .. } => Some(full_path@),
                FeedListItem::Feed { feed, .. } => if feed.group_title@.len() == 0 {
                    None
                } else {
                    Some(feed.group_title@)
                },
            }
        } else {
            None
        },
        None => None,
    }
}

/// The ids of the feeds in this group — direct members only, or with every
/// nested group's feeds too.
pub open spec fn group_feed_ids(
    fs: Seq<crate::records::FeedV>,
    path: Seq<char>,
    recursive: bool,
) -> Seq<i64>
    decreases fs,
{
    if fs.len() == 0 {
        Seq::empty()
    } else {
        (if fs[0].group_title == path || (recursive && is_strict_subpath(fs[0].group_title, path)) {
            seq![fs[0].id]
        } else {
            Seq::empty()
        }) + group_feed_ids(fs.skip(1), path, recursive)
    }
}

/// `sub` lies strictly below `path`: it extends it by a separator.
pub open spec fn is_strict_subpath(sub: Seq<char>, path: Seq<char>) -> bool {
    sub.len() > path.len() + 3 - 1 && sub.take(path.len() as int + 3) == path + seq![
        ' ',
        '>',
        ' ',
    ]
}

impl AppCore {
    /// Expand every group.
    pub fn expand_all_groups(&mut self)
        requires
            wf(*old(self)),
        ensures
            wf(*final(self)),
            all_expanded(*old(self), *final(self)),
    {
        self.collapsed_groups = Vec::new();
        self.rebuild_feed_list();
    }

    /// Collapse every group: the collapse set becomes the group paths of the
    /// cached feeds.
    pub fn collapse_all_groups(&mut self)
        requires
            wf(*old(self)),
        ensures
            wf(*final(self)),
            all_collapsed_set(*old(self), *final(self)),
    {
        let mut all: Vec<String> = Vec::new();
        let mut i: usize = 0;
        while i < self.feeds.len()
            invariant
                i <= self.feeds@.len(),
                *self == *old(self),
                forall|q: Seq<char>| #[trigger] path_in(all.deep_view(), q) <==> (exists|k: int|
                    0 <= k < i && (#[trigger] self.feeds@[k])@.group_title == q),
            decreases self.feeds@.len() - i,
        {
            let ghost pre = all.deep_view();
            if !crate::flatten::is_collapsed_in(&all, self.feeds[i].group_title.as_str()) {
                let c = self.feeds[i].group_title.clone();
                let ghost cg = c;
                all.push(c);
                proof {
                    assert(all.deep_view() =~= pre.push(cg@));
                }
            }
            proof {
                let ghost now = all.deep_view();
                assert forall|q: Seq<char>| #[trigger] path_in(now, q) <==> (exists|k: int|
                    0 <= k < i + 1 && (#[trigger] self.feeds@[k])@.group_title == q) by {
                    if path_in(now, q) {
                        let k = choose|k: int| 0 <= k < now.len() && #[trigger] now[k] == q;
                        if k < pre.len() {
                            assert(pre[k] == q);
                            assert(path_in(pre, q));
                        } else {
                            assert(q == self.feeds@[i as int]@.group_title);
                        }
                    }
                    if exists|k: int| 0 <= k < i + 1 && (#[trigger] self.feeds@[k])@.group_title
                        == q {
                        let k = choose|k: int|
                            0 <= k < i + 1 && (#[trigger] self.feeds@[k])@.group_title == q;
                        if k < i {
                            assert(path_in(pre, q));
                            let m = choose|m: int| 0 <= m < pre.len() && #[trigger] pre[m] == q;
                            assert(now[m] == q);
                        } else {
                            if path_in(pre, q) {
                                let m = choose|m: int|
                                    0 <= m < pre.len() && #[trigger] pre[m] == q;
                                assert(now[m] == q);
                            } else {
                                assert(now[pre.len() as int] == q);
                            }
                        }
                    }
                }
            }
            i = i + 1;
        }
        self.collapsed_groups = all;
        self.rebuild_feed_list();
    }

    /// Expand everything when anything is collapsed; collapse everything
    /// when nothing is.
    pub fn toggle_all_groups(&mut self)
        requires
            wf(*old(self)),
        ensures
            wf(*final(self)),
            if old(self).collapsed_groups@.len() == 0 {
                all_collapsed_set(*old(self), *final(self))
            } else {
                all_expanded(*old(self), *final(self))
            },
    {
        if self.collapsed_groups.len() == 0 {
            self.collapse_all_groups();
        } else {
            self.expand_all_groups();
        }
    }

    /// The canonical path of the group the current selection belongs to.
    pub fn get_selected_group_path(&self) -> (r: Option<String>)
        ensures
            match r {
                Some(p) => selected_group_path_spec(*self) == Some(p@),
                None => selected_group_path_spec(*self) is None,
            },
    {
        match self.feeds_selected {
            Some(i) => {
                if i < self.feed_list_items.len() {
                    match &self.feed_list_items[i] {
                        FeedListItem::All { .. } => None,
                        FeedListItem::GroupHeader { full_path, .. } => Some(full_path.clone()),
                        FeedListItem::Feed { feed, .. } => {
                            if feed.group_title.as_str().is_empty() {
                                None
                            } else {
                                Some(feed.group_title.clone())
                            }
                        },
                    }
                } else {
                    None
                }
            },
            None => None,
        }
    }

    /// Mark every feed of the selected group read — its direct members, or
    /// with `recursive` every nested group's feeds too.
    fn mark_group_read(&mut self, path: &str, recursive: bool) -> (effects: Vec<Effect>)
        ensures
            group_marked(*old(self), *final(self), effects@, path@, recursive),
    {
        let ghost fsv = feeds_v(self.feeds@);
        let mut nested_prefix = path.to_owned();
        nested_prefix.append(" > ");
        proof {
            reveal_strlit(" > ");
            assert(" > "@ =~= seq![' ', '>', ' ']);
        }
        let mut effects: Vec<Effect> = Vec::new();
        let mut i: usize = 0;
        proof {
            assert(fsv.take(0) =~= Seq::<crate::records::FeedV>::empty());
        }
        while i < self.feeds.len()
            invariant
                i <= self.feeds@.len(),
                *self == *old(self),
                fsv == feeds_v(self.feeds@),
                fsv.len() == self.feeds@.len(),
                nested_prefix@ == path@ + seq![' ', '>', ' '],
                ({
                    let ids = group_feed_ids(fsv.take(i as int), path@, recursive);
                    &&& effects@.len() == ids.len()
                    &&& (forall|k: int| 0 <= k < ids.len() ==> ((#[trigger] effects@[k])
                        matches Effect::MarkAllRead(x) && x == ids[k]))
                }),
            decreases self.feeds@.len() - i,
        {
            proof {
                assert(fsv[i as int] == self.feeds@[i as int]@);
                lemma_group_ids_take(fsv, path@, recursive, i as int);
            }
            let direct = crate::paths::str_eq(self.feeds[i].group_title.as_str(), path);
            let nested = if recursive {
                str_has_prefix(self.feeds[i].group_title.as_str(), nested_prefix.as_str())
            } else {
                false
            };
            proof {
                if recursive {
                    assert(nested == is_strict_subpath(fsv[i as int].group_title, path@));
                }
            }
            if direct || nested {
                effects.push(Effect::MarkAllRead(self.feeds[i].id));
            }
            i = i + 1;
        }
        proof {
            assert(fsv.take(self.feeds@.len() as int) =~= fsv);
        }
        let mut msg = "Marked feeds in '".to_owned();
        msg.append(path);
        msg.append("' as read");
        self.status_message = Some(msg);
        effects
    }
}

proof fn lemma_group_ids_take(
    fs: Seq<crate::records::FeedV>,
    path: Seq<char>,
    recursive: bool,
    i: int,
)
    requires
        0 <= i < fs.len(),
    ensures
        group_feed_ids(fs.take(i + 1), path, recursive) == group_feed_ids(fs.take(i), path, recursive)
            + (if fs[i].group_title == path || (recursive && is_strict_subpath(
            fs[i].group_title,
            path,
        )) {
            seq![fs[i].id]
        } else {
            Seq::<i64>::empty()
        }),
    decreases i,
{
    if i == 0 {
        assert(fs.take(1) =~= seq![fs[0]]);
        assert(fs.take(1).skip(1) =~= Seq::<crate::records::FeedV>::empty());
        assert(fs.take(0) =~= Seq::<crate::records::FeedV>::empty());
        assert(group_feed_ids(fs.take(1), path, recursive) =~= group_feed_ids(
            fs.take(0),
            path,
            recursive,
        ) + (if fs[0].group_title == path || (recursive && is_strict_subpath(
            fs[0].group_title,
            path,
        )) {
            seq![fs[0].id]
        } else {
            Seq::<i64>::empty()
        }));
    } else {
        lemma_group_ids_take(fs.skip(1), path, recursive, i - 1);
        assert(fs.take(i + 1)[0] == fs[0]);
        assert(fs.take(i)[0] == fs[0]);
        assert(fs.take(i + 1).skip(1) =~= fs.skip(1).take(i));
        assert(fs.take(i).skip(1) =~= fs.skip(1).take(i - 1));
        assert(fs.skip(1)[i - 1] == fs[i]);
        assert(group_feed_ids(fs.take(i + 1), path, recursive) =~= group_feed_ids(
            fs.take(i),
            path,
            recursive,
        ) + (if fs[i].group_title == path || (recursive && is_strict_subpath(
            fs[i].group_title,
            path,
        )) {
            seq![fs[i].id]
        } else {
            Seq::<i64>::empty()
        }));
    }
}

/// Does `s` start with `p`?
fn str_has_prefix(s: &str, p: &str) -> (r: bool)
    ensures
        r == (s@.len() >= p@.len() && s@.take(p@.len() as int) == p@),
{
    let slen = s.unicode_len();
    let plen = p.unicode_len();
    if slen < plen {
        return false;
    }
    let mut i: usize = 0;
    while i < plen
        invariant
            slen == s@.len(),
            plen == p@.len(),
            plen <= slen,
            i <= plen,
            forall|j: int| 0 <= j < i ==> s@[j] == p@[j],
        decreases plen - i,
    {
        if s.get_char(i) != p.get_char(i) {
            proof {
                assert(s@.take(p@.len() as int)[i as int] == s@[i as int]);
            }
            return false;
        }
        i = i + 1;
    }
    proof {
        assert(s@.take(p@.len() as int) =~= p@);
    }
    true
}

/// The canonical path of a new child under the current selection's group.
pub open spec fn child_under_selection(s: AppCore, name: Seq<char>) -> Seq<char> {
    match selected_group_path_spec(s) {
        Some(p) => p + seq![' ', '>', ' '] + name,
        None => name,
    }
}

/// The empty-group list matches the configuration.
pub open spec fn empties_match(s: AppCore) -> bool {
    s.empty_groups.deep_view() == crate::config_tree::empty_groups_list(
        crate::config_tree::items_v(s.config.feeds@),
        None,
    )
}


/// The first persistence effect of a structural edit: it saves the feeds
/// section and carries the section as it stood before the edit, for
/// restoration when the save fails.
pub open spec fn saves_with_backup(e: Effect, pre: AppCore) -> bool {
    e matches Effect::SaveFeeds { previous } && crate::config_tree::items_v(previous@)
        == crate::config_tree::items_v(pre.config.feeds@)
}

/// A group created under the selection's group (or at the root): the
/// configuration gains the path, the empty-group list and persistence
/// effects follow, and a status message is set.
pub open spec fn group_created(pre: AppCore, post: AppCore, eff: Seq<Effect>, name: Seq<char>) -> bool {
    &&& crate::config_tree::items_v(post.config.feeds@) == crate::config_edit::ensure_group_listv(
        crate::config_tree::items_v(pre.config.feeds@),
        crate::paths::split_segs(child_under_selection(pre, name)),
        0,
    )
    &&& empties_match(post)
    &&& eff.len() == 2 && saves_with_backup(eff[0], pre) && eff[1] is SyncConfig
    &&& post.status_message is Some
    &&& post == (AppCore {
        config: post.config,
        empty_groups: post.empty_groups,
        status_message: post.status_message,
        ..pre
    })
}

/// A feed created under the selection's group, or standalone at the root.
pub open spec fn feed_created(
    pre: AppCore,
    post: AppCore,
    eff: Seq<Effect>,
    title: Seq<char>,
    url: Seq<char>,
    feed_url: Option<Seq<char>>,
) -> bool {
    let src = crate::config_tree::SourceV { title, url, feed: feed_url };
    &&& (match selected_group_path_spec(pre) {
        Some(p) => crate::config_tree::items_v(post.config.feeds@)
            == crate::config_edit::insert_item_listv(
            crate::config_tree::items_v(pre.config.feeds@),
            crate::paths::split_segs(p),
            0,
            crate::config_tree::ItemV::Standalone(src),
        ),
        None => crate::config_tree::items_v(post.config.feeds@) == crate::config_tree::items_v(
            pre.config.feeds@,
        ).push(crate::config_tree::ItemV::Standalone(src)),
    })
    &&& empties_match(post)
    &&& eff.len() == 2 && saves_with_backup(eff[0], pre) && eff[1] is SyncConfig
    &&& post.status_message is Some
    &&& post == (AppCore {
        config: post.config,
        empty_groups: post.empty_groups,
        status_message: post.status_message,
        ..pre
    })
}

/// The first feed matching the original URL rewritten; nothing persisted
/// when no feed matches.
pub open spec fn feed_edited(
    pre: AppCore,
    post: AppCore,
    eff: Seq<Effect>,
    original_url: Seq<char>,
    new_title: Seq<char>,
    new_url: Seq<char>,
    new_feed_url: Option<Seq<char>>,
) -> bool {
    let nv = crate::config_tree::SourceV { title: new_title, url: new_url, feed: new_feed_url };
    let r = crate::config_edit::update_feed_listv(
        crate::config_tree::items_v(pre.config.feeds@),
        original_url,
        nv,
    );
    &&& crate::config_tree::items_v(post.config.feeds@) == r.0
    &&& (r.1 ==> empties_match(post) && eff.len() == 2 && saves_with_backup(eff[0], pre) && eff[1]
        is SyncConfig)
    &&& (!r.1 ==> eff.len() == 0)
    &&& post.status_message is Some
    &&& post == (AppCore {
        config: post.config,
        empty_groups: post.empty_groups,
        status_message: post.status_message,
        ..pre
    })
}

/// The group at the original path renamed; nothing persisted when no group
/// matches.
pub open spec fn group_edited(
    pre: AppCore,
    post: AppCore,
    eff: Seq<Effect>,
    original_path: Seq<char>,
    new_name: Seq<char>,
) -> bool {
    let r = crate::config_edit::rename_group_listv(
        crate::config_tree::items_v(pre.config.feeds@),
        crate::paths::split_segs(original_path),
        0,
        new_name,
    );
    &&& crate::config_tree::items_v(post.config.feeds@) == r.0
    &&& (r.1 ==> empties_match(post) && eff.len() == 2 && saves_with_backup(eff[0], pre) && eff[1]
        is SyncConfig)
    &&& (!r.1 ==> eff.len() == 0)
    &&& post.status_message is Some
    &&& post == (AppCore {
        config: post.config,
        empty_groups: post.empty_groups,
        status_message: post.status_message,
        ..pre
    })
}

/// The selected feed or group removed from the configuration; the "All" row
/// cannot be deleted, and a vanished key changes nothing.
pub open spec fn selection_deleted(pre: AppCore, post: AppCore, eff: Seq<Effect>) -> bool {
    &&& post.status_message is Some
    &&& (match selected_row_kind(pre) {
        SelKind::None_ => post.config.feeds@ == pre.config.feeds@ && eff.len() == 0,
        SelKind::All => post.config.feeds@ == pre.config.feeds@ && eff.len() == 0,
        SelKind::Group(path) => {
            let r = crate::config_edit::remove_group_listv(
                crate::config_tree::items_v(pre.config.feeds@),
                crate::paths::split_segs(path),
                0,
            );
            &&& crate::config_tree::items_v(post.config.feeds@) == r.0
            &&& (r.1 is Some ==> empties_match(post) && eff.len() == 2 && saves_with_backup(eff[0], pre)
                && eff[1] is SyncConfig)
            &&& (r.1 is None ==> eff.len() == 0)
        },
        SelKind::Feed(url) => {
            let r = crate::config_edit::remove_feed_listv(
                crate::config_tree::items_v(pre.config.feeds@),
                url,
                Seq::empty(),
            );
            &&& crate::config_tree::items_v(post.config.feeds@) == r.0
            &&& (r.1 is Some ==> empties_match(post) && eff.len() == 2 && saves_with_backup(eff[0], pre)
                && eff[1] is SyncConfig)
            &&& (r.1 is None ==> eff.len() == 0)
        },
    })
    &&& post == (AppCore {
        config: post.config,
        empty_groups: post.empty_groups,
        status_message: post.status_message,
        ..pre
    })
}

/// The selected feed or group cut into the clipboard and removed from the
/// configuration.
pub open spec fn selection_cut(pre: AppCore, post: AppCore, eff: Seq<Effect>) -> bool {
    &&& post.status_message is Some
    &&& (match selected_row_kind(pre) {
        SelKind::None_ => post.config.feeds@ == pre.config.feeds@ && eff.len() == 0,
        SelKind::All => post.config.feeds@ == pre.config.feeds@ && eff.len() == 0,
        SelKind::Group(path) => {
            let r = crate::config_edit::remove_group_listv(
                crate::config_tree::items_v(pre.config.feeds@),
                crate::paths::split_segs(path),
                0,
            );
            &&& crate::config_tree::items_v(post.config.feeds@) == r.0
            &&& (r.1 matches Some(gv) ==> (post.clipboard matches Some(
                ClipboardItem::Group { original_path, group },
            ) && original_path@ == path && crate::config_tree::group_v(group) == gv)
                && empties_match(post) && eff.len() == 2 && saves_with_backup(eff[0], pre) && eff[1]
                is SyncConfig)
            &&& (r.1 is None ==> post.clipboard == pre.clipboard && eff.len() == 0)
        },
        SelKind::Feed(url) => {
            let r = crate::config_edit::remove_feed_listv(
                crate::config_tree::items_v(pre.config.feeds@),
                url,
                Seq::empty(),
            );
            &&& crate::config_tree::items_v(post.config.feeds@) == r.0
            &&& (r.1 matches Some(p) ==> (post.clipboard matches Some(
                ClipboardItem::Feed { feed_source, original_group },
            ) && crate::config_tree::source_v(feed_source) == p.1 && (
            match selected_feed_rec(pre) {
                Some(fv) => if fv.group_title.len() == 0 {
                    original_group is None
                } else {
                    original_group matches Some(g) && g@ == fv.group_title
                },
                None => true,
            })) && empties_match(post) && eff.len() == 2 && saves_with_backup(eff[0], pre) && eff[1]
                is SyncConfig)
            &&& (r.1 is None ==> post.clipboard == pre.clipboard && eff.len() == 0)
        },
    })
    &&& post == (AppCore {
        config: post.config,
        empty_groups: post.empty_groups,
        status_message: post.status_message,
        clipboard: post.clipboard,
        ..pre
    })
}

/// The clipboard pasted into the selection's group (or at the root on the
/// "All" row); an empty clipboard or an empty cursor changes nothing.
pub open spec fn clipboard_pasted(pre: AppCore, post: AppCore, eff: Seq<Effect>) -> bool {
    &&& (match pre.clipboard {
        None => {
            &&& post.config.feeds@ == pre.config.feeds@
            &&& eff.len() == 0
            &&& post.clipboard is None
            &&& (post.status_message matches Some(m) && m@
                == "Nothing to paste (clipboard is empty)"@)
        },
        Some(item) => if !has_loadable_selection(pre) {
            &&& post.config.feeds@ == pre.config.feeds@
            &&& eff.len() == 0
            &&& post.clipboard == pre.clipboard
            &&& (post.status_message matches Some(m) && m@ == "No location selected to paste"@)
        } else {
            let target = selected_group_path_spec(pre);
            let pasted = match item {
                ClipboardItem::Feed { feed_source, .. } => crate::config_tree::ItemV::Standalone(
                    crate::config_tree::source_v(feed_source),
                ),
                ClipboardItem::Group { group, .. } => crate::config_tree::ItemV::Group(
                    crate::config_tree::group_v(group),
                ),
            };
            &&& post.clipboard is None
            &&& (match target {
                Some(pp) => crate::config_tree::items_v(post.config.feeds@)
                    == crate::config_edit::insert_item_listv(
                    crate::config_tree::items_v(pre.config.feeds@),
                    crate::paths::split_segs(pp),
                    0,
                    pasted,
                ),
                None => crate::config_tree::items_v(post.config.feeds@)
                    == crate::config_tree::items_v(pre.config.feeds@).push(pasted),
            })
            &&& empties_match(post)
            &&& eff.len() == 2 && saves_with_backup(eff[0], pre) && eff[1] is SyncConfig
            &&& post.status_message is Some
        },
    })
    &&& post == (AppCore {
        config: post.config,
        empty_groups: post.empty_groups,
        status_message: post.status_message,
        clipboard: post.clipboard,
        ..pre
    })
}

impl AppCore {
    /// Recompute the empty-group list from the configuration and return the
    /// persist-and-resynchronize effects that follow every structural edit.
    /// `previous` is the feeds section as it stood before the edit; it rides
    /// in the persistence effect so a failed save can be rolled back.
    fn after_config_edit(
        &mut self,
        previous: Vec<crate::config_tree::FeedConfigItem>,
    ) -> (effects: Vec<Effect>)
        ensures
            empties_match(*final(self)),
            effects@.len() == 2,
            (effects@[0] matches Effect::SaveFeeds { previous: pv } && pv@ == previous@),
            effects@[1] is SyncConfig,
            *final(self) == (AppCore { empty_groups: final(self).empty_groups, ..*old(self) }),
    {
        self.empty_groups = crate::config_tree::collect_empty_groups_from_config(&self.config);
        let mut effects: Vec<Effect> = Vec::new();
        effects.push(Effect::SaveFeeds { previous });
        effects.push(Effect::SyncConfig);
        effects
    }

    /// Create a group named `name` under the current selection's group (or
    /// at the root), creating missing intermediate groups; a no-op on an
    /// existing path.
    pub fn create_group(&mut self, name: &str) -> (effects: Vec<Effect>)
        ensures
            group_created(*old(self), *final(self), effects@, name@),
    {
        let backup = crate::config_edit::clone_items(&self.config.feeds);
        let parent = self.get_selected_group_path();
        let full_path = match parent {
            Some(p) => {
                let mut f = p;
                f.append(" > ");
                proof {
                    reveal_strlit(" > ");
                    assert(" > "@ =~= seq![' ', '>', ' ']);
                }
                f.append(name);
                f
            },
            None => name.to_owned(),
        };
        crate::config_edit::add_group_to_config(&mut self.config.feeds, full_path.as_str());
        let effects = self.after_config_edit(backup);
        let mut msg = "Created group: ".to_owned();
        msg.append(full_path.as_str());
        self.status_message = Some(msg);
        effects
    }

    /// Create a feed under the current selection's group, or standalone at
    /// the root.
    pub fn create_feed(&mut self, title: &str, url: &str, feed_url: Option<String>) -> (effects:
        Vec<Effect>)
        ensures
            feed_created(*old(self), *final(self), effects@, title@, url@, feed_url.deep_view()),
    {
        let backup = crate::config_edit::clone_items(&self.config.feeds);
        let source = FeedSource {
            title: title.to_owned(),
            url: url.to_owned(),
            feed: feed_url,
        };
        let parent = self.get_selected_group_path();
        match parent {
            Some(p) => {
                let components = crate::paths::split_path(p.as_str());
                crate::config_edit::insert_feed_into_group(
                    &mut self.config.feeds,
                    &components,
                    0,
                    source,
                );
            },
            None => {
                let ghost pre = crate::config_tree::items_v(self.config.feeds@);
                let ghost srcg = source;
                let item = FeedConfigItem::Standalone(source);
                let ghost items0 = self.config.feeds@;
                self.config.feeds.push(item);
                proof {
                    crate::config_tree::lemma_items_v_push(
                        items0,
                        FeedConfigItem::Standalone(srcg),
                    );
                }
            },
        }
        let effects = self.after_config_edit(backup);
        let mut msg = "Created feed '".to_owned();
        msg.append(title);
        msg.append("'");
        self.status_message = Some(msg);
        effects
    }

    /// Update the first feed matching `original_url` with the new fields.
    /// When no feed matches, the configuration is left untouched and only a
    /// status message is set.
    pub fn edit_feed(
        &mut self,
        original_url: &str,
        new_title: &str,
        new_url: &str,
        new_feed_url: Option<String>,
    ) -> (effects: Vec<Effect>)
        ensures
            feed_edited(
                *old(self),
                *final(self),
                effects@,
                original_url@,
                new_title@,
                new_url@,
                new_feed_url.deep_view(),
            ),
    {
        let backup = crate::config_edit::clone_items(&self.config.feeds);
        let updated = crate::config_edit::update_feed_in_config(
            &mut self.config.feeds,
            original_url,
            new_title,
            new_url,
            &new_feed_url,
        );
        if !updated {
            let mut msg = "Feed '".to_owned();
            msg.append(original_url);
            msg.append("' not found in config");
            self.status_message = Some(msg);
            return Vec::new();
        }
        let effects = self.after_config_edit(backup);
        let mut msg = "Updated feed '".to_owned();
        msg.append(new_title);
        msg.append("'");
        self.status_message = Some(msg);
        effects
    }

    /// Rename the group at `original_path`.  When no group matches, the
    /// configuration is left untouched and only a status message is set.
    pub fn edit_group(&mut self, original_path: &str, new_name: &str) -> (effects: Vec<Effect>)
        ensures
            group_edited(*old(self), *final(self), effects@, original_path@, new_name@),
    {
        let backup = crate::config_edit::clone_items(&self.config.feeds);
        let updated = crate::config_edit::update_group_in_config(
            &mut self.config.feeds,
            original_path,
            new_name,
        );
        if !updated {
            let mut msg = "Group '".to_owned();
            msg.append(original_path);
            msg.append("' not found in config");
            self.status_message = Some(msg);
            return Vec::new();
        }
        let effects = self.after_config_edit(backup);
        let mut msg = "Updated group to '".to_owned();
        msg.append(new_name);
        msg.append("'");
        self.status_message = Some(msg);
        effects
    }

    /// Delete the selected feed or group from the configuration.  The "All"
    /// row cannot be deleted; a vanished key leaves the configuration
    /// untouched.  An emptied ancestor group stays, as a visible empty
    /// group.
    pub fn delete_selected_item(&mut self) -> (effects: Vec<Effect>)
        ensures
            selection_deleted(*old(self), *final(self), effects@),
    {
        let backup = crate::config_edit::clone_items(&self.config.feeds);
        let kind = self.selected_row_kind_exec();
        match kind {
            SelKindExec::None_ => {
                self.status_message = Some("No item selected to delete".to_owned());
                Vec::new()
            },
            SelKindExec::All => {
                self.status_message = Some("Cannot delete 'All'".to_owned());
                Vec::new()
            },
            SelKindExec::Group(path) => {
                let removed = crate::config_edit::remove_group_recursive(
                    &mut self.config.feeds,
                    path.as_str(),
                );
                if !removed {
                    let mut msg = "Group '".to_owned();
                    msg.append(path.as_str());
                    msg.append("' not found in config");
                    self.status_message = Some(msg);
                    return Vec::new();
                }
                let effects = self.after_config_edit(backup);
                let mut msg = "Deleted group: ".to_owned();
                msg.append(path.as_str());
                self.status_message = Some(msg);
                effects
            },
            SelKindExec::Feed(url) => {
                let removed = crate::config_edit::remove_feed_recursive(
                    &mut self.config.feeds,
                    url.as_str(),
                );
                if !removed {
                    let mut msg = "Feed '".to_owned();
                    msg.append(url.as_str());
                    msg.append("' not found in config");
                    self.status_message = Some(msg);
                    return Vec::new();
                }
                let effects = self.after_config_edit(backup);
                let mut msg = "Deleted feed: ".to_owned();
                msg.append(url.as_str());
                self.status_message = Some(msg);
                effects
            },
        }
    }

    /// What stands under the feeds cursor.
    fn selected_row_kind_exec(&self) -> (r: SelKindExec)
        ensures
            match r {
                SelKindExec::None_ => selected_row_kind(*self) is None_,
                SelKindExec::All => selected_row_kind(*self) is All,
                SelKindExec::Group(p) => selected_row_kind(*self) matches SelKind::Group(q) && q
                    == p@,
                SelKindExec::Feed(u) => selected_row_kind(*self) matches SelKind::Feed(q) && q
                    == u@,
            },
    {
        match self.feeds_selected {
            Some(i) => {
                if i < self.feed_list_items.len() {
                    match &self.feed_list_items[i] {
                        FeedListItem::All { .. } => SelKindExec::All,
                        FeedListItem::GroupHeader { full_path, .. } => SelKindExec::Group(
                            full_path.clone(),
                        ),
                        FeedListItem::Feed { feed, .. } => SelKindExec::Feed(feed.url.clone()),
                    }
                } else {
                    SelKindExec::None_
                }
            },
            None => SelKindExec::None_,
        }
    }
}

/// What stands under the feeds cursor: nothing, the "All" row, a group
/// header (by path), or a feed (by feed URL).
pub enum SelKind {
    None_,
    All,
    Group(Seq<char>),
    Feed(Seq<char>),
}

pub enum SelKindExec {
    None_,
    All,
    Group(String),
    Feed(String),
}

pub open spec fn selected_row_kind(s: AppCore) -> SelKind {
    match s.feeds_selected {
        Some(i) => if i < s.feed_list_items@.len() {
            match s.feed_list_items@[i as int] {
                FeedListItem::All { .. } => SelKind::All,
                FeedListItem::GroupHeader { full_path, .. } => SelKind::Group(full_path@),
                FeedListItem::Feed { feed, .. } => SelKind::Feed(feed.url@),
            }
        } else {
            SelKind::None_
        },
        None => SelKind::None_,
    }
}

/// The feed record under the feeds cursor, if the cursor is on a feed row.
pub open spec fn selected_feed_rec(s: AppCore) -> Option<crate::records::FeedV> {
    match s.feeds_selected {
        Some(i) => if i < s.feed_list_items@.len() {
            match s.feed_list_items@[i as int] {
                FeedListItem::Feed { feed, .. } => Some(feed@),
                _ => None,
            }
        } else {
            None
        },
        None => None,
    }
}

impl AppCore {
    /// Cut the selected feed or group: remove it from the configuration and
    /// keep it in the clipboard slot, persisting at once.  The "All" row
    /// cannot be cut; a vanished key leaves everything unchanged.
    pub fn cut_selected_item(&mut self) -> (effects: Vec<Effect>)
        ensures
            selection_cut(*old(self), *final(self), effects@),
    {
        let backup = crate::config_edit::clone_items(&self.config.feeds);
        let group_of_feed: Option<String> = match self.selected_feed() {
            Some(f) => {
                if f.group_title.as_str().is_empty() {
                    None
                } else {
                    Some(f.group_title.clone())
                }
            },
            None => None,
        };
        let kind = self.selected_row_kind_exec();
        match kind {
            SelKindExec::None_ => {
                self.status_message = Some("No item selected to cut".to_owned());
                Vec::new()
            },
            SelKindExec::All => {
                self.status_message = Some("Cannot cut 'All'".to_owned());
                Vec::new()
            },
            SelKindExec::Group(path) => {
                let components = crate::paths::split_path(path.as_str());
                let mut tmp: Vec<FeedConfigItem> = Vec::new();
                core::mem::swap(&mut self.config.feeds, &mut tmp);
                let (out, removed) = crate::config_edit::remove_and_return_group(
                    tmp,
                    &components,
                    0,
                );
                self.config.feeds = out;
                match removed {
                    Some(group) => {
                        let mut msg = "Cut group: ".to_owned();
                        msg.append(path.as_str());
                        self.clipboard = Some(
                            ClipboardItem::Group { original_path: path, group },
                        );
                        let effects = self.after_config_edit(backup);
                        self.status_message = Some(msg);
                        effects
                    },
                    None => {
                        let mut msg = "Group '".to_owned();
                        msg.append(path.as_str());
                        msg.append("' not found in config");
                        self.status_message = Some(msg);
                        Vec::new()
                    },
                }
            },
            SelKindExec::Feed(url) => {
                let removed = crate::config_edit::remove_and_return_feed(
                    &mut self.config.feeds,
                    url.as_str(),
                );
                match removed {
                    Some(feed_source) => {
                        self.clipboard = Some(
                            ClipboardItem::Feed { feed_source, original_group: group_of_feed },
                        );
                        let effects = self.after_config_edit(backup);
                        self.status_message = Some("Cut feed".to_owned());
                        effects
                    },
                    None => {
                        let mut msg = "Feed '".to_owned();
                        msg.append(url.as_str());
                        msg.append("' not found in config");
                        self.status_message = Some(msg);
                        Vec::new()
                    },
                }
            },
        }
    }

    /// Paste the clipboard into the selection's group (or the root on the
    /// "All" row).  With nothing selected the clipboard is kept; a
    /// successful paste consumes it.
    pub fn paste_clipboard(&mut self) -> (effects: Vec<Effect>)
        ensures
            clipboard_pasted(*old(self), *final(self), effects@),
    {
        let backup = crate::config_edit::clone_items(&self.config.feeds);
        proof {
            reveal_strlit("Nothing to paste (clipboard is empty)");
            reveal_strlit("No location selected to paste");
        }
        let mut taken: Option<ClipboardItem> = None;
        core::mem::swap(&mut self.clipboard, &mut taken);
        let item = match taken {
            Some(it) => it,
            None => {
                self.status_message = Some(
                    "Nothing to paste (clipboard is empty)".to_owned(),
                );
                return Vec::new();
            },
        };
        let has_sel = match self.feeds_selected {
            Some(i) => i < self.feed_list_items.len(),
            None => false,
        };
        if !has_sel {
            self.status_message = Some("No location selected to paste".to_owned());
            self.clipboard = Some(item);
            return Vec::new();
        }
        let target = self.get_selected_group_path();
        let config_item = match item {
            ClipboardItem::Feed { feed_source, .. } => FeedConfigItem::Standalone(feed_source),
            ClipboardItem::Group { group, .. } => FeedConfigItem::Group(group),
        };
        match target {
            Some(p) => {
                crate::config_edit::paste_feed_into_group(
                    &mut self.config.feeds,
                    config_item,
                    p.as_str(),
                );
            },
            None => {
                let ghost items0 = self.config.feeds@;
                let ghost ig = config_item;
                self.config.feeds.push(config_item);
                proof {
                    crate::config_tree::lemma_items_v_push(items0, ig);
                }
            },
        }
        let effects = self.after_config_edit(backup);
        self.status_message = Some("Pasted".to_owned());
        effects
    }
}

impl AppCore {
    /// Feed a typed character to the active popup.
    pub fn handle_popup_char(&mut self, c: char)
        ensures
            old(self).popup is None ==> *final(self) == *old(self),
            *final(self) == (AppCore { popup: final(self).popup, ..*old(self) }),
            final(self).popup is Some <==> old(self).popup is Some,
            old(self).popup matches Some(p) ==> (final(self).popup matches Some(q)
                && crate::popup::char_applied(p@, q@, c)),
    {
        match &mut self.popup {
            Some(p) => {
                p.handle_char(c);
            },
            None => {},
        }
    }

    /// Feed a backspace to the active popup.
    pub fn handle_popup_backspace(&mut self)
        ensures
            old(self).popup is None ==> *final(self) == *old(self),
            *final(self) == (AppCore { popup: final(self).popup, ..*old(self) }),
            final(self).popup is Some <==> old(self).popup is Some,
            old(self).popup matches Some(p) ==> (final(self).popup matches Some(q)
                && crate::popup::backspace_applied(p@, q@)),
    {
        match &mut self.popup {
            Some(p) => {
                p.handle_backspace();
            },
            None => {},
        }
    }

    /// Move the active popup's field cursor forward.
    pub fn handle_popup_tab(&mut self)
        ensures
            old(self).popup is None ==> *final(self) == *old(self),
            *final(self) == (AppCore { popup: final(self).popup, ..*old(self) }),
            final(self).popup is Some <==> old(self).popup is Some,
            old(self).popup matches Some(p) ==> (final(self).popup matches Some(q)
                && crate::popup::tab_applied(p@, q@)),
    {
        match &mut self.popup {
            Some(p) => {
                p.handle_tab();
            },
            None => {},
        }
    }

    /// Move the active popup's field cursor backward.
    pub fn handle_popup_backtab(&mut self)
        ensures
            old(self).popup is None ==> *final(self) == *old(self),
            *final(self) == (AppCore { popup: final(self).popup, ..*old(self) }),
            final(self).popup is Some <==> old(self).popup is Some,
            old(self).popup matches Some(p) ==> (final(self).popup matches Some(q)
                && crate::popup::backtab_applied(p@, q@)),
    {
        match &mut self.popup {
            Some(p) => {
                p.handle_backtab();
            },
            None => {},
        }
    }

    /// Dismiss the active popup.
    pub fn handle_popup_escape(&mut self)
        ensures
            *final(self) == (AppCore { popup: None, ..*old(self) }),
    {
        self.popup = None;
    }

    /// Confirm the active popup: create the group or feed, or apply the
    /// edit, depending on the popup's kind; a blank required field cancels.
    pub fn handle_popup_enter(&mut self) -> (effects: Vec<Effect>)
        ensures
            final(self).popup is None,
            ({
                let n = *final(self);
                let eff = effects@;
                match old(self).popup {
                    None => n == *old(self) && eff.len() == 0,
                    Some(p) => {
                        let o2 = AppCore { popup: None, ..*old(self) };
                        match p@ {
                            crate::popup::PopupV::CreateGroup { input } => if crate::popup::trim_chars(
                                input,
                            ).len() > 0 {
                                group_created(o2, n, eff, input)
                            } else {
                                n == o2 && eff.len() == 0
                            },
                            crate::popup::PopupV::EditGroup { original_path, input } => if crate::popup::trim_chars(
                                input,
                            ).len() > 0 {
                                group_edited(o2, n, eff, original_path, input)
                            } else {
                                n == o2 && eff.len() == 0
                            },
                            crate::popup::PopupV::CreateFeed { title, url, feed_url, .. } => {
                                let t = crate::popup::trim_chars(title);
                                let u = crate::popup::trim_chars(url);
                                let f = crate::popup::trim_chars(feed_url);
                                if t.len() > 0 && u.len() > 0 {
                                    feed_created(
                                        o2,
                                        n,
                                        eff,
                                        t,
                                        u,
                                        if f.len() == 0 {
                                            None
                                        } else {
                                            Some(f)
                                        },
                                    )
                                } else {
                                    n == o2 && eff.len() == 0
                                }
                            },
                            crate::popup::PopupV::EditFeed {
                                original_url,
                                title,
                                url,
                                feed_url,
                                ..
                            } => {
                                let t = crate::popup::trim_chars(title);
                                let u = crate::popup::trim_chars(url);
                                let f = crate::popup::trim_chars(feed_url);
                                if t.len() > 0 && u.len() > 0 {
                                    feed_edited(
                                        o2,
                                        n,
                                        eff,
                                        original_url,
                                        t,
                                        u,
                                        if f.len() == 0 {
                                            None
                                        } else {
                                            Some(f)
                                        },
                                    )
                                } else {
                                    n == o2 && eff.len() == 0
                                }
                            },
                        }
                    },
                }
            }),
    {
        let mut taken: Option<crate::popup::Popup> = None;
        core::mem::swap(&mut self.popup, &mut taken);
        let popup = match taken {
            Some(p) => p,
            None => {
                return Vec::new();
            },
        };
        let is_create_feed = popup.is_create_feed();
        let is_edit_feed = popup.is_edit_feed();
        let is_edit_group = popup.is_edit() && !is_edit_feed;
        let group_path: Option<String> = match popup.original_path() {
            Some(p) => Some(p.to_owned()),
            None => None,
        };
        let ghost pv = popup@;
        let (value1, value2, value3, value4) = popup.confirm();
        proof {
            match pv {
                crate::popup::PopupV::CreateFeed { title, url, feed_url, .. } => {
                    crate::popup::lemma_trim_idempotent(title);
                    crate::popup::lemma_trim_idempotent(url);
                },
                crate::popup::PopupV::EditFeed { title, url, .. } => {
                    crate::popup::lemma_trim_idempotent(title);
                    crate::popup::lemma_trim_idempotent(url);
                },
                _ => {},
            }
        }
        if is_create_feed {
            let t1 = crate::popup::trim_string(value1.as_str());
            let t2 = crate::popup::trim_string(value2.as_str());
            if t1.as_str().unicode_len() > 0 && t2.as_str().unicode_len() > 0 {
                return self.create_feed(value1.as_str(), value2.as_str(), value3);
            }
            Vec::new()
        } else if is_edit_feed {
            let t1 = crate::popup::trim_string(value1.as_str());
            let t2 = crate::popup::trim_string(value2.as_str());
            if t1.as_str().unicode_len() > 0 && t2.as_str().unicode_len() > 0 {
                match value4 {
                    Some(original_url) => {
                        return self.edit_feed(
                            original_url.as_str(),
                            value1.as_str(),
                            value2.as_str(),
                            value3,
                        );
                    },
                    None => {},
                }
            }
            Vec::new()
        } else if is_edit_group {
            let t1 = crate::popup::trim_string(value1.as_str());
            if t1.as_str().unicode_len() > 0 {
                match group_path {
                    Some(original_path) => {
                        return self.edit_group(original_path.as_str(), value1.as_str());
                    },
                    None => {},
                }
            }
            Vec::new()
        } else {
            let t1 = crate::popup::trim_string(value1.as_str());
            if t1.as_str().unicode_len() > 0 {
                return self.create_group(value1.as_str());
            }
            Vec::new()
        }
    }

    /// Apply one user action: the central dispatch of the event loop.
    ///
    /// Clears any transient status message first, then routes the action to
    /// the pane it concerns; navigation keeps the cursors in bounds, every
    /// structural edit goes through the configuration editor, and all I/O
    /// comes back as effects.
    #[verifier::rlimit(100)]
    pub fn update(&mut self, action: Action) -> (effects: Vec<Effect>)
        requires
            wf(*old(self)),
        ensures
            wf(*final(self)),
            ({
                let o = AppCore { status_message: None, ..*old(self) };
                let n = *final(self);
                let eff = effects@;
                match action {
                    Action::Quit => n == (AppCore { should_quit: true, ..o }) && eff.len() == 0,
                    Action::Digit(d) => {
                        let prev = match o.pending_count {
                            Some(c) => c as int,
                            None => 0,
                        };
                        let next = if prev > 9999 {
                            10000int
                        } else {
                            prev * 10 + d as int
                        };
                        &&& n == (AppCore {
                            pending_count: Some(
                                (if next > 9999 {
                                    9999int
                                } else {
                                    next
                                }) as u32,
                            ),
                            ..o
                        })
                        &&& eff.len() == 0
                    },
                    Action::FocusNext => n == (AppCore {
                        active_pane: match o.active_pane {
                            ActivePane::Feeds => ActivePane::Articles,
                            ActivePane::Articles => ActivePane::ArticleView,
                            ActivePane::ArticleView => ActivePane::Feeds,
                        },
                        ..o
                    }) && eff.len() == 0,
                    Action::FocusPrev => n == (AppCore {
                        active_pane: match o.active_pane {
                            ActivePane::Feeds => ActivePane::ArticleView,
                            ActivePane::Articles => ActivePane::Feeds,
                            ActivePane::ArticleView => ActivePane::Articles,
                        },
                        ..o
                    }) && eff.len() == 0,
                    Action::MoveUp => {
                        let o2 = AppCore { pending_count: None, ..o };
                        match o.active_pane {
                            ActivePane::Feeds => feed_move_applied(
                                o2,
                                n,
                                eff,
                                false,
                                count_of(o.pending_count),
                            ),
                            ActivePane::Articles => article_move_applied(
                                o2,
                                n,
                                eff,
                                false,
                                count_of(o.pending_count),
                            ),
                            ActivePane::ArticleView => n == o2 && eff.len() == 0,
                        }
                    },
                    Action::MoveDown => {
                        let o2 = AppCore { pending_count: None, ..o };
                        match o.active_pane {
                            ActivePane::Feeds => feed_move_applied(
                                o2,
                                n,
                                eff,
                                true,
                                count_of(o.pending_count),
                            ),
                            ActivePane::Articles => article_move_applied(
                                o2,
                                n,
                                eff,
                                true,
                                count_of(o.pending_count),
                            ),
                            ActivePane::ArticleView => n == o2 && eff.len() == 0,
                        }
                    },
                    Action::Select => match o.active_pane {
                        ActivePane::Feeds => feed_row_selected(o, n, eff),
                        ActivePane::Articles => article_opened(o, n, eff),
                        ActivePane::ArticleView => n == o && eff.len() == 0,
                    },
                    Action::ToggleCollapse => if o.active_pane is Feeds {
                        match selected_row_kind(o) {
                            SelKind::All => n == o && eff.len() == 1 && eff[0] is MarkAllReadAll,
                            SelKind::Group(path) => group_marked(o, n, eff, path, false),
                            SelKind::Feed(_) => n == o && (match selected_feed_rec(o) {
                                Some(f) => eff.len() == 1 && (eff[0] matches Effect::MarkAllRead(
                                    x,
                                ) && x == f.id),
                                None => eff.len() == 0,
                            }),
                            SelKind::None_ => n == o && eff.len() == 0,
                        }
                    } else {
                        n == o && eff.len() == 0
                    },
                    Action::ToggleCollapseRecursive => if o.active_pane is Feeds {
                        match selected_row_kind(o) {
                            SelKind::All => n == o && eff.len() == 1 && eff[0] is MarkAllReadAll,
                            SelKind::Group(path) => group_marked(o, n, eff, path, true),
                            SelKind::Feed(_) => n == o && (match selected_feed_rec(o) {
                                Some(f) => eff.len() == 1 && (eff[0] matches Effect::MarkAllRead(
                                    x,
                                ) && x == f.id),
                                None => eff.len() == 0,
                            }),
                            SelKind::None_ => n == o && eff.len() == 0,
                        }
                    } else {
                        n == o && eff.len() == 0
                    },
                    Action::ToggleRead => n == o && (match prev_selected_article_id(o) {
                        Some(id) => eff.len() == 1 && (eff[0] matches Effect::ToggleRead(x) && x
                            == id),
                        None => eff.len() == 0,
                    }),
                    Action::ToggleStar => n == o && (match prev_selected_article_id(o) {
                        Some(id) => eff.len() == 1 && (eff[0] matches Effect::ToggleStar(x) && x
                            == id),
                        None => eff.len() == 0,
                    }),
                    Action::MarkAllRead => n == o && (if viewing_all_spec(o) {
                        eff.len() == 1 && eff[0] is MarkAllReadAll
                    } else {
                        match selected_feed_rec(o) {
                            Some(f) => eff.len() == 1 && (eff[0] matches Effect::MarkAllRead(x)
                                && x == f.id),
                            None => eff.len() == 0,
                        }
                    }),
                    Action::OpenInBrowser => n == o && (match selected_article_url(o) {
                        Some(u) => eff.len() == 1 && (eff[0] matches Effect::OpenUrl(s) && s@
                            == u),
                        None => eff.len() == 0,
                    }),
                    Action::ScrollUp => eff.len() == 0 && (match o.active_pane {
                        ActivePane::ArticleView => n == (AppCore {
                            article_scroll: if o.article_scroll > 0 {
                                (o.article_scroll - 1) as u16
                            } else {
                                0u16
                            },
                            ..o
                        }),
                        _ => n == o,
                    }),
                    Action::ScrollDown => eff.len() == 0 && (match o.active_pane {
                        ActivePane::ArticleView => scrolled_down(o, n, 1),
                        _ => n == o,
                    }),
                    Action::ScrollHalfPageUp => match o.active_pane {
                        ActivePane::Feeds => feed_move_applied(o, n, eff, false, 10),
                        ActivePane::Articles => article_move_applied(o, n, eff, false, 10),
                        ActivePane::ArticleView => eff.len() == 0 && n == (AppCore {
                            article_scroll: if o.article_scroll > 10 {
                                (o.article_scroll - 10) as u16
                            } else {
                                0u16
                            },
                            ..o
                        }),
                    },
                    Action::ScrollHalfPageDown => match o.active_pane {
                        ActivePane::Feeds => feed_move_applied(o, n, eff, true, 10),
                        ActivePane::Articles => article_move_applied(o, n, eff, true, 10),
                        ActivePane::ArticleView => eff.len() == 0 && scrolled_down(o, n, 10),
                    },
                    Action::RefreshAll => refresh_started(o, n, eff),
                    Action::RefreshCurrent => if viewing_all_spec(o) {
                        refresh_started(o, n, eff)
                    } else {
                        match selected_feed_rec(o) {
                            Some(f) => {
                                &&& eff.len() == 1
                                &&& (eff[0] matches Effect::RefreshFeeds(v) && feeds_v(v@)
                                    == seq![f])
                                &&& n.pending_refreshes == (if o.pending_refreshes < usize::MAX {
                                    (o.pending_refreshes + 1) as usize
                                } else {
                                    o.pending_refreshes
                                })
                                &&& n == (AppCore {
                                    pending_refreshes: n.pending_refreshes,
                                    is_refreshing: true,
                                    ..o
                                })
                            },
                            None => n == o && eff.len() == 0,
                        }
                    },
                    Action::JumpToTop => match o.active_pane {
                        ActivePane::Feeds => if o.feed_list_items@.len() > 0 {
                            n == (AppCore { feeds_selected: Some(0usize), ..o }) && eff.len() == 1
                                && eff[0] is LoadAllArticles
                        } else {
                            n == o && eff.len() == 0
                        },
                        ActivePane::Articles => articles_jumped(o, n, eff, true),
                        ActivePane::ArticleView => n == (AppCore { article_scroll: 0u16, ..o })
                            && eff.len() == 0,
                    },
                    Action::JumpToBottom => match o.active_pane {
                        ActivePane::Feeds => if o.feed_list_items@.len() > 1 {
                            &&& n == (AppCore {
                                feeds_selected: Some((o.feed_list_items@.len() - 1) as usize),
                                ..o
                            })
                            &&& eff.len() == 1 && loads_current_selection(n, eff[0])
                        } else {
                            n == o && eff.len() == 0
                        },
                        ActivePane::Articles => articles_jumped(o, n, eff, false),
                        ActivePane::ArticleView => eff.len() == 0 && n == (AppCore {
                            article_scroll: if o.article_content_lines > 0 {
                                (o.article_content_lines - 1) as u16
                            } else {
                                0u16
                            },
                            ..o
                        }),
                    },
                    Action::ExpandAllGroups => eff.len() == 0 && (if o.active_pane is Feeds {
                        all_expanded(o, n)
                    } else {
                        n == o
                    }),
                    Action::CollapseAllGroups => eff.len() == 0 && (if o.active_pane is Feeds {
                        all_collapsed_set(o, n)
                    } else {
                        n == o
                    }),
                    Action::ToggleAllGroups => eff.len() == 0 && (if o.active_pane is Feeds {
                        if o.collapsed_groups@.len() == 0 {
                            all_collapsed_set(o, n)
                        } else {
                            all_expanded(o, n)
                        }
                    } else {
                        n == o
                    }),
                    Action::CreateGroup => eff.len() == 0 && n == (AppCore {
                        popup: n.popup,
                        ..o
                    }) && (n.popup matches Some(p) && p@ == (crate::popup::PopupV::CreateGroup {
                        input: Seq::<char>::empty(),
                    })),
                    Action::CreateFeed => eff.len() == 0 && n == (AppCore {
                        popup: n.popup,
                        ..o
                    }) && (n.popup matches Some(p) && p@ == (crate::popup::PopupV::CreateFeed {
                        title: Seq::<char>::empty(),
                        url: Seq::<char>::empty(),
                        feed_url: Seq::<char>::empty(),
                        selected_field: 0usize,
                    })),
                    Action::Delete => if o.active_pane is Feeds {
                        selection_deleted(o, n, eff)
                    } else {
                        n == o && eff.len() == 0
                    },
                    Action::Edit => eff.len() == 0 && (if o.active_pane is Feeds {
                        edit_popup_opened(o, n)
                    } else {
                        n == o
                    }),
                    Action::Cut => if o.active_pane is Feeds {
                        selection_cut(o, n, eff)
                    } else {
                        n == o && eff.len() == 0
                    },
                    Action::Paste => if o.active_pane is Feeds {
                        clipboard_pasted(o, n, eff)
                    } else {
                        n == o && eff.len() == 0
                    },
                }
            }),
    {
        self.status_message = None;
        match action {
            Action::Quit => {
                self.should_quit = true;
                Vec::new()
            },
            Action::Digit(d) => {
                let prev: u32 = match self.pending_count {
                    Some(c) => c,
                    None => 0,
                };
                let next: u32 = if prev > 9999 {
                    10000
                } else {
                    prev * 10 + d as u32
                };
                self.pending_count = Some(
                    if next > 9999 {
                        9999
                    } else {
                        next
                    },
                );
                Vec::new()
            },
            Action::FocusNext => {
                self.active_pane = match self.active_pane {
                    ActivePane::Feeds => ActivePane::Articles,
                    ActivePane::Articles => ActivePane::ArticleView,
                    ActivePane::ArticleView => ActivePane::Feeds,
                };
                Vec::new()
            },
            Action::FocusPrev => {
                self.active_pane = match self.active_pane {
                    ActivePane::Feeds => ActivePane::ArticleView,
                    ActivePane::Articles => ActivePane::Feeds,
                    ActivePane::ArticleView => ActivePane::Articles,
                };
                Vec::new()
            },
            Action::MoveUp => {
                let count = self.take_count();
                match self.active_pane {
                    ActivePane::Feeds => self.move_feed_selection(false, count),
                    ActivePane::Articles => self.move_article_selection(false, count),
                    ActivePane::ArticleView => Vec::new(),
                }
            },
            Action::MoveDown => {
                let count = self.take_count();
                match self.active_pane {
                    ActivePane::Feeds => self.move_feed_selection(true, count),
                    ActivePane::Articles => self.move_article_selection(true, count),
                    ActivePane::ArticleView => Vec::new(),
                }
            },
            Action::Select => {
                match self.active_pane {
                    ActivePane::Feeds => self.select_feed_item(),
                    ActivePane::Articles => self.select_article(),
                    ActivePane::ArticleView => Vec::new(),
                }
            },
            Action::ToggleCollapse => {
                if let ActivePane::Feeds = self.active_pane {
                    let kind = self.selected_row_kind_exec();
                    match kind {
                        SelKindExec::All => {
                            let mut effects: Vec<Effect> = Vec::new();
                            effects.push(Effect::MarkAllReadAll);
                            effects
                        },
                        SelKindExec::Group(path) => self.mark_group_read(path.as_str(), false),
                        SelKindExec::Feed(_) => {
                            match self.selected_feed() {
                                Some(f) => {
                                    let id = f.id;
                                    let mut effects: Vec<Effect> = Vec::new();
                                    effects.push(Effect::MarkAllRead(id));
                                    effects
                                },
                                None => Vec::new(),
                            }
                        },
                        SelKindExec::None_ => Vec::new(),
                    }
                } else {
                    Vec::new()
                }
            },
            Action::ToggleCollapseRecursive => {
                if let ActivePane::Feeds = self.active_pane {
                    let kind = self.selected_row_kind_exec();
                    match kind {
                        SelKindExec::All => {
                            let mut effects: Vec<Effect> = Vec::new();
                            effects.push(Effect::MarkAllReadAll);
                            effects
                        },
                        SelKindExec::Group(path) => self.mark_group_read(path.as_str(), true),
                        SelKindExec::Feed(_) => {
                            match self.selected_feed() {
                                Some(f) => {
                                    let id = f.id;
                                    let mut effects: Vec<Effect> = Vec::new();
                                    effects.push(Effect::MarkAllRead(id));
                                    effects
                                },
                                None => Vec::new(),
                            }
                        },
                        SelKindExec::None_ => Vec::new(),
                    }
                } else {
                    Vec::new()
                }
            },
            Action::ToggleRead => {
                match self.selected_article() {
                    Some(a) => {
                        let id = a.id;
                        let mut effects: Vec<Effect> = Vec::new();
                        effects.push(Effect::ToggleRead(id));
                        effects
                    },
                    None => Vec::new(),
                }
            },
            Action::ToggleStar => {
                match self.selected_article() {
                    Some(a) => {
                        let id = a.id;
                        let mut effects: Vec<Effect> = Vec::new();
                        effects.push(Effect::ToggleStar(id));
                        effects
                    },
                    None => Vec::new(),
                }
            },
            Action::MarkAllRead => {
                if self.viewing_all() {
                    let mut effects: Vec<Effect> = Vec::new();
                    effects.push(Effect::MarkAllReadAll);
                    effects
                } else {
                    match self.selected_feed() {
                        Some(f) => {
                            let id = f.id;
                            let mut effects: Vec<Effect> = Vec::new();
                            effects.push(Effect::MarkAllRead(id));
                            effects
                        },
                        None => Vec::new(),
                    }
                }
            },
            Action::OpenInBrowser => {
                let url: Option<String> = match self.selected_article() {
                    Some(a) => match &a.url {
                        Some(u) => Some(u.clone()),
                        None => None,
                    },
                    None => None,
                };
                match url {
                    Some(u) => {
                        let mut effects: Vec<Effect> = Vec::new();
                        effects.push(Effect::OpenUrl(u));
                        effects
                    },
                    None => Vec::new(),
                }
            },
            Action::ScrollUp => {
                if let ActivePane::ArticleView = self.active_pane {
                    if self.article_scroll > 0 {
                        self.article_scroll = self.article_scroll - 1;
                    }
                }
                Vec::new()
            },
            Action::ScrollDown => {
                if let ActivePane::ArticleView = self.active_pane {
                    self.scroll_down_by(1);
                }
                Vec::new()
            },
            Action::ScrollHalfPageUp => {
                match self.active_pane {
                    ActivePane::Feeds => self.move_feed_selection(false, 10),
                    ActivePane::Articles => self.move_article_selection(false, 10),
                    ActivePane::ArticleView => {
                        if self.article_scroll > 10 {
                            self.article_scroll = self.article_scroll - 10;
                        } else {
                            self.article_scroll = 0;
                        }
                        Vec::new()
                    },
                }
            },
            Action::ScrollHalfPageDown => {
                match self.active_pane {
                    ActivePane::Feeds => self.move_feed_selection(true, 10),
                    ActivePane::Articles => self.move_article_selection(true, 10),
                    ActivePane::ArticleView => {
                        self.scroll_down_by(10);
                        Vec::new()
                    },
                }
            },
            Action::RefreshAll => self.start_refresh_all(),
            Action::RefreshCurrent => {
                if self.viewing_all() {
                    self.start_refresh_all()
                } else {
                    let one: Option<Feed> = match self.selected_feed() {
                        Some(f) => Some(f.clone()),
                        None => None,
                    };
                    match one {
                        Some(f) => {
                            if self.pending_refreshes < usize::MAX {
                                self.pending_refreshes = self.pending_refreshes + 1;
                            }
                            self.is_refreshing = true;
                            let mut v: Vec<Feed> = Vec::new();
                            v.push(f);
                            let mut effects: Vec<Effect> = Vec::new();
                            effects.push(Effect::RefreshFeeds(v));
                            effects
                        },
                        None => Vec::new(),
                    }
                }
            },
            Action::JumpToTop => {
                match self.active_pane {
                    ActivePane::Feeds => {
                        if self.feed_list_items.len() > 0 {
                            self.feeds_selected = Some(0);
                            let mut effects: Vec<Effect> = Vec::new();
                            effects.push(Effect::LoadAllArticles);
                            effects
                        } else {
                            Vec::new()
                        }
                    },
                    ActivePane::Articles => self.jump_articles(true),
                    ActivePane::ArticleView => {
                        self.article_scroll = 0;
                        Vec::new()
                    },
                }
            },
            Action::JumpToBottom => {
                match self.active_pane {
                    ActivePane::Feeds => {
                        if self.feed_list_items.len() > 1 {
                            let last = self.feed_list_items.len() - 1;
                            self.feeds_selected = Some(last);
                            let mut effects: Vec<Effect> = Vec::new();
                            match self.load_current_selection_effect() {
                                Some(e) => {
                                    effects.push(e);
                                },
                                None => {},
                            }
                            effects
                        } else {
                            Vec::new()
                        }
                    },
                    ActivePane::Articles => self.jump_articles(false),
                    ActivePane::ArticleView => {
                        self.article_scroll = if self.article_content_lines > 0 {
                            self.article_content_lines - 1
                        } else {
                            0
                        };
                        Vec::new()
                    },
                }
            },
            Action::ExpandAllGroups => {
                if let ActivePane::Feeds = self.active_pane {
                    self.expand_all_groups();
                }
                Vec::new()
            },
            Action::CollapseAllGroups => {
                if let ActivePane::Feeds = self.active_pane {
                    self.collapse_all_groups();
                }
                Vec::new()
            },
            Action::ToggleAllGroups => {
                if let ActivePane::Feeds = self.active_pane {
                    self.toggle_all_groups();
                }
                Vec::new()
            },
            Action::CreateGroup => {
                self.popup = Some(crate::popup::Popup::create_group());
                Vec::new()
            },
            Action::CreateFeed => {
                self.popup = Some(crate::popup::Popup::create_feed());
                Vec::new()
            },
            Action::Delete => {
                if let ActivePane::Feeds = self.active_pane {
                    self.delete_selected_item()
                } else {
                    Vec::new()
                }
            },
            Action::Edit => {
                if let ActivePane::Feeds = self.active_pane {
                    self.open_edit_popup();
                }
                Vec::new()
            },
            Action::Cut => {
                if let ActivePane::Feeds = self.active_pane {
                    self.cut_selected_item()
                } else {
                    Vec::new()
                }
            },
            Action::Paste => {
                if let ActivePane::Feeds = self.active_pane {
                    self.paste_clipboard()
                } else {
                    Vec::new()
                }
            },
        }
    }

    /// Consume the pending count prefix, with one step as the default.
    fn take_count(&mut self) -> (r: usize)
        ensures
            final(self).pending_count is None,
            r == (match old(self).pending_count {
                Some(c) => if c == 0 {
                    1int
                } else {
                    c as int
                },
                None => 1int,
            }),
            *final(self) == (AppCore { pending_count: None, ..*old(self) }),
    {
        let c = match self.pending_count {
            Some(c) => {
                if c == 0 {
                    1
                } else {
                    c as usize
                }
            },
            None => 1,
        };
        self.pending_count = None;
        c
    }

    /// Scroll the article view down, stopping at the last line.
    fn scroll_down_by(&mut self, n: u16)
        ensures
            scrolled_down(*old(self), *final(self), n),
    {
        let max = if self.article_content_lines > 0 {
            self.article_content_lines - 1
        } else {
            0
        };
        let room = max - if self.article_scroll > max {
            max
        } else {
            self.article_scroll
        };
        if self.article_scroll > max {
            self.article_scroll = max;
        } else if n > room {
            self.article_scroll = max;
        } else {
            self.article_scroll = self.article_scroll + n;
        }
    }

    /// Jump the articles cursor to the first or last row, marking an unread
    /// landing row read and re-rendering.
    fn jump_articles(&mut self, top: bool) -> (effects: Vec<Effect>)
        requires
            wf(*old(self)),
        ensures
            wf(*final(self)),
            articles_jumped(*old(self), *final(self), effects@, top),
    {
        if self.articles.len() == 0 {
            return Vec::new();
        }
        let current = match self.articles_selected {
            Some(i) => i,
            None => 0,
        };
        let target = if top {
            0
        } else {
            self.articles.len() - 1
        };
        let mut effects: Vec<Effect> = Vec::new();
        if current != target {
            self.articles_selected = Some(target);
            let id = self.articles[target].id;
            self.selected_article_id = Some(id);
            if !self.articles[target].is_read {
                effects.push(Effect::ToggleRead(id));
            }
        } else {
            self.articles_selected = Some(target);
        }
        effects.push(Effect::RenderCurrentArticle);
        effects
    }

    /// Enter on the feeds pane: a group header toggles its collapse, any
    /// other row moves focus to the articles pane.
    fn select_feed_item(&mut self) -> (effects: Vec<Effect>)
        requires
            wf(*old(self)),
        ensures
            wf(*final(self)),
            feed_row_selected(*old(self), *final(self), effects@),
    {
        let kind = self.selected_row_kind_exec();
        match kind {
            SelKindExec::Group(path) => {
                self.toggle_collapse(path.as_str());
                Vec::new()
            },
            SelKindExec::All => {
                self.active_pane = ActivePane::Articles;
                Vec::new()
            },
            SelKindExec::Feed(_) => {
                self.active_pane = ActivePane::Articles;
                Vec::new()
            },
            SelKindExec::None_ => Vec::new(),
        }
    }

    /// Enter on the articles pane: mark the row read when unread and move
    /// focus to the article view.
    fn select_article(&mut self) -> (effects: Vec<Effect>)
        ensures
            article_opened(*old(self), *final(self), effects@),
    {
        match self.articles_selected {
            Some(i) => {
                if i < self.articles.len() {
                    let mut effects: Vec<Effect> = Vec::new();
                    if !self.articles[i].is_read {
                        effects.push(Effect::ToggleRead(self.articles[i].id));
                    }
                    self.active_pane = ActivePane::ArticleView;
                    effects
                } else {
                    Vec::new()
                }
            },
            None => Vec::new(),
        }
    }

    /// Open the edit popup for the selected feed or group; "All" cannot be
    /// edited.
    fn open_edit_popup(&mut self)
        ensures
            edit_popup_opened(*old(self), *final(self)),
    {
        match self.feeds_selected {
            Some(i) => {
                if i < self.feed_list_items.len() {
                    match &self.feed_list_items[i] {
                        FeedListItem::All { .. } => {
                            self.status_message = Some("Cannot edit 'All'".to_owned());
                        },
                        FeedListItem::Feed { feed, .. } => {
                            let site = match &feed.site_url {
                                Some(u) => u.clone(),
                                None => String::new(),
                            };
                            self.popup = Some(
                                crate::popup::Popup::edit_feed(
                                    feed.url.clone(),
                                    feed.title.clone(),
                                    site,
                                    Some(feed.url.clone()),
                                ),
                            );
                        },
                        FeedListItem::GroupHeader { full_path, title, .. } => {
                            self.popup = Some(
                                crate::popup::Popup::edit_group(
                                    full_path.clone(),
                                    title.clone(),
                                ),
                            );
                        },
                    }
                } else {
                    self.status_message = Some("No item selected to edit".to_owned());
                }
            },
            None => {
                self.status_message = Some("No item selected to edit".to_owned());
            },
        }
    }
}

/// There is a row under the feeds cursor to load articles for.
pub open spec fn has_loadable_selection(s: AppCore) -> bool {
    s.feeds_selected matches Some(i) && i < s.feed_list_items@.len()
}

/// The number of text lines, as the display counts them: newline-separated,
/// a trailing newline closing the last line; capped at the display counter's
/// range.
pub open spec fn clamped_line_count(s: Seq<char>) -> u16 {
    let n = line_count(s);
    if n > u16::MAX {
        u16::MAX
    } else {
        n as u16
    }
}

pub open spec fn line_count(s: Seq<char>) -> int {
    if s.len() == 0 {
        0
    } else {
        newline_count(s) + if s[s.len() - 1] == '\n' {
            0int
        } else {
            1int
        }
    }
}

pub open spec fn newline_count(s: Seq<char>) -> int
    decreases s,
{
    if s.len() == 0 {
        0
    } else {
        (if s[0] == '\n' {
            1int
        } else {
            0int
        }) + newline_count(s.skip(1))
    }
}

/// The scroll offset clamped to the last line.
pub open spec fn clamp_scroll(scroll: u16, lines: u16) -> u16 {
    if scroll == 0 {
        scroll
    } else {
        let max = if lines > 0 {
            (lines - 1) as u16
        } else {
            0u16
        };
        if scroll >= max {
            max
        } else {
            scroll
        }
    }
}

/// Count display lines: newline-separated, a trailing newline closing the
/// last line; capped at the display counter's range.
fn count_lines(s: &str) -> (r: u16)
    ensures
        r == clamped_line_count(s@),
{
    let len = s.unicode_len();
    if len == 0 {
        return 0;
    }
    let mut count: u64 = 0;
    let mut i: usize = 0;
    proof {
        lemma_newline_count_nonneg(s@);
        assert(s@.skip(0) =~= s@);
    }
    while i < len
        invariant
            len == s@.len(),
            i <= len,
            count == newline_count(s@) - newline_count(s@.skip(i as int)),
            0 <= count <= i,
        decreases len - i,
    {
        proof {
            assert(s@.skip(i as int)[0] == s@[i as int]);
            assert(s@.skip(i as int).skip(1) =~= s@.skip(i as int + 1));
            lemma_newline_count_nonneg(s@.skip(i as int + 1));
            lemma_newline_count_nonneg(s@.skip(i as int));
            lemma_newline_count_le(s@);
        }
        if s.get_char(i) == '\n' {
            count = count + 1;
        }
        i = i + 1;
    }
    proof {
        assert(s@.skip(len as int).len() == 0);
    }
    if count >= 0xFFFF {
        // At least that many lines: the capped counter saturates.
        return 0xFFFF;
    }
    let total: u64 = if s.get_char(len - 1) == '\n' {
        count
    } else {
        count + 1
    };
    if total > 0xFFFF {
        0xFFFF
    } else {
        proof {
            assert(total == line_count(s@));
        }
        total as u16
    }
}

proof fn lemma_newline_count_nonneg(s: Seq<char>)
    ensures
        0 <= newline_count(s) <= s.len(),
    decreases s,
{
    if s.len() > 0 {
        lemma_newline_count_nonneg(s.skip(1));
    }
}

proof fn lemma_newline_count_le(s: Seq<char>)
    ensures
        forall|i: int| 0 <= i <= s.len() ==> #[trigger] newline_count(s.skip(i)) <= newline_count(
            s,
        ),
    decreases s,
{
    if s.len() > 0 {
        lemma_newline_count_le(s.skip(1));
        assert forall|i: int| 0 <= i <= s.len() implies #[trigger] newline_count(s.skip(i))
            <= newline_count(s) by {
            if i > 0 {
                assert(s.skip(1).skip(i - 1) =~= s.skip(i));
                assert(newline_count(s.skip(1).skip(i - 1)) <= newline_count(s.skip(1)));
            } else {
                assert(s.skip(0) =~= s);
            }
        }
    }
}

/// Clone the cached feed records for a refresh request.
fn clone_feeds(feeds: &Vec<Feed>) -> (r: Vec<Feed>)
    ensures
        feeds_v(r@) == feeds_v(feeds@),
{
    let mut out: Vec<Feed> = Vec::new();
    let mut i: usize = 0;
    proof {
        assert(feeds_v(out@) =~= feeds_v(feeds@).take(0));
    }
    while i < feeds.len()
        invariant
            i <= feeds@.len(),
            feeds_v(feeds@).len() == feeds@.len(),
            feeds_v(out@) == feeds_v(feeds@).take(i as int),
        decreases feeds@.len() - i,
    {
        let f = feeds[i].clone();
        let ghost o0 = out@;
        let ghost fg = f;
        out.push(f);
        proof {
            crate::tree::lemma_feeds_v_push(o0, fg);
            assert(feeds_v(feeds@)[i as int] == feeds@[i as int]@);
            assert(feeds_v(out@) =~= feeds_v(feeds@).take(i as int + 1));
        }
        i = i + 1;
    }
    proof {
        assert(feeds_v(feeds@).take(feeds@.len() as int) =~= feeds_v(feeds@));
    }
    out
}

/// First position of an article with this id (for patching flags in place).
pub proof fn lemma_first_article_pos_found_pub(
    arts: Seq<crate::records::ArticleV>,
    id: i64,
    i: int,
)
    requires
        0 <= i < arts.len(),
        arts[i].id == id,
        forall|k: int| 0 <= k < i ==> arts[k].id != id,
    ensures
        first_article_pos(arts, id) == Some(i),
    decreases i,
{
    if i > 0 {
        assert forall|k: int| 0 <= k < i - 1 implies arts.skip(1)[k].id != id by {
            assert(arts.skip(1)[k] == arts[k + 1]);
        }
        assert(arts.skip(1)[i - 1] == arts[i]);
        lemma_first_article_pos_found_pub(arts.skip(1), id, i - 1);
    }
}

pub proof fn lemma_first_article_pos_none_pub(arts: Seq<crate::records::ArticleV>, id: i64)
    requires
        forall|k: int| 0 <= k < arts.len() ==> arts[k].id != id,
    ensures
        first_article_pos(arts, id) is None,
    decreases arts,
{
    if arts.len() > 0 {
        assert forall|k: int| 0 <= k < arts.skip(1).len() implies arts.skip(1)[k].id != id by {
            assert(arts.skip(1)[k] == arts[k + 1]);
        }
        lemma_first_article_pos_none_pub(arts.skip(1), id);
    }
}

/// The feeds cursor stands on the "All" row.
pub open spec fn viewing_all_spec(s: AppCore) -> bool {
    s.feeds_selected matches Some(i) && i < s.feed_list_items@.len()
        && s.feed_list_items@[i as int] is All
}

/// The feeds cursor stands on the feed with this id.
pub open spec fn viewing_feed_spec(s: AppCore, feed_id: i64) -> bool {
    s.feeds_selected matches Some(i) && i < s.feed_list_items@.len()
        && (s.feed_list_items@[i as int] matches FeedListItem::Feed { feed, .. } && feed.id
        == feed_id)
}

/// The feeds cursor stands on the group header with this canonical path.
pub open spec fn viewing_group_spec(s: AppCore, path: Seq<char>) -> bool {
    s.feeds_selected matches Some(i) && i < s.feed_list_items@.len()
        && (s.feed_list_items@[i as int] matches FeedListItem::GroupHeader { full_path, .. }
        && full_path@ == path)
}

} // verus!
