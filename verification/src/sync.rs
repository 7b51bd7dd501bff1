//! Reconciling the store's feed rows with the configuration.
//!
//! The engine computes the store state that the configuration calls for:
//! one row per configured feed, keyed by feed URL.  A feed already in the
//! store keeps its identifier and last-fetched time and gets the
//! configuration's metadata; a new feed gets a fresh identifier; a row whose
//! URL is no longer configured disappears.  The boundary layer applies the
//! same reconciliation to the persistent store; rows are kept in the order
//! of the configuration's flattened feed list (reads order rows anyway).

use vstd::prelude::*;

use crate::config_tree::{
    collect_feeds_list, items_v, lemma_collect_feeds_list_take,
    lemma_items_v_index, lemma_items_v_len, pairs_v, Config, FeedSource, SourceV,
};

verus! {

/// A feed row as the store keeps it.
pub struct StoreFeedRow {
    pub id: i64,
    /// Canonical path of the containing group; empty for a standalone feed.
    pub group_title: String,
    pub title: String,
    /// The feed URL: the unique key.
    pub url: String,
    pub site_url: Option<String>,
    /// When the feed was last fetched, as Unix seconds.
    pub last_fetched: Option<i64>,
}

/// Mathematical image of a [`StoreFeedRow`].
#[verifier::ext_equal]
pub struct StoreRowV {
    pub id: i64,
    pub group_title: Seq<char>,
    pub title: Seq<char>,
    pub url: Seq<char>,
    pub site_url: Option<Seq<char>>,
    pub last_fetched: Option<i64>,
}

impl View for StoreFeedRow {
    type V = StoreRowV;

    open spec fn view(&self) -> StoreRowV {
        StoreRowV {
            id: self.id,
            group_title: self.group_title@,
            title: self.title@,
            url: self.url@,
            site_url: self.site_url.deep_view(),
            last_fetched: self.last_fetched,
        }
    }
}

pub open spec fn store_rows_v(s: Seq<StoreFeedRow>) -> Seq<StoreRowV> {
    s.map_values(|r: StoreFeedRow| r@)
}

/// The feed-table state: the rows and the next identifier the store will
/// assign.
pub struct StoreState {
    pub rows: Vec<StoreFeedRow>,
    pub next_id: i64,
}

/// Mathematical image of a [`StoreState`]; the identifier counter is
/// unbounded here.
#[verifier::ext_equal]
pub struct StoreV {
    pub rows: Seq<StoreRowV>,
    pub next_id: int,
}

pub open spec fn store_v(s: StoreState) -> StoreV {
    StoreV { rows: store_rows_v(s.rows@), next_id: s.next_id as int }
}

/// One configured feed, flattened: the group path and the source.
pub type Entry = (Option<Seq<char>>, SourceV);

/// The key of an entry: the feed URL, or the site URL when none is given.
pub open spec fn entry_url(e: Entry) -> Seq<char> {
    match e.1.feed {
        Some(u) => u,
        None => e.1.url,
    }
}

/// The group path of an entry; empty outside every group.
pub open spec fn entry_group(e: Entry) -> Seq<char> {
    match e.0 {
        Some(p) => p,
        None => Seq::empty(),
    }
}

/// Does this row carry exactly this entry's key and metadata?
pub open spec fn row_matches_entry(r: StoreRowV, e: Entry) -> bool {
    &&& r.url == entry_url(e)
    &&& r.group_title == entry_group(e)
    &&& r.title == e.1.title
    &&& r.site_url == Some(e.1.url)
}

/// Position of the first row keyed by this URL.
pub open spec fn first_row_with_url(rows: Seq<StoreRowV>, u: Seq<char>) -> Option<int>
    decreases rows,
{
    if rows.len() == 0 {
        None
    } else if rows[0].url == u {
        Some(0int)
    } else {
        match first_row_with_url(rows.skip(1), u) {
            Some(j) => Some(j + 1),
            None => None,
        }
    }
}

/// Process one entry: a row already produced for this key is updated in
/// place; otherwise a row is appended, keeping the old store's identifier and
/// fetch time when the key was known, with a fresh identifier when not.
pub open spec fn upsert_step(acc: StoreV, old_rows: Seq<StoreRowV>, e: Entry) -> StoreV {
    match first_row_with_url(acc.rows, entry_url(e)) {
        Some(j) => StoreV {
            rows: acc.rows.update(
                j,
                StoreRowV {
                    id: acc.rows[j].id,
                    group_title: entry_group(e),
                    title: e.1.title,
                    url: entry_url(e),
                    site_url: Some(e.1.url),
                    last_fetched: acc.rows[j].last_fetched,
                },
            ),
            next_id: acc.next_id,
        },
        None => match first_row_with_url(old_rows, entry_url(e)) {
            Some(j) => StoreV {
                rows: acc.rows.push(
                    StoreRowV {
                        id: old_rows[j].id,
                        group_title: entry_group(e),
                        title: e.1.title,
                        url: entry_url(e),
                        site_url: Some(e.1.url),
                        last_fetched: old_rows[j].last_fetched,
                    },
                ),
                next_id: acc.next_id,
            },
            None => StoreV {
                rows: acc.rows.push(
                    StoreRowV {
                        id: acc.next_id as i64,
                        group_title: entry_group(e),
                        title: e.1.title,
                        url: entry_url(e),
                        site_url: Some(e.1.url),
                        last_fetched: None,
                    },
                ),
                next_id: acc.next_id + 1,
            },
        },
    }
}

pub open spec fn sync_fold(acc: StoreV, old_rows: Seq<StoreRowV>, es: Seq<Entry>) -> StoreV
    decreases es,
{
    if es.len() == 0 {
        acc
    } else {
        sync_fold(upsert_step(acc, old_rows, es[0]), old_rows, es.skip(1))
    }
}

/// The store state the configuration's flattened feed list calls for.
pub open spec fn sync_spec(st: StoreV, es: Seq<Entry>) -> StoreV {
    sync_fold(StoreV { rows: Seq::empty(), next_id: st.next_id }, st.rows, es)
}

/// No two entries share a feed URL — the configuration treats the feed URL
/// as a unique key.
pub open spec fn distinct_urls(es: Seq<Entry>) -> bool {
    forall|i: int, j: int| 0 <= i < j < es.len() ==> entry_url(es[i]) != entry_url(es[j])
}

proof fn lemma_first_row_none(rows: Seq<StoreRowV>, u: Seq<char>)
    requires
        forall|k: int| 0 <= k < rows.len() ==> (#[trigger] rows[k]).url != u,
    ensures
        first_row_with_url(rows, u) is None,
    decreases rows,
{
    if rows.len() > 0 {
        assert forall|k: int| 0 <= k < rows.skip(1).len() implies (#[trigger] rows.skip(1)[k]).url
            != u by {
            assert(rows.skip(1)[k] == rows[k + 1]);
        }
        lemma_first_row_none(rows.skip(1), u);
    }
}

proof fn lemma_first_row_at(rows: Seq<StoreRowV>, u: Seq<char>, i: int)
    requires
        0 <= i < rows.len(),
        rows[i].url == u,
        forall|k: int| 0 <= k < i ==> (#[trigger] rows[k]).url != u,
    ensures
        first_row_with_url(rows, u) == Some(i),
    decreases i,
{
    if i > 0 {
        assert forall|k: int| 0 <= k < i - 1 implies (#[trigger] rows.skip(1)[k]).url != u by {
            assert(rows.skip(1)[k] == rows[k + 1]);
        }
        assert(rows.skip(1)[i - 1] == rows[i]);
        lemma_first_row_at(rows.skip(1), u, i - 1);
    }
}

/// Synchronizing from an empty accumulator produces one fresh row per entry,
/// carrying that entry's key and metadata, after whatever the accumulator
/// already held.
proof fn lemma_sync_shape(acc: StoreV, old_rows: Seq<StoreRowV>, es: Seq<Entry>)
    requires
        distinct_urls(es),
        forall|j: int, k: int| 0 <= j < acc.rows.len() && 0 <= k < es.len()
            ==> (#[trigger] acc.rows[j]).url != entry_url(#[trigger] es[k]),
    ensures
        ({
            let r = sync_fold(acc, old_rows, es);
            &&& r.rows.len() == acc.rows.len() + es.len()
            &&& forall|j: int| 0 <= j < acc.rows.len() ==> r.rows[j] == acc.rows[j]
            &&& forall|k: int| 0 <= k < es.len() ==> row_matches_entry(
                r.rows[acc.rows.len() + k],
                #[trigger] es[k],
            )
        }),
    decreases es,
{
    if es.len() > 0 {
        let e = es[0];
        assert forall|j: int| 0 <= j < acc.rows.len() implies (#[trigger] acc.rows[j]).url
            != entry_url(e) by {
            assert(entry_url(es[0]) == entry_url(e));
        }
        lemma_first_row_none(acc.rows, entry_url(e));
        let acc2 = upsert_step(acc, old_rows, e);
        assert(acc2.rows.len() == acc.rows.len() + 1);
        assert(row_matches_entry(acc2.rows[acc.rows.len() as int], e));
        assert forall|j: int, k: int|
            0 <= j < acc2.rows.len() && 0 <= k < es.skip(1).len() implies (
        #[trigger] acc2.rows[j]).url != entry_url(#[trigger] es.skip(1)[k]) by {
            assert(es.skip(1)[k] == es[k + 1]);
            if j < acc.rows.len() {
                assert(acc.rows[j].url != entry_url(es[k + 1]));
            } else {
                assert(acc2.rows[j].url == entry_url(es[0]));
                assert(entry_url(es[0]) != entry_url(es[k + 1]));
            }
        }
        assert(distinct_urls(es.skip(1))) by {
            assert forall|i: int, j: int| 0 <= i < j < es.skip(1).len() implies entry_url(
                #[trigger] es.skip(1)[i],
            ) != entry_url(#[trigger] es.skip(1)[j]) by {
                assert(es.skip(1)[i] == es[i + 1]);
                assert(es.skip(1)[j] == es[j + 1]);
            }
        }
        lemma_sync_shape(acc2, old_rows, es.skip(1));
        let r = sync_fold(acc, old_rows, es);
        assert(r == sync_fold(acc2, old_rows, es.skip(1)));
        assert forall|k: int| 0 <= k < es.len() implies row_matches_entry(
            r.rows[acc.rows.len() + k],
            #[trigger] es[k],
        ) by {
            if k == 0 {
                assert(r.rows[acc.rows.len() as int] == acc2.rows[acc.rows.len() as int]);
            } else {
                assert(es.skip(1)[k - 1] == es[k]);
                assert(row_matches_entry(r.rows[acc2.rows.len() + (k - 1)], es.skip(1)[k - 1]));
            }
        }
    }
}

/// Replaying the same entries over an already synchronized store rebuilds
/// exactly the same rows.
proof fn lemma_replay(s1rows: Seq<StoreRowV>, es: Seq<Entry>, n: int, i: int)
    requires
        0 <= i <= es.len(),
        s1rows.len() == es.len(),
        distinct_urls(es),
        forall|k: int| 0 <= k < es.len() ==> row_matches_entry(s1rows[k], #[trigger] es[k]),
    ensures
        sync_fold((StoreV { rows: s1rows.take(i), next_id: n }), s1rows, es.skip(i)) == (StoreV {
            rows: s1rows,
            next_id: n,
        }),
    decreases es.len() - i,
{
    if i == es.len() {
        assert(es.skip(i).len() == 0);
        assert(s1rows.take(i) =~= s1rows);
    } else {
        let e = es.skip(i)[0];
        assert(e == es[i]);
        let u = entry_url(e);
        // No earlier row carries this key.
        assert forall|k: int| 0 <= k < s1rows.take(i).len() implies (
        #[trigger] s1rows.take(i)[k]).url != u by {
            assert(s1rows.take(i)[k] == s1rows[k]);
            assert(row_matches_entry(s1rows[k], es[k]));
            assert(entry_url(es[k]) != entry_url(es[i]));
        }
        lemma_first_row_none(s1rows.take(i), u);
        // The old store's first row with this key is row `i`.
        assert forall|k: int| 0 <= k < i implies (#[trigger] s1rows[k]).url != u by {
            assert(row_matches_entry(s1rows[k], es[k]));
            assert(entry_url(es[k]) != entry_url(es[i]));
        }
        assert(s1rows[i].url == u);
        lemma_first_row_at(s1rows, u, i);
        let acc = StoreV { rows: s1rows.take(i), next_id: n };
        let acc2 = upsert_step(acc, s1rows, e);
        assert(acc2.rows == s1rows.take(i).push(
            StoreRowV {
                id: s1rows[i].id,
                group_title: entry_group(e),
                title: e.1.title,
                url: entry_url(e),
                site_url: Some(e.1.url),
                last_fetched: s1rows[i].last_fetched,
            },
        ));
        assert(acc2.rows[i] =~= s1rows[i]);
        assert(acc2.rows =~= s1rows.take(i + 1));
        assert(acc2.next_id == n);
        lemma_replay(s1rows, es, n, i + 1);
        assert(es.skip(i).skip(1) =~= es.skip(i + 1));
        assert(sync_fold(acc, s1rows, es.skip(i)) == sync_fold(
            StoreV { rows: s1rows.take(i + 1), next_id: n },
            s1rows,
            es.skip(i + 1),
        ));
    }
}

/// Synchronizing twice from the same configuration gives the same store
/// state as synchronizing once: with the feed URLs of the flattened feed
/// list pairwise distinct (they are the configuration's unique keys), the
/// second pass finds every row in place and rewrites it unchanged.
pub proof fn lemma_sync_idempotent(st: StoreV, es: Seq<Entry>)
    requires
        distinct_urls(es),
    ensures
        sync_spec(sync_spec(st, es), es) == sync_spec(st, es),
{
    let empty_acc = StoreV { rows: Seq::empty(), next_id: st.next_id };
    assert(forall|j: int, k: int|
        0 <= j < empty_acc.rows.len() && 0 <= k < es.len() ==> (#[trigger] empty_acc.rows[j]).url
            != entry_url(#[trigger] es[k]));
    lemma_sync_shape(empty_acc, st.rows, es);
    let s1 = sync_spec(st, es);
    assert(s1.rows.len() == es.len());
    assert forall|k: int| 0 <= k < es.len() implies row_matches_entry(
        s1.rows[k],
        #[trigger] es[k],
    ) by {
        assert(row_matches_entry(s1.rows[0 + k], es[k]));
    }
    lemma_replay(s1.rows, es, s1.next_id, 0);
    assert(s1.rows.take(0) =~= Seq::<StoreRowV>::empty());
    assert(es.skip(0) =~= es);
    assert(sync_spec(s1, es) =~= s1);
}

impl StoreFeedRow {
    pub fn clone_row(&self) -> (r: StoreFeedRow)
        ensures
            r@ == self@,
    {
        let r = StoreFeedRow {
            id: self.id,
            group_title: self.group_title.clone(),
            title: self.title.clone(),
            url: self.url.clone(),
            site_url: crate::config_tree::clone_opt_string(&self.site_url),
            last_fetched: self.last_fetched,
        };
        proof {
            assert(r@ =~= self@);
        }
        r
    }
}

/// First row keyed by this URL, scanning forward.
fn find_row_by_url(rows: &Vec<StoreFeedRow>, u: &str) -> (r: Option<usize>)
    ensures
        match r {
            Some(j) => j < rows@.len() && first_row_with_url(store_rows_v(rows@), u@) == Some(
                j as int,
            ),
            None => first_row_with_url(store_rows_v(rows@), u@) is None,
        },
{
    let mut i: usize = 0;
    while i < rows.len()
        invariant
            i <= rows@.len(),
            store_rows_v(rows@).len() == rows@.len(),
            forall|k: int| 0 <= k < i ==> (#[trigger] store_rows_v(rows@)[k]).url != u@,
        decreases rows@.len() - i,
    {
        proof {
            assert(store_rows_v(rows@)[i as int] == rows@[i as int]@);
        }
        if crate::paths::str_eq(rows[i].url.as_str(), u) {
            proof {
                lemma_first_row_at(store_rows_v(rows@), u@, i as int);
            }
            return Some(i);
        }
        i = i + 1;
    }
    proof {
        lemma_first_row_none(store_rows_v(rows@), u@);
    }
    None
}

/// The flattened feed list of the configuration, in document order.
pub fn config_entries(config: &Config) -> (r: Vec<(Option<String>, FeedSource)>)
    ensures
        pairs_v(r@) == collect_feeds_list(items_v(config.feeds@), None),
{
    let mut result: Vec<(Option<String>, FeedSource)> = Vec::new();
    let mut i: usize = 0;
    proof {
        lemma_items_v_len(config.feeds@);
        assert(pairs_v(result@) =~= Seq::<Entry>::empty());
        assert(collect_feeds_list(items_v(config.feeds@).take(0), None) =~= Seq::<Entry>::empty());
    }
    while i < config.feeds.len()
        invariant
            i <= config.feeds@.len(),
            items_v(config.feeds@).len() == config.feeds@.len(),
            pairs_v(result@) == collect_feeds_list(items_v(config.feeds@).take(i as int), None),
        decreases config.feeds@.len() - i,
    {
        let ghost itsv = items_v(config.feeds@);
        config.feeds[i].collect_feeds_recursive(None, &mut result);
        proof {
            lemma_items_v_index(config.feeds@, i as int);
            lemma_collect_feeds_list_take(itsv, None, i as int);
        }
        i = i + 1;
    }
    proof {
        assert(items_v(config.feeds@).take(config.feeds@.len() as int) =~= items_v(config.feeds@));
    }
    result
}

/// The entry key of one flattened configuration feed.
fn entry_url_exec(e: &(Option<String>, FeedSource)) -> (r: String)
    ensures
        r@ == entry_url(pair_of(*e)),
{
    match &e.1.feed {
        Some(u) => u.clone(),
        None => e.1.url.clone(),
    }
}

/// The pair view of one flattened configuration feed.
pub open spec fn pair_of(e: (Option<String>, FeedSource)) -> Entry {
    crate::config_tree::pair_v(e)
}

/// Compute the store state that the configuration calls for.
///
/// New feeds are inserted with fresh identifiers, existing feeds keep their
/// identifier and fetch time and take the configuration's group path, title
/// and site URL, and feeds no longer configured are dropped.
pub fn sync_feeds_from_config(store: &StoreState, config: &Config) -> (r: StoreState)
    requires
        store.next_id as int + collect_feeds_list(items_v(config.feeds@), None).len()
            <= i64::MAX,
    ensures
        store_v(r) == sync_spec(store_v(*store), collect_feeds_list(items_v(config.feeds@), None)),
{
    let entries = config_entries(config);
    let ghost es = collect_feeds_list(items_v(config.feeds@), None);
    proof {
        assert(pairs_v(entries@) == es);
        assert(pairs_v(entries@).len() == entries@.len());
    }
    let mut rows: Vec<StoreFeedRow> = Vec::new();
    let mut next_id: i64 = store.next_id;
    let mut i: usize = 0;
    proof {
        assert(store_rows_v(rows@) =~= Seq::<StoreRowV>::empty());
        assert(StoreV { rows: store_rows_v(rows@), next_id: next_id as int } =~= StoreV {
            rows: Seq::<StoreRowV>::empty(),
            next_id: store.next_id as int,
        });
        assert(es.take(0) =~= Seq::<Entry>::empty());
    }
    while i < entries.len()
        invariant
            i <= entries@.len(),
            es == pairs_v(entries@),
            es.len() == entries@.len(),
            store.next_id as int + es.len() <= i64::MAX,
            store.next_id <= next_id,
            next_id as int <= store.next_id as int + i,
            (StoreV { rows: store_rows_v(rows@), next_id: next_id as int }) == sync_fold(
                (StoreV { rows: Seq::empty(), next_id: store.next_id as int }),
                store_rows_v(store.rows@),
                es.take(i as int),
            ),
        decreases entries@.len() - i,
    {
        let ghost acc = StoreV { rows: store_rows_v(rows@), next_id: next_id as int };
        let ghost e = es[i as int];
        proof {
            assert(pairs_v(entries@)[i as int] == pair_of(entries@[i as int]));
            lemma_sync_fold_take(
                StoreV { rows: Seq::empty(), next_id: store.next_id as int },
                store_rows_v(store.rows@),
                es,
                i as int,
            );
        }
        let url = entry_url_exec(&entries[i]);
        let group = match &entries[i].0 {
            Some(p) => p.clone(),
            None => String::new(),
        };
        let title = entries[i].1.title.clone();
        let site = entries[i].1.url.clone();
        let found_new = find_row_by_url(&rows, url.as_str());
        match found_new {
            Some(j) => {
                let keep_id = rows[j].id;
                let keep_lf = rows[j].last_fetched;
                let ghost rows0 = store_rows_v(rows@);
                let newrow = StoreFeedRow {
                    id: keep_id,
                    group_title: group,
                    title,
                    url,
                    site_url: Some(site),
                    last_fetched: keep_lf,
                };
                let ghost nv = newrow@;
                rows.set(j, newrow);
                proof {
                    assert(store_rows_v(rows@) =~= rows0.update(j as int, nv));
                    assert(store_rows_v(rows@) =~= upsert_step(
                        acc,
                        store_rows_v(store.rows@),
                        e,
                    ).rows);
                }
            },
            None => {
                let found_old = find_row_by_url(&store.rows, url.as_str());
                match found_old {
                    Some(j) => {
                        let ghost rows0 = store_rows_v(rows@);
                        let newrow = StoreFeedRow {
                            id: store.rows[j].id,
                            group_title: group,
                            title,
                            url,
                            site_url: Some(site),
                            last_fetched: store.rows[j].last_fetched,
                        };
                        let ghost nv = newrow@;
                        rows.push(newrow);
                        proof {
                            assert(store_rows_v(store.rows@)[j as int] == store.rows@[j as int]@);
                            assert(store_rows_v(rows@) =~= rows0.push(nv));
                            assert(store_rows_v(rows@) =~= upsert_step(
                                acc,
                                store_rows_v(store.rows@),
                                e,
                            ).rows);
                        }
                    },
                    None => {
                        let ghost rows0 = store_rows_v(rows@);
                        let newrow = StoreFeedRow {
                            id: next_id,
                            group_title: group,
                            title,
                            url,
                            site_url: Some(site),
                            last_fetched: None,
                        };
                        let ghost nv = newrow@;
                        rows.push(newrow);
                        next_id = next_id + 1;
                        proof {
                            assert(store_rows_v(rows@) =~= rows0.push(nv));
                            assert(store_rows_v(rows@) =~= upsert_step(
                                acc,
                                store_rows_v(store.rows@),
                                e,
                            ).rows);
                        }
                    },
                }
            },
        }
        proof {
            assert(StoreV { rows: store_rows_v(rows@), next_id: next_id as int } =~= upsert_step(
                acc,
                store_rows_v(store.rows@),
                e,
            ));
        }
        i = i + 1;
    }
    proof {
        assert(es.take(es.len() as int) =~= es);
    }
    StoreState { rows, next_id }
}

/// `sync_fold` advances one entry at a time over a prefix.
proof fn lemma_sync_fold_take(acc0: StoreV, old_rows: Seq<StoreRowV>, es: Seq<Entry>, i: int)
    requires
        0 <= i < es.len(),
    ensures
        sync_fold(acc0, old_rows, es.take(i + 1)) == upsert_step(
            sync_fold(acc0, old_rows, es.take(i)),
            old_rows,
            es[i],
        ),
    decreases i,
{
    if i == 0 {
        assert(es.take(1) =~= seq![es[0]]);
        assert(es.take(1)[0] == es[0]);
        assert(es.take(1).skip(1) =~= Seq::<Entry>::empty());
        assert(es.take(0) =~= Seq::<Entry>::empty());
        assert(sync_fold(acc0, old_rows, es.take(0)) == acc0);
        let a1 = upsert_step(acc0, old_rows, es[0]);
        assert(sync_fold(acc0, old_rows, es.take(1)) == sync_fold(
            a1,
            old_rows,
            es.take(1).skip(1),
        ));
        assert(sync_fold(a1, old_rows, es.take(1).skip(1)) == a1);
    } else {
        assert(es.take(i + 1)[0] == es[0]);
        assert(es.take(i)[0] == es[0]);
        assert(es.take(i + 1).skip(1) =~= es.skip(1).take(i));
        assert(es.take(i).skip(1) =~= es.skip(1).take(i - 1));
        assert(es.skip(1)[i - 1] == es[i]);
        let a1 = upsert_step(acc0, old_rows, es[0]);
        lemma_sync_fold_take(a1, old_rows, es.skip(1), i - 1);
        assert(sync_fold(acc0, old_rows, es.take(i + 1)) == sync_fold(
            a1,
            old_rows,
            es.skip(1).take(i),
        ));
        assert(sync_fold(acc0, old_rows, es.take(i)) == sync_fold(
            a1,
            old_rows,
            es.skip(1).take(i - 1),
        ));
    }
}

} // verus!
