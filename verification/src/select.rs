//! The selection reconciler.
//!
//! Runs every time the flat display list is rebuilt.  The cursor is restored
//! by identity, never merely by position: the "All" row stays "All", a feed
//! is found again by its id, a group header by its full path; only when the
//! selected item is gone does the cursor fall back to the clamped previous
//! index, or to nothing on an empty list.

use vstd::prelude::*;

use crate::flatten::{rows_v, FeedListItem, RowV};
use crate::records::{Article, ArticleV};
use crate::paths::str_eq;

verus! {

pub open spec fn row_is_feed_id(r: RowV, id: i64) -> bool {
    r matches RowV::Feed { feed, .. } && feed.id == id
}

pub open spec fn row_is_group(r: RowV, path: Seq<char>) -> bool {
    r matches RowV::GroupHeader { full_path, .. } && full_path == path
}

/// Position of the first feed row with this id.
pub open spec fn first_feed_pos(rows: Seq<RowV>, id: i64) -> Option<int>
    decreases rows,
{
    if rows.len() == 0 {
        None
    } else if row_is_feed_id(rows[0], id) {
        Some(0int)
    } else {
        match first_feed_pos(rows.skip(1), id) {
            Some(j) => Some(j + 1),
            None => None,
        }
    }
}

/// Position of the first group header with this full path.
pub open spec fn first_group_pos(rows: Seq<RowV>, path: Seq<char>) -> Option<int>
    decreases rows,
{
    if rows.len() == 0 {
        None
    } else if row_is_group(rows[0], path) {
        Some(0int)
    } else {
        match first_group_pos(rows.skip(1), path) {
            Some(j) => Some(j + 1),
            None => None,
        }
    }
}

/// The cursor after a rebuild: the same "All" row, else the same feed by id,
/// else the same group by path, else the previous index clamped into bounds,
/// else nothing.
pub open spec fn reconcile_spec(
    oldrows: Seq<RowV>,
    old_sel: Option<int>,
    newrows: Seq<RowV>,
) -> Option<int> {
    let prev: Option<RowV> = if old_sel matches Some(i) && 0 <= i < oldrows.len() {
        Some(oldrows[old_sel->0])
    } else {
        None
    };
    if prev matches Some(r) && r is All && newrows.len() > 0 {
        Some(0int)
    } else if prev matches Some(r) && r is Feed && first_feed_pos(newrows, r->Feed_feed.id)
        is Some {
        first_feed_pos(newrows, prev->0->Feed_feed.id)
    } else if prev matches Some(r) && r is GroupHeader && first_group_pos(
        newrows,
        r->GroupHeader_full_path,
    ) is Some {
        first_group_pos(newrows, prev->0->GroupHeader_full_path)
    } else if newrows.len() == 0 {
        None
    } else {
        let base: int = match old_sel {
            Some(i) => i,
            None => 0,
        };
        Some(if base < newrows.len() {
            base
        } else {
            newrows.len() - 1
        })
    }
}

/// First position of a feed row with this id, scanning forward.
fn find_feed_pos(items: &Vec<FeedListItem>, id: i64) -> (r: Option<usize>)
    ensures
        match r {
            Some(j) => first_feed_pos(rows_v(items@), id) == Some(j as int),
            None => first_feed_pos(rows_v(items@), id) is None,
        },
{
    let mut i: usize = 0;
    while i < items.len()
        invariant
            i <= items@.len(),
            rows_v(items@).len() == items@.len(),
            forall|k: int| 0 <= k < i ==> !row_is_feed_id(rows_v(items@)[k], id),
        decreases items@.len() - i,
    {
        let hit = match &items[i] {
            FeedListItem::Feed { feed, .. } => feed.id == id,
            _ => false,
        };
        if hit {
            proof {
                lemma_first_feed_pos_found(rows_v(items@), id, i as int);
            }
            return Some(i);
        }
        i = i + 1;
    }
    proof {
        lemma_first_feed_pos_none(rows_v(items@), id);
    }
    None
}

proof fn lemma_first_feed_pos_found(rows: Seq<RowV>, id: i64, i: int)
    requires
        0 <= i < rows.len(),
        row_is_feed_id(rows[i], id),
        forall|k: int| 0 <= k < i ==> !row_is_feed_id(rows[k], id),
    ensures
        first_feed_pos(rows, id) == Some(i),
    decreases i,
{
    if i > 0 {
        assert forall|k: int| 0 <= k < i - 1 implies !row_is_feed_id(rows.skip(1)[k], id) by {
            assert(rows.skip(1)[k] == rows[k + 1]);
        }
        assert(rows.skip(1)[i - 1] == rows[i]);
        lemma_first_feed_pos_found(rows.skip(1), id, i - 1);
    }
}

proof fn lemma_first_feed_pos_none(rows: Seq<RowV>, id: i64)
    requires
        forall|k: int| 0 <= k < rows.len() ==> !row_is_feed_id(rows[k], id),
    ensures
        first_feed_pos(rows, id) is None,
    decreases rows,
{
    if rows.len() > 0 {
        assert forall|k: int| 0 <= k < rows.skip(1).len() implies !row_is_feed_id(
            rows.skip(1)[k],
            id,
        ) by {
            assert(rows.skip(1)[k] == rows[k + 1]);
        }
        lemma_first_feed_pos_none(rows.skip(1), id);
    }
}

/// First position of a group header with this path, scanning forward.
fn find_group_pos(items: &Vec<FeedListItem>, path: &str) -> (r: Option<usize>)
    ensures
        match r {
            Some(j) => first_group_pos(rows_v(items@), path@) == Some(j as int),
            None => first_group_pos(rows_v(items@), path@) is None,
        },
{
    let mut i: usize = 0;
    while i < items.len()
        invariant
            i <= items@.len(),
            rows_v(items@).len() == items@.len(),
            forall|k: int| 0 <= k < i ==> !row_is_group(rows_v(items@)[k], path@),
        decreases items@.len() - i,
    {
        let hit = match &items[i] {
            FeedListItem::GroupHeader { full_path, .. } => str_eq(full_path.as_str(), path),
            _ => false,
        };
        if hit {
            proof {
                lemma_first_group_pos_found(rows_v(items@), path@, i as int);
            }
            return Some(i);
        }
        i = i + 1;
    }
    proof {
        lemma_first_group_pos_none(rows_v(items@), path@);
    }
    None
}

proof fn lemma_first_group_pos_found(rows: Seq<RowV>, path: Seq<char>, i: int)
    requires
        0 <= i < rows.len(),
        row_is_group(rows[i], path),
        forall|k: int| 0 <= k < i ==> !row_is_group(rows[k], path),
    ensures
        first_group_pos(rows, path) == Some(i),
    decreases i,
{
    if i > 0 {
        assert forall|k: int| 0 <= k < i - 1 implies !row_is_group(rows.skip(1)[k], path) by {
            assert(rows.skip(1)[k] == rows[k + 1]);
        }
        assert(rows.skip(1)[i - 1] == rows[i]);
        lemma_first_group_pos_found(rows.skip(1), path, i - 1);
    }
}

proof fn lemma_first_group_pos_none(rows: Seq<RowV>, path: Seq<char>)
    requires
        forall|k: int| 0 <= k < rows.len() ==> !row_is_group(rows[k], path),
    ensures
        first_group_pos(rows, path) is None,
    decreases rows,
{
    if rows.len() > 0 {
        assert forall|k: int| 0 <= k < rows.skip(1).len() implies !row_is_group(
            rows.skip(1)[k],
            path,
        ) by {
            assert(rows.skip(1)[k] == rows[k + 1]);
        }
        lemma_first_group_pos_none(rows.skip(1), path);
    }
}

/// Recompute the cursor of the feeds pane after a rebuild of the display
/// list.
pub fn reconcile_feed_selection(
    old_items: &Vec<FeedListItem>,
    old_sel: Option<usize>,
    new_items: &Vec<FeedListItem>,
) -> (r: Option<usize>)
    ensures
        match r {
            Some(j) => reconcile_spec(
                rows_v(old_items@),
                match old_sel {
                    Some(i) => Some(i as int),
                    None => None,
                },
                rows_v(new_items@),
            ) == Some(j as int),
            None => reconcile_spec(
                rows_v(old_items@),
                match old_sel {
                    Some(i) => Some(i as int),
                    None => None,
                },
                rows_v(new_items@),
            ) is None,
        },
{
    proof {
        assert(rows_v(old_items@).len() == old_items@.len());
        assert(rows_v(new_items@).len() == new_items@.len());
    }
    let prev_exists = match old_sel {
        Some(i) => i < old_items.len(),
        None => false,
    };
    if prev_exists {
        let i = match old_sel {
            Some(i) => i,
            None => 0,
        };
        match &old_items[i] {
            FeedListItem::All { .. } => {
                if new_items.len() > 0 {
                    return Some(0);
                }
            },
            FeedListItem::Feed { feed, .. } => {
                let found = find_feed_pos(new_items, feed.id);
                if let Some(j) = found {
                    return Some(j);
                }
            },
            FeedListItem::GroupHeader { full_path, .. } => {
                let found = find_group_pos(new_items, full_path.as_str());
                if let Some(j) = found {
                    return Some(j);
                }
            },
        }
    }
    if new_items.len() == 0 {
        return None;
    }
    let base = match old_sel {
        Some(i) => i,
        None => 0,
    };
    if base < new_items.len() {
        Some(base)
    } else {
        Some(new_items.len() - 1)
    }
}

/// Selection stability: when the previously selected feed id is still
/// present after a reload — even at a different position or with changed
/// counts — the recomputed cursor still points at a row with that same id.
pub proof fn lemma_selection_stable(
    oldrows: Seq<RowV>,
    old_sel: int,
    newrows: Seq<RowV>,
    id: i64,
)
    requires
        0 <= old_sel < oldrows.len(),
        row_is_feed_id(oldrows[old_sel], id),
        exists|j: int| 0 <= j < newrows.len() && row_is_feed_id(#[trigger] newrows[j], id),
    ensures
        reconcile_spec(oldrows, Some(old_sel), newrows) matches Some(k) && 0 <= k < newrows.len()
            && row_is_feed_id(newrows[k], id),
{
    lemma_first_feed_pos_some(newrows, id);
}

/// When a matching feed row exists, the first-position scan finds one.
proof fn lemma_first_feed_pos_some(rows: Seq<RowV>, id: i64)
    requires
        exists|j: int| 0 <= j < rows.len() && row_is_feed_id(#[trigger] rows[j], id),
    ensures
        first_feed_pos(rows, id) matches Some(k) && 0 <= k < rows.len() && row_is_feed_id(
            rows[k],
            id,
        ),
    decreases rows,
{
    if !row_is_feed_id(rows[0], id) {
        let j = choose|j: int| 0 <= j < rows.len() && row_is_feed_id(#[trigger] rows[j], id);
        assert(rows.skip(1)[j - 1] == rows[j]);
        lemma_first_feed_pos_some(rows.skip(1), id);
        let k = (first_feed_pos(rows.skip(1), id))->0;
        assert(rows.skip(1)[k] == rows[k + 1]);
    }
}

/// Position of the first article with this id.
pub open spec fn first_article_pos(arts: Seq<ArticleV>, id: i64) -> Option<int>
    decreases arts,
{
    if arts.len() == 0 {
        None
    } else if arts[0].id == id {
        Some(0int)
    } else {
        match first_article_pos(arts.skip(1), id) {
            Some(j) => Some(j + 1),
            None => None,
        }
    }
}

pub open spec fn articles_v(s: Seq<Article>) -> Seq<ArticleV> {
    s.map_values(|a: Article| a@)
}

/// The article cursor after a new batch arrives for the same target: the
/// previously selected article's id when it is still present, else the first
/// article, else nothing.
pub open spec fn reconcile_articles_spec(arts: Seq<ArticleV>, prev_id: Option<i64>) -> Option<
    int,
> {
    if arts.len() == 0 {
        None
    } else if prev_id matches Some(id) && first_article_pos(arts, id) is Some {
        first_article_pos(arts, prev_id->0)
    } else {
        Some(0int)
    }
}

/// Recompute the article cursor after a batch replacement.
pub fn reconcile_article_selection(articles: &Vec<Article>, prev_id: Option<i64>) -> (r: Option<
    usize,
>)
    ensures
        match r {
            Some(j) => reconcile_articles_spec(articles_v(articles@), prev_id) == Some(j as int),
            None => reconcile_articles_spec(articles_v(articles@), prev_id) is None,
        },
{
    proof {
        assert(articles_v(articles@).len() == articles@.len());
    }
    if articles.len() == 0 {
        return None;
    }
    if let Some(id) = prev_id {
        let mut i: usize = 0;
        while i < articles.len()
            invariant
                i <= articles@.len(),
                articles@.len() > 0,
                prev_id == Some(id),
                articles_v(articles@).len() == articles@.len(),
                forall|k: int| 0 <= k < i ==> articles_v(articles@)[k].id != id,
            decreases articles@.len() - i,
        {
            if articles[i].id == id {
                proof {
                    assert(articles_v(articles@)[i as int] == articles@[i as int]@);
                    lemma_first_article_pos_found(articles_v(articles@), id, i as int);
                }
                return Some(i);
            }
            proof {
                assert(articles_v(articles@)[i as int] == articles@[i as int]@);
            }
            i = i + 1;
        }
        proof {
            lemma_first_article_pos_none(articles_v(articles@), id);
        }
    }
    Some(0)
}

proof fn lemma_first_article_pos_found(arts: Seq<ArticleV>, id: i64, i: int)
    requires
        0 <= i < arts.len(),
        arts[i].id == id,
        forall|k: int| 0 <= k < i ==> arts[k].id != id,
    ensures
        first_article_pos(arts, id) == Some(i),
    decreases i,
{
    if i > 0 {
        assert forall|k: int| 0 <= k < i - 1 implies arts.skip(1)[k].id != id by {
            assert(arts.skip(1)[k] == arts[k + 1]);
        }
        assert(arts.skip(1)[i - 1] == arts[i]);
        lemma_first_article_pos_found(arts.skip(1), id, i - 1);
    }
}

proof fn lemma_first_article_pos_none(arts: Seq<ArticleV>, id: i64)
    requires
        forall|k: int| 0 <= k < arts.len() ==> arts[k].id != id,
    ensures
        first_article_pos(arts, id) is None,
    decreases arts,
{
    if arts.len() > 0 {
        assert forall|k: int| 0 <= k < arts.skip(1).len() implies arts.skip(1)[k].id != id by {
            assert(arts.skip(1)[k] == arts[k + 1]);
        }
        lemma_first_article_pos_none(arts.skip(1), id);
    }
}

} // verus!
