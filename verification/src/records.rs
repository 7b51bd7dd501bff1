//! Cached copies of the store's feed and article rows.
//!
//! The store owns these records; the engine holds a cached copy per refresh
//! cycle.  Timestamps are carried as Unix seconds so that the engine's logic
//! stays on plain values; the boundary layer converts to and from its own
//! date-time representation.

use vstd::prelude::*;

verus! {

/// Mathematical image of a [`Feed`]: every text field as a character
/// sequence.
#[verifier::ext_equal]
pub struct FeedV {
    pub id: i64,
    pub group_title: Seq<char>,
    pub title: Seq<char>,
    pub url: Seq<char>,
    pub site_url: Option<Seq<char>>,
    pub last_fetched: Option<i64>,
    pub unread_count: u32,
}

/// A feed row, enriched with its unread article count.
#[derive(Debug)]
pub struct Feed {
    /// Opaque identifier assigned by the store.
    pub id: i64,
    /// Canonical path of the containing group; empty for a standalone feed.
    pub group_title: String,
    pub title: String,
    /// Canonical feed URL (unique key).
    pub url: String,
    /// Optional human site URL.
    pub site_url: Option<String>,
    /// When the feed was last fetched, as Unix seconds.
    pub last_fetched: Option<i64>,
    /// Number of unread articles, recomputed by the store on read.
    pub unread_count: u32,
}

impl View for Feed {
    type V = FeedV;

    open spec fn view(&self) -> FeedV {
        FeedV {
            id: self.id,
            group_title: self.group_title@,
            title: self.title@,
            url: self.url@,
            site_url: self.site_url.deep_view(),
            last_fetched: self.last_fetched,
            unread_count: self.unread_count,
        }
    }
}

impl Clone for Feed {
    fn clone(&self) -> (r: Self)
        ensures
            r@ == self@,
    {
        let r = Feed {
            id: self.id,
            group_title: self.group_title.clone(),
            title: self.title.clone(),
            url: self.url.clone(),
            site_url: match &self.site_url {
                Some(u) => Some(u.clone()),
                None => None,
            },
            last_fetched: self.last_fetched,
            unread_count: self.unread_count,
        };
        proof {
            assert(r@ =~= self@);
        }
        r
    }
}

/// Mathematical image of an [`Article`].
#[verifier::ext_equal]
pub struct ArticleV {
    pub id: i64,
    pub feed_id: i64,
    pub guid: Seq<char>,
    pub title: Seq<char>,
    pub url: Option<Seq<char>>,
    pub author: Option<Seq<char>>,
    pub summary: Option<Seq<char>>,
    pub content: Option<Seq<char>>,
    pub published: Option<i64>,
    pub is_read: bool,
    pub is_starred: bool,
}

/// A single article belonging to a feed.
#[derive(Debug)]
pub struct Article {
    /// Opaque identifier assigned by the store.
    pub id: i64,
    /// The owning feed's identifier.
    pub feed_id: i64,
    /// Fetch-provided identifier; unique per (feed id, guid) pair.
    pub guid: String,
    pub title: String,
    pub url: Option<String>,
    pub author: Option<String>,
    pub summary: Option<String>,
    pub content: Option<String>,
    /// Publication time as Unix seconds, when the fetch provided one.
    pub published: Option<i64>,
    pub is_read: bool,
    pub is_starred: bool,
}

impl View for Article {
    type V = ArticleV;

    open spec fn view(&self) -> ArticleV {
        ArticleV {
            id: self.id,
            feed_id: self.feed_id,
            guid: self.guid@,
            title: self.title@,
            url: self.url.deep_view(),
            author: self.author.deep_view(),
            summary: self.summary.deep_view(),
            content: self.content.deep_view(),
            published: self.published,
            is_read: self.is_read,
            is_starred: self.is_starred,
        }
    }
}

impl Clone for Article {
    fn clone(&self) -> (r: Self)
        ensures
            r@ == self@,
    {
        let r = Article {
            id: self.id,
            feed_id: self.feed_id,
            guid: self.guid.clone(),
            title: self.title.clone(),
            url: match &self.url {
                Some(u) => Some(u.clone()),
                None => None,
            },
            author: match &self.author {
                Some(u) => Some(u.clone()),
                None => None,
            },
            summary: match &self.summary {
                Some(u) => Some(u.clone()),
                None => None,
            },
            content: match &self.content {
                Some(u) => Some(u.clone()),
                None => None,
            },
            published: self.published,
            is_read: self.is_read,
            is_starred: self.is_starred,
        };
        proof {
            assert(r@ =~= self@);
        }
        r
    }
}

} // verus!
