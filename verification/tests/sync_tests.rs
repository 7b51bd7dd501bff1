use lazyrss::config_tree::{Config, FeedConfigItem, FeedGroup, FeedSource};
use lazyrss::settings::DisplayConfig;
use lazyrss::sync::{sync_feeds_from_config, StoreState};

fn sample_config() -> Config {
    Config {
        refresh_every: 300,
        refresh_on_start: true,
        display: DisplayConfig::default(),
        feeds: vec![FeedConfigItem::Group(FeedGroup {
            title: "Tech".to_string(),
            feeds: vec![FeedConfigItem::Standalone(FeedSource {
                title: "Rust Blog".to_string(),
                url: "https://blog.rust-lang.org/".to_string(),
                feed: Some("https://blog.rust-lang.org/feed.xml".to_string()),
            })],
        })],
    }
}

fn empty_store() -> StoreState {
    StoreState { rows: vec![], next_id: 1 }
}

fn row_views(s: &StoreState) -> Vec<(i64, String, String, String, Option<String>, Option<i64>)> {
    s.rows
        .iter()
        .map(|r| {
            (
                r.id,
                r.group_title.clone(),
                r.title.clone(),
                r.url.clone(),
                r.site_url.clone(),
                r.last_fetched,
            )
        })
        .collect()
}

#[test]
fn sync_feeds_inserts_new_feeds() {
    let store = empty_store();
    let synced = sync_feeds_from_config(&store, &sample_config());
    assert_eq!(synced.rows.len(), 1);
    assert_eq!(synced.rows[0].title, "Rust Blog");
    assert_eq!(synced.rows[0].group_title, "Tech");
    assert_eq!(synced.rows[0].url, "https://blog.rust-lang.org/feed.xml");
    assert_eq!(synced.rows[0].id, 1);
    assert_eq!(synced.next_id, 2);
}

#[test]
fn sync_feeds_is_idempotent() {
    let store = empty_store();
    let once = sync_feeds_from_config(&store, &sample_config());
    let twice = sync_feeds_from_config(&once, &sample_config());
    assert_eq!(row_views(&once), row_views(&twice));
    assert_eq!(once.next_id, twice.next_id);
}

#[test]
fn sync_feeds_updates_existing_feed_metadata() {
    let store = empty_store();
    let once = sync_feeds_from_config(&store, &sample_config());
    let updated_config = Config {
        refresh_every: 300,
        refresh_on_start: true,
        display: DisplayConfig::default(),
        feeds: vec![FeedConfigItem::Group(FeedGroup {
            title: "Programming".to_string(),
            feeds: vec![FeedConfigItem::Standalone(FeedSource {
                title: "Rust Blog (Updated)".to_string(),
                url: "https://blog.rust-lang.org/".to_string(),
                feed: Some("https://blog.rust-lang.org/feed.xml".to_string()),
            })],
        })],
    };
    let twice = sync_feeds_from_config(&once, &updated_config);
    assert_eq!(twice.rows.len(), 1);
    // The identifier survives; the metadata follows the configuration.
    assert_eq!(twice.rows[0].id, once.rows[0].id);
    assert_eq!(twice.rows[0].title, "Rust Blog (Updated)");
    assert_eq!(twice.rows[0].group_title, "Programming");
}

#[test]
fn sync_feeds_deletes_removed_feeds() {
    let both = Config {
        refresh_every: 300,
        refresh_on_start: true,
        display: DisplayConfig::default(),
        feeds: vec![FeedConfigItem::Group(FeedGroup {
            title: "Tech".to_string(),
            feeds: vec![
                FeedConfigItem::Standalone(FeedSource {
                    title: "Rust Blog".to_string(),
                    url: "https://blog.rust-lang.org/".to_string(),
                    feed: Some("https://blog.rust-lang.org/feed.xml".to_string()),
                }),
                FeedConfigItem::Standalone(FeedSource {
                    title: "Go Blog".to_string(),
                    url: "https://go.dev/blog/".to_string(),
                    feed: Some("https://go.dev/blog/feed.xml".to_string()),
                }),
            ],
        })],
    };
    let store = empty_store();
    let once = sync_feeds_from_config(&store, &both);
    assert_eq!(once.rows.len(), 2);
    let narrowed = sync_feeds_from_config(&once, &sample_config());
    assert_eq!(narrowed.rows.len(), 1);
    assert_eq!(narrowed.rows[0].title, "Rust Blog");
}

#[test]
fn sync_feeds_handles_empty_config() {
    let store = empty_store();
    let once = sync_feeds_from_config(&store, &sample_config());
    assert_eq!(once.rows.len(), 1);
    let cleared = Config {
        refresh_every: 300,
        refresh_on_start: true,
        display: DisplayConfig::default(),
        feeds: vec![],
    };
    let emptied = sync_feeds_from_config(&once, &cleared);
    assert_eq!(emptied.rows.len(), 0);
}

#[test]
fn sync_feeds_handles_standalone_and_grouped() {
    let cfg = Config {
        refresh_every: 300,
        refresh_on_start: true,
        display: DisplayConfig::default(),
        feeds: vec![
            FeedConfigItem::Standalone(FeedSource {
                title: "BAIR".to_string(),
                url: "http://bair.berkeley.edu/blog/".to_string(),
                feed: Some("https://bair.berkeley.edu/blog/feed.xml".to_string()),
            }),
            FeedConfigItem::Group(FeedGroup {
                title: "Tech".to_string(),
                feeds: vec![FeedConfigItem::Standalone(FeedSource {
                    title: "Rust Blog".to_string(),
                    url: "https://blog.rust-lang.org/".to_string(),
                    feed: Some("https://blog.rust-lang.org/feed.xml".to_string()),
                })],
            }),
        ],
    };
    let synced = sync_feeds_from_config(&empty_store(), &cfg);
    assert_eq!(synced.rows.len(), 2);
    assert_eq!(synced.rows[0].title, "BAIR");
    assert_eq!(synced.rows[0].group_title, "");
    assert_eq!(synced.rows[1].title, "Rust Blog");
    assert_eq!(synced.rows[1].group_title, "Tech");
}

#[test]
fn sync_feeds_handles_nested_groups() {
    let cfg = Config {
        refresh_every: 300,
        refresh_on_start: true,
        display: DisplayConfig::default(),
        feeds: vec![
            FeedConfigItem::Standalone(FeedSource {
                title: "BAIR".to_string(),
                url: "http://bair.berkeley.edu/blog/".to_string(),
                feed: Some("https://bair.berkeley.edu/blog/feed.xml".to_string()),
            }),
            FeedConfigItem::Group(FeedGroup {
                title: "News (World)".to_string(),
                feeds: vec![
                    FeedConfigItem::Standalone(FeedSource {
                        title: "Foreign Policy".to_string(),
                        url: "https://foreignpolicy.com".to_string(),
                        feed: Some("http://foreignpolicy.com/feed".to_string()),
                    }),
                    FeedConfigItem::Group(FeedGroup {
                        title: "Domestic".to_string(),
                        feeds: vec![FeedConfigItem::Standalone(FeedSource {
                            title: "BBC World News".to_string(),
                            url: "https://www.bbc.co.uk/news/".to_string(),
                            feed: Some("http://feeds.bbci.co.uk/news/world/rss.xml".to_string()),
                        })],
                    }),
                ],
            }),
        ],
    };
    let synced = sync_feeds_from_config(&empty_store(), &cfg);
    assert_eq!(synced.rows.len(), 3);
    assert_eq!(synced.rows[1].group_title, "News (World)");
    assert_eq!(synced.rows[2].group_title, "News (World) > Domestic");
    assert_eq!(synced.rows[2].title, "BBC World News");
}

#[test]
fn sync_keeps_last_fetched_of_existing_rows() {
    let store = empty_store();
    let mut once = sync_feeds_from_config(&store, &sample_config());
    once.rows[0].last_fetched = Some(1700000000);
    let twice = sync_feeds_from_config(&once, &sample_config());
    assert_eq!(twice.rows[0].last_fetched, Some(1700000000));
}
