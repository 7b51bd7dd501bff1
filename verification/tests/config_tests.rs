use lazyrss::config_edit::{
    paste_feed_into_group, paste_group_into_group, remove_and_return_feed,
    remove_and_return_group, remove_feed_recursive, remove_group_recursive,
    update_feed_in_config, update_group_in_config,
};
use lazyrss::config_tree::{
    collect_empty_groups_from_config, Config, FeedConfigItem, FeedGroup, FeedSource,
};
use lazyrss::settings::DisplayConfig;

fn source(title: &str, url: &str, feed: Option<&str>) -> FeedSource {
    FeedSource { title: title.to_string(), url: url.to_string(), feed: feed.map(|s| s.to_string()) }
}

#[test]
fn feed_config_item_iter_feeds() {
    let standalone = FeedConfigItem::Standalone(source(
        "BAIR",
        "http://bair.berkeley.edu/blog/",
        Some("https://bair.berkeley.edu/blog/feed.xml"),
    ));
    let feeds = standalone.collect_feeds();
    assert_eq!(feeds.len(), 1);
    assert!(feeds[0].0.is_none());
    assert_eq!(feeds[0].1.title, "BAIR");

    let group = FeedConfigItem::Group(FeedGroup {
        title: "Tech".to_string(),
        feeds: vec![FeedConfigItem::Standalone(source(
            "Rust Blog",
            "https://blog.rust-lang.org/",
            Some("https://blog.rust-lang.org/feed.xml"),
        ))],
    });
    let feeds = group.collect_feeds();
    assert_eq!(feeds.len(), 1);
    assert_eq!(feeds[0].0.as_deref(), Some("Tech"));
    assert_eq!(feeds[0].1.title, "Rust Blog");
    assert_eq!(feeds[0].1.url, "https://blog.rust-lang.org/");
}

#[test]
fn feed_config_item_nested_groups() {
    let group = FeedConfigItem::Group(FeedGroup {
        title: "News (World)".to_string(),
        feeds: vec![
            FeedConfigItem::Standalone(source(
                "Foreign Policy",
                "https://foreignpolicy.com",
                Some("http://foreignpolicy.com/feed"),
            )),
            FeedConfigItem::Group(FeedGroup {
                title: "Domestic".to_string(),
                feeds: vec![FeedConfigItem::Standalone(source(
                    "BBC World News",
                    "https://www.bbc.co.uk/news/",
                    Some("http://feeds.bbci.co.uk/news/world/rss.xml"),
                ))],
            }),
        ],
    });
    let feeds = group.collect_feeds();
    assert_eq!(feeds.len(), 2);
    assert_eq!(feeds[0].0.as_deref(), Some("News (World)"));
    assert_eq!(feeds[0].1.title, "Foreign Policy");
    assert_eq!(feeds[1].0.as_deref(), Some("News (World) > Domestic"));
    assert_eq!(feeds[1].1.title, "BBC World News");
}

#[test]
fn collect_empty_groups_from_single_group() {
    let group = FeedConfigItem::Group(FeedGroup {
        title: "Empty Group".to_string(),
        feeds: vec![],
    });
    let empty = group.collect_empty_groups();
    assert_eq!(empty.len(), 1);
    assert_eq!(empty[0], "Empty Group");
}

#[test]
fn collect_empty_groups_from_nested_groups() {
    let group = FeedConfigItem::Group(FeedGroup {
        title: "News".to_string(),
        feeds: vec![
            FeedConfigItem::Group(FeedGroup { title: "Tech".to_string(), feeds: vec![] }),
            FeedConfigItem::Group(FeedGroup {
                title: "Sports".to_string(),
                feeds: vec![FeedConfigItem::Group(FeedGroup {
                    title: "Football".to_string(),
                    feeds: vec![],
                })],
            }),
        ],
    });
    let empty = group.collect_empty_groups();
    assert_eq!(empty.len(), 2);
    assert!(empty.contains(&"News > Tech".to_string()));
    assert!(empty.contains(&"News > Sports > Football".to_string()));
}

#[test]
fn collect_empty_groups_does_not_include_non_empty_groups() {
    let group = FeedConfigItem::Group(FeedGroup {
        title: "Tech".to_string(),
        feeds: vec![FeedConfigItem::Standalone(source(
            "Rust Blog",
            "https://blog.rust-lang.org/",
            Some("https://blog.rust-lang.org/feed.xml"),
        ))],
    });
    let empty = group.collect_empty_groups();
    assert_eq!(empty.len(), 0);
}

#[test]
fn test_collect_empty_groups_from_config() {
    let config = Config {
        refresh_every: 300,
        refresh_on_start: true,
        display: DisplayConfig::default(),
        feeds: vec![
            FeedConfigItem::Standalone(source(
                "BAIR",
                "http://bair.berkeley.edu/blog/",
                Some("https://bair.berkeley.edu/blog/feed.xml"),
            )),
            FeedConfigItem::Group(FeedGroup {
                title: "Tech".to_string(),
                feeds: vec![FeedConfigItem::Standalone(source(
                    "Rust Blog",
                    "https://blog.rust-lang.org/",
                    Some("https://blog.rust-lang.org/feed.xml"),
                ))],
            }),
            FeedConfigItem::Group(FeedGroup { title: "Empty Group".to_string(), feeds: vec![] }),
        ],
    };
    let empty = collect_empty_groups_from_config(&config);
    assert_eq!(empty.len(), 1);
    assert_eq!(empty[0], "Empty Group");
}

#[test]
fn test_remove_feed_recursive_standalone() {
    let mut feeds = vec![
        FeedConfigItem::Standalone(source(
            "BAIR",
            "http://bair.berkeley.edu/blog/",
            Some("https://bair.berkeley.edu/blog/feed.xml"),
        )),
        FeedConfigItem::Group(FeedGroup {
            title: "Tech".to_string(),
            feeds: vec![FeedConfigItem::Standalone(source(
                "Rust Blog",
                "https://blog.rust-lang.org/",
                Some("https://blog.rust-lang.org/feed.xml"),
            ))],
        }),
    ];

    let removed = remove_feed_recursive(&mut feeds, "https://bair.berkeley.edu/blog/feed.xml");
    assert!(removed);
    assert_eq!(feeds.len(), 1);
    match &feeds[0] {
        FeedConfigItem::Group(g) => {
            assert_eq!(g.title, "Tech");
            assert_eq!(g.feeds.len(), 1);
        }
        _ => panic!("Expected group"),
    }
}

#[test]
fn test_remove_feed_recursive_in_group() {
    let mut feeds = vec![FeedConfigItem::Group(FeedGroup {
        title: "Tech".to_string(),
        feeds: vec![
            FeedConfigItem::Standalone(source(
                "Rust Blog",
                "https://blog.rust-lang.org/",
                Some("https://blog.rust-lang.org/feed.xml"),
            )),
            FeedConfigItem::Standalone(source(
                "Go Blog",
                "https://go.dev/blog/",
                Some("https://go.dev/blog/feed.xml"),
            )),
        ],
    })];

    let removed = remove_feed_recursive(&mut feeds, "https://blog.rust-lang.org/feed.xml");
    assert!(removed);
    assert_eq!(feeds.len(), 1);
    match &feeds[0] {
        FeedConfigItem::Group(g) => {
            assert_eq!(g.title, "Tech");
            assert_eq!(g.feeds.len(), 1);
            match &g.feeds[0] {
                FeedConfigItem::Standalone(f) => {
                    assert_eq!(f.title, "Go Blog");
                }
                _ => panic!("Expected standalone feed"),
            }
        }
        _ => panic!("Expected group"),
    }
}

#[test]
fn test_remove_group_recursive_simple() {
    let mut feeds = vec![
        FeedConfigItem::Standalone(source(
            "BAIR",
            "http://bair.berkeley.edu/blog/",
            Some("https://bair.berkeley.edu/blog/feed.xml"),
        )),
        FeedConfigItem::Group(FeedGroup {
            title: "Tech".to_string(),
            feeds: vec![FeedConfigItem::Standalone(source(
                "Rust Blog",
                "https://blog.rust-lang.org/",
                Some("https://blog.rust-lang.org/feed.xml"),
            ))],
        }),
    ];

    let removed = remove_group_recursive(&mut feeds, "Tech");
    assert!(removed);
    assert_eq!(feeds.len(), 1);
    match &feeds[0] {
        FeedConfigItem::Standalone(f) => {
            assert_eq!(f.title, "BAIR");
        }
        _ => panic!("Expected standalone feed"),
    }
}

#[test]
fn test_remove_group_recursive_nested() {
    let mut feeds = vec![FeedConfigItem::Group(FeedGroup {
        title: "News".to_string(),
        feeds: vec![
            FeedConfigItem::Standalone(source(
                "Foreign Policy",
                "https://foreignpolicy.com",
                Some("http://foreignpolicy.com/feed"),
            )),
            FeedConfigItem::Group(FeedGroup {
                title: "Domestic".to_string(),
                feeds: vec![FeedConfigItem::Standalone(source(
                    "BBC World News",
                    "https://www.bbc.co.uk/news/",
                    Some("http://feeds.bbci.co.uk/news/world/rss.xml"),
                ))],
            }),
        ],
    })];

    let removed = remove_group_recursive(&mut feeds, "News > Domestic");
    assert!(removed);
    assert_eq!(feeds.len(), 1);
    match &feeds[0] {
        FeedConfigItem::Group(g) => {
            assert_eq!(g.title, "News");
            assert_eq!(g.feeds.len(), 1);
            match &g.feeds[0] {
                FeedConfigItem::Standalone(f) => {
                    assert_eq!(f.title, "Foreign Policy");
                }
                _ => panic!("Expected standalone feed"),
            }
        }
        _ => panic!("Expected group"),
    }
}

#[test]
fn test_remove_group_recursive_removes_parent_if_empty() {
    let mut feeds = vec![FeedConfigItem::Group(FeedGroup {
        title: "News".to_string(),
        feeds: vec![FeedConfigItem::Group(FeedGroup {
            title: "Domestic".to_string(),
            feeds: vec![FeedConfigItem::Standalone(source(
                "BBC World News",
                "https://www.bbc.co.uk/news/",
                Some("http://feeds.bbci.co.uk/news/world/rss.xml"),
            ))],
        })],
    })];

    let removed = remove_group_recursive(&mut feeds, "News > Domestic");
    assert!(removed);
    // The emptied parent stays: empty groups are first-class and visible.
    assert_eq!(feeds.len(), 1);
    match &feeds[0] {
        FeedConfigItem::Group(g) => {
            assert_eq!(g.title, "News");
            assert_eq!(g.feeds.len(), 0);
        }
        _ => panic!("Expected group"),
    }
}

#[test]
fn update_feed_rewrites_fields() {
    let mut feeds = vec![FeedConfigItem::Group(FeedGroup {
        title: "Tech".to_string(),
        feeds: vec![FeedConfigItem::Standalone(source(
            "Rust Blog",
            "https://blog.rust-lang.org/",
            Some("https://blog.rust-lang.org/feed.xml"),
        ))],
    })];
    let found = update_feed_in_config(
        &mut feeds,
        "https://blog.rust-lang.org/",
        "Rust Blog (Updated)",
        "https://blog.rust-lang.org/",
        &Some("https://blog.rust-lang.org/feed.xml".to_string()),
    );
    assert!(found);
    match &feeds[0] {
        FeedConfigItem::Group(g) => match &g.feeds[0] {
            FeedConfigItem::Standalone(f) => assert_eq!(f.title, "Rust Blog (Updated)"),
            _ => panic!("Expected standalone feed"),
        },
        _ => panic!("Expected group"),
    }
}

#[test]
fn update_feed_not_found_reports_false() {
    let mut feeds = vec![FeedConfigItem::Standalone(source("A", "http://a", None))];
    let found = update_feed_in_config(&mut feeds, "http://missing", "B", "http://b", &None);
    assert!(!found);
}

#[test]
fn rename_group_by_path() {
    let mut feeds = vec![FeedConfigItem::Group(FeedGroup {
        title: "News".to_string(),
        feeds: vec![FeedConfigItem::Group(FeedGroup {
            title: "Sports".to_string(),
            feeds: vec![],
        })],
    })];
    let found = update_group_in_config(&mut feeds, "News > Sports", "Games");
    assert!(found);
    match &feeds[0] {
        FeedConfigItem::Group(g) => match &g.feeds[0] {
            FeedConfigItem::Group(inner) => assert_eq!(inner.title, "Games"),
            _ => panic!("Expected group"),
        },
        _ => panic!("Expected group"),
    }
}

#[test]
fn rename_group_not_found_reports_false() {
    let mut feeds = vec![FeedConfigItem::Group(FeedGroup {
        title: "News".to_string(),
        feeds: vec![],
    })];
    assert!(!update_group_in_config(&mut feeds, "Tech", "Technology"));
}

#[test]
fn cut_feed_and_paste_back_restores_placement() {
    // Removing a feed by key and re-inserting it at its original path gives
    // back the same placements, the moved feed now last in its group.
    let mut feeds = vec![FeedConfigItem::Group(FeedGroup {
        title: "Tech".to_string(),
        feeds: vec![
            FeedConfigItem::Standalone(source(
                "Rust Blog",
                "https://blog.rust-lang.org/",
                Some("https://blog.rust-lang.org/feed.xml"),
            )),
            FeedConfigItem::Standalone(source(
                "Go Blog",
                "https://go.dev/blog/",
                Some("https://go.dev/blog/feed.xml"),
            )),
        ],
    })];
    let cut = remove_and_return_feed(&mut feeds, "https://blog.rust-lang.org/feed.xml").unwrap();
    assert_eq!(cut.title, "Rust Blog");
    paste_feed_into_group(&mut feeds, FeedConfigItem::Standalone(cut), "Tech");
    match &feeds[0] {
        FeedConfigItem::Group(g) => {
            assert_eq!(g.title, "Tech");
            assert_eq!(g.feeds.len(), 2);
            match (&g.feeds[0], &g.feeds[1]) {
                (FeedConfigItem::Standalone(a), FeedConfigItem::Standalone(b)) => {
                    assert_eq!(a.title, "Go Blog");
                    assert_eq!(b.title, "Rust Blog");
                    assert_eq!(b.feed.as_deref(), Some("https://blog.rust-lang.org/feed.xml"));
                }
                _ => panic!("Expected standalone feeds"),
            }
        }
        _ => panic!("Expected group"),
    }
}

#[test]
fn cut_group_and_paste_to_root_restores_config() {
    // Cutting a whole group and pasting it at the root yields the original
    // configuration.
    let mut feeds = vec![FeedConfigItem::Group(FeedGroup {
        title: "Tech".to_string(),
        feeds: vec![FeedConfigItem::Standalone(source(
            "Rust Blog",
            "https://blog.rust-lang.org/",
            Some("https://blog.rust-lang.org/feed.xml"),
        ))],
    })];
    let components = vec!["Tech".to_string()];
    let mut tmp = Vec::new();
    std::mem::swap(&mut feeds, &mut tmp);
    let (rest, cut) = remove_and_return_group(tmp, &components, 0);
    feeds = rest;
    let cut = cut.unwrap();
    assert_eq!(feeds.len(), 0);
    assert_eq!(cut.title, "Tech");
    assert_eq!(cut.feeds.len(), 1);
    feeds.push(FeedConfigItem::Group(cut));
    assert_eq!(feeds.len(), 1);
    match &feeds[0] {
        FeedConfigItem::Group(g) => {
            assert_eq!(g.title, "Tech");
            match &g.feeds[0] {
                FeedConfigItem::Standalone(f) => {
                    assert_eq!(f.title, "Rust Blog");
                    assert_eq!(f.url, "https://blog.rust-lang.org/");
                }
                _ => panic!("Expected standalone feed"),
            }
        }
        _ => panic!("Expected group"),
    }
}

#[test]
fn paste_group_recreates_missing_parent() {
    let mut feeds: Vec<FeedConfigItem> = Vec::new();
    let group = FeedConfigItem::Group(FeedGroup { title: "Inner".to_string(), feeds: vec![] });
    paste_group_into_group(&mut feeds, group, "Outer");
    match &feeds[0] {
        FeedConfigItem::Group(g) => {
            assert_eq!(g.title, "Outer");
            match &g.feeds[0] {
                FeedConfigItem::Group(inner) => assert_eq!(inner.title, "Inner"),
                _ => panic!("Expected group"),
            }
        }
        _ => panic!("Expected group"),
    }
}
