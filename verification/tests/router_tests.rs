use lazyrss::config_tree::Config;
use lazyrss::records::{Article, Feed};
use lazyrss::router::{Action, AppCore, DbResult, Effect};
use lazyrss::settings::DisplayConfig;

fn config() -> Config {
    Config {
        refresh_every: 300,
        refresh_on_start: false,
        display: DisplayConfig::default(),
        feeds: vec![],
    }
}

fn feed(id: i64, group: &str, title: &str, url: &str, unread: u32) -> Feed {
    Feed {
        id,
        group_title: group.to_string(),
        title: title.to_string(),
        url: url.to_string(),
        site_url: None,
        last_fetched: None,
        unread_count: unread,
    }
}

fn article(id: i64, feed_id: i64, title: &str, read: bool) -> Article {
    Article {
        id,
        feed_id,
        guid: format!("guid-{}", id),
        title: title.to_string(),
        url: None,
        author: None,
        summary: None,
        content: None,
        published: None,
        is_read: read,
        is_starred: false,
    }
}

fn core_with_feeds(feeds: Vec<Feed>) -> AppCore {
    let (mut core, effects) = AppCore::new(config());
    assert_eq!(effects.len(), 1);
    assert!(matches!(effects[0], Effect::ReloadFeeds));
    core.handle_db_result(DbResult::FeedsLoaded(feeds));
    core
}

#[test]
fn feeds_loaded_builds_display_list() {
    let core = core_with_feeds(vec![
        feed(1, "", "solo", "u0", 1),
        feed(2, "Tech", "Rust Blog", "u1", 5),
    ]);
    // All, standalone, Tech header, Rust Blog.
    assert_eq!(core.feed_list_items.len(), 4);
    match &core.feed_list_items[0] {
        lazyrss::flatten::FeedListItem::All { unread_count } => assert_eq!(*unread_count, 6),
        _ => panic!("Expected the All row"),
    }
}

#[test]
fn stale_article_batch_is_discarded() {
    // An article-list completion for feed 7 arrives after the user has
    // navigated to feed 9: the router discards it without a trace.
    let mut core = core_with_feeds(vec![
        feed(7, "", "seven", "u7", 0),
        feed(9, "", "nine", "u9", 0),
    ]);
    // Rows: All, seven, nine.  Move the cursor onto feed 9.
    core.feeds_selected = Some(2);
    let before = core.articles.len();
    let effects = core.handle_db_result(DbResult::ArticlesLoaded {
        feed_id: 7,
        articles: vec![article(100, 7, "late", false)],
    });
    assert_eq!(effects.len(), 0);
    assert_eq!(core.articles.len(), before);
}

#[test]
fn relevant_article_batch_is_applied() {
    let mut core = core_with_feeds(vec![feed(7, "", "seven", "u7", 1)]);
    core.feeds_selected = Some(1);
    let effects = core.handle_db_result(DbResult::ArticlesLoaded {
        feed_id: 7,
        articles: vec![article(100, 7, "fresh", false), article(101, 7, "older", true)],
    });
    assert_eq!(core.articles.len(), 2);
    assert_eq!(core.articles_selected, Some(0));
    assert_eq!(core.selected_article_id, Some(100));
    // The landing row was unread: it gets marked read, then rendered.
    assert_eq!(effects.len(), 2);
    assert!(matches!(effects[0], Effect::ToggleRead(100)));
    assert!(matches!(effects[1], Effect::RenderCurrentArticle));
}

#[test]
fn article_cursor_restored_by_identity() {
    // The selected article keeps its identity across a reload even though
    // its position changed.
    let mut core = core_with_feeds(vec![feed(7, "", "seven", "u7", 0)]);
    core.feeds_selected = Some(1);
    core.handle_db_result(DbResult::ArticlesLoaded {
        feed_id: 7,
        articles: vec![article(1, 7, "a", true), article(2, 7, "b", true)],
    });
    core.articles_selected = Some(1);
    // After the reload, article 2 is first.
    core.handle_db_result(DbResult::ArticlesLoaded {
        feed_id: 7,
        articles: vec![article(2, 7, "b", true), article(1, 7, "a", true), article(3, 7, "c", true)],
    });
    assert_eq!(core.articles_selected, Some(0));
    assert_eq!(core.selected_article_id, Some(2));
}

#[test]
fn feed_cursor_stable_across_reload() {
    // Selection stability: feed 2 stays selected after a reload that adds a
    // sibling before it and changes its unread count.
    let mut core = core_with_feeds(vec![
        feed(1, "", "one", "u1", 0),
        feed(2, "", "two", "u2", 0),
    ]);
    core.feeds_selected = Some(2);  // All, one, two
    core.handle_db_result(DbResult::FeedsLoaded(vec![
        feed(3, "", "zero", "u3", 1),
        feed(1, "", "one", "u1", 0),
        feed(2, "", "two", "u2", 9),
    ]));
    // Rows: All, zero, one, two — feed 2 is now at index 3.
    assert_eq!(core.feeds_selected, Some(3));
    match &core.feed_list_items[3] {
        lazyrss::flatten::FeedListItem::Feed { feed, .. } => assert_eq!(feed.id, 2),
        _ => panic!("Expected the same feed under the cursor"),
    }
}

#[test]
fn read_toggle_patches_article_and_reloads_feeds() {
    let mut core = core_with_feeds(vec![feed(7, "", "seven", "u7", 1)]);
    core.feeds_selected = Some(1);
    core.handle_db_result(DbResult::ArticlesLoaded {
        feed_id: 7,
        articles: vec![article(1, 7, "a", true)],
    });
    let effects = core.handle_db_result(DbResult::ReadToggled { article_id: 1, new_value: false });
    assert!(!core.articles[0].is_read);
    assert!(core.skip_articles_reload_after_feeds_load);
    assert_eq!(effects.len(), 1);
    assert!(matches!(effects[0], Effect::ReloadFeeds));
}

#[test]
fn marked_read_reloads_current_list() {
    let mut core = core_with_feeds(vec![feed(7, "", "seven", "u7", 1)]);
    core.feeds_selected = Some(1);
    let effects = core.handle_db_result(DbResult::MarkedRead { feed_id: Some(7) });
    assert_eq!(effects.len(), 2);
    assert!(matches!(effects[0], Effect::LoadArticlesForFeed(7)));
    assert!(matches!(effects[1], Effect::ReloadFeeds));
}

#[test]
fn quit_and_digit_actions() {
    let mut core = core_with_feeds(vec![]);
    let effects = core.update(Action::Digit(4));
    assert_eq!(effects.len(), 0);
    assert_eq!(core.pending_count, Some(4));
    core.update(Action::Digit(2));
    assert_eq!(core.pending_count, Some(42));
    core.update(Action::Quit);
    assert!(core.should_quit);
}

#[test]
fn move_down_wraps_and_loads() {
    let mut core = core_with_feeds(vec![feed(1, "", "one", "u1", 0)]);
    core.active_pane = lazyrss::router::ActivePane::Feeds;
    // Rows: All, one.  Moving down from All selects the feed and loads it.
    let effects = core.update(Action::MoveDown);
    assert_eq!(core.feeds_selected, Some(1));
    assert_eq!(effects.len(), 1);
    assert!(matches!(effects[0], Effect::LoadArticlesForFeed(1)));
    // Moving down again wraps to All.
    let effects = core.update(Action::MoveDown);
    assert_eq!(core.feeds_selected, Some(0));
    assert!(matches!(effects[0], Effect::LoadAllArticles));
}

#[test]
fn toggle_collapse_via_select_hides_children() {
    let mut core = core_with_feeds(vec![feed(1, "Tech", "Rust Blog", "u1", 0)]);
    core.active_pane = lazyrss::router::ActivePane::Feeds;
    core.feeds_selected = Some(1);  // the Tech header
    core.update(Action::Select);
    // All + collapsed header.
    assert_eq!(core.feed_list_items.len(), 2);
    core.feeds_selected = Some(1);
    core.update(Action::Select);
    assert_eq!(core.feed_list_items.len(), 3);
}

#[test]
fn delete_feed_updates_config_and_requests_sync() {
    let mut core = core_with_feeds(vec![feed(1, "", "one", "https://one/feed", 0)]);
    core.config.feeds = vec![lazyrss::config_tree::FeedConfigItem::Standalone(
        lazyrss::config_tree::FeedSource {
            title: "one".to_string(),
            url: "https://one/".to_string(),
            feed: Some("https://one/feed".to_string()),
        },
    )];
    core.active_pane = lazyrss::router::ActivePane::Feeds;
    core.feeds_selected = Some(1);
    let effects = core.update(Action::Delete);
    assert_eq!(core.config.feeds.len(), 0);
    assert_eq!(effects.len(), 2);
    assert!(matches!(effects[0], Effect::SaveFeeds { .. }));
    assert!(matches!(effects[1], Effect::SyncConfig));
}

#[test]
fn cut_then_paste_group_restores_config() {
    // Cutting the whole Tech group fills the clipboard with a group payload;
    // pasting on the All row (the root) restores the configuration.
    let mut core = core_with_feeds(vec![feed(1, "Tech", "Rust Blog", "https://rust/feed", 0)]);
    core.config.feeds = vec![lazyrss::config_tree::FeedConfigItem::Group(
        lazyrss::config_tree::FeedGroup {
            title: "Tech".to_string(),
            feeds: vec![lazyrss::config_tree::FeedConfigItem::Standalone(
                lazyrss::config_tree::FeedSource {
                    title: "Rust Blog".to_string(),
                    url: "https://rust/".to_string(),
                    feed: Some("https://rust/feed".to_string()),
                },
            )],
        },
    )];
    core.active_pane = lazyrss::router::ActivePane::Feeds;
    core.feeds_selected = Some(1);  // the Tech header
    let effects = core.update(Action::Cut);
    assert_eq!(core.config.feeds.len(), 0);
    assert_eq!(effects.len(), 2);
    match &core.clipboard {
        Some(lazyrss::router::ClipboardItem::Group { original_path, group }) => {
            assert_eq!(original_path, "Tech");
            assert_eq!(group.title, "Tech");
            assert_eq!(group.feeds.len(), 1);
        }
        _ => panic!("Expected a group payload in the clipboard"),
    }
    core.feeds_selected = Some(0);  // the All row: paste at the root
    let effects = core.update(Action::Paste);
    assert_eq!(effects.len(), 2);
    assert!(core.clipboard.is_none());
    assert_eq!(core.config.feeds.len(), 1);
    match &core.config.feeds[0] {
        lazyrss::config_tree::FeedConfigItem::Group(g) => {
            assert_eq!(g.title, "Tech");
            assert_eq!(g.feeds.len(), 1);
            match &g.feeds[0] {
                lazyrss::config_tree::FeedConfigItem::Standalone(f) => {
                    assert_eq!(f.title, "Rust Blog");
                    assert_eq!(f.url, "https://rust/");
                    assert_eq!(f.feed.as_deref(), Some("https://rust/feed"));
                }
                _ => panic!("Expected a standalone feed"),
            }
        }
        _ => panic!("Expected a group"),
    }
}

#[test]
fn paste_with_empty_clipboard_changes_nothing() {
    let mut core = core_with_feeds(vec![]);
    core.active_pane = lazyrss::router::ActivePane::Feeds;
    let effects = core.update(Action::Paste);
    assert_eq!(effects.len(), 0);
    assert!(core.status_message.is_some());
}

#[test]
fn popup_enter_creates_group_in_config() {
    let mut core = core_with_feeds(vec![]);
    core.update(Action::CreateGroup);
    assert!(core.popup.is_some());
    core.handle_popup_char('T');
    core.handle_popup_char('e');
    core.handle_popup_char('c');
    core.handle_popup_char('h');
    let effects = core.handle_popup_enter();
    assert!(core.popup.is_none());
    assert_eq!(effects.len(), 2);
    assert_eq!(core.config.feeds.len(), 1);
    match &core.config.feeds[0] {
        lazyrss::config_tree::FeedConfigItem::Group(g) => {
            assert_eq!(g.title, "Tech");
            assert_eq!(g.feeds.len(), 0);
        }
        _ => panic!("Expected a group"),
    }
    assert_eq!(core.empty_groups, vec!["Tech".to_string()]);
}

#[test]
fn fetch_completion_decrements_pending() {
    let mut core = core_with_feeds(vec![feed(1, "", "one", "u1", 0)]);
    core.update(Action::RefreshAll);
    assert!(core.is_refreshing);
    assert_eq!(core.pending_refreshes, 1);
    let effects = core.handle_feed_update(1, vec![], Some("HTTP 404".to_string()));
    assert!(!core.is_refreshing);
    assert_eq!(core.pending_refreshes, 0);
    assert_eq!(core.status_message.as_deref(), Some("Fetch error: HTTP 404"));
    assert_eq!(effects.len(), 1);
    assert!(matches!(effects[0], Effect::PersistFetched { feed_id: 1, .. }));
}

#[test]
fn render_result_sets_content_and_clamps_scroll() {
    let mut core = core_with_feeds(vec![]);
    core.article_scroll = 50;
    core.handle_render_result(lazyrss::router::RenderResult {
        content: "one\ntwo\nthree".to_string(),
    });
    assert_eq!(core.article_content, "one\ntwo\nthree");
    assert_eq!(core.article_content_lines, 3);
    assert_eq!(core.article_scroll, 2);
}

#[test]
fn popup_enter_renames_group_in_config() {
    // Confirming the rename popup carries the group's identity through and
    // rewrites the configuration.
    let mut core = core_with_feeds(vec![feed(1, "Tech", "Rust Blog", "https://rust/feed", 0)]);
    core.config.feeds = vec![lazyrss::config_tree::FeedConfigItem::Group(
        lazyrss::config_tree::FeedGroup { title: "Tech".to_string(), feeds: vec![] },
    )];
    core.active_pane = lazyrss::router::ActivePane::Feeds;
    core.feeds_selected = Some(1);  // the Tech header
    core.update(Action::Edit);
    assert!(core.popup.is_some());
    for _ in 0.."Tech".len() {
        core.handle_popup_backspace();
    }
    for c in "Technology".chars() {
        core.handle_popup_char(c);
    }
    let effects = core.handle_popup_enter();
    assert!(core.popup.is_none());
    assert_eq!(effects.len(), 2);
    match &core.config.feeds[0] {
        lazyrss::config_tree::FeedConfigItem::Group(g) => assert_eq!(g.title, "Technology"),
        _ => panic!("Expected a group"),
    }
}

#[test]
fn store_error_surfaces_as_status_message() {
    let mut core = core_with_feeds(vec![feed(1, "", "one", "u1", 0)]);
    let effects = core.handle_db_result(DbResult::StoreError("disk I/O error".to_string()));
    assert_eq!(effects.len(), 0);
    assert_eq!(core.status_message.as_deref(), Some("Store error: disk I/O error"));
}


#[test]
fn failed_save_rolls_back_the_edit() {
    // The edit applies immediately; when the save completion reports a
    // failure, the configuration is restored and the failure surfaces as a
    // status message.
    let mut core = core_with_feeds(vec![]);
    let effects = core.update(Action::CreateGroup);
    assert!(effects.is_empty());
    for c in "Tech".chars() {
        core.handle_popup_char(c);
    }
    let mut effects = core.handle_popup_enter();
    assert_eq!(core.config.feeds.len(), 1);
    assert_eq!(effects.len(), 2);
    let previous = match effects.remove(0) {
        Effect::SaveFeeds { previous } => previous,
        _ => panic!("Expected the save effect first"),
    };
    assert!(previous.is_empty());
    let effects = core.handle_db_result(DbResult::FeedsSaved {
        error: Some("read-only file system".to_string()),
        previous,
    });
    assert_eq!(core.config.feeds.len(), 0);
    assert_eq!(
        core.status_message.as_deref(),
        Some("Failed to save config: read-only file system")
    );
    assert_eq!(effects.len(), 1);
    assert!(matches!(effects[0], Effect::SyncConfig));
}

#[test]
fn successful_save_changes_nothing() {
    let mut core = core_with_feeds(vec![]);
    core.update(Action::CreateGroup);
    for c in "Tech".chars() {
        core.handle_popup_char(c);
    }
    core.handle_popup_enter();
    let effects = core.handle_db_result(DbResult::FeedsSaved { error: None, previous: vec![] });
    assert_eq!(core.config.feeds.len(), 1);
    assert!(effects.is_empty());
}
