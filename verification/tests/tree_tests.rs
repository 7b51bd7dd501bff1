use lazyrss::flatten::{build_display_rows, FeedListItem};
use lazyrss::paths::{join_path, sort_paths, split_path};
use lazyrss::records::Feed;
use lazyrss::tree::build_group_tree;

fn feed(id: i64, group: &str, title: &str, url: &str, unread: u32) -> Feed {
    Feed {
        id,
        group_title: group.to_string(),
        title: title.to_string(),
        url: url.to_string(),
        site_url: None,
        last_fetched: None,
        unread_count: unread,
    }
}

#[test]
fn test_build_group_tree_with_empty_groups() {
    let feeds = vec![Feed {
        id: 1,
        group_title: "Tech".to_string(),
        title: "Rust Blog".to_string(),
        url: "https://blog.rust-lang.org/feed.xml".to_string(),
        site_url: Some("https://blog.rust-lang.org/".to_string()),
        last_fetched: None,
        unread_count: 5,
    }];

    let empty_groups = vec!["News".to_string(), "Tech > Programming".to_string()];

    let tree = build_group_tree(&feeds, &empty_groups);

    assert_eq!(tree.len(), 2);

    assert_eq!(tree[0].title, "News");
    assert_eq!(tree[0].feeds.len(), 0);
    assert_eq!(tree[0].unread_count, 0);

    assert_eq!(tree[1].title, "Tech");
    assert_eq!(tree[1].feeds.len(), 1);
    assert_eq!(tree[1].unread_count, 5);

    assert_eq!(tree[1].children.len(), 1);
    assert_eq!(tree[1].children[0].title, "Programming");
    assert_eq!(tree[1].children[0].feeds.len(), 0);
    assert_eq!(tree[1].children[0].unread_count, 0);
}

#[test]
fn test_build_group_tree_without_empty_groups() {
    let feeds = vec![Feed {
        id: 1,
        group_title: "Tech".to_string(),
        title: "Rust Blog".to_string(),
        url: "https://blog.rust-lang.org/feed.xml".to_string(),
        site_url: Some("https://blog.rust-lang.org/".to_string()),
        last_fetched: None,
        unread_count: 5,
    }];

    let tree = build_group_tree(&feeds, &vec![]);

    assert_eq!(tree.len(), 1);
    assert_eq!(tree[0].title, "Tech");
    assert_eq!(tree[0].feeds.len(), 1);
    assert_eq!(tree[0].unread_count, 5);
}

#[test]
fn build_tree_one_node_per_path_and_counts() {
    // Two paths share the prefix "A": the prefix converges on one node, and
    // every aggregated count is the subtree's unread sum.
    let feeds = vec![
        feed(1, "A", "a1", "u1", 2),
        feed(2, "A > B", "ab1", "u2", 3),
        feed(3, "A > B", "ab2", "u3", 4),
        feed(4, "C", "c1", "u4", 7),
    ];
    let tree = build_group_tree(&feeds, &vec![]);
    assert_eq!(tree.len(), 2);
    assert_eq!(tree[0].title, "A");
    assert_eq!(tree[0].full_path, "A");
    assert_eq!(tree[0].unread_count, 9);
    assert_eq!(tree[0].children.len(), 1);
    assert_eq!(tree[0].children[0].title, "B");
    assert_eq!(tree[0].children[0].full_path, "A > B");
    assert_eq!(tree[0].children[0].unread_count, 7);
    assert_eq!(tree[1].title, "C");
    assert_eq!(tree[1].unread_count, 7);
}

#[test]
fn build_tree_is_input_order_independent() {
    let a = vec![
        feed(1, "A", "a1", "u1", 1),
        feed(2, "B", "b1", "u2", 2),
    ];
    let b = vec![
        feed(2, "B", "b1", "u2", 2),
        feed(1, "A", "a1", "u1", 1),
    ];
    let ta = build_group_tree(&a, &vec![]);
    let tb = build_group_tree(&b, &vec![]);
    assert_eq!(ta.len(), tb.len());
    assert_eq!(ta[0].title, tb[0].title);
    assert_eq!(ta[1].title, tb[1].title);
}

#[test]
fn empty_group_visible_with_zero_count() {
    // An empty group stays a first-class, visible node with no feeds.
    let feeds: Vec<Feed> = Vec::new();
    let group = lazyrss::config_tree::FeedConfigItem::Group(lazyrss::config_tree::FeedGroup {
        title: "News".to_string(),
        feeds: vec![lazyrss::config_tree::FeedConfigItem::Group(
            lazyrss::config_tree::FeedGroup { title: "Sports".to_string(), feeds: vec![] },
        )],
    });
    let empties = group.collect_empty_groups();
    assert_eq!(empties, vec!["News > Sports".to_string()]);
    let tree = build_group_tree(&feeds, &empties);
    assert_eq!(tree.len(), 1);
    assert_eq!(tree[0].title, "News");
    assert_eq!(tree[0].unread_count, 0);
    assert_eq!(tree[0].children.len(), 1);
    assert_eq!(tree[0].children[0].title, "Sports");
    assert_eq!(tree[0].children[0].feeds.len(), 0);
    assert_eq!(tree[0].children[0].unread_count, 0);
}

#[test]
fn flatten_expanded_and_collapsed() {
    // Expanded: All, standalone, header A, feed, header B, feed, header C, feed.
    // Fully collapsed: the headers stay, their descendants go.
    let feeds = vec![
        feed(9, "", "solo", "u0", 1),
        feed(1, "A", "a1", "u1", 2),
        feed(2, "A > B", "ab1", "u2", 3),
        feed(3, "C", "c1", "u3", 4),
    ];
    let tree = build_group_tree(&feeds, &vec![]);
    let expanded = build_display_rows(&feeds, &tree, &vec![]);
    assert_eq!(expanded.len(), 8);
    match &expanded[0] {
        FeedListItem::All { unread_count } => assert_eq!(*unread_count, 10),
        _ => panic!("Expected the All row first"),
    }
    match &expanded[1] {
        FeedListItem::Feed { feed, depth } => {
            assert_eq!(feed.title, "solo");
            assert_eq!(*depth, 0);
        }
        _ => panic!("Expected the standalone feed next"),
    }

    let collapsed_set = vec!["A".to_string(), "A > B".to_string(), "C".to_string()];
    let collapsed = build_display_rows(&feeds, &tree, &collapsed_set);
    // All + standalone + the two root headers, nothing below them.
    assert_eq!(collapsed.len(), 4);
    match &collapsed[2] {
        FeedListItem::GroupHeader { title, collapsed, .. } => {
            assert_eq!(title, "A");
            assert!(*collapsed);
        }
        _ => panic!("Expected a group header"),
    }
    match &collapsed[3] {
        FeedListItem::GroupHeader { title, .. } => assert_eq!(title, "C"),
        _ => panic!("Expected a group header"),
    }
}

#[test]
fn collapsing_a_parent_hides_the_child_header_only() {
    // A group header is shown exactly when no group above it is collapsed:
    // collapsing A keeps A's header but removes A > B's, while collapsing
    // A > B itself keeps both headers and hides only B's feed.
    let feeds = vec![feed(1, "A > B", "ab1", "u1", 2)];
    let tree = build_group_tree(&feeds, &vec![]);
    let parent_collapsed = build_display_rows(&feeds, &tree, &vec!["A".to_string()]);
    let titles: Vec<&str> = parent_collapsed
        .iter()
        .filter_map(|r| match r {
            FeedListItem::GroupHeader { title, .. } => Some(title.as_str()),
            _ => None,
        })
        .collect();
    assert_eq!(titles, vec!["A"]);
    let child_collapsed = build_display_rows(&feeds, &tree, &vec!["A > B".to_string()]);
    let titles: Vec<&str> = child_collapsed
        .iter()
        .filter_map(|r| match r {
            FeedListItem::GroupHeader { title, .. } => Some(title.as_str()),
            _ => None,
        })
        .collect();
    assert_eq!(titles, vec!["A", "B"]);
    assert_eq!(child_collapsed.len(), 3);  // All + the two headers, no feed row
}

#[test]
fn collapsed_header_keeps_its_count() {
    let feeds = vec![feed(1, "A", "a1", "u1", 6)];
    let tree = build_group_tree(&feeds, &vec![]);
    let rows = build_display_rows(&feeds, &tree, &vec!["A".to_string()]);
    assert_eq!(rows.len(), 2);
    match &rows[1] {
        FeedListItem::GroupHeader { unread_count, .. } => assert_eq!(*unread_count, 6),
        _ => panic!("Expected a group header"),
    }
}

#[test]
fn split_and_join_paths() {
    let segs = split_path("News (World) > Domestic");
    assert_eq!(segs, vec!["News (World)".to_string(), "Domestic".to_string()]);
    assert_eq!(join_path(&segs), "News (World) > Domestic");
    let single = split_path("Tech");
    assert_eq!(single, vec!["Tech".to_string()]);
}

#[test]
fn sort_paths_orders_and_keeps_entries() {
    let v = vec!["b".to_string(), "a > c".to_string(), "a".to_string()];
    let sorted = sort_paths(v);
    assert_eq!(sorted, vec!["a".to_string(), "a > c".to_string(), "b".to_string()]);
}
