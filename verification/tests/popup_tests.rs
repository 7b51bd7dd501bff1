use lazyrss::popup::Popup;

#[test]
fn test_create_group_popup_initial_state() {
    let popup = Popup::create_group();
    assert_eq!(popup.title(), "Create Group");
    assert_eq!(popup.input(), "");
}

#[test]
fn test_popup_char_input() {
    let mut popup = Popup::create_group();
    popup.handle_char('T');
    popup.handle_char('e');
    popup.handle_char('s');
    popup.handle_char('t');
    assert_eq!(popup.input(), "Test");
}

#[test]
fn test_popup_backspace() {
    let mut popup = Popup::create_group();
    popup.handle_char('H');
    popup.handle_char('i');
    popup.handle_backspace();
    assert_eq!(popup.input(), "H");
}

#[test]
fn test_popup_confirm() {
    let mut popup = Popup::create_group();
    popup.handle_char('N');
    popup.handle_char('e');
    popup.handle_char('w');
    let result = popup.confirm();
    assert_eq!(result, ("New".to_string(), String::new(), None, None));
}

#[test]
fn test_popup_ignores_control_chars() {
    let mut popup = Popup::create_group();
    popup.handle_char('\n');
    popup.handle_char('\t');
    popup.handle_char('\x01');
    assert_eq!(popup.input(), "");
}

#[test]
fn test_create_feed_popup_initial_state() {
    let popup = Popup::create_feed();
    assert_eq!(popup.title(), "Create Feed");
    assert!(popup.is_create_feed());
    assert_eq!(popup.selected_field(), Some(0));
    let names = popup.field_names().unwrap();
    assert_eq!(names, vec!["Title", "URL", "Feed URL"]);
}

#[test]
fn test_create_feed_popup_field_navigation() {
    let mut popup = Popup::create_feed();
    assert_eq!(popup.selected_field(), Some(0));

    popup.handle_tab();
    assert_eq!(popup.selected_field(), Some(1));

    popup.handle_tab();
    assert_eq!(popup.selected_field(), Some(2));

    popup.handle_tab();
    assert_eq!(popup.selected_field(), Some(0));

    popup.handle_backtab();
    assert_eq!(popup.selected_field(), Some(2));
}

#[test]
fn test_create_feed_popup_input() {
    let mut popup = Popup::create_feed();

    popup.handle_char('M');
    popup.handle_char('y');
    popup.handle_char('B');
    popup.handle_char('l');
    popup.handle_char('o');
    popup.handle_char('g');

    popup.handle_tab();

    popup.handle_char('h');
    popup.handle_char('t');
    popup.handle_char('t');
    popup.handle_char('p');
    popup.handle_char(':');
    popup.handle_char('/');

    let values = popup.field_values().unwrap();
    assert_eq!(values[0], "MyBlog");
    assert_eq!(values[1], "http:/");
    assert_eq!(values[2], "");
}

#[test]
fn test_create_feed_popup_backspace() {
    let mut popup = Popup::create_feed();
    popup.handle_char('T');
    popup.handle_char('e');
    popup.handle_char('s');
    popup.handle_tab();
    popup.handle_char('U');
    popup.handle_char('R');
    popup.handle_char('L');
    popup.handle_backspace();
    popup.handle_backspace();

    let values = popup.field_values().unwrap();
    assert_eq!(values[0], "Tes");
    assert_eq!(values[1], "U");
}

#[test]
fn test_create_feed_popup_confirm() {
    let mut popup = Popup::create_feed();
    popup.handle_char('T');
    popup.handle_char('e');
    popup.handle_char('s');
    popup.handle_char('t');
    popup.handle_tab();
    popup.handle_char('h');
    popup.handle_char('t');
    popup.handle_char('t');
    popup.handle_char('p');
    popup.handle_tab();
    popup.handle_char('f');
    popup.handle_char('e');
    popup.handle_char('e');
    popup.handle_char('d');

    let (title, url, feed_url, _) = popup.confirm();
    assert_eq!(title, "Test");
    assert_eq!(url, "http");
    assert_eq!(feed_url, Some("feed".to_string()));
}

#[test]
fn test_create_feed_popup_empty_feed_url_returns_none() {
    let mut popup = Popup::create_feed();
    popup.handle_char('T');
    popup.handle_char('e');
    popup.handle_char('s');
    popup.handle_char('t');
    popup.handle_tab();
    popup.handle_char('h');
    popup.handle_char('t');
    popup.handle_char('t');
    popup.handle_char('p');

    let (title, url, feed_url, _) = popup.confirm();
    assert_eq!(title, "Test");
    assert_eq!(url, "http");
    assert_eq!(feed_url, None);
}

#[test]
fn test_edit_feed_popup_initial_state() {
    let popup = Popup::edit_feed(
        "https://example.com/feed".to_string(),
        "My Feed".to_string(),
        "https://example.com".to_string(),
        Some("https://example.com/feed".to_string()),
    );
    assert_eq!(popup.title(), "Edit Feed");
    assert!(popup.is_edit_feed());
    assert_eq!(popup.original_url(), Some("https://example.com/feed"));
    assert_eq!(popup.selected_field(), Some(0));
    let names = popup.field_names().unwrap();
    assert_eq!(names, vec!["Title", "URL", "Feed URL"]);
}

#[test]
fn test_edit_feed_popup_pre_populated() {
    let popup = Popup::edit_feed(
        "https://example.com/feed".to_string(),
        "Original Title".to_string(),
        "https://example.com".to_string(),
        Some("https://example.com/feed".to_string()),
    );

    let values = popup.field_values().unwrap();
    assert_eq!(values[0], "Original Title");
    assert_eq!(values[1], "https://example.com");
    assert_eq!(values[2], "https://example.com/feed");
}

#[test]
fn test_edit_feed_popup_field_navigation() {
    let popup = Popup::edit_feed(
        "https://example.com/feed".to_string(),
        "Title".to_string(),
        "https://example.com".to_string(),
        None,
    );

    let mut p = popup;
    assert_eq!(p.selected_field(), Some(0));

    p.handle_tab();
    assert_eq!(p.selected_field(), Some(1));

    p.handle_tab();
    assert_eq!(p.selected_field(), Some(2));

    p.handle_tab();
    assert_eq!(p.selected_field(), Some(0));
}

#[test]
fn test_edit_feed_popup_confirm() {
    let mut popup = Popup::edit_feed(
        "https://example.com/feed".to_string(),
        "Original Title".to_string(),
        "https://example.com".to_string(),
        Some("https://example.com/feed".to_string()),
    );

    popup.handle_tab();
    popup.handle_tab();
    popup.handle_backtab();
    popup.handle_backtab();

    while popup.field_values().unwrap()[0].len() > 0 {
        popup.handle_backspace();
    }
    popup.handle_char('N');
    popup.handle_char('e');
    popup.handle_char('w');
    popup.handle_char(' ');
    popup.handle_char('T');
    popup.handle_char('i');
    popup.handle_char('t');
    popup.handle_char('l');
    popup.handle_char('e');

    let (title, url, feed_url, original_url) = popup.confirm();
    assert_eq!(title, "New Title");
    assert_eq!(url, "https://example.com");
    assert_eq!(feed_url, Some("https://example.com/feed".to_string()));
    assert_eq!(original_url, Some("https://example.com/feed".to_string()));
}

#[test]
fn test_edit_group_popup_initial_state() {
    let popup = Popup::edit_group("News > World".to_string(), "World".to_string());
    assert_eq!(popup.title(), "Edit Group");
    assert!(popup.is_edit());
    assert!(!popup.is_edit_feed());
    assert_eq!(popup.original_path(), Some("News > World"));
    assert_eq!(popup.input(), "World");
}

#[test]
fn test_edit_group_popup_input() {
    let mut popup = Popup::edit_group("Tech".to_string(), "Technology".to_string());

    while popup.input().len() > 0 {
        popup.handle_backspace();
    }
    popup.handle_char('T');
    popup.handle_char('e');
    popup.handle_char('c');
    popup.handle_char('h');

    let (name, _, _, _) = popup.confirm();
    assert_eq!(name, "Tech");
}

#[test]
fn test_edit_group_popup_confirm() {
    let mut popup = Popup::edit_group("News > Sports".to_string(), "Sports".to_string());

    popup.handle_char(' ');
    popup.handle_char('>');
    popup.handle_char(' ');
    for c in "Football".chars() {
        popup.handle_char(c);
    }

    assert_eq!(popup.original_path(), Some("News > Sports"));

    let (name, _, _, _) = popup.confirm();
    assert_eq!(name, "Sports > Football");
}

#[test]
fn test_is_edit_returns_true_for_edit_popups() {
    let edit_feed = Popup::edit_feed(
        "https://example.com/feed".to_string(),
        "Title".to_string(),
        "https://example.com".to_string(),
        None,
    );
    let edit_group = Popup::edit_group("News".to_string(), "News".to_string());
    let create_feed = Popup::create_feed();
    let create_group = Popup::create_group();

    assert!(edit_feed.is_edit());
    assert!(edit_group.is_edit());
    assert!(!create_feed.is_edit());
    assert!(!create_group.is_edit());
}
