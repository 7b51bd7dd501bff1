use lazyrss::fetch::{entries_to_articles, finish_fetched_body, prepare_body, RawEntry};

fn parse_entries(body: &[u8]) -> Result<Vec<RawEntry>, String> {
    match feed_rs::parser::parse(body) {
        Ok(parsed) => Ok(parsed
            .entries
            .into_iter()
            .map(|e| RawEntry {
                id: e.id,
                title: e.title.map(|t| t.content),
                url: e.links.first().map(|l| l.href.clone()),
                author: e.authors.first().and_then(|a| a.name.clone()),
                summary: e.summary.map(|s| s.content),
                content: e.content.and_then(|c| c.body),
                published: e.published.or(e.updated).map(|d| d.timestamp()),
            })
            .collect()),
        Err(e) => Err(e.to_string()),
    }
}

fn process(bytes: Vec<u8>, feed_id: i64) -> Result<Vec<lazyrss::records::Article>, String> {
    let body = prepare_body(bytes)?;
    finish_fetched_body(parse_entries(&body), feed_id)
}

fn entry(id: &str, title: Option<&str>) -> RawEntry {
    RawEntry {
        id: id.to_string(),
        title: title.map(|s| s.to_string()),
        url: None,
        author: None,
        summary: None,
        content: None,
        published: None,
    }
}

#[test]
fn entries_without_id_are_dropped() {
    let articles = entries_to_articles(vec![entry("", Some("ghost")), entry("g1", Some("kept"))], 7);
    assert_eq!(articles.len(), 1);
    assert_eq!(articles[0].guid, "g1");
    assert_eq!(articles[0].title, "kept");
    assert_eq!(articles[0].feed_id, 7);
    assert!(!articles[0].is_read);
    assert!(!articles[0].is_starred);
}

#[test]
fn missing_title_becomes_untitled() {
    let articles = entries_to_articles(vec![entry("g1", None)], 1);
    assert_eq!(articles[0].title, "(untitled)");
}

#[test]
fn empty_body_is_rejected() {
    let r = process(Vec::new(), 1);
    assert_eq!(r.unwrap_err(), "Empty response from feed");
}

#[test]
fn html_body_is_rejected() {
    let r = process(b"<!DOCTYPE html><body>not a feed</body>".to_vec(), 1);
    assert_eq!(r.unwrap_err(), "Server returned HTML instead of feed");
}

#[test]
fn bom_is_stripped_before_parsing() {
    let mut body = vec![0xEF, 0xBB, 0xBF];
    body.extend_from_slice(RSS.as_bytes());
    let articles = process(body, 3).unwrap();
    assert_eq!(articles.len(), 1);
    assert_eq!(articles[0].guid, "tag:example.org,2024:one");
    assert_eq!(articles[0].title, "First Post");
    assert_eq!(articles[0].feed_id, 3);
}

#[test]
fn rss_body_parses_into_articles() {
    let articles = process(RSS.as_bytes().to_vec(), 9).unwrap();
    assert_eq!(articles.len(), 1);
    assert_eq!(articles[0].url.as_deref(), Some("https://example.org/one"));
}

#[test]
fn garbage_body_reports_parse_error() {
    let r = process(b"not xml at all".to_vec(), 1);
    assert!(r.is_err());
}

#[test]
fn rendered_article_contains_header_and_body() {
    let text = lazyrss::render::render_article(
        "A Title",
        &Some("Some Feed".to_string()),
        &Some("An Author".to_string()),
        &Some(1609459200),
        "D MMM YYYY",
        &Some("<p>Hello <b>world</b></p>".to_string()),
        &None,
    );
    assert!(text.starts_with("A Title\n"));
    assert!(text.contains("From: Some Feed"));
    assert!(text.contains("By An Author"));
    assert!(text.contains("1 Jan 2021"));
    assert!(text.contains("Hello"));
    assert!(text.contains("world"));
    // The markup did not survive into the plain text.
    assert!(!text.contains("<b>"));
}

#[test]
fn rendered_article_falls_back_to_summary_then_placeholder() {
    let from_summary = lazyrss::render::render_article(
        "T",
        &None,
        &None,
        &None,
        "D MMM YYYY",
        &None,
        &Some("<p>only a summary</p>".to_string()),
    );
    assert!(from_summary.contains("only a summary"));
    let from_nothing = lazyrss::render::render_article(
        "T",
        &None,
        &None,
        &None,
        "D MMM YYYY",
        &None,
        &None,
    );
    assert!(from_nothing.contains("(No content available)"));
}

static RSS: &str = r#"<?xml version="1.0"?>
<rss version="2.0">
  <channel>
    <title>Example</title>
    <link>https://example.org/</link>
    <description>example</description>
    <item>
      <guid>tag:example.org,2024:one</guid>
      <title>First Post</title>
      <link>https://example.org/one</link>
    </item>
  </channel>
</rss>
"#;
