//! Composing the plain-text article view.
//!
//! The header — title, feed name, author, date — is assembled here; the
//! HTML body goes through the outside renderer, whose output depends on the
//! markup alone and is referred to by name in the contracts.

use vstd::prelude::*;

use crate::format::{strftime_rewrite, strip_zero_rewrite};

verus! {

/// What `html2text` renders this markup to at this width.
pub uninterp spec fn rendered_text_of(html: Seq<char>, width: int) -> Seq<char>;

/// Whether `html2text` succeeds on this markup at this width.
pub uninterp spec fn rendered_ok(html: Seq<char>, width: int) -> bool;

/// What `chrono` formats this Unix timestamp to under this strftime format.
pub uninterp spec fn strftime_of(ts: i64, fmt: Seq<char>) -> Seq<char>;

/// Whether `chrono` can format this Unix timestamp under this strftime
/// format (the timestamp in range, every format item understood).
pub uninterp spec fn strftime_ok(ts: i64, fmt: Seq<char>) -> bool;

/// Relies on `html2text::from_read`: renders HTML to plain text wrapped to
/// the given width; success and output depend on the markup and width
/// alone.  Nothing comes back when the renderer fails on the markup.
#[verifier::external_body]
fn html_to_text(html: &str, width: usize) -> (r: Option<String>)
    ensures
        r is Some <==> rendered_ok(html@, width as int),
        r matches Some(t) ==> t@ == rendered_text_of(html@, width as int),
{
    match html2text::from_read(html.as_bytes(), width) {
        Ok(t) => Some(t),
        Err(_) => None,
    }
}

/// Relies on `chrono::DateTime::from_timestamp` and
/// `DelayedFormat::write_to`: formats a UTC timestamp under a strftime
/// format; success and output depend on the timestamp and format alone.
/// Nothing comes back for a timestamp out of range or a format the
/// formatter cannot render (`write_to` reports every such item — parse
/// errors and parse-only items alike — as an error instead of panicking).
#[verifier::external_body]
fn format_unix_timestamp(ts: i64, fmt: &str) -> (r: Option<String>)
    ensures
        r is Some <==> strftime_ok(ts, fmt@),
        r matches Some(t) ==> t@ == strftime_of(ts, fmt@),
{
    let dt = chrono::DateTime::from_timestamp(ts, 0)?;
    let mut out = String::new();
    match dt.format(fmt).write_to(&mut out) {
        Ok(()) => Some(out),
        Err(_) => None,
    }
}

/// The displayed date of an article: the configured display format is
/// rewritten to a strftime format, the timestamp formatted under it, and
/// the day's leading zero stripped when the format asked for a bare day
/// number.  Empty exactly when the timestamp or format cannot be
/// formatted.
pub open spec fn displayed_date(ts: i64, date_format: Seq<char>) -> Seq<char> {
    if strftime_ok(ts, strftime_rewrite(date_format)) {
        if crate::format::has_single_day(date_format) {
            strip_zero_rewrite(strftime_of(ts, strftime_rewrite(date_format)), true)
        } else {
            strftime_of(ts, strftime_rewrite(date_format))
        }
    } else {
        Seq::empty()
    }
}

/// Format an article's publication date for display.
pub fn format_article_date(ts: i64, date_format: &str) -> (r: String)
    ensures
        r@ == displayed_date(ts, date_format@),
{
    let (fmt, single_day) = crate::format::to_strftime_format(date_format);
    match format_unix_timestamp(ts, fmt.as_str()) {
        Some(s) => {
            if single_day {
                crate::format::strip_day_leading_zero(s.as_str())
            } else {
                s
            }
        },
        None => {
            let r = String::new();
            r
        },
    }
}

/// The composed article text: the title, the feed and author lines when
/// known, the date line when known, a rule, then the body.
pub open spec fn article_text(
    title: Seq<char>,
    feed_name: Option<Seq<char>>,
    author: Option<Seq<char>>,
    date: Option<Seq<char>>,
    body: Seq<char>,
) -> Seq<char> {
    title + seq!['\n'] + (match feed_name {
        Some(f) => "\nFrom: "@ + f + seq!['\n'],
        None => Seq::<char>::empty(),
    }) + (match author {
        Some(a) => "By "@ + a + seq!['\n'],
        None => Seq::<char>::empty(),
    }) + (match date {
        Some(d) => d + seq!['\n'],
        None => Seq::<char>::empty(),
    }) + "\n──────────\n\n"@ + body
}

/// The markup an article's body is rendered from: its content when it has
/// one, else its summary, else a placeholder note.
pub open spec fn body_markup(content: Option<Seq<char>>, summary: Option<Seq<char>>) -> Seq<
    char,
> {
    match content {
        Some(c) => c,
        None => match summary {
            Some(s) => s,
            None => "(No content available)"@,
        },
    }
}

/// Render one article to the plain text shown in the article view.
///
/// The body is the rendered HTML of the article's content — or its summary
/// when it has none, or a placeholder note when it has neither — wrapped to
/// eighty columns; when the renderer fails on the markup, a placeholder
/// stands in its place.
pub fn render_article(
    title: &str,
    feed_name: &Option<String>,
    author: &Option<String>,
    published: &Option<i64>,
    date_format: &str,
    content: &Option<String>,
    summary: &Option<String>,
) -> (r: String)
    ensures
        ({
            let markup = body_markup(content.deep_view(), summary.deep_view());
            r@ == article_text(
                title@,
                feed_name.deep_view(),
                author.deep_view(),
                match published {
                    Some(ts) => if displayed_date(*ts, date_format@).len() > 0 {
                        Some(displayed_date(*ts, date_format@))
                    } else {
                        None
                    },
                    None => None,
                },
                if rendered_ok(markup, 80) {
                    rendered_text_of(markup, 80)
                } else {
                    "(content not rendered)"@
                },
            )
        }),
{
    let html: &str = match content {
        Some(c) => c.as_str(),
        None => match summary {
            Some(s) => s.as_str(),
            None => {
                proof {
                    reveal_strlit("(No content available)");
                }
                "(No content available)"
            },
        },
    };
    proof {
        assert(html@ == body_markup(content.deep_view(), summary.deep_view()));
    }
    let mut out = title.to_owned();
    out.push('\n');
    match feed_name {
        Some(f) => {
            out.append("\nFrom: ");
            proof {
                reveal_strlit("\nFrom: ");
            }
            out.append(f.as_str());
            out.push('\n');
        },
        None => {},
    }
    match author {
        Some(a) => {
            out.append("By ");
            proof {
                reveal_strlit("By ");
            }
            out.append(a.as_str());
            out.push('\n');
        },
        None => {},
    }
    let ghost date_used: Option<Seq<char>>;
    match published {
        Some(ts) => {
            let d = format_article_date(*ts, date_format);
            if d.as_str().unicode_len() > 0 {
                out.append(d.as_str());
                out.push('\n');
                proof {
                    date_used = Some(d@);
                }
            } else {
                proof {
                    date_used = None;
                }
            }
        },
        None => {
            proof {
                date_used = None;
            }
        },
    }
    out.append("\n──────────\n\n");
    proof {
        reveal_strlit("\n──────────\n\n");
    }
    let body = match html_to_text(html, 80) {
        Some(t) => t,
        None => {
            proof {
                reveal_strlit("(content not rendered)");
            }
            "(content not rendered)".to_owned()
        },
    };
    out.append(body.as_str());
    proof {
        assert(out@ =~= article_text(
            title@,
            feed_name.deep_view(),
            author.deep_view(),
            date_used,
            body@,
        ));
    }
    out
}

} // verus!
