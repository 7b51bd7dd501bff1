//! Display settings carried by the configuration.
//!
//! Only plain values live here; the boundary layer owns serialization and
//! fills missing fields with the same defaults.

use vstd::prelude::*;

verus! {

pub fn default_refresh_every() -> (r: u64)
    ensures
        r == 300,
{
    300
}

pub fn default_refresh_on_start() -> (r: bool)
    ensures
        r,
{
    true
}

pub fn default_time_format() -> (r: u8)
    ensures
        r == 12,
{
    12
}

pub fn default_date_format() -> (r: String)
    ensures
        r@ == "D MMM YYYY"@,
{
    "D MMM YYYY".to_owned()
}

pub fn default_title_lines() -> (r: u8)
    ensures
        r == 2,
{
    2
}

pub fn default_feeds_list_width() -> (r: u16)
    ensures
        r == 25,
{
    25
}

pub fn default_articles_list_width() -> (r: u16)
    ensures
        r == 35,
{
    35
}

pub fn default_article_view_width() -> (r: u16)
    ensures
        r == 40,
{
    40
}

pub fn default_active_border() -> (r: String)
    ensures
        r@ == "cyan"@,
{
    "cyan".to_owned()
}

pub fn default_inactive_border() -> (r: String)
    ensures
        r@ == "darkgray"@,
{
    "darkgray".to_owned()
}

pub fn default_border_type() -> (r: String)
    ensures
        r@ == "plain"@,
{
    "plain".to_owned()
}

pub fn default_highlight_bg() -> (r: String)
    ensures
        r@ == "darkgray"@,
{
    "darkgray".to_owned()
}

pub fn default_unread_indicator() -> (r: String)
    ensures
        r@ == "cyan"@,
{
    "cyan".to_owned()
}

/// Formatting options for dates and times.
pub struct FormatConfig {
    /// Hour format: 12 or 24.
    pub time: u8,
    /// Date format string for the articles list.
    pub date: String,
    /// Date format string for the detailed article view.
    pub date_detail: String,
    /// Number of lines for article titles in the articles list.
    pub title_lines: u8,
}

impl Default for FormatConfig {
    fn default() -> (r: Self)
        ensures
            r.time == 12,
            r.date@ == "D MMM YYYY"@,
            r.date_detail@ == "D MMM YYYY"@,
            r.title_lines == 2,
    {
        FormatConfig {
            time: default_time_format(),
            date: default_date_format(),
            date_detail: default_date_format(),
            title_lines: default_title_lines(),
        }
    }
}

/// Column width configuration for the pane layout, in percentages.
pub struct ColumnConfig {
    pub feeds_list: u16,
    pub articles_list: u16,
    pub article_view: u16,
}

impl Default for ColumnConfig {
    fn default() -> (r: Self)
        ensures
            r.feeds_list == 25,
            r.articles_list == 35,
            r.article_view == 40,
    {
        ColumnConfig {
            feeds_list: default_feeds_list_width(),
            articles_list: default_articles_list_width(),
            article_view: default_article_view_width(),
        }
    }
}

/// Color configuration, as color names understood by the drawing layer.
pub struct ColourConfig {
    pub active_border: String,
    pub inactive_border: String,
    pub border_type: String,
    pub highlight_bg: String,
    pub unread_indicator: String,
}

impl Default for ColourConfig {
    fn default() -> (r: Self)
        ensures
            r.active_border@ == "cyan"@,
            r.inactive_border@ == "darkgray"@,
            r.border_type@ == "plain"@,
            r.highlight_bg@ == "darkgray"@,
            r.unread_indicator@ == "cyan"@,
    {
        ColourConfig {
            active_border: default_active_border(),
            inactive_border: default_inactive_border(),
            border_type: default_border_type(),
            highlight_bg: default_highlight_bg(),
            unread_indicator: default_unread_indicator(),
        }
    }
}

/// Display-related settings: formatting, column widths and colors.
pub struct DisplayConfig {
    pub format: FormatConfig,
    pub columns: ColumnConfig,
    pub colours: ColourConfig,
}

impl Default for DisplayConfig {
    fn default() -> (r: Self)
        ensures
            r.format.time == 12,
            r.format.date@ == "D MMM YYYY"@,
            r.format.date_detail@ == "D MMM YYYY"@,
            r.format.title_lines == 2,
            r.columns.feeds_list == 25,
            r.columns.articles_list == 35,
            r.columns.article_view == 40,
            r.colours.active_border@ == "cyan"@,
            r.colours.inactive_border@ == "darkgray"@,
            r.colours.border_type@ == "plain"@,
            r.colours.highlight_bg@ == "darkgray"@,
            r.colours.unread_indicator@ == "cyan"@,
    {
        DisplayConfig {
            format: FormatConfig::default(),
            columns: ColumnConfig::default(),
            colours: ColourConfig::default(),
        }
    }
}

} // verus!
