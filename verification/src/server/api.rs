//! The JSON API's answer to a search: one record per result, with the
//! grab link and the publish date as Unix seconds.
use vstd::prelude::*;
use crate::server::models::Item;

verus! {

/// The answer to a search.
pub struct ApiResponse {
    pub search_term: String,
    pub count: usize,
    pub items: Vec<ApiItem>,
}

/// One result of a search.
pub struct ApiItem {
    pub title: String,
    pub guid: String,
    /// Magnet (or best available link); empty when the indexer gave none.
    pub magnet: String,
    /// Preferred Torznab category id as a string ("" when unknown); passed
    /// back unchanged as `category` when the result is grabbed.
    pub category: String,
    pub seeders: u32,
    pub peers: u32,
    /// Size in bytes.
    pub size: u64,
    /// Human readable size.
    pub size_format: String,
    /// Publish date as Unix seconds, or `None` if the indexer's date was unparseable.
    pub date: Option<i64>,
    /// Display date.
    pub date_format: String,
    /// rqbit already has a torrent whose name contains this title.
    pub already_added: bool,
}

/// The Unix time of an RSS publish date (`Fri, 05 Jan 2024 10:00:00 +0100`,
/// chrono's `%a, %d %b %Y %H:%M:%S %z`), or `None` when it does not parse.
pub uninterp spec fn pub_date_seconds(date: Seq<char>) -> Option<i64>;

/// `chrono::DateTime::parse_from_str(date, "%a, %d %b %Y %H:%M:%S %z")`
/// followed by `timestamp()`: the Unix seconds of `date`, or `None` when
/// chrono rejects it. The contract only names the result.
#[verifier::external_body]
fn parse_pub_date(date: &str) -> (r: Option<i64>)
    ensures
        r == pub_date_seconds(date@),
{
    chrono::DateTime::parse_from_str(date, "%a, %d %b %Y %H:%M:%S %z").ok().map(|d| d.timestamp())
}

impl ApiItem {
    /// The record for `it`, given its parsed publish date and the values the
    /// record does not compute itself.
    pub fn assemble(
        it: &Item,
        already_added: bool,
        category: String,
        size_format: String,
        date: Option<i64>,
        date_format: String,
    ) -> (r: ApiItem)
        ensures
            r.title == it.title,
            r.guid == it.guid,
            r.magnet@ == it.spec_magnet_link(),
            r.category == category,
            r.seeders == it.seeders,
            r.peers == it.peers,
            r.size == it.size,
            r.size_format == size_format,
            r.date == date,
            r.date_format == date_format,
            r.already_added == already_added,
    {
        ApiItem {
            already_added,
            title: it.title.clone(),
            guid: it.guid.clone(),
            magnet: it.magnet_link(),
            category,
            seeders: it.seeders,
            peers: it.peers,
            size: it.size,
            size_format,
            date,
            date_format,
        }
    }

    /// The record for `it`: its publish date parsed, the rest as [`ApiItem::assemble`] states.
    pub fn from_item(
        it: &Item,
        already_added: bool,
        category: String,
        size_format: String,
        date_format: String,
    ) -> (r: ApiItem)
        ensures
            r.title == it.title,
            r.guid == it.guid,
            r.magnet@ == it.spec_magnet_link(),
            r.category == category,
            r.seeders == it.seeders,
            r.peers == it.peers,
            r.size == it.size,
            r.size_format == size_format,
            r.date == pub_date_seconds(it.pub_date@),
            r.date_format == date_format,
            r.already_added == already_added,
    {
        let date = parse_pub_date(it.pub_date.as_str());
        ApiItem::assemble(it, already_added, category, size_format, date, date_format)
    }
}

impl ApiResponse {
    /// The answer for `search_term` with `items`, counting them.
    pub fn new(search_term: String, items: Vec<ApiItem>) -> (r: ApiResponse)
        ensures
            r.search_term == search_term,
            r.count == items@.len(),
            r.items == items,
    {
        let count = items.len();
        ApiResponse { search_term, count, items }
    }
}

} // verus!
