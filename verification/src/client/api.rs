//! The client's requests to the server: the search and grab URLs, the grab
//! form, and the outcome of a reply; and the records a search answers with.
use vstd::prelude::*;
use crate::text::{chars_of, push_all, strip_trailing, strip_trailing_exec, string_of, trim, trim_exec};

verus! {

/// The server's answer to a search.
pub struct ApiResponse {
    pub search_term: String,
    pub count: usize,
    pub items: Vec<ApiItem>,
}

/// One search result, as the server's search API returns it.
pub struct ApiItem {
    pub title: String,
    pub guid: String,
    pub magnet: String,
    pub category: String,
    pub seeders: u32,
    pub peers: u32,
    pub size: u64,
    pub size_format: String,
    pub date: Option<i64>,
    pub date_format: String,
    pub already_added: bool,
}

/// Timing breakdown for one search.
pub struct QueryTiming {
    pub http: std::time::Duration,
    pub parse: std::time::Duration,
    pub bytes: usize,
}

/// `/api/query`
pub open spec fn query_path() -> Seq<char> {
    seq!['/', 'a', 'p', 'i', '/', 'q', 'u', 'e', 'r', 'y']
}

/// `/send-to-rqbit/`
pub open spec fn grab_path() -> Seq<char> {
    seq!['/', 's', 'e', 'n', 'd', '-', 't', 'o', '-', 'r', 'q', 'b', 'i', 't', '/']
}

/// `server` without trailing `/`, then `path`.
pub open spec fn endpoint_url(server: Seq<char>, path: Seq<char>) -> Seq<char> {
    strip_trailing(server, '/') + path
}

/// `server` without trailing `/`, then `path`.
fn endpoint(server: &str, path: &[char]) -> (r: String)
    ensures
        r@ == endpoint_url(server@, path@),
{
    let base = chars_of(server);
    let mut out = strip_trailing_exec(base.as_slice(), '/');
    push_all(&mut out, path);
    string_of(out.as_slice())
}

/// The search URL of `server` (the term goes in the `search_term` query parameter).
pub fn query_url(server: &str) -> (r: String)
    ensures
        r@ == endpoint_url(server@, query_path()),
{
    let path: Vec<char> = vec!['/', 'a', 'p', 'i', '/', 'q', 'u', 'e', 'r', 'y'];
    assert(path@ == query_path());
    endpoint(server, path.as_slice())
}

/// A grab request: the URL to post to and its form fields.
pub struct GrabRequest {
    pub url: String,
    pub form: Vec<(String, String)>,
}

/// `magnet`
pub open spec fn magnet_field() -> Seq<char> {
    seq!['m', 'a', 'g', 'n', 'e', 't']
}

/// `category`
pub open spec fn category_field() -> Seq<char> {
    seq!['c', 'a', 't', 'e', 'g', 'o', 'r', 'y']
}

/// The request the Grab button makes: `magnet`, and `category` when there
/// is one, form-encoded to the server's `/send-to-rqbit/`.
pub fn grab_request(server: &str, magnet: &str, category: &str) -> (r: GrabRequest)
    ensures
        r.url@ == endpoint_url(server@, grab_path()),
        r.form@.len() == (if category@.len() == 0 { 1int } else { 2int }),
        r.form@[0].0@ == magnet_field(),
        r.form@[0].1@ == magnet@,
        category@.len() > 0 ==> r.form@[1].0@ == category_field() && r.form@[1].1@ == category@,
{
    let path: Vec<char> = vec!['/', 's', 'e', 'n', 'd', '-', 't', 'o', '-', 'r', 'q', 'b', 'i', 't', '/'];
    assert(path@ == grab_path());
    let url = endpoint(server, path.as_slice());
    let mkey: Vec<char> = vec!['m', 'a', 'g', 'n', 'e', 't'];
    assert(mkey@ == magnet_field());
    let mut form: Vec<(String, String)> = Vec::new();
    form.push((string_of(mkey.as_slice()), string_of(chars_of(magnet).as_slice())));
    if !category.is_empty() {
        let ckey: Vec<char> = vec!['c', 'a', 't', 'e', 'g', 'o', 'r', 'y'];
        assert(ckey@ == category_field());
        form.push((string_of(ckey.as_slice()), string_of(chars_of(category).as_slice())));
    }
    GrabRequest { url, form }
}

/// `server returned `
pub open spec fn server_returned() -> Seq<char> {
    seq!['s', 'e', 'r', 'v', 'e', 'r', ' ', 'r', 'e', 't', 'u', 'r', 'n', 'e', 'd', ' ']
}

/// The outcome of a reply: success when its status was a success, else
/// `server returned STATUS: BODY` with the body trimmed.
pub fn reply_outcome(success: bool, status: &str, body: &str) -> (r: Result<(), String>)
    ensures
        success <==> r is Ok,
        !success ==> (r matches Err(e) && e@ == server_returned() + status@ + seq![':', ' ']
            + trim(body@)),
{
    if success {
        Ok(())
    } else {
        let mut out: Vec<char> = vec!['s', 'e', 'r', 'v', 'e', 'r', ' ', 'r', 'e', 't', 'u', 'r', 'n', 'e', 'd', ' '];
        assert(out@ == server_returned());
        push_all(&mut out, chars_of(status).as_slice());
        out.push(':');
        out.push(' ');
        let b = chars_of(body);
        push_all(&mut out, trim_exec(b.as_slice()).as_slice());
        assert(out@ =~= server_returned() + status@ + seq![':', ' '] + trim(body@));
        Err(string_of(out.as_slice()))
    }
}

} // verus!
