# anorak

Anorak searches a Torznab indexer and hands the chosen results to rqbit. A
small HTTP server answers searches (as an HTML fragment and as JSON), and a
desktop/web client filters, sorts, selects and grabs the results.

The crate is written in Verus. `src/` is the verified library:

- `text`: character-level string operations (search, replacement, trimming,
  ordering, decimal text), each stated over the `Seq<char>` view of a string.
- `sort`: a stable insertion sort whose result is stated as an exact
  arrangement of its input.
- `server`: the server's settings, the Torznab feed normalization, the choice
  of a result's grab link, the indexer and rqbit URLs, the default result
  order, rqbit's torrent list, the JSON answer and the grab outcome.
- `client`: the client's result view (filtering and sorting), the results
  table's selection and grab state, its menus, what its window shows, its
  request forms and its command line.

`app/` holds what stays outside the proofs: the axum server, its templates
and HTTP calls, serde copies of the library's records, the client's HTTP
calls, its command-line reading, and the floating-point filters and timings.

The client's GPUI window is not part of this crate. Its decisions (what each
click and key does to the table and menus, what the window shows) are the
library's `client` functions, and the client pieces in `app/` (HTTP calls,
command line, filters, timings) are what such a window would call; nothing
in this crate calls them yet. The server's size and date display texts and
the preferred Torznab category are not computed here: the JSON API sends the
raw size and date and an empty category.
