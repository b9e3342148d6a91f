//! What the client's window shows below its search bar, by the state of the
//! last search and the number of rows it gave.
use vstd::prelude::*;
use crate::client::api::ApiItem;
use crate::client::menus::Menus;
use crate::client::table::{Table, TableView};
use crate::text::{chars_of, push_all, slice_chars, string_of, trim, trim_bounds};

verus! {

/// The state of the last search.
pub enum Status {
    Idle,
    Loading,
    Loaded,
    Error(String),
}

/// The parts of the window's body below the search bar.
pub struct Body {
    /// `Search failed: ERROR`, when the last search failed.
    pub error: Option<String>,
    /// `Searching…` in place of results, while the first results load.
    pub searching: bool,
    /// `No results found`, when the last search gave no rows.
    pub no_results: bool,
    /// The toolbar, the column headers and the rows.
    pub table: bool,
    /// `Searching…` over the rows of the previous search, while a new one loads.
    pub overlay: bool,
}

/// `Search failed: `
pub open spec fn search_failed() -> Seq<char> {
    seq!['S', 'e', 'a', 'r', 'c', 'h', ' ', 'f', 'a', 'i', 'l', 'e', 'd', ':', ' ']
}

/// The body for a search in state `status` that gave `rows` rows: the error
/// of a failed search; `Searching…` while loading with no rows yet, and over
/// the rows otherwise; `No results found` for a finished search without
/// rows; the table whenever a search that did not fail has rows.
pub fn body_for(status: &Status, rows: usize) -> (r: Body)
    ensures
        match status {
            Status::Error(e) => r.error matches Some(m) && m@ == search_failed() + e@,
            _ => r.error is None,
        },
        r.searching == (status is Loading && rows == 0),
        r.no_results == (status is Loaded && rows == 0),
        r.table == ((status is Loading || status is Loaded) && rows > 0),
        r.overlay == (status is Loading && rows > 0),
{
    let error = match status {
        Status::Error(e) => {
            let mut out: Vec<char> = vec![
                'S', 'e', 'a', 'r', 'c', 'h', ' ', 'f', 'a', 'i', 'l', 'e', 'd', ':', ' ',
            ];
            assert(out@ == search_failed());
            push_all(&mut out, chars_of(e.as_str()).as_slice());
            Some(string_of(out.as_slice()))
        },
        _ => None,
    };
    let loading = match status {
        Status::Loading => true,
        _ => false,
    };
    let loaded = match status {
        Status::Loaded => true,
        _ => false,
    };
    Body {
        error,
        searching: loading && rows == 0,
        no_results: loaded && rows == 0,
        table: (loading || loaded) && rows > 0,
        overlay: loading && rows > 0,
    }
}

/// The Filter and Sort popovers can be opened: a finished search gave rows.
pub fn filters_ready(status: &Status, rows: usize) -> (r: bool)
    ensures
        r == (status is Loaded && rows > 0),
{
    match status {
        Status::Loaded => rows > 0,
        _ => false,
    }
}

/// The term a search is started with: the search box's text trimmed;
/// `None` when nothing is left, and then no search starts.
pub fn search_term(text: &str) -> (r: Option<String>)
    ensures
        trim(text@).len() == 0 <==> r is None,
        r matches Some(t) ==> t@ == trim(text@),
{
    let cs = chars_of(text);
    let (lo, hi) = trim_bounds(cs.as_slice());
    if lo == hi {
        None
    } else {
        Some(string_of(slice_chars(cs.as_slice(), lo, hi).as_slice()))
    }
}

/// The row whose full title is shown below the table after a click on row
/// `ix`'s title: a click on the shown one hides it, any other shows that one.
pub fn toggled_expanded(expanded: Option<usize>, ix: usize) -> (r: Option<usize>)
    ensures
        r == (if expanded == Some(ix) {
            None::<usize>
        } else {
            Some(ix)
        }),
{
    match expanded {
        Some(e) => if e == ix {
            None
        } else {
            Some(ix)
        },
        None => Some(ix),
    }
}

/// The window's search state: how the last search stands, and which row's
/// full title is shown below the table.
pub struct Screen {
    pub status: Status,
    pub expanded: Option<usize>,
}

impl Screen {
    /// No search yet, no title shown.
    pub fn new() -> (r: Screen)
        ensures
            r.status is Idle,
            r.expanded is None,
    {
        Screen { status: Status::Idle, expanded: None }
    }

    /// Enter in the search box with text `text`: when something is left of
    /// it once trimmed, the menus close, the search is loading, the grab
    /// message is cleared and the term is returned; otherwise nothing changes.
    pub fn submit(&mut self, text: &str, menus: &mut Menus, table: &mut Table) -> (r: Option<String>)
        ensures
            trim(text@).len() == 0 <==> r is None,
            r matches Some(t) ==> t@ == trim(text@),
            r is None ==> *final(self) == *old(self) && *final(menus) == *old(menus) && final(table)@
                == old(table)@,
            r is Some ==> final(self).status is Loading && final(self).expanded == old(self).expanded
                && final(menus).popover is None && final(menus).open_select is None && final(table)@
                == (TableView { grabbed_msg: None, ..old(table)@ }),
    {
        let term = search_term(text);
        match term {
            None => None,
            Some(t) => {
                menus.close_menus();
                self.status = Status::Loading;
                table.clear_message();
                Some(t)
            },
        }
    }

    /// The results of the search arrived: on success the table takes the
    /// rows (the caller then recomputes the view with its filters), no title
    /// is shown and the search is loaded; on failure the search holds the
    /// error and the table and the shown title stay as they were.
    pub fn apply_results(&mut self, result: Result<Vec<ApiItem>, String>, table: &mut Table)
        ensures
            match result {
                Ok(items) => final(self).status is Loaded && final(self).expanded is None
                    && final(table)@.loaded_from(old(table)@, items@),
                Err(e) => final(self).status == Status::Error(e) && final(self).expanded == old(
                    self,
                ).expanded && final(table)@ == old(table)@,
            },
    {
        match result {
            Ok(items) => {
                table.load(items);
                self.expanded = None;
                self.status = Status::Loaded;
            },
            Err(e) => {
                self.status = Status::Error(e);
            },
        }
    }

    /// A click on row `ix`'s title: its full title is shown, or hidden when
    /// it was the shown one.
    pub fn toggle_expanded(&mut self, ix: usize)
        ensures
            final(self).status == old(self).status,
            final(self).expanded == (if old(self).expanded == Some(ix) {
                None::<usize>
            } else {
                Some(ix)
            }),
    {
        self.expanded = toggled_expanded(self.expanded, ix);
    }
}

} // verus!
