//! The results table's state: the rows of the last search, which of them are
//! shown and in what order, which are selected, and how their grabs stand.
//! Each handler of the client's window is a transition of this state.
use vstd::prelude::*;
use crate::client::api::ApiItem;
use crate::client::model::{SortKey, SortSpec, compute_view, is_view_of, lowercase, unicode_lowercase};
use crate::text::{chars_of, decimal_text, push_all, string_of, usize_text};

verus! {

/// How a row's grab stands.
pub enum GrabState {
    Idle,
    Busy,
    Done,
    Failed(String),
}

/// The selection and grab state of a row.
pub struct Mark {
    pub selected: bool,
    pub grab: GrabState,
}

/// The state of the select-all box.
#[derive(Clone, Copy, Debug, PartialEq, Eq, Structural)]
pub enum Check {
    Off,
    On,
    Mixed,
}

/// The results table.
pub struct Table {
    items: Vec<ApiItem>,
    names_lower: Vec<String>,
    marks: Vec<Mark>,
    view: Vec<usize>,
    primary: SortSpec,
    secondary: Option<SortSpec>,
    grab_selected_busy: bool,
    grabbed_msg: Option<String>,
}

/// The fields of a table, taken out of it to be changed.
struct Parts {
    items: Vec<ApiItem>,
    names_lower: Vec<String>,
    marks: Vec<Mark>,
    view: Vec<usize>,
    primary: SortSpec,
    secondary: Option<SortSpec>,
    grab_selected_busy: bool,
    grabbed_msg: Option<String>,
}

impl Parts {
    spec fn view(&self) -> TableView {
        TableView {
            items: self.items@,
            names_lower: self.names_lower@,
            marks: self.marks@,
            view: self.view@,
            primary: self.primary,
            secondary: self.secondary,
            grab_selected_busy: self.grab_selected_busy,
            grabbed_msg: match self.grabbed_msg {
                Some(m) => Some(m@),
                None => None,
            },
        }
    }
}

/// The table as values.
pub ghost struct TableView {
    pub items: Seq<ApiItem>,
    pub names_lower: Seq<String>,
    pub marks: Seq<Mark>,
    pub view: Seq<usize>,
    pub primary: SortSpec,
    pub secondary: Option<SortSpec>,
    pub grab_selected_busy: bool,
    pub grabbed_msg: Option<Seq<char>>,
}

impl View for Table {
    type V = TableView;

    closed spec fn view(&self) -> TableView {
        TableView {
            items: self.items@,
            names_lower: self.names_lower@,
            marks: self.marks@,
            view: self.view@,
            primary: self.primary,
            secondary: self.secondary,
            grab_selected_busy: self.grab_selected_busy,
            grabbed_msg: match self.grabbed_msg {
                Some(m) => Some(m@),
                None => None,
            },
        }
    }
}

impl TableView {
    /// The lengths agree and the view lists distinct rows of the table.
    pub open spec fn wf(self) -> bool {
        &&& self.items.len() <= usize::MAX
        &&& self.names_lower.len() == self.items.len()
        &&& self.marks.len() == self.items.len()
        &&& forall|k: int| 0 <= k < self.view.len() ==> #[trigger] self.view[k] < self.items.len()
        &&& forall|k: int, l: int| 0 <= k < l < self.view.len() ==> self.view[k] != self.view[l]
    }

    /// Row `i` can be selected and grabbed: rqbit does not have it yet, it
    /// has a link, and it was not grabbed.
    pub open spec fn selectable(self, i: int) -> bool {
        &&& !self.items[i].already_added
        &&& self.items[i].magnet@.len() > 0
        &&& !(self.marks[i].grab is Done)
    }

    /// Row `i` is selectable and selected.
    pub open spec fn picked(self, i: int) -> bool {
        self.selectable(i) && self.marks[i].selected
    }

    /// How many of the rows `view` lists are selectable.
    pub open spec fn count_selectable(self, view: Seq<usize>) -> nat
        decreases view.len(),
    {
        if view.len() == 0 {
            0
        } else {
            (if self.selectable(view.last() as int) {
                1nat
            } else {
                0nat
            }) + self.count_selectable(view.drop_last())
        }
    }

    /// How many of the rows `view` lists are selectable and selected.
    pub open spec fn count_picked(self, view: Seq<usize>) -> nat
        decreases view.len(),
    {
        if view.len() == 0 {
            0
        } else {
            (if self.picked(view.last() as int) {
                1nat
            } else {
                0nat
            }) + self.count_picked(view.drop_last())
        }
    }

    /// The rows the view lists, in its order, that are selectable and selected.
    pub open spec fn picked_rows(self, view: Seq<usize>) -> Seq<usize>
        decreases view.len(),
    {
        if view.len() == 0 {
            Seq::empty()
        } else if self.picked(view.last() as int) {
            self.picked_rows(view.drop_last()).push(view.last())
        } else {
            self.picked_rows(view.drop_last())
        }
    }

    /// What select-all sets the shown selectable rows to: all off when all
    /// of them (at least one) are on, else all on.
    pub open spec fn select_all_target(self) -> bool {
        !(self.count_selectable(self.view) > 0 && self.count_picked(self.view) == self.count_selectable(
            self.view,
        ))
    }

    /// The table after select-all.
    pub open spec fn after_select_all(self) -> TableView {
        let target = self.select_all_target();
        TableView {
            marks: Seq::new(
                self.marks.len(),
                |i: int|
                    if self.view.contains(i as usize) && self.selectable(i) {
                        Mark { selected: target, grab: self.marks[i].grab }
                    } else {
                        self.marks[i]
                    },
            ),
            grabbed_msg: None,
            ..self
        }
    }

    /// The table after a click on row `ix`'s box: a selectable row flips.
    pub open spec fn after_toggle_row(self, ix: int) -> TableView {
        if 0 <= ix < self.items.len() && self.selectable(ix) {
            TableView {
                marks: self.marks.update(
                    ix,
                    Mark { selected: !self.marks[ix].selected, grab: self.marks[ix].grab },
                ),
                grabbed_msg: None,
                ..self
            }
        } else {
            self
        }
    }

    /// Row `ix` may be grabbed: it has a link and no grab of it is running or done.
    pub open spec fn grab_allowed(self, ix: int) -> bool {
        &&& 0 <= ix < self.items.len()
        &&& self.items[ix].magnet@.len() > 0
        &&& !(self.marks[ix].grab is Busy)
        &&& !(self.marks[ix].grab is Done)
    }

    /// The table after the grab of row `ix` ended with `result`: on success
    /// the row is done and deselected, on failure it keeps its selection and
    /// holds the error; a position past the rows changes nothing.
    pub open spec fn after_finish(self, ix: int, result: Result<(), String>) -> TableView {
        if 0 <= ix < self.items.len() {
            TableView {
                marks: self.marks.update(
                    ix,
                    match result {
                        Ok(()) => Mark { selected: false, grab: GrabState::Done },
                        Err(e) => Mark { selected: self.marks[ix].selected, grab: GrabState::Failed(e) },
                    },
                ),
                ..self
            }
        } else {
            self
        }
    }

    /// The table after the grabs of rows `jobs` ended with `results`, one
    /// after the other, in order.
    pub open spec fn after_finishes(self, jobs: Seq<usize>, results: Seq<Result<(), String>>) -> TableView
        decreases jobs.len(),
    {
        if jobs.len() == 0 {
            self
        } else {
            self.after_finishes(jobs.drop_last(), results.drop_last()).after_finish(
                jobs.last() as int,
                results.last(),
            )
        }
    }

    /// The table once a grab of the selection, `ok` of whose grabs succeeded,
    /// has ended: no longer busy, and `Grabbed N` shown when `ok` is not 0.
    pub open spec fn after_finish_selected(self, ok: nat) -> TableView {
        TableView {
            grab_selected_busy: false,
            grabbed_msg: if ok > 0 {
                Some(grabbed_text(ok))
            } else {
                self.grabbed_msg
            },
            ..self
        }
    }

    /// This table is `before` after taking the results `items` of a search:
    /// the rows are `items`, each unselected and not grabbed, with its title
    /// lower-cased; nothing is shown until the view is recomputed; the sorts,
    /// the busy flag and the message stay as they were.
    pub open spec fn loaded_from(self, before: TableView, items: Seq<ApiItem>) -> bool {
        &&& self.items == items
        &&& self.names_lower.len() == items.len()
        &&& forall|i: int|
            0 <= i < items.len() ==> #[trigger] self.names_lower[i]@ == unicode_lowercase(items[i].title@)
        &&& self.marks.len() == items.len()
        &&& forall|i: int| 0 <= i < items.len() ==> !(#[trigger] self.marks[i]).selected && self.marks[i].grab is Idle
        &&& self.view.len() == 0
        &&& self.primary == before.primary
        &&& self.secondary == before.secondary
        &&& self.grab_selected_busy == before.grab_selected_busy
        &&& self.grabbed_msg == before.grabbed_msg
    }

    /// The Grab selected button can be clicked: some shown row is picked and
    /// no grab of the selection is running.
    pub open spec fn grab_selected_enabled(self) -> bool {
        self.count_picked(self.view) > 0 && !self.grab_selected_busy
    }
}

/// How many of `results` are successes.
pub open spec fn ok_count(results: Seq<Result<(), String>>) -> nat
    decreases results.len(),
{
    if results.len() == 0 {
        0
    } else {
        ok_count(results.drop_last()) + if results.last() is Ok {
            1nat
        } else {
            0nat
        }
    }
}

/// How many of the grabs of a selection succeeded.
pub fn count_ok(results: &[Result<(), String>]) -> (r: usize)
    ensures
        r == ok_count(results@),
{
    let mut n: usize = 0;
    let mut k: usize = 0;
    while k < results.len()
        invariant
            k <= results@.len(),
            n <= k,
            n == ok_count(results@.take(k as int)),
        decreases results@.len() - k,
    {
        assert(results@.take(k + 1).drop_last() =~= results@.take(k as int));
        if results[k].is_ok() {
            n = n + 1;
        }
        k = k + 1;
    }
    assert(results@.take(results@.len() as int) =~= results@);
    n
}

/// The primary sort after a click on the header of column `key`: the same
/// column flips its direction, a new column starts descending.
pub open spec fn header_sort(primary: SortSpec, key: SortKey) -> SortSpec {
    if primary.key == key {
        SortSpec { key, asc: !primary.asc }
    } else {
        SortSpec { key, asc: false }
    }
}

/// The select-all box for `selected` of `selectable` shown rows.
pub open spec fn check_for(selected: nat, selectable: nat) -> Check {
    if selectable == 0 || selected == 0 {
        Check::Off
    } else if selected == selectable {
        Check::On
    } else {
        Check::Mixed
    }
}

/// `Grabbed N`
pub open spec fn grabbed_text(n: nat) -> Seq<char> {
    seq!['G', 'r', 'a', 'b', 'b', 'e', 'd', ' '] + decimal_text(n)
}

/// `N selected`
pub open spec fn selected_text(n: nat) -> Seq<char> {
    decimal_text(n) + seq![' ', 's', 'e', 'l', 'e', 'c', 't', 'e', 'd']
}

/// `N shown / M`
pub open spec fn shown_text(n: nat, m: nat) -> Seq<char> {
    decimal_text(n) + seq![' ', 's', 'h', 'o', 'w', 'n', ' ', '/', ' '] + decimal_text(m)
}

impl Table {
    #[verifier::type_invariant]
    spec fn inv(self) -> bool {
        self@.wf()
    }

    /// An empty table sorted by the server's order.
    pub fn new() -> (r: Table)
        ensures
            r@.wf(),
            r@.items.len() == 0,
            r@.names_lower.len() == 0,
            r@.marks.len() == 0,
            r@.view.len() == 0,
            r@.primary == SortSpec::spec_default(),
            r@.secondary is None,
            !r@.grab_selected_busy,
            r@.grabbed_msg is None,
    {
        Table {
            items: Vec::new(),
            names_lower: Vec::new(),
            marks: Vec::new(),
            view: Vec::new(),
            primary: SortSpec::default_order(),
            secondary: None,
            grab_selected_busy: false,
            grabbed_msg: None,
        }
    }

    /// Takes the fields out of the table, leaving an empty one.
    fn take_parts(&mut self) -> (r: Parts)
        ensures
            r.view() == old(self)@,
            r.view().wf(),
    {
        proof {
            use_type_invariant(&*self);
        }
        let mut t = Table::new();
        std::mem::swap(&mut t, self);
        proof {
            use_type_invariant(&t);
        }
        let Table { items, names_lower, marks, view, primary, secondary, grab_selected_busy, grabbed_msg } = t;
        Parts { items, names_lower, marks, view, primary, secondary, grab_selected_busy, grabbed_msg }
    }

    /// Puts fields back into the table.
    fn put_parts(&mut self, p: Parts)
        requires
            p.view().wf(),
        ensures
            final(self)@ == p.view(),
    {
        let Parts { items, names_lower, marks, view, primary, secondary, grab_selected_busy, grabbed_msg } = p;
        *self = Table { items, names_lower, marks, view, primary, secondary, grab_selected_busy, grabbed_msg };
    }

    /// Sets whether a grab of the selection is running.
    fn set_busy(&mut self, busy: bool)
        ensures
            final(self)@.wf(),
            final(self)@ == (TableView { grab_selected_busy: busy, ..old(self)@ }),
    {
        let mut p = self.take_parts();
        p.grab_selected_busy = busy;
        self.put_parts(p);
    }

    /// Sets the grab message.
    fn set_message(&mut self, msg: Option<String>)
        ensures
            final(self)@.wf(),
            final(self)@ == (TableView {
                grabbed_msg: match msg {
                    Some(m) => Some(m@),
                    None => None,
                },
                ..old(self)@
            }),
    {
        let mut p = self.take_parts();
        p.grabbed_msg = msg;
        self.put_parts(p);
    }

    /// Sets the sorts, leaving the view as it is.
    fn set_sorts(&mut self, primary: SortSpec, secondary: Option<SortSpec>)
        ensures
            final(self)@.wf(),
            final(self)@ == (TableView { primary, secondary, ..old(self)@ }),
    {
        let mut p = self.take_parts();
        p.primary = primary;
        p.secondary = secondary;
        self.put_parts(p);
    }

    pub fn items(&self) -> (r: &Vec<ApiItem>)
        ensures
            self@.wf(),
            r@ == self@.items,
    {
        proof {
            use_type_invariant(self);
        }
        &self.items
    }

    pub fn names_lower(&self) -> (r: &Vec<String>)
        ensures
            self@.wf(),
            r@ == self@.names_lower,
    {
        proof {
            use_type_invariant(self);
        }
        &self.names_lower
    }

    pub fn marks(&self) -> (r: &Vec<Mark>)
        ensures
            self@.wf(),
            r@ == self@.marks,
    {
        proof {
            use_type_invariant(self);
        }
        &self.marks
    }

    pub fn view_rows(&self) -> (r: &Vec<usize>)
        ensures
            self@.wf(),
            r@ == self@.view,
    {
        proof {
            use_type_invariant(self);
        }
        &self.view
    }

    pub fn primary(&self) -> (r: SortSpec)
        ensures
            self@.wf(),
            r == self@.primary,
    {
        proof {
            use_type_invariant(self);
        }
        self.primary
    }

    pub fn secondary(&self) -> (r: Option<SortSpec>)
        ensures
            self@.wf(),
            r == self@.secondary,
    {
        proof {
            use_type_invariant(self);
        }
        self.secondary
    }

    /// Whether a grab of the selection is running.
    pub fn grab_selected_busy(&self) -> (r: bool)
        ensures
            self@.wf(),
            r == self@.grab_selected_busy,
    {
        proof {
            use_type_invariant(self);
        }
        self.grab_selected_busy
    }

    /// Whether the Grab selected button can be clicked: some shown row is
    /// picked and no grab of the selection is running.
    pub fn grab_selected_enabled(&self) -> (r: bool)
        ensures
            self@.wf(),
            r == self@.grab_selected_enabled(),
    {
        proof {
            use_type_invariant(self);
        }
        let (selected, _) = self.selection_state();
        selected > 0 && !self.grab_selected_busy
    }

    /// Takes the results of a search: every row unselected and not grabbed,
    /// titles lower-cased for the title filter and the name sort, nothing
    /// shown until the view is recomputed.
    pub fn load(&mut self, items: Vec<ApiItem>)
        ensures
            final(self)@.wf(),
            final(self)@.loaded_from(old(self)@, items@),
    {
        let mut names: Vec<String> = Vec::new();
        let mut marks: Vec<Mark> = Vec::new();
        let mut i: usize = 0;
        while i < items.len()
            invariant
                i <= items@.len(),
                names@.len() == i,
                marks@.len() == i,
                forall|k: int| 0 <= k < i ==> #[trigger] names@[k]@ == unicode_lowercase(items@[k].title@),
                forall|k: int| 0 <= k < i ==> !(#[trigger] marks@[k]).selected && marks@[k].grab is Idle,
            decreases items@.len() - i,
        {
            names.push(lowercase(items[i].title.as_str()));
            marks.push(Mark { selected: false, grab: GrabState::Idle });
            i = i + 1;
        }
        let mut p = self.take_parts();
        p.items = items;
        p.names_lower = names;
        p.marks = marks;
        p.view = Vec::new();
        self.put_parts(p);
    }

    /// Clears the message of the last grab of the selection.
    pub fn clear_message(&mut self)
        ensures
            final(self)@.wf(),
            final(self)@ == (TableView { grabbed_msg: None, ..old(self)@ }),
    {
        self.set_message(None);
    }

    /// Re-filters and re-sorts: the view becomes the rows with `keep` set,
    /// in the table's sort order; rows that get hidden are deselected.
    pub fn recompute(&mut self, keep: &[bool])
        requires
            keep@.len() >= old(self)@.items.len(),
        ensures
            final(self)@.wf(),
            is_view_of(
                final(self)@.items,
                final(self)@.names_lower,
                keep@,
                final(self)@.primary,
                final(self)@.secondary,
                final(self)@.view,
            ),
            final(self)@.items == old(self)@.items,
            final(self)@.names_lower == old(self)@.names_lower,
            final(self)@.primary == old(self)@.primary,
            final(self)@.secondary == old(self)@.secondary,
            final(self)@.grab_selected_busy == old(self)@.grab_selected_busy,
            final(self)@.grabbed_msg == old(self)@.grabbed_msg,
            final(self)@.marks.len() == old(self)@.marks.len(),
            forall|i: int|
                0 <= i < old(self)@.marks.len() ==> (#[trigger] final(self)@.marks[i]).grab == old(
                    self,
                )@.marks[i].grab && final(self)@.marks[i].selected == (old(self)@.marks[i].selected
                    && final(self)@.view.contains(i as usize)),
    {
        proof {
            use_type_invariant(&*self);
        }
        let view = compute_view(
            self.items.as_slice(),
            self.names_lower.as_slice(),
            keep,
            self.primary,
            self.secondary,
        );
        let n = self.items.len();
        let mut visible: Vec<bool> = Vec::new();
        let mut i: usize = 0;
        while i < n
            invariant
                i <= n,
                visible@.len() == i,
                forall|k: int| 0 <= k < i ==> !#[trigger] visible@[k],
            decreases n - i,
        {
            visible.push(false);
            i = i + 1;
        }
        let mut v: usize = 0;
        while v < view.len()
            invariant
                v <= view@.len(),
                visible@.len() == n,
                forall|k: int| 0 <= k < view@.len() ==> #[trigger] view@[k] < n,
                forall|j: int|
                    0 <= j < n ==> (#[trigger] visible@[j] <==> exists|k: int|
                        0 <= k < v && view@[k] == j as usize),
            decreases view@.len() - v,
        {
            let ix = view[v];
            visible.set(ix, true);
            proof {
                assert forall|j: int| 0 <= j < n implies (#[trigger] visible@[j] <==> exists|k: int|
                    0 <= k < v + 1 && view@[k] == j as usize) by {
                    if j == ix as int {
                        assert(view@[v as int] == j as usize);
                    }
                }
            }
            v = v + 1;
        }
        let ghost old_marks = self.marks@;
        let mut p = self.take_parts();
        let mut new_marks: Vec<Mark> = Vec::new();
        let mut k: usize = 0;
        let mut rest = Vec::new();
        std::mem::swap(&mut rest, &mut p.marks);
        assert(rest@.skip(0) =~= old_marks);
        while k < n
            invariant
                k <= n,
                old_marks.len() == n,
                visible@.len() == n,
                rest@ == old_marks.skip(k as int),
                new_marks@.len() == k,
                forall|j: int|
                    0 <= j < k ==> (#[trigger] new_marks@[j]).grab == old_marks[j].grab
                        && new_marks@[j].selected == (old_marks[j].selected && visible@[j]),
            decreases n - k,
        {
            let m = rest.remove(0);
            assert(m == old_marks[k as int]);
            assert(rest@ =~= old_marks.skip(k + 1));
            let selected = m.selected && visible[k];
            new_marks.push(Mark { selected, grab: m.grab });
            k = k + 1;
        }
        proof {
            assert forall|j: int| 0 <= j < n implies (visible@[j] <==> view@.contains(j as usize)) by {
                if visible@[j] {
                    let w = choose|w: int| 0 <= w < view@.len() && view@[w] == j as usize;
                    assert(view@[w] == j as usize);
                }
                if view@.contains(j as usize) {
                    let w = choose|w: int| 0 <= w < view@.len() && view@[w] == j as usize;
                    assert(visible@[j]);
                }
            }
        }
        p.marks = new_marks;
        p.view = view;
        self.put_parts(p);
    }

    /// How many shown rows are selected, and how many are selectable.
    pub fn selection_state(&self) -> (r: (usize, usize))
        ensures
            self@.wf(),
            r.0 == self@.count_picked(self@.view),
            r.1 == self@.count_selectable(self@.view),
            r.0 <= r.1,
    {
        proof {
            use_type_invariant(self);
        }
        let mut selected: usize = 0;
        let mut selectable: usize = 0;
        let mut v: usize = 0;
        while v < self.view.len()
            invariant
                self@.wf(),
                v <= self@.view.len(),
                selected == self@.count_picked(self@.view.take(v as int)),
                selectable == self@.count_selectable(self@.view.take(v as int)),
                selected <= selectable <= v,
            decreases self@.view.len() - v,
        {
            let i = self.view[v];
            assert(self@.view.take(v + 1).drop_last() =~= self@.view.take(v as int));
            if self.is_selectable(i) {
                selectable = selectable + 1;
                if self.marks[i].selected {
                    selected = selected + 1;
                }
            }
            v = v + 1;
        }
        assert(self@.view.take(self@.view.len() as int) =~= self@.view);
        (selected, selectable)
    }

    /// Row `i` can be selected and grabbed.
    pub fn is_selectable(&self, i: usize) -> (r: bool)
        requires
            i < self@.items.len(),
        ensures
            self@.wf(),
            r == self@.selectable(i as int),
    {
        proof {
            use_type_invariant(self);
        }
        let row = &self.items[i];
        let grabbed = match self.marks[i].grab {
            GrabState::Done => true,
            _ => false,
        };
        !row.already_added && !row.magnet.as_str().is_empty() && !grabbed
    }

    /// The select-all box: off when nothing (or nothing selectable) is
    /// selected, on when every selectable shown row is, mixed otherwise.
    pub fn header_check(&self) -> (r: Check)
        ensures
            self@.wf(),
            r == check_for(self@.count_picked(self@.view), self@.count_selectable(self@.view)),
    {
        proof {
            use_type_invariant(self);
        }
        let (selected, selectable) = self.selection_state();
        if selectable == 0 || selected == 0 {
            Check::Off
        } else if selected == selectable {
            Check::On
        } else {
            Check::Mixed
        }
    }

    /// Select-all: the shown selectable rows all turn off when all of them
    /// are on, else all turn on; the grab message is cleared.
    pub fn toggle_select_all(&mut self)
        ensures
            final(self)@.wf(),
            final(self)@ == old(self)@.after_select_all(),
    {
        proof {
            use_type_invariant(&*self);
        }
        let (selected, selectable) = self.selection_state();
        let target = !(selectable > 0 && selected == selectable);
        let ghost old_view = self@;
        let mut v: usize = 0;
        while v < self.view.len()
            invariant
                old_view.wf(),
                self@.items == old_view.items,
                self@.view == old_view.view,
                self@.names_lower == old_view.names_lower,
                self@.primary == old_view.primary,
                self@.secondary == old_view.secondary,
                self@.grab_selected_busy == old_view.grab_selected_busy,
                self@.grabbed_msg == old_view.grabbed_msg,
                self@.marks.len() == old_view.marks.len(),
                target == old_view.select_all_target(),
                v <= old_view.view.len(),
                forall|j: int|
                    0 <= j < old_view.marks.len() ==> (#[trigger] self@.marks[j]) == (if (exists|k: int|
                        0 <= k < v && old_view.view[k] == j as usize) && old_view.selectable(j) {
                        Mark { selected: target, grab: old_view.marks[j].grab }
                    } else {
                        old_view.marks[j]
                    }),
            decreases old_view.view.len() - v,
        {
            let i = self.view[v];
            if self.is_selectable(i) {
                self.set_selected(i, target);
            }
            proof {
                assert forall|j: int| 0 <= j < old_view.marks.len() implies (#[trigger] self@.marks[j])
                    == (if (exists|k: int| 0 <= k < v + 1 && old_view.view[k] == j as usize)
                    && old_view.selectable(j) {
                    Mark { selected: target, grab: old_view.marks[j].grab }
                } else {
                    old_view.marks[j]
                }) by {
                    if j == i as int {
                        assert(old_view.view[v as int] == j as usize);
                    } else {
                        if exists|k: int| 0 <= k < v + 1 && old_view.view[k] == j as usize {
                            let k = choose|k: int| 0 <= k < v + 1 && old_view.view[k] == j as usize;
                            assert(k != v);
                        }
                    }
                }
            }
            v = v + 1;
        }
        self.set_message(None);
        proof {
            let want = old_view.after_select_all();
            assert forall|j: int| 0 <= j < old_view.marks.len() implies self@.marks[j] == want.marks[j] by {
                if old_view.view.contains(j as usize) {
                    let k = choose|k: int| 0 <= k < old_view.view.len() && old_view.view[k] == j as usize;
                    assert(old_view.view[k] == j as usize);
                }
                if exists|k: int| 0 <= k < old_view.view.len() && old_view.view[k] == j as usize {
                    let k = choose|k: int| 0 <= k < old_view.view.len() && old_view.view[k] == j as usize;
                    assert(old_view.view.contains(j as usize));
                }
            }
            assert(self@.marks =~= want.marks);
        }
    }

    /// Sets the selection of row `i`, keeping its grab state.
    fn set_selected(&mut self, i: usize, selected: bool)
        requires
            i < old(self)@.items.len(),
        ensures
            final(self)@.wf(),
            final(self)@ == (TableView {
                marks: old(self)@.marks.update(
                    i as int,
                    Mark { selected, grab: old(self)@.marks[i as int].grab },
                ),
                ..old(self)@
            }),
    {
        proof {
            use_type_invariant(&*self);
        }
        let mut p = self.take_parts();
        let old_mark = p.marks.remove(i);
        p.marks.insert(i, Mark { selected, grab: old_mark.grab });
        self.put_parts(p);
        assert(self@.marks =~= old(self)@.marks.update(
            i as int,
            Mark { selected, grab: old(self)@.marks[i as int].grab },
        ));
    }

    /// Sets the grab state of row `i`, and its selection.
    fn set_mark(&mut self, i: usize, mark: Mark)
        requires
            i < old(self)@.items.len(),
        ensures
            final(self)@.wf(),
            final(self)@ == (TableView { marks: old(self)@.marks.update(i as int, mark), ..old(self)@ }),
    {
        proof {
            use_type_invariant(&*self);
        }
        let mut p = self.take_parts();
        let _ = p.marks.remove(i);
        p.marks.insert(i, mark);
        self.put_parts(p);
        assert(self@.marks =~= old(self)@.marks.update(i as int, mark));
    }

    /// A click on row `ix`'s box: a selectable row flips and the grab
    /// message is cleared; anything else is left as it is.
    pub fn toggle_row(&mut self, ix: usize)
        ensures
            final(self)@.wf(),
            final(self)@ == old(self)@.after_toggle_row(ix as int),
    {
        proof {
            use_type_invariant(&*self);
        }
        if ix < self.items.len() && self.is_selectable(ix) {
            let now = self.marks[ix].selected;
            self.set_selected(ix, !now);
            self.set_message(None);
        }
    }

    /// Starts grabbing row `ix`: when it may be grabbed, it becomes busy and
    /// its link and category are returned; otherwise nothing changes.
    pub fn begin_grab(&mut self, ix: usize) -> (r: Option<(String, String)>)
        ensures
            final(self)@.wf(),
            old(self)@.grab_allowed(ix as int) <==> r is Some,
            old(self)@.grab_allowed(ix as int) ==> final(self)@ == (TableView {
                marks: old(self)@.marks.update(
                    ix as int,
                    Mark { selected: old(self)@.marks[ix as int].selected, grab: GrabState::Busy },
                ),
                ..old(self)@
            }),
            r matches Some(job) ==> job.0 == old(self)@.items[ix as int].magnet && job.1 == old(
                self,
            )@.items[ix as int].category,
            !old(self)@.grab_allowed(ix as int) ==> final(self)@ == old(self)@,
    {
        proof {
            use_type_invariant(&*self);
        }
        if ix >= self.items.len() || self.items[ix].magnet.as_str().is_empty() {
            return None;
        }
        let allowed = match self.marks[ix].grab {
            GrabState::Busy => false,
            GrabState::Done => false,
            _ => true,
        };
        if !allowed {
            return None;
        }
        let selected = self.marks[ix].selected;
        self.set_mark(ix, Mark { selected, grab: GrabState::Busy });
        Some((self.items[ix].magnet.clone(), self.items[ix].category.clone()))
    }

    /// The end of a grab of row `ix`: done and deselected on success, failed
    /// with the error otherwise.
    pub fn finish_grab(&mut self, ix: usize, result: Result<(), String>)
        ensures
            final(self)@.wf(),
            final(self)@ == old(self)@.after_finish(ix as int, result),
    {
        proof {
            use_type_invariant(&*self);
        }
        if ix < self.items.len() {
            match result {
                Ok(()) => {
                    self.set_mark(ix, Mark { selected: false, grab: GrabState::Done });
                },
                Err(e) => {
                    let selected = self.marks[ix].selected;
                    self.set_mark(ix, Mark { selected, grab: GrabState::Failed(e) });
                },
            }
        }
    }

    /// The shown rows that are selectable and selected, in view order.
    pub fn picked(&self) -> (r: Vec<usize>)
        ensures
            self@.wf(),
            r@ == self@.picked_rows(self@.view),
    {
        proof {
            use_type_invariant(self);
        }
        let mut out: Vec<usize> = Vec::new();
        let mut v: usize = 0;
        while v < self.view.len()
            invariant
                self@.wf(),
                v <= self@.view.len(),
                out@ == self@.picked_rows(self@.view.take(v as int)),
            decreases self@.view.len() - v,
        {
            let i = self.view[v];
            assert(self@.view.take(v + 1).drop_last() =~= self@.view.take(v as int));
            if self.is_selectable(i) && self.marks[i].selected {
                out.push(i);
            }
            v = v + 1;
        }
        assert(self@.view.take(self@.view.len() as int) =~= self@.view);
        out
    }

    /// Starts grabbing the selection: unless nothing is picked or a grab of
    /// the selection is running, the picked rows become busy, the table is
    /// marked busy, and their jobs (row, link, category) are returned in
    /// view order; otherwise nothing changes and no job is returned.
    pub fn begin_grab_selected(&mut self) -> (r: Vec<(usize, String, String)>)
        ensures
            final(self)@.wf(),
            ({
                let picked = old(self)@.picked_rows(old(self)@.view);
                if picked.len() == 0 || old(self)@.grab_selected_busy {
                    r@.len() == 0 && final(self)@ == old(self)@
                } else {
                    &&& r@.len() == picked.len()
                    &&& forall|k: int|
                        0 <= k < picked.len() ==> (#[trigger] r@[k]).0 == picked[k] && r@[k].1
                            == old(self)@.items[picked[k] as int].magnet && r@[k].2 == old(
                            self,
                        )@.items[picked[k] as int].category
                    &&& final(self)@.grab_selected_busy
                    &&& final(self)@.items == old(self)@.items
                    &&& final(self)@.view == old(self)@.view
                    &&& final(self)@.names_lower == old(self)@.names_lower
                    &&& final(self)@.primary == old(self)@.primary
                    &&& final(self)@.secondary == old(self)@.secondary
                    &&& final(self)@.grabbed_msg == old(self)@.grabbed_msg
                    &&& final(self)@.marks.len() == old(self)@.marks.len()
                    &&& forall|i: int|
                        0 <= i < old(self)@.marks.len() ==> (#[trigger] final(self)@.marks[i]) == (
                        if picked.contains(i as usize) {
                            Mark { selected: old(self)@.marks[i].selected, grab: GrabState::Busy }
                        } else {
                            old(self)@.marks[i]
                        })
                }
            }),
    {
        proof {
            use_type_invariant(&*self);
        }
        let targets = self.picked();
        if targets.len() == 0 || self.grab_selected_busy {
            return Vec::new();
        }
        proof {
            lemma_picked_rows(self@, self@.view);
        }
        self.set_busy(true);
        let ghost start = self@;
        let mut jobs: Vec<(usize, String, String)> = Vec::new();
        let mut k: usize = 0;
        while k < targets.len()
            invariant
                k <= targets@.len(),
                start.wf(),
                forall|m: int| 0 <= m < targets@.len() ==> #[trigger] targets@[m] < start.items.len(),
                forall|m: int, l: int| 0 <= m < l < targets@.len() ==> targets@[m] != targets@[l],
                self@.items == start.items,
                self@.view == start.view,
                self@.names_lower == start.names_lower,
                self@.primary == start.primary,
                self@.secondary == start.secondary,
                self@.grab_selected_busy == start.grab_selected_busy,
                self@.grabbed_msg == start.grabbed_msg,
                self@.marks.len() == start.marks.len(),
                jobs@.len() == k,
                forall|m: int|
                    0 <= m < k ==> (#[trigger] jobs@[m]).0 == targets@[m] && jobs@[m].1
                        == start.items[targets@[m] as int].magnet && jobs@[m].2 == start.items[targets@[m] as int].category,
                forall|i: int|
                    0 <= i < start.marks.len() ==> (#[trigger] self@.marks[i]) == (if exists|m: int|
                        0 <= m < k && targets@[m] == i as usize {
                        Mark { selected: start.marks[i].selected, grab: GrabState::Busy }
                    } else {
                        start.marks[i]
                    }),
            decreases targets@.len() - k,
        {
            let i = targets[k];
            let selected = self.marks[i].selected;
            self.set_mark(i, Mark { selected, grab: GrabState::Busy });
            jobs.push((i, self.items[i].magnet.clone(), self.items[i].category.clone()));
            proof {
                assert forall|j: int| 0 <= j < start.marks.len() implies (#[trigger] self@.marks[j]) == (
                if exists|m: int| 0 <= m < k + 1 && targets@[m] == j as usize {
                    Mark { selected: start.marks[j].selected, grab: GrabState::Busy }
                } else {
                    start.marks[j]
                }) by {
                    if j == i as int {
                        assert(targets@[k as int] == j as usize);
                    } else if exists|m: int| 0 <= m < k + 1 && targets@[m] == j as usize {
                        let m = choose|m: int| 0 <= m < k + 1 && targets@[m] == j as usize;
                        assert(m != k);
                    }
                }
            }
            k = k + 1;
        }
        proof {
            assert forall|i: int| 0 <= i < start.marks.len() implies (exists|m: int|
                0 <= m < targets@.len() && targets@[m] == i as usize) == #[trigger] targets@.contains(i as usize) by {
                if targets@.contains(i as usize) {
                    let m = choose|m: int| 0 <= m < targets@.len() && targets@[m] == i as usize;
                    assert(targets@[m] == i as usize);
                }
            }
        }
        jobs
    }

    /// The end of a grab of the selection, `ok` of whose jobs succeeded: the
    /// table is no longer busy, and `Grabbed N` is shown when `ok` is not 0.
    pub fn finish_grab_selected(&mut self, ok: usize)
        ensures
            final(self)@.wf(),
            final(self)@ == old(self)@.after_finish_selected(ok as nat),
    {
        self.set_busy(false);
        if ok > 0 {
            let mut text: Vec<char> = vec!['G', 'r', 'a', 'b', 'b', 'e', 'd', ' '];
            let n = usize_text(ok);
            push_all(&mut text, n.as_slice());
            assert(text@ =~= grabbed_text(ok as nat));
            self.set_message(Some(string_of(text.as_slice())));
        }
    }

    /// A click on the header of column `key`: the same column flips its
    /// direction, a new column starts descending; then the view is recomputed.
    pub fn sort_by_header(&mut self, key: SortKey, keep: &[bool])
        requires
            keep@.len() >= old(self)@.items.len(),
        ensures
            final(self)@.wf(),
            final(self)@.primary == header_sort(old(self)@.primary, key),
            final(self)@.secondary == old(self)@.secondary,
            final(self)@.items == old(self)@.items,
            is_view_of(
                final(self)@.items,
                final(self)@.names_lower,
                keep@,
                final(self)@.primary,
                final(self)@.secondary,
                final(self)@.view,
            ),
    {
        let asc = if self.primary.key == key {
            !self.primary.asc
        } else {
            false
        };
        let secondary = self.secondary;
        self.set_sorts(SortSpec { key, asc }, secondary);
        self.recompute(keep);
    }

    /// Chooses the sorts (from the sort menus); then the view is recomputed.
    pub fn set_sort(&mut self, primary: SortSpec, secondary: Option<SortSpec>, keep: &[bool])
        requires
            keep@.len() >= old(self)@.items.len(),
        ensures
            final(self)@.wf(),
            final(self)@.primary == primary,
            final(self)@.secondary == secondary,
            final(self)@.items == old(self)@.items,
            is_view_of(
                final(self)@.items,
                final(self)@.names_lower,
                keep@,
                final(self)@.primary,
                final(self)@.secondary,
                final(self)@.view,
            ),
    {
        self.set_sorts(primary, secondary);
        self.recompute(keep);
    }

    /// Whether a sort other than the server's order is chosen.
    pub fn sort_active(&self) -> (r: bool)
        ensures
            self@.wf(),
            r == !(self@.primary == SortSpec::spec_default() && self@.secondary is None),
    {
        proof {
            use_type_invariant(self);
        }
        !(self.primary == SortSpec::default_order() && self.secondary.is_none())
    }

    /// The toolbar's message: `Grabbing…` while the selection is grabbed,
    /// else the last grab message, else `N selected`.
    pub fn toolbar_message(&self) -> (r: String)
        ensures
            self@.wf(),
            self@.grab_selected_busy ==> r@ == "Grabbing…"@,
            !self@.grab_selected_busy && self@.grabbed_msg is Some ==> Some(r@) == self@.grabbed_msg,
            !self@.grab_selected_busy && self@.grabbed_msg is None ==> r@ == selected_text(
                self@.count_picked(self@.view),
            ),
    {
        proof {
            use_type_invariant(self);
        }
        if self.grab_selected_busy {
            return "Grabbing…".to_owned();
        }
        match &self.grabbed_msg {
            Some(m) => m.clone(),
            None => {
                let (selected, _) = self.selection_state();
                let mut text = usize_text(selected);
                let tail: Vec<char> = vec![' ', 's', 'e', 'l', 'e', 'c', 't', 'e', 'd'];
                push_all(&mut text, tail.as_slice());
                assert(text@ =~= selected_text(selected as nat));
                string_of(text.as_slice())
            },
        }
    }

    /// The select box of row `ix`: none for a row that cannot be selected,
    /// else on or off as the row is selected.
    pub fn row_check(&self, ix: usize) -> (r: Option<Check>)
        requires
            ix < self@.items.len(),
        ensures
            self@.wf(),
            !self@.selectable(ix as int) ==> r is None,
            self@.selectable(ix as int) ==> r == Some(
                if self@.marks[ix as int].selected {
                    Check::On
                } else {
                    Check::Off
                },
            ),
    {
        proof {
            use_type_invariant(self);
        }
        if !self.is_selectable(ix) {
            None
        } else if self.marks[ix].selected {
            Some(Check::On)
        } else {
            Some(Check::Off)
        }
    }

    /// The grab cell of row `ix`: a tick when rqbit has the row or its grab
    /// succeeded, a dash when it has no link, else by its grab: an ellipsis
    /// while running, a Retry button (with the error) after a failure, and
    /// a Grab button otherwise.
    pub fn grab_cell(&self, ix: usize) -> (r: GrabCell)
        requires
            ix < self@.items.len(),
        ensures
            self@.wf(),
            grab_cell_is(r, self@.items[ix as int], self@.marks[ix as int]),
    {
        proof {
            use_type_invariant(self);
        }
        let item = &self.items[ix];
        let done = match self.marks[ix].grab {
            GrabState::Done => true,
            _ => false,
        };
        if item.already_added || done {
            GrabCell::Done
        } else if item.magnet.as_str().is_empty() {
            GrabCell::NoLink
        } else {
            match &self.marks[ix].grab {
                GrabState::Busy => GrabCell::Busy,
                GrabState::Failed(e) => GrabCell::Retry(e.clone()),
                _ => GrabCell::Grab,
            }
        }
    }

    /// `N shown / M`: shown rows out of all rows.
    pub fn shown_message(&self) -> (r: String)
        ensures
            self@.wf(),
            r@ == shown_text(self@.view.len(), self@.items.len()),
    {
        proof {
            use_type_invariant(self);
        }
        let mut text = usize_text(self.view.len());
        let mid: Vec<char> = vec![' ', 's', 'h', 'o', 'w', 'n', ' ', '/', ' '];
        push_all(&mut text, mid.as_slice());
        push_all(&mut text, usize_text(self.items.len()).as_slice());
        assert(text@ =~= shown_text(self@.view.len(), self@.items.len()));
        string_of(text.as_slice())
    }
}

/// The arrow a column header shows for the primary sort: ` ↑` ascending or
/// ` ↓` descending on the sorted column, nothing on the others.
pub fn sort_arrow(key: SortKey, primary: SortSpec) -> (r: &'static str)
    ensures
        primary.key != key ==> r@ == ""@,
        primary.key == key && primary.asc ==> r@ == " ↑"@,
        primary.key == key && !primary.asc ==> r@ == " ↓"@,
{
    if primary.key != key {
        ""
    } else if primary.asc {
        " ↑"
    } else {
        " ↓"
    }
}

/// What the grab cell of a row shows.
pub enum GrabCell {
    /// A tick: rqbit has the row, or its grab succeeded.
    Done,
    /// A dash: the row has no link.
    NoLink,
    /// An ellipsis: the row's grab is running.
    Busy,
    /// A Retry button, with the error of the failed grab.
    Retry(String),
    /// A Grab button.
    Grab,
}

/// `cell` is the grab cell of a row `item` marked `mark`.
pub open spec fn grab_cell_is(cell: GrabCell, item: ApiItem, mark: Mark) -> bool {
    if item.already_added || mark.grab is Done {
        cell is Done
    } else if item.magnet@.len() == 0 {
        cell is NoLink
    } else {
        match mark.grab {
            GrabState::Busy => cell is Busy,
            GrabState::Failed(e) => cell matches GrabCell::Retry(m) && m@ == e@,
            _ => cell is Grab,
        }
    }
}

/// The title of the header of column `key`.
pub open spec fn column_title(key: SortKey) -> Seq<char> {
    match key {
        SortKey::Name => seq!['N', 'a', 'm', 'e'],
        SortKey::Seeders => seq!['S', '/', 'P'],
        SortKey::Size => seq!['S', 'i', 'z', 'e'],
        SortKey::Date => seq!['D', 'a', 't', 'e'],
    }
}

/// The text of the header of column `key`: its title, then the arrow of
/// the primary sort when it sorts by that column.
pub fn header_label(key: SortKey, primary: SortSpec) -> (r: String)
    ensures
        primary.key != key ==> r@ == column_title(key),
        primary.key == key && primary.asc ==> r@ == column_title(key) + " ↑"@,
        primary.key == key && !primary.asc ==> r@ == column_title(key) + " ↓"@,
{
    let mut out: Vec<char> = match key {
        SortKey::Name => vec!['N', 'a', 'm', 'e'],
        SortKey::Seeders => vec!['S', '/', 'P'],
        SortKey::Size => vec!['S', 'i', 'z', 'e'],
        SortKey::Date => vec!['D', 'a', 't', 'e'],
    };
    assert(out@ == column_title(key));
    let arrow = sort_arrow(key, primary);
    push_all(&mut out, chars_of(arrow).as_slice());
    if primary.key != key {
        proof {
            reveal_strlit("");
        }
        assert(out@ =~= column_title(key));
    }
    string_of(out.as_slice())
}

/// The rows `picked_rows` lists are distinct rows of the table, and a row is
/// among them exactly when the view lists it and it is picked.
pub proof fn lemma_picked_rows(t: TableView, view: Seq<usize>)
    requires
        t.wf(),
        forall|k: int| 0 <= k < view.len() ==> #[trigger] view[k] < t.items.len(),
        forall|k: int, l: int| 0 <= k < l < view.len() ==> view[k] != view[l],
    ensures
        forall|k: int| 0 <= k < t.picked_rows(view).len() ==> #[trigger] t.picked_rows(view)[k] < t.items.len(),
        forall|k: int, l: int|
            0 <= k < l < t.picked_rows(view).len() ==> t.picked_rows(view)[k] != t.picked_rows(view)[l],
        forall|i: int| 0 <= i < t.items.len() ==> (#[trigger] t.picked_rows(view).contains(i as usize) <==> (
        view.contains(i as usize) && t.picked(i))),
        t.picked_rows(view).len() == t.count_picked(view),
    decreases view.len(),
{
    if view.len() > 0 {
        let prefix = view.drop_last();
        let last = view.last();
        lemma_picked_rows(t, prefix);
        let p = t.picked_rows(prefix);
        assert(view =~= prefix.push(last));
        if t.picked(last as int) {
            assert(t.picked_rows(view) == p.push(last));
        } else {
            assert(t.picked_rows(view) == p);
        }
        assert forall|i: int| 0 <= i < t.items.len() implies (#[trigger] t.picked_rows(view).contains(i as usize) <==> (
        view.contains(i as usize) && t.picked(i))) by {
            let iu = i as usize;
            vstd::seq_lib::lemma_seq_contains_after_push(prefix, last, iu);
            vstd::seq_lib::lemma_seq_contains_after_push(p, last, iu);
            assert(iu as int == i);
            assert(p.contains(iu) <==> (prefix.contains(iu) && t.picked(i)));
            if last == iu {
                assert(last as int == i);
            }
        }
        if t.picked(last as int) {
            assert(t.picked_rows(view) == p.push(last));
            assert(!prefix.contains(last)) by {
                if prefix.contains(last) {
                    let w = choose|w: int| 0 <= w < prefix.len() && prefix[w] == last;
                    assert(view[w] == view[view.len() - 1]);
                }
            }
            assert(last < t.items.len());
            assert((last as int) as usize == last);
            assert(p.contains((last as int) as usize) <==> (prefix.contains((last as int) as usize) && t.picked(last as int)));
            assert(!p.contains(last));
            assert forall|k: int, l: int| 0 <= k < l < t.picked_rows(view).len() implies t.picked_rows(
                view,
            )[k] != t.picked_rows(view)[l] by {
                if l == p.len() {
                    assert(p[k] != last) by {
                        if p[k] == last {
                            assert(p.contains(last));
                        }
                    }
                }
            }
        }
    } else {
        assert(t.picked_rows(view) =~= Seq::<usize>::empty());
        assert forall|i: int| 0 <= i < t.items.len() implies (#[trigger] t.picked_rows(view).contains(
            i as usize,
        ) <==> (view.contains(i as usize) && t.picked(i))) by {
            assert(!t.picked_rows(view).contains(i as usize));
            assert(!view.contains(i as usize));
        }
    }
}

// ---------------------------------------------------------------------------
// Laws

/// The grabs of rows `jobs` ending with `results`, one after the other:
/// each row of `jobs` ends as its result says, other rows and the rest of
/// the table stay as they were.
proof fn lemma_after_finishes(t: TableView, jobs: Seq<usize>, results: Seq<Result<(), String>>)
    requires
        t.wf(),
        jobs.len() == results.len(),
        forall|k: int| 0 <= k < jobs.len() ==> #[trigger] jobs[k] < t.items.len(),
        forall|k: int, l: int| 0 <= k < l < jobs.len() ==> jobs[k] != jobs[l],
    ensures
        ({
            let u = t.after_finishes(jobs, results);
            &&& u == (TableView { marks: u.marks, ..t })
            &&& u.marks.len() == t.marks.len()
            &&& forall|m: int|
                0 <= m < jobs.len() ==> (#[trigger] results[m] is Ok ==> u.marks[jobs[m] as int] == Mark {
                    selected: false,
                    grab: GrabState::Done,
                })
            &&& forall|m: int|
                0 <= m < jobs.len() ==> (#[trigger] results[m] matches Err(e) ==> u.marks[jobs[m] as int]
                    == Mark { selected: t.marks[jobs[m] as int].selected, grab: GrabState::Failed(e) })
            &&& forall|i: int|
                0 <= i < t.marks.len() && !jobs.contains(i as usize) ==> #[trigger] u.marks[i] == t.marks[i]
        }),
    decreases jobs.len(),
{
    if jobs.len() > 0 {
        let pj = jobs.drop_last();
        let pr = results.drop_last();
        lemma_after_finishes(t, pj, pr);
        let prev = t.after_finishes(pj, pr);
        let n = jobs.len() - 1;
        let last = jobs.last();
        assert(last == jobs[n]);
        assert(results.last() == results[n]);
        assert forall|m: int| 0 <= m < n implies jobs[m] != last && #[trigger] pj[m] == jobs[m] && pr[m]
            == results[m] by {}
        assert forall|i: int|
            0 <= i < t.marks.len() && !#[trigger] jobs.contains(i as usize) implies !pj.contains(i as usize)
            && i != last as int by {
            if pj.contains(i as usize) {
                let w = choose|w: int| 0 <= w < pj.len() && pj[w] == i as usize;
                assert(jobs[w] == i as usize);
            }
            if i == last as int {
                assert(jobs[n] == i as usize);
            }
        }
        assert(!pj.contains(last)) by {
            if pj.contains(last) {
                let w = choose|w: int| 0 <= w < pj.len() && pj[w] == last;
                assert(jobs[w] == jobs[n]);
            }
        }
        let u = t.after_finishes(jobs, results);
        assert(u == prev.after_finish(last as int, results[n]));
        assert(last < t.items.len());
        assert forall|m: int| 0 <= m < jobs.len() implies (#[trigger] results[m] is Ok ==> u.marks[jobs[m] as int]
            == Mark { selected: false, grab: GrabState::Done }) by {
            if m < n {
                assert(pr[m] == results[m]);
                assert(pj[m] == jobs[m]);
            }
        }
        assert forall|m: int| 0 <= m < jobs.len() implies (#[trigger] results[m] matches Err(e) ==> u.marks[jobs[m] as int]
            == Mark { selected: t.marks[jobs[m] as int].selected, grab: GrabState::Failed(e) }) by {
            if m < n {
                assert(pr[m] == results[m]);
                assert(pj[m] == jobs[m]);
            }
        }
        assert forall|i: int| 0 <= i < t.marks.len() && !jobs.contains(i as usize) implies #[trigger] u.marks[i]
            == t.marks[i] by {
            assert(!pj.contains(i as usize));
        }
        assert(prev.marks[last as int] == t.marks[last as int]);
    }
}

/// Law: a grab of the selection run to its end. From the table `t` as the
/// grab started it (see [`Table::begin_grab_selected`]), the grabs of rows
/// `jobs` end with `results` one after the other, then the grab of the
/// selection ends with the count of successes: the table is no longer busy,
/// shows `Grabbed N` when `N` grabs succeeded (and keeps its message when
/// none did), each row that was grabbed is done and deselected, each whose
/// grab failed holds the error and keeps its selection, and every other row
/// and the rows, view and sorts stay as they were.
pub proof fn lemma_grab_selected_run(t: TableView, jobs: Seq<usize>, results: Seq<Result<(), String>>)
    requires
        t.wf(),
        jobs.len() == results.len(),
        forall|k: int| 0 <= k < jobs.len() ==> #[trigger] jobs[k] < t.items.len(),
        forall|k: int, l: int| 0 <= k < l < jobs.len() ==> jobs[k] != jobs[l],
    ensures
        ({
            let u = t.after_finishes(jobs, results).after_finish_selected(ok_count(results));
            &&& !u.grab_selected_busy
            &&& ok_count(results) > 0 ==> u.grabbed_msg == Some(grabbed_text(ok_count(results)))
            &&& ok_count(results) == 0 ==> u.grabbed_msg == t.grabbed_msg
            &&& u.items == t.items
            &&& u.names_lower == t.names_lower
            &&& u.view == t.view
            &&& u.primary == t.primary
            &&& u.secondary == t.secondary
            &&& u.marks.len() == t.marks.len()
            &&& forall|m: int|
                0 <= m < jobs.len() ==> (#[trigger] results[m] is Ok ==> u.marks[jobs[m] as int] == Mark {
                    selected: false,
                    grab: GrabState::Done,
                })
            &&& forall|m: int|
                0 <= m < jobs.len() ==> (#[trigger] results[m] matches Err(e) ==> u.marks[jobs[m] as int]
                    == Mark { selected: t.marks[jobs[m] as int].selected, grab: GrabState::Failed(e) })
            &&& forall|i: int|
                0 <= i < t.marks.len() && !jobs.contains(i as usize) ==> #[trigger] u.marks[i] == t.marks[i]
        }),
{
    lemma_after_finishes(t, jobs, results);
}

/// Law: what makes a row selectable. Only rqbit already having the row, an
/// empty link, or a grab that succeeded keeps a row from being selected; a
/// row whose grab failed, or is running, or never started can be selected,
/// and a click on its box flips its selection.
pub proof fn lemma_selectable_rows(t: TableView, ix: int)
    requires
        t.wf(),
        0 <= ix < t.items.len(),
    ensures
        t.selectable(ix) == (!t.items[ix].already_added && t.items[ix].magnet@.len() > 0 && !(t.marks[ix].grab is Done)),
        !t.items[ix].already_added && t.items[ix].magnet@.len() > 0 && (t.marks[ix].grab is Failed || t.marks[ix].grab is Busy
            || t.marks[ix].grab is Idle) ==> t.selectable(ix) && t.after_toggle_row(ix).marks[ix].selected
            == !t.marks[ix].selected,
{
}

/// Law: the selected shown rows never outnumber the selectable shown rows.
pub proof fn lemma_selected_within_selectable(t: TableView, view: Seq<usize>)
    ensures
        t.count_picked(view) <= t.count_selectable(view),
    decreases view.len(),
{
    if view.len() > 0 {
        lemma_selected_within_selectable(t, view.drop_last());
    }
}

/// Law: clicking the same row's box twice leaves every row's selection and
/// grab state as it was.
pub proof fn lemma_toggle_row_twice(t: TableView, ix: int)
    requires
        t.wf(),
    ensures
        t.after_toggle_row(ix).after_toggle_row(ix).marks == t.marks,
        t.after_toggle_row(ix).after_toggle_row(ix).items == t.items,
        t.after_toggle_row(ix).after_toggle_row(ix).view == t.view,
{
    let once = t.after_toggle_row(ix);
    if 0 <= ix < t.items.len() && t.selectable(ix) {
        assert(once.items == t.items);
        assert(once.marks[ix].grab == t.marks[ix].grab);
        assert(once.selectable(ix));
        assert(once.after_toggle_row(ix).marks =~= t.marks);
    }
}

/// Law: clicking a header twice sorts by that column in the opposite
/// direction of the first click, and restores the sort when the column
/// was already the sorted one.
pub proof fn lemma_header_sort_twice(primary: SortSpec, key: SortKey)
    ensures
        header_sort(header_sort(primary, key), key).key == key,
        header_sort(header_sort(primary, key), key).asc == !header_sort(primary, key).asc,
        primary.key == key ==> header_sort(header_sort(primary, key), key) == primary,
        primary.key != key ==> header_sort(primary, key).asc == false,
{
}

/// Law: once a grab of a row has succeeded, the row is neither selected nor
/// selectable and may not be grabbed again.
pub proof fn lemma_done_row_settled(t: TableView, ix: int)
    requires
        t.wf(),
        0 <= ix < t.marks.len(),
        t.marks[ix] == (Mark { selected: false, grab: GrabState::Done }),
    ensures
        !t.selectable(ix),
        !t.picked(ix),
        !t.grab_allowed(ix),
        t.after_toggle_row(ix) == t,
{
}

/// Law: after select-all, either every selectable shown row is selected or
/// none is, and the table was fully selected before exactly when none is after.
pub proof fn lemma_select_all_outcome(t: TableView)
    requires
        t.wf(),
    ensures
        ({
            let u = t.after_select_all();
            &&& u.count_selectable(u.view) == t.count_selectable(t.view)
            &&& t.select_all_target() ==> u.count_picked(u.view) == u.count_selectable(u.view)
            &&& !t.select_all_target() ==> u.count_picked(u.view) == 0
        }),
{
    let u = t.after_select_all();
    lemma_select_all_counts(t, t.view);
}

/// The counts of select-all, over every prefix of the view.
proof fn lemma_select_all_counts(t: TableView, view: Seq<usize>)
    requires
        t.wf(),
        forall|k: int| 0 <= k < view.len() ==> t.view.contains(#[trigger] view[k]),
    ensures
        ({
            let u = t.after_select_all();
            &&& u.count_selectable(view) == t.count_selectable(view)
            &&& t.select_all_target() ==> u.count_picked(view) == u.count_selectable(view)
            &&& !t.select_all_target() ==> u.count_picked(view) == 0
        }),
    decreases view.len(),
{
    if view.len() > 0 {
        let u = t.after_select_all();
        assert forall|k: int| 0 <= k < view.drop_last().len() implies t.view.contains(
            #[trigger] view.drop_last()[k],
        ) by {
            assert(view.drop_last()[k] == view[k]);
        }
        lemma_select_all_counts(t, view.drop_last());
        let i = view.last() as int;
        assert(t.view.contains(view[view.len() - 1]));
        let w = choose|w: int| 0 <= w < t.view.len() && t.view[w] == view[view.len() - 1];
        assert(0 <= i < t.marks.len());
        assert(u.selectable(i) == t.selectable(i));
    }
}

} // verus!
