//! Which popover (Filter or Sort) and which sort menu of the search bar is open.
use vstd::prelude::*;
use crate::client::model::SortSpec;

verus! {

/// A popover of the search bar.
#[derive(Clone, Copy, Debug, PartialEq, Eq, Structural)]
pub enum Popover {
    Filter,
    Sort,
}

/// A sort menu of the Sort popover.
#[derive(Clone, Copy, Debug, PartialEq, Eq, Structural)]
pub enum SelectWhich {
    Primary,
    Secondary,
}

/// The open popover and sort menu, if any.
#[derive(Clone, Copy, Debug, PartialEq, Eq, Structural)]
pub struct Menus {
    pub popover: Option<Popover>,
    pub open_select: Option<SelectWhich>,
}

impl Menus {
    /// Nothing open.
    pub fn closed() -> (r: Menus)
        ensures
            r.popover is None,
            r.open_select is None,
    {
        Menus { popover: None, open_select: None }
    }

    /// Closes the popover and the sort menu (Escape, or a new search).
    pub fn close_menus(&mut self)
        ensures
            final(self).popover is None,
            final(self).open_select is None,
    {
        self.popover = None;
        self.open_select = None;
    }

    /// The menus after a click on the toggle of popover `which`.
    pub open spec fn spec_toggled(self, which: Popover, just_closed: bool) -> Menus {
        if just_closed {
            self
        } else if self.popover == Some(which) {
            Menus { popover: None, open_select: None }
        } else {
            Menus { popover: Some(which), open_select: None }
        }
    }

    /// A click on a sort menu's button: the menu opens, or closes when it is
    /// the open one; the popover stays as it is.
    pub fn toggle_select(&mut self, which: SelectWhich)
        ensures
            final(self).popover == old(self).popover,
            final(self).open_select == (if old(self).open_select == Some(which) {
                None::<SelectWhich>
            } else {
                Some(which)
            }),
    {
        self.open_select = if self.open_select == Some(which) {
            None
        } else {
            Some(which)
        };
    }

    /// A mouse-down outside the panel of popover `which`: when that popover
    /// is open, it and the sort menu close and `true` is returned (the click
    /// is remembered, see [`closed_by_same_click`]); otherwise nothing changes.
    pub fn close_on_outside_click(&mut self, which: Popover) -> (r: bool)
        ensures
            r == (old(self).popover == Some(which)),
            r ==> final(self).popover is None && final(self).open_select is None,
            !r ==> *final(self) == *old(self),
    {
        if self.popover == Some(which) {
            self.close_menus();
            true
        } else {
            false
        }
    }

    /// A click on the toggle of popover `which`: an open popover closes, a
    /// closed one opens in place of any other, and the sort menu closes.
    /// When the click's mouse-down already closed that same popover
    /// (`just_closed`), nothing changes.
    pub fn toggle_popover(&mut self, which: Popover, just_closed: bool)
        ensures
            *final(self) == old(self).spec_toggled(which, just_closed),
    {
        if just_closed {
            return;
        }
        let opening = self.popover != Some(which);
        self.close_menus();
        if opening {
            self.popover = Some(which);
        }
    }
}

/// The choices of sort menu `which`: the eight sorts, after `None` in the
/// secondary menu.
pub fn select_options(which: SelectWhich) -> (r: Vec<Option<SortSpec>>)
    ensures
        which == SelectWhich::Primary ==> r@ == SortSpec::spec_options().map_values(
            |s: SortSpec| Some(s),
        ),
        which == SelectWhich::Secondary ==> r@ == seq![None::<SortSpec>]
            + SortSpec::spec_options().map_values(|s: SortSpec| Some(s)),
{
    let mut out: Vec<Option<SortSpec>> = Vec::new();
    if which == SelectWhich::Secondary {
        out.push(None);
    }
    let ghost start = out@;
    let opts = SortSpec::options();
    let mut i: usize = 0;
    while i < opts.len()
        invariant
            i <= opts@.len(),
            opts@ == SortSpec::spec_options(),
            out@ == start + opts@.take(i as int).map_values(|s: SortSpec| Some(s)),
        decreases opts@.len() - i,
    {
        out.push(Some(opts[i]));
        assert(opts@.take(i + 1).map_values(|s: SortSpec| Some(s)) =~= opts@.take(i as int).map_values(
            |s: SortSpec| Some(s),
        ).push(Some(opts@[i as int])));
        i = i + 1;
    }
    assert(opts@.take(opts@.len() as int) =~= opts@);
    proof {
        if which == SelectWhich::Primary {
            assert(out@ =~= SortSpec::spec_options().map_values(|s: SortSpec| Some(s)));
        }
    }
    out
}

/// The sorts after choice `choice` in sort menu `which`: the primary menu
/// sets the primary sort (the server's order for no choice), the secondary
/// menu the secondary sort.
pub fn chosen_sorts(
    which: SelectWhich,
    choice: Option<SortSpec>,
    primary: SortSpec,
    secondary: Option<SortSpec>,
) -> (r: (SortSpec, Option<SortSpec>))
    ensures
        which == SelectWhich::Primary ==> r == (
            match choice {
                Some(s) => s,
                None => SortSpec::spec_default(),
            },
            secondary,
        ),
        which == SelectWhich::Secondary ==> r == (primary, choice),
{
    match which {
        SelectWhich::Primary => (
            match choice {
                Some(s) => s,
                None => SortSpec::default_order(),
            },
            secondary,
        ),
        SelectWhich::Secondary => (primary, choice),
    }
}

/// The label of a sort menu choice: the sort's label, or `None`.
pub fn choice_label(choice: Option<SortSpec>) -> (r: &'static str)
    ensures
        match choice {
            Some(s) => r@ == s.spec_label(),
            None => r@ == "None"@,
        },
{
    match choice {
        Some(s) => s.label(),
        None => "None",
    }
}

/// Whether a popover closed by a mouse-down should keep its toggle's click
/// from reopening it: it is the same popover, closed less than 600 ms ago.
pub fn closed_by_same_click(closed: Popover, which: Popover, elapsed_ms: u128) -> (r: bool)
    ensures
        r == (closed == which && elapsed_ms < 600),
{
    closed == which && elapsed_ms < 600
}

/// Law: two clicks on the same toggle (neither following a close by
/// mouse-down) leave that popover open if it was open before them, and
/// closed if it was not; the sort menu is closed either way.
pub proof fn lemma_toggle_twice(m: Menus, which: Popover)
    ensures
        m.spec_toggled(which, false).spec_toggled(which, false).popover == (if m.popover == Some(which) {
            Some(which)
        } else {
            None::<Popover>
        }),
        m.spec_toggled(which, false).spec_toggled(which, false).open_select is None,
{
}

} // verus!
