use vstd::prelude::*;

verus! {

/// The index above `sel`, wrapping to the bottom; 0 in an empty list.
pub open spec fn index_above(sel: int, len: int) -> int {
    if len == 0 {
        0
    } else if sel == 0 {
        len - 1
    } else {
        sel - 1
    }
}

/// The index below `sel`, wrapping to the top; 0 in an empty list.
pub open spec fn index_below(sel: int, len: int) -> int {
    if len == 0 {
        0
    } else if sel + 1 >= len {
        0
    } else {
        sel + 1
    }
}

/// Moves a selection up, with wraparound.
pub fn move_up(selected: &mut usize, len: usize)
    ensures
        *final(selected) == index_above(*old(selected) as int, len as int),
{
    if len == 0 {
        *selected = 0;
    } else if *selected == 0 {
        *selected = len - 1;
    } else {
        *selected = *selected - 1;
    }
}

/// Moves a selection down, with wraparound.
pub fn move_down(selected: &mut usize, len: usize)
    ensures
        *final(selected) == index_below(*old(selected) as int, len as int),
{
    if len == 0 || *selected >= len - 1 {
        *selected = 0;
    } else {
        *selected = *selected + 1;
    }
}

/// A list view with a selected row. The moves are `move_up` and
/// `move_down` above, applied to `selected` and `len`.
pub trait Selectable {
    /// Number of rows.
    fn len(&self) -> usize;

    /// The selected row.
    fn selected(&self) -> usize;

    /// Selects a row.
    fn set_selected(&mut self, index: usize);

    /// Whether there are no rows.
    fn is_empty(&self) -> bool {
        self.len() == 0
    }

    /// Moves the selection up, with wraparound.
    fn move_up(&mut self) {
        let mut sel = self.selected();
        move_up(&mut sel, self.len());
        self.set_selected(sel);
    }

    /// Moves the selection down, with wraparound.
    fn move_down(&mut self) {
        let mut sel = self.selected();
        move_down(&mut sel, self.len());
        self.set_selected(sel);
    }
}

} // verus!
