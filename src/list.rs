use vstd::prelude::*;

verus! {

/// A list of items with at most one selected, by index.
pub struct StatefulList<T> {
    pub selected: Option<usize>,
    pub items: Vec<T>,
}

impl<T> StatefulList<T> {
    /// The list of `items`, nothing selected.
    pub fn with_items(items: Vec<T>) -> (r: Self)
        ensures
            r.items@ == items@,
            r.selected is None,
    {
        Self { selected: None, items }
    }

    /// Selects the following item, wrapping from the last to the first; with
    /// nothing selected, the first.
    pub fn next(&mut self)
        requires
            old(self).selected is Some ==> old(self).items@.len() > 0,
        ensures
            final(self).items@ == old(self).items@,
            final(self).selected == Some(
                match old(self).selected {
                    Some(i) => if i >= old(self).items@.len() - 1 {
                        0usize
                    } else {
                        (i + 1) as usize
                    },
                    None => 0usize,
                },
            ),
    {
        let i = match self.selected {
            Some(i) => {
                if i >= self.items.len() - 1 {
                    0
                } else {
                    i + 1
                }
            },
            None => 0,
        };
        self.selected = Some(i);
    }

    /// Selects the preceding item, wrapping from the first to the last; with
    /// nothing selected, the first.
    pub fn previous(&mut self)
        requires
            old(self).selected == Some(0usize) ==> old(self).items@.len() > 0,
        ensures
            final(self).items@ == old(self).items@,
            final(self).selected == Some(
                match old(self).selected {
                    Some(i) => if i == 0 {
                        (old(self).items@.len() - 1) as usize
                    } else {
                        (i - 1) as usize
                    },
                    None => 0usize,
                },
            ),
    {
        let i = match self.selected {
            Some(i) => {
                if i == 0 {
                    self.items.len() - 1
                } else {
                    i - 1
                }
            },
            None => 0,
        };
        self.selected = Some(i);
    }
}

} // verus!
