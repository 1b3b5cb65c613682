use vstd::prelude::*;

verus! {

/// A row of tab titles with one selected tab.
pub struct TabsState<'a> {
    pub titles: Vec<&'a str>,
    pub index: usize,
}

impl<'a> TabsState<'a> {
    /// The selected index points at one of the titles.
    pub open spec fn wf(&self) -> bool {
        self.index < self.titles@.len()
    }

    /// Tabs with the given titles, the first one selected.
    pub fn new(titles: Vec<&'a str>) -> (r: Self)
        ensures
            r.titles@ == titles@,
            r.index == 0,
    {
        Self { titles, index: 0 }
    }

    /// Selects the following tab, wrapping from the last to the first.
    pub fn next(&mut self)
        requires
            old(self).titles@.len() > 0,
        ensures
            final(self).titles@ == old(self).titles@,
            final(self).index == (old(self).index + 1) % (old(self).titles@.len() as int),
    {
        self.index = ((self.index as u128 + 1) % (self.titles.len() as u128)) as usize;
    }

    /// Selects the preceding tab, wrapping from the first to the last.
    pub fn previous(&mut self)
        requires
            old(self).titles@.len() > 0,
        ensures
            final(self).titles@ == old(self).titles@,
            final(self).index == if old(self).index > 0 {
                old(self).index - 1
            } else {
                old(self).titles@.len() - 1
            },
    {
        if self.index > 0 {
            self.index -= 1;
        } else {
            self.index = self.titles.len() - 1;
        }
    }
}

} // verus!
