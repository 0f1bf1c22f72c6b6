use vstd::prelude::*;

verus! {

/// The open tabs and which of them is shown.
pub struct TabList<T> {
    pub items: Vec<T>,
    pub active: usize,
}

impl<T> TabList<T> {
    /// The active index designates an open tab, or is 0 when none is open.
    pub open spec fn wf(&self) -> bool {
        if self.items@.len() == 0 { self.active == 0 } else { self.active < self.items@.len() }
    }

    /// No tab open.
    pub fn new() -> (t: Self)
        ensures
            t.items@.len() == 0,
            t.active == 0,
            t.wf(),
    {
        TabList { items: Vec::new(), active: 0 }
    }

    /// Opens a tab at the end and makes it the active one.
    pub fn push(&mut self, item: T)
        ensures
            final(self).items@ == old(self).items@.push(item),
            final(self).active == old(self).items@.len(),
            final(self).wf(),
    {
        self.items.push(item);
        self.active = self.items.len() - 1;
    }

    /// Closes tab `index`, unless it is the last tab open; the active index
    /// moves to the last tab when it falls past the end. Returns whether a
    /// tab was closed.
    pub fn close(&mut self, index: usize) -> (closed: bool)
        requires
            old(self).items@.len() > 1 ==> index < old(self).items@.len(),
        ensures
            closed == (old(self).items@.len() > 1),
            closed ==> final(self).items@ == old(self).items@.remove(index as int),
            closed ==> final(self).active == (if old(self).active >= final(self).items@.len() {
                (final(self).items@.len() - 1) as usize
            } else {
                old(self).active
            }),
            !closed ==> final(self).items@ == old(self).items@ && final(self).active == old(self).active,
            old(self).wf() ==> final(self).wf(),
    {
        if self.items.len() > 1 {
            self.items.remove(index);
            if self.active >= self.items.len() {
                self.active = self.items.len() - 1;
            }
            true
        } else {
            false
        }
    }

    /// Makes tab `index` the active one, if it is open.
    pub fn switch_to(&mut self, index: usize)
        ensures
            final(self).items@ == old(self).items@,
            final(self).active == (if index < old(self).items@.len() {
                index
            } else {
                old(self).active
            }),
            old(self).wf() ==> final(self).wf(),
    {
        if index < self.items.len() {
            self.active = index;
        }
    }

    /// The active tab, if one is open.
    pub fn active_mut(&mut self) -> (r: Option<&mut T>)
        ensures
            match r {
                Some(t) => {
                    &&& old(self).active < old(self).items@.len()
                    &&& *t == old(self).items@[old(self).active as int]
                    &&& final(self).items@ == old(self).items@.update(old(self).active as int, *final(t))
                    &&& final(self).active == old(self).active
                },
                None => old(self).active >= old(self).items@.len() && final(self).items@
                    == old(self).items@ && final(self).active == old(self).active,
            },
    {
        if self.active < self.items.len() {
            Some(&mut self.items[self.active])
        } else {
            None
        }
    }
}

} // verus!
