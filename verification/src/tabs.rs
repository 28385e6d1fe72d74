//! The battery tabs: their titles and which one is selected.

use vstd::prelude::*;

verus! {

/// Tab titles and the selected tab. The selection always names an existing
/// tab (or is 0 when there is none).
#[derive(Debug)]
pub struct TabBar {
    titles: Vec<String>,
    index: usize,
}

impl TabBar {
    #[verifier::type_invariant]
    spec fn selection_in_range(self) -> bool {
        self.index < self.titles@.len() || (self.titles@.len() == 0 && self.index == 0)
    }

    /// The titles, as text.
    pub closed spec fn title_texts(self) -> Seq<Seq<char>> {
        self.titles@.map_values(|t: String| t@)
    }

    /// Position of the selected tab.
    pub closed spec fn selected(self) -> nat {
        self.index as nat
    }

    /// A bar over the given titles with the first tab selected.
    pub fn new(titles: Vec<String>) -> (r: TabBar)
        ensures
            r.title_texts() == titles@.map_values(|t: String| t@),
            r.selected() == 0,
    {
        TabBar { titles, index: 0 }
    }

    pub fn titles(&self) -> (r: &[String])
        ensures
            r@.map_values(|t: String| t@) == self.title_texts(),
    {
        self.titles.as_slice()
    }

    /// Position of the selected tab: below the number of tabs when there is one.
    pub fn index(&self) -> (r: usize)
        ensures
            r == self.selected(),
            self.title_texts().len() > 0 ==> r < self.title_texts().len(),
    {
        proof {
            use_type_invariant(self);
        }
        self.index
    }

    /// Selects the next tab, wrapping from the last to the first.
    pub fn next(&mut self)
        ensures
            final(self).title_texts() == old(self).title_texts(),
            old(self).title_texts().len() > 0 ==> final(self).selected() == (old(self).selected() + 1)
                % old(self).title_texts().len(),
            old(self).title_texts().len() == 0 ==> final(self).selected() == 0,
    {
        proof {
            use_type_invariant(&*self);
        }
        if self.titles.len() > 0 {
            self.index = (self.index + 1) % self.titles.len();
        }
    }

    /// Selects the previous tab, wrapping from the first to the last.
    pub fn previous(&mut self)
        ensures
            final(self).title_texts() == old(self).title_texts(),
            old(self).title_texts().len() > 0 ==> final(self).selected() as int == (
            old(self).selected() + old(self).title_texts().len() - 1) % (old(
                self,
            ).title_texts().len() as int),
            old(self).title_texts().len() == 0 ==> final(self).selected() == 0,
    {
        proof {
            use_type_invariant(&*self);
        }
        let ghost n = self.titles@.len() as int;
        let ghost i = self.index as int;
        if self.index > 0 {
            proof {
                vstd::arithmetic::div_mod::lemma_mod_add_multiples_vanish(i - 1, n);
                vstd::arithmetic::div_mod::lemma_small_mod((i - 1) as nat, n as nat);
            }
            self.index = self.index - 1;
        } else if self.titles.len() > 0 {
            proof {
                vstd::arithmetic::div_mod::lemma_small_mod((n - 1) as nat, n as nat);
            }
            self.index = self.titles.len() - 1;
        }
    }
}

} // verus!
