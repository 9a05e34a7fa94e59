//! A list of plugin instances together with the front end's selection
//! state: which row is highlighted, and the last row that was.

use crate::lv2::Lv2;
use crate::lv2_simulator::Lv2Simulator;
use crate::lv2_simulator::SimV;
use crate::lv2_simulator::Status;
use vstd::prelude::*;

verus! {

/// Selection state of a list: the selected row, if any, and the scroll
/// offset.
#[derive(Clone, Copy, Debug, PartialEq, Eq, Structural, Default)]
pub struct ListSelection {
    pub selected: Option<usize>,
    pub offset: usize,
}

impl ListSelection {
    pub fn selected(&self) -> (r: Option<usize>)
        ensures
            r == self.selected,
    {
        self.selected
    }

    pub fn select(&mut self, sel: Option<usize>)
        ensures
            final(self).selected == sel,
            final(self).offset == old(self).offset,
    {
        self.selected = sel;
    }
}

/// The instances shown in one list, with the selection state.
#[derive(Clone, Debug, PartialEq)]
pub struct Lv2StatefulList {
    /// Which row is selected, and the scroll position.
    pub state: ListSelection,
    pub items: Vec<Lv2Simulator>,
    /// The row that was selected before the selection was cleared.
    pub last_selected: Option<usize>,
}

impl Lv2StatefulList {
    /// The instances as mathematical values.
    pub open spec fn view_items(&self) -> Seq<SimV> {
        self.items@.map_values(|s: Lv2Simulator| s@)
    }

    /// A selected or remembered row is always in range.
    pub open spec fn wf(&self) -> bool {
        &&& match self.state.selected {
            Some(i) => i < self.items@.len(),
            None => true,
        }
        &&& match self.last_selected {
            Some(i) => i < self.items@.len(),
            None => true,
        }
    }

    /// The largest slot number among `items`; zero where there are none.
    pub open spec fn max_mh_id(items: Seq<SimV>) -> nat
        decreases items.len(),
    {
        if items.len() == 0 {
            0
        } else {
            let rest = Self::max_mh_id(items.drop_last());
            if rest > items.last().mh_id {
                rest
            } else {
                items.last().mh_id as nat
            }
        }
    }

    /// A new instance of `lv2`, in the next free slot: one more than the
    /// largest slot in this list.
    pub fn mk_lv2_simulator(&mut self, lv2: &Lv2) -> (r: Result<Lv2Simulator, String>)
        requires
            Self::max_mh_id(old(self).view_items()) < usize::MAX,
        ensures
            *final(self) == *old(self),
            match r {
                Ok(s) => s@.mh_id == Self::max_mh_id(old(self).view_items()) + 1 && s@.url == lv2@.url
                    && s@.name == lv2@.name && s@.status == Status::Pending,
                Err(_) => false,
            },
    {
        let n = self.items.len();
        let mut mh_id: usize = 0;
        let mut i: usize = 0;
        while i < n
            invariant
                i <= n,
                n == self.items@.len(),
                mh_id == Self::max_mh_id(self.view_items().subrange(0, i as int)),
                Self::max_mh_id(self.view_items()) < usize::MAX,
            decreases n - i,
        {
            proof {
                let t = self.view_items().subrange(0, i + 1);
                assert(t.drop_last() =~= self.view_items().subrange(0, i as int));
                assert(t.last() == self.view_items()[i as int]);
                lemma_max_mh_id_bound(self.view_items(), i + 1);
            }
            if self.items[i].mh_id > mh_id {
                mh_id = self.items[i].mh_id;
            }
            i += 1;
        }
        proof {
            assert(self.view_items().subrange(0, n as int) =~= self.view_items());
        }
        let result = Lv2Simulator {
            mh_id: mh_id + 1,
            url: lv2.url.clone(),
            name: lv2.name.clone(),
            status: Status::Pending,
        };
        Ok(result)
    }

    /// The url of the selected instance.
    pub fn get_selected_url(&self) -> (r: Option<String>)
        requires
            self.wf(),
        ensures
            match (r, self.state.selected) {
                (Some(u), Some(i)) => u@ == self.view_items()[i as int].url,
                (None, None) => true,
                _ => false,
            },
    {
        match self.state.selected() {
            Some(t) => Some(self.items[t].url.clone()),
            None => None,
        }
    }

    /// The slot number of the selected instance.
    pub fn get_selected_mh_id(&self) -> (r: Option<usize>)
        requires
            self.wf(),
        ensures
            match (r, self.state.selected) {
                (Some(id), Some(i)) => id == self.view_items()[i as int].mh_id,
                (None, None) => true,
                _ => false,
            },
    {
        match self.state.selected() {
            Some(t) => Some(self.items[t].mh_id),
            None => None,
        }
    }

    /// A list over the given instances, with nothing selected.
    pub fn new(types: Vec<Lv2Simulator>) -> (r: Lv2StatefulList)
        ensures
            r.items == types,
            r.state.selected is None,
            r.last_selected is None,
            r.wf(),
    {
        Lv2StatefulList {
            state: ListSelection { selected: None, offset: 0 },
            last_selected: None,
            items: types,
        }
    }

    /// An empty list.
    pub fn empty() -> (r: Lv2StatefulList)
        ensures
            r.items@.len() == 0,
            r.state.selected is None,
            r.last_selected is None,
            r.wf(),
    {
        Lv2StatefulList {
            state: ListSelection { selected: None, offset: 0 },
            items: Vec::new(),
            last_selected: None,
        }
    }

    /// Move the selection one row down; at the bottom it stays put.  An
    /// empty list is left untouched.
    pub fn next(&mut self)
        requires
            old(self).wf(),
        ensures
            final(self).wf(),
            final(self).items == old(self).items,
            final(self).last_selected == old(self).last_selected,
            old(self).items@.len() == 0 ==> *final(self) == *old(self),
            old(self).items@.len() > 0 ==> final(self).state.selected == Some(
                match old(self).state.selected {
                    Some(i) => if i + 1 >= old(self).items@.len() {
                        i
                    } else {
                        (i + 1) as usize
                    },
                    None => match old(self).last_selected {
                        Some(l) => l,
                        None => 0usize,
                    },
                },
            ),
    {
        if self.items.len() == 0 {
            return ;
        }
        let i: usize = match self.state.selected() {
            Some(i) => {
                if i + 1 >= self.items.len() {
                    i
                } else {
                    i + 1
                }
            },
            None => {
                match self.last_selected {
                    Some(l) => l,
                    None => 0,
                }
            },
        };
        self.state.select(Some(i));
    }

    /// Move the selection one row up; at the top it stays put.  An empty
    /// list is left untouched.
    pub fn previous(&mut self)
        requires
            old(self).wf(),
        ensures
            final(self).wf(),
            final(self).items == old(self).items,
            final(self).last_selected == old(self).last_selected,
            old(self).items@.len() == 0 ==> *final(self) == *old(self),
            old(self).items@.len() > 0 ==> final(self).state.selected == Some(
                match old(self).state.selected {
                    Some(i) => if i == 0 {
                        0usize
                    } else {
                        (i - 1) as usize
                    },
                    None => match old(self).last_selected {
                        Some(l) => l,
                        None => 0usize,
                    },
                },
            ),
    {
        if self.items.len() == 0 {
            return ;
        }
        let i: usize = match self.state.selected() {
            Some(i) => {
                if i == 0 {
                    0
                } else {
                    i - 1
                }
            },
            None => {
                match self.last_selected {
                    Some(l) => l,
                    None => 0,
                }
            },
        };
        self.state.select(Some(i));
    }

    /// Clear the selection, remembering it in `last_selected`; the scroll
    /// offset is kept.
    pub fn unselect(&mut self)
        requires
            old(self).wf(),
        ensures
            final(self).wf(),
            final(self).items == old(self).items,
            final(self).state.selected is None,
            final(self).state.offset == old(self).state.offset,
            final(self).last_selected == old(self).state.selected,
    {
        let offset = self.state.offset;
        self.last_selected = self.state.selected();
        self.state.select(None);
        self.state.offset = offset;
    }
}

proof fn lemma_max_mh_id_bound(items: Seq<SimV>, n: int)
    requires
        0 <= n <= items.len(),
    ensures
        Lv2StatefulList::max_mh_id(items.subrange(0, n)) <= Lv2StatefulList::max_mh_id(items),
    decreases items.len() - n,
{
    if n < items.len() {
        lemma_max_mh_id_bound(items, n + 1);
        let t = items.subrange(0, n + 1);
        assert(t.drop_last() =~= items.subrange(0, n));
    } else {
        assert(items.subrange(0, n) =~= items);
    }
}

} // verus!
