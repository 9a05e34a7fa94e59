//! Sections of a pad controller: a group of pads that share one colour
//! and emit one note.  Pads are numbered 11 to 88, row by row, with no
//! pad number ending in 0 or 9.

use vstd::prelude::*;

verus! {

/// The errors pad-section handling can raise.
#[derive(Clone, Copy, Debug, PartialEq, Eq, Structural)]
pub enum LpxCtlError {
    /// A section whose pad list is not valid.
    InvalidSection,
}

/// Is `pad` a valid pad number: 11 to 88, not ending in 0 or 9?
pub open spec fn valid_pad_spec(pad: u8) -> bool {
    11 <= pad <= 88 && pad % 10 != 0 && pad % 10 != 9
}

/// A valid pad list: every pad valid, no repeats, at most 64 pads.
pub open spec fn valid_pads(pads: Seq<u8>) -> bool {
    &&& forall|i: int| 0 <= i < pads.len() ==> valid_pad_spec(#[trigger] pads[i])
    &&& forall|i: int, j: int| 0 <= i < j < pads.len() ==> pads[i] != pads[j]
    &&& pads.len() <= 64
}

/// Do two pad lists share a pad?
pub open spec fn pads_intersect(a: Seq<u8>, b: Seq<u8>) -> bool {
    exists|i: int, j: int| 0 <= i < a.len() && 0 <= j < b.len() && a[i] == b[j]
}

/// A group of pads that share one colour and emit one note.
#[derive(Clone, Debug, PartialEq)]
pub struct Section {
    /// The pads in the section, each 11 to 88, without repeats.
    pub pads: Vec<u8>,
    pub main_colour: [u8; 3],
    pub active_colour: [u8; 3],
    pub midi_note: u8,
}

impl Section {
    /// A new section over the given pads.  The pad list must be valid:
    /// every pad in range, no repeats, at most 64 pads.
    pub fn new(pads: Vec<u8>, main_colour: [u8; 3], active_colour: [u8; 3], midi_note: u8) -> (r:
        Self)
        requires
            valid_pads(pads@),
        ensures
            r.pads == pads,
            r.main_colour == main_colour,
            r.active_colour == active_colour,
            r.midi_note == midi_note,
    {
        let result = Self { pads, main_colour, active_colour, midi_note };
        let ok = result.valid();
        assert(ok);
        result
    }

    /// Check the constraints on a section: each pad valid, no repeats,
    /// and at most 64 pads.
    pub fn valid(&self) -> (r: bool)
        ensures
            r == valid_pads(self.pads@),
    {
        let n = self.pads.len();
        if n > 64 {
            return false;
        }
        let mut i: usize = 0;
        while i < n
            invariant
                i <= n,
                n == self.pads@.len(),
                forall|k: int| 0 <= k < i ==> valid_pad_spec(#[trigger] self.pads@[k]),
                forall|k: int, j: int| 0 <= k < j < i ==> self.pads@[k] != self.pads@[j],
            decreases n - i,
        {
            if !Self::valid_pad(self.pads[i]) {
                return false;
            }
            let mut j: usize = 0;
            while j < i
                invariant
                    j <= i < n,
                    n == self.pads@.len(),
                    forall|k: int| 0 <= k < j ==> self.pads@[k] != self.pads@[i as int],
                decreases i - j,
            {
                if self.pads[j] == self.pads[i] {
                    return false;
                }
                j += 1;
            }
            i += 1;
        }
        true
    }

    /// Is `pad` a valid pad number?
    pub fn valid_pad(pad: u8) -> (r: bool)
        ensures
            r == valid_pad_spec(pad),
    {
        11 <= pad && pad <= 88 && pad % 10 != 0 && pad % 10 != 9
    }

    /// Do this section and `other` share a pad?
    pub fn intersect(&self, other: &Self) -> (r: bool)
        ensures
            r == pads_intersect(self.pads@, other.pads@),
    {
        let n = self.pads.len();
        let m = other.pads.len();
        let mut i: usize = 0;
        while i < n
            invariant
                i <= n,
                n == self.pads@.len(),
                m == other.pads@.len(),
                forall|k: int, j: int|
                    0 <= k < i && 0 <= j < m ==> #[trigger] self.pads@[k] != #[trigger] other.pads@[j],
            decreases n - i,
        {
            let mut j: usize = 0;
            while j < m
                invariant
                    j <= m,
                    i < n,
                    n == self.pads@.len(),
                    m == other.pads@.len(),
                    forall|k: int| 0 <= k < j ==> self.pads@[i as int] != #[trigger] other.pads@[k],
                decreases m - j,
            {
                if self.pads[i] == other.pads[j] {
                    assert(pads_intersect(self.pads@, other.pads@));
                    return true;
                }
                j += 1;
            }
            i += 1;
        }
        false
    }

    /// The pad in row `row` and column `col`.
    pub fn row_col_to_pad(row: u8, col: u8) -> (r: u8)
        requires
            row * 10 + col <= u8::MAX,
        ensures
            r == row * 10 + col,
    {
        row * 10 + col
    }

    /// The row of a pad.
    pub fn pad_to_row(pad: u8) -> (r: u8)
        ensures
            r == pad / 10,
    {
        pad / 10
    }

    /// The column of a pad.
    pub fn pad_to_col(pad: u8) -> (r: u8)
        ensures
            r == pad % 10,
    {
        pad % 10
    }

    /// Is `pad` in this section?
    pub fn pad_in(&self, pad: u8) -> (r: bool)
        ensures
            r == self.pads@.contains(pad),
    {
        let n = self.pads.len();
        let mut i: usize = 0;
        while i < n
            invariant
                i <= n,
                n == self.pads@.len(),
                forall|k: int| 0 <= k < i ==> self.pads@[k] != pad,
            decreases n - i,
        {
            if self.pads[i] == pad {
                assert(self.pads@.contains(pad));
                return true;
            }
            i += 1;
        }
        false
    }

    /// All pad numbers in this section.
    pub fn pads(&self) -> (r: &Vec<u8>)
        ensures
            r == self.pads,
    {
        &self.pads
    }

    /// How many of the sections are the default section, with no pads.
    pub open spec fn count_empty(ss: Seq<Section>) -> nat
        decreases ss.len(),
    {
        if ss.len() == 0 {
            0
        } else {
            Self::count_empty(ss.drop_last()) + if ss.last().pads@.len() == 0 {
                1nat
            } else {
                0nat
            }
        }
    }

    /// The pads of all the sections, in order.
    pub open spec fn all_pads(ss: Seq<Section>) -> Seq<u8>
        decreases ss.len(),
    {
        if ss.len() == 0 {
            Seq::empty()
        } else {
            Self::all_pads(ss.drop_last()) + ss.last().pads@
        }
    }

    /// A valid group of sections: at most one default section (with no
    /// pads), no two sections sharing a pad, and either exactly one
    /// default section or all 64 pads covered exactly once.
    pub open spec fn sections_ok(ss: Seq<Section>) -> bool {
        let dc = Self::count_empty(ss);
        &&& dc < 2
        &&& forall|i: int, j: int|
            0 <= i < j < ss.len() ==> !pads_intersect(ss[i].pads@, ss[j].pads@)
        &&& (dc == 1 || {
            let all = Self::all_pads(ss);
            all.len() == 64 && forall|i: int, j: int| 0 <= i < j < all.len() ==> all[i] != all[j]
        })
    }

    /// Check a group of sections: at most one default section, no two
    /// sections sharing a pad, and either exactly one default section or
    /// all 64 pads covered exactly once.
    pub fn check_sections(sections: &Vec<Section>) -> (r: bool)
        requires
            sections@.len() > 0,
        ensures
            r == Self::sections_ok(sections@),
    {
        let n = sections.len();
        // Count the default sections.
        let mut dc: usize = 0;
        let mut i: usize = 0;
        while i < n
            invariant
                i <= n,
                n == sections@.len(),
                dc == Self::count_empty(sections@.subrange(0, i as int)),
                dc <= i,
            decreases n - i,
        {
            proof {
                let t = sections@.subrange(0, i + 1);
                assert(t.drop_last() =~= sections@.subrange(0, i as int));
                assert(t.last() == sections@[i as int]);
            }
            if sections[i].pads.len() == 0 {
                dc += 1;
            }
            i += 1;
        }
        proof {
            assert(sections@.subrange(0, n as int) =~= sections@);
        }
        let a = dc < 2;

        // No two sections may share a pad.
        let mut b = true;
        let mut i: usize = 0;
        while i < n
            invariant
                i <= n,
                n == sections@.len(),
                b == (forall|k: int, j: int|
                    0 <= k < j < n && k < i ==> !pads_intersect(
                        sections@[k].pads@,
                        sections@[j].pads@,
                    )),
            decreases n - i,
        {
            let mut j: usize = i + 1;
            while j < n
                invariant
                    i < j <= n || (i + 1 == j && j > n),
                    i < n,
                    n == sections@.len(),
                    b == (forall|k: int, l: int|
                        (0 <= k < l < n && k < i) || (k == i && i < l < j) ==> !pads_intersect(
                            sections@[k].pads@,
                            sections@[l].pads@,
                        )),
                decreases n - j,
            {
                if sections[i].intersect(&sections[j]) {
                    b = false;
                }
                j += 1;
            }
            i += 1;
        }

        // Either exactly one default section, or all 64 pads appear
        // exactly once over the group.
        let c = if dc == 1 {
            true
        } else {
            let mut all: Vec<u8> = Vec::new();
            let mut i: usize = 0;
            while i < n
                invariant
                    i <= n,
                    n == sections@.len(),
                    all@ =~= Self::all_pads(sections@.subrange(0, i as int)),
                decreases n - i,
            {
                proof {
                    let t = sections@.subrange(0, i + 1);
                    assert(t.drop_last() =~= sections@.subrange(0, i as int));
                    assert(t.last() == sections@[i as int]);
                }
                let m = sections[i].pads.len();
                let mut j: usize = 0;
                while j < m
                    invariant
                        j <= m,
                        i < n,
                        n == sections@.len(),
                        m == sections@[i as int].pads@.len(),
                        all@ =~= Self::all_pads(sections@.subrange(0, i as int))
                            + sections@[i as int].pads@.subrange(0, j as int),
                    decreases m - j,
                {
                    all.push(sections[i].pads[j]);
                    proof {
                        assert(all@ =~= Self::all_pads(sections@.subrange(0, i as int))
                            + sections@[i as int].pads@.subrange(0, j + 1));
                    }
                    j += 1;
                }
                proof {
                    assert(sections@[i as int].pads@.subrange(0, m as int)
                        =~= sections@[i as int].pads@);
                    assert(all@ =~= Self::all_pads(sections@.subrange(0, i + 1)));
                }
                i += 1;
            }
            proof {
                assert(sections@.subrange(0, n as int) =~= sections@);
            }
            if all.len() != 64 {
                false
            } else {
                let total = all.len();
                let mut distinct = true;
                let mut i: usize = 0;
                while i < total
                    invariant
                        i <= total,
                        total == all@.len(),
                        distinct == (forall|k: int, l: int|
                            0 <= k < l < total && k < i ==> all@[k] != all@[l]),
                    decreases total - i,
                {
                    let mut j: usize = i + 1;
                    while j < total
                        invariant
                            i < j <= total || (i + 1 == j && j > total),
                            i < total,
                            total == all@.len(),
                            distinct == (forall|k: int, l: int|
                                (0 <= k < l < total && k < i) || (k == i && i < l < j) ==> all@[k]
                                    != all@[l]),
                        decreases total - j,
                    {
                        if all[i] == all[j] {
                            distinct = false;
                        }
                        j += 1;
                    }
                    i += 1;
                }
                distinct
            }
        };
        a && b && c
    }
}

} // verus!
