//! A count for each of the sixteen colors.

use itertools::Itertools;
use vstd::prelude::*;

use crate::color::{lemma_index_round_trip, Color, COLOR_COUNT};

verus! {

/// The map in which every color counts zero.
pub open spec fn no_counts() -> Map<Color, nat> {
    Map::total(|c: Color| 0nat)
}

/// Every count of `m` fits in a `u32`.
pub open spec fn counts_fit(m: Map<Color, nat>) -> bool {
    forall|c: Color| #[trigger] m[c] <= u32::MAX
}

/// The counts of the first `n` colors, in declaration order, added up.
pub open spec fn sum_first(m: Map<Color, nat>, n: int) -> nat
    decreases n,
{
    if n <= 0 {
        0
    } else {
        sum_first(m, n - 1) + m[Color::spec_from_index(n - 1)]
    }
}

/// All the units of a map: its counts over every color, added up.
pub open spec fn total_units(m: Map<Color, nat>) -> nat {
    sum_first(m, COLOR_COUNT as int)
}

/// A count for each color, zero where the color is absent.
///
/// A color counted zero and a color not present are the same thing here:
/// the view maps every color to its count.
#[derive(Debug, Clone)]
pub struct ColorCounts {
    counts: Vec<u32>,
}

impl View for ColorCounts {
    type V = Map<Color, nat>;

    closed spec fn view(&self) -> Map<Color, nat> {
        Map::total(|c: Color| self.counts@[c.spec_index() as int] as nat)
    }
}

/// Every color has a count in the view.
pub broadcast proof fn lemma_counts_total(x: &ColorCounts)
    ensures
        #[trigger] x@.dom() == Set::<Color>::full(),
{
    assert(x@.dom() =~= Set::<Color>::full());
}

impl ColorCounts {
    /// The value holds one count per color.
    pub closed spec fn wf(&self) -> bool {
        self.counts@.len() == COLOR_COUNT
    }

    /// Every color counted zero.
    pub fn new() -> (r: ColorCounts)
        ensures
            r.wf(),
            r@ == no_counts(),
    {
        let mut counts: Vec<u32> = Vec::new();
        let mut i: usize = 0;
        while i < COLOR_COUNT
            invariant
                i <= COLOR_COUNT,
                counts@.len() == i,
                forall|k: int| 0 <= k < i ==> counts@[k] == 0,
            decreases COLOR_COUNT - i,
        {
            counts.push(0);
            i += 1;
        }
        let r = ColorCounts { counts };
        assert(r@ =~= no_counts());
        r
    }

    /// The count of a color.
    pub fn get(&self, c: Color) -> (r: u32)
        requires
            self.wf(),
        ensures
            r == self@[c],
    {
        self.counts[c.index()]
    }

    /// Sets the count of a color.
    pub fn set(&mut self, c: Color, v: u32)
        requires
            old(self).wf(),
        ensures
            final(self).wf(),
            final(self)@ == old(self)@.insert(c, v as nat),
    {
        let i = c.index();
        self.counts.set(i, v);
        proof {
            assert forall|d: Color| #[trigger] final(self)@[d] == old(self)@.insert(c, v as nat)[d] by {
                if d != c {
                    lemma_index_round_trip(d);
                    lemma_index_round_trip(c);
                }
            }
            assert(final(self)@ =~= old(self)@.insert(c, v as nat));
        }
    }

    /// Adds to the count of a color.
    pub fn add(&mut self, c: Color, v: u32)
        requires
            old(self).wf(),
            old(self)@[c] + v <= u32::MAX,
        ensures
            final(self).wf(),
            final(self)@ == old(self)@.insert(c, (old(self)@[c] + v) as nat),
    {
        let x = self.get(c);
        self.set(c, x + v);
    }

    /// Removes a color: returns its count and sets it to zero.
    pub fn remove(&mut self, c: Color) -> (r: u32)
        requires
            old(self).wf(),
        ensures
            r == old(self)@[c],
            final(self).wf(),
            final(self)@ == old(self)@.insert(c, 0),
    {
        let x = self.get(c);
        self.set(c, 0);
        x
    }

    /// All the units: the counts of every color, added up.
    pub fn total(&self) -> (r: u64)
        requires
            self.wf(),
        ensures
            r == total_units(self@),
    {
        let mut sum: u64 = 0;
        let mut i: usize = 0;
        while i < COLOR_COUNT
            invariant
                self.wf(),
                i <= COLOR_COUNT,
                sum == sum_first(self@, i as int),
                sum <= i * (u32::MAX as nat),
            decreases COLOR_COUNT - i,
        {
            let v = self.get(Color::from_index(i));
            sum = sum + v as u64;
            i += 1;
        }
        sum
    }

    /// The colors with a nonzero count, with their counts, in declaration
    /// order of the colors.
    pub fn entries(&self) -> (r: Vec<(Color, u32)>)
        requires
            self.wf(),
        ensures
            forall|k: int| 0 <= k < r@.len() ==> r@[k].1 > 0 && r@[k].1 == self@[r@[k].0],
            forall|c: Color| self@[c] > 0 ==> exists|k: int| 0 <= k < r@.len() && r@[k].0 == c,
            forall|k: int, l: int|
                0 <= k < l < r@.len() ==> r@[k].0.spec_index() < r@[l].0.spec_index(),
    {
        let mut r: Vec<(Color, u32)> = Vec::new();
        let mut i: usize = 0;
        while i < COLOR_COUNT
            invariant
                self.wf(),
                i <= COLOR_COUNT,
                forall|k: int| 0 <= k < r@.len() ==> r@[k].1 > 0 && r@[k].1 == self@[r@[k].0],
                forall|k: int| 0 <= k < r@.len() ==> r@[k].0.spec_index() < i,
                forall|c: Color|
                    c.spec_index() < i && self@[c] > 0 ==> exists|k: int|
                        0 <= k < r@.len() && r@[k].0 == c,
                forall|k: int, l: int|
                    0 <= k < l < r@.len() ==> r@[k].0.spec_index() < r@[l].0.spec_index(),
            decreases COLOR_COUNT - i,
        {
            let c = Color::from_index(i);
            let v = self.get(c);
            let ghost r0 = r@;
            if v > 0 {
                r.push((c, v));
                assert(r@[r@.len() - 1].0 == c);
            }
            proof {
                assert forall|d: Color| d.spec_index() < i + 1 && self@[d] > 0 implies exists|k: int|
                    0 <= k < r@.len() && r@[k].0 == d by {
                    if d.spec_index() == i {
                        lemma_index_round_trip(d);
                        assert(r@[r@.len() - 1].0 == d);
                    } else {
                        let k = choose|k: int| 0 <= k < r0.len() && r0[k].0 == d;
                        assert(r@[k] == r0[k]);
                    }
                }
            }
            i += 1;
        }
        proof {
            assert forall|c: Color| self@[c] > 0 implies exists|k: int|
                0 <= k < r@.len() && r@[k].0 == c by {
                lemma_index_round_trip(c);
            }
        }
        r
    }
}


/// Relies on itertools' `sorted_by_key`, which sorts the entries by their
/// count and keeps them otherwise, and on std's `rev`: the same entries,
/// largest count first.
#[verifier::external_body]
fn sort_by_count_desc(v: Vec<(Color, u32)>) -> (r: Vec<(Color, u32)>)
    ensures
        r@.to_multiset() == v@.to_multiset(),
        forall|i: int, j: int| 0 <= i < j < r@.len() ==> r@[i].1 >= r@[j].1,
{
    v.into_iter().sorted_by_key(|e| e.1).rev().collect()
}

/// The colors with a nonzero count, each once with its count, largest
/// count first.
pub fn sort_map(map: &ColorCounts) -> (r: Vec<(Color, u32)>)
    requires
        map.wf(),
    ensures
        forall|k: int| 0 <= k < r@.len() ==> r@[k].1 > 0 && r@[k].1 == map@[r@[k].0],
        forall|c: Color| map@[c] > 0 ==> exists|k: int| 0 <= k < r@.len() && r@[k].0 == c,
        forall|k: int, l: int| 0 <= k < l < r@.len() ==> r@[k].0 != r@[l].0,
        forall|k: int, l: int| 0 <= k < l < r@.len() ==> r@[k].1 >= r@[l].1,
{
    broadcast use vstd::seq_lib::group_to_multiset_ensures;

    let v = map.entries();
    let ghost vs = v@;
    let r = sort_by_count_desc(v);
    proof {
        assert(vs.no_duplicates());
        vs.lemma_multiset_has_no_duplicates();
        assert forall|x: (Color, u32)| r@.to_multiset().contains(x) implies r@.to_multiset().count(x)
            == 1 by {}
        r@.lemma_multiset_has_no_duplicates_conv();
        assert forall|k: int| 0 <= k < r@.len() implies r@[k].1 > 0 && r@[k].1 == map@[r@[k].0] by {
            assert(r@.contains(r@[k]));
            assert(r@.to_multiset().count(r@[k]) > 0);
            assert(vs.to_multiset().count(r@[k]) > 0);
            assert(vs.contains(r@[k]));
        }
        assert forall|c: Color| map@[c] > 0 implies exists|k: int| 0 <= k < r@.len() && r@[k].0 == c by {
            let i = choose|i: int| 0 <= i < vs.len() && vs[i].0 == c;
            assert(vs.contains(vs[i]));
            assert(vs.to_multiset().count(vs[i]) > 0);
            assert(r@.to_multiset().count(vs[i]) > 0);
            assert(r@.contains(vs[i]));
        }
        assert forall|k: int, l: int| 0 <= k < l < r@.len() implies r@[k].0 != r@[l].0 by {
            assert(r@.contains(r@[k]) && r@.contains(r@[l]));
            assert(vs.contains(r@[k]) && vs.contains(r@[l]));
        }
    }
    r
}

} // verus!
