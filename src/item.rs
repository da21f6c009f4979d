//! Item records, and the dye demand of a list of them.

use std::collections::HashMap;

use itertools::Itertools;
use vstd::prelude::*;

use crate::color::{lemma_index_round_trip, split_name, str_eq, Color, COLOR_COUNT};
use crate::counts::{counts_fit, lemma_counts_total, ColorCounts};
use crate::engine::{ceil_div, div_ceil};

verus! {

/// Blocks one dye item colors.
pub const BLOCKS_PER_DYE: u32 = 8;

/// One line of a material list: the full item name, how many the build
/// needs in all, and how many are still missing.
#[derive(Debug, Clone, PartialEq, Eq)]
pub struct RawMaterial {
    pub item: String,
    pub total: u32,
    pub missing: u32,
}

/// An item with its color prefix split off: the rest of the name, the
/// color if the name carried one, and a count of blocks.
#[derive(Debug, Clone, PartialEq, Eq, Hash)]
pub struct Item {
    pub item: String,
    pub color: Option<Color>,
    pub count: u32,
}

/// The block families whose color comes from a dye.
pub open spec fn is_dyeable_name(s: Seq<char>) -> bool {
    ||| s == "Terracotta"@
    ||| s == "Concrete Powder"@
    ||| s == "Stained Glass"@
    ||| s == "Stained Glass Pane"@
}

/// Whether `name` is one of the dyeable block families.
pub fn is_dyeable(name: &str) -> (r: bool)
    ensures
        r == is_dyeable_name(name@),
{
    str_eq(name, "Terracotta") || str_eq(name, "Concrete Powder") || str_eq(name, "Stained Glass")
        || str_eq(name, "Stained Glass Pane")
}

/// The dye an item needs for color `c`: its blocks over eight, rounded
/// up, when the item is of a dyeable family and has color `c`; else none.
pub open spec fn item_demand(it: Item, c: Color) -> nat {
    if is_dyeable_name(it.item@) && it.color == Some(c) {
        ceil_div(it.count as nat, BLOCKS_PER_DYE as nat)
    } else {
        0
    }
}

/// The dye that a list of items needs for color `c`.
pub open spec fn demand_of(items: Seq<Item>, c: Color) -> nat
    decreases items.len(),
{
    if items.len() == 0 {
        0
    } else {
        demand_of(items.drop_last(), c) + item_demand(items.last(), c)
    }
}

/// The dye that a list of items needs, per color.
pub open spec fn color_demand(items: Seq<Item>) -> Map<Color, nat> {
    Map::total(|c: Color| demand_of(items, c))
}

/// The sum of the values that stand with key `k` in `s`.
pub open spec fn key_sum(s: Seq<(u8, u32)>, k: u8) -> nat
    decreases s.len(),
{
    if s.len() == 0 {
        0
    } else {
        key_sum(s.drop_last(), k) + if s.last().0 == k {
            s.last().1 as nat
        } else {
            0nat
        }
    }
}

/// Key `k` stands in `s`.
pub open spec fn has_key(s: Seq<(u8, u32)>, k: u8) -> bool {
    exists|i: int| 0 <= i < s.len() && s[i].0 == k
}

/// One entry per key of `s`, holding the sum of that key's values.
pub open spec fn grouped_sums(s: Seq<(u8, u32)>) -> Map<u8, u32> {
    Map::new(|k: u8| has_key(s, k), |k: u8| key_sum(s, k) as u32)
}

/// Relies on itertools' `into_grouping_map().sum()`: a map with one entry
/// per key that occurs, holding the sum of that key's values in order. The
/// sums add with `+`, so no key's sum may exceed `u32::MAX`.
#[verifier::external_body]
fn group_sum(pairs: Vec<(u8, u32)>) -> (r: HashMap<u8, u32>)
    requires
        forall|k: u8| key_sum(pairs@, k) <= u32::MAX,
    ensures
        r@ == grouped_sums(pairs@),
{
    pairs.into_iter().into_grouping_map().sum()
}

/// The (color position, dye count) pairs of the items that need dye, in
/// order.
pub open spec fn demand_pairs(items: Seq<Item>) -> Seq<(u8, u32)>
    decreases items.len(),
{
    if items.len() == 0 {
        Seq::empty()
    } else {
        let rest = demand_pairs(items.drop_last());
        let it = items.last();
        if is_dyeable_name(it.item@) && it.color is Some {
            rest.push(
                (
                    it.color.unwrap().spec_index() as u8,
                    ceil_div(it.count as nat, BLOCKS_PER_DYE as nat) as u32,
                ),
            )
        } else {
            rest
        }
    }
}

/// A key whose values sum to more than zero stands in the sequence.
proof fn lemma_key_sum_has_key(s: Seq<(u8, u32)>, k: u8)
    requires
        key_sum(s, k) > 0,
    ensures
        has_key(s, k),
    decreases s.len(),
{
    if s.last().0 != k {
        lemma_key_sum_has_key(s.drop_last(), k);
        let i = choose|i: int| 0 <= i < s.drop_last().len() && s.drop_last()[i].0 == k;
        assert(s[i].0 == k);
    } else {
        assert(s[s.len() - 1].0 == k);
    }
}

/// Summing the pairs by key gives each color's demand, and nothing for a
/// key that is no color's position.
proof fn lemma_demand_pairs(items: Seq<Item>, k: u8)
    ensures
        key_sum(demand_pairs(items), k) == if (k as int) < COLOR_COUNT {
            demand_of(items, Color::spec_from_index(k as int))
        } else {
            0
        },
    decreases items.len(),
{
    if items.len() > 0 {
        lemma_demand_pairs(items.drop_last(), k);
        let rest = demand_pairs(items.drop_last());
        let it = items.last();
        if is_dyeable_name(it.item@) && it.color is Some {
            let c = it.color.unwrap();
            lemma_index_round_trip(c);
            let p = (c.spec_index() as u8, ceil_div(it.count as nat, BLOCKS_PER_DYE as nat) as u32);
            assert(rest.push(p).drop_last() =~= rest);
            assert(ceil_div(it.count as nat, 8) <= it.count) by (nonlinear_arith)
                requires
                    it.count <= u32::MAX,
            ;
        }
    }
}

impl Item {
    /// An item record from its parts.
    pub fn new(item: String, color: Option<Color>, count: u32) -> (r: Item)
        ensures
            r.item@ == item@,
            r.color == color,
            r.count == count,
    {
        Item { item, color, count }
    }

    /// Splits the color off a material line's item name, and takes the
    /// total count when `use_total` holds, else the missing count.
    pub fn from_raw(raw: RawMaterial, use_total: bool) -> (r: Item)
        ensures
            r.color == split_name(raw.item@).0,
            r.item@ == split_name(raw.item@).1,
            r.count == if use_total {
                raw.total
            } else {
                raw.missing
            },
    {
        let (color, item) = Color::split_color(raw.item.as_str());
        let count = if use_total {
            raw.total
        } else {
            raw.missing
        };
        Item { item: item.to_owned(), color, count }
    }
}

/// The dye each color needs: over the items of a dyeable family that carry
/// a color, each item's blocks over eight, rounded up, summed per color.
pub fn compute_colors(items: &[Item]) -> (r: ColorCounts)
    requires
        counts_fit(color_demand(items@)),
    ensures
        r.wf(),
        r@ == color_demand(items@),
{
    broadcast use lemma_counts_total, vstd::std_specs::hash::group_hash_axioms;

    let mut pairs: Vec<(u8, u32)> = Vec::new();
    let mut i: usize = 0;
    assert(items@.take(0) =~= Seq::<Item>::empty());
    while i < items.len()
        invariant
            i <= items@.len(),
            pairs@ == demand_pairs(items@.take(i as int)),
        decreases items.len() - i,
    {
        let it = &items[i];
        assert(items@.take(i + 1).drop_last() =~= items@.take(i as int));
        if is_dyeable(it.item.as_str()) {
            if let Some(c) = it.color {
                let n = div_ceil(it.count, BLOCKS_PER_DYE);
                pairs.push((c.index() as u8, n));
            }
        }
        i += 1;
    }
    assert(items@.take(items@.len() as int) =~= items@);
    assert forall|k: u8| key_sum(pairs@, k) <= u32::MAX by {
        lemma_demand_pairs(items@, k);
        if (k as int) < COLOR_COUNT {
            assert(color_demand(items@)[Color::spec_from_index(k as int)] <= u32::MAX);
        }
    }
    let ghost ps = pairs@;
    let sums = group_sum(pairs);
    let mut out = ColorCounts::new();
    let mut j: usize = 0;
    while j < COLOR_COUNT
        invariant
            j <= COLOR_COUNT,
            out.wf(),
            sums@ == grouped_sums(ps),
            ps == demand_pairs(items@),
            counts_fit(color_demand(items@)),
            forall|c: Color|
                #[trigger] out@[c] == if c.spec_index() < j {
                    demand_of(items@, c)
                } else {
                    0
                },
        decreases COLOR_COUNT - j,
    {
        let c = Color::from_index(j);
        let key = j as u8;
        proof {
            lemma_demand_pairs(items@, key);
            lemma_index_round_trip(c);
        }
        match sums.get(&key) {
            Some(v) => {
                assert(color_demand(items@)[c] <= u32::MAX);
                assert(*v == demand_of(items@, c));
                out.set(c, *v);
            },
            None => {
                proof {
                    if key_sum(ps, key) > 0 {
                        lemma_key_sum_has_key(ps, key);
                    }
                    assert(demand_of(items@, c) == 0);
                }
            },
        }
        proof {
            assert forall|d: Color|
                #[trigger] out@[d] == if d.spec_index() < j + 1 {
                    demand_of(items@, d)
                } else {
                    0
                } by {
                lemma_index_round_trip(d);
            }
        }
        j += 1;
    }
    assert(out@ =~= color_demand(items@));
    out
}

} // verus!
