//! The mixing rules, and the reduction of a color demand to the pigments
//! it is mixed from.

use vstd::prelude::*;

use crate::color::{lemma_index_round_trip, Color, COLOR_COUNT};
use crate::counts::{counts_fit, lemma_counts_total, no_counts, sum_first, total_units, ColorCounts};

verus! {

/// How far a color demand is broken down into pigments.
#[derive(Debug, Clone, Copy, PartialEq, Eq, Structural)]
pub enum DyeCalcMode {
    /// No breakdown: only the colors themselves are wanted.
    NoCalc,
    /// Break down the colors that the tertiary rules make.
    Primary,
    /// Break down the tertiary rules' colors, then the quasi-primary ones.
    PrimaryAndQuasi,
}

/// `a / b`, rounded up.
pub open spec fn ceil_div(a: nat, b: nat) -> nat
    recommends
        b > 0,
{
    a / b + if a % b == 0 {
        0nat
    } else {
        1nat
    }
}

/// `a / b`, rounded up.
pub fn div_ceil(a: u32, b: u32) -> (r: u32)
    requires
        b > 0,
    ensures
        r == ceil_div(a as nat, b as nat),
{
    let q = a / b;
    if a % b == 0 {
        q
    } else {
        assert(q < u32::MAX) by (nonlinear_arith)
            requires
                q == a / b,
                b > 0,
                a % b != 0,
        ;
        q + 1
    }
}

/// How many times `c` stands in `s`.
pub open spec fn occurrences(s: Seq<Color>, c: Color) -> nat
    decreases s.len(),
{
    if s.len() == 0 {
        0
    } else {
        occurrences(s.drop_last(), c) + if s.last() == c {
            1nat
        } else {
            0nat
        }
    }
}

/// A mixing rule: the result color and the addend colors it is mixed
/// from, a color standing once for each share it has in the mix.
pub struct Addition {
    result: Color,
    addends: Vec<Color>,
}

impl View for Addition {
    type V = (Color, Seq<Color>);

    closed spec fn view(&self) -> (Color, Seq<Color>) {
        (self.result, self.addends@)
    }
}

/// A rule has at least one addend, and few enough that they can be
/// counted in a `u32`.
pub open spec fn rule_ok(rule: (Color, Seq<Color>)) -> bool {
    0 < rule.1.len() <= u32::MAX
}

/// The map after one rule: the result color's count is removed, and each
/// addend gains the removed count divided by the number of addends,
/// rounded up, once for each time it stands in the rule.
pub open spec fn apply_rule(m: Map<Color, nat>, rule: (Color, Seq<Color>)) -> Map<Color, nat> {
    let share = ceil_div(m[rule.0], rule.1.len());
    Map::total(
        |c: Color|
            (if c == rule.0 {
                0nat
            } else {
                m[c]
            }) + share * occurrences(rule.1, c),
    )
}

/// The map after each rule of a tier in turn, each applied to the map
/// that the rules before it left.
pub open spec fn apply_tier(m: Map<Color, nat>, rules: Seq<(Color, Seq<Color>)>) -> Map<
    Color,
    nat,
>
    decreases rules.len(),
{
    if rules.len() == 0 {
        m
    } else {
        apply_rule(apply_tier(m, rules.drop_last()), rules.last())
    }
}

/// Every map along the way of a tier fits in `u32` counts.
pub open spec fn tier_fits(m: Map<Color, nat>, rules: Seq<(Color, Seq<Color>)>) -> bool {
    forall|i: int| 0 <= i <= rules.len() ==> counts_fit(#[trigger] apply_tier(m, rules.take(i)))
}

/// The tertiary tier.
pub open spec fn tertiary_rules() -> Seq<(Color, Seq<Color>)> {
    seq![
        (Color::Gray, seq![Color::White, Color::Black]),
        (Color::Purple, seq![Color::Red, Color::Blue]),
        (Color::Cyan, seq![Color::Green, Color::Blue]),
    ]
}

/// The quasi-primary tier.
pub open spec fn quasi_rules() -> Seq<(Color, Seq<Color>)> {
    seq![
        (Color::LightBlue, seq![Color::Blue, Color::White]),
        (Color::LightGray, seq![Color::Black, Color::White, Color::White]),
        (Color::Lime, seq![Color::Green, Color::White]),
        (Color::Magenta, seq![Color::Blue, Color::White, Color::Red, Color::Red]),
        (Color::Orange, seq![Color::Red, Color::Yellow]),
        (Color::Pink, seq![Color::Red, Color::White]),
    ]
}

/// The views of a list of rules.
pub open spec fn rules_view(rules: Seq<Addition>) -> Seq<(Color, Seq<Color>)> {
    rules.map_values(|a: Addition| a@)
}

impl Addition {
    /// The tertiary tier: Gray, Purple and Cyan.
    pub fn tertiary() -> (r: Vec<Addition>)
        ensures
            rules_view(r@) == tertiary_rules(),
    {
        let r = vec![
            Addition { result: Color::Gray, addends: vec![Color::White, Color::Black] },
            Addition { result: Color::Purple, addends: vec![Color::Red, Color::Blue] },
            Addition { result: Color::Cyan, addends: vec![Color::Green, Color::Blue] },
        ];
        assert(rules_view(r@) =~= tertiary_rules());
        r
    }

    /// The quasi-primary tier: Light Blue, Light Gray, Lime, Magenta, Orange
    /// and Pink.
    pub fn quasi() -> (r: Vec<Addition>)
        ensures
            rules_view(r@) == quasi_rules(),
    {
        let r = vec![
            Addition { result: Color::LightBlue, addends: vec![Color::Blue, Color::White] },
            Addition {
                result: Color::LightGray,
                addends: vec![Color::Black, Color::White, Color::White],
            },
            Addition { result: Color::Lime, addends: vec![Color::Green, Color::White] },
            Addition {
                result: Color::Magenta,
                addends: vec![Color::Blue, Color::White, Color::Red, Color::Red],
            },
            Addition { result: Color::Orange, addends: vec![Color::Red, Color::Yellow] },
            Addition { result: Color::Pink, addends: vec![Color::Red, Color::White] },
        ];
        assert(rules_view(r@) =~= quasi_rules());
        r
    }

    /// The color the rule makes.
    pub fn result(&self) -> (r: Color)
        ensures
            r == self@.0,
    {
        self.result
    }

    /// The colors the rule mixes.
    pub fn addends(&self) -> (r: &[Color])
        ensures
            r@ == self@.1,
    {
        self.addends.as_slice()
    }
}


/// Counting over a longer prefix counts one more for the next element when
/// it is `c`.
proof fn lemma_occurrences_step(s: Seq<Color>, j: int, c: Color)
    requires
        0 <= j < s.len(),
    ensures
        occurrences(s.take(j + 1), c) == occurrences(s.take(j), c) + if s[j] == c {
            1nat
        } else {
            0nat
        },
{
    assert(s.take(j + 1).drop_last() =~= s.take(j));
}

/// A prefix holds no more occurrences than the whole sequence.
proof fn lemma_occurrences_prefix(s: Seq<Color>, j: int, c: Color)
    requires
        0 <= j <= s.len(),
    ensures
        occurrences(s.take(j), c) <= occurrences(s, c),
    decreases s.len() - j,
{
    if j < s.len() {
        lemma_occurrences_step(s, j, c);
        lemma_occurrences_prefix(s, j + 1, c);
    } else {
        assert(s.take(j) =~= s);
    }
}

/// Applies each rule of a tier in turn: the rule's result color is removed
/// and its count, divided by the number of addends and rounded up, goes to
/// each addend once per time it stands in the rule.
pub fn compute_additions(map: &mut ColorCounts, additions: &[Addition])
    requires
        old(map).wf(),
        forall|i: int| 0 <= i < additions@.len() ==> rule_ok(#[trigger] additions@[i]@),
        tier_fits(old(map)@, rules_view(additions@)),
    ensures
        final(map).wf(),
        final(map)@ == apply_tier(old(map)@, rules_view(additions@)),
{
    broadcast use lemma_counts_total;

    let ghost rules = rules_view(additions@);
    let ghost m0 = map@;
    assert(rules.take(0) =~= Seq::<(Color, Seq<Color>)>::empty());
    let mut i: usize = 0;
    while i < additions.len()
        invariant
            map.wf(),
            0 <= i <= additions@.len(),
            rules == rules_view(additions@),
            rules.len() == additions@.len(),
            map@ == apply_tier(m0, rules.take(i as int)),
            tier_fits(m0, rules),
            forall|k: int| 0 <= k < additions@.len() ==> rule_ok(#[trigger] additions@[k]@),
        decreases additions.len() - i,
    {
        let addition = &additions[i];
        let ghost before = map@;
        let ghost rule = addition@;
        let ghost target = apply_rule(before, rule);
        proof {
            assert(rules.take(i + 1).drop_last() =~= rules.take(i as int));
            assert(rules.take(i + 1).last() == rule);
            assert(target == apply_tier(m0, rules.take(i + 1)));
            assert(counts_fit(apply_tier(m0, rules.take(i + 1))));
            assert(rule_ok(additions@[i as int]@));
        }
        let count = map.remove(addition.result);
        let len = addition.addends.len();
        let share = div_ceil(count, len as u32);
        proof {
            assert(rule.1.take(0) =~= Seq::<Color>::empty());
            assert forall|c: Color|
                #[trigger] map@[c] == (if c == rule.0 {
                    0nat
                } else {
                    before[c]
                }) + share * occurrences(rule.1.take(0), c) by {
                assert(occurrences(rule.1.take(0), c) == 0);
                assert(share * 0 == 0);
            }
        }
        let mut j: usize = 0;
        while j < len
            invariant
                map.wf(),
                j <= len,
                len == rule.1.len(),
                rule == addition@,
                share == ceil_div(before[rule.0], rule.1.len()),
                target == apply_rule(before, rule),
                counts_fit(target),
                forall|c: Color|
                    #[trigger] map@[c] == (if c == rule.0 {
                        0nat
                    } else {
                        before[c]
                    }) + share * occurrences(rule.1.take(j as int), c),
            decreases len - j,
        {
            let a = addition.addends[j];
            proof {
                lemma_occurrences_prefix(rule.1, j + 1, a);
                lemma_occurrences_step(rule.1, j as int, a);
                let o1 = occurrences(rule.1.take(j + 1), a);
                let o = occurrences(rule.1, a);
                assert(share * o1 <= share * o) by (nonlinear_arith)
                    requires
                        o1 <= o,
                ;
                assert(share * o1 == share * occurrences(rule.1.take(j as int), a) + share)
                    by (nonlinear_arith)
                    requires
                        o1 == occurrences(rule.1.take(j as int), a) + 1,
                ;
                assert(target[a] <= u32::MAX);
            }
            let ghost mid = map@;
            map.add(a, share);
            proof {
                assert forall|c: Color|
                    #[trigger] map@[c] == (if c == rule.0 {
                        0nat
                    } else {
                        before[c]
                    }) + share * occurrences(rule.1.take(j + 1), c) by {
                    lemma_occurrences_step(rule.1, j as int, c);
                    let o0 = occurrences(rule.1.take(j as int), c);
                    if c == a {
                        assert(share * (o0 + 1) == share * o0 + share) by (nonlinear_arith);
                    }
                }
            }
            j += 1;
        }
        proof {
            assert(rule.1.take(len as int) =~= rule.1);
            assert forall|c: Color| #[trigger] map@[c] == target[c] by {
                assert(map@[c] == (if c == rule.0 {
                    0nat
                } else {
                    before[c]
                }) + share * occurrences(rule.1.take(len as int), c));
            }
            lemma_counts_total(&*map);
            assert(map@.dom() =~= target.dom());
            assert(map@ =~= target);
        }
        i += 1;
    }
    assert(rules.take(rules.len() as int) =~= rules);
}

/// The pigments a color demand is broken down into, by mode.
pub open spec fn dye_ingredients(m: Map<Color, nat>, mode: DyeCalcMode) -> Map<Color, nat> {
    match mode {
        DyeCalcMode::NoCalc => no_counts(),
        DyeCalcMode::Primary => apply_tier(m, tertiary_rules()),
        DyeCalcMode::PrimaryAndQuasi => apply_tier(apply_tier(m, tertiary_rules()), quasi_rules()),
    }
}

/// The breakdown of `m` in `mode` keeps every count within `u32`.
pub open spec fn ingredients_fit(m: Map<Color, nat>, mode: DyeCalcMode) -> bool {
    &&& mode != DyeCalcMode::NoCalc ==> tier_fits(m, tertiary_rules())
    &&& mode == DyeCalcMode::PrimaryAndQuasi ==> tier_fits(
        apply_tier(m, tertiary_rules()),
        quasi_rules(),
    )
}

/// Breaks a color demand down into pigments: nothing for `NoCalc`, the
/// tertiary tier for `Primary`, and the tertiary then the quasi-primary
/// tier for `PrimaryAndQuasi`.
pub fn compute_dye_ingredients(colors: ColorCounts, mode: DyeCalcMode) -> (r: ColorCounts)
    requires
        colors.wf(),
        ingredients_fit(colors@, mode),
    ensures
        r.wf(),
        r@ == dye_ingredients(colors@, mode),
        mode == DyeCalcMode::NoCalc ==> r@ == no_counts(),
{
    if matches!(mode, DyeCalcMode::NoCalc) {
        return ColorCounts::new();
    }
    let mut colors = colors;
    let tertiary = Addition::tertiary();
    assert(forall|i: int| 0 <= i < tertiary@.len() ==> rule_ok(#[trigger] tertiary@[i]@)) by {
        assert forall|i: int| 0 <= i < tertiary@.len() implies rule_ok(#[trigger] tertiary@[i]@) by {
            assert(rules_view(tertiary@).len() == tertiary@.len());
            assert(tertiary_rules().len() == 3);
            assert(rules_view(tertiary@)[i] == tertiary@[i]@);
            assert(tertiary_rules()[0].1.len() == 2);
            assert(tertiary_rules()[1].1.len() == 2);
            assert(tertiary_rules()[2].1.len() == 2);
        }
    }
    compute_additions(&mut colors, tertiary.as_slice());
    if matches!(mode, DyeCalcMode::PrimaryAndQuasi) {
        let quasi = Addition::quasi();
        assert(forall|i: int| 0 <= i < quasi@.len() ==> rule_ok(#[trigger] quasi@[i]@)) by {
            assert forall|i: int| 0 <= i < quasi@.len() implies rule_ok(#[trigger] quasi@[i]@) by {
                assert(rules_view(quasi@).len() == quasi@.len());
                assert(quasi_rules().len() == 6);
                assert(rules_view(quasi@)[i] == quasi@[i]@);
                assert(quasi_rules()[0].1.len() == 2);
                assert(quasi_rules()[1].1.len() == 3);
                assert(quasi_rules()[2].1.len() == 2);
                assert(quasi_rules()[3].1.len() == 4);
                assert(quasi_rules()[4].1.len() == 2);
                assert(quasi_rules()[5].1.len() == 2);
            }
        }
        compute_additions(&mut colors, quasi.as_slice());
    }
    colors
}

/// Rounding up never hands out less than was removed: the shares a rule
/// gives its addends add up to at least the count of its result color.
pub proof fn lemma_rule_covers_removed(m: Map<Color, nat>, rule: (Color, Seq<Color>))
    requires
        rule_ok(rule),
    ensures
        ceil_div(m[rule.0], rule.1.len()) * rule.1.len() >= m[rule.0],
{
    let a = m[rule.0];
    let b = rule.1.len();
    assert(ceil_div(a, b) * b >= a) by (nonlinear_arith)
        requires
            b > 0,
            ceil_div(a, b) == a / b + if a % b == 0 {
                0nat
            } else {
                1nat
            },
    ;
}

/// A rule whose result color counts zero leaves the map as it was.
proof fn lemma_absent_rule_unchanged(m: Map<Color, nat>, rule: (Color, Seq<Color>))
    requires
        rule_ok(rule),
        m.dom() == Set::<Color>::full(),
        m[rule.0] == 0,
    ensures
        apply_rule(m, rule) == m,
{
    assert(ceil_div(0, rule.1.len()) == 0);
    assert forall|c: Color| #[trigger] apply_rule(m, rule)[c] == m[c] by {
        assert(0 * occurrences(rule.1, c) == 0);
    }
    assert(apply_rule(m, rule) =~= m);
}

/// The tertiary tier leaves a map with no Gray, Purple or Cyan unchanged.
pub proof fn lemma_tertiary_without_results_unchanged(m: Map<Color, nat>)
    requires
        m.dom() == Set::<Color>::full(),
        m[Color::Gray] == 0,
        m[Color::Purple] == 0,
        m[Color::Cyan] == 0,
    ensures
        apply_tier(m, tertiary_rules()) == m,
{
    let rules = tertiary_rules();
    let r2 = rules.drop_last();
    let r1 = r2.drop_last();
    assert(r1.drop_last() =~= Seq::<(Color, Seq<Color>)>::empty());
    assert(r1.len() == 1);
    assert(apply_tier(m, r1.drop_last()) == m);
    assert(r1.last() == rules[0]);
    assert(r2.last() == rules[1]);
    assert(rules.last() == rules[2]);
    assert(rules[0].1.len() == 2 && rules[1].1.len() == 2 && rules[2].1.len() == 2);
    lemma_absent_rule_unchanged(m, rules[0]);
    assert(apply_tier(m, r1) == m);
    lemma_absent_rule_unchanged(m, rules[1]);
    assert(apply_tier(m, r2) == m);
    lemma_absent_rule_unchanged(m, rules[2]);
}

/// Pointwise sums add up.
proof fn lemma_sum_add(m1: Map<Color, nat>, m2: Map<Color, nat>, m3: Map<Color, nat>, n: int)
    requires
        forall|c: Color| #[trigger] m3[c] == m1[c] + m2[c],
    ensures
        sum_first(m3, n) == sum_first(m1, n) + sum_first(m2, n),
    decreases n,
{
    if n > 0 {
        lemma_sum_add(m1, m2, m3, n - 1);
    }
}

/// Scaling every count scales the sum.
proof fn lemma_sum_scale(m1: Map<Color, nat>, m2: Map<Color, nat>, k: nat, n: int)
    requires
        forall|c: Color| #[trigger] m2[c] == k * m1[c],
    ensures
        sum_first(m2, n) == k * sum_first(m1, n),
    decreases n,
{
    if n > 0 {
        lemma_sum_scale(m1, m2, k, n - 1);
        let a = sum_first(m1, n - 1);
        let b = m1[Color::spec_from_index(n - 1)];
        assert(m2[Color::spec_from_index(n - 1)] == k * b);
        assert(k * (a + b) == k * a + k * b) by (nonlinear_arith);
    } else {
        assert(k * 0 == 0);
    }
}

/// A map with one nonzero color sums to that color's count.
proof fn lemma_sum_single(m: Map<Color, nat>, a: Color, v: nat, n: int)
    requires
        n <= COLOR_COUNT,
        forall|c: Color| #[trigger] m[c] == if c == a {
            v
        } else {
            0
        },
    ensures
        sum_first(m, n) == if a.spec_index() < n {
            v
        } else {
            0
        },
    decreases n,
{
    if n > 0 {
        lemma_sum_single(m, a, v, n - 1);
        lemma_index_round_trip(a);
        let c = Color::spec_from_index(n - 1);
        assert(c.spec_index() == n - 1);
    }
}

/// Over all colors, the occurrences in `s` add up to its length.
proof fn lemma_sum_occurrences(s: Seq<Color>)
    ensures
        total_units(Map::total(|c: Color| occurrences(s, c))) == s.len(),
    decreases s.len(),
{
    let m = Map::total(|c: Color| occurrences(s, c));
    if s.len() == 0 {
        lemma_sum_single(m, Color::White, 0, COLOR_COUNT as int);
    } else {
        let rest = Map::total(|c: Color| occurrences(s.drop_last(), c));
        let one = Map::total(
            |c: Color|
                if c == s.last() {
                    1nat
                } else {
                    0nat
                },
        );
        lemma_sum_occurrences(s.drop_last());
        lemma_sum_add(rest, one, m, COLOR_COUNT as int);
        lemma_sum_single(one, s.last(), 1, COLOR_COUNT as int);
        lemma_index_round_trip(s.last());
    }
}

/// One rule takes the result color's count out of the total and puts its
/// share back once per addend.
pub proof fn lemma_rule_units(m: Map<Color, nat>, rule: (Color, Seq<Color>))
    requires
        rule_ok(rule),
    ensures
        total_units(apply_rule(m, rule)) + m[rule.0] == total_units(m) + ceil_div(
            m[rule.0],
            rule.1.len(),
        ) * rule.1.len(),
{
    let share = ceil_div(m[rule.0], rule.1.len());
    let n = COLOR_COUNT as int;
    let kept = Map::total(
        |c: Color|
            if c == rule.0 {
                0nat
            } else {
                m[c]
            },
    );
    let removed = Map::total(
        |c: Color|
            if c == rule.0 {
                m[rule.0]
            } else {
                0nat
            },
    );
    let occ = Map::total(|c: Color| occurrences(rule.1, c));
    let added = Map::total(|c: Color| share * occurrences(rule.1, c));
    lemma_sum_add(kept, removed, m, n);
    lemma_sum_single(removed, rule.0, m[rule.0], n);
    lemma_index_round_trip(rule.0);
    lemma_sum_add(kept, added, apply_rule(m, rule), n);
    lemma_sum_scale(occ, added, share, n);
    lemma_sum_occurrences(rule.1);
}

/// Rounding up never loses pigment: applying a tier of well-formed rules
/// leaves at least as many units in all as there were before.
pub proof fn lemma_tier_never_loses_units(m: Map<Color, nat>, rules: Seq<(Color, Seq<Color>)>)
    requires
        forall|i: int| 0 <= i < rules.len() ==> rule_ok(#[trigger] rules[i]),
    ensures
        total_units(apply_tier(m, rules)) >= total_units(m),
    decreases rules.len(),
{
    if rules.len() > 0 {
        let before = apply_tier(m, rules.drop_last());
        assert forall|i: int| 0 <= i < rules.drop_last().len() implies rule_ok(
            #[trigger] rules.drop_last()[i],
        ) by {
            assert(rules.drop_last()[i] == rules[i]);
        }
        lemma_tier_never_loses_units(m, rules.drop_last());
        assert(rule_ok(rules[rules.len() - 1]));
        lemma_rule_units(before, rules.last());
        lemma_rule_covers_removed(before, rules.last());
    }
}

/// A count is at most the total of the first `n` colors when its color is
/// among them.
proof fn lemma_count_le_sum(m: Map<Color, nat>, c: Color, n: int)
    requires
        c.spec_index() < n,
    ensures
        m[c] <= sum_first(m, n),
    decreases n,
{
    lemma_index_round_trip(c);
    if c.spec_index() < n - 1 {
        lemma_count_le_sum(m, c, n - 1);
    }
}

/// A rule of at most four addends adds at most three units in all.
proof fn lemma_rule_adds_little(m: Map<Color, nat>, rule: (Color, Seq<Color>))
    requires
        rule_ok(rule),
        rule.1.len() <= 4,
    ensures
        total_units(apply_rule(m, rule)) <= total_units(m) + 3,
{
    lemma_rule_units(m, rule);
    let a = m[rule.0];
    let b = rule.1.len();
    assert(ceil_div(a, b) * b <= a + b - 1) by (nonlinear_arith)
        requires
            b > 0,
            ceil_div(a, b) == a / b + if a % b == 0 {
                0nat
            } else {
                1nat
            },
    ;
}

/// A tier of rules of at most four addends adds at most three units per
/// rule, and so keeps every count in `u32` when the total leaves that room.
proof fn lemma_tier_fits_by_total(m: Map<Color, nat>, rules: Seq<(Color, Seq<Color>)>)
    requires
        forall|i: int| 0 <= i < rules.len() ==> rule_ok(#[trigger] rules[i]) && rules[i].1.len() <= 4,
        total_units(m) + 3 * rules.len() <= u32::MAX,
    ensures
        tier_fits(m, rules),
        total_units(apply_tier(m, rules)) <= total_units(m) + 3 * rules.len(),
    decreases rules.len(),
{
    if rules.len() > 0 {
        let head = rules.drop_last();
        assert forall|i: int| 0 <= i < head.len() implies rule_ok(#[trigger] head[i])
            && head[i].1.len() <= 4 by {
            assert(head[i] == rules[i]);
        }
        lemma_tier_fits_by_total(m, head);
        assert(rule_ok(rules[rules.len() - 1]));
        lemma_rule_adds_little(apply_tier(m, head), rules.last());
    }
    assert forall|i: int| 0 <= i <= rules.len() implies counts_fit(
        #[trigger] apply_tier(m, rules.take(i)),
    ) by {
        let pre = rules.take(i);
        if i < rules.len() {
            assert forall|j: int| 0 <= j < pre.len() implies rule_ok(#[trigger] pre[j])
                && pre[j].1.len() <= 4 by {
                assert(pre[j] == rules[j]);
            }
            lemma_tier_fits_by_total(m, pre);
        } else {
            assert(pre =~= rules);
        }
        let t = apply_tier(m, pre);
        assert forall|c: Color| #[trigger] t[c] <= u32::MAX by {
            lemma_count_le_sum(t, c, COLOR_COUNT as int);
        }
    }
}

/// A demand whose units add up to at most `u32::MAX - 27` is broken down
/// in every mode with every count in `u32`.
pub proof fn lemma_small_total_fits(m: Map<Color, nat>, mode: DyeCalcMode)
    requires
        total_units(m) + 27 <= u32::MAX,
    ensures
        ingredients_fit(m, mode),
{
    let t = tertiary_rules();
    let q = quasi_rules();
    assert(t[0].1.len() == 2 && t[1].1.len() == 2 && t[2].1.len() == 2);
    assert(q[0].1.len() == 2 && q[1].1.len() == 3 && q[2].1.len() == 2);
    assert(q[3].1.len() == 4 && q[4].1.len() == 2 && q[5].1.len() == 2);
    lemma_tier_fits_by_total(m, t);
    lemma_tier_fits_by_total(apply_tier(m, t), q);
}

} // verus!
