use dye_calc::{
    compute_additions, compute_colors, compute_dye_ingredients, div_ceil, is_dyeable, sort_map,
    Addition, Color, ColorCounts, DyeCalcMode, Item, RawMaterial,
};

const ALL: [Color; 16] = [
    Color::White,
    Color::LightGray,
    Color::Gray,
    Color::Black,
    Color::Brown,
    Color::Red,
    Color::Orange,
    Color::Yellow,
    Color::Lime,
    Color::Green,
    Color::Cyan,
    Color::LightBlue,
    Color::Blue,
    Color::Purple,
    Color::Magenta,
    Color::Pink,
];

fn counts(pairs: &[(Color, u32)]) -> ColorCounts {
    let mut m = ColorCounts::new();
    for &(c, v) in pairs {
        m.set(c, v);
    }
    m
}

fn item(name: &str, color: Option<Color>, count: u32) -> Item {
    Item::new(name.to_string(), color, count)
}

#[test]
fn parse_reads_back_every_name() {
    for c in ALL {
        assert_eq!(Color::parse(c.name()), Some(c));
    }
}

#[test]
fn parse_is_exact() {
    assert_eq!(Color::parse("Light Gray"), Some(Color::LightGray));
    assert_eq!(Color::parse("light gray"), None);
    assert_eq!(Color::parse("LightGray"), None);
    assert_eq!(Color::parse("Red "), None);
    assert_eq!(Color::parse(""), None);
    assert_eq!(Color::parse("Iron"), None);
}

#[test]
fn names_and_tints() {
    assert_eq!(Color::LightBlue.name(), "Light Blue");
    assert_eq!(Color::Magenta.name(), "Magenta");
    assert_eq!(Color::White.tint(), (0xF9, 0xFF, 0xFE));
    assert_eq!(Color::Pink.tint(), (0xF3, 0x8B, 0xAA));
    for (i, c) in ALL.iter().enumerate() {
        assert_eq!(c.index(), i);
        assert_eq!(Color::from_index(i), *c);
    }
}

#[test]
fn split_lime_concrete_powder() {
    assert_eq!(
        Color::split_color("Lime Concrete Powder"),
        (Some(Color::Lime), "Concrete Powder")
    );
}

#[test]
fn split_light_blue_stained_glass_pane() {
    assert_eq!(
        Color::split_color("Light Blue Stained Glass Pane"),
        (Some(Color::LightBlue), "Stained Glass Pane")
    );
}

#[test]
fn split_iron_ingot() {
    assert_eq!(Color::split_color("Iron Ingot"), (None, "Iron Ingot"));
}

#[test]
fn split_edge_cases() {
    assert_eq!(Color::split_color("Stone"), (None, "Stone"));
    assert_eq!(Color::split_color("Red"), (None, "Red"));
    assert_eq!(Color::split_color("Light Blue"), (None, "Light Blue"));
    assert_eq!(Color::split_color("Light Gray Wool"), (Some(Color::LightGray), "Wool"));
    assert_eq!(
        Color::split_color("Light Weighted Pressure Plate"),
        (None, "Light Weighted Pressure Plate")
    );
    assert_eq!(Color::split_color("Gray Terracotta"), (Some(Color::Gray), "Terracotta"));
    assert_eq!(Color::split_color("Red "), (Some(Color::Red), ""));
}

#[test]
fn item_from_raw_picks_count() {
    let raw = RawMaterial {
        item: "Cyan Stained Glass".to_string(),
        total: 40,
        missing: 12,
    };
    let missing = Item::from_raw(raw.clone(), false);
    assert_eq!(missing, item("Stained Glass", Some(Color::Cyan), 12));
    let total = Item::from_raw(raw, true);
    assert_eq!(total, item("Stained Glass", Some(Color::Cyan), 40));
    let plain = Item::from_raw(
        RawMaterial {
            item: "Oak Planks".to_string(),
            total: 3,
            missing: 1,
        },
        false,
    );
    assert_eq!(plain, item("Oak Planks", None, 1));
}

#[test]
fn dyeable_families() {
    assert!(is_dyeable("Terracotta"));
    assert!(is_dyeable("Concrete Powder"));
    assert!(is_dyeable("Stained Glass"));
    assert!(is_dyeable("Stained Glass Pane"));
    assert!(!is_dyeable("Concrete"));
    assert!(!is_dyeable("Wool"));
}

#[test]
fn div_ceil_values() {
    assert_eq!(div_ceil(100, 8), 13);
    assert_eq!(div_ceil(96, 8), 12);
    assert_eq!(div_ceil(0, 8), 0);
    assert_eq!(div_ceil(1, 8), 1);
    assert_eq!(div_ceil(u32::MAX, 1), u32::MAX);
    assert_eq!(div_ceil(u32::MAX, 2), 1 << 31);
}

#[test]
fn color_demand_of_lime_concrete_powder() {
    let demand = compute_colors(&[item("Concrete Powder", Some(Color::Lime), 100)]);
    assert_eq!(demand.entries(), vec![(Color::Lime, 13)]);
}

#[test]
fn color_demand_ignores_undyeable_items() {
    let demand = compute_colors(&[
        item("Ingot", None, 50),
        item("Iron Ingot", None, 50),
        item("Wool", Some(Color::Red), 64),
        item("Concrete Powder", None, 9),
    ]);
    assert_eq!(demand.entries(), vec![]);
}

#[test]
fn color_demand_sums_per_color() {
    let demand = compute_colors(&[
        item("Terracotta", Some(Color::Red), 9),
        item("Stained Glass Pane", Some(Color::Red), 16),
        item("Stained Glass", Some(Color::Blue), 1),
        item("Terracotta", Some(Color::White), 0),
    ]);
    assert_eq!(demand.get(Color::Red), 4);
    assert_eq!(demand.get(Color::Blue), 1);
    assert_eq!(demand.get(Color::White), 0);
    assert_eq!(demand.entries(), vec![(Color::Red, 4), (Color::Blue, 1)]);
}

#[test]
fn color_demand_of_nothing() {
    assert_eq!(compute_colors(&[]).entries(), vec![]);
}

#[test]
fn tertiary_leaves_other_colors() {
    let mut m = counts(&[(Color::White, 4), (Color::LightBlue, 7), (Color::Pink, 1)]);
    compute_additions(&mut m, &Addition::tertiary());
    assert_eq!(
        m.entries(),
        vec![(Color::White, 4), (Color::LightBlue, 7), (Color::Pink, 1)]
    );
}

#[test]
fn tertiary_splits_gray() {
    let mut m = counts(&[(Color::Gray, 5)]);
    compute_additions(&mut m, &Addition::tertiary());
    assert_eq!(m.entries(), vec![(Color::White, 3), (Color::Black, 3)]);
    assert_eq!(m.get(Color::Gray), 0);
}

#[test]
fn tertiary_accumulates_into_existing() {
    let mut m = counts(&[(Color::Purple, 3), (Color::Cyan, 4), (Color::Blue, 1)]);
    compute_additions(&mut m, &Addition::tertiary());
    assert_eq!(
        m.entries(),
        vec![(Color::Red, 2), (Color::Green, 2), (Color::Blue, 5)]
    );
}

#[test]
fn quasi_mode_splits_light_gray() {
    let demand = counts(&[(Color::LightGray, 7)]);
    let dyes = compute_dye_ingredients(demand, DyeCalcMode::PrimaryAndQuasi);
    assert_eq!(dyes.entries(), vec![(Color::White, 6), (Color::Black, 3)]);
}

#[test]
fn primary_mode_keeps_quasi_colors() {
    let demand = counts(&[(Color::LightGray, 7), (Color::Gray, 5)]);
    let dyes = compute_dye_ingredients(demand, DyeCalcMode::Primary);
    assert_eq!(
        dyes.entries(),
        vec![(Color::White, 3), (Color::LightGray, 7), (Color::Black, 3)]
    );
}

#[test]
fn quasi_mode_full_breakdown() {
    let demand = counts(&[
        (Color::Magenta, 5),
        (Color::Orange, 3),
        (Color::Lime, 1),
        (Color::Purple, 2),
    ]);
    let dyes = compute_dye_ingredients(demand, DyeCalcMode::PrimaryAndQuasi);
    assert_eq!(
        dyes.entries(),
        vec![
            (Color::White, 3),
            (Color::Red, 7),
            (Color::Yellow, 2),
            (Color::Green, 1),
            (Color::Blue, 3),
        ]
    );
}

#[test]
fn no_calc_is_empty() {
    let demand = counts(&[(Color::Red, 3), (Color::Gray, 9)]);
    assert_eq!(
        compute_dye_ingredients(demand, DyeCalcMode::NoCalc).entries(),
        vec![]
    );
    assert_eq!(
        compute_dye_ingredients(ColorCounts::new(), DyeCalcMode::NoCalc).entries(),
        vec![]
    );
}

#[test]
fn rounding_never_loses_pigment() {
    let mut m = counts(&[(Color::Gray, 5), (Color::Cyan, 1)]);
    compute_additions(&mut m, &Addition::tertiary());
    let total: u32 = m.entries().iter().map(|e| e.1).sum();
    assert!(total >= 6);
    assert_eq!(total, 8);
}

#[test]
fn rule_tables() {
    let t = Addition::tertiary();
    assert_eq!(t.len(), 3);
    assert_eq!(t[0].result(), Color::Gray);
    assert_eq!(t[0].addends(), &[Color::White, Color::Black][..]);
    let q = Addition::quasi();
    assert_eq!(q.len(), 6);
    assert_eq!(q[3].result(), Color::Magenta);
    assert_eq!(
        q[3].addends(),
        &[Color::Blue, Color::White, Color::Red, Color::Red][..]
    );
}

#[test]
fn counts_add_and_remove() {
    let mut m = ColorCounts::new();
    m.add(Color::Brown, 2);
    m.add(Color::Brown, 3);
    assert_eq!(m.get(Color::Brown), 5);
    assert_eq!(m.remove(Color::Brown), 5);
    assert_eq!(m.get(Color::Brown), 0);
    assert_eq!(m.entries(), vec![]);
}

#[test]
fn counts_total() {
    let m = counts(&[(Color::Red, 3), (Color::Gray, 9), (Color::Pink, u32::MAX)]);
    assert_eq!(m.total(), 12 + u32::MAX as u64);
    assert_eq!(ColorCounts::new().total(), 0);
}

#[test]
fn sort_map_largest_first() {
    let m = counts(&[(Color::Red, 3), (Color::Gray, 9), (Color::Pink, 5)]);
    assert_eq!(
        sort_map(&m),
        vec![(Color::Gray, 9), (Color::Pink, 5), (Color::Red, 3)]
    );
    assert_eq!(sort_map(&ColorCounts::new()), vec![]);
}

#[test]
fn sort_map_with_equal_counts() {
    let m = counts(&[(Color::Red, 2), (Color::Blue, 7), (Color::White, 2), (Color::Lime, 2)]);
    let r = sort_map(&m);
    assert_eq!(r.len(), 4);
    assert_eq!(r[0], (Color::Blue, 7));
    let mut rest: Vec<Color> = r[1..].iter().map(|e| e.0).collect();
    assert!(r[1..].iter().all(|e| e.1 == 2));
    rest.sort_by_key(|c| c.index());
    assert_eq!(rest, vec![Color::White, Color::Red, Color::Lime]);
}
