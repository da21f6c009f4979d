//! Dye demand for dyeable building blocks: a catalog of the sixteen dye
//! colors, and an engine that totals the dye each color needs and breaks
//! composite colors down into the pigments they are mixed from.

pub mod color;
pub mod counts;
pub mod engine;
pub mod item;

pub use color::Color;
pub use counts::{sort_map, ColorCounts};
pub use engine::{compute_additions, compute_dye_ingredients, div_ceil, Addition, DyeCalcMode};
pub use item::{compute_colors, is_dyeable, Item, RawMaterial};
