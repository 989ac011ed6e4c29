//! Planning of benchmark summary charts: which line each measurement belongs to, in what
//! order the points and the violins come, and how the figure is titled and coloured.

pub mod distribution;
pub mod grouping;
pub mod linked_map;
pub mod model;
pub mod ordinal;
pub mod palette;
pub mod series;
pub mod summary;
pub mod text;
