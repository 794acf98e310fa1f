//! Layout: typed style values, box generation, and box geometry.

pub mod block;
pub mod blocklaws;
pub mod boxgen;
pub mod boxlaws;
pub mod boxtree;
pub mod color;
pub mod edges;
pub mod engine;
pub mod enginelaws;
pub mod flex;
pub mod flexlaws;
pub mod flow;
pub mod flowlaws;
pub mod fragment;
pub mod genlaws;
pub mod gradient;
pub mod grid;
pub mod grid_areas;
pub mod gridlaws;
pub mod grid_slots;
pub mod imgsize;
pub mod independence;
pub mod inline;
pub mod items;
pub mod length;
pub mod measure;
pub mod paint;
pub mod paintlaws;
pub mod rowlaws;
pub mod shadow;
pub mod stylelaws;
pub mod table;
pub mod table_cells;
pub mod table_layout;
pub mod table_place;
pub mod table_widths;
pub mod tablelaws;
pub mod tokens;
pub mod unitlaws;
pub mod transform;
pub mod value;
pub mod valuelaws;
