//! Text for people: a snapshot as lines and tables.
pub mod figures;
pub mod lines;
pub mod sections;
pub mod table;
pub mod theme;
pub mod view;
pub mod width;
