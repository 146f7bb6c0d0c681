//! Vale Village: the rules of a turn-based elemental RPG.
pub mod data;
pub mod domains;
pub mod shared;
pub mod text;
