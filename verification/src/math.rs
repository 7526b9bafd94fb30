//! Small fixed-size vectors over any scalar with the four arithmetic operators,
//! and scalar fields over three coordinates.
pub mod scalar_field;
pub mod vector;
