//! A minimal grid capability set, kept for collaborators that only need
//! point reads, point writes and neighbor counts.

pub mod life_grid;
