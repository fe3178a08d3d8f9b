//! Collision-grid construction and lookup for an elevator-and-arm mechanism.
//!
//! A sweep (`GridState`) samples the workspace row by row and marks the
//! cells where the end effector collides; the finished grid
//! (`CollisionGrid`) is persisted as a fixed-layout record and consulted
//! read-only to refuse obstructed or unsampled configurations.
//!
//! World lengths in the sweep are fixed-point integers in hundredths of a
//! world unit; the persisted grid carries its bounds as IEEE-754 single
//! precision bit patterns, exactly as they are written to disk.
mod builder;
mod codec;
mod simulation;

pub use builder::{
    after_sample, dims_fit, grid_indices, lemma_after_sample_wf, lemma_marked_cells,
    lemma_marking_monotonic, lemma_sample_counts_down, lemma_sample_in_grid,
    lemma_samples_at_start, marked_cells, samples_left, span_cells, span_samples, sweep,
    sweep_wf, valid_bounds, BuildStatus, GridState, SweepView, ARM_LENGTH, ELEVATOR_MAX,
    ELEVATOR_MIN, GRID_RESOLUTION,
};
pub use codec::{
    cell_bytes, cell_free, cell_index, declared_cells, decoding, encoding, grid_wf,
    header_bytes, is_free_in, lemma_outside_never_free, lemma_round_trip, word, CollisionGrid,
    DecodeError, FloatBounds, GridView, HEADER_LEN,
};
pub use simulation::{simulation_of, SimulationType};
