//! Core engine of a terminal minesweeper game: a playable grid of panels
//! inside a one-panel frame of border sentinels, with random bomb placement,
//! adjacency-count precomputation, open/flag operations, flood-fill reveal
//! of zero-adjacency regions, and win detection. Rendering to characters is
//! provided; reading input and printing belong to the driver around the
//! library.

pub mod counting;
pub mod mine_sweeper;
pub mod panel;
