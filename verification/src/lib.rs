//! A status-line scheduler: an ordered registry of blocks, each an external
//! command with a display prefix, suffix and refresh interval, is driven on a
//! single logical clock. Each tick the due blocks are selected, their trimmed
//! outputs are rendered into per-block slots, and the slots are joined into
//! one aggregate line.

pub mod status;
pub mod text;
