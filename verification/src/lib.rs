//! Pane: the verified core of a system monitor.
//!
//! The library holds what the monitor decides and computes: the panel and
//! control-row cycles of the user interface, the bounded sample history,
//! the parsers for Windows performance-counter instance names and paths,
//! the per-process aggregation of GPU counters, the merge of NVML process
//! lists, the free-VRAM arithmetic of the headroom calculator, the
//! process-table name filter and the choice of the GPU that renders the
//! window.

pub mod navigation;
pub mod text;
pub mod pdh;
pub mod nvml;
pub mod vram;
pub mod history;
pub mod system;
pub mod processes;
pub mod render_gpu;
