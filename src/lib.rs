//! Reconstruction of dense, plot-ready waveforms from value-change dumps.
//!
//! A dump declares its signals in a header and then records, for each
//! timestamp, only the signals whose values changed. This library carries the
//! last known value of every signal forward: it keeps a snapshot of all
//! current values for each timestamp, and derives for each signal a series
//! with one sample per timestamp from its first change on.

pub mod args;
pub mod declarations;
pub mod dump;
pub mod error;
pub mod names;
pub mod records;
pub mod series;
pub mod tabs;
pub mod timeline;

pub use args::{get_args, get_args_type, get_path, wants_plot, Arguments};
pub use declarations::{declaration_table, DeclarationEntry, DeclarationTable};
pub use dump::{build_dump, build_timeline, load_dump, snapshot_map, vcd_parser_wrapper, Dump};
pub use error::DumpError;
pub use names::resolve_names;
pub use records::{event_of, events_of, read_dump};
pub use series::densify;
pub use tabs::{App, Key};
pub use timeline::{Applied, ChangeTypes, Event, Timeline};
