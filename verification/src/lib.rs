//! A streaming text-formatting engine with the output semantics of the
//! classic "concatenate and display" utility.
//!
//! The engine works on bytes held in memory: a driver reads chunks from its
//! sources, hands each chunk to the engine together with the state of the run,
//! and forwards what the engine appended to the sink.
pub mod args;
pub mod engine;
pub mod error;
pub mod options;
pub mod render;

pub use args::parse_arg;
pub use args::Parsed;
pub use engine::cat;
pub use engine::cat_fast;
pub use engine::cat_lines;
pub use engine::cat_sources;
pub use engine::write_line_start;
pub use engine::write_new_line;
pub use engine::write_skipped_carriage_return;
pub use engine::write_stretch;
pub use engine::State;
pub use error::CatError;
pub use error::CatFilesError;
pub use error::CatResult;
pub use options::NumberingMode;
pub use options::Options;
pub use render::write_end;
pub use render::write_end_of_line;
pub use render::write_line_number;
pub use render::write_nonprint_to_end;
pub use render::write_tab_to_end;
pub use render::write_to_end;
