//! A receiver-side log viewer core: parses bracketed log lines, keeps a
//! bounded history of them and filters that history for display or export.

pub mod text;
pub mod record;
pub mod history;
pub mod level;
pub mod filter;
pub mod viewer;

pub use level::level_order;
pub use record::parse_line;
