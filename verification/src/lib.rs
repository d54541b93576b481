//! Rewrites line and branch coverage records so that syntactic artifacts of
//! the measured source (closing braces, `else`, declaration headers, loop
//! headers) no longer show up as uncovered code.

pub mod coverage;
pub mod error;
pub mod fix;
pub mod format;
pub mod laws;
pub mod order;
pub mod pattern;

pub use coverage::{BranchCoverage, FileCoverage, LineCoverage, PackageCoverage, SourceCode};
pub use error::FixError;
pub use fix::{Fixer, State};
pub use format::{detect_format, parse_format, Format, FormatError};
