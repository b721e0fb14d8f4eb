//! A safety and convenience layer over an opaque compiled-pattern matcher:
//! compile a pattern once, then run single, bounded, or exhaustive matching
//! and substitution on top of the matcher's execute-at-offset primitive.
//!
//! The matcher backend is treated as a correct, opaque black box reached
//! through a narrow boundary (compile, execute at offset, capture count);
//! everything layered on top of that boundary is verified.

pub mod flags;
pub mod matcher;
pub mod model;
pub mod engine;

pub use flags::Flag;
pub use flags::flags_from_str;
pub use flags::DOTALL;
pub use flags::GLOBAL;
pub use flags::IGNORECASE;
pub use flags::MULTILINE;
pub use flags::NAMED_GROUPS;
pub use flags::STICKY;
pub use flags::UNICODE;

pub use engine::ComplieError;
pub use engine::ExecError;
pub use engine::Regex;
