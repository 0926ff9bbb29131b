//! Structured logging: each record is a JSON object built field by field,
//! handed through a chain of plugins and written to every routed target.
use vstd::prelude::*;

pub mod define;
pub mod encode;
pub mod logger;
pub mod plugin;
pub mod record;
pub mod source;
pub mod target;

pub use define::{
    level_to_str, str_to_level, Level, LEVEL_DEBUG, LEVEL_ERROR, LEVEL_INFO, LEVEL_OFF,
    LEVEL_TRACE, LEVEL_WARN,
};
pub use encode::Encode;
pub use logger::Logger;
pub use plugin::{LevelPlugin, Plugin, PluginEntry, SecondsFormat, StackFrame, StackPlugin, TimePlugin};
pub use record::{Record, RecordView};
pub use source::Source;
pub use target::Target;

verus! {

} // verus!
