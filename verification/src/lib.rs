//! Verified core of the WLWL tree-walking interpreter: values and built-in
//! functions, environments and patterns, the evaluator's control decisions,
//! channels, module paths and imports, and diagnostics.
pub mod text;
pub mod suggest;
pub mod channel;
pub mod modpath;
pub mod registry;
pub mod value;
pub mod builtins;
pub mod arith;
pub mod strings;
pub mod collection;
pub mod double;
pub mod compare;
pub mod display;
pub mod lookup;
pub mod laws;
pub mod json;
pub mod convert;
pub mod sorting;
pub mod callbacks;
pub mod format;
pub mod console;
pub mod env;
pub mod diagnostics;
pub mod compat;
pub mod patterns;
pub mod control;
pub mod imports;
pub mod dispatch;
pub mod eval;
