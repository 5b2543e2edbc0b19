//! Discovery-and-lifecycle engine of a JVM metrics exporter.
//!
//! The library discovers JVM processes on the host, inside container
//! runtimes and among configured system processes, parses the tabular
//! output of the diagnostic tools, and maintains the set of exposed
//! metric label combinations so that series for vanished processes are
//! evicted exactly.  External command execution, the HTTP endpoint and
//! the exposition encoder live outside the library; the library hands
//! them fully built command lines and receives their raw output.

pub mod config;
pub mod discovery;
pub mod identity;
pub mod invoke;
pub mod kv;
pub mod numeric;
pub mod parse;
pub mod pattern;
pub mod registry;
pub mod resource;
pub mod scrape;
pub mod text;

