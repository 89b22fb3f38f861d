//! Corpora of quantum circuit patterns for benchmarks of pattern matching.
//!
//! A corpus is a folder of circuits, each in two encodings, together with
//! two caches that hold the circuits that can be used as patterns. The
//! library decides what is read, converted, kept and written, and plans the
//! benchmark over growing parts of a corpus; it touches neither the disk
//! nor the engines. The caller does that and reports back.

pub mod bench;
pub mod chance;
pub mod datasets;
pub mod disjoint;
pub mod graph;
pub mod msgpack;
pub mod params;
pub mod text;
