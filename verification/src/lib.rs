//! Pretty-printer for CBOR diagnostic notation.
//!
//! The input is a flat, single-line rendering of nested maps (`{...}`) and
//! arrays (`[...]`) with `key: value` pairs, comma-separated elements and
//! quoted string literals. One left-to-right scan re-emits it with one
//! element per line, indented by a configurable number of spaces per
//! nesting level. The scan is purely lexical: it tracks only whether the
//! position lies inside a quoted string and how many brackets are open,
//! and never validates or interprets the text.

pub mod laws;
pub mod model;
pub mod printer;
