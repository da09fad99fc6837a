// A zero-copy struct encoding over word-aligned message segments.
//
// `bytes` holds little-endian field encoding, `framing` the segment table of a
// received message, `pointer` the pointer words, `reader`
// and `builder` the struct views, `size` the reachable size of a struct, `copy` the
// deep copy between messages, `pipeline` placeholders for results of calls that have
// not arrived, and `date` the typed accessors of the `Date` struct. `laws` states the
// properties that tie these together.

pub mod builder;
pub mod bytes;
pub mod copy;
pub mod date;
pub mod framing;
pub mod laws;
pub mod pipeline;
pub mod pointer;
pub mod reader;
pub mod size;
