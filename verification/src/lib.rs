//! Decoder for the Erlang external term format. One call decodes one term
//! from a byte source and renders it into a sink: as JSON-like text, as bare
//! content, or not at all.
//!
//! `grammar` says, as mathematics, what every byte sequence decodes to;
//! `parser` is the decoder that runs, and every function of it is proved to
//! do what the grammar says. `read_stream` and `elem_compose` hold the two
//! interfaces, `buf_read_streamer` a source over bytes in memory, and
//! `default_composer`, `string_composer`, `raw_string_composer` and
//! `skip_composer` the sinks. `render` writes out the values inside a term.
//! `laws`, `consumption`, `locality`, `nesting` and `stops` prove what holds
//! of every decode.

pub mod buf_read_streamer;
pub mod consumption;
pub mod default_composer;
pub mod elem_compose;
pub mod grammar;
pub mod laws;
pub mod locality;
pub mod nesting;
pub mod parse_result;
pub mod parser;
pub mod raw_string_composer;
pub mod read_stream;
pub mod render;
pub mod skip_composer;
pub mod std_specs;
pub mod steps;
pub mod stops;
pub mod string_composer;
pub mod tags;

pub use buf_read_streamer::BufReadStreamer;
pub use default_composer::DefaultComposer;
pub use elem_compose::ElemCompose;
pub use parse_result::{ErrorCode, ParseError, ParseResult};
pub use parser::{parse, start_parsing};
pub use read_stream::ReadStream;
