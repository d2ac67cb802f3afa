//! The inputs of a port scanner: the grammar of port selections, and the
//! assembly of a scan configuration from the raw values.

pub mod args;
pub mod input_parse;
