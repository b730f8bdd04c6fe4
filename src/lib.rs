//! Discovery and parsing of a `.env` style configuration file, a model of the
//! process environment it feeds, and the two API key queries answered from it.

pub mod text;
pub mod parse;
pub mod environment;
pub mod api_key;
pub mod loader;
