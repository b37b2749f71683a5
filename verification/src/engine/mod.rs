//! The answer engine: citation repair, prompt assembly, the LLM stream
//! decoder and search result shaping.

pub mod citations;
pub mod prompt;
pub mod llm;
pub mod search;
