//! Model providers: what is sent to them, and what is read out of their replies.
pub mod gemini;
pub mod moonshot_compatible;
pub mod openai_codex;
pub mod registry;
pub mod stream;
pub mod types;
