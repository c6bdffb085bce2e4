//! Voice catalog, voice-pack installation planning and synthesis bookkeeping
//! for a desktop text-to-speech studio, with their contracts.

pub mod text;
pub mod strmap;
pub mod catalog;
pub mod paths;
pub mod download;
pub mod digest;
pub mod engine;
pub mod studio;
