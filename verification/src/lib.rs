//! A Japanese input method engine, verified.
//!
//! Keys go in one at a time. Romaji becomes kana, kana is converted with the help
//! of dictionaries, the learning history, a conversion model and rewriters, and
//! the outcome of each key says what the application is to show and what text it
//! is handed.
//!
//! The engine is a state machine. `engine::EngineView` is its state as a
//! mathematical value, and every step of the engine is a function on such values
//! (`pressed`, `started`, `commit`, `shrunk`, ...); the contract of an executable
//! function says that it takes that step. What holds of whole runs is proved about
//! the steps, in the modules whose names end in `_laws`.

// Texts, scripts, and keys.
pub mod text;
pub mod kana;
pub mod romaji;
pub mod key;

// What the engine is made of.
pub mod candidate;
pub mod preedit;
pub mod action;
pub mod buffer;
pub mod lexicon;
pub mod outside;
pub mod state;
pub mod engine;

// What it does.
pub mod lookup;
pub mod settle;
pub mod suggest;
pub mod cursor;
pub mod conversion;
pub mod segment;
pub mod navigate;
pub mod filter;
pub mod composing;
pub mod keys;

// What holds of it.
pub mod text_laws;
pub mod candidate_laws;
pub mod composition_laws;
pub mod editing_laws;
pub mod lookup_laws;
pub mod offer_laws;
pub mod part_laws;
pub mod selection_laws;
pub mod suggestion_laws;
pub mod view_laws;
pub mod commit_laws;
pub mod display_laws;
pub mod conversion_laws;
