//! Decoder for the `TabState` files in which Windows Notepad keeps the state
//! of its tabs: the buffer's text, where it was saved, and the edits made
//! since.
//!
//! The decoders work on a [`reader::ByteReader`], a cursor over bytes held in
//! memory. What each of them returns is stated over the bytes still unread,
//! by the `spec` functions of the module that holds it:
//!
//! - [`wire`]: single bytes, blocks, base-128 integers and UTF-16 text;
//! - [`traits`] and [`config_block`]: flags and the block of view settings;
//! - [`unsaved_chunks`]: the edits and their transcript;
//! - [`tab_state`]: the record as a whole;
//! - [`layout`]: the bytes that a record stands for, and the proof that
//!   decoding them gives the record back.
pub mod config_block;
pub mod enums;
pub mod errors;
pub mod layout;
pub mod reader;
pub mod tab_state;
pub mod text;
pub mod traits;
pub mod unsaved_chunks;
pub mod wire;

pub use config_block::ConfigBlock;
pub use tab_state::NotepadTabStat;
