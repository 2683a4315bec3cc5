//! The text-buffer engine of an editor backend.
//!
//! A [`buffer::Buffer`] owns the text of one open document, applies edits as
//! reversible operations, keeps any number of carets valid across those
//! edits, and resolves cursor motions into offsets in the text.

pub mod buffer;
pub mod buffer_regions;
pub mod core_proto;
pub mod delta;
pub mod edit;
pub mod engine;
pub mod input_event;
pub mod input_mapper;
pub mod key_combo;
pub mod keycode;
pub mod keymap;
pub mod mapper;
pub mod mark;
pub mod movement;
pub mod position;
pub mod region;
pub mod text;
pub mod undo_history;
pub mod unicode;
pub mod user_buffer_op;
pub mod view;
pub mod word_boundary;
