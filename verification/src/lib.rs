//! A clipboard manager for X11: the part of it that decides.
//!
//! The daemon watches the clipboard, keeps what is copied in a history on disk, and serves what a
//! client selects from it. The client shows the history in a menu and tells the daemon what was
//! picked. All that either of them decides or computes is here, without input or output: the
//! functions take what was read, and return what is to be done.
//!
//! - [`paths`]: where the cache and the socket are
//! - [`index`], [`store`], [`keep`], [`model`]: the history, the operations that change its files,
//!   their order, and what they come to
//! - [`hash`], [`preview`], [`image`]: the name and the preview of what was copied
//! - [`x11`], [`fetch`], [`capture`], [`serve`], [`daemon`]: the daemon
//! - [`ipc`], [`menu`], [`args`]: client, daemon, and the talk between them
//! - [`text`]: lines, words, white space, numbers
//! - [`laws`]: what holds of all of this together
//! - [`outside`]: what is taken from the standard library on trust

pub mod args;
pub mod capture;
pub mod daemon;
pub mod fetch;
pub mod hash;
pub mod image;
pub mod index;
pub mod ipc;
pub mod keep;
pub mod laws;
pub mod menu;
pub mod model;
pub mod outside;
pub mod paths;
pub mod preview;
pub mod serve;
pub mod store;
pub mod text;
pub mod x11;

pub use hash::hash_bytes;
pub use image::{
    human_size, last_image_preview, make_image_preview, png_dimensions, read_last_image,
    LAST_IMAGE_ID,
};
pub use index::{entry_mime, read_index, Entry, DEFAULT_MAX_ITEMS};
pub use paths::{
    cache_dir, entries_dir, entry_path, index_path, last_image_data_path, last_image_meta_path,
    socket_path, Environment,
};
pub use preview::{make_text_preview, PREVIEW_MAX_CHARS};
pub use store::{ensure_dirs, save_last_image, store_entry, upsert_entry, FileOp};
