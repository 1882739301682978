//! Evk, a Markdown editor built on the text model of a collaborative editor: the data
//! types, text bookkeeping and decision logic of the editor, each with its contract.
//!
//! - Text: [`chunk`] (chunks of at most 128 bytes with per-byte bitmaps), [`rope`]
//!   (texts as sequences of chunks), [`summary`] and [`summary_law`] (what a text sums to,
//!   and that sums compose), [`point`], [`buffer`] and [`anchor`] (offsets into a snapshot's text, and anchors
//!   that resolve to them).
//! - Replication: [`clock`] and [`lamport_order`] (replicas, Lamport timestamps, version
//!   vectors), [`text_ops`] and [`insertion_slice`] (operations and their keys),
//!   [`tree_map`].
//! - Settings: [`settings`] (values and how layers merge), [`settings_value`] (values per
//!   worktree directory).
//! - Window and files: [`window_layout`] and [`layout_law`] (title bar button layouts),
//!   [`title_bar_drag`] (moving a window by its title bar),
//!   [`geometry`], [`keybinds`], [`file_tree`], [`theme`], [`file_system`].
//! - Collaboration and network: [`remote`], [`collab`], [`http_client`], [`language`].
use vstd::prelude::*;

pub mod bitmap;
pub mod chunk;
pub mod chunk_text;
pub mod point;
pub mod rope;
pub mod summary;
pub mod summary_law;
pub mod anchor;
pub mod buffer;
pub mod clock;
pub mod lamport_order;
pub mod decimal;
pub mod text_ops;
pub mod insertion_slice;
pub mod tree_map;
pub mod settings;
pub mod settings_value;
pub mod window_layout;
pub mod title_bar_drag;
pub mod layout_law;
pub mod geometry;
pub mod keybinds;
pub mod file_tree;
pub mod theme;
pub mod file_system;
pub mod remote;
pub mod collab;
pub mod http_client;
pub mod language;

verus! {
} // verus!
