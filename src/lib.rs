//! Terminal Markdown viewer core: Markdown to Typst conversion with a
//! block-level source map, tile geometry, caches, and the viewer's
//! input-to-effect state machine.

pub mod text;
pub mod events;
pub mod convert;
pub mod tile_map;
pub mod tile;
pub mod source;
pub mod url;
pub mod input;
pub mod modes;
pub mod search;
pub mod theme;
pub mod prefetch;
pub mod kitty;
pub mod layout;
pub mod rebuild;
