//! A damage-tracked sprite renderer for character-cell terminals.
//!
//! A scene of positioned, layered, styled text sprites is rendered onto a
//! terminal grid, redrawing only the region that changed since the previous
//! frame. The crate holds the rendering core: the data model (sprites, style
//! overlays, positions), the damage engine that computes which entities must
//! repaint, the compositor that turns the damage set into cell writes with
//! correct occlusion and transparency, and the writer that batches those
//! writes into minimal terminal commands. Terminal I/O itself, as well as
//! decoding assets from files, is left to the embedding program.

pub mod asset_loaders;
pub mod assets;
pub mod compositor;
pub mod damage;
pub mod geom;
pub mod render;
pub mod scene;
pub mod sprite;
pub mod style;
pub mod window;
pub mod writer;
