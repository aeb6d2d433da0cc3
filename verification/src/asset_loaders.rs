//! Decoding cores of the asset loaders.
//!
//! The embedding program's asset pipeline reads the raw bytes and, for
//! style overlays, parses the persisted document; these loaders hold the
//! part that builds the asset values themselves. A sprite loads from plain
//! text, one row per line; a style overlay loads from its decoded parts.

use vstd::prelude::*;

use crate::sprite::{split_lines, Sprite};
use crate::style::{Style, StyleEntry, StyleMap};

verus! {

/// Why sprite data failed to load: the bytes were not valid text, or could
/// not be read at all.
#[derive(Clone, Copy, Debug, PartialEq, Eq, Structural)]
pub enum LoadSpriteError {
    InvalidUtf8,
    Io,
}

impl LoadSpriteError {
    /// A human-readable description of the failure.
    pub fn message(&self) -> (r: &'static str)
        ensures
            *self is InvalidUtf8 ==> r@ == "sprite data contains invalid utf8 data"@,
            *self is Io ==> r@ == "io error"@,
    {
        match self {
            LoadSpriteError::InvalidUtf8 => "sprite data contains invalid utf8 data",
            LoadSpriteError::Io => "io error",
        }
    }
}

/// Loads sprites: text in, glyph grid out.
#[derive(Clone, Copy, Debug, PartialEq, Eq, Structural)]
pub struct SpriteLoader;

impl SpriteLoader {
    /// Builds a sprite from its text, one row per line.
    pub fn load(&self, text: &str) -> (s: Sprite)
        ensures
            s.grid() == split_lines(text@),
    {
        Sprite::new(text)
    }

    /// The file extensions this loader claims.
    pub fn extensions(&self) -> (r: &[&str])
        ensures
            r@.len() == 1,
            r@[0]@ == "txt"@,
    {
        &["txt"]
    }
}

/// Loads style overlays from their decoded parts: a default style plus
/// per-cell overrides.
#[derive(Clone, Copy, Debug, PartialEq, Eq, Structural)]
pub struct StyleMapLoader;

impl StyleMapLoader {
    /// Builds a style overlay from a default style and its overrides.
    pub fn load(&self, style: Style, overrides: Vec<StyleEntry>) -> (m: StyleMap)
        ensures
            m.style == style,
            m.overrides@ == overrides@,
    {
        StyleMap { style, overrides }
    }

    /// The file extensions this loader claims.
    pub fn extensions(&self) -> (r: &[&str])
        ensures
            r@.len() == 1,
            r@[0]@ == "stylemap"@,
    {
        &["stylemap"]
    }
}

} // verus!
