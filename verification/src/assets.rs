//! The asset arena: sprites and style overlays behind stable handles.
//!
//! Entities refer to their sprite and style overlay by integer handle into
//! this arena. Removal tombstones the slot instead of freeing it, so a handle
//! is never silently re-pointed at another asset.

use vstd::prelude::*;

use crate::sprite::Sprite;
use crate::style::StyleMap;

verus! {

/// Holds every loaded sprite and style overlay; entities keep handles
/// (indices) into it.
#[derive(Debug)]
pub struct Assets {
    pub sprites: Vec<Option<Sprite>>,
    pub style_maps: Vec<Option<StyleMap>>,
}

impl Assets {
    /// The sprite behind handle `h`, if the handle is in range and the slot
    /// is not tombstoned.
    pub open spec fn spec_sprite(self, h: int) -> Option<Sprite> {
        if 0 <= h < self.sprites@.len() {
            self.sprites@[h]
        } else {
            None
        }
    }

    /// The style overlay behind handle `h`, if present.
    pub open spec fn spec_style_map(self, h: int) -> Option<StyleMap> {
        if 0 <= h < self.style_maps@.len() {
            self.style_maps@[h]
        } else {
            None
        }
    }

    /// An arena with nothing in it.
    pub fn new() -> (a: Assets)
        ensures
            a.sprites@ =~= Seq::<Option<Sprite>>::empty(),
            a.style_maps@ =~= Seq::<Option<StyleMap>>::empty(),
    {
        Assets { sprites: Vec::new(), style_maps: Vec::new() }
    }

    /// Stores a sprite and hands back its handle.
    pub fn add_sprite(&mut self, s: Sprite) -> (h: usize)
        ensures
            h == old(self).sprites@.len(),
            final(self).sprites@ == old(self).sprites@.push(Some(s)),
            final(self).style_maps@ == old(self).style_maps@,
    {
        let h = self.sprites.len();
        self.sprites.push(Some(s));
        h
    }

    /// Stores a style overlay and hands back its handle.
    pub fn add_style_map(&mut self, m: StyleMap) -> (h: usize)
        ensures
            h == old(self).style_maps@.len(),
            final(self).style_maps@ == old(self).style_maps@.push(Some(m)),
            final(self).sprites@ == old(self).sprites@,
    {
        let h = self.style_maps.len();
        self.style_maps.push(Some(m));
        h
    }

    /// Tombstones the sprite slot behind `h`. Returns whether the handle
    /// held a sprite.
    pub fn remove_sprite(&mut self, h: usize) -> (found: bool)
        ensures
            found == (old(self).spec_sprite(h as int) is Some),
            final(self).style_maps@ == old(self).style_maps@,
            h < old(self).sprites@.len() ==> final(self).sprites@ == old(self).sprites@.update(
                h as int,
                None,
            ),
            h >= old(self).sprites@.len() ==> *final(self) == *old(self),
    {
        if h < self.sprites.len() {
            let found = self.sprites[h].is_some();
            self.sprites[h] = None;
            found
        } else {
            false
        }
    }

    /// Tombstones the style overlay slot behind `h`. Returns whether the
    /// handle held an overlay.
    pub fn remove_style_map(&mut self, h: usize) -> (found: bool)
        ensures
            found == (old(self).spec_style_map(h as int) is Some),
            final(self).sprites@ == old(self).sprites@,
            h < old(self).style_maps@.len() ==> final(self).style_maps@ == old(
                self,
            ).style_maps@.update(h as int, None),
            h >= old(self).style_maps@.len() ==> *final(self) == *old(self),
    {
        if h < self.style_maps.len() {
            let found = self.style_maps[h].is_some();
            self.style_maps[h] = None;
            found
        } else {
            false
        }
    }

    /// Reads the sprite behind handle `h`.
    pub fn sprite(&self, h: usize) -> (r: Option<&Sprite>)
        ensures
            match r {
                Some(s) => self.spec_sprite(h as int) == Some(*s),
                None => self.spec_sprite(h as int) is None,
            },
    {
        if h < self.sprites.len() {
            self.sprites[h].as_ref()
        } else {
            None
        }
    }

    /// Reads the style overlay behind handle `h`.
    pub fn style_map(&self, h: usize) -> (r: Option<&StyleMap>)
        ensures
            match r {
                Some(m) => self.spec_style_map(h as int) == Some(*m),
                None => self.spec_style_map(h as int) is None,
            },
    {
        if h < self.style_maps.len() {
            self.style_maps[h].as_ref()
        } else {
            None
        }
    }
}

} // verus!
