//! The scene: positioned, layered entities with change tracking.
//!
//! Each entity pairs a position with handles into the asset arena and a
//! visibility mode. Every paint-relevant field carries a version counter that
//! is bumped on mutation; the damage engine compares these counters against
//! the versions it observed at the last render to decide what changed.

use vstd::prelude::*;

use crate::assets::Assets;
use crate::geom::Rect;

verus! {

/// Where a sprite sits: `(x, y)` is the top-left cell of its bounding box,
/// `z` its paint-order depth (greater `z` paints over smaller).
#[derive(Clone, Copy, Debug, PartialEq, Eq, Structural)]
pub struct Position {
    pub x: i32,
    pub y: i32,
    pub z: i32,
}

impl Position {
    /// A position from its parts.
    pub fn new(x: i32, y: i32, z: i32) -> (p: Position)
        ensures
            p == (Position { x, y, z }),
    {
        Position { x, y, z }
    }
}

/// Whether blank glyph cells occlude lower layers (a space paints as solid
/// fill) or reveal them (a space leaves what is underneath visible).
#[derive(Clone, Copy, Debug, PartialEq, Eq, Structural)]
pub enum Visibility {
    Opaque,
    Transparent,
}

/// One scene entity: a sprite placed at a position, with a style overlay
/// and a visibility mode, plus one version counter per paint-relevant field.
#[derive(Clone, Copy, Debug)]
pub struct SceneEntity {
    /// Stable identity; doubles as the z tie-break (later spawns paint over
    /// earlier ones at equal depth).
    pub id: u64,
    pub position: Position,
    /// Handle into [`Assets::sprites`].
    pub sprite: usize,
    /// Handle into [`Assets::style_maps`]; `None` means the plain default
    /// style.
    pub style_map: Option<usize>,
    pub visibility: Visibility,
    pub position_version: u64,
    pub sprite_version: u64,
    pub style_version: u64,
}

impl SceneEntity {
    /// The bounding rectangle the entity occupies: its sprite's grid at its
    /// position.
    pub open spec fn rect(self, assets: Assets) -> Rect {
        let dims = match assets.spec_sprite(self.sprite as int) {
            Some(s) => (s.spec_width(), s.spec_height()),
            None => (0nat, 0nat),
        };
        Rect {
            x: self.position.x,
            y: self.position.y,
            width: dims.0 as usize,
            height: dims.1 as usize,
        }
    }

    /// Whether the entity's asset handles resolve in `assets`.
    pub open spec fn resolvable(self, assets: Assets) -> bool {
        &&& assets.spec_sprite(self.sprite as int) is Some
        &&& match self.style_map {
            Some(h) => assets.spec_style_map(h as int) is Some,
            None => true,
        }
    }
}

/// A version counter after one more mutation; the counter pins at its
/// maximum rather than wrap, so it never runs backwards.
pub open spec fn bump(v: u64) -> u64 {
    if v == u64::MAX {
        v
    } else {
        (v + 1) as u64
    }
}

/// The index of the entity with `id`, or `-1` when no entity has it.
pub open spec fn find_index(s: Seq<SceneEntity>, id: u64) -> int
    decreases s.len(),
{
    if s.len() == 0 {
        -1
    } else if s[0].id == id {
        0
    } else {
        let r = find_index(s.drop_first(), id);
        if r < 0 {
            -1
        } else {
            1 + r
        }
    }
}

/// Whether some entity in `s` has `id`.
pub open spec fn has_ent(s: Seq<SceneEntity>, id: u64) -> bool {
    find_index(s, id) >= 0
}

/// The entity in `s` with `id`.
pub open spec fn ent_at(s: Seq<SceneEntity>, id: u64) -> SceneEntity {
    s[find_index(s, id)]
}

/// `find_index` finds `id` exactly when some entry holds it, and points at
/// such an entry.
pub proof fn lemma_find_index(s: Seq<SceneEntity>, id: u64)
    ensures
        -1 <= find_index(s, id) < s.len(),
        find_index(s, id) >= 0 ==> s[find_index(s, id)].id == id,
        find_index(s, id) == -1 ==> forall|k: int| 0 <= k < s.len() ==> s[k].id != id,
    decreases s.len(),
{
    if s.len() > 0 && s[0].id != id {
        lemma_find_index(s.drop_first(), id);
        if find_index(s, id) == -1 {
            assert forall|k: int| 0 <= k < s.len() implies s[k].id != id by {
                if k > 0 {
                    assert(s[k] == s.drop_first()[k - 1]);
                }
            }
        }
    }
}

/// When nothing before `k` holds `id` and `s[k]` does, `find_index` lands
/// on `k`.
pub proof fn lemma_find_index_at(s: Seq<SceneEntity>, id: u64, k: int)
    requires
        0 <= k < s.len(),
        s[k].id == id,
        forall|j: int| 0 <= j < k ==> s[j].id != id,
    ensures
        find_index(s, id) == k,
    decreases s.len(),
{
    if k > 0 {
        assert(forall|j: int|
            0 <= j < s.drop_first().len() ==> s.drop_first()[j] == s[j + 1]);
        lemma_find_index_at(s.drop_first(), id, k - 1);
    }
}

/// The scene graph: the live entities, plus the id the next spawn receives.
#[derive(Debug)]
pub struct Scene {
    pub entities: Vec<SceneEntity>,
    pub next_id: u64,
}

impl Scene {
    /// Well-formed: ids are distinct, and all sit below `next_id`, so a
    /// spawn always hands out a fresh one.
    pub open spec fn wf(self) -> bool {
        &&& forall|i: int, j: int|
            0 <= i < j < self.entities@.len() ==> self.entities@[i].id != self.entities@[j].id
        &&& forall|i: int| 0 <= i < self.entities@.len() ==> #[trigger] self.entities@[i].id
            < self.next_id
    }

    /// Whether every entity's asset handles resolve in `assets`.
    pub open spec fn resolvable(self, assets: Assets) -> bool {
        forall|i: int|
            0 <= i < self.entities@.len() ==> (#[trigger] self.entities@[i]).resolvable(assets)
    }

    /// An empty scene.
    pub fn new() -> (s: Scene)
        ensures
            s.entities@ =~= Seq::<SceneEntity>::empty(),
            s.next_id == 0,
            s.wf(),
    {
        Scene { entities: Vec::new(), next_id: 0 }
    }

    /// Adds an entity with a fresh id; all its version counters start at 1,
    /// which marks it changed against any previous frame.
    pub fn spawn(
        &mut self,
        position: Position,
        sprite: usize,
        style_map: Option<usize>,
        visibility: Visibility,
    ) -> (id: u64)
        requires
            old(self).wf(),
            old(self).next_id < u64::MAX,
        ensures
            id == old(self).next_id,
            final(self).entities@ == old(self).entities@.push(
                SceneEntity {
                    id,
                    position,
                    sprite,
                    style_map,
                    visibility,
                    position_version: 1u64,
                    sprite_version: 1u64,
                    style_version: 1u64,
                },
            ),
            final(self).next_id == old(self).next_id + 1,
            final(self).wf(),
    {
        let id = self.next_id;
        self.entities.push(
            SceneEntity {
                id,
                position,
                sprite,
                style_map,
                visibility,
                position_version: 1,
                sprite_version: 1,
                style_version: 1,
            },
        );
        self.next_id = self.next_id + 1;
        id
    }

    /// Finds the index of the entity with `id`.
    pub fn index_of(&self, id: u64) -> (r: Option<usize>)
        ensures
            match r {
                Some(i) => i == find_index(self.entities@, id) && i < self.entities@.len()
                    && self.entities@[i as int].id == id,
                None => !has_ent(self.entities@, id),
            },
    {
        let mut i: usize = 0;
        while i < self.entities.len()
            invariant
                i <= self.entities@.len(),
                forall|k: int| 0 <= k < i ==> self.entities@[k].id != id,
            decreases self.entities@.len() - i,
        {
            if self.entities[i].id == id {
                proof {
                    lemma_find_index_at(self.entities@, id, i as int);
                }
                return Some(i);
            }
            i = i + 1;
        }
        proof {
            lemma_find_index(self.entities@, id);
        }
        None
    }

    /// Reads the entity with `id`.
    pub fn get(&self, id: u64) -> (r: Option<SceneEntity>)
        ensures
            match r {
                Some(e) => has_ent(self.entities@, id) && e == ent_at(self.entities@, id),
                None => !has_ent(self.entities@, id),
            },
    {
        match self.index_of(id) {
            Some(i) => Some(self.entities[i]),
            None => None,
        }
    }

    /// Moves the entity with `id` and bumps its position version. Returns
    /// whether the entity exists.
    pub fn set_position(&mut self, id: u64, position: Position) -> (found: bool)
        ensures
            found == has_ent(old(self).entities@, id),
            !found ==> *final(self) == *old(self),
            found ==> final(self).entities@ == old(self).entities@.update(
                find_index(old(self).entities@, id),
                SceneEntity {
                    position,
                    position_version: bump(ent_at(old(self).entities@, id).position_version),
                    ..ent_at(old(self).entities@, id)
                },
            ),
            final(self).next_id == old(self).next_id,
            old(self).wf() ==> final(self).wf(),
    {
        match self.index_of(id) {
            Some(i) => {
                let mut e = self.entities[i];
                e.position = position;
                e.position_version = if e.position_version == u64::MAX {
                    e.position_version
                } else {
                    e.position_version + 1
                };
                self.entities[i] = e;
                true
            },
            None => false,
        }
    }

    /// Re-points the entity with `id` at another sprite and bumps its
    /// sprite version. Returns whether the entity exists.
    pub fn set_sprite(&mut self, id: u64, sprite: usize) -> (found: bool)
        ensures
            found == has_ent(old(self).entities@, id),
            !found ==> *final(self) == *old(self),
            found ==> final(self).entities@ == old(self).entities@.update(
                find_index(old(self).entities@, id),
                SceneEntity {
                    sprite,
                    sprite_version: bump(ent_at(old(self).entities@, id).sprite_version),
                    ..ent_at(old(self).entities@, id)
                },
            ),
            final(self).next_id == old(self).next_id,
            old(self).wf() ==> final(self).wf(),
    {
        match self.index_of(id) {
            Some(i) => {
                let mut e = self.entities[i];
                e.sprite = sprite;
                e.sprite_version = if e.sprite_version == u64::MAX {
                    e.sprite_version
                } else {
                    e.sprite_version + 1
                };
                self.entities[i] = e;
                true
            },
            None => false,
        }
    }

    /// Re-points the entity with `id` at another style overlay and bumps
    /// its style version. Returns whether the entity exists.
    pub fn set_style_map(&mut self, id: u64, style_map: Option<usize>) -> (found: bool)
        ensures
            found == has_ent(old(self).entities@, id),
            !found ==> *final(self) == *old(self),
            found ==> final(self).entities@ == old(self).entities@.update(
                find_index(old(self).entities@, id),
                SceneEntity {
                    style_map,
                    style_version: bump(ent_at(old(self).entities@, id).style_version),
                    ..ent_at(old(self).entities@, id)
                },
            ),
            final(self).next_id == old(self).next_id,
            old(self).wf() ==> final(self).wf(),
    {
        match self.index_of(id) {
            Some(i) => {
                let mut e = self.entities[i];
                e.style_map = style_map;
                e.style_version = if e.style_version == u64::MAX {
                    e.style_version
                } else {
                    e.style_version + 1
                };
                self.entities[i] = e;
                true
            },
            None => false,
        }
    }

    /// Flips the entity's visibility. A visibility flip restyles every cell
    /// of the sprite, so it counts as a style change. Returns whether the
    /// entity exists.
    pub fn set_visibility(&mut self, id: u64, visibility: Visibility) -> (found: bool)
        ensures
            found == has_ent(old(self).entities@, id),
            !found ==> *final(self) == *old(self),
            found ==> final(self).entities@ == old(self).entities@.update(
                find_index(old(self).entities@, id),
                SceneEntity {
                    visibility,
                    style_version: bump(ent_at(old(self).entities@, id).style_version),
                    ..ent_at(old(self).entities@, id)
                },
            ),
            final(self).next_id == old(self).next_id,
            old(self).wf() ==> final(self).wf(),
    {
        match self.index_of(id) {
            Some(i) => {
                let mut e = self.entities[i];
                e.visibility = visibility;
                e.style_version = if e.style_version == u64::MAX {
                    e.style_version
                } else {
                    e.style_version + 1
                };
                self.entities[i] = e;
                true
            },
            None => false,
        }
    }

    /// Removes the entity with `id`. Returns whether it existed. Its last
    /// rendered footprint stays in the previous-frame store for one more
    /// frame, so the vacated cells still repaint.
    pub fn despawn(&mut self, id: u64) -> (found: bool)
        ensures
            found == has_ent(old(self).entities@, id),
            !found ==> *final(self) == *old(self),
            found ==> final(self).entities@ == old(self).entities@.remove(
                find_index(old(self).entities@, id),
            ),
            final(self).next_id == old(self).next_id,
            old(self).wf() ==> final(self).wf(),
    {
        match self.index_of(id) {
            Some(i) => {
                self.entities.remove(i);
                proof {
                    if old(self).wf() {
                        let s = old(self).entities@;
                        let t = final(self).entities@;
                        assert forall|a: int, b: int| 0 <= a < b < t.len() implies t[a].id
                            != t[b].id by {
                            assert(t[a] == if a < i as int {
                                s[a]
                            } else {
                                s[a + 1]
                            });
                            assert(t[b] == if b < i as int {
                                s[b]
                            } else {
                                s[b + 1]
                            });
                        }
                        assert forall|a: int| 0 <= a < t.len() implies #[trigger] t[a].id
                            < final(self).next_id by {
                            assert(t[a] == if a < i as int {
                                s[a]
                            } else {
                                s[a + 1]
                            });
                        }
                    }
                }
                true
            },
            None => false,
        }
    }
}

} // verus!
