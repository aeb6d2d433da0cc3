//! The damage engine: which entities must repaint this frame.
//!
//! The engine diffs the scene against the per-entity state recorded at the
//! end of the previous render pass. The seed set holds every entity whose
//! position, sprite or style overlay changed (newly spawned ones included)
//! and every entity removed since the last frame, whose vacated cells must
//! still repaint. The seed set is then expanded to a fixed point: repainting
//! an entity repaints its whole old-or-new footprint, so every entity whose
//! current bounding rectangle intersects that footprint must repaint too,
//! and may in turn pull in more. The expansion runs over an explicit
//! worklist, never by recursion, so densely overlapping scenes cannot
//! exhaust the stack.

use vstd::prelude::*;

use crate::assets::Assets;
use crate::geom::Rect;
use crate::scene::{ent_at, find_index, has_ent, lemma_find_index, lemma_find_index_at};
use crate::scene::{Scene, SceneEntity};

verus! {

broadcast use vstd::seq_lib::group_seq_properties;

/// Membership in a sequence with its last element split off.
proof fn lemma_pop_contains(s: Seq<u64>, x: u64)
    requires
        s.len() > 0,
    ensures
        s.contains(x) <==> (s.drop_last().contains(x) || x == s.last()),
{
    if s.contains(x) {
        let k = choose|k: int| 0 <= k < s.len() && s[k] == x;
        if k < s.len() - 1 {
            assert(s.drop_last()[k] == x);
        }
    }
    if s.drop_last().contains(x) {
        let k = choose|k: int| 0 <= k < s.drop_last().len() && s.drop_last()[k] == x;
        assert(s[k] == x);
    }
}

/// Pushing a fresh element keeps a sequence duplicate-free.
proof fn lemma_push_no_dup(s: Seq<u64>, x: u64)
    requires
        s.no_duplicates(),
        !s.contains(x),
    ensures
        s.push(x).no_duplicates(),
{
    assert forall|i: int, j: int|
        0 <= i < s.push(x).len() && 0 <= j < s.push(x).len() && i != j implies s.push(x)[i]
        != s.push(x)[j] by {
        if i < s.len() && j < s.len() {
        } else if i < s.len() {
            assert(s[i] == s.push(x)[i]);
            assert(s.contains(s[i]));
        } else if j < s.len() {
            assert(s[j] == s.push(x)[j]);
            assert(s.contains(s[j]));
        }
    }
}

/// What the previous render pass recorded about one entity: the bounding
/// rectangle it was drawn at, and the field versions observed then.
#[derive(Clone, Copy, Debug)]
pub struct PrevEntry {
    pub id: u64,
    pub rect: Rect,
    pub position_version: u64,
    pub sprite_version: u64,
    pub style_version: u64,
}

/// The index of the entry with `id`, or `-1` when no entry has it.
pub open spec fn find_prev(s: Seq<PrevEntry>, id: u64) -> int
    decreases s.len(),
{
    if s.len() == 0 {
        -1
    } else if s[0].id == id {
        0
    } else {
        let r = find_prev(s.drop_first(), id);
        if r < 0 {
            -1
        } else {
            1 + r
        }
    }
}

/// Whether some entry in `s` has `id`.
pub open spec fn has_prev(s: Seq<PrevEntry>, id: u64) -> bool {
    find_prev(s, id) >= 0
}

/// The entry in `s` with `id`.
pub open spec fn prev_at(s: Seq<PrevEntry>, id: u64) -> PrevEntry {
    s[find_prev(s, id)]
}

/// `find_prev` finds `id` exactly when some entry holds it, and points at
/// such an entry.
pub proof fn lemma_find_prev(s: Seq<PrevEntry>, id: u64)
    ensures
        -1 <= find_prev(s, id) < s.len(),
        find_prev(s, id) >= 0 ==> s[find_prev(s, id)].id == id,
        find_prev(s, id) == -1 ==> forall|k: int| 0 <= k < s.len() ==> s[k].id != id,
    decreases s.len(),
{
    if s.len() > 0 && s[0].id != id {
        lemma_find_prev(s.drop_first(), id);
        if find_prev(s, id) == -1 {
            assert forall|k: int| 0 <= k < s.len() implies s[k].id != id by {
                if k > 0 {
                    assert(s[k] == s.drop_first()[k - 1]);
                }
            }
        }
    }
}

/// When nothing before `k` holds `id` and `s[k]` does, `find_prev` lands
/// on `k`.
pub proof fn lemma_find_prev_at(s: Seq<PrevEntry>, id: u64, k: int)
    requires
        0 <= k < s.len(),
        s[k].id == id,
        forall|j: int| 0 <= j < k ==> s[j].id != id,
    ensures
        find_prev(s, id) == k,
    decreases s.len(),
{
    if k > 0 {
        assert(forall|j: int| 0 <= j < s.drop_first().len() ==> s.drop_first()[j] == s[j + 1]);
        lemma_find_prev_at(s.drop_first(), id, k - 1);
    }
}

/// Per-entity state as of the end of the previous render pass, kept between
/// frames. An entry for a removed entity persists one extra frame, so its
/// vacated rectangle is still blanked, and is dropped when the pass that
/// repainted it records the new state.
#[derive(Debug)]
pub struct PreviousEntityDetails {
    pub entries: Vec<PrevEntry>,
}

impl PreviousEntityDetails {
    /// Well-formed: one entry per entity.
    pub open spec fn wf(self) -> bool {
        forall|i: int, j: int|
            0 <= i < j < self.entries@.len() ==> self.entries@[i].id != self.entries@[j].id
    }

    /// A store with no history: every entity will count as newly spawned.
    pub fn new() -> (p: PreviousEntityDetails)
        ensures
            p.entries@ =~= Seq::<PrevEntry>::empty(),
            p.wf(),
    {
        PreviousEntityDetails { entries: Vec::new() }
    }

    /// Finds the index of the entry with `id`.
    pub fn index_of(&self, id: u64) -> (r: Option<usize>)
        ensures
            match r {
                Some(i) => i == find_prev(self.entries@, id) && i < self.entries@.len()
                    && self.entries@[i as int].id == id,
                None => !has_prev(self.entries@, id),
            },
    {
        let mut i: usize = 0;
        while i < self.entries.len()
            invariant
                i <= self.entries@.len(),
                forall|k: int| 0 <= k < i ==> self.entries@[k].id != id,
            decreases self.entries@.len() - i,
        {
            if self.entries[i].id == id {
                proof {
                    lemma_find_prev_at(self.entries@, id, i as int);
                }
                return Some(i);
            }
            i = i + 1;
        }
        proof {
            lemma_find_prev(self.entries@, id);
        }
        None
    }

    /// Reads the entry with `id`.
    pub fn get(&self, id: u64) -> (r: Option<PrevEntry>)
        ensures
            match r {
                Some(e) => has_prev(self.entries@, id) && e == prev_at(self.entries@, id),
                None => !has_prev(self.entries@, id),
            },
    {
        match self.index_of(id) {
            Some(i) => Some(self.entries[i]),
            None => None,
        }
    }
}

/// Whether the entity with `id` changed this tick: it is live, and either
/// no previous state was recorded for it (newly spawned), or one of its
/// observed field versions no longer matches.
pub open spec fn changed(scene: Scene, prev: PreviousEntityDetails, id: u64) -> bool {
    &&& has_ent(scene.entities@, id)
    &&& {
        let e = ent_at(scene.entities@, id);
        if has_prev(prev.entries@, id) {
            let p = prev_at(prev.entries@, id);
            p.position_version != e.position_version || p.sprite_version != e.sprite_version
                || p.style_version != e.style_version
        } else {
            true
        }
    }
}

/// Whether the entity with `id` was removed since the last frame: the
/// previous pass recorded it, but it is no longer live.
pub open spec fn removed(scene: Scene, prev: PreviousEntityDetails, id: u64) -> bool {
    has_prev(prev.entries@, id) && !has_ent(scene.entities@, id)
}

/// The damage seed set: entities changed this tick, plus entities removed
/// since the last frame.
pub open spec fn seed(scene: Scene, prev: PreviousEntityDetails, id: u64) -> bool {
    changed(scene, prev, id) || removed(scene, prev, id)
}

/// Whether repainting `a` forces `b` to repaint: `b` is live and its
/// current bounding rectangle intersects `a`'s dirty footprint — `a`'s
/// current rectangle or the rectangle recorded for `a` by the previous
/// pass (the vacated cells).
pub open spec fn pulls(
    scene: Scene,
    assets: Assets,
    prev: PreviousEntityDetails,
    a: u64,
    b: u64,
) -> bool {
    &&& has_ent(scene.entities@, b)
    &&& {
        let rb = ent_at(scene.entities@, b).rect(assets);
        ||| (has_ent(scene.entities@, a) && rb.overlaps(ent_at(scene.entities@, a).rect(assets)))
        ||| (has_prev(prev.entries@, a) && rb.overlaps(prev_at(prev.entries@, a).rect))
    }
}

/// The entities the damage expansion reaches within `n` steps from the
/// seed set.
pub open spec fn reach(
    scene: Scene,
    assets: Assets,
    prev: PreviousEntityDetails,
    n: nat,
    id: u64,
) -> bool
    decreases n,
{
    if n == 0 {
        seed(scene, prev, id)
    } else {
        ||| reach(scene, assets, prev, (n - 1) as nat, id)
        ||| exists|a: u64|
            #[trigger] pulls(scene, assets, prev, a, id) && reach(
                scene,
                assets,
                prev,
                (n - 1) as nat,
                a,
            )
    }
}

/// The per-frame damage set: the entities that must repaint, by id. Ids of
/// entities removed since the last frame appear too; they contribute their
/// vacated rectangle to the repaint region.
#[derive(Debug)]
pub struct EntitiesToRedraw {
    pub ids: Vec<u64>,
}

impl EntitiesToRedraw {
    /// Well-formed: no id twice.
    pub open spec fn wf(self) -> bool {
        self.ids@.no_duplicates()
    }

    /// The empty damage set.
    pub fn new() -> (r: EntitiesToRedraw)
        ensures
            r.ids@ =~= Seq::<u64>::empty(),
            r.wf(),
    {
        EntitiesToRedraw { ids: Vec::new() }
    }

    /// Decides membership.
    pub fn contains(&self, id: u64) -> (r: bool)
        ensures
            r == self.ids@.contains(id),
    {
        vec_contains_u64(&self.ids, id)
    }
}

/// Decides whether `v` holds `x`.
fn vec_contains_u64(v: &Vec<u64>, x: u64) -> (r: bool)
    ensures
        r == v@.contains(x),
{
    let mut i: usize = 0;
    while i < v.len()
        invariant
            i <= v@.len(),
            forall|k: int| 0 <= k < i ==> v@[k] != x,
        decreases v@.len() - i,
    {
        if v[i] == x {
            return true;
        }
        i = i + 1;
    }
    false
}

/// Reads the bounding rectangle `e` occupies: its sprite's grid at its
/// position, or a zero-area rectangle when the sprite handle is
/// tombstoned.
pub fn entity_rect(e: &SceneEntity, assets: &Assets) -> (r: Rect)
    ensures
        r == e.rect(*assets),
{
    match assets.sprite(e.sprite) {
        Some(s) => Rect {
            x: e.position.x,
            y: e.position.y,
            width: s.width(),
            height: s.height(),
        },
        None => Rect { x: e.position.x, y: e.position.y, width: 0, height: 0 },
    }
}

/// One more expansion step stays within reach.
proof fn lemma_reach_step(
    scene: Scene,
    assets: Assets,
    prev: PreviousEntityDetails,
    n: nat,
    a: u64,
    b: u64,
)
    requires
        reach(scene, assets, prev, n, a),
        pulls(scene, assets, prev, a, b),
    ensures
        reach(scene, assets, prev, n + 1, b),
{
}

/// A set that holds every seed and is closed under expansion holds
/// everything reachable in `n` steps.
pub proof fn lemma_reach_subset(
    scene: Scene,
    assets: Assets,
    prev: PreviousEntityDetails,
    ids: Seq<u64>,
    n: nat,
)
    requires
        forall|id: u64| seed(scene, prev, id) ==> ids.contains(id),
        forall|a: u64, b: u64|
            ids.contains(a) && #[trigger] pulls(scene, assets, prev, a, b) ==> ids.contains(b),
    ensures
        forall|id: u64| reach(scene, assets, prev, n, id) ==> ids.contains(id),
    decreases n,
{
    if n > 0 {
        lemma_reach_subset(scene, assets, prev, ids, (n - 1) as nat);
        assert forall|id: u64| reach(scene, assets, prev, n, id) implies ids.contains(id) by {
            if !reach(scene, assets, prev, (n - 1) as nat, id) {
                let a = choose|a: u64|
                    #[trigger] pulls(scene, assets, prev, a, id) && reach(
                        scene,
                        assets,
                        prev,
                        (n - 1) as nat,
                        a,
                    );
                assert(ids.contains(a));
            }
        }
    }
}

/// With an empty seed set nothing is reachable: a scene that did not
/// change since the previous pass damages nothing.
pub proof fn lemma_no_seed_no_reach(
    scene: Scene,
    assets: Assets,
    prev: PreviousEntityDetails,
    n: nat,
)
    requires
        forall|id: u64| !seed(scene, prev, id),
    ensures
        forall|id: u64| !reach(scene, assets, prev, n, id),
    decreases n,
{
    if n > 0 {
        lemma_no_seed_no_reach(scene, assets, prev, (n - 1) as nat);
        assert forall|id: u64| !reach(scene, assets, prev, n, id) by {
            if reach(scene, assets, prev, n, id) {
                assert(!reach(scene, assets, prev, (n - 1) as nat, id));
                assert(exists|a: u64|
                    #[trigger] pulls(scene, assets, prev, a, id) && reach(
                        scene,
                        assets,
                        prev,
                        (n - 1) as nat,
                        a,
                    ));
                let a = choose|a: u64|
                    #[trigger] pulls(scene, assets, prev, a, id) && reach(
                        scene,
                        assets,
                        prev,
                        (n - 1) as nat,
                        a,
                    );
                assert(!reach(scene, assets, prev, (n - 1) as nat, a));
            }
        }
    }
}

/// Damage completeness: a live entity whose current bounding rectangle
/// intersects the old or the new footprint of a damaged entity is itself
/// in any seeded, expansion-closed damage set.
pub proof fn lemma_damage_completeness(
    scene: Scene,
    assets: Assets,
    prev: PreviousEntityDetails,
    ids: Seq<u64>,
    a: u64,
    b: u64,
)
    requires
        forall|id: u64| seed(scene, prev, id) ==> ids.contains(id),
        forall|x: u64, y: u64|
            ids.contains(x) && #[trigger] pulls(scene, assets, prev, x, y) ==> ids.contains(y),
        seed(scene, prev, a),
        has_ent(scene.entities@, b),
        ({
            let rb = ent_at(scene.entities@, b).rect(assets);
            ||| (has_ent(scene.entities@, a) && rb.overlaps(ent_at(scene.entities@, a).rect(assets)))
            ||| (has_prev(prev.entries@, a) && rb.overlaps(prev_at(prev.entries@, a).rect))
        }),
    ensures
        ids.contains(b),
{
    assert(pulls(scene, assets, prev, a, b));
}

/// Moving or changing `a` forces `b` and then `c` to repaint, even when
/// `a` and `c` do not touch: `b`'s repaint region is its whole footprint,
/// which reaches `c`.
pub proof fn lemma_transitive_closure(
    scene: Scene,
    assets: Assets,
    prev: PreviousEntityDetails,
    ids: Seq<u64>,
    a: u64,
    b: u64,
    c: u64,
)
    requires
        forall|id: u64| seed(scene, prev, id) ==> ids.contains(id),
        forall|x: u64, y: u64|
            ids.contains(x) && #[trigger] pulls(scene, assets, prev, x, y) ==> ids.contains(y),
        seed(scene, prev, a),
        pulls(scene, assets, prev, a, b),
        pulls(scene, assets, prev, b, c),
    ensures
        ids.contains(b),
        ids.contains(c),
{
}

/// Runs the damage engine: seeds the set from this tick's changes and
/// removals, then expands it over a worklist until no intersecting entity
/// is left out.
///
/// The result holds exactly the ids the expansion reaches: every seed is
/// in it, it is closed under expansion, and nothing else is in it.
pub fn compute_entities_to_redraw(
    scene: &Scene,
    assets: &Assets,
    prev: &PreviousEntityDetails,
) -> (out: EntitiesToRedraw)
    requires
        scene.wf(),
        prev.wf(),
    ensures
        out.wf(),
        forall|id: u64| seed(*scene, *prev, id) ==> out.ids@.contains(id),
        forall|a: u64, b: u64|
            out.ids@.contains(a) && #[trigger] pulls(*scene, *assets, *prev, a, b)
                ==> out.ids@.contains(b),
        forall|id: u64|
            #[trigger] out.ids@.contains(id) ==> exists|n: nat|
                reach(*scene, *assets, *prev, n, id),
        forall|id: u64|
            #[trigger] out.ids@.contains(id) ==> has_ent(scene.entities@, id) || has_prev(
                prev.entries@,
                id,
            ),
{
    let mut out: Vec<u64> = Vec::new();
    let mut work: Vec<u64> = Vec::new();

    // Seed: live entities whose versions moved, or with no recorded state.
    let mut i: usize = 0;
    while i < scene.entities.len()
        invariant
            scene.wf(),
            prev.wf(),
            i <= scene.entities@.len(),
            work@ == out@,
            out@.no_duplicates(),
            forall|id: u64| #[trigger]
                out@.contains(id) ==> changed(*scene, *prev, id) && exists|k: int|
                    0 <= k < i && scene.entities@[k].id == id,
            forall|k: int|
                0 <= k < i && changed(*scene, *prev, #[trigger] scene.entities@[k].id)
                    ==> out@.contains(scene.entities@[k].id),
        decreases scene.entities@.len() - i,
    {
        let e = scene.entities[i];
        proof {
            lemma_find_index_at(scene.entities@, e.id, i as int);
        }
        let is_changed = match prev.index_of(e.id) {
            None => true,
            Some(j) => {
                let p = prev.entries[j];
                p.position_version != e.position_version || p.sprite_version != e.sprite_version
                    || p.style_version != e.style_version
            },
        };
        if is_changed {
            proof {
                assert(changed(*scene, *prev, e.id));
                assert forall|id: u64| #[trigger] out@.contains(id) implies id != e.id by {
                    let k = choose|k: int| 0 <= k < i && scene.entities@[k].id == id;
                    assert(scene.entities@[k].id != scene.entities@[i as int].id);
                }
                lemma_push_no_dup(out@, e.id);
            }
            out.push(e.id);
            work.push(e.id);
            proof {
                assert forall|id: u64| #[trigger] out@.contains(id) implies changed(
                    *scene,
                    *prev,
                    id,
                ) && exists|k: int| 0 <= k < i + 1 && scene.entities@[k].id == id by {
                    if id == e.id {
                        assert(scene.entities@[i as int].id == id);
                    }
                }
            }
        }
        i = i + 1;
    }

    proof {
        assert forall|id: u64| changed(*scene, *prev, id) implies out@.contains(id) by {
            lemma_find_index(scene.entities@, id);
            let k = find_index(scene.entities@, id);
            assert(scene.entities@[k].id == id);
        }
    }

    // Seed: entities the previous pass recorded that are no longer live.
    let mut i: usize = 0;
    while i < prev.entries.len()
        invariant
            scene.wf(),
            prev.wf(),
            i <= prev.entries@.len(),
            work@ == out@,
            out@.no_duplicates(),
            forall|id: u64| #[trigger] out@.contains(id) ==> seed(*scene, *prev, id),
            forall|id: u64| changed(*scene, *prev, id) ==> out@.contains(id),
            forall|id: u64| #[trigger]
                out@.contains(id) ==> changed(*scene, *prev, id) || exists|k: int|
                    0 <= k < i && prev.entries@[k].id == id,
            forall|k: int|
                0 <= k < i && removed(*scene, *prev, #[trigger] prev.entries@[k].id)
                    ==> out@.contains(prev.entries@[k].id),
        decreases prev.entries@.len() - i,
    {
        let p = prev.entries[i];
        proof {
            lemma_find_prev_at(prev.entries@, p.id, i as int);
        }
        let live = match scene.index_of(p.id) {
            Some(_) => true,
            None => false,
        };
        if !live {
            proof {
                assert(removed(*scene, *prev, p.id));
                assert forall|id: u64| #[trigger] out@.contains(id) implies id != p.id by {
                    if changed(*scene, *prev, id) {
                        assert(has_ent(scene.entities@, id));
                    } else {
                        let k = choose|k: int| 0 <= k < i && prev.entries@[k].id == id;
                        assert(prev.entries@[k].id != prev.entries@[i as int].id);
                    }
                }
                lemma_push_no_dup(out@, p.id);
            }
            out.push(p.id);
            work.push(p.id);
            proof {
                assert forall|id: u64| #[trigger] out@.contains(id) implies changed(
                    *scene,
                    *prev,
                    id,
                ) || exists|k: int| 0 <= k < i + 1 && prev.entries@[k].id == id by {
                    if id == p.id {
                        assert(prev.entries@[i as int].id == id);
                    }
                }
            }
        }
        i = i + 1;
    }

    proof {
        assert forall|id: u64| seed(*scene, *prev, id) implies out@.contains(id) by {
            if !changed(*scene, *prev, id) {
                lemma_find_prev(prev.entries@, id);
                let k = find_prev(prev.entries@, id);
                assert(prev.entries@[k].id == id);
            }
        }
        assert forall|id: u64| #[trigger] out@.contains(id) implies exists|n: nat|
            reach(*scene, *assets, *prev, n, id) by {
            assert(reach(*scene, *assets, *prev, 0, id));
        }
        assert forall|id: u64| #[trigger] out@.contains(id) implies has_ent(scene.entities@, id)
            || has_prev(prev.entries@, id) by {
            assert(seed(*scene, *prev, id));
            lemma_find_index(scene.entities@, id);
            lemma_find_prev(prev.entries@, id);
        }
    }

    // Expand to a fixed point over the worklist.
    let ghost u_bound: int = scene.entities@.len() as int + prev.entries@.len() as int;
    proof {
        lemma_out_bounded(out@, scene.entities@, prev.entries@);
    }
    while work.len() > 0
        invariant
            scene.wf(),
            prev.wf(),
            out@.no_duplicates(),
            u_bound == scene.entities@.len() + prev.entries@.len(),
            out@.len() <= u_bound,
            forall|k: int| 0 <= k < work@.len() ==> out@.contains(#[trigger] work@[k]),
            forall|id: u64| seed(*scene, *prev, id) ==> out@.contains(id),
            forall|id: u64| #[trigger]
                out@.contains(id) ==> exists|n: nat| reach(*scene, *assets, *prev, n, id),
            forall|id: u64| #[trigger]
                out@.contains(id) ==> has_ent(scene.entities@, id) || has_prev(
                    prev.entries@,
                    id,
                ),
            forall|a: u64|
                #[trigger] out@.contains(a) && !work@.contains(a) ==> forall|b: u64|
                    #[trigger] pulls(*scene, *assets, *prev, a, b) ==> out@.contains(b),
        decreases u_bound - out@.len(), work@.len(),
    {
        let ghost work_before = work@;
        let a = work.pop().unwrap();
        proof {
            assert(a == work_before.last());
            assert(work@ == work_before.drop_last());
            assert(work_before.contains(a)) by {
                assert(work_before[work_before.len() - 1] == a);
            }
            assert forall|x: u64| work_before.contains(x) && x != a implies work@.contains(
                x,
            ) by {
                lemma_pop_contains(work_before, x);
            }
            assert forall|k: int| 0 <= k < work@.len() implies out@.contains(
                #[trigger] work@[k],
            ) by {
                assert(work@[k] == work_before[k]);
            }
        }
        let ghost out_at_pop = out@;
        let ghost work_at_pop = work@;

        // The dirty footprint of `a`: its current rectangle when live, the
        // recorded rectangle when remembered.
        let cur_rect: Option<Rect> = match scene.index_of(a) {
            Some(k) => Some(entity_rect(&scene.entities[k], assets)),
            None => None,
        };
        let old_rect: Option<Rect> = match prev.get(a) {
            Some(p) => Some(p.rect),
            None => None,
        };

        let mut k: usize = 0;
        while k < scene.entities.len()
            invariant
                scene.wf(),
                prev.wf(),
                out@.no_duplicates(),
                u_bound == scene.entities@.len() + prev.entries@.len(),
                out@.len() <= u_bound,
                k <= scene.entities@.len(),
                forall|j: int| 0 <= j < work@.len() ==> out@.contains(#[trigger] work@[j]),
                forall|id: u64| seed(*scene, *prev, id) ==> out@.contains(id),
                forall|id: u64| #[trigger]
                    out@.contains(id) ==> exists|n: nat| reach(*scene, *assets, *prev, n, id),
                forall|id: u64| #[trigger]
                    out@.contains(id) ==> has_ent(scene.entities@, id) || has_prev(
                        prev.entries@,
                        id,
                    ),
                forall|x: u64|
                    #[trigger] out@.contains(x) && !work@.contains(x) && x != a ==> forall|
                        b: u64,
                    |
                        #[trigger] pulls(*scene, *assets, *prev, x, b) ==> out@.contains(b),
                out@.contains(a),
                cur_rect matches Some(r) ==> has_ent(scene.entities@, a) && r == ent_at(
                    scene.entities@,
                    a,
                ).rect(*assets),
                cur_rect is None ==> !has_ent(scene.entities@, a),
                old_rect matches Some(r) ==> has_prev(prev.entries@, a) && r == prev_at(
                    prev.entries@,
                    a,
                ).rect,
                old_rect is None ==> !has_prev(prev.entries@, a),
                forall|j: int|
                    0 <= j < k && pulls(*scene, *assets, *prev, a, #[trigger] scene.entities@[j].id)
                        ==> out@.contains(scene.entities@[j].id),
                out_at_pop.len() <= out@.len(),
                out@.len() == out_at_pop.len() ==> out@ == out_at_pop && work@ == work_at_pop,
            decreases scene.entities@.len() - k,
        {
            let b = scene.entities[k];
            proof {
                lemma_find_index_at(scene.entities@, b.id, k as int);
            }
            let rb = entity_rect(&b, assets);
            let hit_cur = match cur_rect {
                Some(rc) => rb.intersects(&rc),
                None => false,
            };
            let hit_old = match old_rect {
                Some(ro) => rb.intersects(&ro),
                None => false,
            };
            if (hit_cur || hit_old) && !vec_contains_u64(&out, b.id) {
                proof {
                    assert(pulls(*scene, *assets, *prev, a, b.id));
                    let n = choose|n: nat| reach(*scene, *assets, *prev, n, a);
                    lemma_reach_step(*scene, *assets, *prev, n, a, b.id);
                    assert(reach(*scene, *assets, *prev, n + 1, b.id));
                    lemma_push_no_dup(out@, b.id);
                }
                out.push(b.id);
                work.push(b.id);
                proof {
                    lemma_out_bounded(out@, scene.entities@, prev.entries@);
                    assert forall|x: u64|
                        #[trigger] out@.contains(x) && !work@.contains(x) && x != a implies
                        forall|c: u64|
                            #[trigger] pulls(*scene, *assets, *prev, x, c) ==> out@.contains(
                                c,
                            ) by {
                        assert(x != b.id) by {
                            assert(work@[work@.len() - 1] == b.id);
                        }
                    }
                }
            }
            k = k + 1;
        }
        proof {
            // `a` is now fully expanded: everything it pulls is present.
            assert forall|b: u64| #[trigger] pulls(*scene, *assets, *prev, a, b) implies
                out@.contains(b) by {
                lemma_find_index(scene.entities@, b);
            }
            assert forall|x: u64|
                #[trigger] out@.contains(x) && !work@.contains(x) implies forall|b: u64|
                    #[trigger] pulls(*scene, *assets, *prev, x, b) ==> out@.contains(b) by {
            }
        }
    }
    EntitiesToRedraw { ids: out }
}

/// Distinct ids, each live or remembered, are no more numerous than the
/// scene and the previous-frame store together.
proof fn lemma_out_bounded(out: Seq<u64>, s: Seq<SceneEntity>, p: Seq<PrevEntry>)
    requires
        out.no_duplicates(),
        forall|id: u64| #[trigger] out.contains(id) ==> has_ent(s, id) || has_prev(p, id),
    ensures
        out.len() <= s.len() + p.len(),
{
    let all = s.map_values(|e: SceneEntity| e.id) + p.map_values(|q: PrevEntry| q.id);
    assert forall|id: u64| #[trigger] out.contains(id) implies all.contains(id) by {
        if has_ent(s, id) {
            lemma_find_index(s, id);
            let k = find_index(s, id);
            assert(all[k] == id);
        } else {
            lemma_find_prev(p, id);
            let k = find_prev(p, id);
            assert(all[s.len() + k] == id);
        }
    }
    assert(out.to_set().subset_of(all.to_set())) by {
        assert forall|id: u64| out.to_set().contains(id) implies all.to_set().contains(id) by {
            assert(out.contains(id));
            assert(all.contains(id));
        }
    }
    out.unique_seq_to_set();
    all.lemma_cardinality_of_set();
    vstd::set_lib::lemma_len_subset(out.to_set(), all.to_set());
}

} // verus!
