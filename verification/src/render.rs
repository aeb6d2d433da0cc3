//! The render pass: damage, composition, terminal commands, bookkeeping.
//!
//! One pass diffs the scene against the previous-frame store, renders the
//! damage set into cell writes, encodes them as minimal terminal commands,
//! and records the scene's state for the next pass. Because the store then
//! mirrors the scene exactly, a second pass over an unmutated scene finds
//! an empty damage set and paints nothing.

use vstd::prelude::*;

use crate::assets::Assets;
use crate::compositor::{composite, write_ok, CellWrite};
use crate::damage::{
    changed, compute_entities_to_redraw, find_prev, lemma_no_seed_no_reach, prev_at, pulls, reach,
    removed, seed, EntitiesToRedraw, PrevEntry, PreviousEntityDetails,
};
use crate::scene::{ent_at, find_index, has_ent, lemma_find_index, Scene, SceneEntity};
use crate::style::Colors;
use crate::writer::{
    encode_frame, init_state, minimal_commands, replay_paints, replay_state, PreviousWindowColors,
    TermCommand,
};

verus! {

/// The previous-frame store mirrors the scene exactly: one entry per live
/// entity, in order, with the versions and the bounding rectangle the
/// render pass observed. This is what holds at the end of every render
/// pass, and never reflects a partial frame.
pub open spec fn up_to_date(scene: Scene, assets: Assets, prev: PreviousEntityDetails) -> bool {
    &&& prev.entries@.len() == scene.entities@.len()
    &&& forall|i: int|
        0 <= i < scene.entities@.len() ==> {
            let e = #[trigger] scene.entities@[i];
            let p = prev.entries@[i];
            &&& p.id == e.id
            &&& p.position_version == e.position_version
            &&& p.sprite_version == e.sprite_version
            &&& p.style_version == e.style_version
            &&& p.rect == e.rect(assets)
        }
}

/// Entries that mirror the scene entity-for-entity are found at the same
/// index.
proof fn lemma_find_align(s: Seq<SceneEntity>, p: Seq<PrevEntry>, id: u64)
    requires
        s.len() == p.len(),
        forall|i: int| 0 <= i < s.len() ==> (#[trigger] p[i]).id == s[i].id,
    ensures
        find_prev(p, id) == find_index(s, id),
    decreases s.len(),
{
    if s.len() > 0 && s[0].id != id {
        assert forall|i: int| 0 <= i < s.drop_first().len() implies (#[trigger] p.drop_first()[i]).id
            == s.drop_first()[i].id by {
            assert(p.drop_first()[i] == p[i + 1]);
            assert(s.drop_first()[i] == s[i + 1]);
        }
        lemma_find_align(s.drop_first(), p.drop_first(), id);
    }
}

/// A store that mirrors the scene seeds no damage: nothing changed and
/// nothing was removed.
pub proof fn lemma_up_to_date_no_seed(scene: Scene, assets: Assets, prev: PreviousEntityDetails)
    requires
        up_to_date(scene, assets, prev),
    ensures
        forall|id: u64| !seed(scene, prev, id),
{
    assert forall|id: u64| !seed(scene, prev, id) by {
        lemma_find_align(scene.entities@, prev.entries@, id);
        lemma_find_index(scene.entities@, id);
        if has_ent(scene.entities@, id) {
            let i = find_index(scene.entities@, id);
            assert(prev.entries@[i] == prev_at(prev.entries@, id));
            assert(ent_at(scene.entities@, id) == scene.entities@[i]);
            assert(!changed(scene, prev, id));
        } else {
            assert(!removed(scene, prev, id));
        }
    }
}

/// Running the render pass twice with no scene mutation in between leaves
/// nothing to redraw the second time: after a pass the store mirrors the
/// scene, so every id the damage expansion could reach would have to grow
/// from a seed, and there is none.
pub proof fn lemma_render_pass_idempotent(
    scene: Scene,
    assets: Assets,
    prev: PreviousEntityDetails,
    ids: Seq<u64>,
)
    requires
        up_to_date(scene, assets, prev),
        forall|id: u64|
            #[trigger] ids.contains(id) ==> exists|n: nat| reach(scene, assets, prev, n, id),
    ensures
        ids.len() == 0,
{
    lemma_up_to_date_no_seed(scene, assets, prev);
    if ids.len() > 0 {
        let id = ids[0];
        assert(ids.contains(id));
        let n = choose|n: nat| reach(scene, assets, prev, n, id);
        lemma_no_seed_no_reach(scene, assets, prev, n);
    }
}

/// Records the scene as the previous frame for the next pass: one entry
/// per live entity, holding its current versions and bounding rectangle.
/// Entries of removed entities, having contributed their vacated
/// rectangles to this frame's damage, are dropped here.
pub fn update_previous_details(scene: &Scene, assets: &Assets, prev: &mut PreviousEntityDetails)
    requires
        scene.wf(),
    ensures
        up_to_date(*scene, *assets, *final(prev)),
        final(prev).wf(),
{
    let mut entries: Vec<PrevEntry> = Vec::new();
    let mut i: usize = 0;
    while i < scene.entities.len()
        invariant
            scene.wf(),
            i <= scene.entities@.len(),
            entries@.len() == i,
            forall|k: int|
                0 <= k < i ==> {
                    let e = #[trigger] scene.entities@[k];
                    let p = entries@[k];
                    &&& p.id == e.id
                    &&& p.position_version == e.position_version
                    &&& p.sprite_version == e.sprite_version
                    &&& p.style_version == e.style_version
                    &&& p.rect == e.rect(*assets)
                },
        decreases scene.entities@.len() - i,
    {
        let e = &scene.entities[i];
        let rect = crate::damage::entity_rect(e, assets);
        entries.push(
            PrevEntry {
                id: e.id,
                rect,
                position_version: e.position_version,
                sprite_version: e.sprite_version,
                style_version: e.style_version,
            },
        );
        i = i + 1;
    }
    prev.entries = entries;
    proof {
        let ghost q = *final(prev);
        assert forall|i: int, j: int|
            0 <= i < j < q.entries@.len() implies q.entries@[i].id != q.entries@[j].id by {
            assert(q.entries@[i].id == scene.entities@[i].id);
            assert(q.entries@[j].id == scene.entities@[j].id);
        }
    }
}

/// One full render pass.
///
/// Diffs the scene against `prev`, expands the damage set to its fixed
/// point, renders the repaint region into cell writes, encodes them as
/// minimal terminal commands, and records the scene in `prev` for the next
/// pass. Returns the damage set, the cell writes and the commands; the
/// embedding program queues the commands to the terminal and flushes once.
///
/// When nothing mutated the scene since the last pass — the store still
/// mirrors it — the pass finds nothing to redraw and emits nothing.
pub fn render_pass(
    scene: &Scene,
    assets: &Assets,
    width: u16,
    height: u16,
    window_colors: Colors,
    prev: &mut PreviousEntityDetails,
    prev_colors: &mut PreviousWindowColors,
) -> (r: (EntitiesToRedraw, Vec<CellWrite>, Vec<TermCommand>))
    requires
        scene.wf(),
        old(prev).wf(),
    ensures
        r.0.wf(),
        forall|id: u64| seed(*scene, *old(prev), id) ==> r.0.ids@.contains(id),
        forall|a: u64, b: u64|
            r.0.ids@.contains(a) && #[trigger] pulls(*scene, *assets, *old(prev), a, b)
                ==> r.0.ids@.contains(b),
        forall|id: u64|
            #[trigger] r.0.ids@.contains(id) ==> exists|n: nat|
                reach(*scene, *assets, *old(prev), n, id),
        forall|k: int|
            0 <= k < r.1@.len() ==> write_ok(
                #[trigger] r.1@[k],
                *scene,
                *assets,
                *old(prev),
                r.0.ids@,
                width,
                height,
                window_colors,
            ),
        forall|px: int, py: int|
            0 <= px < width && 0 <= py < height && crate::compositor::in_region(
                *scene,
                *assets,
                *old(prev),
                r.0.ids@,
                px,
                py,
            ) ==> exists|k: int|
                0 <= k < r.1@.len() && (#[trigger] r.1@[k]).x == px && r.1@[k].y == py,
        replay_paints(r.2@, init_state(old(prev_colors).colors)) == r.1@,
        minimal_commands(r.2@, init_state(old(prev_colors).colors)),
        Some(final(prev_colors).colors) == replay_state(
            r.2@,
            init_state(old(prev_colors).colors),
        ).colors,
        up_to_date(*scene, *assets, *final(prev)),
        final(prev).wf(),
        up_to_date(*scene, *assets, *old(prev)) ==> r.0.ids@.len() == 0 && r.1@.len() == 0,
{
    let redraw = compute_entities_to_redraw(scene, assets, prev);
    let writes = composite(scene, assets, prev, &redraw, width, height, window_colors);
    let commands = encode_frame(&writes, prev_colors);
    update_previous_details(scene, assets, prev);
    proof {
        assert forall|px: int, py: int|
            0 <= px < width && 0 <= py < height && crate::compositor::in_region(
                *scene,
                *assets,
                *old(prev),
                redraw.ids@,
                px,
                py,
            ) implies exists|k: int|
            0 <= k < writes@.len() && (#[trigger] writes@[k]).x == px && writes@[k].y == py by {
            assert(exists|k: int|
                0 <= k < writes@.len() && (#[trigger] writes@[k]).x == px && writes@[k].y == py);
        }
        if up_to_date(*scene, *assets, *old(prev)) {
            lemma_render_pass_idempotent(*scene, *assets, *old(prev), redraw.ids@);
            if writes@.len() > 0 {
                assert(write_ok(
                    writes@[0],
                    *scene,
                    *assets,
                    *old(prev),
                    redraw.ids@,
                    width,
                    height,
                    window_colors,
                ));
                let id = choose|id: u64|
                    #[trigger] redraw.ids@.contains(id) && crate::compositor::dirty_covers(
                        *scene,
                        *assets,
                        *old(prev),
                        id,
                        writes@[0].x as int,
                        writes@[0].y as int,
                    );
            }
        }
    }
    (redraw, writes, commands)
}

} // verus!
