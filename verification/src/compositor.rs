//! The compositor: from the damage set to an ordered list of cell writes.
//!
//! For every cell of the repaint region — the union of the old and new
//! footprints of everything in the damage set — the compositor resolves
//! what the scene logically shows there. Entities paint in ascending depth
//! (`z`, tie-broken by id, so later spawns paint over earlier ones) and a
//! cell keeps the last paint: an opaque entity overwrites every covered
//! cell, blanks included (a space acts as solid fill), while a transparent
//! entity overwrites only where its glyph is not a space. So the cell shows
//! the topmost entity that actually writes it, or the bare background where
//! none does. Cells outside the repaint region are never rewritten.

use vstd::prelude::*;

use crate::assets::Assets;
use crate::damage::{has_prev, prev_at, EntitiesToRedraw, PreviousEntityDetails};
use crate::geom::Rect;
use crate::scene::{ent_at, has_ent};
use crate::scene::{Scene, SceneEntity, Visibility};
use crate::style::{lemma_override_out_of_range, Colors, Style, StyleMap};

verus! {

broadcast use vstd::seq_lib::group_seq_properties;

/// The glyph `e`'s sprite shows at screen cell `(px, py)`: the sprite cell
/// at the offset from `e`'s position, blank outside the grid or when the
/// sprite handle is tombstoned.
pub open spec fn sprite_glyph(e: SceneEntity, assets: Assets, px: int, py: int) -> char {
    match assets.spec_sprite(e.sprite as int) {
        Some(s) => s.glyph(px - e.position.x, py - e.position.y),
        None => ' ',
    }
}

/// Whether `e` paints screen cell `(px, py)`: the cell lies in `e`'s
/// bounding rectangle, and `e` is opaque (a space paints as solid fill) or
/// shows a non-space glyph there.
pub open spec fn writes_cell(e: SceneEntity, assets: Assets, px: int, py: int) -> bool {
    &&& e.rect(assets).covers(px, py)
    &&& (e.visibility == Visibility::Opaque || sprite_glyph(e, assets, px, py) != ' ')
}

/// Whether `a` paints over `b`: strictly greater depth, or equal depth and
/// the later id.
pub open spec fn paints_over(a: SceneEntity, b: SceneEntity) -> bool {
    a.position.z > b.position.z || (a.position.z == b.position.z && a.id > b.id)
}

/// The entity whose paint the cell `(px, py)` keeps: of all entities in `s`
/// that write the cell, the one every other writer is painted over by.
pub open spec fn winner(s: Seq<SceneEntity>, assets: Assets, px: int, py: int) -> Option<
    SceneEntity,
>
    decreases s.len(),
{
    if s.len() == 0 {
        None
    } else {
        let rest = winner(s.drop_last(), assets, px, py);
        let e = s.last();
        if writes_cell(e, assets, px, py) {
            match rest {
                None => Some(e),
                Some(r) => if paints_over(e, r) {
                    Some(e)
                } else {
                    Some(r)
                },
            }
        } else {
            rest
        }
    }
}

/// The glyph the scene logically shows at cell `(px, py)`: the winning
/// entity's glyph, or a blank where nothing writes.
pub open spec fn cell_glyph(scene: Scene, assets: Assets, px: int, py: int) -> char {
    match winner(scene.entities@, assets, px, py) {
        Some(e) => sprite_glyph(e, assets, px, py),
        None => ' ',
    }
}

/// The style `e` gives screen cell `(px, py)`, before the fall back to the
/// global window colors: its style overlay's override at that offset, else
/// the overlay's default style; the plain style when it has no overlay.
pub open spec fn entity_style_at(e: SceneEntity, assets: Assets, px: int, py: int) -> Style {
    match e.style_map {
        Some(h) => match assets.spec_style_map(h as int) {
            Some(m) => m.spec_style_at(px - e.position.x, py - e.position.y),
            None => Style::spec_plain(),
        },
        None => Style::spec_plain(),
    }
}

/// The style the scene logically shows at cell `(px, py)`: the winner's
/// style with unchosen colors filled from the global window colors, or the
/// bare window colors where nothing writes.
pub open spec fn cell_style(
    scene: Scene,
    assets: Assets,
    window_colors: Colors,
    px: int,
    py: int,
) -> Style {
    match winner(scene.entities@, assets, px, py) {
        Some(e) => {
            let st = entity_style_at(e, assets, px, py);
            Style { colors: st.colors.spec_or(window_colors), attributes: st.attributes }
        },
        None => Style { colors: window_colors, attributes: 0 },
    }
}

/// Whether the dirty footprint of the entity with `id` covers `(px, py)`:
/// its current bounding rectangle, or the rectangle the previous pass
/// recorded for it.
pub open spec fn dirty_covers(
    scene: Scene,
    assets: Assets,
    prev: PreviousEntityDetails,
    id: u64,
    px: int,
    py: int,
) -> bool {
    ||| (has_ent(scene.entities@, id) && ent_at(scene.entities@, id).rect(assets).covers(px, py))
    ||| (has_prev(prev.entries@, id) && prev_at(prev.entries@, id).rect.covers(px, py))
}

/// Whether `(px, py)` lies in the repaint region: the dirty footprint of
/// some entity in the damage set.
pub open spec fn in_region(
    scene: Scene,
    assets: Assets,
    prev: PreviousEntityDetails,
    redraw: Seq<u64>,
    px: int,
    py: int,
) -> bool {
    exists|id: u64| #[trigger] redraw.contains(id) && dirty_covers(scene, assets, prev, id, px, py)
}

/// One cell write: paint `glyph` with `style` at column `x`, row `y`.
#[derive(Clone, Copy, Debug, PartialEq, Eq, Structural)]
pub struct CellWrite {
    pub x: u16,
    pub y: u16,
    pub glyph: char,
    pub style: Style,
}

/// Row-major order on cell writes.
pub open spec fn write_before(a: CellWrite, b: CellWrite) -> bool {
    a.y < b.y || (a.y == b.y && a.x < b.x)
}

/// What the compositor promises of each write it emits: the cell lies on
/// the screen and in the repaint region, and carries exactly the glyph and
/// style the scene logically shows there.
pub open spec fn write_ok(
    w: CellWrite,
    scene: Scene,
    assets: Assets,
    prev: PreviousEntityDetails,
    redraw: Seq<u64>,
    width: u16,
    height: u16,
    window_colors: Colors,
) -> bool {
    &&& w.x < width
    &&& w.y < height
    &&& in_region(scene, assets, prev, redraw, w.x as int, w.y as int)
    &&& w.glyph == cell_glyph(scene, assets, w.x as int, w.y as int)
    &&& w.style == cell_style(scene, assets, window_colors, w.x as int, w.y as int)
}

/// A winner writes its cell and is one of the entities.
proof fn lemma_winner_in(s: Seq<SceneEntity>, assets: Assets, px: int, py: int)
    ensures
        match winner(s, assets, px, py) {
            Some(r) => s.contains(r) && writes_cell(r, assets, px, py),
            None => forall|j: int| 0 <= j < s.len() ==> !writes_cell(#[trigger] s[j], assets, px, py),
        },
    decreases s.len(),
{
    if s.len() > 0 {
        lemma_winner_in(s.drop_last(), assets, px, py);
        match winner(s.drop_last(), assets, px, py) {
            Some(r) => {
                let k = choose|k: int| 0 <= k < s.drop_last().len() && s.drop_last()[k] == r;
                assert(s[k] == r);
            },
            None => {
                assert forall|j: int| 0 <= j < s.len() - 1 implies !writes_cell(
                    #[trigger] s[j],
                    assets,
                    px,
                    py,
                ) by {
                    assert(s.drop_last()[j] == s[j]);
                }
            },
        }
        assert(s.contains(s.last())) by {
            assert(s[s.len() - 1] == s.last());
        }
    }
}

/// The entity every other writer at the cell is painted over by wins the
/// cell. With distinct ids this pins the outcome: at equal depth the
/// greater id wins, on every run.
pub proof fn lemma_winner_top(
    s: Seq<SceneEntity>,
    assets: Assets,
    e: SceneEntity,
    px: int,
    py: int,
)
    requires
        s.contains(e),
        writes_cell(e, assets, px, py),
        forall|j: int|
            0 <= j < s.len() && writes_cell(#[trigger] s[j], assets, px, py) && s[j] != e
                ==> paints_over(e, s[j]),
    ensures
        winner(s, assets, px, py) == Some(e),
    decreases s.len(),
{
    lemma_winner_in(s.drop_last(), assets, px, py);
    let last = s.last();
    if last == e {
        match winner(s.drop_last(), assets, px, py) {
            None => {},
            Some(r) => {
                let k = choose|k: int| 0 <= k < s.drop_last().len() && s.drop_last()[k] == r;
                assert(s[k] == r);
                assert(r != e ==> paints_over(e, r));
            },
        }
    } else {
        let i = choose|i: int| 0 <= i < s.len() && s[i] == e;
        assert(i < s.len() - 1);
        assert(s.drop_last()[i] == e);
        assert(s.drop_last().contains(e));
        assert forall|j: int|
            0 <= j < s.drop_last().len() && writes_cell(
                #[trigger] s.drop_last()[j],
                assets,
                px,
                py,
            ) && s.drop_last()[j] != e implies paints_over(e, s.drop_last()[j]) by {
            assert(s.drop_last()[j] == s[j]);
        }
        lemma_winner_top(s.drop_last(), assets, e, px, py);
        if writes_cell(last, assets, px, py) {
            assert(s[s.len() - 1] == last);
            assert(paints_over(e, last));
        }
    }
}

/// An entity that does not write a cell has no effect on it. In
/// particular a transparent entity's space cell never hides the layer
/// beneath: the cell resolves exactly as if the entity were absent.
pub proof fn lemma_nonwriter_invisible(
    s: Seq<SceneEntity>,
    assets: Assets,
    i: int,
    px: int,
    py: int,
)
    requires
        0 <= i < s.len(),
        !writes_cell(s[i], assets, px, py),
    ensures
        winner(s, assets, px, py) == winner(s.remove(i), assets, px, py),
    decreases s.len(),
{
    if i == s.len() - 1 {
        assert(s.remove(i) =~= s.drop_last());
    } else {
        assert(s.remove(i).drop_last() =~= s.drop_last().remove(i));
        assert(s.remove(i).last() == s.last());
        lemma_nonwriter_invisible(s.drop_last(), assets, i, px, py);
    }
}

/// A transparent entity's space cell reveals what is painted beneath it:
/// removing the entity leaves the cell's resolved content unchanged.
pub proof fn lemma_transparent_space_reveals(
    s: Seq<SceneEntity>,
    assets: Assets,
    i: int,
    px: int,
    py: int,
)
    requires
        0 <= i < s.len(),
        s[i].visibility == Visibility::Transparent,
        sprite_glyph(s[i], assets, px, py) == ' ',
    ensures
        winner(s, assets, px, py) == winner(s.remove(i), assets, px, py),
{
    lemma_nonwriter_invisible(s, assets, i, px, py);
}

/// An opaque entity's space cell hides every layer beneath it: when the
/// entity is painted over by no other writer at the cell, the cell shows
/// its blank, not what is underneath.
pub proof fn lemma_opaque_space_occludes(
    s: Seq<SceneEntity>,
    assets: Assets,
    e: SceneEntity,
    px: int,
    py: int,
)
    requires
        s.contains(e),
        e.visibility == Visibility::Opaque,
        e.rect(assets).covers(px, py),
        sprite_glyph(e, assets, px, py) == ' ',
        forall|j: int|
            0 <= j < s.len() && writes_cell(#[trigger] s[j], assets, px, py) && s[j] != e
                ==> paints_over(e, s[j]),
    ensures
        winner(s, assets, px, py) == Some(e),
        sprite_glyph(e, assets, px, py) == ' ',
{
    lemma_winner_top(s, assets, e, px, py);
}

/// Two entities at the same depth resolve by id: when both write the cell
/// and every other writer is painted over by `a`, the cell keeps `a`'s
/// paint exactly when `a` carries the greater id.
pub proof fn lemma_tie_break(
    s: Seq<SceneEntity>,
    assets: Assets,
    a: SceneEntity,
    b: SceneEntity,
    px: int,
    py: int,
)
    requires
        s.contains(a),
        s.contains(b),
        writes_cell(a, assets, px, py),
        writes_cell(b, assets, px, py),
        a.position.z == b.position.z,
        a.id > b.id,
        forall|j: int|
            0 <= j < s.len() && writes_cell(#[trigger] s[j], assets, px, py) && s[j] != a && s[j]
                != b ==> paints_over(a, s[j]),
    ensures
        winner(s, assets, px, py) == Some(a),
{
    lemma_winner_top(s, assets, a, px, py);
}

/// Resolves what the scene logically shows at screen cell `(px, py)`: the
/// glyph and the style, with unchosen colors already filled from the
/// global window colors.
pub fn resolve_cell(
    scene: &Scene,
    assets: &Assets,
    px: u16,
    py: u16,
    window_colors: Colors,
) -> (r: (char, Style))
    ensures
        r.0 == cell_glyph(*scene, *assets, px as int, py as int),
        r.1 == cell_style(*scene, *assets, window_colors, px as int, py as int),
{
    let s = &scene.entities;
    let mut best: Option<SceneEntity> = None;
    let mut i: usize = 0;
    assert(s@.take(0) =~= Seq::<SceneEntity>::empty());
    while i < s.len()
        invariant
            i <= s@.len(),
            best == winner(s@.take(i as int), *assets, px as int, py as int),
        decreases s@.len() - i,
    {
        proof {
            assert(s@.take(i as int + 1).drop_last() =~= s@.take(i as int));
            assert(s@.take(i as int + 1).last() == s@[i as int]);
        }
        let e = s[i];
        if entity_writes_cell(&e, assets, px, py) {
            best = match best {
                None => Some(e),
                Some(r) => {
                    if e.position.z > r.position.z || (e.position.z == r.position.z && e.id
                        > r.id) {
                        Some(e)
                    } else {
                        Some(r)
                    }
                },
            };
        }
        i = i + 1;
    }
    proof {
        assert(s@.take(s@.len() as int) =~= s@);
    }
    match best {
        Some(e) => {
            let glyph = entity_glyph(&e, assets, px, py);
            let st = entity_style(&e, assets, px, py);
            (glyph, Style { colors: st.colors.or(&window_colors), attributes: st.attributes })
        },
        None => (' ', Style { colors: window_colors, attributes: 0 }),
    }
}

/// Reads the glyph `e`'s sprite shows at screen cell `(px, py)`.
fn entity_glyph(e: &SceneEntity, assets: &Assets, px: u16, py: u16) -> (g: char)
    ensures
        g == sprite_glyph(*e, *assets, px as int, py as int),
{
    match assets.sprite(e.sprite) {
        Some(s) => {
            let dx: i64 = px as i64 - e.position.x as i64;
            let dy: i64 = py as i64 - e.position.y as i64;
            if 0 <= dx && 0 <= dy {
                s.glyph_at(dx as usize, dy as usize)
            } else {
                ' '
            }
        },
        None => ' ',
    }
}

/// Decides whether `e` paints screen cell `(px, py)`.
fn entity_writes_cell(e: &SceneEntity, assets: &Assets, px: u16, py: u16) -> (r: bool)
    ensures
        r == writes_cell(*e, *assets, px as int, py as int),
{
    let rect = crate::damage::entity_rect(e, assets);
    if !rect.contains_cell(px as i64, py as i64) {
        return false;
    }
    match e.visibility {
        Visibility::Opaque => true,
        Visibility::Transparent => {
            let g = entity_glyph(e, assets, px, py);
            g != ' '
        },
    }
}

/// Reads the style `e` gives screen cell `(px, py)`, before the fall back
/// to the global window colors.
fn entity_style(e: &SceneEntity, assets: &Assets, px: u16, py: u16) -> (st: Style)
    ensures
        st == entity_style_at(*e, *assets, px as int, py as int),
{
    let overlay: Option<&StyleMap> = match e.style_map {
        Some(h) => assets.style_map(h),
        None => None,
    };
    match overlay {
        Some(m) => {
            let dx: i64 = px as i64 - e.position.x as i64;
            let dy: i64 = py as i64 - e.position.y as i64;
            if 0 <= dx && dx <= u16::MAX as i64 && 0 <= dy && dy <= u16::MAX as i64 {
                m.style_at(dx as u16, dy as u16)
            } else {
                proof {
                    lemma_override_out_of_range(
                        m.overrides@,
                        px as int - e.position.x as int,
                        py as int - e.position.y as int,
                    );
                }
                m.style
            }
        },
        None => Style::plain(),
    }
}

/// Whether `r` is a dirty rectangle of the entity with `id`: its current
/// bounding rectangle or the one recorded by the previous pass.
spec fn rect_of_id(
    scene: Scene,
    assets: Assets,
    prev: PreviousEntityDetails,
    id: u64,
    r: Rect,
) -> bool {
    ||| (has_ent(scene.entities@, id) && r == ent_at(scene.entities@, id).rect(assets))
    ||| (has_prev(prev.entries@, id) && r == prev_at(prev.entries@, id).rect)
}

/// Every gathered rectangle is a dirty rectangle of something in the
/// damage set.
spec fn rects_sound(
    scene: Scene,
    assets: Assets,
    prev: PreviousEntityDetails,
    redraw: Seq<u64>,
    rects: Seq<Rect>,
) -> bool {
    forall|j: int|
        0 <= j < rects.len() ==> exists|id: u64|
            #[trigger] redraw.contains(id) && rect_of_id(scene, assets, prev, id, #[trigger] rects[j])
}

/// Every dirty rectangle of everything in the damage set was gathered.
spec fn rects_complete(
    scene: Scene,
    assets: Assets,
    prev: PreviousEntityDetails,
    redraw: Seq<u64>,
    rects: Seq<Rect>,
) -> bool {
    forall|k: int|
        0 <= k < redraw.len() ==> {
            let id = #[trigger] redraw[k];
            &&& (has_ent(scene.entities@, id) ==> rects.contains(
                ent_at(scene.entities@, id).rect(assets),
            ))
            &&& (has_prev(prev.entries@, id) ==> rects.contains(prev_at(prev.entries@, id).rect))
        }
}

/// A sound and complete rectangle list decides region membership.
proof fn lemma_rects_decide_region(
    scene: Scene,
    assets: Assets,
    prev: PreviousEntityDetails,
    redraw: Seq<u64>,
    rects: Seq<Rect>,
    px: int,
    py: int,
)
    requires
        rects_sound(scene, assets, prev, redraw, rects),
        rects_complete(scene, assets, prev, redraw, rects),
    ensures
        in_region(scene, assets, prev, redraw, px, py) <==> exists|j: int|
            0 <= j < rects.len() && (#[trigger] rects[j]).covers(px, py),
{
    if in_region(scene, assets, prev, redraw, px, py) {
        let id = choose|id: u64|
            #[trigger] redraw.contains(id) && dirty_covers(scene, assets, prev, id, px, py);
        let k = choose|k: int| 0 <= k < redraw.len() && redraw[k] == id;
        if has_ent(scene.entities@, id) && ent_at(scene.entities@, id).rect(assets).covers(
            px,
            py,
        ) {
            let r = ent_at(scene.entities@, id).rect(assets);
            assert(rects.contains(r));
            let j = choose|j: int| 0 <= j < rects.len() && rects[j] == r;
            assert(rects[j].covers(px, py));
        } else {
            let r = prev_at(prev.entries@, id).rect;
            assert(rects.contains(r));
            let j = choose|j: int| 0 <= j < rects.len() && rects[j] == r;
            assert(rects[j].covers(px, py));
        }
    }
    if exists|j: int| 0 <= j < rects.len() && (#[trigger] rects[j]).covers(px, py) {
        let j = choose|j: int| 0 <= j < rects.len() && (#[trigger] rects[j]).covers(px, py);
        let id = choose|id: u64|
            #[trigger] redraw.contains(id) && rect_of_id(scene, assets, prev, id, rects[j]);
        assert(dirty_covers(scene, assets, prev, id, px, py));
    }
}

/// Renders the damage set: one write for every screen cell in the repaint
/// region, in row-major order, carrying exactly the glyph and style the
/// scene logically shows there. Cells outside the region get no write, so
/// untouched parts of the screen are never rewritten.
pub fn composite(
    scene: &Scene,
    assets: &Assets,
    prev: &PreviousEntityDetails,
    redraw: &EntitiesToRedraw,
    width: u16,
    height: u16,
    window_colors: Colors,
) -> (writes: Vec<CellWrite>)
    requires
        scene.wf(),
        prev.wf(),
    ensures
        forall|k: int|
            0 <= k < writes@.len() ==> write_ok(
                #[trigger] writes@[k],
                *scene,
                *assets,
                *prev,
                redraw.ids@,
                width,
                height,
                window_colors,
            ),
        forall|px: int, py: int|
            0 <= px < width && 0 <= py < height && in_region(
                *scene,
                *assets,
                *prev,
                redraw.ids@,
                px,
                py,
            ) ==> exists|k: int|
                0 <= k < writes@.len() && (#[trigger] writes@[k]).x == px && writes@[k].y == py,
        forall|k1: int, k2: int|
            0 <= k1 < k2 < writes@.len() ==> write_before(
                #[trigger] writes@[k1],
                #[trigger] writes@[k2],
            ),
{
    // Gather the dirty rectangles of everything in the damage set.
    let mut rects: Vec<Rect> = Vec::new();
    let mut i: usize = 0;
    while i < redraw.ids.len()
        invariant
            scene.wf(),
            prev.wf(),
            i <= redraw.ids@.len(),
            rects_sound(*scene, *assets, *prev, redraw.ids@, rects@),
            forall|k: int|
                0 <= k < i ==> {
                    let id = #[trigger] redraw.ids@[k];
                    &&& (has_ent(scene.entities@, id) ==> rects@.contains(
                        ent_at(scene.entities@, id).rect(*assets),
                    ))
                    &&& (has_prev(prev.entries@, id) ==> rects@.contains(
                        prev_at(prev.entries@, id).rect,
                    ))
                },
        decreases redraw.ids@.len() - i,
    {
        let id = redraw.ids[i];
        proof {
            assert(redraw.ids@.contains(id)) by {
                assert(redraw.ids@[i as int] == id);
            }
        }
        match scene.index_of(id) {
            Some(k) => {
                let r = crate::damage::entity_rect(&scene.entities[k], assets);
                rects.push(r);
            },
            None => {},
        }
        match prev.get(id) {
            Some(p) => {
                rects.push(p.rect);
            },
            None => {},
        }
        i = i + 1;
    }
    proof {
        assert(rects_complete(*scene, *assets, *prev, redraw.ids@, rects@));
    }

    // Walk the screen in row-major order; write every cell in the region.
    let mut writes: Vec<CellWrite> = Vec::new();
    let mut py: u16 = 0;
    while py < height
        invariant
            scene.wf(),
            prev.wf(),
            py <= height,
            rects_sound(*scene, *assets, *prev, redraw.ids@, rects@),
            rects_complete(*scene, *assets, *prev, redraw.ids@, rects@),
            forall|k: int|
                0 <= k < writes@.len() ==> write_ok(
                    #[trigger] writes@[k],
                    *scene,
                    *assets,
                    *prev,
                    redraw.ids@,
                    width,
                    height,
                    window_colors,
                ),
            forall|k: int| 0 <= k < writes@.len() ==> (#[trigger] writes@[k]).y < py,
            forall|qx: int, qy: int|
                0 <= qx < width && 0 <= qy < py && in_region(
                    *scene,
                    *assets,
                    *prev,
                    redraw.ids@,
                    qx,
                    qy,
                ) ==> exists|k: int|
                    0 <= k < writes@.len() && (#[trigger] writes@[k]).x == qx && writes@[k].y
                        == qy,
            forall|k1: int, k2: int|
                0 <= k1 < k2 < writes@.len() ==> write_before(
                    #[trigger] writes@[k1],
                    #[trigger] writes@[k2],
                ),
        decreases height - py,
    {
        let mut px: u16 = 0;
        while px < width
            invariant
                scene.wf(),
                prev.wf(),
                py < height,
                px <= width,
                rects_sound(*scene, *assets, *prev, redraw.ids@, rects@),
                rects_complete(*scene, *assets, *prev, redraw.ids@, rects@),
                forall|k: int|
                    0 <= k < writes@.len() ==> write_ok(
                        #[trigger] writes@[k],
                        *scene,
                        *assets,
                        *prev,
                        redraw.ids@,
                        width,
                        height,
                        window_colors,
                    ),
                forall|k: int|
                    0 <= k < writes@.len() ==> ((#[trigger] writes@[k]).y < py || (writes@[k].y
                        == py && writes@[k].x < px)),
                forall|qx: int, qy: int|
                    0 <= qx < width && 0 <= qy < height && (qy < py || (qy == py && qx < px))
                        && in_region(*scene, *assets, *prev, redraw.ids@, qx, qy) ==> exists|
                        k: int,
                    |
                        0 <= k < writes@.len() && (#[trigger] writes@[k]).x == qx && writes@[k].y
                            == qy,
                forall|k1: int, k2: int|
                    0 <= k1 < k2 < writes@.len() ==> write_before(
                        #[trigger] writes@[k1],
                        #[trigger] writes@[k2],
                    ),
            decreases width - px,
        {
            // Membership test against the gathered dirty rectangles.
            let mut hit: bool = false;
            let mut j: usize = 0;
            while j < rects.len()
                invariant
                    j <= rects@.len(),
                    hit ==> exists|jj: int|
                        0 <= jj < rects@.len() && (#[trigger] rects@[jj]).covers(
                            px as int,
                            py as int,
                        ),
                    !hit ==> forall|jj: int|
                        0 <= jj < j ==> !(#[trigger] rects@[jj]).covers(px as int, py as int),
                decreases rects@.len() - j,
            {
                if rects[j].contains_cell(px as i64, py as i64) {
                    hit = true;
                }
                j = j + 1;
            }
            proof {
                lemma_rects_decide_region(
                    *scene,
                    *assets,
                    *prev,
                    redraw.ids@,
                    rects@,
                    px as int,
                    py as int,
                );
            }
            if hit {
                let resolved = resolve_cell(scene, assets, px, py, window_colors);
                let w = CellWrite { x: px, y: py, glyph: resolved.0, style: resolved.1 };
                let ghost writes_before = writes@;
                writes.push(w);
                proof {
                    assert(writes@[writes@.len() - 1] == w);
                    assert forall|qx: int, qy: int|
                        0 <= qx < width && 0 <= qy < height && (qy < py || (qy == py && qx < px
                            + 1)) && in_region(
                        *scene,
                        *assets,
                        *prev,
                        redraw.ids@,
                        qx,
                        qy,
                    ) implies exists|k: int|
                        0 <= k < writes@.len() && (#[trigger] writes@[k]).x == qx && writes@[k].y
                            == qy by {
                        if qy < py || (qy == py && qx < px) {
                            let k = choose|k: int|
                                0 <= k < writes_before.len() && (#[trigger] writes_before[k]).x
                                    == qx && writes_before[k].y == qy;
                            assert(writes@[k] == writes_before[k]);
                        } else {
                            assert(writes@[writes@.len() - 1].x == qx);
                        }
                    }
                }
            } else {
                proof {
                    assert(!in_region(*scene, *assets, *prev, redraw.ids@, px as int, py as int));
                }
            }
            px = px + 1;
        }
        py = py + 1;
    }
    writes
}

} // verus!
