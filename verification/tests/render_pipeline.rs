use term_render::assets::Assets;
use term_render::compositor::{composite, resolve_cell, CellWrite};
use term_render::damage::{compute_entities_to_redraw, PreviousEntityDetails};
use term_render::render::{render_pass, update_previous_details};
use term_render::scene::{Position, Scene, Visibility};
use term_render::sprite::Sprite;
use term_render::style::{Color, Colors, Style};
use term_render::writer::PreviousWindowColors;

fn find_write(writes: &[CellWrite], x: u16, y: u16) -> Option<&CellWrite> {
    writes.iter().find(|w| w.x == x && w.y == y)
}

/// A 3x1 solid bar, for building overlap chains.
fn bar(assets: &mut Assets) -> usize {
    assets.add_sprite(Sprite::new("###"))
}

#[test]
fn new_entities_seed_damage() {
    let mut assets = Assets::new();
    let h = bar(&mut assets);
    let mut scene = Scene::new();
    let id = scene.spawn(Position::new(0, 0, 0), h, None, Visibility::Opaque);
    let prev = PreviousEntityDetails::new();
    let redraw = compute_entities_to_redraw(&scene, &assets, &prev);
    assert!(redraw.contains(id));
}

#[test]
fn second_pass_is_empty() {
    // Idempotence: a render pass with no intervening scene mutation finds
    // nothing to redraw and emits nothing.
    let mut assets = Assets::new();
    let h = bar(&mut assets);
    let mut scene = Scene::new();
    scene.spawn(Position::new(2, 1, 0), h, None, Visibility::Opaque);
    scene.spawn(Position::new(4, 1, 1), h, None, Visibility::Transparent);

    let mut prev = PreviousEntityDetails::new();
    let mut colors = PreviousWindowColors::new();
    let (redraw1, writes1, cmds1) =
        render_pass(&scene, &assets, 80, 24, Colors::term_colors(), &mut prev, &mut colors);
    assert!(!redraw1.ids.is_empty());
    assert!(!writes1.is_empty());
    assert!(!cmds1.is_empty());

    let (redraw2, writes2, cmds2) =
        render_pass(&scene, &assets, 80, 24, Colors::term_colors(), &mut prev, &mut colors);
    assert!(redraw2.ids.is_empty());
    assert!(writes2.is_empty());
    assert!(cmds2.is_empty());

    // the damage engine alone agrees
    let redraw3 = compute_entities_to_redraw(&scene, &assets, &prev);
    assert!(redraw3.ids.is_empty());
}

#[test]
fn damage_pulls_in_overlapping_neighbor() {
    // Damage completeness: B overlaps the old-or-new footprint of the
    // changed A, so B must repaint too.
    let mut assets = Assets::new();
    let h = bar(&mut assets);
    let mut scene = Scene::new();
    let a = scene.spawn(Position::new(0, 0, 0), h, None, Visibility::Opaque);
    let b = scene.spawn(Position::new(2, 0, 1), h, None, Visibility::Opaque);
    let far = scene.spawn(Position::new(40, 12, 0), h, None, Visibility::Opaque);

    let mut prev = PreviousEntityDetails::new();
    let mut colors = PreviousWindowColors::new();
    render_pass(&scene, &assets, 80, 24, Colors::term_colors(), &mut prev, &mut colors);

    scene.set_position(a, Position::new(0, 0, 2));
    let redraw = compute_entities_to_redraw(&scene, &assets, &prev);
    assert!(redraw.contains(a));
    assert!(redraw.contains(b));
    assert!(!redraw.contains(far));
}

#[test]
fn damage_expands_transitively() {
    // A overlaps B, B overlaps C, A and C do not touch: moving A forces
    // both B and C into the redraw set.
    let mut assets = Assets::new();
    let h = bar(&mut assets);
    let mut scene = Scene::new();
    let a = scene.spawn(Position::new(0, 0, 0), h, None, Visibility::Opaque);
    let b = scene.spawn(Position::new(2, 0, 1), h, None, Visibility::Opaque);
    let c = scene.spawn(Position::new(4, 0, 2), h, None, Visibility::Opaque);

    let mut prev = PreviousEntityDetails::new();
    let mut colors = PreviousWindowColors::new();
    render_pass(&scene, &assets, 80, 24, Colors::term_colors(), &mut prev, &mut colors);

    scene.set_position(a, Position::new(1, 0, 0));
    let redraw = compute_entities_to_redraw(&scene, &assets, &prev);
    assert!(redraw.contains(a));
    assert!(redraw.contains(b));
    assert!(redraw.contains(c));
}

#[test]
fn removed_entity_vacates_its_rect() {
    let mut assets = Assets::new();
    let h = bar(&mut assets);
    let mut scene = Scene::new();
    let a = scene.spawn(Position::new(5, 5, 0), h, None, Visibility::Opaque);

    let mut prev = PreviousEntityDetails::new();
    let mut colors = PreviousWindowColors::new();
    render_pass(&scene, &assets, 80, 24, Colors::term_colors(), &mut prev, &mut colors);

    scene.despawn(a);
    let redraw = compute_entities_to_redraw(&scene, &assets, &prev);
    assert!(redraw.contains(a));

    // the vacated cells are blanked back to the window colors
    let writes = composite(&scene, &assets, &prev, &redraw, 80, 24, Colors::term_colors());
    let w = find_write(&writes, 5, 5).unwrap();
    assert_eq!(w.glyph, ' ');

    // after this pass the removed entity's entry is dropped for good
    update_previous_details(&scene, &assets, &mut prev);
    let redraw = compute_entities_to_redraw(&scene, &assets, &prev);
    assert!(redraw.ids.is_empty());
}

#[test]
fn opaque_space_occludes() {
    // An opaque sprite's space cell hides the layer beneath it.
    let mut assets = Assets::new();
    let below = assets.add_sprite(Sprite::new("###"));
    let above = assets.add_sprite(Sprite::new("   "));
    let mut scene = Scene::new();
    scene.spawn(Position::new(0, 0, 0), below, None, Visibility::Opaque);
    scene.spawn(Position::new(0, 0, 1), above, None, Visibility::Opaque);

    let (glyph, _style) = resolve_cell(&scene, &assets, 1, 0, Colors::term_colors());
    assert_eq!(glyph, ' ');
}

#[test]
fn transparent_space_reveals() {
    // A transparent sprite's space cell never hides the layer beneath it.
    let mut assets = Assets::new();
    let below = assets.add_sprite(Sprite::new("###"));
    let above = assets.add_sprite(Sprite::new(" @ "));
    let mut scene = Scene::new();
    scene.spawn(Position::new(0, 0, 0), below, None, Visibility::Opaque);
    scene.spawn(Position::new(0, 0, 1), above, None, Visibility::Transparent);

    // the space reveals the bar below; the '@' overwrites it
    let (under_space, _) = resolve_cell(&scene, &assets, 0, 0, Colors::term_colors());
    assert_eq!(under_space, '#');
    let (at_glyph, _) = resolve_cell(&scene, &assets, 1, 0, Colors::term_colors());
    assert_eq!(at_glyph, '@');
}

#[test]
fn equal_depth_resolves_by_id() {
    // Two entities at the same position and depth with different content:
    // the later spawn (greater id) wins, on every run.
    let mut assets = Assets::new();
    let first = assets.add_sprite(Sprite::new("a"));
    let second = assets.add_sprite(Sprite::new("b"));
    let mut scene = Scene::new();
    scene.spawn(Position::new(3, 3, 7), first, None, Visibility::Opaque);
    scene.spawn(Position::new(3, 3, 7), second, None, Visibility::Opaque);

    for _ in 0..5 {
        let (glyph, _) = resolve_cell(&scene, &assets, 3, 3, Colors::term_colors());
        assert_eq!(glyph, 'b');
    }
}

#[test]
fn moving_sprite_repaints_vacated_cell() {
    // Sprite A: a 5x5 blank box at (10, 10), depth 0. Sprite B: "@" at
    // (13, 10), depth 1. Frame one shows the '@' over A's background;
    // after B moves right by one, A repaints, the old cell reverts to A's
    // blank, and the '@' appears one cell over.
    let mut assets = Assets::new();
    let box_sprite = assets.add_sprite(Sprite::new("     \n     \n     \n     \n     "));
    let at_sprite = assets.add_sprite(Sprite::new("@"));
    let mut scene = Scene::new();
    let a = scene.spawn(Position::new(10, 10, 0), box_sprite, None, Visibility::Opaque);
    let b = scene.spawn(Position::new(13, 10, 1), at_sprite, None, Visibility::Opaque);

    let mut prev = PreviousEntityDetails::new();
    let mut colors = PreviousWindowColors::new();
    let (_, writes1, _) =
        render_pass(&scene, &assets, 80, 24, Colors::term_colors(), &mut prev, &mut colors);
    assert_eq!(find_write(&writes1, 13, 10).unwrap().glyph, '@');
    assert_eq!(find_write(&writes1, 12, 10).unwrap().glyph, ' ');

    scene.set_position(b, Position::new(14, 10, 1));
    let (redraw2, writes2, _) =
        render_pass(&scene, &assets, 80, 24, Colors::term_colors(), &mut prev, &mut colors);
    assert!(redraw2.contains(a));
    assert!(redraw2.contains(b));
    let reverted = find_write(&writes2, 13, 10).unwrap();
    assert_eq!(reverted.glyph, ' ');
    // A has no style overlay, so its blank resolves to the window colors
    assert_eq!(reverted.style.colors, Colors::term_colors());
    assert_eq!(find_write(&writes2, 14, 10).unwrap().glyph, '@');
}

#[test]
fn untouched_region_is_not_rewritten() {
    let mut assets = Assets::new();
    let h = bar(&mut assets);
    let mut scene = Scene::new();
    let a = scene.spawn(Position::new(0, 0, 0), h, None, Visibility::Opaque);
    scene.spawn(Position::new(20, 20, 0), h, None, Visibility::Opaque);

    let mut prev = PreviousEntityDetails::new();
    let mut colors = PreviousWindowColors::new();
    render_pass(&scene, &assets, 80, 24, Colors::term_colors(), &mut prev, &mut colors);

    // move only A; the far entity's cells get no write
    scene.set_position(a, Position::new(1, 0, 0));
    let (_, writes, _) =
        render_pass(&scene, &assets, 80, 24, Colors::term_colors(), &mut prev, &mut colors);
    assert!(!writes.is_empty());
    assert!(find_write(&writes, 20, 20).is_none());
}

#[test]
fn writes_are_clipped_to_window() {
    let mut assets = Assets::new();
    let h = bar(&mut assets);
    let mut scene = Scene::new();
    // hangs off the left edge and past the right edge of a tiny window
    scene.spawn(Position::new(-1, 0, 0), h, None, Visibility::Opaque);
    scene.spawn(Position::new(3, 1, 0), h, None, Visibility::Opaque);
    let prev = PreviousEntityDetails::new();
    let redraw = compute_entities_to_redraw(&scene, &assets, &prev);
    let writes = composite(&scene, &assets, &prev, &redraw, 4, 2, Colors::term_colors());
    assert!(writes.iter().all(|w| w.x < 4 && w.y < 2));
    assert_eq!(find_write(&writes, 0, 0).unwrap().glyph, '#');
    assert_eq!(find_write(&writes, 3, 1).unwrap().glyph, '#');
    assert!(find_write(&writes, 2, 1).is_none());
}

#[test]
fn style_resolution_falls_back_to_window() {
    let mut assets = Assets::new();
    let glyphs = assets.add_sprite(Sprite::new("xy"));
    let mut overlay = term_render::style::StyleMap::with_style(Style {
        colors: Colors {
            foreground: Some(Color::Red),
            background: None,
        },
        attributes: 2,
    });
    overlay.add_override(
        1,
        0,
        Style {
            colors: Colors::new(Color::Green, Color::Black),
            attributes: 0,
        },
    );
    let m = assets.add_style_map(overlay);
    let mut scene = Scene::new();
    scene.spawn(Position::new(0, 0, 0), glyphs, Some(m), Visibility::Opaque);

    let window = Colors::new(Color::White, Color::Blue);
    // default style: red foreground, background falls back to the window
    let (_, style0) = resolve_cell(&scene, &assets, 0, 0, window);
    assert_eq!(style0.colors, Colors::new(Color::Red, Color::Blue));
    assert_eq!(style0.attributes, 2);
    // override at (1, 0): fully chosen
    let (_, style1) = resolve_cell(&scene, &assets, 1, 0, window);
    assert_eq!(style1.colors, Colors::new(Color::Green, Color::Black));
    assert_eq!(style1.attributes, 0);
    // empty cell: bare window colors
    let (glyph2, style2) = resolve_cell(&scene, &assets, 7, 7, window);
    assert_eq!(glyph2, ' ');
    assert_eq!(style2.colors, window);
}
