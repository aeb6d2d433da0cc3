use term_render::assets::Assets;
use term_render::asset_loaders::{LoadSpriteError, SpriteLoader, StyleMapLoader};
use term_render::geom::Rect;
use term_render::scene::{Position, Scene, Visibility};
use term_render::sprite::Sprite;
use term_render::style::{Color, Colors, Style, StyleEntry, StyleMap};
use term_render::window::{CrosstermWindow, CrosstermWindowSettings, Cursor};

#[test]
fn sprite_from_text_rows() {
    let s = Sprite::new("ab\ncd");
    assert_eq!(s.height(), 2);
    assert_eq!(s.width(), 2);
    assert_eq!(s.glyph_at(0, 0), 'a');
    assert_eq!(s.glyph_at(1, 0), 'b');
    assert_eq!(s.glyph_at(0, 1), 'c');
    assert_eq!(s.glyph_at(1, 1), 'd');
}

#[test]
fn sprite_edges() {
    let empty = Sprite::new("");
    assert_eq!(empty.height(), 0);
    assert_eq!(empty.width(), 0);

    let one_newline = Sprite::new("\n");
    assert_eq!(one_newline.height(), 1);
    assert_eq!(one_newline.width(), 0);

    let trailing = Sprite::new("ab\n");
    assert_eq!(trailing.height(), 1);
    assert_eq!(trailing.width(), 2);

    let crlf = Sprite::new("ab\r\ncd\r\n");
    assert_eq!(crlf.height(), 2);
    assert_eq!(crlf.width(), 2);
    assert_eq!(crlf.glyph_at(1, 1), 'd');
}

#[test]
fn sprite_ragged_rows_and_center() {
    let s = Sprite::new("a\nabc\nab");
    assert_eq!(s.height(), 3);
    assert_eq!(s.width(), 3);
    // cells past the end of a short row read as blanks
    assert_eq!(s.glyph_at(2, 0), ' ');
    assert_eq!(s.glyph_at(2, 1), 'c');
    assert_eq!(s.center(), (1, 1));

    let five = Sprite::new("     \n     \n     \n     \n     ");
    assert_eq!(five.center(), (2, 2));
}

#[test]
fn rect_intersection() {
    let a = Rect { x: 0, y: 0, width: 3, height: 1 };
    let b = Rect { x: 2, y: 0, width: 3, height: 1 };
    let c = Rect { x: 4, y: 0, width: 3, height: 1 };
    assert!(a.intersects(&b));
    assert!(b.intersects(&a));
    assert!(b.intersects(&c));
    assert!(!a.intersects(&c));

    // zero-area rectangles cover nothing and intersect nothing
    let zero = Rect { x: 1, y: 0, width: 0, height: 5 };
    assert!(!zero.intersects(&a));
    assert!(!a.intersects(&zero));

    assert!(a.contains_cell(2, 0));
    assert!(!a.contains_cell(3, 0));
    assert!(!a.contains_cell(0, 1));

    let neg = Rect { x: -2, y: -1, width: 3, height: 2 };
    assert!(neg.contains_cell(0, 0));
    assert!(!neg.contains_cell(1, 0));
}

#[test]
fn style_map_lookup() {
    let red_on_black = Style {
        colors: Colors::new(Color::Red, Color::Black),
        attributes: 0,
    };
    let mut m = StyleMap::with_style(Style::plain());
    m.add_override(1, 0, red_on_black);
    assert_eq!(m.style_at(1, 0), red_on_black);
    assert_eq!(m.style_at(0, 0), Style::plain());
    assert_eq!(m.style_at(1, 1), Style::plain());

    let empty = StyleMap::empty();
    assert_eq!(empty.style_at(7, 9), Style::plain());
}

#[test]
fn colors_fall_back() {
    let half = Colors {
        foreground: Some(Color::Green),
        background: None,
    };
    let window = Colors::new(Color::White, Color::Blue);
    let resolved = half.or(&window);
    assert_eq!(resolved.foreground, Some(Color::Green));
    assert_eq!(resolved.background, Some(Color::Blue));

    assert!(half.same(&half));
    assert!(!half.same(&window));
    assert_eq!(Colors::term_colors().or(&window), window);
}

#[test]
fn scene_mutations_bump_versions() {
    let mut scene = Scene::new();
    let id = scene.spawn(Position::new(1, 2, 3), 0, None, Visibility::Opaque);
    assert_eq!(id, 0);
    let other = scene.spawn(Position::new(0, 0, 0), 0, None, Visibility::Transparent);
    assert_eq!(other, 1);

    let e = scene.get(id).unwrap();
    assert_eq!(e.position_version, 1);
    assert!(scene.set_position(id, Position::new(5, 2, 3)));
    let e = scene.get(id).unwrap();
    assert_eq!(e.position, Position::new(5, 2, 3));
    assert_eq!(e.position_version, 2);
    assert_eq!(e.sprite_version, 1);

    assert!(scene.set_sprite(id, 4));
    assert_eq!(scene.get(id).unwrap().sprite_version, 2);
    assert!(scene.set_style_map(id, Some(9)));
    assert_eq!(scene.get(id).unwrap().style_version, 2);
    assert!(scene.set_visibility(id, Visibility::Transparent));
    assert_eq!(scene.get(id).unwrap().style_version, 3);

    assert!(!scene.set_position(77, Position::new(0, 0, 0)));

    assert!(scene.despawn(id));
    assert!(scene.get(id).is_none());
    assert!(!scene.despawn(id));
    assert!(scene.get(other).is_some());
}

#[test]
fn asset_arena_handles() {
    let mut assets = Assets::new();
    let a = assets.add_sprite(Sprite::new("x"));
    let b = assets.add_sprite(Sprite::new("yy"));
    assert_eq!(a, 0);
    assert_eq!(b, 1);
    assert_eq!(assets.sprite(a).unwrap().width(), 1);
    assert_eq!(assets.sprite(b).unwrap().width(), 2);
    assert!(assets.sprite(2).is_none());

    assert!(assets.remove_sprite(a));
    assert!(assets.sprite(a).is_none());
    assert!(!assets.remove_sprite(a));
    // the other handle is untouched
    assert_eq!(assets.sprite(b).unwrap().width(), 2);

    let m = assets.add_style_map(StyleMap::empty());
    assert!(assets.style_map(m).is_some());
    assert!(assets.remove_style_map(m));
    assert!(assets.style_map(m).is_none());
}

#[test]
fn window_and_settings() {
    let mut settings = CrosstermWindowSettings::default();
    assert!(settings.title().is_none());
    settings.set_title(String::from("demo"));
    assert_eq!(settings.title().as_deref(), Some("demo"));
    settings.set_colors(Colors::new(Color::White, Color::Black));
    assert_eq!(settings.colors(), Colors::new(Color::White, Color::Black));

    let mut w = CrosstermWindow::new(80, 24, settings.colors(), None, false);
    assert_eq!(w.width(), 80);
    assert_eq!(w.height(), 24);
    assert_eq!(w.x_center(), 40);
    assert_eq!(w.y_center(), 12);
    assert!(w.title().is_none());
    assert!(!w.supports_keyboard_enhancement());
    w.set_size(100, 40);
    assert_eq!(w.x_center(), 50);
    w.set_colors(Colors::term_colors());
    assert_eq!(w.colors(), Colors::term_colors());

    let c = Cursor::default();
    assert_eq!((c.x, c.y, c.hidden), (0, 0, false));
}

#[test]
fn loaders() {
    let sprite = SpriteLoader.load("@@\n@@");
    assert_eq!(sprite.width(), 2);
    assert_eq!(sprite.height(), 2);
    assert_eq!(SpriteLoader.extensions(), &["txt"]);

    let style = Style {
        colors: Colors::new(Color::Yellow, Color::DarkBlue),
        attributes: 1,
    };
    let overrides = vec![StyleEntry { x: 0, y: 0, style: Style::plain() }];
    let m = StyleMapLoader.load(style, overrides);
    assert_eq!(m.style, style);
    assert_eq!(m.style_at(0, 0), Style::plain());
    assert_eq!(m.style_at(1, 0), style);
    assert_eq!(StyleMapLoader.extensions(), &["stylemap"]);

    assert_eq!(
        LoadSpriteError::InvalidUtf8.message(),
        "sprite data contains invalid utf8 data"
    );
    assert_eq!(LoadSpriteError::Io.message(), "io error");
}
