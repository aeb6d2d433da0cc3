use term_render::compositor::CellWrite;
use term_render::style::{Color, Colors, Style};
use term_render::writer::{encode_frame, group_runs, PreviousWindowColors, TermCommand};

fn style(fg: Color, bg: Color) -> Style {
    Style {
        colors: Colors::new(fg, bg),
        attributes: 0,
    }
}

fn cell(x: u16, y: u16, glyph: char, s: Style) -> CellWrite {
    CellWrite { x, y, glyph, style: s }
}

#[test]
fn contiguous_same_style_cells_form_one_run() {
    let s = style(Color::White, Color::Black);
    let writes = vec![
        cell(5, 1, 'h', s),
        cell(6, 1, 'i', s),
        cell(7, 1, '!', s),
    ];
    let runs = group_runs(&writes);
    assert_eq!(runs.len(), 1);
    assert_eq!(runs[0].x, 5);
    assert_eq!(runs[0].y, 1);
    assert_eq!(runs[0].text, vec!['h', 'i', '!']);
    assert_eq!(runs[0].style, s);
}

#[test]
fn style_or_position_changes_split_runs() {
    let a = style(Color::White, Color::Black);
    let b = style(Color::Red, Color::Black);
    let writes = vec![
        cell(0, 0, 'a', a),
        cell(1, 0, 'b', b),   // style changes
        cell(3, 0, 'c', b),   // gap in the row
        cell(3, 1, 'd', b),   // next row
    ];
    let runs = group_runs(&writes);
    assert_eq!(runs.len(), 4);
    assert_eq!(runs[0].text, vec!['a']);
    assert_eq!(runs[1].text, vec!['b']);
    assert_eq!(runs[2].x, 3);
    assert_eq!(runs[3].y, 1);
}

#[test]
fn one_run_costs_one_move_and_one_print() {
    let s = style(Color::White, Color::Black);
    let writes = vec![cell(2, 3, 'o', s), cell(3, 3, 'k', s)];
    let mut prev = PreviousWindowColors::new();
    let cmds = encode_frame(&writes, &mut prev);

    let moves = cmds
        .iter()
        .filter(|c| matches!(c, TermCommand::MoveTo(_, _)))
        .count();
    let prints: Vec<&Vec<char>> = cmds
        .iter()
        .filter_map(|c| match c {
            TermCommand::Print(t) => Some(t),
            _ => None,
        })
        .collect();
    assert_eq!(moves, 1);
    assert_eq!(prints.len(), 1);
    assert_eq!(prints[0], &vec!['o', 'k']);
    assert!(cmds.iter().any(|c| matches!(c, TermCommand::MoveTo(2, 3))));

    // the colors written are tracked for the next frame
    assert_eq!(prev.colors, s.colors);
}

#[test]
fn unchanged_colors_emit_no_escape() {
    let s = style(Color::White, Color::Black);
    let writes = vec![cell(0, 0, 'x', s)];

    // colors differ from the tracked ones: one color escape
    let mut prev = PreviousWindowColors::new();
    let cmds = encode_frame(&writes, &mut prev);
    let color_sets = cmds
        .iter()
        .filter(|c| matches!(c, TermCommand::SetColors(_)))
        .count();
    assert_eq!(color_sets, 1);

    // same frame again with the colors already tracked: no color escape
    let cmds = encode_frame(&writes, &mut prev);
    let color_sets = cmds
        .iter()
        .filter(|c| matches!(c, TermCommand::SetColors(_)))
        .count();
    assert_eq!(color_sets, 0);
    assert_eq!(prev.colors, s.colors);
}

#[test]
fn cursor_is_repositioned_only_between_discontiguous_runs() {
    let s = style(Color::White, Color::Black);
    let writes = vec![
        cell(0, 0, 'a', s),
        cell(1, 0, 'b', s),
        cell(0, 1, 'c', s),
    ];
    let mut prev = PreviousWindowColors::new();
    let cmds = encode_frame(&writes, &mut prev);
    let moves: Vec<(u16, u16)> = cmds
        .iter()
        .filter_map(|c| match c {
            TermCommand::MoveTo(x, y) => Some((*x, *y)),
            _ => None,
        })
        .collect();
    assert_eq!(moves, vec![(0, 0), (0, 1)]);
}

#[test]
fn empty_frame_emits_nothing() {
    let writes: Vec<CellWrite> = Vec::new();
    let mut prev = PreviousWindowColors::new();
    let before = prev;
    let cmds = encode_frame(&writes, &mut prev);
    assert!(cmds.is_empty());
    assert_eq!(prev, before);
}
