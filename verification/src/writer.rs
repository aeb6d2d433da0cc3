//! The terminal writer: from cell writes to minimal terminal commands.
//!
//! Cell writes are first batched into runs — maximal stretches of
//! contiguous same-row, same-style cells — and each run becomes at most one
//! color command, one attribute command, one cursor move and one print. A
//! command is only emitted when it changes something: the colors last
//! written to the terminal are tracked across frames (and handed back for
//! the next frame), the cursor position within the frame, so contiguous
//! runs cost no repositioning and same-style runs no escape at all.
//!
//! What the command list does to a terminal is pinned by a replay: an
//! abstract terminal applies the commands and yields the sequence of cells
//! painted, which must equal the input writes exactly.

use vstd::prelude::*;

use crate::compositor::CellWrite;
use crate::style::{Colors, Style};

verus! {

broadcast use vstd::seq_lib::group_seq_properties;

/// One terminal command, as the embedding program will hand it to the
/// terminal: reposition the cursor, change the active colors or
/// attributes, or print text at the cursor.
#[derive(Clone, Debug, PartialEq)]
pub enum TermCommand {
    MoveTo(u16, u16),
    SetColors(Colors),
    SetAttributes(u16),
    Print(Vec<char>),
}

/// The colors most recently written to the terminal, kept across frames so
/// a frame that paints with the same colors emits no color escape at all.
#[derive(Clone, Copy, Debug, PartialEq, Eq, Structural)]
pub struct PreviousWindowColors {
    pub colors: Colors,
}

impl PreviousWindowColors {
    /// Tracking state for a terminal whose colors were last set to the
    /// terminal defaults.
    pub fn new() -> (p: PreviousWindowColors)
        ensures
            p.colors == (Colors { foreground: None::<crate::style::Color>, background: None::<
                crate::style::Color,
            > }),
    {
        PreviousWindowColors { colors: Colors::term_colors() }
    }
}

/// The abstract terminal the commands replay against: where the cursor is
/// (if known), and which colors and attributes are active (if known).
pub struct WriterState {
    pub pos: Option<(int, int)>,
    pub colors: Option<Colors>,
    pub attributes: Option<u16>,
}

/// The state at the start of a frame: the cursor is wherever the last
/// frame left it, the colors are the ones last written, the attributes
/// unknown.
pub open spec fn init_state(prev: Colors) -> WriterState {
    WriterState { pos: None, colors: Some(prev), attributes: None }
}

/// How one command moves the abstract terminal.
pub open spec fn step_state(st: WriterState, c: TermCommand) -> WriterState {
    match c {
        TermCommand::MoveTo(x, y) => WriterState { pos: Some((x as int, y as int)), ..st },
        TermCommand::SetColors(cl) => WriterState { colors: Some(cl), ..st },
        TermCommand::SetAttributes(a) => WriterState { attributes: Some(a), ..st },
        TermCommand::Print(cs) => WriterState {
            pos: match st.pos {
                Some(p) => Some((p.0 + cs@.len(), p.1)),
                None => None,
            },
            ..st
        },
    }
}

/// The style a print paints with: the active colors and attributes, the
/// terminal defaults where nothing was ever set.
pub open spec fn state_style(st: WriterState) -> Style {
    Style {
        colors: match st.colors {
            Some(cl) => cl,
            None => Colors { foreground: None, background: None },
        },
        attributes: match st.attributes {
            Some(a) => a,
            None => 0,
        },
    }
}

/// The cells one command paints: a print lays its text out rightwards from
/// the cursor in the active style; nothing is painted when the cursor is
/// unknown, and no other command paints.
pub open spec fn paints_of(st: WriterState, c: TermCommand) -> Seq<CellWrite> {
    match c {
        TermCommand::Print(cs) => match st.pos {
            Some(p) => Seq::new(cs@.len(), |i: int| print_cell(st, cs@, i)),
            None => Seq::empty(),
        },
        _ => Seq::empty(),
    }
}

/// The cell a print paints at offset `i` into its text.
pub open spec fn print_cell(st: WriterState, cs: Seq<char>, i: int) -> CellWrite {
    let p = st.pos->0;
    CellWrite { x: (p.0 + i) as u16, y: p.1 as u16, glyph: cs[i], style: state_style(st) }
}

/// The abstract terminal after all of `cmds`.
pub open spec fn replay_state(cmds: Seq<TermCommand>, init: WriterState) -> WriterState
    decreases cmds.len(),
{
    if cmds.len() == 0 {
        init
    } else {
        step_state(replay_state(cmds.drop_last(), init), cmds.last())
    }
}

/// Every cell `cmds` paints, in order.
pub open spec fn replay_paints(cmds: Seq<TermCommand>, init: WriterState) -> Seq<CellWrite>
    decreases cmds.len(),
{
    if cmds.len() == 0 {
        Seq::empty()
    } else {
        replay_paints(cmds.drop_last(), init) + paints_of(
            replay_state(cmds.drop_last(), init),
            cmds.last(),
        )
    }
}

/// No command in `cmds` is redundant: each color, attribute or cursor
/// command changes the state it meets.
pub open spec fn minimal_commands(cmds: Seq<TermCommand>, init: WriterState) -> bool {
    forall|k: int|
        0 <= k < cmds.len() ==> {
            let st = replay_state(cmds.take(k), init);
            &&& (#[trigger] cmds[k] matches TermCommand::SetColors(cl) ==> st.colors != Some(cl))
            &&& (cmds[k] matches TermCommand::SetAttributes(a) ==> st.attributes != Some(a))
            &&& (cmds[k] matches TermCommand::MoveTo(x, y) ==> st.pos != Some(
                (x as int, y as int),
            ))
        }
}

/// Appending one command keeps the replay incremental.
proof fn lemma_replay_push(cmds: Seq<TermCommand>, init: WriterState, c: TermCommand)
    ensures
        replay_state(cmds.push(c), init) == step_state(replay_state(cmds, init), c),
        replay_paints(cmds.push(c), init) == replay_paints(cmds, init) + paints_of(
            replay_state(cmds, init),
            c,
        ),
{
    assert(cmds.push(c).drop_last() =~= cmds);
}

/// Appending a command that changes what it sets keeps the command list
/// minimal.
proof fn lemma_minimal_push(cmds: Seq<TermCommand>, init: WriterState, c: TermCommand)
    requires
        minimal_commands(cmds, init),
        c matches TermCommand::SetColors(cl) ==> replay_state(cmds, init).colors != Some(cl),
        c matches TermCommand::SetAttributes(a) ==> replay_state(cmds, init).attributes != Some(a),
        c matches TermCommand::MoveTo(x, y) ==> replay_state(cmds, init).pos != Some(
            (x as int, y as int),
        ),
    ensures
        minimal_commands(cmds.push(c), init),
{
    let all = cmds.push(c);
    assert forall|k: int| 0 <= k < all.len() implies {
        let st = replay_state(all.take(k), init);
        &&& (#[trigger] all[k] matches TermCommand::SetColors(cl) ==> st.colors != Some(cl))
        &&& (all[k] matches TermCommand::SetAttributes(a) ==> st.attributes != Some(a))
        &&& (all[k] matches TermCommand::MoveTo(x, y) ==> st.pos != Some((x as int, y as int)))
    } by {
        assert(all.take(k) =~= cmds.take(k));
        if k < cmds.len() {
            assert(all[k] == cmds[k]);
        } else {
            assert(all.take(k) =~= cmds);
            assert(all[k] == c);
        }
    }
}

/// One run of cell writes: `text` laid out rightwards from `(x, y)`, all
/// in one style.
#[derive(Clone, Debug, PartialEq)]
pub struct Run {
    pub x: u16,
    pub y: u16,
    pub text: Vec<char>,
    pub style: Style,
}

/// The cell a run paints at offset `i` into its text.
pub open spec fn run_cell(r: Run, i: int) -> CellWrite {
    CellWrite { x: (r.x + i) as u16, y: r.y, glyph: r.text@[i], style: r.style }
}

/// The cells a run paints.
pub open spec fn run_cells(r: Run) -> Seq<CellWrite> {
    Seq::new(r.text@.len(), |i: int| run_cell(r, i))
}

/// The cells a sequence of runs paints, in order.
pub open spec fn flatten_runs(rs: Seq<Run>) -> Seq<CellWrite>
    decreases rs.len(),
{
    if rs.len() == 0 {
        Seq::empty()
    } else {
        flatten_runs(rs.drop_last()) + run_cells(rs.last())
    }
}

/// Whether run `s` picks up exactly where run `r` ends, on the same row
/// and in the same style — in which case the two should have been one run.
pub open spec fn run_follows(r: Run, s: Run) -> bool {
    s.y == r.y && s.x == r.x + r.text@.len() && s.style == r.style
}

/// A run that fits a row: it starts on the screen and ends within the
/// 16-bit column space.
pub open spec fn run_wf(r: Run) -> bool {
    r.text@.len() > 0 && r.x + r.text@.len() <= u16::MAX + 1
}

/// Batches cell writes into maximal contiguous same-row, same-style runs:
/// the runs paint exactly the input writes in order, and no run continues
/// the one before it.
pub fn group_runs(writes: &Vec<CellWrite>) -> (runs: Vec<Run>)
    ensures
        flatten_runs(runs@) == writes@,
        forall|k: int| 0 <= k < runs@.len() ==> run_wf(#[trigger] runs@[k]),
        forall|k: int| 0 <= k && k + 1 < runs@.len() ==> !run_follows(#[trigger] runs@[k], runs@[k + 1]),
{
    let mut runs: Vec<Run> = Vec::new();
    let mut i: usize = 0;
    while i < writes.len()
        invariant
            i <= writes@.len(),
            flatten_runs(runs@) == writes@.take(i as int),
            forall|k: int| 0 <= k < runs@.len() ==> run_wf(#[trigger] runs@[k]),
            forall|k: int|
                0 <= k && k + 1 < runs@.len() ==> !run_follows(#[trigger] runs@[k], runs@[k + 1]),
        decreases writes@.len() - i,
    {
        let w = writes[i];
        let mut extended = false;
        if runs.len() > 0 {
            let last = runs.len() - 1;
            let cont = runs[last].y == w.y && runs[last].x as usize + runs[last].text.len()
                == w.x as usize && runs[last].style.same(&w.style);
            if cont {
                let ghost runs_before = runs@;
                let mut r = runs.pop().unwrap();
                r.text.push(w.glyph);
                proof {
                    assert(run_cells(r)[run_cells(r).len() - 1] == w);
                    assert(run_cells(r) =~= run_cells(runs_before.last()).push(w));
                }
                runs.push(r);
                proof {
                    assert(runs@ == runs_before.subrange(0, runs_before.len() - 1).push(r));
                    assert(runs@.drop_last() =~= runs_before.drop_last());
                    assert(flatten_runs(runs@) =~= writes@.take(i as int).push(w));
                    assert(writes@.take(i as int).push(w) =~= writes@.take(i as int + 1));
                    assert forall|k: int| 0 <= k && k + 1 < runs@.len() implies !run_follows(
                        #[trigger] runs@[k],
                        runs@[k + 1],
                    ) by {
                        assert(runs@[k] == runs_before.subrange(0, runs_before.len() - 1)[k]);
                        assert(runs@[k] == runs_before[k]);
                        if k + 1 < runs@.len() - 1 {
                            assert(runs@[k + 1] == runs_before[k + 1]);
                        } else {
                            assert(runs@[k + 1] == r);
                            assert(runs_before[k + 1] == runs_before.last());
                            assert(r.x == runs_before[k + 1].x && r.y == runs_before[k + 1].y
                                && r.style == runs_before[k + 1].style);
                        }
                    }
                }
                extended = true;
            }
        }
        if !extended {
            let ghost runs_before = runs@;
            let mut text: Vec<char> = Vec::new();
            text.push(w.glyph);
            let r = Run { x: w.x, y: w.y, text, style: w.style };
            proof {
                assert(run_cells(r)[0] == w);
                assert(run_cells(r) =~= Seq::<CellWrite>::empty().push(w));
            }
            runs.push(r);
            proof {
                assert(runs@.drop_last() =~= runs_before);
                assert(flatten_runs(runs@) =~= writes@.take(i as int).push(w));
                assert(writes@.take(i as int).push(w) =~= writes@.take(i as int + 1));
                assert forall|k: int| 0 <= k && k + 1 < runs@.len() implies !run_follows(
                    #[trigger] runs@[k],
                    runs@[k + 1],
                ) by {
                    assert(runs@[k] == runs_before[k]);
                    if k + 1 < runs@.len() - 1 {
                        assert(runs@[k + 1] == runs_before[k + 1]);
                    } else {
                        assert(runs@[k + 1] == r);
                        assert(runs_before.len() > 0 && runs_before.last() == runs@[k]);
                    }
                }
            }
        }
        i = i + 1;
    }
    proof {
        assert(writes@.take(writes@.len() as int) =~= writes@);
    }
    runs
}

/// Emits the commands for a batch of runs: for each run, a color command,
/// an attribute command and a cursor move only where the terminal state
/// does not already match, then one print. Replaying the commands paints
/// exactly the runs' cells; the tracked colors are updated to what was
/// last written.
pub fn encode_runs(runs: &Vec<Run>, prev: &mut PreviousWindowColors) -> (cmds: Vec<TermCommand>)
    requires
        forall|k: int| 0 <= k < runs@.len() ==> run_wf(#[trigger] runs@[k]),
    ensures
        replay_paints(cmds@, init_state(old(prev).colors)) == flatten_runs(runs@),
        minimal_commands(cmds@, init_state(old(prev).colors)),
        Some(final(prev).colors) == replay_state(
            cmds@,
            init_state(old(prev).colors),
        ).colors,
{
    let ghost init = init_state(prev.colors);
    let mut cmds: Vec<TermCommand> = Vec::new();
    let mut cur_colors: Colors = prev.colors;
    let mut cur_attrs: Option<u16> = None;
    let mut pos_known: bool = false;
    let mut pos_x: u32 = 0;
    let mut pos_y: u16 = 0;
    let mut i: usize = 0;
    assert(runs@.take(0) =~= Seq::<Run>::empty());
    while i < runs.len()
        invariant
            i <= runs@.len(),
            forall|k: int| 0 <= k < runs@.len() ==> run_wf(#[trigger] runs@[k]),
            init == init_state(old(prev).colors),
            replay_paints(cmds@, init) == flatten_runs(runs@.take(i as int)),
            minimal_commands(cmds@, init),
            replay_state(cmds@, init).colors == Some(cur_colors),
            replay_state(cmds@, init).attributes == cur_attrs,
            pos_known ==> replay_state(cmds@, init).pos == Some((pos_x as int, pos_y as int)),
            !pos_known ==> replay_state(cmds@, init).pos is None,
        decreases runs@.len() - i,
    {
        let r = &runs[i];
        if !cur_colors.same(&r.style.colors) {
            proof {
                lemma_replay_push(cmds@, init, TermCommand::SetColors(r.style.colors));
                lemma_minimal_push(cmds@, init, TermCommand::SetColors(r.style.colors));
            }
            cmds.push(TermCommand::SetColors(r.style.colors));
            cur_colors = r.style.colors;
        }
        let need_attrs = match cur_attrs {
            Some(a) => a != r.style.attributes,
            None => true,
        };
        if need_attrs {
            proof {
                lemma_replay_push(cmds@, init, TermCommand::SetAttributes(r.style.attributes));
                lemma_minimal_push(cmds@, init, TermCommand::SetAttributes(r.style.attributes));
            }
            cmds.push(TermCommand::SetAttributes(r.style.attributes));
            cur_attrs = Some(r.style.attributes);
        }
        if !(pos_known && pos_x == r.x as u32 && pos_y == r.y) {
            proof {
                lemma_replay_push(cmds@, init, TermCommand::MoveTo(r.x, r.y));
                lemma_minimal_push(cmds@, init, TermCommand::MoveTo(r.x, r.y));
            }
            cmds.push(TermCommand::MoveTo(r.x, r.y));
            pos_known = true;
            pos_x = r.x as u32;
            pos_y = r.y;
        }
        let text = clone_chars(&r.text);
        proof {
            lemma_replay_push(cmds@, init, TermCommand::Print(text));
            lemma_minimal_push(cmds@, init, TermCommand::Print(text));
            let st = replay_state(cmds@, init);
            assert(paints_of(st, TermCommand::Print(text)) =~= run_cells(runs@[i as int]));
        }
        cmds.push(TermCommand::Print(text));
        proof {
            assert(runs@.take(i as int + 1).drop_last() =~= runs@.take(i as int));
            assert(replay_paints(cmds@, init) =~= flatten_runs(runs@.take(i as int + 1)));
        }
        pos_x = pos_x + r.text.len() as u32;
        i = i + 1;
    }
    proof {
        assert(runs@.take(runs@.len() as int) =~= runs@);
    }
    prev.colors = cur_colors;
    cmds
}

/// Copies a run's text.
fn clone_chars(v: &Vec<char>) -> (r: Vec<char>)
    ensures
        r@ == v@,
{
    let mut r: Vec<char> = Vec::new();
    let mut i: usize = 0;
    while i < v.len()
        invariant
            i <= v@.len(),
            r@ == v@.take(i as int),
        decreases v@.len() - i,
    {
        r.push(v[i]);
        proof {
            assert(r@ =~= v@.take(i as int + 1));
        }
        i = i + 1;
    }
    proof {
        assert(v@.take(v@.len() as int) =~= v@);
    }
    r
}

/// Turns a frame's cell writes into terminal commands: batches them into
/// maximal runs, then emits only the commands the terminal state needs.
/// Replaying the commands on the abstract terminal paints exactly the
/// input writes, in order; `prev` ends up tracking the colors the frame
/// left active.
pub fn encode_frame(writes: &Vec<CellWrite>, prev: &mut PreviousWindowColors) -> (cmds: Vec<
    TermCommand,
>)
    ensures
        replay_paints(cmds@, init_state(old(prev).colors)) == writes@,
        minimal_commands(cmds@, init_state(old(prev).colors)),
        Some(final(prev).colors) == replay_state(
            cmds@,
            init_state(old(prev).colors),
        ).colors,
{
    let runs = group_runs(writes);
    encode_runs(&runs, prev)
}

} // verus!
