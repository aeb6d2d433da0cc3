//! The sprite data model: an immutable grid of glyphs.
//!
//! A sprite is an ordered sequence of text rows with no implicit padding:
//! its width is the longest row, its height the row count. Cells inside the
//! bounding box but beyond the end of their row read as blanks.

use vstd::prelude::*;

verus! {

broadcast use vstd::string::axiom_spec_iter;

/// The longest row length in `rows`.
pub open spec fn max_row_len(rows: Seq<Seq<char>>) -> nat
    decreases rows.len(),
{
    if rows.len() == 0 {
        0
    } else {
        let rest = max_row_len(rows.drop_last());
        let last = rows.last().len();
        if last > rest {
            last
        } else {
            rest
        }
    }
}

/// `row` with one trailing carriage return removed, so that text with
/// `\r\n` line endings loads the same as text with `\n` endings.
pub open spec fn strip_cr(row: Seq<char>) -> Seq<char> {
    if row.len() > 0 && row.last() == '\r' {
        row.drop_last()
    } else {
        row
    }
}

/// One step of the line splitter: the rows finished so far and the row
/// being gathered, advanced by one character.
pub open spec fn split_step(
    rows: Seq<Seq<char>>,
    cur: Seq<char>,
    c: char,
) -> (Seq<Seq<char>>, Seq<char>) {
    if c == '\n' {
        (rows.push(strip_cr(cur)), Seq::empty())
    } else {
        (rows, cur.push(c))
    }
}

/// The line splitter run over all of `s`: finished rows and the unfinished
/// remainder.
pub open spec fn split_scan(s: Seq<char>) -> (Seq<Seq<char>>, Seq<char>)
    decreases s.len(),
{
    if s.len() == 0 {
        (Seq::empty(), Seq::empty())
    } else {
        let prev = split_scan(s.drop_last());
        split_step(prev.0, prev.1, s.last())
    }
}

/// `s` split into rows at newlines. A final row without a trailing newline
/// still counts; empty text has no rows.
pub open spec fn split_lines(s: Seq<char>) -> Seq<Seq<char>> {
    let scanned = split_scan(s);
    if scanned.1.len() == 0 {
        scanned.0
    } else {
        scanned.0.push(scanned.1)
    }
}

/// An immutable grid of glyphs: ordered text rows with no implicit padding.
#[derive(Clone, Debug, PartialEq)]
pub struct Sprite {
    pub rows: Vec<Vec<char>>,
}

impl Sprite {
    /// The grid as a sequence of rows of glyphs.
    pub open spec fn grid(self) -> Seq<Seq<char>> {
        self.rows.deep_view()
    }

    /// The sprite's width: the length of its longest row.
    pub open spec fn spec_width(self) -> nat {
        max_row_len(self.grid())
    }

    /// The sprite's height: its row count.
    pub open spec fn spec_height(self) -> nat {
        self.grid().len()
    }

    /// The glyph at column `dx`, row `dy` of the grid. Cells beyond the end
    /// of their row, or outside the grid, read as blanks.
    pub open spec fn glyph(self, dx: int, dy: int) -> char {
        if 0 <= dy < self.grid().len() && 0 <= dx < self.grid()[dy].len() {
            self.grid()[dy][dx]
        } else {
            ' '
        }
    }

    /// Builds a sprite from its rows.
    pub fn from_rows(rows: Vec<Vec<char>>) -> (s: Sprite)
        ensures
            s.grid() == rows.deep_view(),
    {
        Sprite { rows }
    }

    /// Builds a sprite from text, one row per line. Lines split at `\n`;
    /// a trailing `\r` on a line is dropped, so `\r\n` endings load the
    /// same; a final line without a newline still counts.
    pub fn new(text: &str) -> (s: Sprite)
        ensures
            s.grid() == split_lines(text@),
    {
        let mut rows: Vec<Vec<char>> = Vec::new();
        let mut cur: Vec<char> = Vec::new();
        assert(text@.take(0) =~= Seq::<char>::empty());
        for c in it: text.chars()
            invariant
                it.seq() == text@,
                (rows.deep_view(), cur@) == split_scan(text@.take(it.index() as int)),
        {
            let ghost i = it.index() as int;
            let ghost prev_rows = rows.deep_view();
            let ghost prev_cur = cur@;
            proof {
                assert(text@.take(i + 1).drop_last() =~= text@.take(i));
                assert(text@.take(i + 1).last() == text@[i]);
            }
            if c == '\n' {
                if cur.len() > 0 && cur[cur.len() - 1] == '\r' {
                    cur.pop();
                }
                assert(cur@ =~= strip_cr(prev_cur));
                rows.push(cur);
                proof {
                    assert(rows.deep_view() =~~= prev_rows.push(strip_cr(prev_cur)));
                }
                cur = Vec::new();
                assert(cur@ =~= Seq::<char>::empty());
            } else {
                cur.push(c);
            }
            proof {
                assert(c == text@[i]);
                assert(rows.deep_view() == split_step(prev_rows, prev_cur, c).0);
                assert(cur@ =~= split_step(prev_rows, prev_cur, c).1);
                assert(split_scan(text@.take(i + 1)) == split_step(prev_rows, prev_cur, c));
            }
        }
        proof {
            assert(text@.take(text@.len() as int) =~= text@);
        }
        if cur.len() > 0 {
            let ghost old_rows = rows.deep_view();
            let ghost old_cur = cur@;
            rows.push(cur);
            proof {
                assert(rows.deep_view() =~~= old_rows.push(old_cur));
            }
        }
        Sprite { rows }
    }

    /// The sprite's height: its row count.
    pub fn height(&self) -> (h: usize)
        ensures
            h == self.spec_height(),
    {
        self.rows.len()
    }

    /// The sprite's width: the length of its longest row.
    pub fn width(&self) -> (w: usize)
        ensures
            w == self.spec_width(),
    {
        let mut w: usize = 0;
        let mut i: usize = 0;
        assert(self.grid().take(0) =~= Seq::<Seq<char>>::empty());
        while i < self.rows.len()
            invariant
                i <= self.rows.len(),
                w == max_row_len(self.grid().take(i as int)),
            decreases self.rows.len() - i,
        {
            proof {
                assert(self.grid().take(i as int + 1).drop_last() =~= self.grid().take(i as int));
                assert(self.grid().take(i as int + 1).last() == self.grid()[i as int]);
            }
            let len = self.rows[i].len();
            if len > w {
                w = len;
            }
            i = i + 1;
        }
        proof {
            assert(self.grid().take(self.rows.len() as int) =~= self.grid());
        }
        w
    }

    /// The grid's center cell, `(width / 2, height / 2)` by integer
    /// division; layout helpers place sprites by it.
    pub fn center(&self) -> (c: (usize, usize))
        ensures
            c.0 == self.spec_width() / 2,
            c.1 == self.spec_height() / 2,
    {
        (self.width() / 2, self.rows.len() / 2)
    }

    /// Reads the glyph at column `dx`, row `dy`; blank beyond row ends or
    /// outside the grid.
    pub fn glyph_at(&self, dx: usize, dy: usize) -> (g: char)
        ensures
            g == self.glyph(dx as int, dy as int),
    {
        if dy < self.rows.len() && dx < self.rows[dy].len() {
            self.rows[dy][dx]
        } else {
            ' '
        }
    }
}

} // verus!
