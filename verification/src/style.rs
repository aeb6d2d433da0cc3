//! Colors and per-cell styling.
//!
//! A [`Colors`] pair leaves a side `None` to mean "fall back": an entity style
//! with `None` falls back to the global window colors, and a window color of
//! `None` means the terminal's own default. A [`StyleMap`] is a sprite's style
//! overlay: a default style for every cell plus sparse per-cell overrides.

use vstd::prelude::*;

verus! {

/// A terminal palette color.
#[derive(Clone, Copy, Debug, PartialEq, Eq, Structural)]
pub enum Color {
    Black,
    DarkGrey,
    Red,
    DarkRed,
    Green,
    DarkGreen,
    Yellow,
    DarkYellow,
    Blue,
    DarkBlue,
    Magenta,
    DarkMagenta,
    Cyan,
    DarkCyan,
    White,
    Grey,
    Rgb { r: u8, g: u8, b: u8 },
    AnsiValue(u8),
}

/// A foreground/background pair. `None` on a side means "no choice here":
/// the side falls back to the global window colors, or, for the window
/// colors themselves, to the terminal's defaults.
#[derive(Clone, Copy, Debug, PartialEq, Eq, Structural)]
pub struct Colors {
    pub foreground: Option<Color>,
    pub background: Option<Color>,
}

impl Colors {
    /// A pair with both sides chosen.
    pub fn new(foreground: Color, background: Color) -> (c: Colors)
        ensures
            c == (Colors { foreground: Some(foreground), background: Some(background) }),
    {
        Colors { foreground: Some(foreground), background: Some(background) }
    }

    /// The pair that keeps the terminal's own colors on both sides.
    pub fn term_colors() -> (c: Colors)
        ensures
            c == (Colors { foreground: None::<Color>, background: None::<Color> }),
    {
        Colors { foreground: None, background: None }
    }

    /// `self` with each unchosen side replaced by the same side of `fallback`.
    pub open spec fn spec_or(self, fallback: Colors) -> Colors {
        Colors {
            foreground: if self.foreground is Some {
                self.foreground
            } else {
                fallback.foreground
            },
            background: if self.background is Some {
                self.background
            } else {
                fallback.background
            },
        }
    }

    /// Fills each unchosen side from `fallback`.
    pub fn or(&self, fallback: &Colors) -> (c: Colors)
        ensures
            c == self.spec_or(*fallback),
    {
        Colors {
            foreground: match self.foreground {
                Some(f) => Some(f),
                None => fallback.foreground,
            },
            background: match self.background {
                Some(b) => Some(b),
                None => fallback.background,
            },
        }
    }

    /// Decides structural equality of the two pairs.
    pub fn same(&self, other: &Colors) -> (r: bool)
        ensures
            r == (*self == *other),
    {
        let fg = match (self.foreground, other.foreground) {
            (None, None) => true,
            (Some(a), Some(b)) => a == b,
            _ => false,
        };
        let bg = match (self.background, other.background) {
            (None, None) => true,
            (Some(a), Some(b)) => a == b,
            _ => false,
        };
        fg && bg
    }
}

/// The style of one cell: a color pair plus a bit set of text attributes
/// (bold, underlined, and whatever else the terminal offers; the writer
/// passes the bits through without interpreting them).
#[derive(Clone, Copy, Debug, PartialEq, Eq, Structural)]
pub struct Style {
    pub colors: Colors,
    pub attributes: u16,
}

impl Style {
    /// The style that chooses nothing: colors fall back, no attributes.
    pub open spec fn spec_plain() -> Style {
        Style {
            colors: Colors { foreground: None, background: None },
            attributes: 0,
        }
    }

    /// A style that chooses nothing: colors fall back, no attributes.
    pub fn plain() -> (s: Style)
        ensures
            s == Style::spec_plain(),
    {
        Style { colors: Colors { foreground: None, background: None }, attributes: 0 }
    }

    /// Decides structural equality of the two styles.
    pub fn same(&self, other: &Style) -> (r: bool)
        ensures
            r == (*self == *other),
    {
        self.colors.same(&other.colors) && self.attributes == other.attributes
    }
}

/// One per-cell override inside a [`StyleMap`]: the style of the cell at
/// column `x`, row `y` of the sprite it overlays.
#[derive(Clone, Copy, Debug, PartialEq, Eq, Structural)]
pub struct StyleEntry {
    pub x: u16,
    pub y: u16,
    pub style: Style,
}

/// The first override for the cell at `(x, y)`, if any.
pub open spec fn override_at(entries: Seq<StyleEntry>, x: int, y: int) -> Option<Style>
    decreases entries.len(),
{
    if entries.len() == 0 {
        None
    } else if entries[0].x == x && entries[0].y == y {
        Some(entries[0].style)
    } else {
        override_at(entries.drop_first(), x, y)
    }
}

/// Override offsets are stored as 16-bit cell coordinates, so nothing can
/// match a lookup outside that range.
pub proof fn lemma_override_out_of_range(entries: Seq<StyleEntry>, x: int, y: int)
    requires
        x < 0 || x > u16::MAX || y < 0 || y > u16::MAX,
    ensures
        override_at(entries, x, y) is None,
    decreases entries.len(),
{
    if entries.len() > 0 {
        lemma_override_out_of_range(entries.drop_first(), x, y);
    }
}

/// A sprite's style overlay: a default style for every cell, plus sparse
/// per-cell overrides. An entirely empty map (plain default, no overrides)
/// means "use the global window colors".
#[derive(Clone, Debug, PartialEq)]
pub struct StyleMap {
    pub style: Style,
    pub overrides: Vec<StyleEntry>,
}

impl StyleMap {
    /// The overlay that styles nothing itself.
    pub fn empty() -> (m: StyleMap)
        ensures
            m.style == (Style {
                colors: Colors { foreground: None::<Color>, background: None::<Color> },
                attributes: 0u16,
            }),
            m.overrides@ =~= Seq::<StyleEntry>::empty(),
    {
        StyleMap { style: Style::plain(), overrides: Vec::new() }
    }

    /// An overlay with a default style and no overrides.
    pub fn with_style(style: Style) -> (m: StyleMap)
        ensures
            m.style == style,
            m.overrides@ =~= Seq::<StyleEntry>::empty(),
    {
        StyleMap { style, overrides: Vec::new() }
    }

    /// Adds a per-cell override for the cell at `(x, y)`.
    pub fn add_override(&mut self, x: u16, y: u16, style: Style)
        ensures
            final(self).style == old(self).style,
            final(self).overrides@ == old(self).overrides@.push(
                StyleEntry { x, y, style },
            ),
    {
        self.overrides.push(StyleEntry { x, y, style });
    }

    /// The style this overlay gives the cell at `(x, y)`, before the fall
    /// back to the global window colors: the override there, if any, else
    /// the overlay's default style.
    pub open spec fn spec_style_at(self, x: int, y: int) -> Style {
        match override_at(self.overrides@, x, y) {
            Some(s) => s,
            None => self.style,
        }
    }

    /// Looks up the style of the cell at `(x, y)`.
    pub fn style_at(&self, x: u16, y: u16) -> (s: Style)
        ensures
            s == self.spec_style_at(x as int, y as int),
    {
        let mut i: usize = 0;
        assert(self.overrides@.skip(0) =~= self.overrides@);
        while i < self.overrides.len()
            invariant
                i <= self.overrides.len(),
                override_at(self.overrides@, x as int, y as int) == override_at(
                    self.overrides@.skip(i as int),
                    x as int,
                    y as int,
                ),
            decreases self.overrides.len() - i,
        {
            let e = self.overrides[i];
            assert(self.overrides@.skip(i as int)[0] == self.overrides@[i as int]);
            assert(self.overrides@.skip(i as int).drop_first() =~= self.overrides@.skip(
                i as int + 1,
            ));
            if e.x == x && e.y == y {
                return e.style;
            }
            i = i + 1;
        }
        assert(self.overrides@.skip(i as int).len() == 0);
        self.style
    }
}

} // verus!
