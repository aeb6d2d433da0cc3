//! The terminal window as the renderer sees it: its size, its global
//! colors, its title. The embedding program owns the terminal device; it
//! reads the real size and capabilities at startup, builds this record, and
//! keeps it current on resize events.

use vstd::prelude::*;

use crate::style::Colors;

verus! {

/// What a window should look like when the terminal is taken over: global
/// colors and an optional title.
#[derive(Clone, Debug, PartialEq)]
pub struct CrosstermWindowSettings {
    pub colors: Colors,
    pub title: Option<String>,
}

impl Default for CrosstermWindowSettings {
    /// Settings that keep the terminal's own colors and set no title.
    fn default() -> (s: CrosstermWindowSettings)
        ensures
            s.colors == (Colors { foreground: None::<crate::style::Color>, background: None::<
                crate::style::Color,
            > }),
            s.title is None,
    {
        CrosstermWindowSettings { colors: Colors::term_colors(), title: None }
    }
}

impl CrosstermWindowSettings {
    /// The global colors the window will be set to.
    pub fn colors(&self) -> (c: Colors)
        ensures
            c == self.colors,
    {
        self.colors
    }

    /// The title the window will carry, if any.
    pub fn title(&self) -> (t: &Option<String>)
        ensures
            t == &self.title,
    {
        &self.title
    }

    /// Sets the window title.
    pub fn set_title(&mut self, title: String) -> (s: &mut CrosstermWindowSettings)
        ensures
            *s == (CrosstermWindowSettings { colors: old(self).colors, title: Some(title) }),
            *final(self) == *final(s),
    {
        self.title = Some(title);
        self
    }

    /// Sets the global window colors.
    pub fn set_colors(&mut self, colors: Colors) -> (s: &mut CrosstermWindowSettings)
        ensures
            *s == (CrosstermWindowSettings { colors, title: old(self).title }),
            *final(self) == *final(s),
    {
        self.colors = colors;
        self
    }
}

/// The live terminal window: its current size in cells, its global colors,
/// its title, and whether the terminal answered that it supports the
/// extended keyboard protocol.
#[derive(Clone, Debug, PartialEq)]
pub struct CrosstermWindow {
    pub height: u16,
    pub width: u16,
    pub colors: Colors,
    pub title: Option<String>,
    pub supports_keyboard_enhancement: bool,
}

impl CrosstermWindow {
    /// A window record from what the terminal reported at startup.
    pub fn new(
        width: u16,
        height: u16,
        colors: Colors,
        title: Option<String>,
        supports_keyboard_enhancement: bool,
    ) -> (w: CrosstermWindow)
        ensures
            w == (CrosstermWindow { height, width, colors, title, supports_keyboard_enhancement }),
    {
        CrosstermWindow { height, width, colors, title, supports_keyboard_enhancement }
    }

    /// The window height in cells.
    pub fn height(&self) -> (h: u16)
        ensures
            h == self.height,
    {
        self.height
    }

    /// The window width in cells.
    pub fn width(&self) -> (w: u16)
        ensures
            w == self.width,
    {
        self.width
    }

    /// The window title, if one was set.
    pub fn title(&self) -> (t: Option<&str>)
        ensures
            match t {
                Some(s) => self.title matches Some(ti) && ti@ == s@,
                None => self.title is None,
            },
    {
        match &self.title {
            Some(t) => Some(t.as_str()),
            None => None,
        }
    }

    /// The global window colors.
    pub fn colors(&self) -> (c: Colors)
        ensures
            c == self.colors,
    {
        self.colors
    }

    /// Changes the global window colors.
    pub fn set_colors(&mut self, new_colors: Colors)
        ensures
            final(self).colors == new_colors,
            final(self).height == old(self).height,
            final(self).width == old(self).width,
            final(self).title == old(self).title,
            final(self).supports_keyboard_enhancement == old(self).supports_keyboard_enhancement,
    {
        self.colors = new_colors;
    }

    /// Whether the terminal supports the extended keyboard protocol.
    pub fn supports_keyboard_enhancement(&self) -> (b: bool)
        ensures
            b == self.supports_keyboard_enhancement,
    {
        self.supports_keyboard_enhancement
    }

    /// Records a new size after a resize event, so later frames clip and
    /// damage against the real screen.
    pub fn set_size(&mut self, width: u16, height: u16)
        ensures
            final(self).width == width,
            final(self).height == height,
            final(self).colors == old(self).colors,
            final(self).title == old(self).title,
            final(self).supports_keyboard_enhancement == old(self).supports_keyboard_enhancement,
    {
        self.width = width;
        self.height = height;
    }

    /// The column of the window's center cell.
    pub fn x_center(&self) -> (x: u16)
        ensures
            x == self.width / 2,
    {
        self.width / 2
    }

    /// The row of the window's center cell.
    pub fn y_center(&self) -> (y: u16)
        ensures
            y == self.height / 2,
    {
        self.height / 2
    }
}

/// The terminal cursor as the host tracks it.
#[derive(Clone, Copy, Debug, PartialEq, Eq, Structural)]
pub struct Cursor {
    pub x: i32,
    pub y: i32,
    pub hidden: bool,
}

impl Default for Cursor {
    /// The cursor at the origin, visible.
    fn default() -> (c: Cursor)
        ensures
            c == (Cursor { x: 0, y: 0, hidden: false }),
    {
        Cursor { x: 0, y: 0, hidden: false }
    }
}

} // verus!
