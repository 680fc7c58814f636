//! The state of a copy-to-clipboard button: once the value is copied the
//! button shows a check mark and ignores clicks until the state is reset
//! (two seconds later, by a timer around it).
use vstd::prelude::*;

verus! {

/// Whether the value was just copied.
pub struct ClipboardState {
    pub copied: bool,
}

/// The icon the button shows.
#[derive(Debug, Clone, Copy, PartialEq, Eq, Structural)]
pub enum ClipboardIcon {
    Copy,
    Check,
}

impl Default for ClipboardState {
    fn default() -> (s: Self)
        ensures
            !s.copied,
    {
        ClipboardState { copied: false }
    }
}

impl ClipboardState {
    /// The check mark after a copy, the copy icon otherwise.
    pub fn icon(&self) -> (i: ClipboardIcon)
        ensures
            i == if self.copied {
                ClipboardIcon::Check
            } else {
                ClipboardIcon::Copy
            },
    {
        if self.copied {
            ClipboardIcon::Check
        } else {
            ClipboardIcon::Copy
        }
    }

    /// Whether a click copies: not while the last copy is still shown.
    pub fn accepts_click(&self) -> (r: bool)
        ensures
            r == !self.copied,
    {
        !self.copied
    }

    /// A click: gives the text to copy (what the value function gave, if
    /// there is one, else the value) and records the copy; `None`, with
    /// nothing changed, while the last copy is still shown.
    pub fn click(&mut self, value: &str, from_fn: Option<String>) -> (r: Option<String>)
        ensures
            old(self).copied ==> r is None && final(self).copied,
            !old(self).copied ==> final(self).copied,
            !old(self).copied ==> (r matches Some(t) && t@ == match from_fn {
                Some(f) => f@,
                None => value@,
            }),
    {
        if self.copied {
            return None;
        }
        let text = match from_fn {
            Some(f) => f,
            None => String::from_str(value),
        };
        self.copied = true;
        Some(text)
    }

    /// The timer after a copy ran out.
    pub fn reset(&mut self)
        ensures
            !final(self).copied,
    {
        self.copied = false;
    }
}

} // verus!
