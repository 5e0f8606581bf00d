//! The selection menu of the explore and catch modes: a cursor over a
//! listing, moved by the arrow keys.
//!
//! The terminal is not read here. Whoever reads it hands each key to
//! [`Menu::press`] and acts on what comes back.

use vstd::prelude::*;

verus! {

/// A key as far as a menu tells keys apart.
#[derive(Clone, Copy, Debug, PartialEq, Eq, Structural)]
pub enum Key {
    Up,
    Down,
    Enter,
    Esc,
    Other,
}

/// What the reader of the terminal does after a key.
#[derive(Clone, Copy, Debug, PartialEq, Eq, Structural)]
pub enum Step {
    /// Draw the menu again and read the next key.
    Browse,
    /// Leave the menu with the entry at this place chosen.
    Select(usize),
    /// Leave the menu with nothing chosen.
    Leave,
}

/// Where the cursor stands after `key`, on a menu of `len` entries.
pub open spec fn cursor_after(cursor: nat, len: nat, key: Key) -> nat {
    match key {
        Key::Up => if cursor > 0 {
            (cursor - 1) as nat
        } else {
            cursor
        },
        Key::Down => if cursor + 1 < len {
            cursor + 1
        } else {
            cursor
        },
        _ => cursor,
    }
}

/// What `key` asks for with the cursor at `cursor`.
pub open spec fn step_after(cursor: nat, key: Key) -> Step {
    match key {
        Key::Enter => Step::Select(cursor as usize),
        Key::Esc => Step::Leave,
        _ => Step::Browse,
    }
}

/// A cursor over a listing that is not empty. The cursor always stands on an
/// entry.
pub struct Menu {
    selected: usize,
    len: usize,
}

impl Menu {
    #[verifier::type_invariant]
    spec fn on_an_entry(self) -> bool {
        self.selected < self.len
    }

    /// The place of the cursor, counted from 0.
    pub closed spec fn cursor(&self) -> nat {
        self.selected as nat
    }

    /// The number of entries.
    pub closed spec fn entries(&self) -> nat {
        self.len as nat
    }

    /// A menu over `len` entries with the cursor on the first. A listing
    /// without entries has no menu.
    pub fn new(len: usize) -> (menu: Menu)
        requires
            len > 0,
        ensures
            menu.cursor() == 0,
            menu.entries() == len,
    {
        Menu { selected: 0, len }
    }

    /// The place of the cursor: always that of an entry.
    pub fn selected(&self) -> (at: usize)
        ensures
            at == self.cursor(),
            at < self.entries(),
    {
        proof {
            use_type_invariant(self);
        }
        self.selected
    }

    /// The number of entries.
    pub fn len(&self) -> (n: usize)
        ensures
            n == self.entries(),
            n > 0,
    {
        proof {
            use_type_invariant(self);
        }
        self.len
    }

    /// Takes one key. Up and Down move the cursor and stop at the ends, Enter
    /// chooses the entry under the cursor, Esc leaves, and any other key
    /// changes nothing.
    pub fn press(&mut self, key: Key) -> (step: Step)
        ensures
            final(self).entries() == old(self).entries(),
            final(self).cursor() == cursor_after(old(self).cursor(), old(self).entries(), key),
            step == step_after(old(self).cursor(), key),
            step matches Step::Select(at) ==> at < old(self).entries(),
    {
        proof {
            use_type_invariant(&*self);
        }
        match key {
            Key::Up => {
                if self.selected > 0 {
                    self.selected = self.selected - 1;
                }
                Step::Browse
            },
            Key::Down => {
                if self.selected < self.len - 1 {
                    self.selected = self.selected + 1;
                }
                Step::Browse
            },
            Key::Enter => Step::Select(self.selected),
            Key::Esc => Step::Leave,
            Key::Other => Step::Browse,
        }
    }
}

} // verus!
