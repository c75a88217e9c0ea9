//! The main menu: a list of three entries and a cursor.

use vstd::prelude::*;
use crate::input::{KeyCode, KeyEvent};

verus! {

/// What the menu asks of the application after a key press.
#[derive(Debug, PartialEq, Eq, Clone, Copy, Structural)]
pub enum MenuAction {
    NoAction,
    QuickStart,
    SelectMode,
    Exit,
}

/// The number of entries of the menu.
pub const MENU_ENTRIES: usize = 3;

#[derive(Debug)]
pub struct MenuWidget {
    selected_index: usize,
    options: Vec<String>,
}

/// The action that Enter triggers on the entry at `index`.
pub open spec fn menu_entry_action(index: int) -> MenuAction {
    if index == 0 {
        MenuAction::QuickStart
    } else if index == 1 {
        MenuAction::SelectMode
    } else if index == 2 {
        MenuAction::Exit
    } else {
        MenuAction::NoAction
    }
}

/// The entry under the cursor after a key press: Up and Down move the cursor
/// one entry, stopping at the first and the last entry.
pub open spec fn menu_selected_after(selected: int, code: KeyCode) -> int {
    match code {
        KeyCode::Up => if selected > 0 {
            selected - 1
        } else {
            selected
        },
        KeyCode::Down => if selected < MENU_ENTRIES - 1 {
            selected + 1
        } else {
            selected
        },
        _ => selected,
    }
}

/// The action that a key press reports: Enter picks the entry under the
/// cursor.
pub open spec fn menu_action_after(selected: int, code: KeyCode) -> MenuAction {
    match code {
        KeyCode::Enter => menu_entry_action(selected),
        _ => MenuAction::NoAction,
    }
}

impl MenuWidget {
    #[verifier::type_invariant]
    spec fn wf(self) -> bool {
        &&& self.options@.len() == MENU_ENTRIES
        &&& self.selected_index < MENU_ENTRIES
    }

    /// The entry under the cursor.
    pub closed spec fn selected(&self) -> int {
        self.selected_index as int
    }

    /// The entries' labels, top to bottom.
    pub closed spec fn labels(&self) -> Seq<Seq<char>> {
        self.options@.map_values(|s: String| s@)
    }

    pub fn new() -> (res: Self)
        ensures
            res.selected() == 0,
            res.labels() == seq!["Quick Start"@, "Select Mode"@, "Exit"@],
    {
        let res = Self {
            selected_index: 0,
            options: vec![
                String::from_str("Quick Start"),
                String::from_str("Select Mode"),
                String::from_str("Exit"),
            ],
        };
        assert(res.labels() =~= seq!["Quick Start"@, "Select Mode"@, "Exit"@]);
        res
    }

    pub fn selected_index(&self) -> (res: usize)
        ensures
            res == self.selected(),
            res < MENU_ENTRIES,
    {
        proof {
            use_type_invariant(self);
        }
        self.selected_index
    }

    /// The label of the entry at `index`.
    pub fn label(&self, index: usize) -> (res: &str)
        requires
            index < MENU_ENTRIES,
        ensures
            res@ == self.labels()[index as int],
    {
        proof {
            use_type_invariant(self);
        }
        self.options[index].as_str()
    }

    /// Up and Down move the cursor within the entries; Enter picks the entry
    /// under the cursor; any other key does nothing.
    pub fn handle_input(&mut self, key: KeyEvent) -> (res: MenuAction)
        ensures
            final(self).labels() == old(self).labels(),
            final(self).selected() == menu_selected_after(old(self).selected(), key.code),
            res == menu_action_after(old(self).selected(), key.code),
    {
        proof {
            use_type_invariant(&*self);
        }
        match key.code {
            KeyCode::Up => {
                if self.selected_index > 0 {
                    self.selected_index -= 1;
                }
                MenuAction::NoAction
            },
            KeyCode::Down => {
                if self.selected_index < self.options.len() - 1 {
                    self.selected_index += 1;
                }
                MenuAction::NoAction
            },
            KeyCode::Enter => {
                match self.selected_index {
                    0 => MenuAction::QuickStart,
                    1 => MenuAction::SelectMode,
                    2 => MenuAction::Exit,
                    _ => MenuAction::NoAction,
                }
            },
            _ => MenuAction::NoAction,
        }
    }

    /// Puts the cursor back on the first entry.
    pub fn reset(&mut self)
        ensures
            final(self).selected() == 0,
            final(self).labels() == old(self).labels(),
    {
        proof {
            use_type_invariant(&*self);
        }
        self.selected_index = 0;
    }
}

/// The cursor stays on one of the entries, and Up undoes Down unless Down
/// stopped at the last entry.
pub proof fn lemma_menu_cursor(selected: int, code: KeyCode)
    requires
        0 <= selected < MENU_ENTRIES,
    ensures
        0 <= menu_selected_after(selected, code) < MENU_ENTRIES,
        selected < MENU_ENTRIES - 1 ==> menu_selected_after(
            menu_selected_after(selected, KeyCode::Down),
            KeyCode::Up,
        ) == selected,
        selected > 0 ==> menu_selected_after(
            menu_selected_after(selected, KeyCode::Up),
            KeyCode::Down,
        ) == selected,
        menu_action_after(selected, KeyCode::Enter) != MenuAction::NoAction,
{
}

} // verus!
