//! The result screen's menu: restart the run, or go back to the main menu.

use vstd::prelude::*;
use crate::input::{KeyCode, KeyEvent};

verus! {

/// What the result screen asks of the application after a key press.
#[derive(Debug, PartialEq, Eq, Clone, Copy, Structural)]
pub enum ResultAction {
    Restart,
    Menu,
}

/// An entry of the result screen's menu.
#[derive(Debug, Clone)]
struct ResultItem {
    text: String,
    action: ResultAction,
}

/// The number of entries of the result screen's menu.
pub const RESULT_ENTRIES: usize = 2;

/// The action of the entry at `index`.
pub open spec fn result_entry_action(index: int) -> ResultAction {
    if index == 0 {
        ResultAction::Restart
    } else {
        ResultAction::Menu
    }
}

/// The entry under the cursor after a key press: Up and Down move the cursor
/// one entry, stopping at the first and the last entry.
pub open spec fn result_selected_after(selected: int, code: KeyCode) -> int {
    match code {
        KeyCode::Up => if selected > 0 {
            selected - 1
        } else {
            selected
        },
        KeyCode::Down => if selected < RESULT_ENTRIES - 1 {
            selected + 1
        } else {
            selected
        },
        _ => selected,
    }
}

/// The action that a key press reports: Enter picks the entry under the
/// cursor, Esc goes back to the main menu.
pub open spec fn result_action_after(selected: int, code: KeyCode) -> Option<ResultAction> {
    match code {
        KeyCode::Enter => Some(result_entry_action(selected)),
        KeyCode::Esc => Some(ResultAction::Menu),
        _ => None,
    }
}

#[derive(Debug)]
pub struct ResultWidget {
    selected_index: usize,
    items: Vec<ResultItem>,
}

impl ResultWidget {
    #[verifier::type_invariant]
    spec fn wf(self) -> bool {
        &&& self.items@.len() == RESULT_ENTRIES
        &&& self.items@[0].action == ResultAction::Restart
        &&& self.items@[1].action == ResultAction::Menu
        &&& self.selected_index < RESULT_ENTRIES
    }

    /// The entry under the cursor.
    pub closed spec fn selected(&self) -> int {
        self.selected_index as int
    }

    /// The entries' labels, top to bottom.
    pub closed spec fn labels(&self) -> Seq<Seq<char>> {
        self.items@.map_values(|it: ResultItem| it.text@)
    }

    pub fn new() -> (res: Self)
        ensures
            res.selected() == 0,
            res.labels() == seq!["Restart"@, "Menu"@],
    {
        let res = Self {
            selected_index: 0,
            items: vec![
                ResultItem { text: String::from_str("Restart"), action: ResultAction::Restart },
                ResultItem { text: String::from_str("Menu"), action: ResultAction::Menu },
            ],
        };
        assert(res.labels() =~= seq!["Restart"@, "Menu"@]);
        res
    }

    pub fn selected_index(&self) -> (res: usize)
        ensures
            res == self.selected(),
            res < RESULT_ENTRIES,
    {
        proof {
            use_type_invariant(self);
        }
        self.selected_index
    }

    /// The label of the entry at `index`.
    pub fn label(&self, index: usize) -> (res: &str)
        requires
            index < RESULT_ENTRIES,
        ensures
            res@ == self.labels()[index as int],
    {
        proof {
            use_type_invariant(self);
        }
        self.items[index].text.as_str()
    }

    /// Up and Down move the cursor within the entries; Enter picks the entry
    /// under the cursor; Esc goes back to the main menu.
    pub fn handle_input(&mut self, key: KeyEvent) -> (res: Option<ResultAction>)
        ensures
            final(self).labels() == old(self).labels(),
            final(self).selected() == result_selected_after(old(self).selected(), key.code),
            res == result_action_after(old(self).selected(), key.code),
    {
        proof {
            use_type_invariant(&*self);
        }
        match key.code {
            KeyCode::Up => {
                if self.selected_index > 0 {
                    self.selected_index -= 1;
                }
                None
            },
            KeyCode::Down => {
                if self.selected_index < self.items.len() - 1 {
                    self.selected_index += 1;
                }
                None
            },
            KeyCode::Enter => Some(self.items[self.selected_index].action),
            KeyCode::Esc => Some(ResultAction::Menu),
            _ => None,
        }
    }

    /// Puts the cursor back on the first entry.
    pub fn reset(&mut self)
        ensures
            final(self).selected() == 0,
            final(self).labels() == old(self).labels(),
    {
        proof {
            use_type_invariant(&*self);
        }
        self.selected_index = 0;
    }
}

/// The cursor stays on one of the entries, and Up undoes Down unless Down
/// stopped at the last entry; Esc always leads back to the main menu.
pub proof fn lemma_result_cursor(selected: int, code: KeyCode)
    requires
        0 <= selected < RESULT_ENTRIES,
    ensures
        0 <= result_selected_after(selected, code) < RESULT_ENTRIES,
        selected < RESULT_ENTRIES - 1 ==> result_selected_after(
            result_selected_after(selected, KeyCode::Down),
            KeyCode::Up,
        ) == selected,
        selected > 0 ==> result_selected_after(
            result_selected_after(selected, KeyCode::Up),
            KeyCode::Down,
        ) == selected,
        result_action_after(selected, KeyCode::Esc) == Some(ResultAction::Menu),
{
}

} // verus!
