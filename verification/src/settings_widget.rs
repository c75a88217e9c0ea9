//! The settings screen: the word set and time limit of a quick start.

use vstd::prelude::*;
use crate::input::{KeyCode, KeyEvent};

verus! {

/// What the settings screen asks of the application after a key press.
#[derive(Debug, PartialEq, Eq, Clone, Copy, Structural)]
pub enum SettingsAction {
    NoAction,
    Save,
    Exit,
}

/// The number of time limits offered on the settings screen.
pub const SETTINGS_TIME_COUNT: usize = 8;

/// The time limits offered, in seconds.
pub open spec fn settings_times() -> Seq<u32> {
    seq![15u32, 30, 45, 60, 90, 120, 180, 300]
}

/// `i` is the first position of `x` in `s`, or 0 when `x` does not occur.
pub open spec fn is_first_position_or_zero<A>(s: Seq<A>, x: A, i: int) -> bool {
    if exists|j: int| 0 <= j < s.len() && s[j] == x {
        &&& 0 <= i < s.len()
        &&& s[i] == x
        &&& forall|j: int| 0 <= j < i ==> s[j] != x
    } else {
        i == 0
    }
}

/// The abstract state of the settings screen; row 0 is the word set, row 1
/// the time limit.
pub struct SettingsState {
    pub row: int,
    pub wordset_index: int,
    pub time_index: int,
    pub wordsets: Seq<Seq<char>>,
    pub times: Seq<u32>,
}

impl SettingsState {
    pub open spec fn wf(self) -> bool {
        &&& self.row == 0 || self.row == 1
        &&& self.times == settings_times()
        &&& 0 <= self.time_index < self.times.len()
        &&& 0 <= self.wordset_index
        &&& (self.wordset_index < self.wordsets.len() || (self.wordsets.len() == 0
            && self.wordset_index == 0))
    }

    /// Up: the row above, wrapping from the first row to the last.
    pub open spec fn row_up(self) -> SettingsState {
        SettingsState { row: if self.row > 0 { self.row - 1 } else { 1 }, ..self }
    }

    /// Down: the row below, wrapping from the last row to the first.
    pub open spec fn row_down(self) -> SettingsState {
        SettingsState { row: if self.row < 1 { self.row + 1 } else { 0 }, ..self }
    }

    /// Left: the active row's index goes one down, stopping at 0.
    pub open spec fn step_left(self) -> SettingsState {
        if self.row == 0 {
            if self.wordset_index > 0 {
                SettingsState { wordset_index: self.wordset_index - 1, ..self }
            } else {
                self
            }
        } else {
            if self.time_index > 0 {
                SettingsState { time_index: self.time_index - 1, ..self }
            } else {
                self
            }
        }
    }

    /// Right: the active row's index goes one up, stopping at the last entry.
    pub open spec fn step_right(self) -> SettingsState {
        if self.row == 0 {
            if self.wordset_index < self.wordsets.len() - 1 {
                SettingsState { wordset_index: self.wordset_index + 1, ..self }
            } else {
                self
            }
        } else {
            if self.time_index < self.times.len() - 1 {
                SettingsState { time_index: self.time_index + 1, ..self }
            } else {
                self
            }
        }
    }

    /// The state after a key press.
    pub open spec fn after_key(self, code: KeyCode) -> SettingsState {
        match code {
            KeyCode::Up => self.row_up(),
            KeyCode::Down => self.row_down(),
            KeyCode::Left => self.step_left(),
            KeyCode::Right => self.step_right(),
            _ => self,
        }
    }

    /// A key press is handled without fault in this state: Right on the
    /// word-set row needs a word set.
    pub open spec fn accepts_key(self, code: KeyCode) -> bool {
        code == KeyCode::Right && self.row == 0 ==> self.wordsets.len() > 0
    }
}

/// The action that a key press reports.
pub open spec fn settings_action(code: KeyCode) -> Option<SettingsAction> {
    match code {
        KeyCode::Enter => Some(SettingsAction::Save),
        KeyCode::Esc => Some(SettingsAction::Exit),
        _ => None,
    }
}

#[derive(Debug)]
pub struct SettingsWidget {
    active_row: usize,
    wordset_index: usize,
    time_index: usize,
    wordset_options: Vec<String>,
    time_options: Vec<u32>,
}

impl View for SettingsWidget {
    type V = SettingsState;

    closed spec fn view(&self) -> SettingsState {
        SettingsState {
            row: self.active_row as int,
            wordset_index: self.wordset_index as int,
            time_index: self.time_index as int,
            wordsets: self.wordset_options@.map_values(|s: String| s@),
            times: self.time_options@,
        }
    }
}

impl SettingsWidget {
    #[verifier::type_invariant]
    spec fn inv(self) -> bool {
        self@.wf()
    }

    /// A screen on the first row, with the given word set and time limit
    /// selected where they are offered, and the first entry of each list
    /// where they are not.
    pub fn new(wordset_names: Vec<String>, current_wordset: &str, current_time: u32) -> (res:
        Self)
        ensures
            res@.wf(),
            res@.row == 0,
            res@.wordsets == wordset_names@.map_values(|s: String| s@),
            res@.times == settings_times(),
            is_first_position_or_zero(res@.wordsets, current_wordset@, res@.wordset_index),
            is_first_position_or_zero(res@.times, current_time, res@.time_index),
    {
        let times: Vec<u32> = vec![15, 30, 45, 60, 90, 120, 180, 300];
        assert(times@ =~= settings_times());
        let ghost names = wordset_names@.map_values(|s: String| s@);
        let wanted = current_wordset.to_owned();
        let mut wordset_index: usize = 0;
        let mut i: usize = 0;
        let mut found = false;
        while i < wordset_names.len()
            invariant_except_break
                i <= wordset_names.len(),
                !found,
                forall|j: int| 0 <= j < i ==> names[j] != current_wordset@,
            invariant
                names == wordset_names@.map_values(|s: String| s@),
                wanted@ == current_wordset@,
                found ==> (wordset_index < names.len() && names[wordset_index as int]
                    == current_wordset@ && forall|j: int|
                    0 <= j < wordset_index ==> names[j] != current_wordset@),
                !found ==> wordset_index == 0,
            ensures
                found || forall|j: int| 0 <= j < names.len() ==> names[j] != current_wordset@,
            decreases wordset_names.len() - i,
        {
            if wordset_names[i] == wanted {
                wordset_index = i;
                found = true;
                break;
            }
            i += 1;
        }
        let mut time_index: usize = 0;
        let mut k: usize = 0;
        let mut found_time = false;
        while k < times.len()
            invariant_except_break
                k <= times.len(),
                !found_time,
                forall|j: int| 0 <= j < k ==> times@[j] != current_time,
            invariant
                times@ == settings_times(),
                found_time ==> (time_index < times.len() && times@[time_index as int]
                    == current_time && forall|j: int|
                    0 <= j < time_index ==> times@[j] != current_time),
                !found_time ==> time_index == 0,
            ensures
                found_time || forall|j: int| 0 <= j < times.len() ==> times@[j] != current_time,
            decreases times.len() - k,
        {
            if times[k] == current_time {
                time_index = k;
                found_time = true;
                break;
            }
            k += 1;
        }
        Self {
            active_row: 0,
            wordset_index,
            time_index,
            wordset_options: wordset_names,
            time_options: times,
        }
    }

    /// Up and Down change the row, wrapping around; Left and Right change the
    /// active row's value; Enter saves; Esc leaves.
    pub fn handle_input(&mut self, key: KeyEvent) -> (res: Option<SettingsAction>)
        requires
            old(self)@.accepts_key(key.code),
        ensures
            final(self)@ == old(self)@.after_key(key.code),
            res == settings_action(key.code),
    {
        proof {
            use_type_invariant(&*self);
        }
        match key.code {
            KeyCode::Up => {
                self.active_row = if self.active_row > 0 {
                    self.active_row - 1
                } else {
                    1
                };
                None
            },
            KeyCode::Down => {
                self.active_row = if self.active_row < 1 {
                    self.active_row + 1
                } else {
                    0
                };
                None
            },
            KeyCode::Left => {
                if self.active_row == 0 {
                    if self.wordset_index > 0 {
                        self.wordset_index -= 1;
                    }
                } else {
                    if self.time_index > 0 {
                        self.time_index -= 1;
                    }
                }
                None
            },
            KeyCode::Right => {
                if self.active_row == 0 {
                    if self.wordset_index < self.wordset_options.len() - 1 {
                        self.wordset_index += 1;
                    }
                } else {
                    if self.time_index < self.time_options.len() - 1 {
                        self.time_index += 1;
                    }
                }
                None
            },
            KeyCode::Enter => Some(SettingsAction::Save),
            KeyCode::Esc => Some(SettingsAction::Exit),
            _ => None,
        }
    }

    /// The number of word sets offered.
    pub fn wordset_count(&self) -> (res: usize)
        ensures
            self@.wf(),
            res == self@.wordsets.len(),
    {
        proof {
            use_type_invariant(self);
        }
        self.wordset_options.len()
    }

    /// The label of the word set at `index`.
    pub fn wordset_name(&self, index: usize) -> (res: &str)
        requires
            index < self@.wordsets.len(),
        ensures
            res@ == self@.wordsets[index as int],
    {
        self.wordset_options[index].as_str()
    }

    pub fn active_row(&self) -> (res: usize)
        ensures
            self@.wf(),
            res == self@.row,
    {
        proof {
            use_type_invariant(self);
        }
        self.active_row
    }

    pub fn current_wordset(&self) -> (res: &str)
        requires
            self@.wordsets.len() > 0,
        ensures
            res@ == self@.wordsets[self@.wordset_index],
    {
        proof {
            use_type_invariant(self);
        }
        self.wordset_options[self.wordset_index].as_str()
    }

    pub fn current_time(&self) -> (res: u32)
        ensures
            self@.wf(),
            res == self@.times[self@.time_index],
    {
        proof {
            use_type_invariant(self);
        }
        self.time_options[self.time_index]
    }
}

// ---------------------------------------------------------------------
// Laws
// ---------------------------------------------------------------------

/// Every key press that the screen accepts keeps the row at 0 or 1 and both
/// indices within their lists.
pub proof fn lemma_settings_key_keeps_wf(s: SettingsState, code: KeyCode)
    requires
        s.wf(),
        s.accepts_key(code),
    ensures
        s.after_key(code).wf(),
{
}

/// Down undoes Up and Up undoes Down: the two rows wrap around.
pub proof fn lemma_settings_rows_wrap(s: SettingsState)
    requires
        s.wf(),
    ensures
        s.row_up().row_down() == s,
        s.row_down().row_up() == s,
        s.row_up() == s.row_down(),
{
}

/// Left undoes Right, unless Right stopped at the last entry.
pub proof fn lemma_settings_left_undoes_right(s: SettingsState)
    requires
        s.wf(),
        s.accepts_key(KeyCode::Right),
        s.step_right() != s,
    ensures
        s.step_right().step_left() == s,
{
}

/// Right undoes Left, unless Left stopped at the first entry.
pub proof fn lemma_settings_right_undoes_left(s: SettingsState)
    requires
        s.wf(),
        s.step_left() != s,
    ensures
        s.step_left().accepts_key(KeyCode::Right),
        s.step_left().step_right() == s,
{
}

} // verus!
