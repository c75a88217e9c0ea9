//! The mode screen: pick a word set and a time limit before a run.

use vstd::prelude::*;
use crate::input::{KeyCode, KeyEvent};

verus! {

/// What the mode screen asks of the application after a key press.
#[derive(Debug, PartialEq, Eq, Clone, Copy, Structural)]
pub enum ModeSelectAction {
    Start,
    Exit,
}

/// The row that Left and Right act on.
#[derive(Debug, PartialEq, Eq, Clone, Copy, Structural)]
pub enum ActiveRow {
    Wordset,
    Time,
}

/// The number of time limits offered: 15 s to 300 s in steps of 15 s.
pub const MODE_TIME_COUNT: usize = 20;

/// The time limits offered, in seconds: 15, 30, ..., 300.
pub open spec fn mode_times() -> Seq<u32> {
    Seq::new(MODE_TIME_COUNT as nat, |i: int| (15 * (i + 1)) as u32)
}

/// The abstract state of the mode screen.
pub struct ModeSelectState {
    pub row: ActiveRow,
    pub wordset_index: int,
    pub time_index: int,
    pub wordsets: Seq<Seq<char>>,
    pub times: Seq<u32>,
}

/// The other row.
pub open spec fn other_row(row: ActiveRow) -> ActiveRow {
    match row {
        ActiveRow::Wordset => ActiveRow::Time,
        ActiveRow::Time => ActiveRow::Wordset,
    }
}

impl ModeSelectState {
    /// The state of a fresh screen over the given word sets.
    pub open spec fn initial(wordsets: Seq<Seq<char>>) -> ModeSelectState {
        ModeSelectState {
            row: ActiveRow::Wordset,
            wordset_index: 0,
            time_index: 0,
            wordsets,
            times: mode_times(),
        }
    }

    /// Both indices point into their lists (the word-set index is 0 when
    /// there is no word set).
    pub open spec fn wf(self) -> bool {
        &&& self.times == mode_times()
        &&& 0 <= self.time_index < self.times.len()
        &&& 0 <= self.wordset_index
        &&& (self.wordset_index < self.wordsets.len() || (self.wordsets.len() == 0
            && self.wordset_index == 0))
    }

    /// Up and Down both switch to the other row.
    pub open spec fn switch_row(self) -> ModeSelectState {
        ModeSelectState { row: other_row(self.row), ..self }
    }

    /// Left: the active row's index goes one down, stopping at 0.
    pub open spec fn step_left(self) -> ModeSelectState {
        match self.row {
            ActiveRow::Wordset => if self.wordset_index > 0 {
                ModeSelectState { wordset_index: self.wordset_index - 1, ..self }
            } else {
                self
            },
            ActiveRow::Time => if self.time_index > 0 {
                ModeSelectState { time_index: self.time_index - 1, ..self }
            } else {
                self
            },
        }
    }

    /// Right: the active row's index goes one up, stopping at the last entry.
    pub open spec fn step_right(self) -> ModeSelectState {
        match self.row {
            ActiveRow::Wordset => if self.wordset_index < self.wordsets.len() - 1 {
                ModeSelectState { wordset_index: self.wordset_index + 1, ..self }
            } else {
                self
            },
            ActiveRow::Time => if self.time_index < self.times.len() - 1 {
                ModeSelectState { time_index: self.time_index + 1, ..self }
            } else {
                self
            },
        }
    }

    /// Right is defined on the state: it never steps past an empty list.
    pub open spec fn can_step_right(self) -> bool {
        self.row == ActiveRow::Wordset ==> self.wordsets.len() > 0
    }

    /// The state after a key press.
    pub open spec fn after_key(self, code: KeyCode) -> ModeSelectState {
        match code {
            KeyCode::Up => self.switch_row(),
            KeyCode::Down => self.switch_row(),
            KeyCode::Left => self.step_left(),
            KeyCode::Right => self.step_right(),
            _ => self,
        }
    }

    /// A key press is handled without fault in this state.
    pub open spec fn accepts_key(self, code: KeyCode) -> bool {
        code == KeyCode::Right ==> self.can_step_right()
    }
}

/// The action that a key press reports.
pub open spec fn mode_select_action(code: KeyCode) -> Option<ModeSelectAction> {
    match code {
        KeyCode::Enter => Some(ModeSelectAction::Start),
        KeyCode::Esc => Some(ModeSelectAction::Exit),
        _ => None,
    }
}

#[derive(Debug)]
pub struct ModeSelectWidget {
    active_row: ActiveRow,
    wordset_index: usize,
    time_index: usize,
    wordset_options: Vec<String>,
    time_options: Vec<u32>,
}

impl View for ModeSelectWidget {
    type V = ModeSelectState;

    closed spec fn view(&self) -> ModeSelectState {
        ModeSelectState {
            row: self.active_row,
            wordset_index: self.wordset_index as int,
            time_index: self.time_index as int,
            wordsets: self.wordset_options@.map_values(|s: String| s@),
            times: self.time_options@,
        }
    }
}

impl ModeSelectWidget {
    #[verifier::type_invariant]
    spec fn inv(self) -> bool {
        self@.wf()
    }

    pub fn new(wordset_names: Vec<String>) -> (res: Self)
        ensures
            res@.wf(),
            res@ == ModeSelectState::initial(wordset_names@.map_values(|s: String| s@)),
    {
        let mut times: Vec<u32> = Vec::new();
        let mut t: u32 = 15;
        while t <= 300
            invariant
                t == 15 * (times.len() + 1),
                times.len() <= MODE_TIME_COUNT,
                times@ =~= mode_times().take(times.len() as int),
            decreases 315 - t,
        {
            times.push(t);
            t = t + 15;
        }
        assert(times@ =~= mode_times());
        Self {
            active_row: ActiveRow::Wordset,
            wordset_index: 0,
            time_index: 0,
            wordset_options: wordset_names,
            time_options: times,
        }
    }

    pub fn wordset_index(&self) -> (res: usize)
        ensures
            self@.wf(),
            res == self@.wordset_index,
    {
        proof {
            use_type_invariant(self);
        }
        self.wordset_index
    }

    pub fn time_index(&self) -> (res: usize)
        ensures
            self@.wf(),
            res == self@.time_index,
    {
        proof {
            use_type_invariant(self);
        }
        self.time_index
    }

    /// The number of word sets offered.
    pub fn wordset_count(&self) -> (res: usize)
        ensures
            self@.wf(),
            res == self@.wordsets.len(),
    {
        proof {
            use_type_invariant(self);
        }
        self.wordset_options.len()
    }

    /// The label of the word set at `index`.
    pub fn wordset_name(&self, index: usize) -> (res: &str)
        requires
            index < self@.wordsets.len(),
        ensures
            res@ == self@.wordsets[index as int],
    {
        self.wordset_options[index].as_str()
    }

    pub fn active_row(&self) -> (res: ActiveRow)
        ensures
            self@.wf(),
            res == self@.row,
    {
        proof {
            use_type_invariant(self);
        }
        self.active_row
    }

    pub fn selected_time(&self) -> (res: u32)
        ensures
            res == self@.times[self@.time_index],
            res == 15 * (self@.time_index + 1),
    {
        proof {
            use_type_invariant(self);
        }
        self.time_options[self.time_index]
    }

    pub fn selected_wordset(&self) -> (res: &str)
        requires
            self@.wordsets.len() > 0,
        ensures
            res@ == self@.wordsets[self@.wordset_index],
    {
        proof {
            use_type_invariant(self);
        }
        self.wordset_options[self.wordset_index].as_str()
    }

    /// Arrows move the selection; Enter starts a run; Esc leaves.
    pub fn handle_input(&mut self, key: KeyEvent) -> (res: Option<ModeSelectAction>)
        requires
            old(self)@.accepts_key(key.code),
        ensures
            final(self)@ == old(self)@.after_key(key.code),
            res == mode_select_action(key.code),
    {
        match key.code {
            KeyCode::Up => {
                self.move_up();
                None
            },
            KeyCode::Down => {
                self.move_down();
                None
            },
            KeyCode::Left => {
                self.move_left();
                None
            },
            KeyCode::Right => {
                self.move_right();
                None
            },
            KeyCode::Enter => Some(ModeSelectAction::Start),
            KeyCode::Esc => Some(ModeSelectAction::Exit),
            _ => None,
        }
    }

    pub fn move_up(&mut self)
        ensures
            final(self)@ == old(self)@.switch_row(),
    {
        proof {
            use_type_invariant(&*self);
        }
        match self.active_row {
            ActiveRow::Wordset => {
                self.active_row = ActiveRow::Time;
            },
            ActiveRow::Time => {
                self.active_row = ActiveRow::Wordset;
            },
        }
    }

    pub fn move_down(&mut self)
        ensures
            final(self)@ == old(self)@.switch_row(),
    {
        proof {
            use_type_invariant(&*self);
        }
        match self.active_row {
            ActiveRow::Wordset => {
                self.active_row = ActiveRow::Time;
            },
            ActiveRow::Time => {
                self.active_row = ActiveRow::Wordset;
            },
        }
    }

    pub fn move_left(&mut self)
        ensures
            final(self)@ == old(self)@.step_left(),
    {
        proof {
            use_type_invariant(&*self);
        }
        match self.active_row {
            ActiveRow::Wordset => {
                if self.wordset_index > 0 {
                    self.wordset_index -= 1;
                }
            },
            ActiveRow::Time => {
                if self.time_index > 0 {
                    self.time_index -= 1;
                }
            },
        }
    }

    pub fn move_right(&mut self)
        requires
            old(self)@.can_step_right(),
        ensures
            final(self)@ == old(self)@.step_right(),
    {
        proof {
            use_type_invariant(&*self);
        }
        match self.active_row {
            ActiveRow::Wordset => {
                if self.wordset_index < self.wordset_options.len() - 1 {
                    self.wordset_index += 1;
                }
            },
            ActiveRow::Time => {
                if self.time_index < self.time_options.len() - 1 {
                    self.time_index += 1;
                }
            },
        }
    }

    pub fn reset(&mut self)
        ensures
            final(self)@ == ModeSelectState::initial(old(self)@.wordsets),
    {
        proof {
            use_type_invariant(&*self);
        }
        self.active_row = ActiveRow::Wordset;
        self.wordset_index = 0;
        self.time_index = 0;
    }
}

// ---------------------------------------------------------------------
// Laws
// ---------------------------------------------------------------------

/// Every key press that the screen accepts keeps both indices within their
/// lists.
pub proof fn lemma_mode_key_keeps_wf(s: ModeSelectState, code: KeyCode)
    requires
        s.wf(),
        s.accepts_key(code),
    ensures
        s.after_key(code).wf(),
{
}

/// A fresh screen satisfies the invariant.
pub proof fn lemma_mode_initial_wf(wordsets: Seq<Seq<char>>)
    ensures
        ModeSelectState::initial(wordsets).wf(),
{
}

/// Switching rows twice changes nothing; Up and Down do the same.
pub proof fn lemma_mode_switch_row_twice(s: ModeSelectState)
    ensures
        s.switch_row().switch_row() == s,
        s.after_key(KeyCode::Up) == s.after_key(KeyCode::Down),
{
}

/// Left undoes Right, unless Right stopped at the last entry.
pub proof fn lemma_mode_left_undoes_right(s: ModeSelectState)
    requires
        s.wf(),
        s.can_step_right(),
        s.step_right() != s,
    ensures
        s.step_right().step_left() == s,
{
}

/// Right undoes Left, unless Left stopped at the first entry.
pub proof fn lemma_mode_right_undoes_left(s: ModeSelectState)
    requires
        s.wf(),
        s.step_left() != s,
    ensures
        s.step_left().can_step_right(),
        s.step_left().step_right() == s,
{
}

} // verus!
