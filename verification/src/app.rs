//! The application's screens and how key presses move between them. The
//! word lists and the saved settings live outside; a key press that needs
//! them returns an `Effect`, and the words come back through
//! `App::on_words_loaded`.
//!
//! The settings screen is handled here, but no key press leads to it: the
//! main menu offers Quick Start, Select Mode and Exit, and no menu action
//! opens the settings.

use vstd::prelude::*;
use crate::input::{KeyCode, KeyEvent};
use crate::menu_widget::{MenuAction, MenuWidget, menu_selected_after, menu_action_after};
use crate::mode_select_widget::{
    ModeSelectAction,
    ModeSelectState,
    ModeSelectWidget,
    mode_select_action,
};
use crate::result_widget::{ResultAction, ResultWidget, result_selected_after, result_action_after};
use crate::settings_widget::{SettingsAction, SettingsState, SettingsWidget, settings_action};
use crate::text::{join_words, join_with_spaces};
use crate::typing_widget::{
    TypingAction,
    TypingState,
    TypingWidget,
    cleared,
    typing_key_step,
};

verus! {

/// The screen on display.
#[derive(Debug, PartialEq, Eq, Clone, Copy, Structural)]
pub enum Screen {
    Menu,
    ModeSelect,
    Settings,
    Typing,
    Result,
}

/// The words that a run needs.
#[derive(Debug, Clone, PartialEq, Eq)]
pub enum WordRequest {
    /// The quick-start words, for the quick-start word set and time.
    QuickStart,
    /// The words of `wordset`, for a new run with a limit of `time` seconds.
    Start { wordset: String, time: u32 },
    /// The words of `wordset`, for a rerun with a limit of `time` seconds.
    Restart { wordset: String, time: u32 },
}

/// Work that a key press leaves to the caller.
#[derive(Debug, Clone, PartialEq, Eq)]
pub enum Effect {
    Nothing,
    /// Load words, then hand them to `App::on_words_loaded`.
    LoadWords(WordRequest),
    /// Store these as the quick-start settings.
    SaveSettings { wordset: String, time: u32 },
}

/// A word request as plain values.
pub enum WordRequestView {
    QuickStart,
    Start(Seq<char>, u32),
    Restart(Seq<char>, u32),
}

/// An effect as plain values.
pub enum EffectView {
    Nothing,
    LoadWords(WordRequestView),
    SaveSettings(Seq<char>, u32),
}

impl View for WordRequest {
    type V = WordRequestView;

    open spec fn view(&self) -> WordRequestView {
        match self {
            WordRequest::QuickStart => WordRequestView::QuickStart,
            WordRequest::Start { wordset, time } => WordRequestView::Start(wordset@, *time),
            WordRequest::Restart { wordset, time } => WordRequestView::Restart(wordset@, *time),
        }
    }
}

impl View for Effect {
    type V = EffectView;

    open spec fn view(&self) -> EffectView {
        match self {
            Effect::Nothing => EffectView::Nothing,
            Effect::LoadWords(r) => EffectView::LoadWords(r@),
            Effect::SaveSettings { wordset, time } => EffectView::SaveSettings(wordset@, *time),
        }
    }
}

/// The abstract state of the application.
pub struct AppState {
    pub running: bool,
    pub screen: Screen,
    pub menu_selected: int,
    pub menu_labels: Seq<Seq<char>>,
    pub mode: ModeSelectState,
    pub settings: SettingsState,
    pub typing: TypingState,
    pub result_selected: int,
    pub result_labels: Seq<Seq<char>>,
    pub quick_start_wordset: Seq<char>,
    pub quick_start_time: u32,
    pub current_wordset: Option<Seq<char>>,
    pub current_time: Option<u32>,
}

/// Control-C quits from every screen.
pub open spec fn is_quit_key(key: KeyEvent) -> bool {
    key.code == KeyCode::Char('c') && key.control
}

/// A fresh typing screen for `text` with a limit of `seconds`.
pub open spec fn typing_for(text: Seq<char>, seconds: u32) -> TypingState {
    TypingState { target: text, input: Seq::empty(), start: None, time_limit: Some(seconds as u64) }
}

impl AppState {
    /// The key press can be handled in this state: on the mode and settings
    /// screens, Right on the word-set row and Enter need a word set.
    pub open spec fn accepts_key(self, key: KeyEvent) -> bool {
        !is_quit_key(key) ==> match self.screen {
            Screen::ModeSelect => self.mode.accepts_key(key.code) && (key.code == KeyCode::Enter
                ==> self.mode.wordsets.len() > 0),
            Screen::Settings => self.settings.accepts_key(key.code) && (key.code
                == KeyCode::Enter ==> self.settings.wordsets.len() > 0),
            _ => true,
        }
    }

    /// `t` and `e` follow from `self` by the key press `key`.
    pub open spec fn key_step(self, key: KeyEvent, t: AppState, e: EffectView) -> bool {
        let s = self;
        if is_quit_key(key) {
            t == AppState { running: false, ..s } && e == EffectView::Nothing
        } else {
            match s.screen {
                Screen::Menu => {
                    let base = AppState {
                        menu_selected: menu_selected_after(s.menu_selected, key.code),
                        ..s
                    };
                    match menu_action_after(s.menu_selected, key.code) {
                        MenuAction::QuickStart => t == base && e == EffectView::LoadWords(
                            WordRequestView::QuickStart,
                        ),
                        MenuAction::SelectMode => t == AppState {
                            mode: ModeSelectState::initial(s.mode.wordsets),
                            screen: Screen::ModeSelect,
                            ..base
                        } && e == EffectView::Nothing,
                        MenuAction::Exit => t == AppState { running: false, ..base } && e
                            == EffectView::Nothing,
                        MenuAction::NoAction => t == base && e == EffectView::Nothing,
                    }
                },
                Screen::ModeSelect => {
                    let m = s.mode.after_key(key.code);
                    match mode_select_action(key.code) {
                        Some(ModeSelectAction::Start) => t == AppState { mode: m, ..s } && e
                            == EffectView::LoadWords(
                            WordRequestView::Start(m.wordsets[m.wordset_index], m.times[m.time_index]),
                        ),
                        Some(ModeSelectAction::Exit) => t == AppState {
                            mode: m,
                            screen: Screen::Menu,
                            ..s
                        } && e == EffectView::Nothing,
                        None => t == AppState { mode: m, ..s } && e == EffectView::Nothing,
                    }
                },
                Screen::Settings => {
                    let st = s.settings.after_key(key.code);
                    match settings_action(key.code) {
                        Some(SettingsAction::Save) => {
                            let w = st.wordsets[st.wordset_index];
                            let tm = st.times[st.time_index];
                            t == AppState {
                                settings: st,
                                quick_start_wordset: w,
                                quick_start_time: tm,
                                screen: Screen::Menu,
                                ..s
                            } && e == EffectView::SaveSettings(w, tm)
                        },
                        Some(SettingsAction::Exit) => t == AppState {
                            settings: st,
                            screen: Screen::Menu,
                            ..s
                        } && e == EffectView::Nothing,
                        _ => t == AppState { settings: st, ..s } && e == EffectView::Nothing,
                    }
                },
                Screen::Typing => {
                    if key.code == KeyCode::Esc {
                        t == AppState { screen: Screen::Menu, typing: cleared(s.typing), ..s } && e
                            == EffectView::Nothing
                    } else {
                        typing_key_step(s.typing, key.code, t.typing) && t == AppState {
                            typing: t.typing,
                            ..s
                        } && e == EffectView::Nothing
                    }
                },
                Screen::Result => {
                    let base = AppState {
                        result_selected: result_selected_after(s.result_selected, key.code),
                        ..s
                    };
                    match result_action_after(s.result_selected, key.code) {
                        Some(ResultAction::Restart) => t == AppState {
                            screen: Screen::Typing,
                            ..base
                        } && e == match (s.current_wordset, s.current_time) {
                            (Some(w), Some(tm)) => EffectView::LoadWords(
                                WordRequestView::Restart(w, tm),
                            ),
                            _ => EffectView::Nothing,
                        },
                        Some(ResultAction::Menu) => t == AppState {
                            screen: Screen::Menu,
                            typing: cleared(s.typing),
                            ..base
                        } && e == EffectView::Nothing,
                        None => t == base && e == EffectView::Nothing,
                    }
                },
            }
        }
    }

    /// The state once the words for `req` have come: `None` when they could
    /// not be loaded, which changes nothing; otherwise a fresh typing screen
    /// for the words joined by spaces.
    pub open spec fn words_step(self, req: WordRequestView, words: Option<Seq<Seq<char>>>) -> AppState {
        let s = self;
        match words {
            None => s,
            Some(ws) => {
                let text = join_with_spaces(ws);
                match req {
                    WordRequestView::QuickStart => AppState {
                        typing: typing_for(text, s.quick_start_time),
                        current_wordset: Some(s.quick_start_wordset),
                        current_time: Some(s.quick_start_time),
                        screen: Screen::Typing,
                        ..s
                    },
                    WordRequestView::Start(w, tm) => AppState {
                        typing: typing_for(text, tm),
                        current_wordset: Some(w),
                        current_time: Some(tm),
                        screen: Screen::Typing,
                        ..s
                    },
                    WordRequestView::Restart(w, tm) => AppState {
                        typing: typing_for(text, tm),
                        ..s
                    },
                }
            },
        }
    }
}

#[derive(Debug)]
pub struct App {
    running: bool,
    screen: Screen,
    menu_widget: MenuWidget,
    mode_select_widget: ModeSelectWidget,
    settings_widget: SettingsWidget,
    typing_widget: TypingWidget,
    result_widget: ResultWidget,
    quick_start_wordset: String,
    quick_start_time: u32,
    current_wordset: Option<String>,
    current_time: Option<u32>,
}

/// The views of an optional string.
pub open spec fn option_view(o: Option<String>) -> Option<Seq<char>> {
    match o {
        Some(s) => Some(s@),
        None => None,
    }
}

impl View for App {
    type V = AppState;

    closed spec fn view(&self) -> AppState {
        AppState {
            running: self.running,
            screen: self.screen,
            menu_selected: self.menu_widget.selected(),
            menu_labels: self.menu_widget.labels(),
            mode: self.mode_select_widget@,
            settings: self.settings_widget@,
            typing: self.typing_widget@,
            result_selected: self.result_widget.selected(),
            result_labels: self.result_widget.labels(),
            quick_start_wordset: self.quick_start_wordset@,
            quick_start_time: self.quick_start_time,
            current_wordset: option_view(self.current_wordset),
            current_time: self.current_time,
        }
    }
}

/// A copy of a list of strings.
fn clone_strings(v: &Vec<String>) -> (res: Vec<String>)
    ensures
        res@.map_values(|s: String| s@) == v@.map_values(|s: String| s@),
{
    let mut res: Vec<String> = Vec::new();
    let mut i: usize = 0;
    while i < v.len()
        invariant
            i <= v.len(),
            res@.len() == i,
            forall|k: int| 0 <= k < i ==> #[trigger] res@[k]@ == v@[k]@,
        decreases v.len() - i,
    {
        res.push(v[i].clone());
        i += 1;
    }
    assert(res@.map_values(|s: String| s@) =~= v@.map_values(|s: String| s@));
    res
}

impl App {
    /// The application on its main menu, with the word sets `wordset_names`
    /// and the quick-start settings.
    pub fn new(wordset_names: Vec<String>, quick_start_wordset: String, quick_start_time: u32) -> (res:
        Self)
        ensures
            res@.running,
            res@.screen == Screen::Menu,
            res@.menu_selected == 0,
            res@.menu_labels == seq!["Quick Start"@, "Select Mode"@, "Exit"@],
            res@.result_labels == seq!["Restart"@, "Menu"@],
            res@.mode == ModeSelectState::initial(wordset_names@.map_values(|s: String| s@)),
            res@.settings.row == 0,
            res@.settings.wordsets == wordset_names@.map_values(|s: String| s@),
            res@.settings.times == crate::settings_widget::settings_times(),
            res@.mode.wf(),
            res@.settings.wf(),
            crate::settings_widget::is_first_position_or_zero(
                res@.settings.wordsets,
                quick_start_wordset@,
                res@.settings.wordset_index,
            ),
            crate::settings_widget::is_first_position_or_zero(
                res@.settings.times,
                quick_start_time,
                res@.settings.time_index,
            ),
            res@.typing == (TypingState {
                target: Seq::empty(),
                input: Seq::empty(),
                start: None,
                time_limit: None,
            }),
            res@.result_selected == 0,
            res@.quick_start_wordset == quick_start_wordset@,
            res@.quick_start_time == quick_start_time,
            res@.current_wordset is None,
            res@.current_time is None,
    {
        let settings_widget = SettingsWidget::new(
            clone_strings(&wordset_names),
            quick_start_wordset.as_str(),
            quick_start_time,
        );
        Self {
            running: true,
            screen: Screen::Menu,
            menu_widget: MenuWidget::new(),
            mode_select_widget: ModeSelectWidget::new(wordset_names),
            settings_widget,
            typing_widget: TypingWidget::new(String::new()),
            result_widget: ResultWidget::new(),
            quick_start_wordset,
            quick_start_time,
            current_wordset: None,
            current_time: None,
        }
    }

    pub fn is_running(&self) -> (res: bool)
        ensures
            res == self@.running,
    {
        self.running
    }

    pub fn screen(&self) -> (res: Screen)
        ensures
            res == self@.screen,
    {
        self.screen
    }

    pub fn menu_widget(&self) -> (res: &MenuWidget)
        ensures
            res.selected() == self@.menu_selected,
            res.labels() == self@.menu_labels,
    {
        &self.menu_widget
    }

    pub fn mode_select_widget(&self) -> (res: &ModeSelectWidget)
        ensures
            res@ == self@.mode,
    {
        &self.mode_select_widget
    }

    pub fn settings_widget(&self) -> (res: &SettingsWidget)
        ensures
            res@ == self@.settings,
    {
        &self.settings_widget
    }

    pub fn typing_widget(&self) -> (res: &TypingWidget)
        ensures
            res@ == self@.typing,
    {
        &self.typing_widget
    }

    pub fn result_widget(&self) -> (res: &ResultWidget)
        ensures
            res.selected() == self@.result_selected,
            res.labels() == self@.result_labels,
    {
        &self.result_widget
    }

    /// The quick-start word set.
    pub fn quick_start_wordset(&self) -> (res: &str)
        ensures
            res@ == self@.quick_start_wordset,
    {
        self.quick_start_wordset.as_str()
    }

    /// The quick-start time limit in seconds.
    pub fn quick_start_time(&self) -> (res: u32)
        ensures
            res == self@.quick_start_time,
    {
        self.quick_start_time
    }

    /// Stops the application.
    pub fn quit(&mut self)
        ensures
            final(self)@ == (AppState { running: false, ..old(self)@ }),
    {
        self.running = false;
    }

    /// Whether `key` can be handled in the current state.
    pub fn accepts_key(&self, key: KeyEvent) -> (res: bool)
        ensures
            res == self@.accepts_key(key),
    {
        if key.code == KeyCode::Char('c') && key.control {
            return true;
        }
        match self.screen {
            Screen::ModeSelect => {
                let m = &self.mode_select_widget;
                let has_sets = m.wordset_count() > 0;
                match key.code {
                    KeyCode::Right => m.active_row() != crate::mode_select_widget::ActiveRow::Wordset
                        || has_sets,
                    KeyCode::Enter => has_sets,
                    _ => true,
                }
            },
            Screen::Settings => {
                let st = &self.settings_widget;
                let has_sets = st.wordset_count() > 0;
                match key.code {
                    KeyCode::Right => st.active_row() != 0 || has_sets,
                    KeyCode::Enter => has_sets,
                    _ => true,
                }
            },
            _ => true,
        }
    }

    /// Handles a key press on the current screen; Control-C quits anywhere.
    pub fn on_key_event(&mut self, key: KeyEvent) -> (res: Effect)
        requires
            old(self)@.accepts_key(key),
        ensures
            old(self)@.key_step(key, final(self)@, res@),
    {
        if key.code == KeyCode::Char('c') && key.control {
            self.quit();
            return Effect::Nothing;
        }
        match self.screen {
            Screen::Menu => {
                let action = self.menu_widget.handle_input(key);
                match action {
                    MenuAction::QuickStart => Effect::LoadWords(WordRequest::QuickStart),
                    MenuAction::SelectMode => {
                        self.mode_select_widget.reset();
                        self.screen = Screen::ModeSelect;
                        Effect::Nothing
                    },
                    MenuAction::Exit => {
                        self.quit();
                        Effect::Nothing
                    },
                    MenuAction::NoAction => Effect::Nothing,
                }
            },
            Screen::ModeSelect => {
                match self.mode_select_widget.handle_input(key) {
                    Some(ModeSelectAction::Start) => {
                        let wordset = self.mode_select_widget.selected_wordset().to_owned();
                        let time = self.mode_select_widget.selected_time();
                        Effect::LoadWords(WordRequest::Start { wordset, time })
                    },
                    Some(ModeSelectAction::Exit) => {
                        self.screen = Screen::Menu;
                        Effect::Nothing
                    },
                    None => Effect::Nothing,
                }
            },
            Screen::Settings => {
                match self.settings_widget.handle_input(key) {
                    Some(SettingsAction::Save) => {
                        let wordset = self.settings_widget.current_wordset().to_owned();
                        let time = self.settings_widget.current_time();
                        self.quick_start_wordset = wordset.clone();
                        self.quick_start_time = time;
                        self.screen = Screen::Menu;
                        Effect::SaveSettings { wordset, time }
                    },
                    Some(SettingsAction::Exit) => {
                        self.screen = Screen::Menu;
                        Effect::Nothing
                    },
                    _ => Effect::Nothing,
                }
            },
            Screen::Typing => {
                match self.typing_widget.handle_input(key) {
                    Some(TypingAction::Exit) => {
                        self.screen = Screen::Menu;
                        self.typing_widget.reset();
                        Effect::Nothing
                    },
                    None => Effect::Nothing,
                }
            },
            Screen::Result => {
                match self.result_widget.handle_input(key) {
                    Some(ResultAction::Restart) => {
                        let effect = match (&self.current_wordset, self.current_time) {
                            (Some(wordset), Some(time)) => Effect::LoadWords(
                                WordRequest::Restart { wordset: wordset.clone(), time },
                            ),
                            _ => Effect::Nothing,
                        };
                        self.screen = Screen::Typing;
                        effect
                    },
                    Some(ResultAction::Menu) => {
                        self.screen = Screen::Menu;
                        self.typing_widget.reset();
                        Effect::Nothing
                    },
                    None => Effect::Nothing,
                }
            },
        }
    }

    /// Takes the words asked for by `req`: `None` when they could not be
    /// loaded, which changes nothing; otherwise the typing screen starts
    /// over on the words joined by spaces.
    pub fn on_words_loaded(&mut self, req: WordRequest, words: Option<Vec<String>>)
        ensures
            final(self)@ == old(self)@.words_step(
                req@,
                match words {
                    Some(ws) => Some(ws@.map_values(|w: String| w@)),
                    None => None,
                },
            ),
    {
        match words {
            None => {},
            Some(ws) => {
                let text = join_words(&ws);
                match req {
                    WordRequest::QuickStart => {
                        let time = self.quick_start_time;
                        self.typing_widget = TypingWidget::new(text).with_time_limit(time as u64);
                        self.current_wordset = Some(self.quick_start_wordset.clone());
                        self.current_time = Some(time);
                        self.screen = Screen::Typing;
                    },
                    WordRequest::Start { wordset, time } => {
                        self.typing_widget = TypingWidget::new(text).with_time_limit(time as u64);
                        self.current_wordset = Some(wordset);
                        self.current_time = Some(time);
                        self.screen = Screen::Typing;
                    },
                    WordRequest::Restart { wordset: _, time } => {
                        self.typing_widget = TypingWidget::new(text).with_time_limit(time as u64);
                    },
                }
            },
        }
    }

    /// On the typing screen, moves to the result screen once the run is
    /// over (see `TypingWidget::is_complete`); returns whether it moved.
    pub fn tick(&mut self) -> (res: bool)
        ensures
            res ==> old(self)@.screen == Screen::Typing && final(self)@ == (AppState {
                screen: Screen::Result,
                ..old(self)@
            }),
            !res ==> final(self)@ == old(self)@,
            old(self)@.screen == Screen::Typing && crate::typing_widget::utf8_len(
                old(self)@.typing.input,
            ) >= crate::typing_widget::utf8_len(old(self)@.typing.target) ==> res,
            res ==> exists|e: Option<u64>|
                (e is Some <==> old(self)@.typing.start is Some)
                    && #[trigger] old(self)@.typing.complete_after(e),
    {
        if self.screen == Screen::Typing && self.typing_widget.is_complete() {
            self.screen = Screen::Result;
            true
        } else {
            false
        }
    }
}

// ---------------------------------------------------------------------
// Laws
// ---------------------------------------------------------------------

/// Control-C stops the application from every screen, and changes nothing
/// else.
pub proof fn lemma_control_c_quits(s: AppState, key: KeyEvent, t: AppState, e: EffectView)
    requires
        is_quit_key(key),
        s.key_step(key, t, e),
    ensures
        !t.running,
        t.screen == s.screen,
        t.typing == s.typing,
        e == EffectView::Nothing,
{
}

/// Esc on the typing screen goes back to the main menu with nothing typed
/// and the clock stopped.
pub proof fn lemma_escape_from_typing(s: AppState, key: KeyEvent, t: AppState, e: EffectView)
    requires
        s.screen == Screen::Typing,
        key.code == KeyCode::Esc,
        s.key_step(key, t, e),
    ensures
        t.screen == Screen::Menu,
        t.typing.input.len() == 0,
        t.typing.start is None,
        t.typing.target == s.typing.target,
        e == EffectView::Nothing,
{
}

/// Only quick start, starting from the mode screen and restarting from the
/// result screen ask for words; only saving on the settings screen asks to
/// store settings.
pub proof fn lemma_effects_by_screen(s: AppState, key: KeyEvent, t: AppState, e: EffectView)
    requires
        s.key_step(key, t, e),
    ensures
        e matches EffectView::LoadWords(WordRequestView::QuickStart) ==> s.screen == Screen::Menu,
        e matches EffectView::LoadWords(WordRequestView::Start(_, _)) ==> s.screen
            == Screen::ModeSelect,
        e matches EffectView::LoadWords(WordRequestView::Restart(_, _)) ==> s.screen
            == Screen::Result && t.screen == Screen::Typing,
        e is SaveSettings ==> s.screen == Screen::Settings && t.screen == Screen::Menu,
{
}

/// Starting a run from the mode screen asks for the words of the selected
/// word set with the selected time, and once they come the typing screen
/// shows them joined by spaces, nothing typed, with that time limit.
pub proof fn lemma_start_then_words(
    s: AppState,
    key: KeyEvent,
    t: AppState,
    e: EffectView,
    words: Seq<Seq<char>>,
)
    requires
        s.screen == Screen::ModeSelect,
        key.code == KeyCode::Enter,
        !key.control,
        s.key_step(key, t, e),
    ensures
        e == EffectView::LoadWords(
            WordRequestView::Start(s.mode.wordsets[s.mode.wordset_index], s.mode.times[s.mode.time_index]),
        ),
        ({
            let u = t.words_step(
                WordRequestView::Start(s.mode.wordsets[s.mode.wordset_index], s.mode.times[s.mode.time_index]),
                Some(words),
            );
            &&& u.screen == Screen::Typing
            &&& u.typing.target == join_with_spaces(words)
            &&& u.typing.input.len() == 0
            &&& u.typing.start is None
            &&& u.typing.time_limit == Some(s.mode.times[s.mode.time_index] as u64)
            &&& u.current_wordset == Some(s.mode.wordsets[s.mode.wordset_index])
            &&& u.current_time == Some(s.mode.times[s.mode.time_index])
        }),
{
}

/// Words that could not be loaded change nothing.
pub proof fn lemma_failed_load_changes_nothing(s: AppState, req: WordRequestView)
    ensures
        s.words_step(req, None) == s,
{
}

/// A quick start asks for the quick-start words, and once they come the
/// typing screen shows them joined by spaces, nothing typed, with the
/// quick-start time limit; a later restart asks for the same word set and
/// time.
pub proof fn lemma_quick_start_then_words(
    s: AppState,
    t: AppState,
    e: EffectView,
    words: Seq<Seq<char>>,
)
    requires
        s.screen == Screen::Menu,
        s.menu_selected == 0,
        s.key_step(KeyEvent { code: KeyCode::Enter, control: false }, t, e),
    ensures
        e == EffectView::LoadWords(WordRequestView::QuickStart),
        ({
            let u = t.words_step(WordRequestView::QuickStart, Some(words));
            &&& u.screen == Screen::Typing
            &&& u.typing == typing_for(join_with_spaces(words), s.quick_start_time)
            &&& u.current_wordset == Some(s.quick_start_wordset)
            &&& u.current_time == Some(s.quick_start_time)
        }),
{
}

/// Restarting from the result screen asks again for the word set and time of
/// the last run, and the fresh run keeps them.
pub proof fn lemma_restart_repeats_run(
    s: AppState,
    t: AppState,
    e: EffectView,
    words: Seq<Seq<char>>,
    w: Seq<char>,
    tm: u32,
)
    requires
        s.screen == Screen::Result,
        s.result_selected == 0,
        s.current_wordset == Some(w),
        s.current_time == Some(tm),
        s.key_step(KeyEvent { code: KeyCode::Enter, control: false }, t, e),
    ensures
        e == EffectView::LoadWords(WordRequestView::Restart(w, tm)),
        t.screen == Screen::Typing,
        ({
            let u = t.words_step(WordRequestView::Restart(w, tm), Some(words));
            &&& u.screen == Screen::Typing
            &&& u.typing == typing_for(join_with_spaces(words), tm)
            &&& u.current_wordset == Some(w)
            &&& u.current_time == Some(tm)
        }),
{
}

/// A key press is refused only where a list to index is empty: on the mode
/// or settings screen with no word set. Everywhere else every key is
/// handled, including Right on the last word set, which keeps the selection.
pub proof fn lemma_keys_refused_only_without_word_sets(s: AppState, key: KeyEvent)
    requires
        s.screen == Screen::ModeSelect ==> s.mode.wordsets.len() > 0,
        s.screen == Screen::Settings ==> s.settings.wordsets.len() > 0,
    ensures
        s.accepts_key(key),
{
}

/// Right on the last word set of the mode screen is handled and leaves the
/// selection where it is.
pub proof fn lemma_right_on_last_word_set(s: AppState, t: AppState, e: EffectView)
    requires
        s.screen == Screen::ModeSelect,
        s.mode.wf(),
        s.mode.row == crate::mode_select_widget::ActiveRow::Wordset,
        s.mode.wordsets.len() > 0,
        s.mode.wordset_index == s.mode.wordsets.len() - 1,
        s.key_step(KeyEvent { code: KeyCode::Right, control: false }, t, e),
    ensures
        s.accepts_key(KeyEvent { code: KeyCode::Right, control: false }),
        t == s,
        e == EffectView::Nothing,
{
}

} // verus!
