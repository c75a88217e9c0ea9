//! A terminal typing-speed trainer: the screens' state machines, the text
//! layout of the typing screen, the word-set store and its shuffling.

pub mod input;
pub mod menu_widget;
pub mod mode_select_widget;
pub mod settings_widget;
pub mod wordset;
pub mod text;
pub mod typing_widget;
pub mod layout;
pub mod result_widget;
pub mod app;
