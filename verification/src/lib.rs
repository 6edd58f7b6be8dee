//! Vocabulary-learning core: a spaced-repetition review store, word books,
//! word-card and menu models, and the decisions of the desktop schedulers.
use vstd::prelude::*;

pub mod clock;
pub mod review_store;
pub mod word_db;
pub mod text;
pub mod commands;
pub mod text_renderer;
pub mod state;
pub mod scheduler;
pub mod idle_detector;
pub mod wallpaper_setter;

verus! {
} // verus!
