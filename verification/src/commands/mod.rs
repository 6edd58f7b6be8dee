//! The logic behind the commands the user interface invokes.
pub mod games;
pub mod history;
pub mod review;
pub mod system;
pub mod wallpaper;
