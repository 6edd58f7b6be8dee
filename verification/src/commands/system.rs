//! Facts about the screen and trivia for the rest overlay.
use vstd::prelude::*;
use crate::commands::games::{text_or_empty, text_or_empty_string};

verus! {

/// A piece of trivia, in English and Chinese.
#[derive(Debug)]
pub struct UselessFact {
    pub en: String,
    pub cn: String,
}

/// The trivia from the fields the service sent; a missing one is empty.
pub fn useless_fact(en: Option<String>, cn: Option<String>) -> (r: UselessFact)
    ensures
        r.en@ == text_or_empty(en),
        r.cn@ == text_or_empty(cn),
{
    UselessFact { en: text_or_empty_string(en), cn: text_or_empty_string(cn) }
}

/// A window whose rectangle (left, top, right, bottom) covers the whole
/// screen of the given width and height counts as full screen.
pub fn covers_screen(left: i32, top: i32, right: i32, bottom: i32, screen_w: i32, screen_h: i32) -> (r: bool)
    ensures
        r == (left <= 0 && top <= 0 && right >= screen_w && bottom >= screen_h),
{
    left <= 0 && top <= 0 && right >= screen_w && bottom >= screen_h
}

} // verus!
