//! The data of the word games.
use vstd::prelude::*;

verus! {

broadcast use vstd::string::group_string_axioms;

/// A sentence to put back in order, with its translation.
#[derive(Debug)]
pub struct ShuffleData {
    pub en: String,
    pub cn: String,
}

/// A word to guess, with an optional hint.
#[derive(Debug)]
pub struct WordleData {
    pub word: String,
    pub hint: Option<String>,
}

/// Today's games; a game the service did not send is absent.
#[derive(Debug)]
pub struct GameData {
    pub shuffle: Option<ShuffleData>,
    pub wordle: Option<WordleData>,
}

/// A text field read from the service, or the empty text where it is
/// missing.
pub open spec fn text_or_empty(t: Option<String>) -> Seq<char> {
    match t {
        Some(s) => s@,
        None => Seq::empty(),
    }
}

/// A text field read from the service, or the empty text where it is missing.
pub fn text_or_empty_string(t: Option<String>) -> (r: String)
    ensures
        r@ == text_or_empty(t),
{
    match t {
        Some(s) => s,
        None => String::new(),
    }
}

/// The games from what the service sent: for each game present, its text
/// fields (each `None` where it is missing or not text). A missing text
/// field of a game is empty; the hint stays optional.
pub fn game_data(
    shuffle: Option<(Option<String>, Option<String>)>,
    wordle: Option<(Option<String>, Option<String>)>,
) -> (r: GameData)
    ensures
        match shuffle {
            Some((en, cn)) => (r.shuffle matches Some(s) && s.en@ == text_or_empty(en) && s.cn@ == text_or_empty(cn)),
            None => r.shuffle is None,
        },
        match wordle {
            Some((word, hint)) => (r.wordle matches Some(w) && w.word@ == text_or_empty(word) && w.hint == hint),
            None => r.wordle is None,
        },
{
    let shuffle = match shuffle {
        Some((en, cn)) => Some(ShuffleData { en: text_or_empty_string(en), cn: text_or_empty_string(cn) }),
        None => None,
    };
    let wordle = match wordle {
        Some((word, hint)) => Some(WordleData { word: text_or_empty_string(word), hint }),
        None => None,
    };
    GameData { shuffle, wordle }
}

} // verus!
