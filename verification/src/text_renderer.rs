//! The word card drawn on the wallpaper: what it says and in which lines of
//! text, before they are laid out.
use vstd::prelude::*;
use crate::word_db::WordEntry;

verus! {

broadcast use vstd::string::group_string_axioms;

/// The texts of a word card; an absent part is not drawn.
#[derive(Debug)]
pub struct WordCard {
    pub word: String,
    pub desc: Option<String>,
    pub sentence_en: Option<String>,
    pub sentence_cn: Option<String>,
}

/// `s` where it is not empty.
pub open spec fn non_empty(s: Seq<char>) -> Option<Seq<char>> {
    if s.len() == 0 {
        None
    } else {
        Some(s)
    }
}

/// The view of an optional text.
pub open spec fn opt_view(o: Option<String>) -> Option<Seq<char>> {
    match o {
        Some(s) => Some(s@),
        None => None,
    }
}

/// The description of an entry: "/phonetic/ translation", or the
/// translation alone where there is no phonetic.
pub open spec fn entry_desc(e: WordEntry) -> Seq<char> {
    if e.phonetic@.len() == 0 {
        e.trans@
    } else {
        seq!['/'] + e.phonetic@ + seq!['/', ' '] + e.trans@
    }
}

/// The card of a dictionary entry: the word, its description and its
/// example sentences, each part left out where it is empty.
pub fn word_card(entry: &WordEntry) -> (r: WordCard)
    ensures
        r.word == entry.word,
        opt_view(r.desc) == non_empty(entry_desc(*entry)),
        opt_view(r.sentence_en) == non_empty(entry.sentence_en@),
        opt_view(r.sentence_cn) == non_empty(entry.sentence_cn@),
{
    let desc = if entry.phonetic.as_str().is_empty() {
        entry.trans.clone()
    } else {
        let mut d = "/".to_string();
        d.append(entry.phonetic.as_str());
        d.append("/ ");
        d.append(entry.trans.as_str());
        proof {
            reveal_strlit("/");
            reveal_strlit("/ ");
            assert(d@ =~= seq!['/'] + entry.phonetic@ + seq!['/', ' '] + entry.trans@);
        }
        d
    };
    WordCard {
        word: entry.word.clone(),
        desc: if desc.as_str().is_empty() { None } else { Some(desc) },
        sentence_en: if entry.sentence_en.as_str().is_empty() {
            None
        } else {
            Some(entry.sentence_en.clone())
        },
        sentence_cn: if entry.sentence_cn.as_str().is_empty() {
            None
        } else {
            Some(entry.sentence_cn.clone())
        },
    }
}

/// The first text of a card: the word, followed by a space and the
/// description where there is one.
pub open spec fn first_text(c: WordCard) -> Seq<char> {
    match c.desc {
        Some(d) => c.word@ + seq![' '] + d@,
        None => c.word@,
    }
}

/// The first text of a card and its English sentence where there is one.
pub open spec fn first_texts(c: WordCard) -> Seq<Seq<char>> {
    match c.sentence_en {
        Some(s) => seq![first_text(c), s@],
        None => seq![first_text(c)],
    }
}

/// The texts of a card in drawing order: the word with its description
/// (separated by a space), then each example sentence there is.
pub open spec fn card_texts_spec(c: WordCard) -> Seq<Seq<char>> {
    let with_en = first_texts(c);
    match c.sentence_cn {
        Some(s) => with_en.push(s@),
        None => with_en,
    }
}

/// The texts of a card in drawing order (see `card_texts_spec`); each is
/// wrapped into lines when the card is drawn.
pub fn card_texts(card: &WordCard) -> (r: Vec<String>)
    ensures
        r@.map_values(|s: String| s@) == card_texts_spec(*card),
{
    let mut out: Vec<String> = Vec::new();
    let first = match &card.desc {
        Some(desc) => {
            let mut f = card.word.clone();
            f.append(" ");
            f.append(desc.as_str());
            proof {
                reveal_strlit(" ");
            }
            f
        },
        None => card.word.clone(),
    };
    assert(first@ =~= first_text(*card));
    out.push(first);
    if let Some(en) = &card.sentence_en {
        out.push(en.clone());
    }
    assert(out@.map_values(|s: String| s@) =~= first_texts(*card));
    if let Some(cn) = &card.sentence_cn {
        out.push(cn.clone());
    }
    proof {
        assert(out@.map_values(|s: String| s@) =~= card_texts_spec(*card));
    }
    out
}


/// A character is drawn with the English font where it is ASCII or that font
/// has a glyph for it, else with the Chinese font.
pub open spec fn english_font(c: char, has_english_glyph: bool) -> bool {
    (c as u32) < 128 || has_english_glyph
}

/// Whether `c` is drawn with the English font (see `english_font`).
pub fn uses_english_font(c: char, has_english_glyph: bool) -> (r: bool)
    ensures
        r == english_font(c, has_english_glyph),
{
    (c as u32) < 128 || has_english_glyph
}

/// The runs of a text drawn with one font each: consecutive characters with
/// the same font (`en[i]` tells whether character `i` uses the English one)
/// form one run, in order.
pub open spec fn font_runs(cs: Seq<char>, en: Seq<bool>) -> Seq<(bool, Seq<char>)>
    decreases cs.len(),
{
    if cs.len() == 0 || en.len() == 0 {
        Seq::empty()
    } else {
        let prev = font_runs(cs.drop_last(), en.drop_last());
        if prev.len() > 0 && prev.last().0 == en.last() {
            prev.update(prev.len() - 1, (en.last(), prev.last().1.push(cs.last())))
        } else {
            prev.push((en.last(), seq![cs.last()]))
        }
    }
}

/// The texts of runs.
pub open spec fn run_views(r: Seq<(bool, Vec<char>)>) -> Seq<(bool, Seq<char>)> {
    r.map_values(|x: (bool, Vec<char>)| (x.0, x.1@))
}

/// The runs of the characters `cs` drawn with one font each (see `font_runs`).
pub fn split_by_font(cs: &Vec<char>, en: &Vec<bool>) -> (r: Vec<(bool, Vec<char>)>)
    requires
        cs@.len() == en@.len(),
    ensures
        run_views(r@) == font_runs(cs@, en@),
{
    let mut runs: Vec<(bool, Vec<char>)> = Vec::new();
    let n = cs.len();
    let mut i: usize = 0;
    while i < n
        invariant
            n == cs@.len(),
            n == en@.len(),
            i <= n,
            run_views(runs@) == font_runs(cs@.take(i as int), en@.take(i as int)),
        decreases n - i,
    {
        proof {
            assert(cs@.take(i + 1).drop_last() =~= cs@.take(i as int));
            assert(en@.take(i + 1).drop_last() =~= en@.take(i as int));
            assert(cs@.take(i + 1).last() == cs@[i as int]);
            assert(en@.take(i + 1).last() == en@[i as int]);
        }
        let c = cs[i];
        let f = en[i];
        let k = runs.len();
        let ghost before = runs@;
        if k > 0 && runs[k - 1].0 == f {
            let (lf, mut text) = runs.pop().unwrap();
            text.push(c);
            runs.push((lf, text));
            proof {
                assert(run_views(runs@) =~= run_views(before).update(k - 1, (f, run_views(before)[k - 1].1.push(c))));
            }
        } else {
            let mut text: Vec<char> = Vec::new();
            text.push(c);
            runs.push((f, text));
            proof {
                assert(run_views(runs@) =~= run_views(before).push((f, seq![c])));
            }
        }
        i += 1;
    }
    proof {
        assert(cs@.take(n as int) =~= cs@);
        assert(en@.take(n as int) =~= en@);
    }
    runs
}

} // verus!
