use binglish::text_renderer::{card_texts, word_card};
use binglish::word_db::WordEntry;

fn entry(w: &str, ph: &str, tr: &str, en: &str, cn: &str) -> WordEntry {
    WordEntry {
        word: w.to_string(),
        phonetic: ph.to_string(),
        trans: tr.to_string(),
        sentence_en: en.to_string(),
        sentence_cn: cn.to_string(),
    }
}

#[test]
fn card_with_all_parts() {
    let c = word_card(&entry("apple", "ˈæpl", "n. 苹果", "An apple a day.", "一天一苹果。"));
    assert_eq!(c.word, "apple");
    assert_eq!(c.desc.as_deref(), Some("/ˈæpl/ n. 苹果"));
    assert_eq!(c.sentence_en.as_deref(), Some("An apple a day."));
    assert_eq!(c.sentence_cn.as_deref(), Some("一天一苹果。"));
    assert_eq!(card_texts(&c), vec!["apple /ˈæpl/ n. 苹果", "An apple a day.", "一天一苹果。"]);
}

#[test]
fn card_leaves_out_empty_parts() {
    let c = word_card(&entry("go", "", "v. 去", "", ""));
    assert_eq!(c.desc.as_deref(), Some("v. 去"));
    assert_eq!(c.sentence_en, None);
    assert_eq!(c.sentence_cn, None);
    assert_eq!(card_texts(&c), vec!["go v. 去"]);
    let bare = word_card(&entry("x", "", "", "", "cn"));
    assert_eq!(bare.desc, None);
    assert_eq!(card_texts(&bare), vec!["x", "cn"]);
}
