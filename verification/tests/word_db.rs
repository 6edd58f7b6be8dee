use binglish::word_db::{WordBook, WordDbInner, WordEntry};

fn entry(w: &str) -> WordEntry {
    WordEntry {
        word: w.to_string(),
        phonetic: format!("{}-ph", w),
        trans: format!("{}-tr", w),
        sentence_en: String::new(),
        sentence_cn: String::new(),
    }
}

fn book(ws: &[&str]) -> Vec<WordEntry> {
    ws.iter().map(|w| entry(w)).collect()
}

fn db() -> WordDbInner {
    WordDbInner::new(vec![book(&["a", "b", "c", "d", "e"]), book(&["x", "y", "b"]), vec![]])
}

fn words(v: &[WordEntry]) -> Vec<String> {
    v.iter().map(|e| e.word.clone()).collect()
}

#[test]
fn book_labels_and_positions() {
    assert_eq!(WordBook::Cet4Cet6.label(), "四六级");
    assert_eq!(WordBook::Toefl.label(), "托福");
    assert_eq!(WordBook::Ielts.label(), "雅思");
    assert_eq!(WordBook::Gre.label(), "GRE");
    assert_eq!(WordBook::Kaoyan.label(), "考研");
    for (i, b) in WordBook::all().iter().enumerate() {
        assert_eq!(b.index(), i);
        assert_eq!(WordBook::from_index(i), *b);
    }
    assert_eq!(WordBook::all().len(), 5);
    assert_eq!(WordBook::from_index(9), WordBook::Cet4Cet6);
}

#[test]
fn pages_of_the_active_book() {
    let d = db();
    assert_eq!(d.total_words(), 5);
    assert_eq!(words(&d.get_page(0, 2)), vec!["a", "b"]);
    assert_eq!(words(&d.get_page(1, 2)), vec!["c", "d"]);
    assert_eq!(words(&d.get_page(2, 2)), vec!["e"]);
    assert!(d.get_page(3, 2).is_empty());
}

#[test]
fn switching_books() {
    let mut d = db();
    d.set_active_book(1);
    assert_eq!(d.active_book_index(), 1);
    assert_eq!(d.total_words(), 3);
    d.set_active_book(7);
    assert_eq!(d.active_book_index(), 1);
    d.set_active_book(2);
    assert_eq!(d.total_words(), 0);
    assert!(d.random_word().is_none());
}

#[test]
fn sequential_words_of_any_book() {
    let d = db();
    assert_eq!(words(&d.get_sequential_words(0, 3, 5)), vec!["d", "e"]);
    assert_eq!(words(&d.get_sequential_words(1, 0, 2)), vec!["x", "y"]);
    assert!(d.get_sequential_words(1, 3, 2).is_empty());
    assert!(d.get_sequential_words(5, 0, 2).is_empty());
    assert_eq!(d.book_total_words(0), 5);
    assert_eq!(d.book_total_words(1), 3);
    assert_eq!(d.book_total_words(4), 0);
}

#[test]
fn find_word_searches_books_in_order() {
    let d = db();
    let e = d.find_word("b").unwrap();
    assert_eq!(e.phonetic, "b-ph");
    assert_eq!(d.find_word("y").unwrap().word, "y");
    assert!(d.find_word("zzz").is_none());
}

#[test]
fn random_word_comes_from_the_active_book() {
    let d = db();
    for _ in 0..20 {
        let w = d.random_word().unwrap();
        assert!(["a", "b", "c", "d", "e"].contains(&w.word.as_str()));
    }
}
