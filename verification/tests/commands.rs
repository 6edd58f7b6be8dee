use binglish::commands::games::game_data;
use binglish::commands::history::{history_events, history_url};
use binglish::commands::review::{
    commit_new_words, commit_new_words_at, get_book_info, get_new_words, review_result_from_str, set_learning_book,
    submit_review,
};
use binglish::commands::system::{covers_screen, useless_fact};
use binglish::commands::wallpaper::{
    bing_image_url, check_image_size, custom_base_name, get_word_page, names_with_prefix, screen_size_from,
    shorten_trans, wallpaper_source, WallpaperSource,
};
use binglish::review_store::{LearningData, ReviewResult, ReviewStoreInner};
use binglish::state::WallpaperMode;
use binglish::word_db::{WordDbInner, WordEntry};

fn s(x: &str) -> String {
    x.to_string()
}

fn entry(w: &str, trans: &str) -> WordEntry {
    WordEntry { word: s(w), phonetic: format!("{}ph", w), trans: s(trans), sentence_en: s(""), sentence_cn: s("") }
}

fn db(n: usize) -> WordDbInner {
    let book: Vec<WordEntry> = (0..n).map(|i| entry(&format!("w{}", i), "t")).collect();
    WordDbInner::new(vec![book, vec![entry("x", "t")], vec![], vec![], vec![]])
}

#[test]
fn review_results_by_name() {
    assert_eq!(review_result_from_str("remembered"), ReviewResult::Remembered);
    assert_eq!(review_result_from_str("fuzzy"), ReviewResult::Fuzzy);
    assert_eq!(review_result_from_str("forgot"), ReviewResult::Forgot);
    assert_eq!(review_result_from_str("whatever"), ReviewResult::Forgot);
}

#[test]
fn shortened_translations() {
    assert_eq!(shorten_trans("n. 苹果（水果）；苹果树"), "n. 苹果；苹果树");
    assert_eq!(shorten_trans(" n. 苹果(fruit) ; v. 吃，喝，咬 ; adj. 多余"), "n. 苹果; v. 吃，喝");
    assert_eq!(shorten_trans("a，b，c"), "a，b");
    assert_eq!(shorten_trans("a，b"), "a，b");
    assert_eq!(shorten_trans("(only note)"), "");
    assert_eq!(shorten_trans(""), "");
    assert_eq!(shorten_trans("x) y (z"), "x y z");
    assert_eq!(shorten_trans("a((b)c)d"), "ad");
}

#[test]
fn word_pages() {
    let d = db(12);
    let p = get_word_page(&d, 0, 0);
    assert_eq!(p.total_pages, 3);
    assert_eq!(p.current_page, 0);
    assert_eq!(p.words.len(), 5);
    assert_eq!(p.words[0].word, "w0");
    assert_eq!(p.words[0].phonetic, "w0ph");
    assert_eq!(p.words[0].trans, "t");
    let last = get_word_page(&d, 9, 5);
    assert_eq!(last.current_page, 2);
    assert_eq!(last.words.len(), 2);
    assert_eq!(last.words[1].word, "w11");
    let empty = get_word_page(&db(0), 3, 4);
    assert_eq!(empty.total_pages, 0);
    assert_eq!(empty.current_page, 0);
    assert!(empty.words.is_empty());
}

#[test]
fn new_words_skip_words_under_study() {
    let d = db(10);
    let mut st = ReviewStoreInner::new(LearningData::default());
    st.add_words_batch_at(vec![s("w1"), s("w3")], 0, &s("2024-01-05"));
    let picked: Vec<String> = get_new_words(&st, &d, 2).into_iter().map(|e| e.word).collect();
    assert_eq!(picked, vec!["w0", "w2"]);
    st.advance_book_progress(0, 8);
    let picked: Vec<String> = get_new_words(&st, &d, 3).into_iter().map(|e| e.word).collect();
    assert_eq!(picked, vec!["w8", "w9"]);
    st.set_active_book(7);
    assert!(get_new_words(&st, &d, 3).is_empty());
}

#[test]
fn committing_new_words_moves_progress_up_to_the_end() {
    let d = db(3);
    let mut st = ReviewStoreInner::new(LearningData::default());
    let n = commit_new_words_at(&mut st, &d, vec![s("w0"), s("w1")], 0, &s("2024-01-05"));
    assert_eq!(n, 2);
    assert_eq!(st.get_book_progress(0), 2);
    let n = commit_new_words_at(&mut st, &d, vec![s("w1"), s("w2"), s("zz")], 0, &s("2024-01-05"));
    assert_eq!(n, 2);
    assert_eq!(st.get_book_progress(0), 3);
    let n = commit_new_words_at(&mut st, &d, vec![s("w2")], 0, &s("2024-01-05"));
    assert_eq!(n, 0);
    assert_eq!(st.get_book_progress(0), 3);
    assert_eq!(commit_new_words(&mut st, &d, vec![s("fresh")]), 1);
    assert_eq!(st.get_book_progress(0), 3);
}

#[test]
fn book_info_lists_five_books() {
    let d = db(4);
    let info = get_book_info(&d);
    assert_eq!(info.len(), 5);
    assert_eq!((info[0].index, info[0].label.as_str(), info[0].total), (0, "四六级", 4));
    assert_eq!((info[1].index, info[1].label.as_str(), info[1].total), (1, "托福", 1));
    assert_eq!(info[4].label, "考研");
}

#[test]
fn learning_book_is_set_in_both_places() {
    let mut d = db(4);
    let mut st = ReviewStoreInner::new(LearningData::default());
    set_learning_book(&mut st, &mut d, 1);
    assert_eq!(st.get_active_book(), 1);
    assert_eq!(d.active_book_index(), 1);
    set_learning_book(&mut st, &mut d, 9);
    assert_eq!(st.get_active_book(), 9);
    assert_eq!(d.active_book_index(), 1);
}

#[test]
fn bing_addresses() {
    assert_eq!(
        bing_image_url("/th?id=OHR.X_1920x1080.jpg", 2560, 1440),
        "https://www.bing.com/th?id=OHR.X_2560x1440.jpg"
    );
    assert_eq!(bing_image_url("http://a/1920x10801920x1080", 1, 2), "http://a/1x21x2");
    assert_eq!(bing_image_url("", 1, 2), "https://www.bing.com");
}

#[test]
fn wallpaper_sources() {
    assert!(matches!(wallpaper_source(WallpaperMode::Normal, None, false), Ok(WallpaperSource::Download)));
    match wallpaper_source(WallpaperMode::Custom, Some(s("/p.jpg")), true) {
        Ok(WallpaperSource::Custom { path }) => assert_eq!(path, "/p.jpg"),
        _ => panic!("expected the custom picture"),
    }
    assert_eq!(wallpaper_source(WallpaperMode::Custom, Some(s("/p.jpg")), false).err(), Some(s("Custom image not found")));
    assert_eq!(wallpaper_source(WallpaperMode::Custom, None, true).err(), Some(s("Custom image not found")));
}

#[test]
fn image_size_threshold() {
    assert!(check_image_size(10000).is_ok());
    assert_eq!(check_image_size(9999), Err(s("Image too small, likely not a valid image")));
}

#[test]
fn screen_sizes() {
    assert_eq!(screen_size_from(&vec![(1920, 1080), (2560, 1440), (3840, 1000)]), (3840, 1440));
    assert_eq!(screen_size_from(&vec![]), (2560, 1600));
    assert_eq!(screen_size_from(&vec![(0, 900)]), (2560, 1600));
}

#[test]
fn prefixed_names_and_custom_names() {
    let names = vec![s("custom_base.png"), s("wallpaper.jpg"), s("custom_base.jpg"), s("custom")];
    assert_eq!(names_with_prefix(&names, "custom_base."), vec![s("custom_base.png"), s("custom_base.jpg")]);
    assert_eq!(custom_base_name(Some("png")), "custom_base.png");
    assert_eq!(custom_base_name(None), "custom_base.jpg");
}

#[test]
fn games_from_service_fields() {
    let g = game_data(Some((Some(s("Hi there")), None)), Some((Some(s("crane")), Some(s("a bird")))));
    let sh = g.shuffle.unwrap();
    assert_eq!((sh.en.as_str(), sh.cn.as_str()), ("Hi there", ""));
    let w = g.wordle.unwrap();
    assert_eq!(w.word, "crane");
    assert_eq!(w.hint, Some(s("a bird")));
    let none = game_data(None, Some((None, None)));
    assert!(none.shuffle.is_none());
    assert_eq!(none.wordle.as_ref().unwrap().word, "");
    assert_eq!(none.wordle.unwrap().hint, None);
}

#[test]
fn history_keeps_complete_items() {
    let items = vec![
        (Some(s("1969")), Some(s("Moon")), Some(s("登月"))),
        (Some(s("1970")), None, Some(s("x"))),
        (Some(s("2000")), Some(s("Y2K")), Some(s("千年虫"))),
    ];
    let ev = history_events(items);
    assert_eq!(ev.len(), 2);
    assert_eq!((ev[0].year.as_str(), ev[0].en.as_str(), ev[0].cn.as_str()), ("1969", "Moon", "登月"));
    assert_eq!(ev[1].year, "2000");
    assert_eq!(history_url("07/20"), "https://ss.blueforge.org/getHistory?date=07/20");
}

#[test]
fn trivia_and_full_screen() {
    let f = useless_fact(Some(s("fact")), None);
    assert_eq!((f.en.as_str(), f.cn.as_str()), ("fact", ""));
    assert!(covers_screen(0, 0, 1920, 1080, 1920, 1080));
    assert!(covers_screen(-8, -8, 1928, 1088, 1920, 1080));
    assert!(!covers_screen(0, 0, 1919, 1080, 1920, 1080));
}

#[test]
fn review_answers_by_name_reach_the_store() {
    let mut st = ReviewStoreInner::new(LearningData::default());
    for w in ["a", "b", "c", "d", "e"] {
        assert!(st.add_word(s(w)));
    }
    let reviewed = |st: &mut ReviewStoreInner, w: &str| st.data_mut().records.iter().find(|r| r.word == w).unwrap().clone();
    submit_review(&mut st, "a", "remembered");
    submit_review(&mut st, "b", "fuzzy");
    submit_review(&mut st, "c", "Remembered");
    submit_review(&mut st, "d", "FUZZY");
    submit_review(&mut st, "e", "");
    assert_eq!(reviewed(&mut st, "a").stage, 1);
    assert_eq!(reviewed(&mut st, "a").correct_count, 1);
    for w in ["b", "c", "d", "e"] {
        let r = reviewed(&mut st, w);
        assert_eq!(r.stage, 0);
        assert_eq!(r.review_count, 1);
        assert_eq!(r.correct_count, 0);
    }
    let before = st.data_mut().records.len();
    submit_review(&mut st, "zzz", "remembered");
    assert_eq!(st.data_mut().records.len(), before);
    let last = st.data_mut().daily_stats.last().unwrap().clone();
    assert_eq!(last.reviews_done, 5);
    assert_eq!(last.correct, 1);
}
