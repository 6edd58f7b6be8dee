use binglish::review_store::{
    DailyStats, LearningConfig, LearningData, LearningRecord, ReviewResult, ReviewStoreInner, stage_interval,
};

fn s(x: &str) -> String {
    x.to_string()
}

fn store() -> ReviewStoreInner {
    ReviewStoreInner::new(LearningData::default())
}

fn record<'a>(st: &'a mut ReviewStoreInner, w: &str) -> LearningRecord {
    st.data_mut().records.iter().find(|r| r.word == w).unwrap().clone()
}

const NOW: i64 = 1_700_000_000_000;

#[test]
fn stage_intervals_follow_the_forgetting_curve() {
    let expected = [
        300_000i64, 1_800_000, 43_200_000, 86_400_000, 172_800_000, 345_600_000, 604_800_000, 1_296_000_000,
        2_592_000_000,
    ];
    for (i, e) in expected.iter().enumerate() {
        assert_eq!(stage_interval(i as u8), *e);
    }
}

#[test]
fn default_config_and_data() {
    let c = LearningConfig::default();
    assert_eq!(c.daily_new_limit, 20);
    assert_eq!(c.active_book, 0);
    assert!(c.book_progress.is_empty());
    let d = LearningData::default();
    assert!(d.records.is_empty());
    assert!(d.daily_stats.is_empty());
    assert_eq!(d.streak_last_date, None);
    assert_eq!(d.streak_count, 0);
}

#[test]
fn add_word_creates_a_fresh_record() {
    let mut st = store();
    assert!(st.add_word_at(s("apple"), NOW, &s("2024-01-05")));
    let r = record(&mut st, "apple");
    assert_eq!(r.stage, 0);
    assert_eq!(r.next_review_at, NOW + 300_000);
    assert_eq!(r.last_reviewed_at, NOW);
    assert_eq!(r.added_at, NOW);
    assert_eq!(r.review_count, 0);
    assert_eq!(r.correct_count, 0);
    assert!(!r.is_mastered);
    let d = st.data_mut();
    assert_eq!(d.daily_stats.len(), 1);
    assert_eq!(d.daily_stats[0].date, "2024-01-05");
    assert_eq!(d.daily_stats[0].words_added, 1);
    assert!(st.is_word_in_learning("apple"));
}

#[test]
fn adding_a_known_word_changes_nothing() {
    let mut st = store();
    assert!(st.add_word_at(s("apple"), NOW, &s("2024-01-05")));
    assert!(!st.add_word_at(s("apple"), NOW + 5, &s("2024-01-06")));
    let d = st.data_mut();
    assert_eq!(d.records.len(), 1);
    assert_eq!(d.records[0].added_at, NOW);
    assert_eq!(d.daily_stats.len(), 1);
    assert_eq!(d.daily_stats[0].words_added, 1);
}

#[test]
fn batch_skips_known_and_repeated_words() {
    let mut st = store();
    st.add_word_at(s("apple"), NOW, &s("2024-01-05"));
    let n = st.add_words_batch_at(vec![s("apple"), s("pear"), s("plum"), s("pear")], NOW, &s("2024-01-05"));
    assert_eq!(n, 2);
    let d = st.data_mut();
    let words: Vec<&str> = d.records.iter().map(|r| r.word.as_str()).collect();
    assert_eq!(words, vec!["apple", "pear", "plum"]);
    assert_eq!(d.daily_stats.len(), 1);
    assert_eq!(d.daily_stats[0].words_added, 3);
}

#[test]
fn empty_batch_touches_no_statistics() {
    let mut st = store();
    assert_eq!(st.add_words_batch_at(vec![], NOW, &s("2024-01-05")), 0);
    assert!(st.data_mut().daily_stats.is_empty());
}

#[test]
fn remove_word_reports_presence() {
    let mut st = store();
    st.add_words_batch_at(vec![s("a"), s("b"), s("c")], NOW, &s("2024-01-05"));
    assert!(st.remove_word("b"));
    assert!(!st.is_word_in_learning("b"));
    assert!(st.is_word_in_learning("a"));
    assert!(st.is_word_in_learning("c"));
    assert!(!st.remove_word("b"));
    assert_eq!(st.data_mut().records.len(), 2);
}

#[test]
fn remembered_moves_one_stage_up() {
    let mut st = store();
    st.add_word_at(s("apple"), NOW, &s("2024-01-05"));
    st.submit_review_at("apple", ReviewResult::Remembered, NOW + 1000, &s("2024-01-05"));
    let r = record(&mut st, "apple");
    assert_eq!(r.stage, 1);
    assert_eq!(r.next_review_at, NOW + 1000 + 1_800_000);
    assert_eq!(r.last_reviewed_at, NOW + 1000);
    assert_eq!(r.review_count, 1);
    assert_eq!(r.correct_count, 1);
    let d = st.data_mut();
    assert_eq!(d.daily_stats.len(), 1);
    assert_eq!(d.daily_stats[0].reviews_done, 1);
    assert_eq!(d.daily_stats[0].correct, 1);
    assert_eq!(d.streak_count, 1);
    assert_eq!(d.streak_last_date, Some(s("2024-01-05")));
}

#[test]
fn fuzzy_and_forgot_move_back() {
    let mut st = store();
    st.add_word_at(s("apple"), NOW, &s("2024-01-05"));
    st.submit_review_at("apple", ReviewResult::Fuzzy, NOW, &s("2024-01-05"));
    let r = record(&mut st, "apple");
    assert_eq!(r.stage, 0);
    assert_eq!(r.next_review_at, NOW + 300_000);
    assert_eq!(r.correct_count, 0);
    st.data_mut().records[0].stage = 5;
    st.submit_review_at("apple", ReviewResult::Forgot, NOW, &s("2024-01-05"));
    let r = record(&mut st, "apple");
    assert_eq!(r.stage, 2);
    assert_eq!(r.next_review_at, NOW + 43_200_000);
    assert_eq!(r.review_count, 2);
    st.submit_review_at("apple", ReviewResult::Fuzzy, NOW, &s("2024-01-05"));
    assert_eq!(record(&mut st, "apple").stage, 1);
    st.submit_review_at("apple", ReviewResult::Forgot, NOW, &s("2024-01-05"));
    assert_eq!(record(&mut st, "apple").stage, 0);
    let d = st.data_mut();
    assert_eq!(d.daily_stats[0].reviews_done, 4);
    assert_eq!(d.daily_stats[0].correct, 0);
}

#[test]
fn remembered_at_last_stage_masters() {
    let mut st = store();
    st.add_word_at(s("apple"), NOW, &s("2024-01-05"));
    st.data_mut().records[0].stage = 8;
    st.submit_review_at("apple", ReviewResult::Remembered, NOW, &s("2024-01-05"));
    let r = record(&mut st, "apple");
    assert!(r.is_mastered);
    assert_eq!(r.stage, 8);
    assert_eq!(r.next_review_at, i64::MAX);
    assert_eq!(st.data_mut().daily_stats[0].words_mastered, 1);
    assert_eq!(st.get_due_count_at(i64::MAX), 0);
}

#[test]
fn review_of_unknown_word_is_ignored() {
    let mut st = store();
    st.submit_review_at("ghost", ReviewResult::Remembered, NOW, &s("2024-01-05"));
    let d = st.data_mut();
    assert!(d.daily_stats.is_empty());
    assert_eq!(d.streak_count, 0);
    assert_eq!(d.streak_last_date, None);
}

#[test]
fn streak_grows_on_consecutive_days_and_restarts_after_a_break() {
    let mut st = store();
    st.add_word_at(s("apple"), NOW, &s("2023-12-30"));
    st.submit_review_at("apple", ReviewResult::Fuzzy, NOW, &s("2023-12-30"));
    assert_eq!(st.data_mut().streak_count, 1);
    st.submit_review_at("apple", ReviewResult::Fuzzy, NOW, &s("2023-12-30"));
    assert_eq!(st.data_mut().streak_count, 1);
    st.submit_review_at("apple", ReviewResult::Fuzzy, NOW, &s("2023-12-31"));
    assert_eq!(st.data_mut().streak_count, 2);
    st.submit_review_at("apple", ReviewResult::Fuzzy, NOW, &s("2024-01-01"));
    assert_eq!(st.data_mut().streak_count, 3);
    st.submit_review_at("apple", ReviewResult::Fuzzy, NOW, &s("2024-01-05"));
    assert_eq!(st.data_mut().streak_count, 1);
    assert_eq!(st.data_mut().streak_last_date, Some(s("2024-01-05")));
}

#[test]
fn unreadable_last_study_day_keeps_the_streak() {
    let mut st = store();
    st.add_word_at(s("apple"), NOW, &s("2024-01-05"));
    st.data_mut().streak_last_date = Some(s("not a date"));
    st.data_mut().streak_count = 7;
    st.submit_review_at("apple", ReviewResult::Remembered, NOW, &s("2024-01-05"));
    assert_eq!(st.data_mut().streak_count, 7);
    assert_eq!(st.data_mut().streak_last_date, Some(s("2024-01-05")));
}

#[test]
fn statistics_keep_thirty_days() {
    let mut st = store();
    for day in 1..=31 {
        let date = format!("2024-01-{:02}", day);
        st.add_word_at(format!("w{}", day), NOW, &date);
    }
    let d = st.data_mut();
    assert_eq!(d.daily_stats.len(), 30);
    assert_eq!(d.daily_stats[0].date, "2024-01-02");
    assert_eq!(d.daily_stats[29].date, "2024-01-31");
}

#[test]
fn due_words_and_count_agree() {
    let mut st = store();
    st.add_words_batch_at(vec![s("a"), s("b"), s("c")], NOW, &s("2024-01-05"));
    st.data_mut().records[1].next_review_at = NOW + 10_000_000;
    st.data_mut().records[2].is_mastered = true;
    st.data_mut().records[2].next_review_at = 0;
    let due = st.get_due_words_at(NOW + 300_000);
    assert_eq!(due.len(), 1);
    assert_eq!(due[0].word, "a");
    assert_eq!(st.get_due_count_at(NOW + 300_000), 1);
    assert_eq!(st.get_due_count_at(NOW), 0);
    assert_eq!(st.get_due_count_at(NOW + 10_000_000), 2);
}

#[test]
fn learning_word_filters() {
    let mut st = store();
    st.add_words_batch_at(vec![s("a"), s("b"), s("c")], NOW, &s("2024-01-05"));
    st.data_mut().records[2].is_mastered = true;
    st.data_mut().records[1].next_review_at = NOW + 10_000_000;
    let names = |v: Vec<LearningRecord>| v.into_iter().map(|r| r.word).collect::<Vec<_>>();
    assert_eq!(names(st.get_learning_words_at("mastered", NOW)), vec!["c"]);
    assert_eq!(names(st.get_learning_words_at("in_progress", NOW)), vec!["a", "b"]);
    assert_eq!(names(st.get_learning_words_at("due", NOW + 300_000)), vec!["a"]);
    assert_eq!(names(st.get_learning_words_at("all", NOW)), vec!["a", "b", "c"]);
    assert_eq!(names(st.get_learning_words_at("", NOW)), vec!["a", "b", "c"]);
}

#[test]
fn today_new_count_reads_todays_entry() {
    let mut st = store();
    st.add_words_batch_at(vec![s("a"), s("b")], NOW, &s("2024-01-05"));
    st.add_word_at(s("c"), NOW, &s("2024-01-06"));
    assert_eq!(st.get_today_new_count_at(&s("2024-01-05")), 2);
    assert_eq!(st.get_today_new_count_at(&s("2024-01-06")), 1);
    assert_eq!(st.get_today_new_count_at(&s("2024-01-07")), 0);
}

#[test]
fn stats_summarise_the_store() {
    let mut st = store();
    st.add_words_batch_at(vec![s("a"), s("b"), s("c"), s("d")], NOW, &s("2024-01-05"));
    st.data_mut().records[3].stage = 8;
    st.submit_review_at("d", ReviewResult::Remembered, NOW, &s("2024-01-05"));
    st.submit_review_at("a", ReviewResult::Forgot, NOW, &s("2024-01-05"));
    let stats = st.get_stats_at(&s("2024-01-05"), NOW + 300_000);
    assert_eq!(stats.total, 4);
    assert_eq!(stats.mastered, 1);
    assert_eq!(stats.in_progress, 3);
    assert_eq!(stats.due_today, 3);
    assert_eq!(stats.streak, 1);
    assert_eq!(stats.today_reviews, 2);
    assert_eq!(stats.today_correct, 1);
    assert_eq!(stats.daily_stats.len(), 1);
    let other = st.get_stats_at(&s("2024-01-06"), NOW);
    assert_eq!(other.today_reviews, 0);
    assert_eq!(other.today_correct, 0);
}

#[test]
fn settings_read_back_what_was_written() {
    let mut st = store();
    assert_eq!(st.get_daily_limit(), 20);
    st.set_daily_limit(35);
    assert_eq!(st.get_daily_limit(), 35);
    assert_eq!(st.get_active_book(), 0);
    st.set_active_book(3);
    assert_eq!(st.get_active_book(), 3);
    assert_eq!(st.get_book_progress(3), 0);
    st.advance_book_progress(3, 12);
    st.advance_book_progress(3, 8);
    assert_eq!(st.get_book_progress(3), 20);
    assert_eq!(st.get_book_progress(2), 0);
    let c = st.get_learning_config();
    assert_eq!(c.daily_new_limit, 35);
    assert_eq!(c.active_book, 3);
    assert_eq!(c.book_progress.get(&3), Some(&20));
}

#[test]
fn clock_reading_operations_work_now() {
    let mut st = store();
    assert!(st.add_word(s("apple")));
    assert!(!st.add_word(s("apple")));
    assert_eq!(st.add_words_batch(vec![s("pear"), s("apple")]), 1);
    assert_eq!(st.get_today_new_count(), 2);
    assert_eq!(st.get_due_count(), 0);
    assert!(st.get_due_words().is_empty());
    st.submit_review("apple", ReviewResult::Remembered);
    let r = record(&mut st, "apple");
    assert_eq!(r.stage, 1);
    assert_eq!(r.review_count, 1);
    assert_eq!(st.get_learning_words("in_progress").len(), 2);
    let stats = st.get_stats();
    assert_eq!(stats.total, 2);
    assert_eq!(stats.today_reviews, 1);
    assert_eq!(stats.streak, 1);
}

#[test]
fn daily_stats_clone_keeps_fields() {
    let d = DailyStats { date: s("2024-01-05"), reviews_done: 3, correct: 2, words_added: 1, words_mastered: 0 };
    let c = d.clone();
    assert_eq!(c.date, "2024-01-05");
    assert_eq!((c.reviews_done, c.correct, c.words_added, c.words_mastered), (3, 2, 1, 0));
}

#[test]
fn today_new_count_grows_by_each_batch() {
    let mut st = store();
    let today = s("2024-03-01");
    st.data_mut().daily_stats.push(DailyStats {
        date: s("2024-02-29"),
        reviews_done: 4,
        correct: 1,
        words_added: 7,
        words_mastered: 0,
    });
    let before = st.get_today_new_count_at(&today);
    assert_eq!(before, 0);
    let n = st.add_words_batch_at(vec![s("a"), s("b"), s("a")], NOW, &today);
    assert_eq!(n, 2);
    assert_eq!(st.get_today_new_count_at(&today), before + 2);
    let m = st.add_words_batch_at(vec![s("b"), s("c")], NOW, &today);
    assert_eq!(m, 1);
    assert_eq!(st.get_today_new_count_at(&today), 3);
    assert!(st.add_word_at(s("d"), NOW, &today));
    assert_eq!(st.get_today_new_count_at(&today), 4);
    assert!(!st.add_word_at(s("d"), NOW, &today));
    assert_eq!(st.get_today_new_count_at(&today), 4);
    assert_eq!(st.get_today_new_count_at(&s("2024-02-29")), 7);
}

#[test]
fn reviews_keep_counts_consistent() {
    let mut st = store();
    let today = s("2024-03-01");
    st.add_words_batch_at(vec![s("a"), s("b")], NOW, &today);
    let answers = [
        ReviewResult::Remembered,
        ReviewResult::Forgot,
        ReviewResult::Remembered,
        ReviewResult::Fuzzy,
        ReviewResult::Remembered,
        ReviewResult::Remembered,
    ];
    for (k, a) in answers.iter().enumerate() {
        let w = if k % 2 == 0 { "a" } else { "b" };
        st.submit_review_at(w, *a, NOW + k as i64, &today);
        let d = &st.data_mut().daily_stats;
        let last = d.last().unwrap();
        assert!(last.correct <= last.reviews_done);
        for r in st.data_mut().records.iter() {
            assert!(r.stage <= 8);
            assert!(r.correct_count <= r.review_count);
        }
    }
    let last = st.data_mut().daily_stats.last().unwrap().clone();
    assert_eq!(last.reviews_done, 6);
    assert_eq!(last.correct, 4);
    assert_eq!(record(&mut st, "a").stage, 3);
    assert_eq!(record(&mut st, "b").stage, 1);
}

#[test]
fn batch_is_refused_only_when_its_new_words_overflow() {
    let mut st = store();
    let today = chrono::Local::now().date_naive().format("%Y-%m-%d").to_string();
    st.data_mut().daily_stats.push(DailyStats {
        date: today.clone(),
        reviews_done: 0,
        correct: 0,
        words_added: u32::MAX - 1,
        words_mastered: 0,
    });
    assert_eq!(st.add_words_batch(vec![s("a"), s("a")]), 1);
    assert_eq!(st.get_today_new_count_at(&today), u32::MAX);
    assert_eq!(st.add_words_batch(vec![s("a")]), 0);
    assert_eq!(st.add_words_batch(vec![s("b"), s("c")]), 0);
    assert_eq!(st.data_mut().records.len(), 1);
}

#[test]
fn adding_then_removing_restores_the_records() {
    let mut st = store();
    let today = s("2024-03-01");
    st.add_words_batch_at(vec![s("a"), s("b")], NOW, &today);
    let before: Vec<String> = st.data_mut().records.iter().map(|r| r.word.clone()).collect();
    assert!(st.add_word_at(s("c"), NOW + 1, &today));
    assert!(st.remove_word("c"));
    let after: Vec<String> = st.data_mut().records.iter().map(|r| r.word.clone()).collect();
    assert_eq!(after, before);
    assert!(!st.is_word_in_learning("c"));
    assert_eq!(st.get_today_new_count_at(&today), 3);
}
