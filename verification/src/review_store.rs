//! The spaced-repetition review store: learning records, their review
//! schedule on the forgetting-curve intervals, daily statistics and the
//! study streak.
use vstd::prelude::*;
use std::collections::HashMap;
use crate::clock::{clock_reading, local_date_string, now_millis, parse_ymd_day, ymd_day_number};

verus! {

broadcast use vstd::std_specs::hash::group_hash_axioms, vstd::string::group_string_axioms;

// ---------------------------------------------------------------------------
// The review schedule
// ---------------------------------------------------------------------------

/// The highest review stage; a word remembered at this stage is mastered.
pub open spec fn last_stage() -> int {
    8
}

/// Milliseconds until the next review for a word at `stage` (5 min, 30 min,
/// 12 h, 1, 2, 4, 7, 15 and 30 days); 0 outside the schedule.
pub open spec fn interval_ms(stage: int) -> int {
    if stage == 0 {
        300_000
    } else if stage == 1 {
        1_800_000
    } else if stage == 2 {
        43_200_000
    } else if stage == 3 {
        86_400_000
    } else if stage == 4 {
        172_800_000
    } else if stage == 5 {
        345_600_000
    } else if stage == 6 {
        604_800_000
    } else if stage == 7 {
        1_296_000_000
    } else if stage == 8 {
        2_592_000_000
    } else {
        0
    }
}

/// The longest interval of the schedule.
pub open spec fn max_interval_ms() -> int {
    2_592_000_000
}

/// The interval of a stage of the schedule.
pub fn stage_interval(stage: u8) -> (r: i64)
    requires
        stage <= 8,
    ensures
        r == interval_ms(stage as int),
        0 < r <= max_interval_ms(),
{
    match stage {
        0 => 300_000,
        1 => 1_800_000,
        2 => 43_200_000,
        3 => 86_400_000,
        4 => 172_800_000,
        5 => 345_600_000,
        6 => 604_800_000,
        7 => 1_296_000_000,
        _ => 2_592_000_000,
    }
}

/// How a learner answered a review.
#[derive(Debug, Clone, Copy, PartialEq, Eq, Structural)]
pub enum ReviewResult {
    Remembered,
    Fuzzy,
    Forgot,
}

/// One word under study.
#[derive(Debug)]
pub struct LearningRecord {
    pub word: String,
    pub stage: u8,
    pub next_review_at: i64,
    pub last_reviewed_at: i64,
    pub added_at: i64,
    pub review_count: u32,
    pub correct_count: u32,
    pub is_mastered: bool,
}

impl Clone for LearningRecord {
    fn clone(&self) -> (r: Self)
        ensures
            r == *self,
    {
        LearningRecord {
            word: self.word.clone(),
            stage: self.stage,
            next_review_at: self.next_review_at,
            last_reviewed_at: self.last_reviewed_at,
            added_at: self.added_at,
            review_count: self.review_count,
            correct_count: self.correct_count,
            is_mastered: self.is_mastered,
        }
    }
}

/// The statistics of one day.
#[derive(Debug)]
pub struct DailyStats {
    pub date: String,
    pub reviews_done: u32,
    pub correct: u32,
    pub words_added: u32,
    pub words_mastered: u32,
}

impl Clone for DailyStats {
    fn clone(&self) -> (r: Self)
        ensures
            r == *self,
    {
        DailyStats {
            date: self.date.clone(),
            reviews_done: self.reviews_done,
            correct: self.correct,
            words_added: self.words_added,
            words_mastered: self.words_mastered,
        }
    }
}

/// The learner's settings: the daily limit of new words, the word book in use
/// and how far into each book the learner has come.
#[derive(Debug)]
pub struct LearningConfig {
    pub daily_new_limit: u32,
    pub active_book: usize,
    pub book_progress: HashMap<usize, usize>,
}

impl Clone for LearningConfig {
    fn clone(&self) -> (r: Self)
        ensures
            r.daily_new_limit == self.daily_new_limit,
            r.active_book == self.active_book,
            r.book_progress@ == self.book_progress@,
    {
        LearningConfig {
            daily_new_limit: self.daily_new_limit,
            active_book: self.active_book,
            book_progress: self.book_progress.clone(),
        }
    }
}

impl Default for LearningConfig {
    fn default() -> (r: Self)
        ensures
            r.daily_new_limit == 20,
            r.active_book == 0,
            r.book_progress@ == Map::<usize, usize>::empty(),
    {
        LearningConfig { daily_new_limit: 20, active_book: 0, book_progress: HashMap::new() }
    }
}

/// Everything the store keeps. Each word occurs in at most one record (see
/// `ReviewStoreInner::wf`).
#[derive(Debug)]
pub struct LearningData {
    pub records: Vec<LearningRecord>,
    pub daily_stats: Vec<DailyStats>,
    pub streak_last_date: Option<String>,
    pub streak_count: u32,
    pub config: LearningConfig,
}

impl Default for LearningData {
    fn default() -> (r: Self)
        ensures
            r.records@.len() == 0,
            r.daily_stats@.len() == 0,
            r.streak_last_date is None,
            r.streak_count == 0,
            r.config.daily_new_limit == 20,
            r.config.active_book == 0,
            r.config.book_progress@ == Map::<usize, usize>::empty(),
    {
        LearningData {
            records: Vec::new(),
            daily_stats: Vec::new(),
            streak_last_date: None,
            streak_count: 0,
            config: LearningConfig::default(),
        }
    }
}

/// What the statistics page shows.
#[derive(Debug)]
pub struct LearningStatsResponse {
    pub total: u32,
    pub mastered: u32,
    pub in_progress: u32,
    pub due_today: u32,
    pub streak: u32,
    pub today_reviews: u32,
    /// Reviews answered "remembered" today; the percentage shown to the
    /// learner is computed from this and `today_reviews`.
    pub today_correct: u32,
    pub daily_stats: Vec<DailyStats>,
}

// ---------------------------------------------------------------------------
// The model
// ---------------------------------------------------------------------------

/// Some record is kept for the word `w`.
pub open spec fn has_word(recs: Seq<LearningRecord>, w: Seq<char>) -> bool {
    exists|i: int| 0 <= i < recs.len() && #[trigger] recs[i].word@ == w
}

/// `i` is the first record kept for the word `w`.
pub open spec fn first_match(recs: Seq<LearningRecord>, w: Seq<char>, i: int) -> bool {
    &&& 0 <= i < recs.len()
    &&& recs[i].word@ == w
    &&& forall|j: int| 0 <= j < i ==> #[trigger] recs[j].word@ != w
}

/// The position of the record kept for `w`, where there is one.
pub open spec fn index_of(recs: Seq<LearningRecord>, w: Seq<char>) -> int {
    choose|i: int| first_match(recs, w, i)
}

/// No word occurs in two records.
pub open spec fn words_unique(recs: Seq<LearningRecord>) -> bool {
    forall|i: int, j: int| 0 <= i < recs.len() && 0 <= j < recs.len() && i != j ==> #[trigger] recs[i].word@ != #[trigger] recs[j].word@
}

/// A record is due at `now`: not mastered, and its review time has come.
pub open spec fn is_due(r: LearningRecord, now: i64) -> bool {
    !r.is_mastered && r.next_review_at <= now
}

/// The record of a word added at `now`.
pub open spec fn new_record(word: String, now: i64) -> LearningRecord {
    LearningRecord {
        word: word,
        stage: 0,
        next_review_at: (now + interval_ms(0)) as i64,
        last_reviewed_at: now,
        added_at: now,
        review_count: 0,
        correct_count: 0,
        is_mastered: false,
    }
}

/// The stage a review moves a record to (for a word that is not mastered by it).
pub open spec fn next_stage(stage: int, result: ReviewResult) -> int {
    match result {
        ReviewResult::Remembered => stage + 1,
        ReviewResult::Fuzzy => if stage >= 1 { stage - 1 } else { 0 },
        ReviewResult::Forgot => if stage >= 3 { stage - 3 } else { 0 },
    }
}

/// The review masters the word: it was remembered at the last stage or beyond.
pub open spec fn masters(rec: LearningRecord, result: ReviewResult) -> bool {
    result == ReviewResult::Remembered && rec.stage >= last_stage()
}

/// A record after one review at `now`.
pub open spec fn reviewed(rec: LearningRecord, result: ReviewResult, now: i64) -> LearningRecord {
    let counted = LearningRecord {
        review_count: (rec.review_count + 1) as u32,
        last_reviewed_at: now,
        correct_count: if result == ReviewResult::Remembered {
            (rec.correct_count + 1) as u32
        } else {
            rec.correct_count
        },
        ..rec
    };
    if masters(rec, result) {
        LearningRecord { is_mastered: true, next_review_at: i64::MAX, ..counted }
    } else {
        let s = next_stage(rec.stage as int, result);
        LearningRecord { stage: s as u8, next_review_at: (now + interval_ms(s)) as i64, ..counted }
    }
}

/// The review of `rec` can be carried out: no counter overflows and the new
/// stage lies on the schedule.
pub open spec fn review_fits(rec: LearningRecord, result: ReviewResult, now: i64) -> bool {
    &&& rec.review_count < u32::MAX
    &&& result == ReviewResult::Remembered ==> rec.correct_count < u32::MAX
    &&& !masters(rec, result) ==> {
        &&& next_stage(rec.stage as int, result) <= last_stage()
        &&& now + interval_ms(next_stage(rec.stage as int, result)) <= i64::MAX
    }
}

/// An empty day of statistics.
pub open spec fn zero_day(today: String) -> DailyStats {
    DailyStats { date: today, reviews_done: 0, correct: 0, words_added: 0, words_mastered: 0 }
}

/// The statistics with today's entry last, keeping at most the 30 latest days.
pub open spec fn with_today(ds: Seq<DailyStats>, today: String) -> Seq<DailyStats> {
    let pushed = if ds.len() > 0 && ds.last().date@ == today@ {
        ds
    } else {
        ds.push(zero_day(today))
    };
    if pushed.len() > 30 {
        pushed.subrange(pushed.len() - 30, pushed.len() as int)
    } else {
        pushed
    }
}

/// `ds` with its last entry replaced by `d`.
pub open spec fn set_last(ds: Seq<DailyStats>, d: DailyStats) -> Seq<DailyStats> {
    ds.update(ds.len() - 1, d)
}

/// Today's statistics after `n` words were added.
pub open spec fn stats_after_adding(ds: Seq<DailyStats>, today: String, n: int) -> Seq<DailyStats> {
    let t = with_today(ds, today);
    set_last(t, DailyStats { words_added: (t.last().words_added + n) as u32, ..t.last() })
}

/// Today's statistics after one review.
pub open spec fn stats_after_review(
    ds: Seq<DailyStats>,
    today: String,
    result: ReviewResult,
    mastered: bool,
) -> Seq<DailyStats> {
    let t = with_today(ds, today);
    let l = t.last();
    set_last(
        t,
        DailyStats {
            reviews_done: (l.reviews_done + 1) as u32,
            correct: if result == ReviewResult::Remembered {
                (l.correct + 1) as u32
            } else {
                l.correct
            },
            words_mastered: if mastered {
                (l.words_mastered + 1) as u32
            } else {
                l.words_mastered
            },
            ..l
        },
    )
}

/// The streak after studying on the day numbered `today_day` (the gap in
/// days is the difference of the day numbers, as `chrono` counts the days
/// between two dates): one day after
/// the last study day it grows by one, on the same day (or where the last
/// day cannot be read as a date) it stays, after a longer gap it starts over
/// at one, and with no last day it is one.
pub open spec fn streak_next(last: Option<String>, today_day: int, count: int) -> int {
    match last {
        None => 1,
        Some(l) => match ymd_day_number(l@) {
            None => count,
            Some(ld) => if today_day - ld == 1 {
                count + 1
            } else if today_day - ld > 1 {
                1
            } else {
                count
            },
        },
    }
}


// ---------------------------------------------------------------------------
// The store
// ---------------------------------------------------------------------------

/// Finds the first record kept for `w`.
fn find_record(recs: &Vec<LearningRecord>, w: &String) -> (r: Option<usize>)
    ensures
        match r {
            Some(i) => first_match(recs@, w@, i as int),
            None => !has_word(recs@, w@),
        },
{
    let n = recs.len();
    let mut i: usize = 0;
    while i < n
        invariant
            n == recs@.len(),
            i <= n,
            forall|j: int| 0 <= j < i ==> #[trigger] recs@[j].word@ != w@,
        decreases n - i,
    {
        if recs[i].word == *w {
            return Some(i);
        }
        i += 1;
    }
    None
}

/// Some word before position `i` of `words` equals the one at `i`.
fn occurs_before(words: &Vec<String>, i: usize) -> (r: bool)
    requires
        i < words@.len(),
    ensures
        r == exists|j: int| 0 <= j < i && #[trigger] words@[j]@ == words@[i as int]@,
{
    let mut j: usize = 0;
    while j < i
        invariant
            i < words@.len(),
            j <= i,
            forall|k: int| 0 <= k < j ==> #[trigger] words@[k]@ != words@[i as int]@,
        decreases i - j,
    {
        if words[j] == words[i] {
            return true;
        }
        j += 1;
    }
    false
}

/// Finds the first entry of the statistics for `today`.
fn find_day(ds: &Vec<DailyStats>, today: &String) -> (r: Option<usize>)
    ensures
        match r {
            Some(i) => first_day(ds@, today@, i as int),
            None => !has_day(ds@, today@),
        },
{
    let n = ds.len();
    let mut i: usize = 0;
    while i < n
        invariant
            n == ds@.len(),
            i <= n,
            forall|j: int| 0 <= j < i ==> #[trigger] ds@[j].date@ != today@,
        decreases n - i,
    {
        if ds[i].date == *today {
            return Some(i);
        }
        i += 1;
    }
    None
}

/// `first_match` picks one position at most.
proof fn lemma_first_match_unique(recs: Seq<LearningRecord>, w: Seq<char>, i: int)
    requires
        first_match(recs, w, i),
    ensures
        index_of(recs, w) == i,
        has_word(recs, w),
{
    let k = index_of(recs, w);
    assert(first_match(recs, w, k));
    if k < i {
        assert(recs[k].word@ != w);
    }
    if i < k {
        assert(recs[i].word@ != w);
    }
    assert(recs[i].word@ == w);
}

/// Adding `n` words at `now` on `today` overflows no counter.
pub open spec fn add_fits(d: LearningData, now: i64, today: String, n: int) -> bool {
    &&& now + interval_ms(0) <= i64::MAX
    &&& with_today(d.daily_stats@, today).last().words_added + n <= u32::MAX
}

/// The streak fields and the settings are the same in both.
pub open spec fn same_streak_and_config(a: LearningData, b: LearningData) -> bool {
    &&& a.streak_last_date == b.streak_last_date
    &&& a.streak_count == b.streak_count
    &&& a.config == b.config
}

/// `new` is `old` after `word` was added at `now` on `today` (as its
/// `added` flag says): a new word gets a fresh record at the end and is
/// counted in today's statistics; a word already kept changes nothing.
pub open spec fn add_word_step(
    old: LearningData,
    new: LearningData,
    word: String,
    now: i64,
    today: String,
    added: bool,
) -> bool {
    &&& added == !has_word(old.records@, word@)
    &&& added ==> {
        &&& new.records@ == old.records@.push(new_record(word, now))
        &&& new.daily_stats@ == stats_after_adding(old.daily_stats@, today, 1)
        &&& same_streak_and_config(old, new)
    }
    &&& !added ==> new == old
}

/// A review of the record at `i` can be recorded at `now` on `today`
/// without overflow: the record's counters and stage, today's counters and
/// the streak all stay in range, and `today` reads as a date.
pub open spec fn review_step_fits(d: LearningData, i: int, result: ReviewResult, now: i64, today: String) -> bool {
    let rec = d.records@[i];
    let l = with_today(d.daily_stats@, today).last();
    &&& review_fits(rec, result, now)
    &&& l.reviews_done < u32::MAX
    &&& result == ReviewResult::Remembered ==> l.correct < u32::MAX
    &&& masters(rec, result) ==> l.words_mastered < u32::MAX
    &&& ymd_day_number(today@) is Some
    &&& streak_next(d.streak_last_date, ymd_day_number(today@)->0, d.streak_count as int) <= u32::MAX
}

/// A review of `w` can be recorded (trivially so when `w` is not kept).
pub open spec fn review_fits_data(d: LearningData, w: Seq<char>, result: ReviewResult, now: i64, today: String) -> bool {
    has_word(d.records@, w) ==> review_step_fits(d, index_of(d.records@, w), result, now, today)
}

/// `new` is `old` after the review of `w` with `result` at `now` on `today`:
/// the record of `w` moves on the schedule, today's statistics count the
/// review and the streak is brought up to today; an unknown word changes
/// nothing.
pub open spec fn review_step(
    old: LearningData,
    new: LearningData,
    w: Seq<char>,
    result: ReviewResult,
    now: i64,
    today: String,
) -> bool {
    if has_word(old.records@, w) {
        let i = index_of(old.records@, w);
        let rec = old.records@[i];
        &&& new.records@ == old.records@.update(i, reviewed(rec, result, now))
        &&& new.daily_stats@ == stats_after_review(old.daily_stats@, today, result, masters(rec, result))
        &&& new.streak_count == streak_next(old.streak_last_date, ymd_day_number(today@)->0, old.streak_count as int)
        &&& new.streak_last_date == Some(today)
        &&& new.config == old.config
    } else {
        new == old
    }
}

/// Replacing a record by one for the same word keeps every word in one record.
proof fn lemma_update_same_word(recs: Seq<LearningRecord>, i: int, rec: LearningRecord)
    requires
        0 <= i < recs.len(),
        rec.word == recs[i].word,
    ensures
        words_unique(recs) ==> words_unique(recs.update(i, rec)),
        forall|w: Seq<char>| has_word(recs.update(i, rec), w) == has_word(recs, w),
{
    let u = recs.update(i, rec);
    assert forall|w: Seq<char>| has_word(u, w) == has_word(recs, w) by {
        if has_word(recs, w) {
            let a = choose|a: int| 0 <= a < recs.len() && #[trigger] recs[a].word@ == w;
            assert(u[a].word@ == w);
        }
        if has_word(u, w) {
            let a = choose|a: int| 0 <= a < u.len() && #[trigger] u[a].word@ == w;
            assert(recs[a].word@ == w);
        }
    }
    if words_unique(recs) {
        assert forall|a: int, b: int| 0 <= a < u.len() && 0 <= b < u.len() && a != b implies #[trigger] u[a].word@ != #[trigger] u[b].word@ by {
            assert(u[a].word@ == recs[a].word@ && u[b].word@ == recs[b].word@);
        }
    }
}

/// The first entry of the statistics for the day `d`.
pub open spec fn first_day(ds: Seq<DailyStats>, d: Seq<char>, i: int) -> bool {
    &&& 0 <= i < ds.len()
    &&& ds[i].date@ == d
    &&& forall|j: int| 0 <= j < i ==> #[trigger] ds[j].date@ != d
}

/// Some entry of the statistics is for the day `d`.
pub open spec fn has_day(ds: Seq<DailyStats>, d: Seq<char>) -> bool {
    exists|i: int| 0 <= i < ds.len() && #[trigger] ds[i].date@ == d
}

/// The entry of the statistics for the day `d`, where there is one.
pub open spec fn day_entry(ds: Seq<DailyStats>, d: Seq<char>) -> DailyStats {
    ds[choose|i: int| first_day(ds, d, i)]
}

/// Words added on the day `d`.
pub open spec fn added_on(ds: Seq<DailyStats>, d: Seq<char>) -> u32 {
    if has_day(ds, d) { day_entry(ds, d).words_added } else { 0 }
}

/// Reviews done on the day `d`.
pub open spec fn reviews_on(ds: Seq<DailyStats>, d: Seq<char>) -> u32 {
    if has_day(ds, d) { day_entry(ds, d).reviews_done } else { 0 }
}

/// Reviews remembered on the day `d`.
pub open spec fn correct_on(ds: Seq<DailyStats>, d: Seq<char>) -> u32 {
    if has_day(ds, d) { day_entry(ds, d).correct } else { 0 }
}

/// The progress kept for a word book; 0 for a book never studied.
pub open spec fn progress_of(m: Map<usize, usize>, book: usize) -> usize {
    if m.contains_key(book) { m[book] } else { 0 }
}

/// Which records a listing filter keeps: "mastered", "in_progress", "due"
/// (at `now`) or, for any other text, all of them.
pub open spec fn listed(filter: Seq<char>, r: LearningRecord, now: i64) -> bool {
    if filter == "mastered"@ {
        r.is_mastered
    } else if filter == "in_progress"@ {
        !r.is_mastered
    } else if filter == "due"@ {
        is_due(r, now)
    } else {
        true
    }
}

/// The records a listing filter keeps.
pub open spec fn listed_records(recs: Seq<LearningRecord>, filter: Seq<char>, now: i64) -> Seq<LearningRecord> {
    recs.filter(|x: LearningRecord| listed(filter, x, now))
}

/// The records that are due at `now`.
pub open spec fn due_records(recs: Seq<LearningRecord>, now: i64) -> Seq<LearningRecord> {
    recs.filter(|r: LearningRecord| is_due(r, now))
}

/// The mastered records.
pub open spec fn mastered_records(recs: Seq<LearningRecord>) -> Seq<LearningRecord> {
    recs.filter(|r: LearningRecord| r.is_mastered)
}

/// `s` describes the store `d` on `today` at `now` (the counts kept in 32 bits).
pub open spec fn stats_of(d: LearningData, today: Seq<char>, now: i64, s: LearningStatsResponse) -> bool {
    &&& s.total == d.records@.len() as u32
    &&& s.mastered == mastered_records(d.records@).len() as u32
    &&& s.in_progress == s.total - s.mastered
    &&& s.due_today == due_records(d.records@, now).len() as u32
    &&& s.streak == d.streak_count
    &&& s.today_reviews == reviews_on(d.daily_stats@, today)
    &&& s.today_correct == correct_on(d.daily_stats@, today)
    &&& s.daily_stats@ == d.daily_stats@
}

/// The last entry after `with_today` is today's: the old last entry where
/// it was today's, else an empty day.
proof fn lemma_with_today_last(ds: Seq<DailyStats>, today: String)
    ensures
        with_today(ds, today).len() >= 1,
        with_today(ds, today).len() <= 30 || with_today(ds, today).len() == ds.len(),
        with_today(ds, today).last() == if ds.len() > 0 && ds.last().date@ == today@ {
            ds.last()
        } else {
            zero_day(today)
        },
{
}

/// `first_day` picks one entry at most.
proof fn lemma_first_day_unique(ds: Seq<DailyStats>, d: Seq<char>, i: int)
    requires
        first_day(ds, d, i),
    ensures
        has_day(ds, d),
        day_entry(ds, d) == ds[i],
{
    let k = choose|k: int| first_day(ds, d, k);
    assert(first_day(ds, d, k));
    if k < i {
        assert(ds[k].date@ != d);
    }
    if i < k {
        assert(ds[i].date@ != d);
    }
    assert(ds[i].date@ == d);
}

/// What adding `word` at `now` on `today` does: the step where no counter
/// can overflow (adding one word fits), else nothing.
pub open spec fn add_word_outcome(old: LearningData, new: LearningData, word: String, now: i64, today: String, added: bool) -> bool {
    if add_fits(old, now, today, 1) {
        add_word_step(old, new, word, now, today, added)
    } else {
        !added && new == old
    }
}

/// A batch of `words` is accepted at `now` on `today`: counting the words
/// it would add, no counter overflows.
pub open spec fn batch_fits(d: LearningData, words: Seq<String>, now: i64, today: String) -> bool {
    let c = batch_count(d.records@, words, now);
    &&& c <= u32::MAX
    &&& c > 0 ==> add_fits(d, now, today, c)
}

/// What adding the batch `words` at `now` on `today` does: the step where the
/// batch is accepted, else nothing.
pub open spec fn add_batch_outcome(old: LearningData, new: LearningData, words: Seq<String>, now: i64, today: String, count: int) -> bool {
    if batch_fits(old, words, now, today) {
        add_batch_step(old, new, words, now, today, count)
    } else {
        count == 0 && new == old
    }
}

/// What a review at `now` on `today` does: the step where it can be
/// recorded without overflow, else nothing.
pub open spec fn review_outcome(old: LearningData, new: LearningData, w: Seq<char>, result: ReviewResult, now: i64, today: String) -> bool {
    if review_fits_data(old, w, result, now, today) {
        review_step(old, new, w, result, now, today)
    } else {
        new == old
    }
}

/// Adding a word that is not kept yet keeps every word in one record.
proof fn lemma_push_new_word(recs: Seq<LearningRecord>, rec: LearningRecord)
    requires
        words_unique(recs),
        !has_word(recs, rec.word@),
    ensures
        words_unique(recs.push(rec)),
{
    let p = recs.push(rec);
    assert forall|i: int, j: int| 0 <= i < p.len() && 0 <= j < p.len() && i != j implies #[trigger] p[i].word@ != #[trigger] p[j].word@ by {
        if i == recs.len() {
            assert(p[j] == recs[j]);
        } else if j == recs.len() {
            assert(p[i] == recs[i]);
        } else {
            assert(p[i] == recs[i] && p[j] == recs[j]);
        }
    }
}

/// The records after the words of `words` were added in turn at `now`; a
/// word already kept (also one added earlier in the same batch) is skipped.
pub open spec fn batch_records(recs: Seq<LearningRecord>, words: Seq<String>, now: i64) -> Seq<LearningRecord>
    decreases words.len(),
{
    if words.len() == 0 {
        recs
    } else {
        let prev = batch_records(recs, words.drop_last(), now);
        if has_word(prev, words.last()@) {
            prev
        } else {
            prev.push(new_record(words.last(), now))
        }
    }
}

/// How many records a batch adds.
pub open spec fn batch_count(recs: Seq<LearningRecord>, words: Seq<String>, now: i64) -> int {
    batch_records(recs, words, now).len() - recs.len()
}

/// `new` is `old` after the batch `words` was added at `now` on `today`,
/// `count` of them new.
pub open spec fn add_batch_step(
    old: LearningData,
    new: LearningData,
    words: Seq<String>,
    now: i64,
    today: String,
    count: int,
) -> bool {
    &&& count == batch_count(old.records@, words, now)
    &&& new.records@ == batch_records(old.records@, words, now)
    &&& count > 0 ==> new.daily_stats@ == stats_after_adding(old.daily_stats@, today, count)
    &&& count == 0 ==> new.daily_stats@ == old.daily_stats@
    &&& same_streak_and_config(old, new)
}

/// A batch only appends records, each word at most once, and keeps every
/// word it was given.
pub proof fn lemma_batch(recs: Seq<LearningRecord>, words: Seq<String>, now: i64)
    ensures
        batch_records(recs, words, now).len() >= recs.len(),
        batch_records(recs, words, now).len() <= recs.len() + words.len(),
        batch_records(recs, words, now).subrange(0, recs.len() as int) == recs,
        words_unique(recs) ==> words_unique(batch_records(recs, words, now)),
        forall|k: int| 0 <= k < words.len() ==> has_word(batch_records(recs, words, now), #[trigger] words[k]@),
        forall|w: Seq<char>| has_word(recs, w) ==> has_word(batch_records(recs, words, now), w),
    decreases words.len(),
{
    if words.len() > 0 {
        let prev = batch_records(recs, words.drop_last(), now);
        lemma_batch(recs, words.drop_last(), now);
        if !has_word(prev, words.last()@) {
            let p = prev.push(new_record(words.last(), now));
            if words_unique(recs) {
                lemma_push_new_word(prev, new_record(words.last(), now));
            }
            lemma_push_new_word_has(prev, new_record(words.last(), now));
            assert(p.subrange(0, recs.len() as int) =~= prev.subrange(0, recs.len() as int));
            assert forall|w: Seq<char>| has_word(prev, w) implies has_word(p, w) by {
                let i = choose|i: int| 0 <= i < prev.len() && #[trigger] prev[i].word@ == w;
                assert(p[i] == prev[i]);
            }
        }
        assert forall|k: int| 0 <= k < words.len() implies has_word(batch_records(recs, words, now), #[trigger] words[k]@) by {
            if k < words.len() - 1 {
                assert(words.drop_last()[k] == words[k]);
            }
        }
    }
}

/// After a batch, a word is kept exactly when it was kept before or occurs
/// in the batch.
pub proof fn lemma_batch_has_word(recs: Seq<LearningRecord>, words: Seq<String>, now: i64, w: Seq<char>)
    ensures
        has_word(batch_records(recs, words, now), w) <==> (has_word(recs, w) || exists|j: int|
            0 <= j < words.len() && #[trigger] words[j]@ == w),
    decreases words.len(),
{
    if words.len() > 0 {
        let d = words.drop_last();
        let prev = batch_records(recs, d, now);
        lemma_batch_has_word(recs, d, now, w);
        if exists|j: int| 0 <= j < d.len() && #[trigger] d[j]@ == w {
            let j = choose|j: int| 0 <= j < d.len() && #[trigger] d[j]@ == w;
            assert(words[j]@ == w);
        }
        if exists|j: int| 0 <= j < words.len() && #[trigger] words[j]@ == w {
            let j = choose|j: int| 0 <= j < words.len() && #[trigger] words[j]@ == w;
            if j < d.len() {
                assert(d[j]@ == w);
            }
        }
        if !has_word(prev, words.last()@) {
            let p = prev.push(new_record(words.last(), now));
            lemma_push_new_word_has(prev, new_record(words.last(), now));
            if has_word(prev, w) {
                let i = choose|i: int| 0 <= i < prev.len() && #[trigger] prev[i].word@ == w;
                assert(p[i] == prev[i]);
            }
            if has_word(p, w) {
                let i = choose|i: int| 0 <= i < p.len() && #[trigger] p[i].word@ == w;
                if i < prev.len() {
                    assert(p[i] == prev[i]);
                }
            }
        }
    }
}

/// Removing a record keeps every word in one record, and the removed word
/// is gone.
proof fn lemma_remove_unique(recs: Seq<LearningRecord>, i: int)
    requires
        words_unique(recs),
        0 <= i < recs.len(),
    ensures
        words_unique(recs.remove(i)),
        !has_word(recs.remove(i), recs[i].word@),
        forall|w: Seq<char>| w != recs[i].word@ ==> (has_word(recs.remove(i), w) == has_word(recs, w)),
{
    let r = recs.remove(i);
    assert forall|a: int, b: int| 0 <= a < r.len() && 0 <= b < r.len() && a != b implies #[trigger] r[a].word@ != #[trigger] r[b].word@ by {
        let a2 = if a < i { a } else { a + 1 };
        let b2 = if b < i { b } else { b + 1 };
        assert(r[a] == recs[a2] && r[b] == recs[b2]);
    }
    if has_word(r, recs[i].word@) {
        let a = choose|a: int| 0 <= a < r.len() && #[trigger] r[a].word@ == recs[i].word@;
        let a2 = if a < i { a } else { a + 1 };
        assert(r[a] == recs[a2]);
        assert(false);
    }
    assert forall|w: Seq<char>| w != recs[i].word@ implies (has_word(r, w) == has_word(recs, w)) by {
        if has_word(recs, w) {
            let a = choose|a: int| 0 <= a < recs.len() && #[trigger] recs[a].word@ == w;
            let a2 = if a < i { a } else { a - 1 };
            assert(r[a2] == recs[a]);
        }
        if has_word(r, w) {
            let a = choose|a: int| 0 <= a < r.len() && #[trigger] r[a].word@ == w;
            let a2 = if a < i { a } else { a + 1 };
            assert(r[a] == recs[a2]);
        }
    }
}

/// The count of a prefix of a batch never exceeds that of the whole batch.
proof fn lemma_batch_prefix(recs: Seq<LearningRecord>, words: Seq<String>, k: int, now: i64)
    requires
        0 <= k <= words.len(),
    ensures
        batch_count(recs, words.take(k), now) <= batch_count(recs, words, now),
    decreases words.len() - k,
{
    if k < words.len() {
        lemma_batch_prefix(recs, words, k + 1, now);
        assert(words.take(k + 1).drop_last() =~= words.take(k));
    } else {
        assert(words.take(k) =~= words);
    }
}

/// A pushed record is found again.
proof fn lemma_push_new_word_has(recs: Seq<LearningRecord>, rec: LearningRecord)
    ensures
        has_word(recs.push(rec), rec.word@),
{
    assert(recs.push(rec)[recs.len() as int].word@ == rec.word@);
}

/// The store of learning data.
pub struct ReviewStoreInner {
    data: LearningData,
}

impl ReviewStoreInner {
    /// The data the store holds.
    pub closed spec fn data(&self) -> LearningData {
        self.data
    }

    /// Each word is kept in one record at most.
    pub open spec fn wf(&self) -> bool {
        words_unique(self.data().records@)
    }

    /// A store holding `data`.
    pub fn new(data: LearningData) -> (r: Self)
        ensures
            r.data() == data,
    {
        ReviewStoreInner { data }
    }

    /// Mutable access to the data.
    pub fn data_mut(&mut self) -> (r: &mut LearningData)
        ensures
            *r == old(self).data(),
            final(self).data() == *final(r),
    {
        &mut self.data
    }

    /// Makes today's entry the last of the daily statistics and gives access
    /// to it; at most the 30 latest days are kept.
    fn today_stats_mut(&mut self, today: &String) -> (r: &mut DailyStats)
        ensures
            with_today(old(self).data.daily_stats@, *today).len() >= 1,
            *r == with_today(old(self).data.daily_stats@, *today).last(),
            final(self).data.daily_stats@ == set_last(
                with_today(old(self).data.daily_stats@, *today),
                *final(r),
            ),
            final(self).data.records == old(self).data.records,
            final(self).data.streak_last_date == old(self).data.streak_last_date,
            final(self).data.streak_count == old(self).data.streak_count,
            final(self).data.config == old(self).data.config,
    {
        let n = self.data.daily_stats.len();
        let is_today = n > 0 && self.data.daily_stats[n - 1].date == *today;
        if !is_today {
            self.data.daily_stats.push(
                DailyStats {
                    date: today.clone(),
                    reviews_done: 0,
                    correct: 0,
                    words_added: 0,
                    words_mastered: 0,
                },
            );
        }
        let m = self.data.daily_stats.len();
        if m > 30 {
            self.data.daily_stats = self.data.daily_stats.split_off(m - 30);
        }
        let last = self.data.daily_stats.len() - 1;
        &mut self.data.daily_stats[last]
    }

    /// Starts studying `word` at `now` on the day `today`; returns whether it
    /// was new. A word already under study is left as it is.
    pub fn add_word_at(&mut self, word: String, now: i64, today: &String) -> (r: bool)
        requires
            !has_word(old(self).data().records@, word@) ==> add_fits(old(self).data(), now, *today, 1),
        ensures
            add_word_step(old(self).data(), final(self).data(), word, now, *today, r),
            old(self).wf() ==> final(self).wf(),
            has_word(final(self).data().records@, word@),
    {
        let key = word.clone();
        if find_record(&self.data.records, &key).is_some() {
            return false;
        }
        let rec = LearningRecord {
            word,
            stage: 0,
            next_review_at: now + stage_interval(0),
            last_reviewed_at: now,
            added_at: now,
            review_count: 0,
            correct_count: 0,
            is_mastered: false,
        };
        proof {
            if words_unique(self.data.records@) {
                lemma_push_new_word(self.data.records@, rec);
            }
            lemma_push_new_word_has(self.data.records@, rec);
        }
        self.data.records.push(rec);
        let s = self.today_stats_mut(today);
        s.words_added = s.words_added + 1;
        true
    }

    /// Starts studying each word of `words` that is not under study yet, at
    /// `now` on the day `today`; returns how many were new.
    pub fn add_words_batch_at(&mut self, words: Vec<String>, now: i64, today: &String) -> (r: u32)
        requires
            batch_count(old(self).data().records@, words@, now) <= u32::MAX,
            batch_count(old(self).data().records@, words@, now) > 0 ==> add_fits(
                old(self).data(),
                now,
                *today,
                batch_count(old(self).data().records@, words@, now),
            ),
        ensures
            add_batch_step(old(self).data(), final(self).data(), words@, now, *today, r as int),
            old(self).wf() ==> final(self).wf(),
            forall|k: int| 0 <= k < words@.len() ==> has_word(final(self).data().records@, #[trigger] words@[k]@),
    {
        let ghost old_recs = self.data.records@;
        let mut count: u32 = 0;
        let n = words.len();
        let mut i: usize = 0;
        proof {
            assert(words@.take(0) =~= Seq::<String>::empty());
            lemma_batch(old_recs, words@, now);
        }
        while i < n
            invariant
                n == words@.len(),
                i <= n,
                self.data.records@ == batch_records(old_recs, words@.take(i as int), now),
                count == batch_count(old_recs, words@.take(i as int), now),
                batch_count(old_recs, words@, now) <= u32::MAX,
                batch_count(old_recs, words@, now) > 0 ==> now + interval_ms(0) <= i64::MAX,
                self.data.daily_stats == old(self).data.daily_stats,
                same_streak_and_config(old(self).data, self.data),
            decreases n - i,
        {
            proof {
                assert(words@.take(i + 1).drop_last() =~= words@.take(i as int));
                assert(words@.take(i + 1).last() == words@[i as int]);
                lemma_batch(old_recs, words@.take(i + 1), now);
                lemma_batch_prefix(old_recs, words@, i + 1, now);
            }
            let w = words[i].clone();
            if find_record(&self.data.records, &w).is_none() {
                let rec = LearningRecord {
                    word: w,
                    stage: 0,
                    next_review_at: now + stage_interval(0),
                    last_reviewed_at: now,
                    added_at: now,
                    review_count: 0,
                    correct_count: 0,
                    is_mastered: false,
                };
                self.data.records.push(rec);
                count = count + 1;
            }
            i += 1;
        }
        proof {
            assert(words@.take(n as int) =~= words@);
            lemma_batch(old_recs, words@, now);
        }
        if count > 0 {
            let s = self.today_stats_mut(today);
            s.words_added = s.words_added + count;
        }
        count
    }

    /// Stops studying `word`; returns whether it was under study.
    pub fn remove_word(&mut self, word: &str) -> (r: bool)
        ensures
            r == has_word(old(self).data().records@, word@),
            r ==> final(self).data().records@ == old(self).data().records@.remove(
                index_of(old(self).data().records@, word@),
            ),
            !r ==> final(self).data() == old(self).data(),
            final(self).data().daily_stats == old(self).data().daily_stats,
            same_streak_and_config(old(self).data(), final(self).data()),
            old(self).wf() ==> final(self).wf() && !has_word(final(self).data().records@, word@),
            old(self).wf() ==> forall|w: Seq<char>| w != word@ ==> (has_word(final(self).data().records@, w) == has_word(old(self).data().records@, w)),
    {
        let w = word.to_string();
        match find_record(&self.data.records, &w) {
            None => false,
            Some(i) => {
                proof {
                    lemma_first_match_unique(self.data.records@, word@, i as int);
                    if words_unique(self.data.records@) {
                        lemma_remove_unique(self.data.records@, i as int);
                    }
                }
                self.data.records.remove(i);
                true
            }
        }
    }

    /// Brings the streak up to `today`.
    fn update_streak(&mut self, today: &String)
        requires
            ymd_day_number(today@) is Some,
            streak_next(old(self).data.streak_last_date, ymd_day_number(today@)->0, old(self).data.streak_count as int) <= u32::MAX,
        ensures
            final(self).data.streak_count == streak_next(
                old(self).data.streak_last_date,
                ymd_day_number(today@)->0,
                old(self).data.streak_count as int,
            ),
            final(self).data.streak_last_date == Some(*today),
            final(self).data.records == old(self).data.records,
            final(self).data.daily_stats == old(self).data.daily_stats,
            final(self).data.config == old(self).data.config,
    {
        if let Some(today_day) = parse_ymd_day(today.as_str()) {
            let count = self.data.streak_count;
            let next = match &self.data.streak_last_date {
                None => 1,
                Some(last) => match parse_ymd_day(last.as_str()) {
                    None => count,
                    Some(last_day) => {
                        let diff = today_day as i64 - last_day as i64;
                        if diff == 1 {
                            count + 1
                        } else if diff > 1 {
                            1
                        } else {
                            count
                        }
                    },
                },
            };
            self.data.streak_count = next;
        }
        self.data.streak_last_date = Some(today.clone());
    }

    /// Records a review of `word` with `result` at `now` on the day `today`.
    /// A word that is not under study is ignored.
    pub fn submit_review_at(&mut self, word: &str, result: ReviewResult, now: i64, today: &String)
        requires
            review_fits_data(old(self).data(), word@, result, now, *today),
        ensures
            review_step(old(self).data(), final(self).data(), word@, result, now, *today),
            old(self).wf() ==> final(self).wf(),
            forall|w: Seq<char>| has_word(final(self).data().records@, w) == has_word(old(self).data().records@, w),
    {
        let w = word.to_string();
        match find_record(&self.data.records, &w) {
            None => {},
            Some(i) => {
                proof {
                    lemma_first_match_unique(self.data.records@, word@, i as int);
                }
                let ghost old_rec = self.data.records@[i as int];
                let mut rec = self.data.records[i].clone();
                let mastered = result == ReviewResult::Remembered && rec.stage >= 8;
                rec.review_count = rec.review_count + 1;
                rec.last_reviewed_at = now;
                match result {
                    ReviewResult::Remembered => {
                        rec.correct_count = rec.correct_count + 1;
                        if rec.stage >= 8 {
                            rec.is_mastered = true;
                            rec.next_review_at = i64::MAX;
                        } else {
                            rec.stage = rec.stage + 1;
                            rec.next_review_at = now + stage_interval(rec.stage);
                        }
                    },
                    ReviewResult::Fuzzy => {
                        rec.stage = if rec.stage >= 1 { rec.stage - 1 } else { 0 };
                        rec.next_review_at = now + stage_interval(rec.stage);
                    },
                    ReviewResult::Forgot => {
                        rec.stage = if rec.stage >= 3 { rec.stage - 3 } else { 0 };
                        rec.next_review_at = now + stage_interval(rec.stage);
                    },
                }
                assert(rec == reviewed(old_rec, result, now));
                proof {
                    lemma_update_same_word(self.data.records@, i as int, rec);
                }
                self.data.records.set(i, rec);
                let s = self.today_stats_mut(today);
                if mastered {
                    s.words_mastered = s.words_mastered + 1;
                }
                s.reviews_done = s.reviews_done + 1;
                if result == ReviewResult::Remembered {
                    s.correct = s.correct + 1;
                }
                self.update_streak(today);
            },
        }
    }

    /// The counters of today's entry as `with_today` leaves it: reviews,
    /// remembered, added, mastered.
    fn today_counters(&self, today: &String) -> (r: (u32, u32, u32, u32))
        ensures
            r.0 == with_today(self.data.daily_stats@, *today).last().reviews_done,
            r.1 == with_today(self.data.daily_stats@, *today).last().correct,
            r.2 == with_today(self.data.daily_stats@, *today).last().words_added,
            r.3 == with_today(self.data.daily_stats@, *today).last().words_mastered,
    {
        proof {
            lemma_with_today_last(self.data.daily_stats@, *today);
        }
        let n = self.data.daily_stats.len();
        if n > 0 && self.data.daily_stats[n - 1].date == *today {
            let l = &self.data.daily_stats[n - 1];
            (l.reviews_done, l.correct, l.words_added, l.words_mastered)
        } else {
            (0, 0, 0, 0)
        }
    }

    /// Whether adding `n` words at `now` on `today` overflows no counter.
    pub(crate) fn adding_fits(&self, now: i64, today: &String, n: u32) -> (r: bool)
        ensures
            r == add_fits(self.data(), now, *today, n as int),
    {
        let c = self.today_counters(today);
        now <= i64::MAX - 300_000 && c.2 as u64 + n as u64 <= u32::MAX as u64
    }

    /// Starts studying `word` now; returns whether it was new. A word already
    /// under study is left as it is, and so is the store where a counter
    /// would overflow.
    pub fn add_word(&mut self, word: String) -> (r: bool)
        ensures
            exists|now: i64, today: String| clock_reading(now) && ymd_day_number(today@) is Some
                && #[trigger] add_word_outcome(old(self).data(), final(self).data(), word, now, today, r),
            old(self).wf() ==> final(self).wf(),
    {
        let ghost old_d = self.data;
        let ghost w = word;
        let now = now_millis();
        let today = local_date_string();
        let r = if self.adding_fits(now, &today, 1) {
            self.add_word_at(word, now, &today)
        } else {
            false
        };
        assert(add_word_outcome(old_d, self.data, w, now, today, r));
        r
    }

    /// How many of `words` a batch at `now` would add: those not kept yet,
    /// each counted once.
    pub(crate) fn new_word_count(&self, words: &Vec<String>, now: i64) -> (r: usize)
        ensures
            r == batch_count(self.data().records@, words@, now),
    {
        let recs = &self.data.records;
        let n = words.len();
        let mut count: usize = 0;
        let mut i: usize = 0;
        proof {
            assert(words@.take(0) =~= Seq::<String>::empty());
        }
        while i < n
            invariant
                n == words@.len(),
                i <= n,
                count == batch_count(recs@, words@.take(i as int), now),
                count <= i,
            decreases n - i,
        {
            let ghost pre = words@.take(i as int);
            proof {
                assert(words@.take(i + 1).drop_last() =~= pre);
                assert(words@.take(i + 1).last() == words@[i as int]);
                lemma_batch_has_word(recs@, pre, now, words@[i as int]@);
            }
            let kept = find_record(recs, &words[i]).is_some();
            let earlier = occurs_before(words, i);
            proof {
                let w = words@[i as int]@;
                if earlier {
                    let j = choose|j: int| 0 <= j < i && #[trigger] words@[j]@ == w;
                    assert(pre[j] == words@[j]);
                }
                if exists|j: int| 0 <= j < pre.len() && #[trigger] pre[j]@ == w {
                    let j = choose|j: int| 0 <= j < pre.len() && #[trigger] pre[j]@ == w;
                    assert(pre[j] == words@[j]);
                }
            }
            let seen = kept || earlier;
            if !seen {
                count = count + 1;
            }
            i += 1;
        }
        proof {
            assert(words@.take(n as int) =~= words@);
        }
        count
    }

    /// Starts studying each new word of `words` now; returns how many were new.
    /// Where the words it adds would overflow a counter, nothing is added
    /// and the result is 0.
    pub fn add_words_batch(&mut self, words: Vec<String>) -> (r: u32)
        ensures
            exists|now: i64, today: String| clock_reading(now) && ymd_day_number(today@) is Some
                && #[trigger] add_batch_outcome(old(self).data(), final(self).data(), words@, now, today, r as int),
            old(self).wf() ==> final(self).wf(),
    {
        let ghost old_d = self.data;
        let ghost ws = words@;
        let now = now_millis();
        let today = local_date_string();
        let c = self.new_word_count(&words, now);
        let r = if c <= u32::MAX as usize && (c == 0 || self.adding_fits(now, &today, c as u32)) {
            self.add_words_batch_at(words, now, &today)
        } else {
            0
        };
        assert(add_batch_outcome(old_d, self.data, ws, now, today, r as int));
        r
    }

    /// Whether a review of `word` with `result` at `now` on `today` can be
    /// recorded without overflow.
    fn review_fits_at(&self, word: &str, result: ReviewResult, now: i64, today: &String) -> (r: bool)
        ensures
            r == review_fits_data(self.data(), word@, result, now, *today),
    {
        let w = word.to_string();
        match find_record(&self.data.records, &w) {
            None => true,
            Some(i) => {
                proof {
                    lemma_first_match_unique(self.data.records@, word@, i as int);
                }
                let rec = &self.data.records[i];
                let mastering = result == ReviewResult::Remembered && rec.stage >= 8;
                let stage: u64 = match result {
                    ReviewResult::Remembered => rec.stage as u64 + 1,
                    ReviewResult::Fuzzy => if rec.stage >= 1 { rec.stage as u64 - 1 } else { 0 },
                    ReviewResult::Forgot => if rec.stage >= 3 { rec.stage as u64 - 3 } else { 0 },
                };
                let record_ok = rec.review_count < u32::MAX
                    && (result != ReviewResult::Remembered || rec.correct_count < u32::MAX)
                    && (mastering || (stage <= 8 && now <= i64::MAX - stage_interval(stage as u8)));
                let c = self.today_counters(today);
                let stats_ok = c.0 < u32::MAX
                    && (result != ReviewResult::Remembered || c.1 < u32::MAX)
                    && (!mastering || c.3 < u32::MAX);
                match parse_ymd_day(today.as_str()) {
                    None => false,
                    Some(today_day) => {
                        let streak_ok = match &self.data.streak_last_date {
                            None => true,
                            Some(last) => match parse_ymd_day(last.as_str()) {
                                None => true,
                                Some(last_day) => today_day as i64 - last_day as i64 != 1
                                    || self.data.streak_count < u32::MAX,
                            },
                        };
                        record_ok && stats_ok && streak_ok
                    },
                }
            },
        }
    }

    /// Records a review of `word` with `result` now. A word that is not under
    /// study is ignored, and so is a review that would overflow a counter.
    pub fn submit_review(&mut self, word: &str, result: ReviewResult)
        ensures
            exists|now: i64, today: String| clock_reading(now) && ymd_day_number(today@) is Some
                && #[trigger] review_outcome(old(self).data(), final(self).data(), word@, result, now, today),
            old(self).wf() ==> final(self).wf(),
    {
        let ghost old_d = self.data;
        let now = now_millis();
        let today = local_date_string();
        if self.review_fits_at(word, result, now, &today) {
            self.submit_review_at(word, result, now, &today);
        }
        assert(review_outcome(old_d, self.data, word@, result, now, today));
    }

    /// The records due at `now`, in store order.
    pub fn get_due_words_at(&self, now: i64) -> (r: Vec<LearningRecord>)
        ensures
            r@ == due_records(self.data().records@, now),
    {
        let recs = &self.data.records;
        let n = recs.len();
        let mut out: Vec<LearningRecord> = Vec::new();
        let mut i: usize = 0;
        while i < n
            invariant
                n == recs@.len(),
                i <= n,
                out@ == due_records(recs@.take(i as int), now),
            decreases n - i,
        {
            proof {
                reveal_with_fuel(Seq::<_>::filter, 1);
                assert(recs@.take(i + 1).drop_last() =~= recs@.take(i as int));
            }
            if !recs[i].is_mastered && recs[i].next_review_at <= now {
                out.push(recs[i].clone());
            }
            i += 1;
        }
        proof {
            assert(recs@.take(n as int) =~= recs@);
        }
        out
    }

    /// The records due now.
    pub fn get_due_words(&self) -> (r: Vec<LearningRecord>)
        ensures
            exists|now: i64| clock_reading(now) && r@ == #[trigger] due_records(self.data().records@, now),
    {
        self.get_due_words_at(now_millis())
    }

    /// How many records are due at `now`.
    pub fn get_due_count_at(&self, now: i64) -> (r: usize)
        ensures
            r == due_records(self.data().records@, now).len(),
    {
        let recs = &self.data.records;
        let n = recs.len();
        let mut count: usize = 0;
        let mut i: usize = 0;
        while i < n
            invariant
                n == recs@.len(),
                i <= n,
                count == due_records(recs@.take(i as int), now).len(),
                count <= i,
            decreases n - i,
        {
            proof {
                reveal_with_fuel(Seq::<_>::filter, 1);
                assert(recs@.take(i + 1).drop_last() =~= recs@.take(i as int));
            }
            if !recs[i].is_mastered && recs[i].next_review_at <= now {
                count += 1;
            }
            i += 1;
        }
        proof {
            assert(recs@.take(n as int) =~= recs@);
        }
        count
    }

    /// How many records are due now.
    pub fn get_due_count(&self) -> (r: usize)
        ensures
            exists|now: i64| clock_reading(now) && r == #[trigger] due_records(self.data().records@, now).len(),
    {
        self.get_due_count_at(now_millis())
    }

    /// How many records are mastered.
    fn mastered_count(&self) -> (r: usize)
        ensures
            r == mastered_records(self.data().records@).len(),
            r <= self.data().records@.len(),
    {
        let recs = &self.data.records;
        let n = recs.len();
        let mut count: usize = 0;
        let mut i: usize = 0;
        while i < n
            invariant
                n == recs@.len(),
                i <= n,
                count == mastered_records(recs@.take(i as int)).len(),
                count <= i,
            decreases n - i,
        {
            proof {
                reveal_with_fuel(Seq::<_>::filter, 1);
                assert(recs@.take(i + 1).drop_last() =~= recs@.take(i as int));
            }
            if recs[i].is_mastered {
                count += 1;
            }
            i += 1;
        }
        proof {
            assert(recs@.take(n as int) =~= recs@);
        }
        count
    }

    /// The records a listing filter keeps at `now` (see `listed`), in store order.
    pub fn get_learning_words_at(&self, filter: &str, now: i64) -> (r: Vec<LearningRecord>)
        ensures
            r@ == listed_records(self.data().records@, filter@, now),
    {
        let f = filter.to_string();
        let mastered = f == "mastered".to_string();
        let in_progress = f == "in_progress".to_string();
        let due = f == "due".to_string();
        proof {
            reveal_strlit("mastered");
            reveal_strlit("in_progress");
            reveal_strlit("due");
        }
        let recs = &self.data.records;
        let n = recs.len();
        let mut out: Vec<LearningRecord> = Vec::new();
        let mut i: usize = 0;
        while i < n
            invariant
                n == recs@.len(),
                i <= n,
                mastered == (filter@ == "mastered"@),
                in_progress == (filter@ == "in_progress"@),
                due == (filter@ == "due"@),
                out@ == listed_records(recs@.take(i as int), filter@, now),
            decreases n - i,
        {
            proof {
                reveal_with_fuel(Seq::<_>::filter, 1);
                assert(recs@.take(i + 1).drop_last() =~= recs@.take(i as int));
            }
            let r = &recs[i];
            let keep = if mastered {
                r.is_mastered
            } else if in_progress {
                !r.is_mastered
            } else if due {
                !r.is_mastered && r.next_review_at <= now
            } else {
                true
            };
            if keep {
                out.push(r.clone());
            }
            i += 1;
        }
        proof {
            assert(recs@.take(n as int) =~= recs@);
        }
        out
    }

    /// The records a listing filter keeps now.
    pub fn get_learning_words(&self, filter: &str) -> (r: Vec<LearningRecord>)
        ensures
            exists|now: i64| clock_reading(now) && r@ == #[trigger] listed_records(self.data().records@, filter@, now),
    {
        self.get_learning_words_at(filter, now_millis())
    }

    /// Words added on the day `today`.
    pub fn get_today_new_count_at(&self, today: &String) -> (r: u32)
        ensures
            r == added_on(self.data().daily_stats@, today@),
    {
        match find_day(&self.data.daily_stats, today) {
            Some(i) => {
                proof {
                    lemma_first_day_unique(self.data.daily_stats@, today@, i as int);
                }
                self.data.daily_stats[i].words_added
            },
            None => 0,
        }
    }

    /// Words added today.
    pub fn get_today_new_count(&self) -> (r: u32)
        ensures
            exists|today: String| ymd_day_number(today@) is Some && r == #[trigger] added_on(self.data().daily_stats@, today@),
    {
        let today = local_date_string();
        self.get_today_new_count_at(&today)
    }

    /// The daily limit of new words.
    pub fn get_daily_limit(&self) -> (r: u32)
        ensures
            r == self.data().config.daily_new_limit,
    {
        self.data.config.daily_new_limit
    }

    /// Sets the daily limit of new words.
    pub fn set_daily_limit(&mut self, limit: u32)
        ensures
            final(self).data() == (LearningData {
                config: LearningConfig { daily_new_limit: limit, ..old(self).data().config },
                ..old(self).data()
            }),
    {
        self.data.config.daily_new_limit = limit;
    }

    /// The word book in use.
    pub fn get_active_book(&self) -> (r: usize)
        ensures
            r == self.data().config.active_book,
    {
        self.data.config.active_book
    }

    /// Sets the word book in use.
    pub fn set_active_book(&mut self, index: usize)
        ensures
            final(self).data() == (LearningData {
                config: LearningConfig { active_book: index, ..old(self).data().config },
                ..old(self).data()
            }),
    {
        self.data.config.active_book = index;
    }

    /// How far the learner has come in a word book (0 for a book never studied).
    pub fn get_book_progress(&self, book_index: usize) -> (r: usize)
        ensures
            r == progress_of(self.data().config.book_progress@, book_index),
    {
        match self.data.config.book_progress.get(&book_index) {
            Some(p) => *p,
            None => 0,
        }
    }

    /// Moves the progress in a word book on by `count` words.
    pub fn advance_book_progress(&mut self, book_index: usize, count: usize)
        requires
            progress_of(old(self).data().config.book_progress@, book_index) + count <= usize::MAX,
        ensures
            final(self).data().config.book_progress@ == old(self).data().config.book_progress@.insert(
                book_index,
                (progress_of(old(self).data().config.book_progress@, book_index) + count) as usize,
            ),
            final(self).data().config.daily_new_limit == old(self).data().config.daily_new_limit,
            final(self).data().config.active_book == old(self).data().config.active_book,
            final(self).data().records == old(self).data().records,
            final(self).data().daily_stats == old(self).data().daily_stats,
            final(self).data().streak_last_date == old(self).data().streak_last_date,
            final(self).data().streak_count == old(self).data().streak_count,
    {
        let current = self.get_book_progress(book_index);
        self.data.config.book_progress.insert(book_index, current + count);
    }

    /// A copy of the settings.
    pub fn get_learning_config(&self) -> (r: LearningConfig)
        ensures
            r.daily_new_limit == self.data().config.daily_new_limit,
            r.active_book == self.data().config.active_book,
            r.book_progress@ == self.data().config.book_progress@,
    {
        self.data.config.clone()
    }

    /// The statistics of the store on `today` at `now`.
    pub fn get_stats_at(&self, today: &String, now: i64) -> (r: LearningStatsResponse)
        requires
            self.data().records@.len() as u32 >= mastered_records(self.data().records@).len() as u32,
        ensures
            stats_of(self.data(), today@, now, r),
    {
        let total = self.data.records.len() as u32;
        let mastered = self.mastered_count() as u32;
        let due_today = self.get_due_count_at(now) as u32;
        let (today_reviews, today_correct) = match find_day(&self.data.daily_stats, today) {
            Some(i) => {
                proof {
                    lemma_first_day_unique(self.data.daily_stats@, today@, i as int);
                }
                (self.data.daily_stats[i].reviews_done, self.data.daily_stats[i].correct)
            },
            None => (0, 0),
        };
        let daily_stats = self.data.daily_stats.clone();
        proof {
            assert forall|k: int| 0 <= k < daily_stats@.len() implies daily_stats@[k] == self.data.daily_stats@[k] by {
                assert(cloned::<DailyStats>(self.data.daily_stats@[k], daily_stats@[k]));
            }
            assert(daily_stats@ =~= self.data.daily_stats@);
        }
        LearningStatsResponse {
            total,
            mastered,
            in_progress: total - mastered,
            due_today,
            streak: self.data.streak_count,
            today_reviews,
            today_correct,
            daily_stats,
        }
    }

    /// The statistics of the store now.
    pub fn get_stats(&self) -> (r: LearningStatsResponse)
        requires
            self.data().records@.len() as u32 >= mastered_records(self.data().records@).len() as u32,
        ensures
            exists|today: String, now: i64| ymd_day_number(today@) is Some && clock_reading(now) && stats_of(self.data(), today@, now, r),
    {
        let today = local_date_string();
        let now = now_millis();
        self.get_stats_at(&today, now)
    }

    /// Whether `word` is under study.
    pub fn is_word_in_learning(&self, word: &str) -> (r: bool)
        ensures
            r == has_word(self.data().records@, word@),
    {
        let w = word.to_string();
        find_record(&self.data.records, &w).is_some()
    }
}


// ---------------------------------------------------------------------------
// Laws
// ---------------------------------------------------------------------------

/// The forgetting-curve schedule: a review at `now` moves a record one stage
/// up when remembered, one down when fuzzy and three down when forgotten
/// (never below the first stage); the next review is then due exactly that
/// stage's interval after `now`. Remembering a word at the last stage
/// masters it, and a mastered word is never due again. Every review is
/// counted, and only remembered ones as correct.
pub proof fn law_review_schedule(rec: LearningRecord, result: ReviewResult, now: i64)
    requires
        review_fits(rec, result, now),
    ensures
        reviewed(rec, result, now).review_count == rec.review_count + 1,
        reviewed(rec, result, now).correct_count == rec.correct_count + if result == ReviewResult::Remembered { 1int } else { 0int },
        reviewed(rec, result, now).last_reviewed_at == now,
        reviewed(rec, result, now).word == rec.word,
        masters(rec, result) ==> reviewed(rec, result, now).is_mastered,
        masters(rec, result) ==> forall|t: i64| !is_due(#[trigger] reviewed(rec, result, t), t),
        !masters(rec, result) ==> {
            let s = reviewed(rec, result, now).stage as int;
            &&& 0 <= s <= last_stage()
            &&& s == next_stage(rec.stage as int, result)
            &&& reviewed(rec, result, now).next_review_at == now + interval_ms(s)
            &&& reviewed(rec, result, now).next_review_at > now
            &&& reviewed(rec, result, now).is_mastered == rec.is_mastered
        },
        result == ReviewResult::Remembered && rec.stage < last_stage() ==> reviewed(rec, result, now).stage == rec.stage + 1,
        result == ReviewResult::Fuzzy ==> reviewed(rec, result, now).stage == if rec.stage >= 1 { rec.stage - 1 } else { 0 },
        result == ReviewResult::Forgot ==> reviewed(rec, result, now).stage == if rec.stage >= 3 { rec.stage - 3 } else { 0 },
{
}

/// The statistics keep a window of at most the 30 latest days: after a
/// day's activity the last entry is that day's (a fresh empty one where the
/// day had none yet), and the entries before it are the latest earlier ones,
/// in their order.
pub proof fn law_stats_window(ds: Seq<DailyStats>, today: String)
    ensures
        with_today(ds, today).len() <= 30,
        with_today(ds, today).len() >= 1,
        with_today(ds, today).last().date@ == today@,
        ({
            let pushed = if ds.len() > 0 && ds.last().date@ == today@ { ds } else { ds.push(zero_day(today)) };
            let w = with_today(ds, today);
            w == pushed.subrange(pushed.len() - w.len(), pushed.len() as int)
        }),
{
    let pushed = if ds.len() > 0 && ds.last().date@ == today@ { ds } else { ds.push(zero_day(today)) };
    if pushed.len() <= 30 {
        assert(pushed.subrange(0, pushed.len() as int) =~= pushed);
    }
}

/// The statistics' "in progress" count is the number of records that are
/// not mastered: mastered and in-progress words make up all the words.
pub proof fn law_stats_partition(recs: Seq<LearningRecord>)
    ensures
        mastered_records(recs).len() + recs.filter(|r: LearningRecord| !r.is_mastered).len() == recs.len(),
    decreases recs.len(),
{
    reveal_with_fuel(Seq::<_>::filter, 1);
    if recs.len() > 0 {
        law_stats_partition(recs.drop_last());
    }
}

/// The due list holds exactly the records that are not mastered and whose
/// review time has come, in store order.
pub proof fn law_due_records(recs: Seq<LearningRecord>, now: i64)
    ensures
        forall|k: int| 0 <= k < due_records(recs, now).len() ==> #[trigger] is_due(due_records(recs, now)[k], now),
        forall|k: int| 0 <= k < recs.len() && is_due(recs[k], now) ==> due_records(recs, now).contains(#[trigger] recs[k]),
        forall|r: LearningRecord| due_records(recs, now).contains(r) ==> #[trigger] recs.contains(r),
        due_records(recs, now).len() <= recs.len(),
{
    broadcast use vstd::seq_lib::group_filter_ensures, Seq::lemma_filter_contains_rev;

}

/// The study streak: a review one day after the last study day extends it
/// by one, another on the same day keeps it, after a longer break it starts
/// over at one, and the first study day starts it at one.
pub proof fn law_streak(last: String, today_day: int, count: int)
    ensures
        ymd_day_number(last@) == Some(today_day - 1) ==> streak_next(Some(last), today_day, count) == count + 1,
        ymd_day_number(last@) == Some(today_day) ==> streak_next(Some(last), today_day, count) == count,
        (ymd_day_number(last@) matches Some(d) && today_day - d > 1) ==> streak_next(Some(last), today_day, count) == 1,
        streak_next(None, today_day, count) == 1,
{
}

/// Every record stays on the schedule and counts no more remembered answers
/// than reviews.
pub open spec fn records_consistent(recs: Seq<LearningRecord>) -> bool {
    forall|k: int| 0 <= k < recs.len() ==> {
        &&& #[trigger] recs[k].stage <= last_stage()
        &&& recs[k].correct_count <= recs[k].review_count
    }
}

/// No day counts more remembered reviews than reviews.
pub open spec fn days_consistent(ds: Seq<DailyStats>) -> bool {
    forall|k: int| 0 <= k < ds.len() ==> #[trigger] ds[k].correct <= ds[k].reviews_done
}

/// The counters of the store agree with each other.
pub open spec fn counts_consistent(d: LearningData) -> bool {
    records_consistent(d.records@) && days_consistent(d.daily_stats@)
}

/// Today's entry, where the statistics have one, is the last of them.
pub open spec fn today_last(ds: Seq<DailyStats>, today: Seq<char>) -> bool {
    forall|i: int| 0 <= i < ds.len() && #[trigger] ds[i].date@ == today ==> i == ds.len() - 1
}

/// Bringing the statistics up to `today` keeps every day's counts
/// consistent, and today's entry is then the last and only one for today.
proof fn lemma_with_today_keeps(ds: Seq<DailyStats>, today: String)
    requires
        today_last(ds, today@),
    ensures
        days_consistent(ds) ==> days_consistent(with_today(ds, today)),
        first_day(with_today(ds, today), today@, with_today(ds, today).len() - 1),
        has_day(ds, today@) ==> day_entry(ds, today@) == with_today(ds, today).last(),
        !has_day(ds, today@) ==> with_today(ds, today).last() == zero_day(today),
{
    law_stats_window(ds, today);
    lemma_with_today_last(ds, today);
    let pushed = if ds.len() > 0 && ds.last().date@ == today@ { ds } else { ds.push(zero_day(today)) };
    let t = with_today(ds, today);
    let off = pushed.len() - t.len();
    assert forall|k: int| 0 <= k < t.len() implies #[trigger] t[k] == pushed[off + k] by {}
    assert forall|j: int| 0 <= j < t.len() - 1 implies #[trigger] t[j].date@ != today@ by {
        assert(t[j] == pushed[off + j]);
        if pushed[off + j].date@ == today@ {
            assert(pushed[off + j] == ds[off + j]);
        }
    }
    if days_consistent(ds) {
        assert forall|k: int| 0 <= k < t.len() implies #[trigger] t[k].correct <= t[k].reviews_done by {
            assert(t[k] == pushed[off + k]);
            if off + k < ds.len() {
                assert(pushed[off + k] == ds[off + k]);
            }
        }
    }
    if has_day(ds, today@) {
        let i = choose|i: int| 0 <= i < ds.len() && #[trigger] ds[i].date@ == today@;
        assert(i == ds.len() - 1);
        assert(first_day(ds, today@, i));
        lemma_first_day_unique(ds, today@, i);
    } else {
        if ds.len() > 0 {
            assert(ds[ds.len() - 1].date@ != today@);
        }
    }
}

/// Replacing the last entry by one for the same day keeps today's entry the
/// only one and the last, and it is then what `day_entry` finds.
proof fn lemma_set_last_today(t: Seq<DailyStats>, today: Seq<char>, x: DailyStats)
    requires
        first_day(t, today, t.len() - 1),
        x.date@ == today,
    ensures
        today_last(set_last(t, x), today),
        has_day(set_last(t, x), today),
        day_entry(set_last(t, x), today) == x,
{
    let n = set_last(t, x);
    assert forall|j: int| 0 <= j < n.len() - 1 implies #[trigger] n[j].date@ != today by {
        assert(n[j] == t[j]);
    }
    assert(first_day(n, today, n.len() - 1));
    lemma_first_day_unique(n, today, n.len() - 1);
}

/// A batch adds only fresh records, so it keeps every record consistent.
proof fn lemma_batch_consistent(recs: Seq<LearningRecord>, words: Seq<String>, now: i64)
    requires
        records_consistent(recs),
    ensures
        records_consistent(batch_records(recs, words, now)),
    decreases words.len(),
{
    if words.len() > 0 {
        lemma_batch_consistent(recs, words.drop_last(), now);
        let prev = batch_records(recs, words.drop_last(), now);
        let p = prev.push(new_record(words.last(), now));
        assert forall|k: int| 0 <= k < p.len() implies #[trigger] p[k].stage <= last_stage() && p[k].correct_count <= p[k].review_count by {
            if k < prev.len() {
                assert(p[k] == prev[k]);
            }
        }
    }
}

/// A word that is kept has a first record, found by `index_of`.
proof fn lemma_index_of(recs: Seq<LearningRecord>, w: Seq<char>, i: int)
    requires
        0 <= i < recs.len(),
        recs[i].word@ == w,
    ensures
        first_match(recs, w, index_of(recs, w)),
    decreases i,
{
    if exists|j: int| 0 <= j < i && #[trigger] recs[j].word@ == w {
        let j = choose|j: int| 0 <= j < i && #[trigger] recs[j].word@ == w;
        lemma_index_of(recs, w, j);
    } else {
        assert(first_match(recs, w, i));
    }
}

/// Reviews keep the counters consistent: whatever sequence of reviews is
/// recorded, every record stays on the schedule with no more remembered
/// answers than reviews, and no day counts more remembered reviews than
/// reviews.
pub proof fn law_review_keeps_counts(
    old: LearningData,
    new: LearningData,
    w: Seq<char>,
    result: ReviewResult,
    now: i64,
    today: String,
)
    requires
        counts_consistent(old),
        review_outcome(old, new, w, result, now, today),
    ensures
        counts_consistent(new),
{
    if review_fits_data(old, w, result, now, today) && has_word(old.records@, w) {
        let i = index_of(old.records@, w);
        let rec = old.records@[i];
        let h = choose|h: int| 0 <= h < old.records@.len() && #[trigger] old.records@[h].word@ == w;
        lemma_index_of(old.records@, w, h);
        let u = old.records@.update(i, reviewed(rec, result, now));
        law_review_schedule(rec, result, now);
        assert forall|k: int| 0 <= k < u.len() implies #[trigger] u[k].stage <= last_stage() && u[k].correct_count <= u[k].review_count by {
            if k != i {
                assert(u[k] == old.records@[k]);
            }
        }
        let ds = old.daily_stats@;
        let t = with_today(ds, today);
        law_stats_window(ds, today);
        let pushed = if ds.len() > 0 && ds.last().date@ == today@ { ds } else { ds.push(zero_day(today)) };
        let off = pushed.len() - t.len();
        assert forall|k: int| 0 <= k < t.len() implies #[trigger] t[k].correct <= t[k].reviews_done by {
            assert(t[k] == pushed[off + k]);
            if off + k < ds.len() {
                assert(pushed[off + k] == ds[off + k]);
            }
        }
        let n = new.daily_stats@;
        assert(t[t.len() - 1].correct <= t[t.len() - 1].reviews_done);
        assert forall|k: int| 0 <= k < n.len() implies #[trigger] n[k].correct <= n[k].reviews_done by {
            if k < n.len() - 1 {
                assert(n[k] == t[k]);
            }
        }
    }
}

/// Adding words keeps the counters consistent: new records start on the
/// first stage with nothing counted, and the day's reviews are untouched.
pub proof fn law_adding_keeps_counts(
    old: LearningData,
    new: LearningData,
    words: Seq<String>,
    now: i64,
    today: String,
    count: int,
)
    requires
        counts_consistent(old),
        add_batch_outcome(old, new, words, now, today, count),
    ensures
        counts_consistent(new),
{
    lemma_batch(old.records@, words, now);
    if batch_fits(old, words, now, today) {
        lemma_batch_consistent(old.records@, words, now);
        if count > 0 {
            let ds = old.daily_stats@;
            let t = with_today(ds, today);
            law_stats_window(ds, today);
            let pushed = if ds.len() > 0 && ds.last().date@ == today@ { ds } else { ds.push(zero_day(today)) };
            let off = pushed.len() - t.len();
            assert forall|k: int| 0 <= k < t.len() implies #[trigger] t[k].correct <= t[k].reviews_done by {
                assert(t[k] == pushed[off + k]);
                if off + k < ds.len() {
                    assert(pushed[off + k] == ds[off + k]);
                }
            }
            let n = new.daily_stats@;
            assert(t[t.len() - 1].correct <= t[t.len() - 1].reviews_done);
            assert forall|k: int| 0 <= k < n.len() implies #[trigger] n[k].correct <= n[k].reviews_done by {
                if k < n.len() - 1 {
                    assert(n[k] == t[k]);
                }
            }
        }
    }
}

/// Today's count of new words grows by exactly the number a batch adds,
/// and today's entry stays the last, so the law holds again for the next
/// batch on the same day.
pub proof fn law_today_count_after_batch(
    old: LearningData,
    new: LearningData,
    words: Seq<String>,
    now: i64,
    today: String,
    count: int,
)
    requires
        today_last(old.daily_stats@, today@),
        add_batch_outcome(old, new, words, now, today, count),
    ensures
        added_on(new.daily_stats@, today@) == added_on(old.daily_stats@, today@) + count,
        today_last(new.daily_stats@, today@),
{
    lemma_batch(old.records@, words, now);
    if batch_fits(old, words, now, today) && count > 0 {
        let ds = old.daily_stats@;
        let t = with_today(ds, today);
        lemma_with_today_keeps(ds, today);
        let x = DailyStats { words_added: (t.last().words_added + count) as u32, ..t.last() };
        lemma_set_last_today(t, today@, x);
    }
}

/// Adding one word raises today's count of new words by one exactly when
/// the word was new, and today's entry stays the last.
pub proof fn law_today_count_after_add(
    old: LearningData,
    new: LearningData,
    word: String,
    now: i64,
    today: String,
    added: bool,
)
    requires
        today_last(old.daily_stats@, today@),
        add_word_outcome(old, new, word, now, today, added),
    ensures
        added_on(new.daily_stats@, today@) == added_on(old.daily_stats@, today@) + if added { 1int } else { 0int },
        today_last(new.daily_stats@, today@),
{
    if add_fits(old, now, today, 1) && added {
        let ds = old.daily_stats@;
        let t = with_today(ds, today);
        lemma_with_today_keeps(ds, today);
        let x = DailyStats { words_added: (t.last().words_added + 1) as u32, ..t.last() };
        lemma_set_last_today(t, today@, x);
    }
}

/// What one review of a kept word does, in one piece: the counters stay
/// consistent, the word's record moves on the schedule and no other record
/// changes, today's entry ends the statistics with one more review (and
/// one more remembered answer when it was remembered) than today had
/// before, and the streak's last day is today.
pub proof fn law_review_effect(
    old: LearningData,
    new: LearningData,
    w: Seq<char>,
    result: ReviewResult,
    now: i64,
    today: String,
)
    requires
        counts_consistent(old),
        has_word(old.records@, w),
        review_fits_data(old, w, result, now, today),
        review_outcome(old, new, w, result, now, today),
    ensures
        counts_consistent(new),
        new.records@.len() == old.records@.len(),
        forall|k: int| 0 <= k < old.records@.len() && old.records@[k].word@ != w ==> #[trigger] new.records@[k] == old.records@[k],
        new.records@[index_of(old.records@, w)] == reviewed(old.records@[index_of(old.records@, w)], result, now),
        ({
            let ds = old.daily_stats@;
            let before = if ds.len() > 0 && ds.last().date@ == today@ { ds.last() } else { zero_day(today) };
            &&& new.daily_stats@.len() >= 1
            &&& new.daily_stats@.last().date@ == today@
            &&& new.daily_stats@.last().reviews_done == before.reviews_done + 1
            &&& new.daily_stats@.last().correct == before.correct + if result == ReviewResult::Remembered { 1int } else { 0int }
        }),
        new.streak_last_date == Some(today),
{
    law_review_keeps_counts(old, new, w, result, now, today);
    let h = choose|h: int| 0 <= h < old.records@.len() && #[trigger] old.records@[h].word@ == w;
    lemma_index_of(old.records@, w, h);
    lemma_with_today_last(old.daily_stats@, today);
    law_stats_window(old.daily_stats@, today);
}

/// Adding a new word and then removing it gives back the records as they
/// were (today's count of added words stays raised).
pub proof fn law_add_then_remove(old: LearningData, added: LearningData, word: String, now: i64, today: String)
    requires
        add_word_outcome(old, added, word, now, today, true),
    ensures
        has_word(added.records@, word@),
        index_of(added.records@, word@) == old.records@.len(),
        added.records@.remove(index_of(added.records@, word@)) == old.records@,
{
    let r = added.records@;
    let n = old.records@.len() as int;
    assert(r[n] == new_record(word, now));
    assert forall|j: int| 0 <= j < n implies #[trigger] r[j].word@ != word@ by {
        assert(r[j] == old.records@[j]);
    }
    lemma_first_match_unique(r, word@, n);
    assert(r.remove(n) =~= old.records@);
}

/// A word is mastered by the review that remembers it at stage 8 or beyond,
/// and by no other: a remembered review below stage 8 moves the record one
/// stage up, leaves it unmastered as it was and schedules it that stage's
/// interval after the review; today's count of mastered words grows by one
/// exactly when the word is mastered.
pub proof fn law_mastery(
    old: LearningData,
    new: LearningData,
    w: Seq<char>,
    result: ReviewResult,
    now: i64,
    today: String,
)
    requires
        has_word(old.records@, w),
        review_fits_data(old, w, result, now, today),
        review_outcome(old, new, w, result, now, today),
    ensures
        ({
            let i = index_of(old.records@, w);
            let rec = old.records@[i];
            let after = new.records@[i];
            let ds = old.daily_stats@;
            let before = if ds.len() > 0 && ds.last().date@ == today@ { ds.last() } else { zero_day(today) };
            &&& 0 <= i < new.records@.len()
            &&& (result == ReviewResult::Remembered && rec.stage < 8) ==> {
                &&& after.stage == rec.stage + 1
                &&& after.is_mastered == rec.is_mastered
                &&& after.next_review_at == now + interval_ms(rec.stage + 1)
                &&& new.daily_stats@.last().words_mastered == before.words_mastered
            }
            &&& (result == ReviewResult::Remembered && rec.stage >= 8) ==> {
                &&& after.stage == rec.stage
                &&& after.is_mastered
                &&& after.next_review_at == i64::MAX
                &&& new.daily_stats@.last().words_mastered == before.words_mastered + 1
            }
            &&& result != ReviewResult::Remembered ==> {
                &&& after.is_mastered == rec.is_mastered
                &&& new.daily_stats@.last().words_mastered == before.words_mastered
            }
        }),
{
    let h = choose|h: int| 0 <= h < old.records@.len() && #[trigger] old.records@[h].word@ == w;
    lemma_index_of(old.records@, w, h);
    lemma_with_today_last(old.daily_stats@, today);
}

/// Today's review counters count each review: after a review of a kept
/// word, today's reviews grow by one and today's remembered answers by one
/// exactly when it was remembered, and so do the figures the statistics
/// report for today.
pub proof fn law_today_counts_after_review(
    old: LearningData,
    new: LearningData,
    w: Seq<char>,
    result: ReviewResult,
    now: i64,
    today: String,
)
    requires
        today_last(old.daily_stats@, today@),
        has_word(old.records@, w),
        review_fits_data(old, w, result, now, today),
        review_outcome(old, new, w, result, now, today),
    ensures
        reviews_on(new.daily_stats@, today@) == reviews_on(old.daily_stats@, today@) + 1,
        correct_on(new.daily_stats@, today@) == correct_on(old.daily_stats@, today@)
            + if result == ReviewResult::Remembered { 1int } else { 0int },
        today_last(new.daily_stats@, today@),
        forall|s1: LearningStatsResponse, s2: LearningStatsResponse, t1: i64, t2: i64|
            #![trigger stats_of(old, today@, t1, s1), stats_of(new, today@, t2, s2)]
            stats_of(old, today@, t1, s1) && stats_of(new, today@, t2, s2) ==> {
                &&& s2.today_reviews == s1.today_reviews + 1
                &&& s2.today_correct == s1.today_correct + if result == ReviewResult::Remembered { 1int } else { 0int }
            },
{
    let h = choose|h: int| 0 <= h < old.records@.len() && #[trigger] old.records@[h].word@ == w;
    lemma_index_of(old.records@, w, h);
    let ds = old.daily_stats@;
    let t = with_today(ds, today);
    lemma_with_today_keeps(ds, today);
    let rec = old.records@[index_of(old.records@, w)];
    let l = t.last();
    let x = DailyStats {
        reviews_done: (l.reviews_done + 1) as u32,
        correct: if result == ReviewResult::Remembered { (l.correct + 1) as u32 } else { l.correct },
        words_mastered: if masters(rec, result) { (l.words_mastered + 1) as u32 } else { l.words_mastered },
        ..l
    };
    assert(new.daily_stats@ == set_last(t, x));
    lemma_set_last_today(t, today@, x);
}

/// The "in progress" listing holds exactly the records that are not
/// mastered, due or not, and the "mastered" listing exactly the mastered
/// ones: together they hold every record once.
pub proof fn law_progress_listing(recs: Seq<LearningRecord>, now: i64)
    ensures
        listed_records(recs, "in_progress"@, now).len() + listed_records(recs, "mastered"@, now).len() == recs.len(),
        forall|k: int| 0 <= k < recs.len() && !recs[k].is_mastered ==> listed_records(recs, "in_progress"@, now).contains(#[trigger] recs[k]),
        forall|k: int| 0 <= k < recs.len() && recs[k].is_mastered ==> listed_records(recs, "mastered"@, now).contains(#[trigger] recs[k]),
        forall|r: LearningRecord| #[trigger] listed_records(recs, "in_progress"@, now).contains(r) ==> !r.is_mastered && recs.contains(r),
        forall|r: LearningRecord| #[trigger] listed_records(recs, "mastered"@, now).contains(r) ==> r.is_mastered && recs.contains(r),
{
    broadcast use vstd::seq_lib::group_filter_ensures, Seq::lemma_filter_contains_rev;

    reveal_strlit("in_progress");
    reveal_strlit("mastered");
    reveal_strlit("due");
    assert("in_progress"@ != "mastered"@) by {
        assert("in_progress"@.len() != "mastered"@.len());
    }
    let f = |x: LearningRecord| listed("in_progress"@, x, now);
    let g = |x: LearningRecord| !x.is_mastered;
    let fm = |x: LearningRecord| listed("mastered"@, x, now);
    let gm = |x: LearningRecord| x.is_mastered;
    assert(f =~= g);
    assert(fm =~= gm);
    assert(listed_records(recs, "in_progress"@, now) == recs.filter(g));
    assert(listed_records(recs, "mastered"@, now) == mastered_records(recs));
    law_stats_partition(recs);
}

/// The forgetting-curve intervals: 5 and 30 minutes, 12 hours, then 1, 2,
/// 4, 7, 15 and 30 days, each longer than the one before.
pub proof fn law_schedule_intervals()
    ensures
        interval_ms(0) == 5 * 60 * 1000,
        interval_ms(1) == 30 * 60 * 1000,
        interval_ms(2) == 12 * 60 * 60 * 1000,
        interval_ms(3) == 1 * 24 * 60 * 60 * 1000,
        interval_ms(4) == 2 * 24 * 60 * 60 * 1000,
        interval_ms(5) == 4 * 24 * 60 * 60 * 1000,
        interval_ms(6) == 7 * 24 * 60 * 60 * 1000,
        interval_ms(7) == 15 * 24 * 60 * 60 * 1000,
        interval_ms(8) == 30 * 24 * 60 * 60 * 1000,
        forall|s: int| 0 <= s < 8 ==> interval_ms(s) < #[trigger] interval_ms(s + 1),
{
}

} // verus!
