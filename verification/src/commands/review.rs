//! Studying new words from the word books and reviewing them.
use vstd::prelude::*;
use crate::clock::{clock_reading, local_date_string, now_millis, ymd_day_number};
use crate::review_store::{
    review_outcome, add_batch_step, batch_count, has_word, progress_of, LearningData, ReviewResult, ReviewStoreInner,
};
use crate::word_db::{book_at, book_label, window, WordBook, WordDbInner, WordEntry};

verus! {

broadcast use vstd::std_specs::hash::group_hash_axioms, vstd::string::group_string_axioms;

/// The answer of a review as the interface names it: "remembered", "fuzzy",
/// and anything else counts as forgotten.
pub open spec fn result_named(s: Seq<char>) -> ReviewResult {
    if s == "remembered"@ {
        ReviewResult::Remembered
    } else if s == "fuzzy"@ {
        ReviewResult::Fuzzy
    } else {
        ReviewResult::Forgot
    }
}

/// The answer of a review named `result` (see `result_named`).
pub fn review_result_from_str(result: &str) -> (r: ReviewResult)
    ensures
        r == result_named(result@),
{
    let s = result.to_string();
    if s == "remembered".to_string() {
        ReviewResult::Remembered
    } else if s == "fuzzy".to_string() {
        ReviewResult::Fuzzy
    } else {
        ReviewResult::Forgot
    }
}

/// How an answer name is read: "remembered" and "fuzzy" name those
/// answers, and every other text, other spellings and the empty text among
/// them, counts as forgotten.
pub proof fn law_review_answer(s: Seq<char>)
    ensures
        result_named(s) == ReviewResult::Remembered <==> s == "remembered"@,
        result_named(s) == ReviewResult::Fuzzy <==> s == "fuzzy"@,
        result_named(s) == ReviewResult::Forgot <==> (s != "remembered"@ && s != "fuzzy"@),
{
    reveal_strlit("remembered");
    reveal_strlit("fuzzy");
    assert("remembered"@ != "fuzzy"@) by {
        assert("remembered"@.len() != "fuzzy"@.len());
    }
}

/// Records a review of `word` now with the answer named `result` (see
/// `result_named`); an unknown word, or a review that would overflow a
/// counter, leaves the store as it is.
pub fn submit_review(store: &mut ReviewStoreInner, word: &str, result: &str)
    ensures
        exists|now: i64, today: String| clock_reading(now) && ymd_day_number(today@) is Some
            && #[trigger] review_outcome(old(store).data(), final(store).data(), word@, result_named(result@), now, today),
        old(store).wf() ==> final(store).wf(),
{
    let r = review_result_from_str(result);
    store.submit_review(word, r);
}

/// At most the first `n` elements of `s`.
pub open spec fn first_n<T>(s: Seq<T>, n: int) -> Seq<T> {
    if n <= s.len() {
        s.take(n)
    } else {
        s
    }
}

/// The entries the word book in use offers next: three times `count` entries
/// from the learner's progress on (none for a book that does not exist).
pub open spec fn next_candidates(d: LearningData, books: Seq<Seq<WordEntry>>, count: int) -> Seq<WordEntry> {
    let b = d.config.active_book;
    if b < books.len() {
        window(books[b as int], progress_of(d.config.book_progress@, b) as int, 3 * count)
    } else {
        Seq::empty()
    }
}

/// The entries not under study yet.
pub open spec fn not_learning(d: LearningData, es: Seq<WordEntry>) -> Seq<WordEntry> {
    es.filter(|e: WordEntry| !has_word(d.records@, e.word@))
}

/// The next `count` new words: of the candidates from the learner's progress
/// on, those not under study yet, at most `count` of them.
pub fn get_new_words(store: &ReviewStoreInner, word_db: &WordDbInner, count: usize) -> (r: Vec<WordEntry>)
    requires
        count * 3 <= usize::MAX,
        ({
            let b = store.data().config.active_book;
            let p = progress_of(store.data().config.book_progress@, b);
            b < word_db.books().len() && p < word_db.books()[b as int].len() ==> p + count * 3 <= usize::MAX
        }),
    ensures
        r@ == first_n(not_learning(store.data(), next_candidates(store.data(), word_db.books(), count as int)), count as int),
{
    let book_index = store.get_active_book();
    let progress = store.get_book_progress(book_index);
    let candidates = word_db.get_sequential_words(book_index, progress, count * 3);
    let ghost cands = next_candidates(store.data(), word_db.books(), count as int);
    assert(candidates@ == cands);
    let n = candidates.len();
    let mut out: Vec<WordEntry> = Vec::new();
    let mut i: usize = 0;
    while i < n
        invariant
            n == candidates@.len(),
            i <= n,
            out@ == first_n(not_learning(store.data(), candidates@.take(i as int)), count as int),
        decreases n - i,
    {
        proof {
            reveal_with_fuel(Seq::<_>::filter, 1);
            assert(candidates@.take(i + 1).drop_last() =~= candidates@.take(i as int));
        }
        let e = &candidates[i];
        if !store.is_word_in_learning(e.word.as_str()) && out.len() < count {
            out.push(e.clone());
        }
        proof {
            let before = not_learning(store.data(), candidates@.take(i as int));
            let after = not_learning(store.data(), candidates@.take(i + 1));
            if before.len() >= count {
                assert(first_n(after, count as int) =~= first_n(before, count as int));
            } else {
                assert(first_n(after, count as int) =~= after);
            }
        }
        i += 1;
    }
    proof {
        assert(candidates@.take(n as int) =~= candidates@);
    }
    out
}

/// The new words offered are at most `count` entries of the book in use
/// from the learner's progress on, none of them under study yet.
pub proof fn law_new_words(d: LearningData, books: Seq<Seq<WordEntry>>, count: int)
    requires
        count >= 0,
    ensures
        first_n(not_learning(d, next_candidates(d, books, count)), count).len() <= count,
        forall|k: int| 0 <= k < first_n(not_learning(d, next_candidates(d, books, count)), count).len()
            ==> !has_word(d.records@, (#[trigger] first_n(not_learning(d, next_candidates(d, books, count)), count)[k]).word@),
        forall|k: int| 0 <= k < first_n(not_learning(d, next_candidates(d, books, count)), count).len()
            ==> next_candidates(d, books, count).contains(#[trigger] first_n(not_learning(d, next_candidates(d, books, count)), count)[k]),
{
    broadcast use vstd::seq_lib::group_filter_ensures, Seq::lemma_filter_contains_rev;

    let c = next_candidates(d, books, count);
    let f = not_learning(d, c);
    assert forall|k: int| 0 <= k < first_n(f, count).len() implies !has_word(d.records@, (#[trigger] first_n(f, count)[k]).word@) && c.contains(first_n(f, count)[k]) by {
        assert(first_n(f, count)[k] == f[k]);
        assert(f.contains(f[k]));
    }
}

/// The candidates for new words are the entries of the book in use from
/// that same book's progress on, in order, three times as many as asked
/// for where the book has them; a book that does not exist offers none.
pub proof fn law_candidates_from_own_progress(d: LearningData, books: Seq<Seq<WordEntry>>, count: int)
    requires
        count >= 0,
    ensures
        ({
            let b = d.config.active_book as int;
            let p = if d.config.book_progress@.contains_key(d.config.active_book) {
                d.config.book_progress@[d.config.active_book] as int
            } else {
                0
            };
            let c = next_candidates(d, books, count);
            &&& b >= books.len() ==> c.len() == 0
            &&& b < books.len() && p >= books[b].len() ==> c.len() == 0
            &&& b < books.len() && p < books[b].len() ==> c.len() == if p + 3 * count < books[b].len() {
                3 * count
            } else {
                books[b].len() - p
            }
            &&& b < books.len() ==> forall|k: int| 0 <= k < c.len() ==> #[trigger] c[k] == books[b][p + k]
        }),
{
    let b = d.config.active_book as int;
    if b < books.len() {
        crate::word_db::law_window(books[b], progress_of(d.config.book_progress@, d.config.active_book) as int, 3 * count);
    }
}

/// The progress kept for other books has no effect on the new words
/// offered: two stores with the same records, the same book in use and the
/// same progress in it are offered the same words.
pub proof fn law_other_books_progress_irrelevant(
    d1: LearningData,
    d2: LearningData,
    books: Seq<Seq<WordEntry>>,
    count: int,
)
    requires
        d1.records@ == d2.records@,
        d1.config.active_book == d2.config.active_book,
        progress_of(d1.config.book_progress@, d1.config.active_book) == progress_of(
            d2.config.book_progress@,
            d2.config.active_book,
        ),
    ensures
        first_n(not_learning(d1, next_candidates(d1, books, count)), count) == first_n(
            not_learning(d2, next_candidates(d2, books, count)),
            count,
        ),
{
    let c = next_candidates(d1, books, count);
    assert(next_candidates(d2, books, count) == c);
    let f1 = |e: WordEntry| !has_word(d1.records@, e.word@);
    let f2 = |e: WordEntry| !has_word(d2.records@, e.word@);
    assert(f1 =~= f2);
}

/// The progress in a book never passes its end once a batch is committed.
pub proof fn law_progress_capped(old: LearningData, new: LearningData, total: int, count: int)
    requires
        progress_after(old, new, total, count),
        count > 0,
        total >= 0,
    ensures
        progress_of(new.config.book_progress@, old.config.active_book) <= total,
        new.config.book_progress@.contains_key(old.config.active_book),
{
}

/// The settings after a batch of `count` new words from the book in use:
/// its progress moves on by `count`, but not past the book's end.
pub open spec fn progress_after(old: LearningData, new: LearningData, total: int, count: int) -> bool {
    let b = old.config.active_book;
    let p = progress_of(old.config.book_progress@, b);
    &&& new.config.daily_new_limit == old.config.daily_new_limit
    &&& new.config.active_book == b
    &&& new.config.book_progress@ == if count > 0 {
        old.config.book_progress@.insert(b, (if p + count < total { p + count } else { total }) as usize)
    } else {
        old.config.book_progress@
    }
}

/// `new` is `old` after committing the batch `words` at `now` on `today`,
/// `count` of them new, from a book with `total` entries: the batch is
/// added, and the progress in the book in use moves on.
pub open spec fn commit_step(
    old: LearningData,
    new: LearningData,
    total: int,
    words: Seq<String>,
    now: i64,
    today: String,
    count: int,
) -> bool {
    &&& add_batch_step(old, LearningData { config: old.config, ..new }, words, now, today, count)
    &&& progress_after(old, new, total, count)
}

/// What committing the batch `words` at `now` on `today` does: the step
/// where the batch is accepted and the progress cannot overflow, else nothing.
pub open spec fn commit_outcome(
    old: LearningData,
    new: LearningData,
    total: int,
    words: Seq<String>,
    now: i64,
    today: String,
    count: int,
) -> bool {
    if crate::review_store::batch_fits(old, words, now, today)
        && progress_of(old.config.book_progress@, old.config.active_book) + batch_count(old.records@, words, now) <= usize::MAX {
        commit_step(old, new, total, words, now, today, count)
    } else {
        count == 0 && new == old
    }
}

/// The number of entries of the book in use; 0 for a book that does not exist.
pub open spec fn active_total(d: LearningData, word_db: &WordDbInner) -> int {
    let b = d.config.active_book;
    if b < word_db.books().len() {
        word_db.books()[b as int].len() as int
    } else {
        0
    }
}

/// Starts studying the new words of `words` at `now` on `today` and moves the
/// progress in the book in use on by as many, up to the book's end; returns
/// how many were new.
pub fn commit_new_words_at(
    store: &mut ReviewStoreInner,
    word_db: &WordDbInner,
    words: Vec<String>,
    now: i64,
    today: &String,
) -> (r: u32)
    requires
        batch_count(old(store).data().records@, words@, now) <= u32::MAX,
        batch_count(old(store).data().records@, words@, now) > 0 ==> crate::review_store::add_fits(
            old(store).data(),
            now,
            *today,
            batch_count(old(store).data().records@, words@, now),
        ),
        progress_of(old(store).data().config.book_progress@, old(store).data().config.active_book)
            + batch_count(old(store).data().records@, words@, now) <= usize::MAX,
    ensures
        commit_step(
            old(store).data(),
            final(store).data(),
            active_total(old(store).data(), word_db),
            words@,
            now,
            *today,
            r as int,
        ),
        old(store).wf() ==> final(store).wf(),
{
    let book_index = store.get_active_book();
    let added = store.add_words_batch_at(words, now, today);
    if added > 0 {
        let book_total = word_db.book_total_words(book_index);
        let current = store.get_book_progress(book_index);
        let sum = current + added as usize;
        let new_progress = if sum < book_total { sum } else { book_total };
        let data = store.data_mut();
        data.config.book_progress.insert(book_index, new_progress);
    }
    added
}

/// Starts studying the new words of `words` now and moves the progress in
/// the book in use on by as many, up to the book's end; returns how many
/// were new. Where a counter or the progress would overflow, nothing changes
/// and the result is 0.
pub fn commit_new_words(store: &mut ReviewStoreInner, word_db: &WordDbInner, words: Vec<String>) -> (r: u32)
    ensures
        exists|now: i64, today: String| clock_reading(now) && ymd_day_number(today@) is Some && #[trigger] commit_outcome(
            old(store).data(),
            final(store).data(),
            active_total(old(store).data(), word_db),
            words@,
            now,
            today,
            r as int,
        ),
        old(store).wf() ==> final(store).wf(),
{
    let ghost old_d = store.data();
    let ghost ws = words@;
    let now = now_millis();
    let today = local_date_string();
    let book_index = store.get_active_book();
    let progress = store.get_book_progress(book_index);
    let c = store.new_word_count(&words, now);
    let r = if c <= u32::MAX as usize && (c == 0 || store.adding_fits(now, &today, c as u32))
        && progress <= usize::MAX - c {
        commit_new_words_at(store, word_db, words, now, &today)
    } else {
        0
    };
    assert(commit_outcome(old_d, store.data(), active_total(old_d, word_db), ws, now, today, r as int));
    r
}

/// Puts the word book at `index` in use, for the store and for the word list.
pub fn set_learning_book(store: &mut ReviewStoreInner, word_db: &mut WordDbInner, index: usize)
    ensures
        final(store).data() == (LearningData {
            config: crate::review_store::LearningConfig { active_book: index, ..old(store).data().config },
            ..old(store).data()
        }),
        final(word_db).books() == old(word_db).books(),
        old(word_db).wf() ==> final(word_db).wf(),
        final(word_db).active() == if index < old(word_db).books().len() {
            index as int
        } else {
            old(word_db).active()
        },
{
    store.set_active_book(index);
    word_db.set_active_book(index);
}

/// What the book chooser shows of a word book.
#[derive(Debug)]
pub struct BookInfo {
    pub index: usize,
    pub label: String,
    pub total: usize,
}

/// The book chooser's line for the book at `i`.
pub open spec fn book_info_of(word_db: &WordDbInner, i: int, info: BookInfo) -> bool {
    &&& info.index == i
    &&& info.label@ == book_label(book_at(i))
    &&& info.total == if i < word_db.books().len() { word_db.books()[i].len() as int } else { 0 }
}

/// The five word books: position, name and number of entries of each.
pub fn get_book_info(word_db: &WordDbInner) -> (r: Vec<BookInfo>)
    ensures
        r@.len() == 5,
        forall|i: int| 0 <= i < 5 ==> book_info_of(word_db, i, #[trigger] r@[i]),
{
    let mut out: Vec<BookInfo> = Vec::new();
    let mut i: usize = 0;
    while i < 5
        invariant
            i <= 5,
            out@.len() == i,
            forall|k: int| 0 <= k < i ==> book_info_of(word_db, k, #[trigger] out@[k]),
        decreases 5 - i,
    {
        let book = WordBook::from_index(i);
        out.push(BookInfo { index: i, label: book.label().to_string(), total: word_db.book_total_words(i) });
        i += 1;
    }
    out
}

} // verus!
