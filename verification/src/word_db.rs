//! The word books: their entries, paging through them and looking words up.
use vstd::prelude::*;
use rand::seq::SliceRandom;

verus! {

/// One dictionary entry of a word book.
#[derive(Debug)]
pub struct WordEntry {
    pub word: String,
    pub phonetic: String,
    pub trans: String,
    pub sentence_en: String,
    pub sentence_cn: String,
}

impl Clone for WordEntry {
    fn clone(&self) -> (r: Self)
        ensures
            r == *self,
    {
        WordEntry {
            word: self.word.clone(),
            phonetic: self.phonetic.clone(),
            trans: self.trans.clone(),
            sentence_en: self.sentence_en.clone(),
            sentence_cn: self.sentence_cn.clone(),
        }
    }
}

/// The word books the application ships, in their fixed order.
#[derive(Debug, Clone, Copy, PartialEq, Eq, Structural)]
pub enum WordBook {
    Cet4Cet6,
    Toefl,
    Ielts,
    Gre,
    Kaoyan,
}

/// The number of word books.
pub open spec fn book_count() -> int {
    5
}

/// The position of a book in the fixed order.
pub open spec fn book_index(b: WordBook) -> int {
    match b {
        WordBook::Cet4Cet6 => 0,
        WordBook::Toefl => 1,
        WordBook::Ielts => 2,
        WordBook::Gre => 3,
        WordBook::Kaoyan => 4,
    }
}

/// The book at a position; any position past the last names the first book.
pub open spec fn book_at(i: int) -> WordBook {
    if i == 1 {
        WordBook::Toefl
    } else if i == 2 {
        WordBook::Ielts
    } else if i == 3 {
        WordBook::Gre
    } else if i == 4 {
        WordBook::Kaoyan
    } else {
        WordBook::Cet4Cet6
    }
}

/// The name shown for a book.
pub open spec fn book_label(b: WordBook) -> Seq<char> {
    match b {
        WordBook::Cet4Cet6 => "四六级"@,
        WordBook::Toefl => "托福"@,
        WordBook::Ielts => "雅思"@,
        WordBook::Gre => "GRE"@,
        WordBook::Kaoyan => "考研"@,
    }
}

impl WordBook {
    /// The name shown for the book.
    pub fn label(&self) -> (r: &'static str)
        ensures
            r@ == book_label(*self),
    {
        match self {
            WordBook::Cet4Cet6 => "四六级",
            WordBook::Toefl => "托福",
            WordBook::Ielts => "雅思",
            WordBook::Gre => "GRE",
            WordBook::Kaoyan => "考研",
        }
    }

    /// All books in their fixed order.
    pub fn all() -> (r: &'static [WordBook])
        ensures
            r@ == seq![WordBook::Cet4Cet6, WordBook::Toefl, WordBook::Ielts, WordBook::Gre, WordBook::Kaoyan],
    {
        &[WordBook::Cet4Cet6, WordBook::Toefl, WordBook::Ielts, WordBook::Gre, WordBook::Kaoyan]
    }

    /// The book at position `i`; the first book for any position past the last.
    pub fn from_index(i: usize) -> (r: Self)
        ensures
            r == book_at(i as int),
    {
        match i {
            0 => WordBook::Cet4Cet6,
            1 => WordBook::Toefl,
            2 => WordBook::Ielts,
            3 => WordBook::Gre,
            4 => WordBook::Kaoyan,
            _ => WordBook::Cet4Cet6,
        }
    }

    /// The position of the book.
    pub fn index(&self) -> (r: usize)
        ensures
            r == book_index(*self),
    {
        match self {
            WordBook::Cet4Cet6 => 0,
            WordBook::Toefl => 1,
            WordBook::Ielts => 2,
            WordBook::Gre => 3,
            WordBook::Kaoyan => 4,
        }
    }
}

/// Calls `rand::seq::SliceRandom::choose` on `words` with the thread-local
/// generator `rand::thread_rng()`. As its documentation says, the result is
/// one element of the slice, or `None` exactly when the slice is empty; which
/// element depends on chance and is not stated.
#[verifier::external_body]
fn choose_random(words: &[WordEntry]) -> (r: Option<&WordEntry>)
    ensures
        r is None <==> words@.len() == 0,
        r matches Some(e) ==> words@.contains(*e),
{
    words.choose(&mut rand::thread_rng())
}

/// The entries of `words` from `start` up to (not including) `end`.
fn copy_range(words: &Vec<WordEntry>, start: usize, end: usize) -> (r: Vec<WordEntry>)
    requires
        start <= end <= words@.len(),
    ensures
        r@ == words@.subrange(start as int, end as int),
{
    let mut out: Vec<WordEntry> = Vec::new();
    let mut i = start;
    while i < end
        invariant
            start <= i <= end,
            end <= words@.len(),
            out@ == words@.subrange(start as int, i as int),
        decreases end - i,
    {
        out.push(words[i].clone());
        proof {
            assert(out@ =~= words@.subrange(start as int, i + 1));
        }
        i += 1;
    }
    out
}

/// The entries of a window of `size` entries starting at `start`, cut off at
/// the end of `words`; empty where `start` lies past the end.
pub open spec fn window(words: Seq<WordEntry>, start: int, size: int) -> Seq<WordEntry> {
    if start >= words.len() {
        Seq::empty()
    } else {
        words.subrange(start, if start + size < words.len() { start + size } else { words.len() as int })
    }
}

/// The word books with one of them in use.
pub struct WordDbInner {
    books: Vec<Vec<WordEntry>>,
    active_book: usize,
}

impl WordDbInner {
    /// The entries of each book.
    pub closed spec fn books(&self) -> Seq<Seq<WordEntry>> {
        self.books@.map_values(|b: Vec<WordEntry>| b@)
    }

    /// The position of the book in use.
    pub closed spec fn active(&self) -> int {
        self.active_book as int
    }

    /// The entries of the book in use.
    pub open spec fn active_entries(&self) -> Seq<WordEntry> {
        self.books()[self.active()]
    }

    /// Word books `books`, the first of them in use.
    pub fn new(books: Vec<Vec<WordEntry>>) -> (r: Self)
        requires
            books@.len() > 0,
        ensures
            r.books() == books@.map_values(|b: Vec<WordEntry>| b@),
            r.active() == 0,
            r.wf(),
    {
        WordDbInner { books, active_book: 0 }
    }

    /// The book in use is one of the books.
    pub open spec fn wf(&self) -> bool {
        0 <= self.active() < self.books().len()
    }

    /// Puts the book at `index` in use; an index past the last book is ignored.
    pub fn set_active_book(&mut self, index: usize)
        ensures
            final(self).books() == old(self).books(),
            old(self).wf() ==> final(self).wf(),
            final(self).active() == if index < old(self).books().len() {
                index as int
            } else {
                old(self).active()
            },
    {
        if index < self.books.len() {
            self.active_book = index;
        }
    }

    /// The position of the book in use: always one of the books, whatever
    /// books were put in use since the store was made.
    pub fn active_book_index(&self) -> (r: usize)
        ensures
            r == self.active(),
            self.wf() ==> r < self.books().len(),
    {
        self.active_book
    }

    /// The entries of the book in use.
    fn active_words(&self) -> (r: &Vec<WordEntry>)
        requires
            self.wf(),
        ensures
            r@ == self.active_entries(),
    {
        &self.books[self.active_book]
    }

    /// A random entry of the book in use; `None` exactly when that book is empty.
    pub fn random_word(&self) -> (r: Option<&WordEntry>)
        requires
            self.wf(),
        ensures
            r is None <==> self.active_entries().len() == 0,
            r matches Some(e) ==> self.active_entries().contains(*e),
    {
        choose_random(self.active_words().as_slice())
    }

    /// The page `page` of `page_size` entries of the book in use (the last
    /// page may be shorter; a page past the end is empty).
    pub fn get_page(&self, page: usize, page_size: usize) -> (r: Vec<WordEntry>)
        requires
            self.wf(),
            page * page_size <= usize::MAX,
            page * page_size < self.active_entries().len() ==> page * page_size + page_size <= usize::MAX,
        ensures
            r@ == window(self.active_entries(), page * page_size, page_size as int),
    {
        let words = self.active_words();
        let start = page * page_size;
        if start >= words.len() {
            return Vec::new();
        }
        let end = if start + page_size < words.len() { start + page_size } else { words.len() };
        copy_range(words, start, end)
    }

    /// How many entries the book in use has.
    pub fn total_words(&self) -> (r: usize)
        requires
            self.wf(),
        ensures
            r == self.active_entries().len(),
    {
        self.active_words().len()
    }

    /// Up to `count` entries of the book at `book_index` from position
    /// `start` on; empty for a book or a start that does not exist.
    pub fn get_sequential_words(&self, book_index: usize, start: usize, count: usize) -> (r: Vec<WordEntry>)
        requires
            book_index < self.books().len() && start < self.books()[book_index as int].len()
                ==> start + count <= usize::MAX,
        ensures
            r@ == if book_index < self.books().len() {
                window(self.books()[book_index as int], start as int, count as int)
            } else {
                Seq::empty()
            },
    {
        if book_index >= self.books.len() {
            return Vec::new();
        }
        let words = &self.books[book_index];
        if start >= words.len() {
            return Vec::new();
        }
        let end = if start + count < words.len() { start + count } else { words.len() };
        copy_range(words, start, end)
    }

    /// How many entries the book at `book_index` has; 0 for a book that does
    /// not exist.
    pub fn book_total_words(&self, book_index: usize) -> (r: usize)
        ensures
            r == if book_index < self.books().len() {
                self.books()[book_index as int].len()
            } else {
                0
            },
    {
        if book_index >= self.books.len() {
            return 0;
        }
        self.books[book_index].len()
    }

    /// The first entry for `word`, searching the books in order.
    pub fn find_word(&self, word: &str) -> (r: Option<&WordEntry>)
        ensures
            match r {
                Some(e) => exists|b: int, i: int| found_at(self.books(), word@, b, i) && #[trigger] self.books()[b][i] == *e,
                None => forall|b: int, i: int| 0 <= b < self.books().len() && 0 <= i < self.books()[b].len()
                    ==> #[trigger] self.books()[b][i].word@ != word@,
            },
    {
        let w = word.to_string();
        let n = self.books.len();
        let mut b: usize = 0;
        while b < n
            invariant
                n == self.books@.len(),
                b <= n,
                forall|bb: int, i: int| 0 <= bb < b && 0 <= i < self.books()[bb].len()
                    ==> #[trigger] self.books()[bb][i].word@ != word@,
                w@ == word@,
            decreases n - b,
        {
            let book = &self.books[b];
            let m = book.len();
            let mut i: usize = 0;
            while i < m
                invariant
                    n == self.books@.len(),
                    b < n,
                    book@ == self.books()[b as int],
                    m == book@.len(),
                    i <= m,
                    forall|bb: int, k: int| 0 <= bb < b && 0 <= k < self.books()[bb].len()
                        ==> #[trigger] self.books()[bb][k].word@ != word@,
                    forall|k: int| 0 <= k < i ==> #[trigger] book@[k].word@ != word@,
                    w@ == word@,
                decreases m - i,
            {
                if book[i].word == w {
                    proof {
                        assert(found_at(self.books(), word@, b as int, i as int));
                    }
                    return Some(&book[i]);
                }
                i += 1;
            }
            b += 1;
        }
        None
    }
}

/// The entry at position `i` of book `b` is the first one for `w` when the
/// books are searched in order.
pub open spec fn found_at(books: Seq<Seq<WordEntry>>, w: Seq<char>, b: int, i: int) -> bool {
    &&& 0 <= b < books.len()
    &&& 0 <= i < books[b].len()
    &&& books[b][i].word@ == w
    &&& forall|bb: int, k: int| 0 <= bb < b && 0 <= k < books[bb].len() ==> #[trigger] books[bb][k].word@ != w
    &&& forall|k: int| 0 <= k < i ==> #[trigger] books[b][k].word@ != w
}


/// A book's position and the book at a position undo each other, and the
/// list of all books holds each book at its position.
pub proof fn law_book_positions(b: WordBook, i: int)
    ensures
        book_at(book_index(b)) == b,
        0 <= i < book_count() ==> book_index(book_at(i)) == i,
        0 <= book_index(b) < book_count(),
        seq![WordBook::Cet4Cet6, WordBook::Toefl, WordBook::Ielts, WordBook::Gre, WordBook::Kaoyan][book_index(b)] == b,
{
}

/// A window of entries holds at most `size` entries, each the entry at its
/// place from `start` on.
pub proof fn law_window(words: Seq<WordEntry>, start: int, size: int)
    requires
        0 <= start,
        0 <= size,
    ensures
        window(words, start, size).len() <= size,
        forall|k: int| 0 <= k < window(words, start, size).len() ==> #[trigger] window(words, start, size)[k] == words[start + k],
        start < words.len() ==> window(words, start, size).len() == if start + size < words.len() { size } else { words.len() - start },
{
}

} // verus!
