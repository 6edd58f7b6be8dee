//! The word list pages and the word card of the wallpaper.
use vstd::prelude::*;
use crate::text::{
    is_whitespace, lemma_split_append, lemma_split_prefix, lemma_split_single, trim_back, trim_front, chars_of, decimal, push_decimal, replace_all, replace_all_chars, split_chars, split_on, starts_with,
    starts_with_chars, string_of, trim, trim_chars, views,
};
use crate::state::WallpaperMode;
use crate::word_db::{window, WordDbInner, WordEntry};

verus! {

broadcast use vstd::string::group_string_axioms;

/// An opening bracket, ASCII or full-width.
pub open spec fn is_open_bracket(c: char) -> bool {
    c == '(' || c == '（'
}

/// A closing bracket, ASCII or full-width.
pub open spec fn is_close_bracket(c: char) -> bool {
    c == ')' || c == '）'
}

/// `s` without bracketed notes, read from the left with the bracket depth
/// `depth`: brackets are dropped, an opening one deepens and a closing one
/// shallows the depth, and other characters are kept only at depth 0 or below.
pub open spec fn strip_notes(s: Seq<char>, depth: int) -> Seq<char>
    decreases s.len(),
{
    if s.len() == 0 {
        Seq::empty()
    } else if is_open_bracket(s[0]) {
        strip_notes(s.drop_first(), depth + 1)
    } else if is_close_bracket(s[0]) {
        strip_notes(s.drop_first(), depth - 1)
    } else if depth > 0 {
        strip_notes(s.drop_first(), depth)
    } else {
        seq![s[0]] + strip_notes(s.drop_first(), depth)
    }
}

/// One sense of a translation, shortened: trimmed, without bracketed notes,
/// and cut to its first two comma-separated (full-width comma) sub-senses.
pub open spec fn short_sense(p: Seq<char>) -> Seq<char> {
    let r = strip_notes(trim(p), 0);
    let parts = split_on(r, '，');
    if parts.len() > 2 {
        parts[0] + seq!['，'] + parts[1]
    } else {
        r
    }
}

/// A translation shortened for the word list: its first two `;`-separated
/// senses, each shortened, joined by "; ".
pub open spec fn short_trans(t: Seq<char>) -> Seq<char> {
    let senses = split_on(t, ';');
    if senses.len() >= 2 {
        short_sense(senses[0]) + seq![';', ' '] + short_sense(senses[1])
    } else {
        short_sense(senses[0])
    }
}

/// Text without brackets loses nothing to note stripping at depth 0.
proof fn lemma_strip_plain(s: Seq<char>)
    requires
        forall|i: int| 0 <= i < s.len() ==> !is_open_bracket(#[trigger] s[i]) && !is_close_bracket(s[i]),
    ensures
        strip_notes(s, 0) == s,
    decreases s.len(),
{
    if s.len() > 0 {
        let d = s.drop_first();
        assert forall|i: int| 0 <= i < d.len() implies !is_open_bracket(#[trigger] d[i]) && !is_close_bracket(d[i]) by {
            assert(d[i] == s[i + 1]);
        }
        lemma_strip_plain(d);
        assert(seq![s[0]] + d =~= s);
    }
}

/// A plain sense: no sense separator, no brackets, no full-width comma, and
/// no white space at either end.
pub open spec fn plain_sense(s: Seq<char>) -> bool {
    &&& forall|i: int| 0 <= i < s.len() ==> {
        &&& #[trigger] s[i] != ';'
        &&& s[i] != '，'
        &&& !is_open_bracket(s[i])
        &&& !is_close_bracket(s[i])
    }
    &&& s.len() > 0 ==> !is_whitespace(s[0]) && !is_whitespace(s.last())
}

/// A plain sense is kept as it is.
pub proof fn law_plain_sense_kept(s: Seq<char>)
    requires
        plain_sense(s),
    ensures
        short_sense(s) == s,
{
    assert(trim_front(s) == s);
    assert(trim_back(s) == s);
    lemma_strip_plain(s);
    lemma_split_single(s, '，');
}

/// A translation of one sense is that sense, shortened.
pub proof fn law_one_sense(a: Seq<char>)
    requires
        forall|i: int| 0 <= i < a.len() ==> a[i] != ';',
    ensures
        short_trans(a) == short_sense(a),
{
    lemma_split_single(a, ';');
}

/// A translation of exactly two senses keeps both, each shortened, joined
/// by "; "; two plain senses come through unchanged.
pub proof fn law_two_senses(a: Seq<char>, b: Seq<char>)
    requires
        forall|i: int| 0 <= i < a.len() ==> a[i] != ';',
        forall|i: int| 0 <= i < b.len() ==> b[i] != ';',
    ensures
        short_trans(a + seq![';'] + b) == short_sense(a) + seq![';', ' '] + short_sense(b),
        plain_sense(a) && plain_sense(b) ==> short_trans(a + seq![';'] + b) == a + seq![';', ' '] + b,
{
    lemma_split_single(a, ';');
    lemma_split_append(a + seq![';'], b, ';');
    assert((a + seq![';']).drop_last() =~= a);
    assert(split_on(a + seq![';'], ';') =~= seq![a, Seq::<char>::empty()]);
    assert(Seq::<char>::empty() + b =~= b);
    assert(split_on(a + seq![';'] + b, ';') =~= seq![a, b]);
    if plain_sense(a) && plain_sense(b) {
        law_plain_sense_kept(a);
        law_plain_sense_kept(b);
    }
}

/// A translation of more than two senses keeps only the first two, each
/// shortened, joined by "; ": what follows the second separator is dropped.
pub proof fn law_first_two_senses(a: Seq<char>, b: Seq<char>, rest: Seq<char>)
    requires
        forall|i: int| 0 <= i < a.len() ==> a[i] != ';',
        forall|i: int| 0 <= i < b.len() ==> b[i] != ';',
    ensures
        short_trans(a + seq![';'] + b + seq![';'] + rest) == short_sense(a) + seq![';', ' '] + short_sense(b),
{
    law_two_senses(a, b);
    lemma_split_single(a, ';');
    lemma_split_append(a + seq![';'], b, ';');
    assert((a + seq![';']).drop_last() =~= a);
    assert(Seq::<char>::empty() + b =~= b);
    assert(split_on(a + seq![';'] + b, ';') =~= seq![a, b]);
    lemma_split_prefix(a + seq![';'] + b, rest, ';');
    let t = a + seq![';'] + b + seq![';'] + rest;
    assert(split_on(t, ';')[0] == a);
    assert(split_on(t, ';')[1] == b);
}

/// `cs` without bracketed notes.
fn strip_notes_chars(cs: &Vec<char>) -> (r: Vec<char>)
    ensures
        r@ == strip_notes(cs@, 0),
{
    let n = cs.len();
    let mut out: Vec<char> = Vec::new();
    let mut depth: i128 = 0;
    let mut i: usize = 0;
    proof {
        assert(cs@.skip(0) =~= cs@);
    }
    while i < n
        invariant
            n == cs@.len(),
            i <= n,
            -(i as int) <= depth <= i as int,
            out@ + strip_notes(cs@.skip(i as int), depth as int) == strip_notes(cs@, 0),
        decreases n - i,
    {
        let c = cs[i];
        proof {
            assert(cs@.skip(i as int).drop_first() =~= cs@.skip(i + 1));
            assert(cs@.skip(i as int)[0] == c);
        }
        if c == '(' || c == '（' {
            depth = depth + 1;
        } else if c == ')' || c == '）' {
            depth = depth - 1;
        } else if depth > 0 {
        } else {
            let ghost before = out@;
            out.push(c);
            proof {
                assert(out@ =~= before + seq![c]);
                assert(before + (seq![c] + strip_notes(cs@.skip(i + 1), depth as int)) =~= out@
                    + strip_notes(cs@.skip(i + 1), depth as int));
            }
        }
        i += 1;
    }
    proof {
        assert(cs@.skip(n as int) =~= Seq::<char>::empty());
        assert(out@ + Seq::<char>::empty() =~= out@);
    }
    out
}

/// Appends the characters `b` to `a`.
fn append_chars(a: &mut Vec<char>, b: &Vec<char>)
    ensures
        final(a)@ == old(a)@ + b@,
{
    let n = b.len();
    let mut i: usize = 0;
    let ghost start = a@;
    while i < n
        invariant
            n == b@.len(),
            i <= n,
            a@ == start + b@.take(i as int),
        decreases n - i,
    {
        a.push(b[i]);
        proof {
            assert(a@ =~= start + b@.take(i + 1));
        }
        i += 1;
    }
    proof {
        assert(b@.take(n as int) =~= b@);
    }
}

/// One sense of a translation, shortened (see `short_sense`).
fn short_sense_chars(p: &Vec<char>) -> (r: Vec<char>)
    ensures
        r@ == short_sense(p@),
{
    let t = trim_chars(p);
    let stripped = strip_notes_chars(&t);
    let parts = split_chars(&stripped, '，');
    if parts.len() > 2 {
        let mut out: Vec<char> = Vec::new();
        append_chars(&mut out, &parts[0]);
        out.push('，');
        append_chars(&mut out, &parts[1]);
        proof {
            assert(views(parts@)[0] == parts@[0]@);
            assert(views(parts@)[1] == parts@[1]@);
            assert(out@ =~= parts@[0]@ + seq!['，'] + parts@[1]@);
        }
        out
    } else {
        stripped
    }
}

/// A translation shortened for the word list (see `short_trans`).
pub fn shorten_trans(trans: &str) -> (r: String)
    ensures
        r@ == short_trans(trans@),
{
    let cs = chars_of(trans);
    let senses = split_chars(&cs, ';');
    proof {
        assert(views(senses@)[0] == senses@[0]@);
    }
    let mut out = short_sense_chars(&senses[0]);
    if senses.len() >= 2 {
        proof {
            assert(views(senses@)[1] == senses@[1]@);
        }
        out.push(';');
        out.push(' ');
        let second = short_sense_chars(&senses[1]);
        append_chars(&mut out, &second);
        proof {
            assert(out@ =~= short_sense(senses@[0]@) + seq![';', ' '] + short_sense(senses@[1]@));
        }
    }
    string_of(&out)
}


/// One line of the word list.
#[derive(Debug)]
pub struct WordPageItem {
    pub word: String,
    pub phonetic: String,
    pub trans: String,
}

/// One page of the word list.
#[derive(Debug)]
pub struct WordPage {
    pub words: Vec<WordPageItem>,
    pub current_page: usize,
    pub total_pages: usize,
}

/// The page size used: 5 where none (0) is asked for.
pub open spec fn page_size_used(page_size: usize) -> int {
    if page_size == 0 {
        5
    } else {
        page_size as int
    }
}

/// How many pages of `size` entries `total` entries fill.
pub open spec fn page_count(total: int, size: int) -> int {
    (total + size - 1) / size
}

/// The page shown when `page` is asked for: at most the last page (page 0
/// when there is none).
pub open spec fn page_shown(page: int, pages: int) -> int {
    let last = if pages >= 1 { pages - 1 } else { 0 };
    if page < last {
        page
    } else {
        last
    }
}

/// `item` lists the entry `e`: its word, its phonetic and its shortened
/// translation.
pub open spec fn lists(item: WordPageItem, e: WordEntry) -> bool {
    &&& item.word == e.word
    &&& item.phonetic == e.phonetic
    &&& item.trans@ == short_trans(e.trans@)
}

/// A page that is shown starts inside the entries and ends within reach.
proof fn lemma_page_bounds(total: int, size: int, p: int)
    by (nonlinear_arith)
    requires
        total >= 0,
        size >= 1,
        0 <= p,
        p <= page_shown(p, page_count(total, size)),
        page_count(total, size) >= 1 ==> p <= page_count(total, size) - 1,
        page_count(total, size) == 0 ==> p == 0,
    ensures
        p * size <= total,
        p * size < total ==> p * size + size <= total + size - 1,
{
    let pages = (total + size - 1) / size;
    if pages >= 1 {
        assert(pages * size <= total + size - 1);
        assert(p * size <= (pages - 1) * size);
    }
}

/// The page `page` of the word list of the book in use, `page_size` entries
/// to a page (5 where 0 is asked for); a page past the last shows the last.
pub fn get_word_page(word_db: &WordDbInner, page: usize, page_size: usize) -> (r: WordPage)
    requires
        word_db.wf(),
        word_db.active_entries().len() + page_size_used(page_size) - 1 <= usize::MAX,
    ensures
        r.total_pages == page_count(word_db.active_entries().len() as int, page_size_used(page_size)),
        r.current_page == page_shown(page as int, r.total_pages as int),
        r.words@.len() == window(
            word_db.active_entries(),
            r.current_page * page_size_used(page_size),
            page_size_used(page_size),
        ).len(),
        forall|i: int| 0 <= i < r.words@.len() ==> lists(
            #[trigger] r.words@[i],
            window(word_db.active_entries(), r.current_page * page_size_used(page_size), page_size_used(page_size))[i],
        ),
{
    let size = if page_size == 0 { 5 } else { page_size };
    let total = word_db.total_words();
    let total_pages = (total + (size - 1)) / size;
    let last = if total_pages >= 1 { total_pages - 1 } else { 0 };
    let p = if page < last { page } else { last };
    proof {
        lemma_page_bounds(total as int, size as int, p as int);
    }
    let entries = word_db.get_page(p, size);
    let n = entries.len();
    let mut words: Vec<WordPageItem> = Vec::new();
    let mut i: usize = 0;
    while i < n
        invariant
            n == entries@.len(),
            i <= n,
            words@.len() == i,
            forall|k: int| 0 <= k < i ==> lists(#[trigger] words@[k], entries@[k]),
        decreases n - i,
    {
        let e = &entries[i];
        let item = WordPageItem {
            word: e.word.clone(),
            phonetic: e.phonetic.clone(),
            trans: shorten_trans(e.trans.as_str()),
        };
        words.push(item);
        i += 1;
    }
    WordPage { words, current_page: p, total_pages }
}


/// The page shown always exists: with entries, the page number is below the
/// page count and the page holds between one and `size` entries; pages
/// cover all entries.
pub proof fn law_page_shown(total: int, size: int, page: int)
    requires
        total >= 0,
        size >= 1,
        page >= 0,
    ensures
        ({
            let pages = page_count(total, size);
            let p = page_shown(page, pages);
            &&& total > 0 ==> 0 <= p < pages
            &&& total > 0 ==> p * size < total
            &&& total == 0 ==> pages == 0 && p == 0
            &&& pages * size >= total
            &&& page < pages ==> p == page
        }),
{
    let pages = page_count(total, size);
    let p = page_shown(page, pages);
    assert(pages * size <= total + size - 1 && pages * size > total - 1) by (nonlinear_arith)
        requires
            pages == (total + size - 1) / size,
            size >= 1,
            total >= 0,
    ;
    if total > 0 {
        assert(pages >= 1) by (nonlinear_arith)
            requires
                pages * size > total - 1,
                total > 0,
                size >= 1,
        ;
        assert(p * size <= pages * size - size) by (nonlinear_arith)
            requires
                0 <= p <= pages - 1,
                size >= 1,
        ;
    } else {
        assert(pages == 0) by (nonlinear_arith)
            requires
                pages == (size - 1) / size,
                size >= 1,
        ;
    }
}

/// Where the picture for a new wallpaper comes from.
#[derive(Debug)]
pub enum WallpaperSource {
    /// The user's picture stored at `path`.
    Custom { path: String },
    /// A photograph to download.
    Download,
}

/// The source of the next wallpaper: the custom picture in custom mode
/// (an error where it is not set or no longer exists), a download otherwise.
pub fn wallpaper_source(mode: WallpaperMode, custom_path: Option<String>, custom_exists: bool) -> (r: Result<
    WallpaperSource,
    String,
>)
    ensures
        mode == WallpaperMode::Normal ==> r matches Ok(WallpaperSource::Download),
        mode == WallpaperMode::Custom ==> match custom_path {
            Some(p) => if custom_exists {
                r == Ok::<WallpaperSource, String>(WallpaperSource::Custom { path: p })
            } else {
                (r matches Err(e) && e@ == "Custom image not found"@)
            },
            None => (r matches Err(e) && e@ == "Custom image not found"@),
        },
{
    match mode {
        WallpaperMode::Normal => Ok(WallpaperSource::Download),
        WallpaperMode::Custom => match custom_path {
            Some(p) => {
                if custom_exists {
                    Ok(WallpaperSource::Custom { path: p })
                } else {
                    Err("Custom image not found".to_string())
                }
            },
            None => Err("Custom image not found".to_string()),
        },
    }
}

/// The fewest bytes a downloaded picture must have.
pub open spec fn min_image_bytes() -> int {
    10000
}

/// A download of `len` bytes is taken for a picture only from 10000 bytes on.
pub fn check_image_size(len: usize) -> (r: Result<(), String>)
    ensures
        len >= min_image_bytes() ==> r is Ok,
        len < min_image_bytes() ==> (r matches Err(e) && e@ == "Image too small, likely not a valid image"@),
{
    if len < 10000 {
        return Err("Image too small, likely not a valid image".to_string());
    }
    Ok(())
}

/// The address of the daily picture from the path `base` the picture service
/// gives: on the service's host unless it is already an address, and sized
/// `w` by `h` in place of 1920 by 1080.
pub open spec fn bing_url(base: Seq<char>, w: u32, h: u32) -> Seq<char> {
    let url = if starts_with(base, "http"@) { base } else { "https://www.bing.com"@ + base };
    replace_all(url, "1920x1080"@, decimal(w as nat) + seq!['x'] + decimal(h as nat))
}

/// The address of the daily picture (see `bing_url`).
pub fn bing_image_url(base: &str, w: u32, h: u32) -> (r: String)
    ensures
        r@ == bing_url(base@, w, h),
{
    let cs = chars_of(base);
    let http = chars_of("http");
    let url = if starts_with_chars(&cs, &http) {
        cs
    } else {
        let mut u = chars_of("https://www.bing.com");
        append_chars(&mut u, &cs);
        u
    };
    let mut size = String::new();
    push_decimal(&mut size, w as u64);
    push_char_to(&mut size, 'x');
    push_decimal(&mut size, h as u64);
    let rep = chars_of(size.as_str());
    let pat = chars_of("1920x1080");
    proof {
        reveal_strlit("1920x1080");
        assert(rep@ =~= decimal(w as nat) + seq!['x'] + decimal(h as nat));
    }
    let out = replace_all_chars(&url, &pat, &rep);
    string_of(&out)
}

fn push_char_to(s: &mut String, c: char)
    ensures
        final(s)@ == old(s)@.push(c),
{
    crate::text::push_char(s, c);
}

/// The largest width and the largest height among the displays' sizes
/// (each may come from a different display).
pub open spec fn max_size(sizes: Seq<(u32, u32)>) -> (u32, u32)
    decreases sizes.len(),
{
    if sizes.len() == 0 {
        (0, 0)
    } else {
        let m = max_size(sizes.drop_last());
        let s = sizes.last();
        (if s.0 > m.0 { s.0 } else { m.0 }, if s.1 > m.1 { s.1 } else { m.1 })
    }
}

/// The screen size to draw for: the largest width and height among the
/// displays, or 2560 by 1600 where either comes out as 0.
pub fn screen_size_from(sizes: &Vec<(u32, u32)>) -> (r: (u32, u32))
    ensures
        r == if max_size(sizes@).0 > 0 && max_size(sizes@).1 > 0 { max_size(sizes@) } else { (2560u32, 1600u32) },
{
    let mut w: u32 = 0;
    let mut h: u32 = 0;
    let n = sizes.len();
    let mut i: usize = 0;
    while i < n
        invariant
            n == sizes@.len(),
            i <= n,
            (w, h) == max_size(sizes@.take(i as int)),
        decreases n - i,
    {
        proof {
            assert(sizes@.take(i + 1).drop_last() =~= sizes@.take(i as int));
        }
        let (sw, sh) = sizes[i];
        if sw > w {
            w = sw;
        }
        if sh > h {
            h = sh;
        }
        i += 1;
    }
    proof {
        assert(sizes@.take(n as int) =~= sizes@);
    }
    if w > 0 && h > 0 {
        (w, h)
    } else {
        (2560, 1600)
    }
}

/// The names of `names` that begin with `prefix`, in order.
pub fn names_with_prefix(names: &Vec<String>, prefix: &str) -> (r: Vec<String>)
    ensures
        r@ == names@.filter(|n: String| starts_with(n@, prefix@)),
{
    let p = chars_of(prefix);
    let k = names.len();
    let mut out: Vec<String> = Vec::new();
    let mut i: usize = 0;
    while i < k
        invariant
            k == names@.len(),
            i <= k,
            p@ == prefix@,
            out@ == names@.take(i as int).filter(|n: String| starts_with(n@, prefix@)),
        decreases k - i,
    {
        proof {
            reveal_with_fuel(Seq::<_>::filter, 1);
            assert(names@.take(i + 1).drop_last() =~= names@.take(i as int));
        }
        let cs = chars_of(names[i].as_str());
        if starts_with_chars(&cs, &p) {
            out.push(names[i].clone());
        }
        i += 1;
    }
    proof {
        assert(names@.take(k as int) =~= names@);
    }
    out
}

/// The file name a custom picture is stored under: `custom_base.` with the
/// picture's extension, `jpg` where it has none.
pub fn custom_base_name(ext: Option<&str>) -> (r: String)
    ensures
        r@ == "custom_base."@ + match ext {
            Some(e) => e@,
            None => "jpg"@,
        },
{
    let mut name = "custom_base.".to_string();
    match ext {
        Some(e) => name.append(e),
        None => name.append("jpg"),
    }
    name
}

} // verus!
