//! The user's idle time, from the system's last-input tick or from the
//! text the HID system reports.
use vstd::prelude::*;
use crate::text::{chars_of, contains_chars, contains_text, parse_u64, parse_u64_spec, split_chars, split_on, trim, trim_chars, views};

verus! {

/// Whole seconds since the last input, from the millisecond tick counter
/// `tick` and the tick `last_input` of the last input; the counter wraps
/// around at 2^32.
pub fn idle_seconds_from_ticks(tick: u32, last_input: u32) -> (r: u64)
    ensures
        r == (if tick >= last_input { tick - last_input } else { tick - last_input + 0x1_0000_0000 }) / 1000,
{
    let idle_ms = tick.wrapping_sub(last_input);
    (idle_ms / 1000) as u64
}

/// The lines of a text (as `str::lines`): split at line feeds, a carriage
/// return before a line feed dropped, and no empty last line after a final
/// line feed.
pub open spec fn lines_of(s: Seq<char>) -> Seq<Seq<char>> {
    let parts = split_on(s, '\n');
    let body = parts.drop_last().map_values(|l: Seq<char>| strip_cr(l));
    if parts.last().len() == 0 {
        body
    } else {
        body.push(parts.last())
    }
}

/// A line without the carriage return that ended it.
pub open spec fn strip_cr(l: Seq<char>) -> Seq<char> {
    if l.len() > 0 && l.last() == '\r' {
        l.drop_last()
    } else {
        l
    }
}

/// The marker of the idle-time line.
pub open spec fn idle_marker() -> Seq<char> {
    "HIDIdleTime"@
}

/// The value of a line: what follows its last `=`, trimmed, read as a number.
pub open spec fn line_value(l: Seq<char>) -> Option<u64> {
    parse_u64_spec(trim(split_on(l, '=').last()))
}

/// The idle seconds of the first line that carries the marker and a
/// number (nanoseconds); `None` where there is none.
pub open spec fn idle_from_lines(ls: Seq<Seq<char>>) -> Option<u64>
    decreases ls.len(),
{
    if ls.len() == 0 {
        None
    } else if contains_text(ls[0], idle_marker()) && line_value(ls[0]) is Some {
        Some((line_value(ls[0])->0 / 1_000_000_000) as u64)
    } else {
        idle_from_lines(ls.drop_first())
    }
}

/// A line without the carriage return that ended it.
fn strip_cr_chars(l: &Vec<char>) -> (r: Vec<char>)
    ensures
        r@ == strip_cr(l@),
{
    let n = l.len();
    if n > 0 && l[n - 1] == '\r' {
        crate::text::sub_chars(l, 0, n - 1)
    } else {
        crate::text::sub_chars(l, 0, n)
    }
}

/// The value of a line (see `line_value`).
fn line_value_chars(l: &Vec<char>) -> (r: Option<u64>)
    ensures
        r == line_value(l@),
{
    let parts = split_chars(l, '=');
    let last = parts.len() - 1;
    proof {
        assert(views(parts@)[last as int] == parts@[last as int]@);
    }
    let t = trim_chars(&parts[last]);
    parse_u64(&t)
}

/// The idle seconds the HID system reports in `output`: from the first line
/// naming `HIDIdleTime` whose last `=`-separated part is a number of
/// nanoseconds; `None` where no line does.
pub fn parse_hid_idle_seconds(output: &str) -> (r: Option<u64>)
    ensures
        r == idle_from_lines(lines_of(output@)),
{
    let cs = chars_of(output);
    let parts = split_chars(&cs, '\n');
    let marker = chars_of("HIDIdleTime");
    let ghost ls = lines_of(cs@);
    let n = parts.len();
    let last_empty = parts[n - 1].len() == 0;
    let count = if last_empty { n - 1 } else { n };
    proof {
        assert(views(parts@)[n - 1] == parts@[n - 1]@);
        assert(ls.len() == count);
        assert(ls.skip(0) =~= ls);
    }
    let mut i: usize = 0;
    while i < count
        invariant
            n == parts@.len(),
            views(parts@) == split_on(cs@, '\n'),
            marker@ == idle_marker(),
            cs@ == output@,
            ls == lines_of(cs@),
            count == ls.len(),
            count <= n,
            i <= count,
            idle_from_lines(ls) == idle_from_lines(ls.skip(i as int)),
            forall|k: int| 0 <= k < count ==> #[trigger] ls[k] == if k < n - 1 {
                strip_cr(parts@[k]@)
            } else {
                parts@[k]@
            },
        decreases count - i,
    {
        let line = if i < n - 1 { strip_cr_chars(&parts[i]) } else { crate::text::sub_chars(&parts[i], 0, parts[i].len()) };
        proof {
            assert(line@ == ls[i as int]);
            assert(ls.skip(i as int)[0] == ls[i as int]);
            assert(ls.skip(i as int).drop_first() =~= ls.skip(i + 1));
        }
        if contains_chars(&line, &marker) {
            if let Some(v) = line_value_chars(&line) {
                proof {
                    let rest = ls.skip(i as int);
                    assert(rest.len() > 0);
                    assert(rest[0] == line@);
                    assert(contains_text(rest[0], idle_marker()));
                    assert(idle_from_lines(rest) == Some((line_value(rest[0])->0 / 1_000_000_000) as u64));
                }
                return Some(v / 1_000_000_000);
            }
        }
        i += 1;
    }
    proof {
        assert(ls.skip(count as int) =~= Seq::<Seq<char>>::empty());
    }
    None
}

} // verus!
