//! What holds between writing the text form and reading it.

use crate::data::{steps_done, steps_from, ErrorView, FileJob, FileStep};
use crate::date_time::{date_time_text, digit_char, timestamp_of_text, DateTimeFields};
use crate::impls::{content_text, line_text, strictly_ascending, text_from, text_of};
use crate::models::{
    after_first_line, content_of_text, entries_from, entries_of_text, entry_of_line, first_line,
    is_listing_by_day, newest_first, rows_upto, ContentView, RowView,
};
use crate::text::{
    decimal_text, index_of, is_digit, is_space, lemma_decimal_text, lemma_index_of,
    lemma_index_of_is, lemma_trimmed_core, lemma_trimmed_is_stretch, lemma_unsigned_round_trip,
    trimmed,
};
use vstd::prelude::*;

verus! {

/// A text that a line of the text form can hold: not empty, without a line
/// feed, and not ending in white space.
pub open spec fn single_line(t: Seq<char>) -> bool {
    &&& t.len() > 0
    &&& !is_space(t.last())
    &&& no_line_feed(t)
}

/// The text of every memo is a [`single_line`].
pub open spec fn texts_single_line(m: Map<u32, ContentView>) -> bool {
    forall|id: u32| m.contains_key(id) ==> single_line(#[trigger] m[id].text)
}

/// The text form of these fields is read back as these fields.
pub open spec fn reads_back(f: DateTimeFields) -> bool {
    timestamp_of_text(date_time_text(f)) == Some(f)
}

/// Every memo has a [`single_line`] as its text and a time that
/// [`reads_back`].
pub open spec fn storable(m: Map<u32, ContentView>) -> bool {
    forall|id: u32|
        m.contains_key(id) ==> single_line(#[trigger] m[id].text) && reads_back(m[id].date_time)
}

/// The memos with an id below `bound`.
pub open spec fn below(m: Map<u32, ContentView>, bound: int) -> Map<u32, ContentView> {
    m.restrict(Set::new(|id: u32| id < bound))
}

/// The character for a digit is a digit.
pub proof fn lemma_digit_char(d: int)
    ensures
        is_digit(digit_char(d)),
{
}

/// The text form of a date and time has 19 characters, a space in the middle
/// and nowhere else, and no white space otherwise.
pub proof fn lemma_date_time_text_shape(f: DateTimeFields)
    ensures
        date_time_text(f).len() == 19,
        date_time_text(f)[10] == ' ',
        forall|k: int| 0 <= k < 19 && k != 10 ==> !is_space(#[trigger] date_time_text(f)[k]),
{
    let s = date_time_text(f);
    let y = f.year as int;
    let expected = seq![
        digit_char(y / 100 / 10),
        digit_char(y / 100 % 10),
        digit_char(y % 100 / 10),
        digit_char(y % 100 % 10),
        '-',
        digit_char(f.month as int / 10),
        digit_char(f.month as int % 10),
        '-',
        digit_char(f.day as int / 10),
        digit_char(f.day as int % 10),
        ' ',
        digit_char(f.hour as int / 10),
        digit_char(f.hour as int % 10),
        ':',
        digit_char(f.minute as int / 10),
        digit_char(f.minute as int % 10),
        ':',
        digit_char(f.second as int / 10),
        digit_char(f.second as int % 10),
    ];
    assert(s =~= expected);
    assert forall|k: int| 0 <= k < 19 && k != 10 implies !is_space(#[trigger] s[k]) by {
        lemma_digit_char(y / 100 / 10);
        lemma_digit_char(y / 100 % 10);
        lemma_digit_char(y % 100 / 10);
        lemma_digit_char(y % 100 % 10);
        lemma_digit_char(f.month as int / 10);
        lemma_digit_char(f.month as int % 10);
        lemma_digit_char(f.day as int / 10);
        lemma_digit_char(f.day as int % 10);
        lemma_digit_char(f.hour as int / 10);
        lemma_digit_char(f.hour as int % 10);
        lemma_digit_char(f.minute as int / 10);
        lemma_digit_char(f.minute as int % 10);
        lemma_digit_char(f.second as int / 10);
        lemma_digit_char(f.second as int % 10);
        assert(s[k] == expected[k]);
    }
}

/// Reading the text form of a content gives the content, also behind white
/// space.
pub proof fn lemma_content_round_trip(c: ContentView, lead: Seq<char>)
    requires
        single_line(c.text),
        reads_back(c.date_time),
        forall|k: int| 0 <= k < lead.len() ==> is_space(lead[k]),
    ensures
        content_of_text(lead + content_text(c)) == Ok::<ContentView, crate::data::LineRule>(c),
{
    let stamp = date_time_text(c.date_time);
    let t = content_text(c);
    let s = lead + t;
    lemma_date_time_text_shape(c.date_time);
    assert(t.len() == 20 + c.text.len());
    assert forall|k: int| 0 <= k < 19 implies t[k] == stamp[k] by {}
    assert(t[19] == ' ');
    assert forall|k: int| 20 <= k < t.len() implies t[k] == c.text[k - 20] by {}
    assert(!is_space(stamp[0]));
    assert(t[t.len() - 1] == c.text.last());
    lemma_trimmed_core(s, lead.len() as int, s.len() as int);
    assert(s.subrange(lead.len() as int, s.len() as int) =~= t);
    assert(trimmed(s) == t);
    assert forall|k: int| 0 <= k < 10 implies t[k] != ' ' by {
        assert(!is_space(stamp[k]));
    }
    lemma_index_of_is(t, ' ', 0, 10);
    assert forall|k: int| 11 <= k < 19 implies t[k] != ' ' by {
        assert(!is_space(stamp[k]));
    }
    lemma_index_of_is(t, ' ', 11, 19);
    assert(t.subrange(0, 19) =~= stamp);
    assert(t.subrange(20, t.len() as int) =~= c.text);
}

/// Reading the line of a memo, without its line feed, gives the memo.
pub proof fn lemma_line_round_trip(id: u32, c: ContentView)
    requires
        single_line(c.text),
        reads_back(c.date_time),
    ensures
        entry_of_line(line_text(id, c).drop_last()) == Ok::<
            (u32, ContentView),
            crate::data::LineRule,
        >((id, c)),
{
    let number = decimal_text(id as nat);
    let line = line_text(id, c).drop_last();
    let n = number.len() as int;
    lemma_decimal_text(id as nat);
    lemma_unsigned_round_trip(id);
    assert(line =~= number + seq![':', ' '] + content_text(c));
    assert forall|k: int| 0 <= k < n implies line[k] != ':' by {
        assert(line[k] == number[k]);
        assert(is_digit(number[k]));
    }
    assert(line[n] == ':');
    lemma_index_of_is(line, ':', 0, n);
    assert(line.subrange(0, n) =~= number);
    assert(line.subrange(n + 1, line.len() as int) =~= seq![' '] + content_text(c));
    lemma_content_round_trip(c, seq![' ']);
}

/// A text that starts with the line of a memo has that line, without its
/// line feed, as its first line, and what follows it as the rest.
pub proof fn lemma_first_line_of_memo(id: u32, c: ContentView, rest: Seq<char>)
    requires
        single_line(c.text),
    ensures
        first_line(line_text(id, c) + rest) == line_text(id, c).drop_last(),
        after_first_line(line_text(id, c) + rest) == rest,
        line_text(id, c).drop_last().len() > 0,
{
    let number = decimal_text(id as nat);
    let stamp = date_time_text(c.date_time);
    let whole = line_text(id, c) + rest;
    let line = line_text(id, c).drop_last();
    let n = number.len() as int;
    let end = line.len() as int;
    lemma_decimal_text(id as nat);
    lemma_date_time_text_shape(c.date_time);
    assert(line =~= number + seq![':', ' '] + stamp + seq![' '] + c.text);
    assert(end == n + 2 + 19 + 1 + c.text.len());
    assert forall|k: int| 0 <= k < end implies whole[k] != '\n' by {
        assert(whole[k] == line[k]);
        if k < n {
            assert(line[k] == number[k]);
            assert(is_digit(number[k]));
        } else if k < n + 2 {
        } else if k < n + 21 {
            assert(line[k] == stamp[k - n - 2]);
            if k - n - 2 != 10 {
                assert(!is_space(stamp[k - n - 2]));
            }
        } else if k < n + 22 {
        } else {
            assert(line[k] == c.text[k - n - 22]);
        }
    }
    assert(whole[end] == '\n');
    lemma_index_of_is(whole, '\n', 0, end);
    assert(whole.subrange(0, end) =~= line);
    assert(line.last() == c.text.last());
    assert(whole.subrange(end + 1, whole.len() as int) =~= rest);
}

/// Reading the lines of the memos from `from` on, on top of the memos below
/// `from`, gives the store.
pub proof fn lemma_round_trip_from(m: Map<u32, ContentView>, from: int)
    requires
        storable(m),
        0 <= from <= 0x1_0000_0000,
    ensures
        entries_from(text_from(m, from), below(m, from)) == Ok::<Map<u32, ContentView>, ErrorView>(
            m,
        ),
    decreases 0x1_0000_0000 - from,
{
    if from > u32::MAX {
        assert(below(m, from) =~= m);
    } else {
        let id = from as u32;
        lemma_round_trip_from(m, from + 1);
        if m.contains_key(id) {
            let c = m[id];
            let rest = text_from(m, from + 1);
            lemma_first_line_of_memo(id, c, rest);
            lemma_line_round_trip(id, c);
            assert(below(m, from).insert(id, c) =~= below(m, from + 1));
            assert((line_text(id, c) + rest).len() > 0);
        } else {
            assert(below(m, from) =~= below(m, from + 1));
        }
    }
}

/// Writing a store and reading the text gives the store again: the same ids,
/// each with the same text and the same time to the second. This holds of
/// every store whose texts are single lines and whose times are read back as
/// they were written.
pub proof fn lemma_text_round_trip(m: Map<u32, ContentView>)
    requires
        storable(m),
    ensures
        entries_of_text(text_of(m)) == Ok::<Map<u32, ContentView>, ErrorView>(m),
{
    lemma_round_trip_from(m, 0);
    assert(below(m, 0) =~= Map::<u32, ContentView>::empty());
}

/// No character of `s` is a line feed.
pub open spec fn no_line_feed(s: Seq<char>) -> bool {
    forall|i: int| 0 <= i < s.len() ==> s[i] != '\n'
}

/// The text of a content that is read from a text without a line feed is a
/// single line.
pub proof fn lemma_content_read_is_single_line(s: Seq<char>)
    requires
        no_line_feed(s),
    ensures
        content_of_text(s) matches Ok(c) ==> single_line(c.text),
{
    if let Ok(c) = content_of_text(s) {
        let t = trimmed(s);
        lemma_trimmed_is_stretch(s);
        let (a, b) = choose|a: int, b: int|
            0 <= a <= b <= s.len() && #[trigger] s.subrange(a, b) == trimmed(s);
        lemma_index_of(t, ' ', 0);
        let i = index_of(t, ' ', 0);
        if i < t.len() {
            lemma_index_of(t, ' ', i + 1);
        }
        let j = index_of(t, ' ', i + 1);
        assert(j < t.len());
        assert(t[j] == ' ');
        assert(!is_space(t.last()));
        assert(c.text == t.subrange(j + 1, t.len() as int));
        assert(c.text.last() == t.last());
        assert forall|k: int| 0 <= k < c.text.len() implies c.text[k] != '\n' by {
            assert(c.text[k] == t[j + 1 + k]);
            assert(t[j + 1 + k] == s[a + j + 1 + k]);
        }
    }
}

/// The text of a memo that is read from a line without a line feed is a
/// single line.
pub proof fn lemma_line_read_is_single_line(line: Seq<char>)
    requires
        no_line_feed(line),
    ensures
        entry_of_line(line) matches Ok(entry) ==> single_line(entry.1.text),
{
    if let Ok(entry) = entry_of_line(line) {
        lemma_index_of(line, ':', 0);
        let c = index_of(line, ':', 0);
        let behind = line.subrange(c + 1, line.len() as int);
        assert(no_line_feed(behind)) by {
            assert forall|k: int| 0 <= k < behind.len() implies behind[k] != '\n' by {
                assert(behind[k] == line[c + 1 + k]);
            }
        }
        lemma_content_read_is_single_line(behind);
    }
}

/// Where the texts of `acc` are single lines, so are the texts of what is
/// read on top of it.
pub proof fn lemma_read_keeps_single_lines(text: Seq<char>, acc: Map<u32, ContentView>)
    requires
        texts_single_line(acc),
    ensures
        entries_from(text, acc) matches Ok(m) ==> texts_single_line(m),
    decreases text.len(),
{
    if text.len() > 0 {
        lemma_index_of(text, '\n', 0);
        let n = index_of(text, '\n', 0);
        let line = first_line(text);
        let rest = after_first_line(text);
        assert(no_line_feed(line)) by {
            assert forall|k: int| 0 <= k < line.len() implies line[k] != '\n' by {
                assert(line[k] == text[k]);
            }
        }
        if line.len() == 0 {
            lemma_read_keeps_single_lines(rest, acc);
        } else {
            lemma_line_read_is_single_line(line);
            if let Ok(entry) = entry_of_line(line) {
                let next = acc.insert(entry.0, entry.1);
                assert(texts_single_line(next)) by {
                    assert forall|id: u32| next.contains_key(id) implies single_line(
                        #[trigger] next[id].text,
                    ) by {
                        if id != entry.0 {
                            assert(acc.contains_key(id));
                        }
                    }
                }
                lemma_read_keeps_single_lines(rest, next);
            }
        }
    }
}

/// What is read from a text can be written and read again: the texts of the
/// memos of a text are single lines.
pub proof fn lemma_read_is_single_lines(text: Seq<char>)
    ensures
        entries_of_text(text) matches Ok(m) ==> texts_single_line(m),
{
    lemma_read_keeps_single_lines(text, Map::empty());
}

/// Two ascending sequences with the same members are one sequence: the ids
/// of a store have one ascending order.
pub proof fn lemma_ascending_unique(a: Seq<u32>, b: Seq<u32>)
    requires
        strictly_ascending(a),
        strictly_ascending(b),
        forall|x: u32| a.contains(x) <==> b.contains(x),
    ensures
        a == b,
    decreases a.len(),
{
    if a.len() == 0 {
        if b.len() > 0 {
            assert(b.contains(b[0]));
            assert(a.contains(b[0]));
        }
        assert(a =~= b);
    } else {
        assert(a.contains(a.last()));
        assert(b.contains(a.last()));
        let i = choose|i: int| 0 <= i < b.len() && b[i] == a.last();
        assert(b.contains(b.last()));
        assert(a.contains(b.last()));
        let j = choose|j: int| 0 <= j < a.len() && a[j] == b.last();
        if i < b.len() - 1 {
            assert(b[i] < b[b.len() - 1]);
        }
        if j < a.len() - 1 {
            assert(a[j] < a[a.len() - 1]);
        }
        assert(a.last() == b.last());
        let shorter_a = a.drop_last();
        let shorter_b = b.drop_last();
        assert forall|x: u32| shorter_a.contains(x) <==> shorter_b.contains(x) by {
            if shorter_a.contains(x) {
                let k = choose|k: int| 0 <= k < shorter_a.len() && shorter_a[k] == x;
                assert(a[k] == x);
                assert(a[k] < a[a.len() - 1]);
                assert(a.contains(x));
                assert(b.contains(x));
                let l = choose|l: int| 0 <= l < b.len() && b[l] == x;
                assert(shorter_b[l] == x);
            }
            if shorter_b.contains(x) {
                let k = choose|k: int| 0 <= k < shorter_b.len() && shorter_b[k] == x;
                assert(b[k] == x);
                assert(b[k] < b[b.len() - 1]);
                assert(b.contains(x));
                assert(a.contains(x));
                let l = choose|l: int| 0 <= l < a.len() && a[l] == x;
                assert(shorter_a[l] == x);
            }
        }
        lemma_ascending_unique(shorter_a, shorter_b);
        assert(a =~= shorter_a.push(a.last()));
        assert(b =~= shorter_b.push(b.last()));
    }
}

/// The ids of a store have one order from the largest down.
pub proof fn lemma_newest_first_unique(m: Map<u32, ContentView>, a: Seq<u32>, b: Seq<u32>)
    requires
        newest_first(m, a),
        newest_first(m, b),
    ensures
        a == b,
{
    let up_a = a.reverse();
    let up_b = b.reverse();
    assert forall|x: u32| up_a.contains(x) <==> up_b.contains(x) by {
        if up_a.contains(x) {
            let k = choose|k: int| 0 <= k < up_a.len() && up_a[k] == x;
            assert(a[a.len() - 1 - k] == x);
            assert(a.contains(x));
            assert(b.contains(x));
            let l = choose|l: int| 0 <= l < b.len() && b[l] == x;
            assert(up_b[b.len() - 1 - l] == x);
        }
        if up_b.contains(x) {
            let k = choose|k: int| 0 <= k < up_b.len() && up_b[k] == x;
            assert(b[b.len() - 1 - k] == x);
            assert(b.contains(x));
            assert(a.contains(x));
            let l = choose|l: int| 0 <= l < a.len() && a[l] == x;
            assert(up_a[a.len() - 1 - l] == x);
        }
    }
    lemma_ascending_unique(up_a, up_b);
    assert(a =~= up_a.reverse());
    assert(b =~= up_b.reverse());
}

/// A store has one listing by day.
pub proof fn lemma_listing_by_day_unique(
    m: Map<u32, ContentView>,
    first: Seq<RowView>,
    second: Seq<RowView>,
)
    requires
        is_listing_by_day(m, first),
        is_listing_by_day(m, second),
    ensures
        first == second,
{
    let a = choose|order: Seq<u32>| #[trigger]
        newest_first(m, order) && first == rows_upto(m, order, order.len() as int);
    let b = choose|order: Seq<u32>| #[trigger]
        newest_first(m, order) && second == rows_upto(m, order, order.len() as int);
    lemma_newest_first_unique(m, a, b);
}

/// The steps of writing, whatever goes well and whatever fails: they start
/// with looking for the data file and go on in the order of the job as long
/// as each step goes well.
pub proof fn lemma_steps_of_writing(ok: spec_fn(FileStep) -> bool)
    ensures
        steps_done(FileJob::Write, ok) == (if !ok(FileStep::Find) {
            seq![FileStep::Find]
        } else if !ok(FileStep::CreateTemp) {
            seq![FileStep::Find, FileStep::CreateTemp]
        } else if !ok(FileStep::FillTemp) {
            seq![FileStep::Find, FileStep::CreateTemp, FileStep::FillTemp]
        } else {
            seq![FileStep::Find, FileStep::CreateTemp, FileStep::FillTemp, FileStep::Replace]
        }),
{
    reveal_with_fuel(steps_from, 5);
    let steps = steps_done(FileJob::Write, ok);
    if !ok(FileStep::Find) {
        assert(steps =~= seq![FileStep::Find]);
    } else if !ok(FileStep::CreateTemp) {
        assert(steps =~= seq![FileStep::Find, FileStep::CreateTemp]);
    } else if !ok(FileStep::FillTemp) {
        assert(steps =~= seq![FileStep::Find, FileStep::CreateTemp, FileStep::FillTemp]);
    } else {
        assert(steps =~= seq![
            FileStep::Find,
            FileStep::CreateTemp,
            FileStep::FillTemp,
            FileStep::Replace,
        ]);
    }
}

/// Writing is atomic: the data file is replaced only after it was found and
/// the temporary file was created and filled, each without failure. Where
/// one of these fails, the data file is left as it was.
pub proof fn lemma_write_is_atomic(ok: spec_fn(FileStep) -> bool)
    ensures
        steps_done(FileJob::Write, ok).contains(FileStep::Replace) <==> (ok(FileStep::Find) && ok(
            FileStep::CreateTemp,
        ) && ok(FileStep::FillTemp)),
        !steps_done(FileJob::Write, ok).contains(FileStep::Fetch),
{
    lemma_steps_of_writing(ok);
    let steps = steps_done(FileJob::Write, ok);
    if ok(FileStep::Find) && ok(FileStep::CreateTemp) && ok(FileStep::FillTemp) {
        assert(steps[3] == FileStep::Replace);
    }
}

/// Reading changes nothing: its steps are looking for the data file and,
/// where it is there, reading it.
pub proof fn lemma_steps_of_reading(ok: spec_fn(FileStep) -> bool)
    ensures
        steps_done(FileJob::Read, ok) == (if ok(FileStep::Find) {
            seq![FileStep::Find, FileStep::Fetch]
        } else {
            seq![FileStep::Find]
        }),
{
    reveal_with_fuel(steps_from, 3);
    let steps = steps_done(FileJob::Read, ok);
    if ok(FileStep::Find) {
        assert(steps =~= seq![FileStep::Find, FileStep::Fetch]);
    } else {
        assert(steps =~= seq![FileStep::Find]);
    }
}

} // verus!
