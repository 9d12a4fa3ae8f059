//! The store of memos, and the line grammar of its text form:
//! `<id>: <YYYY-MM-DD HH:MM:SS> <text>`, one memo per line.

use crate::data::{ErrorView, LineRule, MemoError};
use crate::date_time::{day_heading, time_text, timestamp_of_text, DateTimeFields, Timestamp};
use crate::laws::{lemma_read_is_single_lines, texts_single_line};
use crate::text::{
    chars_of, decimal_text, find_char, index_of, lemma_index_of, parse_unsigned, push_decimal,
    string_of, trim, trimmed, unsigned_of_text,
};
use std::collections::HashMap;
use vstd::prelude::*;
use vstd::slice::slice_subrange;
use vstd::string::StringExecFns;

verus! {

/// What a memo holds, as mathematical values.
pub struct ContentView {
    pub text: Seq<char>,
    pub date_time: DateTimeFields,
}

/// The content of a memo: its text, and when it was written.
#[derive(Debug)]
pub struct Content {
    pub text: String,
    pub date_time: Timestamp,
}

impl View for Content {
    type V = ContentView;

    open spec fn view(&self) -> ContentView {
        ContentView { text: self.text@, date_time: self.date_time@ }
    }
}

/// All the memos, each under its id.
pub struct MemoData {
    pub contents: HashMap<u32, Content>,
}

/// A map of memos as mathematical values.
pub open spec fn contents_view(m: Map<u32, Content>) -> Map<u32, ContentView> {
    m.map_values(|c: Content| c@)
}

impl View for MemoData {
    type V = Map<u32, ContentView>;

    open spec fn view(&self) -> Map<u32, ContentView> {
        contents_view(self.contents@)
    }
}

/// The content that a text stands for. The text is trimmed; up to its second
/// space it is the date and the time, behind that space the memo's text.
pub open spec fn content_of_text(s: Seq<char>) -> Result<ContentView, LineRule> {
    let t = trimmed(s);
    let i = index_of(t, ' ', 0);
    let j = index_of(t, ' ', i + 1);
    if j >= t.len() {
        Err(LineRule::Fields)
    } else {
        match timestamp_of_text(t.subrange(0, j)) {
            Some(f) => Ok(ContentView { text: t.subrange(j + 1, t.len() as int), date_time: f }),
            None => Err(LineRule::DateTime),
        }
    }
}

/// The memo that a line stands for: the id before the first colon, the
/// content behind it.
pub open spec fn entry_of_line(line: Seq<char>) -> Result<(u32, ContentView), LineRule> {
    let c = index_of(line, ':', 0);
    match unsigned_of_text(line.subrange(0, c)) {
        None => Err(LineRule::Id),
        Some(id) => if c >= line.len() {
            Err(LineRule::Separator)
        } else {
            match content_of_text(line.subrange(c + 1, line.len() as int)) {
                Ok(v) => Ok((id, v)),
                Err(rule) => Err(rule),
            }
        },
    }
}

/// The first line of a text: what stands before the first line feed, without
/// a carriage return just before that line feed.
pub open spec fn first_line(text: Seq<char>) -> Seq<char> {
    let n = index_of(text, '\n', 0);
    let raw = text.subrange(0, n);
    if n < text.len() && raw.len() > 0 && raw.last() == '\r' {
        raw.drop_last()
    } else {
        raw
    }
}

/// What follows the first line feed of a text.
pub open spec fn after_first_line(text: Seq<char>) -> Seq<char> {
    let n = index_of(text, '\n', 0);
    if n < text.len() {
        text.subrange(n + 1, text.len() as int)
    } else {
        Seq::empty()
    }
}

/// The memos of a text, added line by line to `acc`. Empty lines are passed
/// over, a later line replaces an earlier one with the same id, and the first
/// line that breaks the grammar is the failure of the whole.
pub open spec fn entries_from(text: Seq<char>, acc: Map<u32, ContentView>) -> Result<
    Map<u32, ContentView>,
    ErrorView,
>
    decreases text.len(),
    via entries_from_decreases
{
    if text.len() == 0 {
        Ok(acc)
    } else {
        let line = first_line(text);
        let rest = after_first_line(text);
        if line.len() == 0 {
            entries_from(rest, acc)
        } else {
            match entry_of_line(line) {
                Ok((id, v)) => entries_from(rest, acc.insert(id, v)),
                Err(rule) => Err(ErrorView::MalformedLine(rule, line)),
            }
        }
    }
}

#[via_fn]
proof fn entries_from_decreases(text: Seq<char>, acc: Map<u32, ContentView>) {
    lemma_index_of(text, '\n', 0);
}

/// The store that a text stands for.
pub open spec fn entries_of_text(text: Seq<char>) -> Result<Map<u32, ContentView>, ErrorView> {
    entries_from(text, Map::empty())
}

/// One row of a listing by day.
#[derive(Debug)]
pub enum ListingRow {
    /// The heading of a day.
    Day(String),
    /// A memo: its label, which is its id and its time of day, and its text.
    Memo(String, String),
}

/// A [`ListingRow`] as sequences of characters.
pub enum RowView {
    Day(Seq<char>),
    Memo(Seq<char>, Seq<char>),
}

impl View for ListingRow {
    type V = RowView;

    open spec fn view(&self) -> RowView {
        match self {
            ListingRow::Day(heading) => RowView::Day(heading@),
            ListingRow::Memo(label, text) => RowView::Memo(label@, text@),
        }
    }
}

/// The rows of a listing as mathematical values.
pub open spec fn rows_view(rows: Seq<ListingRow>) -> Seq<RowView> {
    rows.map_values(|row: ListingRow| row@)
}

/// Both times fall on the same calendar day.
pub open spec fn same_day(a: DateTimeFields, b: DateTimeFields) -> bool {
    a.year == b.year && a.month == b.month && a.day == b.day
}

/// The label of a memo in a listing: the id, zero-padded to two digits, a
/// colon and a space, the time of day.
pub open spec fn label_text(id: u32, f: DateTimeFields) -> Seq<char> {
    (if id < 10 {
        seq!['0']
    } else {
        Seq::<char>::empty()
    }) + decimal_text(id as nat) + seq![':', ' '] + time_text(f)
}

/// `order` holds the ids of all memos, the largest first.
pub open spec fn newest_first(m: Map<u32, ContentView>, order: Seq<u32>) -> bool {
    &&& forall|i: int, j: int| 0 <= i < j < order.len() ==> order[i] > order[j]
    &&& forall|id: u32| order.contains(id) <==> m.contains_key(id)
}

/// The rows for the first `n` memos of `order`. A memo comes under the
/// heading of its day; the heading is given where the listing starts and
/// where the memo before is of another day.
pub open spec fn rows_upto(m: Map<u32, ContentView>, order: Seq<u32>, n: int) -> Seq<RowView>
    decreases n,
{
    if n <= 0 {
        Seq::empty()
    } else {
        let at = m[order[n - 1]];
        let heading = if n == 1 || !same_day(m[order[n - 2]].date_time, at.date_time) {
            seq![RowView::Day(day_heading(at.date_time))]
        } else {
            Seq::empty()
        };
        rows_upto(m, order, n - 1) + heading + seq![
            RowView::Memo(label_text(order[n - 1], at.date_time), at.text),
        ]
    }
}

/// The rows are the listing by day of the memos: from the largest id down,
/// each day under its heading.
pub open spec fn is_listing_by_day(m: Map<u32, ContentView>, rows: Seq<RowView>) -> bool {
    exists|order: Seq<u32>| #[trigger]
        newest_first(m, order) && rows == rows_upto(m, order, order.len() as int)
}

/// Reads a content from the characters of its text form.
pub fn content_of_chars(s: &[char]) -> (r: Result<Content, LineRule>)
    ensures
        match content_of_text(s@) {
            Ok(v) => r matches Ok(c) && c@ == v,
            Err(rule) => r matches Err(x) && x == rule,
        },
{
    let t = trim(s);
    let i = find_char(t, ' ', 0);
    if i >= t.len() {
        return Err(LineRule::Fields);
    }
    let j = find_char(t, ' ', i + 1);
    if j >= t.len() {
        return Err(LineRule::Fields);
    }
    let stamp = string_of(slice_subrange(t, 0, j));
    match Timestamp::parse(stamp.as_str()) {
        Some(date_time) => {
            let text = string_of(slice_subrange(t, j + 1, t.len()));
            Ok(Content { text, date_time })
        },
        None => Err(LineRule::DateTime),
    }
}

/// Reads a memo from the characters of a line.
pub fn entry_of_chars(line: &[char]) -> (r: Result<(u32, Content), LineRule>)
    ensures
        match entry_of_line(line@) {
            Ok((id, v)) => r matches Ok(p) && p.0 == id && p.1@ == v,
            Err(rule) => r matches Err(x) && x == rule,
        },
{
    let c = find_char(line, ':', 0);
    match parse_unsigned(slice_subrange(line, 0, c)) {
        None => Err(LineRule::Id),
        Some(id) => {
            if c >= line.len() {
                return Err(LineRule::Separator);
            }
            match content_of_chars(slice_subrange(line, c + 1, line.len())) {
                Ok(content) => Ok((id, content)),
                Err(rule) => Err(rule),
            }
        },
    }
}

/// Reads a memo from a line of the text form.
pub fn validate_line(line: &str) -> (r: Result<(u32, Content), MemoError>)
    ensures
        match entry_of_line(line@) {
            Ok((id, v)) => r matches Ok(p) && p.0 == id && p.1@ == v,
            Err(rule) => r matches Err(e) && e@ == ErrorView::MalformedLine(rule, line@),
        },
{
    let chars = chars_of(line);
    match entry_of_chars(chars.as_slice()) {
        Ok(entry) => Ok(entry),
        Err(rule) => Err(MemoError::MalformedLine(rule, string_of(chars.as_slice()))),
    }
}

impl MemoData {
    /// A store without memos.
    pub fn new() -> (r: MemoData)
        ensures
            r@ == Map::<u32, ContentView>::empty(),
    {
        broadcast use vstd::std_specs::hash::group_hash_axioms;

        let r = MemoData { contents: HashMap::new() };
        assert(r@ =~= Map::<u32, ContentView>::empty());
        r
    }

    /// Reads the memos from the text form. All lines are read or none: the
    /// first line that breaks the grammar is returned as the failure. The
    /// text of every memo read is a single line.
    pub fn parse(data: String) -> (r: Result<HashMap<u32, Content>, MemoError>)
        ensures
            match entries_of_text(data@) {
                Ok(m) => r matches Ok(h) && contents_view(h@) == m,
                Err(e) => r matches Err(x) && x@ == e,
            },
            r matches Ok(h) ==> texts_single_line(contents_view(h@)),
    {
        broadcast use vstd::std_specs::hash::group_hash_axioms;

        let chars = chars_of(data.as_str());
        let mut contents: HashMap<u32, Content> = HashMap::new();
        let mut rest: &[char] = chars.as_slice();
        assert(contents_view(contents@) =~= Map::<u32, ContentView>::empty());
        while rest.len() > 0
            invariant
                entries_from(rest@, contents_view(contents@)) == entries_of_text(data@),
            decreases rest@.len(),
        {
            let ghost whole = rest@;
            let n = find_char(rest, '\n', 0);
            let mut line = slice_subrange(rest, 0, n);
            if n < rest.len() && line.len() > 0 && line[line.len() - 1] == '\r' {
                line = slice_subrange(line, 0, line.len() - 1);
            }
            assert(line@ =~= first_line(whole));
            let ghost before = contents_view(contents@);
            if line.len() > 0 {
                match entry_of_chars(line) {
                    Ok((id, content)) => {
                        contents.insert(id, content);
                        assert(contents_view(contents@) =~= before.insert(id, content@));
                    },
                    Err(rule) => {
                        return Err(MemoError::MalformedLine(rule, string_of(line)));
                    },
                }
            }
            if n < rest.len() {
                rest = slice_subrange(rest, n + 1, rest.len());
            } else {
                rest = slice_subrange(rest, 0, 0);
            }
            assert(rest@ =~= after_first_line(whole));
        }
        proof {
            lemma_read_is_single_lines(data@);
        }
        Ok(contents)
    }

    /// The memos from the largest id down, each day under its heading: the
    /// rows of a listing by day.
    pub fn group_by_date(&self) -> (r: Vec<ListingRow>)
        ensures
            is_listing_by_day(self@, rows_view(r@)),
    {
        broadcast use vstd::std_specs::hash::group_hash_axioms;

        let ids = self.sorted_ids();
        let ghost order = ids@.reverse();
        let mut rows: Vec<ListingRow> = Vec::new();
        let mut previous: Option<Timestamp> = None;
        let mut k: usize = ids.len();
        assert(rows_view(rows@) =~= rows_upto(self@, order, 0));
        while k > 0
            invariant
                k <= ids@.len(),
                order == ids@.reverse(),
                forall|id: u32| ids@.contains(id) <==> self@.contains_key(id),
                rows_view(rows@) == rows_upto(self@, order, ids@.len() - k),
                k == ids@.len() ==> previous is None,
                k < ids@.len() ==> (previous matches Some(p) && p@ == self@[order[ids@.len() - k
                    - 1]].date_time),
            decreases k,
        {
            k -= 1;
            let id = ids[k];
            let ghost n = ids@.len() - k;
            let ghost before = rows_view(rows@);
            assert(order[n - 1] == id);
            assert(ids@.contains(id));
            match self.contents.get(&id) {
                Some(content) => {
                    let starts = match previous {
                        None => true,
                        Some(p) => !p.same_date(&content.date_time),
                    };
                    if starts {
                        rows.push(ListingRow::Day(content.date_time.to_day_heading()));
                    }
                    let mut label = String::new();
                    if id < 10 {
                        label.append("0");
                    }
                    push_decimal(&mut label, id);
                    label.append(": ");
                    let time = content.date_time.to_time_text();
                    label.append(time.as_str());
                    proof {
                        reveal_strlit("0");
                        reveal_strlit(": ");
                        assert("0"@ =~= seq!['0']);
                        assert(": "@ =~= seq![':', ' ']);
                        assert(label@ =~= label_text(id, content@.date_time));
                    }
                    rows.push(ListingRow::Memo(label, content.text.clone()));
                    previous = Some(content.date_time);
                    proof {
                        let at = self@[id];
                        assert(content@ == at);
                        let heading = if n == 1 || !same_day(
                            self@[order[n - 2]].date_time,
                            at.date_time,
                        ) {
                            seq![RowView::Day(day_heading(at.date_time))]
                        } else {
                            Seq::empty()
                        };
                        assert(rows_view(rows@) =~= before + heading + seq![
                            RowView::Memo(label_text(id, at.date_time), at.text),
                        ]);
                    }
                },
                None => {
                    assert(false);
                },
            }
        }
        proof {
            assert forall|i: int, j: int| 0 <= i < j < order.len() implies order[i] > order[j] by {
                assert(ids@[ids@.len() - 1 - j] < ids@[ids@.len() - 1 - i]);
            }
            assert forall|id: u32| order.contains(id) <==> self@.contains_key(id) by {
                if order.contains(id) {
                    let i = choose|i: int| 0 <= i < order.len() && order[i] == id;
                    assert(ids@[ids@.len() - 1 - i] == id);
                }
                if ids@.contains(id) {
                    let i = choose|i: int| 0 <= i < ids@.len() && ids@[i] == id;
                    assert(order[ids@.len() - 1 - i] == id);
                }
            }
            assert(newest_first(self@, order));
        }
        rows
    }
}

} // verus!
