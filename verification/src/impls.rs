//! The operations of the store: adding and removing memos, listing their ids
//! in order, and writing the text form.

use crate::data::{DataFile, DisplayMode, ErrorView, Listing, MemoError};
use crate::date_time::{
    chrono_now, date_time_text, representable, whole_second, DateTimeFields, Timestamp,
};
use crate::laws::{lemma_text_round_trip, reads_back, texts_single_line};
use crate::models::{
    content_of_chars, content_of_text, entries_of_text, Content, ContentView, MemoData,
};
use crate::text::{chars_of, decimal_text, push_decimal, string_of};
use vstd::prelude::*;
use vstd::std_specs::iter::IteratorSpec;
use vstd::string::StringExecFns;

verus! {

/// Each number stands before every larger one.
pub open spec fn strictly_ascending(s: Seq<u32>) -> bool {
    forall|i: int, j: int| 0 <= i < j < s.len() ==> s[i] < s[j]
}

/// The text form of a content: date and time, a space, the text.
pub open spec fn content_text(c: ContentView) -> Seq<char> {
    date_time_text(c.date_time) + seq![' '] + c.text
}

/// The line of a memo: the id in decimal, a colon and a space, the content,
/// a line feed.
pub open spec fn line_text(id: u32, c: ContentView) -> Seq<char> {
    decimal_text(id as nat) + seq![':', ' '] + content_text(c) + seq!['\n']
}

/// The lines of the memos whose id is `from` or more, by ascending id.
pub open spec fn text_from(m: Map<u32, ContentView>, from: int) -> Seq<char>
    decreases 0x1_0000_0000 - from,
{
    if from < 0 || from > u32::MAX {
        Seq::empty()
    } else if m.contains_key(from as u32) {
        line_text(from as u32, m[from as u32]) + text_from(m, from + 1)
    } else {
        text_from(m, from + 1)
    }
}

/// The text form of a store: one line per memo, by ascending id.
pub open spec fn text_of(m: Map<u32, ContentView>) -> Seq<char> {
    text_from(m, 0)
}

/// Where no memo has an id from `a` up to `b`, the lines from `a` on are the
/// lines from `b` on.
pub proof fn lemma_text_from_gap(m: Map<u32, ContentView>, a: int, b: int)
    requires
        0 <= a <= b <= 0x1_0000_0000,
        forall|id: u32| a <= id < b ==> !m.contains_key(id),
    ensures
        text_from(m, a) == text_from(m, b),
    decreases b - a,
{
    if a < b {
        assert(!m.contains_key(a as u32));
        lemma_text_from_gap(m, a + 1, b);
    }
}

/// `id` is what the next memo gets: one more than the largest id in use, `1`
/// where no memo has an id above `0`.
pub open spec fn is_next_id(m: Map<u32, ContentView>, id: u32) -> bool {
    &&& id >= 1
    &&& forall|k: u32| m.contains_key(k) ==> k < id
    &&& (id == 1 || m.contains_key((id - 1) as u32))
}

/// A store has one next id.
pub proof fn lemma_next_id_unique(m: Map<u32, ContentView>, a: u32, b: u32)
    requires
        is_next_id(m, a),
        is_next_id(m, b),
    ensures
        a == b,
{
    if a < b {
        assert(m.contains_key((b - 1) as u32));
    } else if b < a {
        assert(m.contains_key((a - 1) as u32));
    }
}

/// The ids of a sequence of memos with their ids.
pub open spec fn entry_ids(entries: Seq<(u32, &Content)>) -> Seq<u32> {
    entries.map_values(|entry: (u32, &Content)| entry.0)
}

/// Puts `x` into an ascending vector at its place.
fn insert_ascending(v: &mut Vec<u32>, x: u32)
    requires
        strictly_ascending(old(v)@),
        !old(v)@.contains(x),
    ensures
        strictly_ascending(final(v)@),
        final(v)@.len() == old(v)@.len() + 1,
        forall|id: u32| final(v)@.contains(id) <==> (old(v)@.contains(id) || id == x),
{
    let mut p: usize = 0;
    while p < v.len() && v[p] < x
        invariant
            p <= v@.len(),
            v@ == old(v)@,
            forall|k: int| 0 <= k < p ==> v@[k] < x,
        decreases v@.len() - p,
    {
        p += 1;
    }
    proof {
        if p < v@.len() {
            assert(v@.contains(v@[p as int]));
        }
    }
    v.insert(p, x);
    proof {
        let a = old(v)@;
        let b = v@;
        assert(b =~= a.insert(p as int, x));
        assert forall|id: u32| b.contains(id) <==> (a.contains(id) || id == x) by {
            if b.contains(id) {
                let k = choose|k: int| 0 <= k < b.len() && b[k] == id;
                if k < p {
                    assert(a[k] == id);
                } else if k > p {
                    assert(a[k - 1] == id);
                }
            }
            if a.contains(id) {
                let k = choose|k: int| 0 <= k < a.len() && a[k] == id;
                if k < p {
                    assert(b[k] == id);
                } else {
                    assert(b[k + 1] == id);
                }
            }
            if id == x {
                assert(b[p as int] == id);
            }
        }
    }
}

impl MemoData {
    /// The ids of all memos, in ascending order.
    pub fn sorted_ids(&self) -> (r: Vec<u32>)
        ensures
            strictly_ascending(r@),
            forall|id: u32| r@.contains(id) <==> self@.contains_key(id),
    {
        broadcast use vstd::std_specs::hash::group_hash_axioms;

        let mut ids: Vec<u32> = Vec::new();
        let ghost keys: Seq<u32> = self.contents.keys().remaining().unref();
        let ghost mut seen: int = 0;
        for k in it: self.contents.keys()
            invariant
                strictly_ascending(ids@),
                it.seq().unref() == keys,
                keys.no_duplicates(),
                keys.to_set() == self.contents@.dom(),
                seen == it.index(),
                0 <= seen <= keys.len(),
                forall|id: u32|
                    ids@.contains(id) <==> exists|i: int| 0 <= i < seen && #[trigger] keys[i] == id,
        {
            proof {
                assert(keys[seen] == *k);
                if ids@.contains(*k) {
                    let i = choose|i: int| 0 <= i < seen && #[trigger] keys[i] == *k;
                    assert(keys[i] == keys[seen]);
                }
                seen = seen + 1;
            }
            insert_ascending(&mut ids, *k);
        }
        proof {
            assert(seen == keys.len());
            assert forall|id: u32| ids@.contains(id) <==> self@.contains_key(id) by {
                if ids@.contains(id) {
                    let i = choose|i: int| 0 <= i < seen && #[trigger] keys[i] == id;
                    assert(keys.to_set().contains(id));
                }
                if self@.contains_key(id) {
                    assert(keys.to_set().contains(id));
                    let i = choose|i: int| 0 <= i < keys.len() && keys[i] == id;
                    assert(keys[i] == id);
                }
            }
        }
        ids
    }

    /// All memos by ascending id, each with its id.
    pub fn render_sorted(&self) -> (r: Vec<(u32, &Content)>)
        ensures
            strictly_ascending(entry_ids(r@)),
            forall|id: u32| entry_ids(r@).contains(id) <==> self@.contains_key(id),
            forall|i: int|
                0 <= i < r@.len() ==> self@.contains_key((#[trigger] r@[i]).0) && r@[i].1@
                    == self@[r@[i].0],
    {
        broadcast use vstd::std_specs::hash::group_hash_axioms;

        let ids = self.sorted_ids();
        let mut entries: Vec<(u32, &Content)> = Vec::new();
        let mut k: usize = 0;
        while k < ids.len()
            invariant
                k <= ids@.len(),
                forall|id: u32| ids@.contains(id) <==> self@.contains_key(id),
                entry_ids(entries@) == ids@.take(k as int),
                forall|i: int|
                    0 <= i < entries@.len() ==> self@.contains_key((#[trigger] entries@[i]).0)
                        && entries@[i].1@ == self@[entries@[i].0],
            decreases ids@.len() - k,
        {
            let id = ids[k];
            let ghost before = entries@;
            assert(ids@.contains(id));
            match self.contents.get(&id) {
                Some(content) => {
                    entries.push((id, content));
                    assert(entries@ == before.push((id, content)));
                    assert(entry_ids(entries@) =~= entry_ids(before).push(id));
                    assert(ids@.take(k + 1) =~= ids@.take(k as int).push(id));
                },
                None => {
                    assert(false);
                },
            }
            k += 1;
        }
        assert(ids@.take(k as int) =~= ids@);
        entries
    }

    /// The memo with the given id, if there is one.
    pub fn get(&self, id: u32) -> (r: Option<&Content>)
        ensures
            match r {
                Some(c) => self@.contains_key(id) && c@ == self@[id],
                None => !self@.contains_key(id),
            },
    {
        broadcast use vstd::std_specs::hash::group_hash_axioms;

        self.contents.get(&id)
    }

    /// The id for the next memo: one more than the largest id in use, `1` for
    /// a store without memos. Ids of removed memos are not handed out again
    /// while a larger one is in use.
    pub fn next_id(&self) -> (r: u32)
        requires
            !self@.contains_key(u32::MAX),
        ensures
            is_next_id(self@, r),
    {
        let ids = self.sorted_ids();
        if ids.len() == 0 {
            assert forall|id: u32| self@.contains_key(id) implies id < 1 by {
                assert(ids@.contains(id));
            }
            1
        } else {
            let last = ids[ids.len() - 1];
            assert(ids@.contains(last));
            assert forall|id: u32| self@.contains_key(id) implies id <= last by {
                assert(ids@.contains(id));
                let k = choose|k: int| 0 <= k < ids@.len() && ids@[k] == id;
                if k < ids@.len() - 1 {
                    assert(ids@[k] < ids@[ids@.len() - 1]);
                }
            }
            last + 1
        }
    }

    /// Adds a memo with the given id, text and time of writing. Fails, and
    /// changes nothing, where the id is in use.
    pub fn add_at(&mut self, id: u32, name: &str, date_time: Timestamp) -> (r: Result<
        (),
        MemoError,
    >)
        ensures
            old(self)@.contains_key(id) ==> (r matches Err(e) && e@ == ErrorView::DuplicateId(id)
                && final(self)@ == old(self)@),
            !old(self)@.contains_key(id) ==> (r is Ok && final(self)@ == old(self)@.insert(
                id,
                ContentView { text: name@, date_time: date_time@ },
            )),
    {
        broadcast use vstd::std_specs::hash::group_hash_axioms;

        if self.contents.contains_key(&id) {
            return Err(MemoError::DuplicateId(id));
        }
        let content = Content { text: String::from_str(name), date_time };
        self.contents.insert(id, content);
        assert(final(self)@ =~= old(self)@.insert(
            id,
            ContentView { text: name@, date_time: date_time@ },
        ));
        Ok(())
    }

    /// Adds a memo with the given id and text, written at the given reading
    /// of the clock, cut down to the whole second. Fails, and changes
    /// nothing, where the id is in use, and where the reading is a time that
    /// a timestamp cannot hold.
    pub fn add_read(&mut self, id: u32, name: &str, reading: DateTimeFields) -> (r: Result<
        (),
        MemoError,
    >)
        ensures
            final(self)@ == (if r is Ok {
                old(self)@.insert(
                    id,
                    ContentView { text: name@, date_time: whole_second(reading) },
                )
            } else {
                old(self)@
            }),
            old(self)@.contains_key(id) ==> (r matches Err(e) && e@ == ErrorView::DuplicateId(id)),
            !old(self)@.contains_key(id) && representable(whole_second(reading)) ==> r is Ok,
            !old(self)@.contains_key(id) && !representable(whole_second(reading)) ==> (r matches Err(
                e,
            ) && e@ == ErrorView::InvalidDateTime),
    {
        broadcast use vstd::std_specs::hash::group_hash_axioms;

        if self.contents.contains_key(&id) {
            return Err(MemoError::DuplicateId(id));
        }
        match Timestamp::at(reading) {
            Some(date_time) => self.add_at(id, name, date_time),
            None => Err(MemoError::InvalidDateTime),
        }
    }

    /// Adds a memo with the given id and text, written now. Fails, and changes
    /// nothing, where the id is in use, and where the clock shows a time that
    /// a timestamp cannot hold.
    pub fn add(&mut self, id: u32, name: &str) -> (r: Result<(), MemoError>)
        ensures
            old(self)@.contains_key(id) ==> (r matches Err(e) && e@ == ErrorView::DuplicateId(id)
                && final(self)@ == old(self)@),
            !old(self)@.contains_key(id) ==> match r {
                Ok(_) => {
                    &&& final(self)@.contains_key(id)
                    &&& final(self)@[id].text == name@
                    &&& representable(final(self)@[id].date_time)
                    &&& final(self)@ == old(self)@.insert(id, final(self)@[id])
                },
                Err(e) => e@ == ErrorView::InvalidDateTime && final(self)@ == old(self)@,
            },
    {
        self.add_read(id, name, chrono_now())
    }

    /// Removes the memo with the given id. Fails, and changes nothing, where
    /// there is none.
    pub fn remove(&mut self, id: u32) -> (r: Result<(), MemoError>)
        ensures
            old(self)@.contains_key(id) ==> (r is Ok && final(self)@ == old(self)@.remove(id)),
            !old(self)@.contains_key(id) ==> (r matches Err(e) && e@ == ErrorView::NotFound(id)
                && final(self)@ == old(self)@),
    {
        broadcast use vstd::std_specs::hash::group_hash_axioms;

        if !self.contents.contains_key(&id) {
            return Err(MemoError::NotFound(id));
        }
        self.contents.remove(&id);
        assert(final(self)@ =~= old(self)@.remove(id));
        Ok(())
    }

    /// The text form of the store: one line per memo, by ascending id.
    /// Where every text is a single line, reading the text form gives the
    /// store again.
    pub fn to_text(&self) -> (r: String)
        ensures
            r@ == text_of(self@),
            texts_single_line(self@) ==> entries_of_text(r@) == Ok::<
                Map<u32, ContentView>,
                ErrorView,
            >(self@),
    {
        broadcast use vstd::std_specs::hash::group_hash_axioms;

        let ids = self.sorted_ids();
        let mut out = String::new();
        let mut k: usize = 0;
        let ghost mut lo: int = 0;
        assert(out@ + text_from(self@, 0) =~= text_from(self@, 0));
        while k < ids.len()
            invariant
                k <= ids@.len(),
                strictly_ascending(ids@),
                forall|id: u32| ids@.contains(id) <==> self@.contains_key(id),
                0 <= lo <= 0x1_0000_0000,
                k == 0 ==> lo == 0,
                k > 0 ==> lo == ids@[k - 1] + 1,
                text_of(self@) == out@ + text_from(self@, lo),
                forall|j: int| 0 <= j < k ==> reads_back(self@[#[trigger] ids@[j]].date_time),
            decreases ids@.len() - k,
        {
            let id = ids[k];
            let ghost before = out@;
            proof {
                assert(ids@.contains(id));
                assert forall|x: u32| lo <= x < id implies !self@.contains_key(x) by {
                    if self@.contains_key(x) {
                        assert(ids@.contains(x));
                        let j = choose|j: int| 0 <= j < ids@.len() && ids@[j] == x;
                        if j < k {
                            if j < k - 1 {
                                assert(ids@[j] < ids@[k - 1]);
                            }
                        } else if j > k {
                            assert(ids@[k as int] < ids@[j]);
                        }
                    }
                }
                lemma_text_from_gap(self@, lo, id as int);
            }
            match self.contents.get(&id) {
                Some(content) => {
                    push_decimal(&mut out, id);
                    out.append(": ");
                    let stamp = content.date_time.to_text();
                    out.append(stamp.as_str());
                    out.append(" ");
                    out.append(content.text.as_str());
                    out.append("\n");
                    proof {
                        reveal_strlit(": ");
                        reveal_strlit(" ");
                        reveal_strlit("\n");
                        assert(": "@ =~= seq![':', ' ']);
                        assert(" "@ =~= seq![' ']);
                        assert("\n"@ =~= seq!['\n']);
                        assert(content@ == self@[id]);
                        assert(out@ =~= before + line_text(id, self@[id]));
                        assert(out@ + text_from(self@, id + 1) =~= before + text_from(
                            self@,
                            id as int,
                        ));
                    }
                },
                None => {
                    assert(false);
                },
            }
            proof {
                lo = id + 1;
            }
            k += 1;
        }
        proof {
            assert forall|x: u32| lo <= x < 0x1_0000_0000 implies !self@.contains_key(x) by {
                if self@.contains_key(x) {
                    assert(ids@.contains(x));
                    let j = choose|j: int| 0 <= j < ids@.len() && ids@[j] == x;
                    if j < k - 1 {
                        assert(ids@[j] < ids@[k - 1]);
                    }
                }
            }
            lemma_text_from_gap(self@, lo, 0x1_0000_0000);
            assert(out@ + text_from(self@, 0x1_0000_0000) =~= out@);
            if texts_single_line(self@) {
                assert forall|id: u32| self@.contains_key(id) implies reads_back(
                    self@[id].date_time,
                ) by {
                    assert(ids@.contains(id));
                    let j = choose|j: int| 0 <= j < ids@.len() && ids@[j] == id;
                    assert(reads_back(self@[ids@[j]].date_time));
                }
                lemma_text_round_trip(self@);
            }
        }
        out
    }
}

impl Content {
    /// Reads a content from its text form: date, time and text, each behind
    /// one space, with white space around the whole passed over.
    pub fn from_str(s: &str) -> (r: Result<Content, MemoError>)
        ensures
            match content_of_text(s@) {
                Ok(v) => r matches Ok(c) && c@ == v,
                Err(rule) => r matches Err(e) && e@ == ErrorView::MalformedLine(rule, s@),
            },
    {
        let chars = chars_of(s);
        match content_of_chars(chars.as_slice()) {
            Ok(content) => Ok(content),
            Err(rule) => Err(MemoError::MalformedLine(rule, string_of(chars.as_slice()))),
        }
    }

    /// The text form: date and time, a space, the text.
    pub fn to_text(&self) -> (r: String)
        ensures
            r@ == content_text(self@),
    {
        let mut out = self.date_time.to_text();
        out.append(" ");
        out.append(self.text.as_str());
        proof {
            reveal_strlit(" ");
            assert(" "@ =~= seq![' ']);
            assert(out@ =~= content_text(self@));
        }
        out
    }
}

impl Default for MemoData {
    /// A store without memos.
    fn default() -> (r: MemoData)
        ensures
            r@ == Map::<u32, ContentView>::empty(),
    {
        MemoData::new()
    }
}

impl MemoData {
    /// Replaces the memos by those of a text. Fails, and changes nothing,
    /// where a line of the text breaks the grammar. The text of every memo
    /// read is a single line.
    pub fn load(&mut self, data: String) -> (r: Result<(), MemoError>)
        ensures
            match entries_of_text(data@) {
                Ok(m) => r is Ok && final(self)@ == m,
                Err(e) => r matches Err(x) && x@ == e && final(self)@ == old(self)@,
            },
            r is Ok ==> texts_single_line(final(self)@),
    {
        match MemoData::parse(data) {
            Ok(contents) => {
                self.contents = contents;
                Ok(())
            },
            Err(e) => Err(e),
        }
    }
}

impl DataFile for MemoData {
    open spec fn memos(&self) -> Map<u32, ContentView> {
        self@
    }

    fn load(&mut self, data: String) -> (r: Result<(), MemoError>) {
        MemoData::load(self, data)
    }

    fn sorted_ids(&self) -> (r: Vec<u32>) {
        MemoData::sorted_ids(self)
    }

    fn add(&mut self, id: u32, name: &str) -> (r: Result<(), MemoError>) {
        MemoData::add(self, id, name)
    }

    fn remove(&mut self, id: u32) -> (r: Result<(), MemoError>) {
        MemoData::remove(self, id)
    }

    fn display(&self, mode: DisplayMode) -> (r: Listing) {
        match mode {
            DisplayMode::Sorted => Listing::Sorted(MemoData::to_text(self)),
            DisplayMode::GroupByDate => Listing::GroupByDate(self.group_by_date()),
        }
    }

    fn to_text(&self) -> (r: String) {
        MemoData::to_text(self)
    }
}

} // verus!
