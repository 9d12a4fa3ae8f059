//! The commands on a file of memos. Each changes the memos and hands back
//! what is to be written or shown; reading and writing the file is left to
//! the caller.

use crate::data::{DataFile, DisplayMode, ErrorView, Listing, MemoError};
use crate::date_time::representable;
use crate::impls::{is_next_id, text_of};
use crate::models::{is_listing_by_day, rows_view, ContentView};
use vstd::prelude::*;

verus! {

/// The ids of a batch that find no memo when their turn comes, in the order
/// of the batch. An id that stands twice finds none the second time.
pub open spec fn missing_ids(m: Map<u32, ContentView>, ids: Seq<u32>) -> Seq<u32>
    decreases ids.len(),
{
    if ids.len() == 0 {
        Seq::empty()
    } else {
        let rest = missing_ids(m.remove(ids[0]), ids.drop_first());
        if m.contains_key(ids[0]) {
            rest
        } else {
            seq![ids[0]] + rest
        }
    }
}

/// Adds a memo with the given text, written now, under the next id: one more
/// than the largest id in use, `1` where there is none. Hands back the id and
/// the text form to write. Fails, and changes nothing, where the clock shows
/// a time that a timestamp cannot hold.
pub fn add<D: DataFile>(d: &mut D, content: &str) -> (r: Result<(u32, String), MemoError>)
    requires
        !old(d).memos().contains_key(u32::MAX),
    ensures
        match r {
            Ok((id, text)) => {
                &&& is_next_id(old(d).memos(), id)
                &&& final(d).memos().contains_key(id)
                &&& final(d).memos()[id].text == content@
                &&& representable(final(d).memos()[id].date_time)
                &&& final(d).memos() == old(d).memos().insert(id, final(d).memos()[id])
                &&& text@ == text_of(final(d).memos())
            },
            Err(e) => e@ == ErrorView::InvalidDateTime && final(d).memos() == old(d).memos(),
        },
{
    let ids = d.sorted_ids();
    let id: u32 = if ids.len() == 0 {
        assert forall|k: u32| d.memos().contains_key(k) implies k < 1 by {
            assert(ids@.contains(k));
        }
        1
    } else {
        let last = ids[ids.len() - 1];
        assert(ids@.contains(last));
        assert forall|k: u32| d.memos().contains_key(k) implies k <= last by {
            assert(ids@.contains(k));
            let i = choose|i: int| 0 <= i < ids@.len() && ids@[i] == k;
            if i < ids@.len() - 1 {
                assert(ids@[i] < ids@[ids@.len() - 1]);
            }
        }
        last + 1
    };
    match d.add(id, content) {
        Ok(_) => Ok((id, d.to_text())),
        Err(e) => Err(e),
    }
}

/// Removes the memos with the given ids, each in its turn, and goes on where
/// one is not found. Hands back the text form to write where every id found
/// its memo, else the ids that did not. The memos that were found stay
/// removed either way.
pub fn remove<D: DataFile>(d: &mut D, id: Vec<u32>) -> (r: Result<String, Vec<u32>>)
    ensures
        final(d).memos() == old(d).memos().remove_keys(id@.to_set()),
        match r {
            Ok(text) => missing_ids(old(d).memos(), id@).len() == 0 && text@ == text_of(
                final(d).memos(),
            ),
            Err(missing) => missing@.len() > 0 && missing@ == missing_ids(old(d).memos(), id@),
        },
{
    let mut missing: Vec<u32> = Vec::new();
    let mut k: usize = 0;
    assert(id@.take(0).to_set() =~= Set::<u32>::empty());
    assert(d.memos() =~= old(d).memos().remove_keys(id@.take(0).to_set()));
    assert(id@.skip(0) =~= id@);
    assert(missing@ + missing_ids(d.memos(), id@.skip(0)) =~= missing_ids(old(d).memos(), id@));
    while k < id.len()
        invariant
            k <= id@.len(),
            d.memos() == old(d).memos().remove_keys(id@.take(k as int).to_set()),
            missing_ids(old(d).memos(), id@) == missing@ + missing_ids(
                d.memos(),
                id@.skip(k as int),
            ),
        decreases id@.len() - k,
    {
        let one = id[k];
        let ghost before = d.memos();
        let ghost missed = missing@;
        proof {
            assert(id@.skip(k as int)[0] == one);
            assert(id@.skip(k as int).drop_first() =~= id@.skip(k + 1));
            assert(id@.take(k + 1) =~= id@.take(k as int).push(one));
            let shorter = id@.take(k as int);
            let longer = id@.take(k + 1);
            assert forall|x: u32| longer.to_set().contains(x) <==> shorter.to_set().insert(
                one,
            ).contains(x) by {
                if longer.contains(x) {
                    let i = choose|i: int| 0 <= i < longer.len() && longer[i] == x;
                    if i < k {
                        assert(shorter[i] == x);
                    }
                }
                if shorter.contains(x) {
                    let i = choose|i: int| 0 <= i < shorter.len() && shorter[i] == x;
                    assert(longer[i] == x);
                }
                if x == one {
                    assert(longer[k as int] == x);
                }
            }
            assert(longer.to_set() =~= shorter.to_set().insert(one));
        }
        match d.remove(one) {
            Ok(_) => {},
            Err(_) => {
                missing.push(one);
                assert(before.remove(one) =~= before);
            },
        }
        proof {
            assert(d.memos() =~= old(d).memos().remove_keys(id@.take(k + 1).to_set()));
            assert(missing@ + missing_ids(d.memos(), id@.skip(k + 1)) =~= missed + missing_ids(
                before,
                id@.skip(k as int),
            ));
        }
        k += 1;
    }
    proof {
        assert(id@.take(k as int) =~= id@);
        assert(id@.skip(k as int) =~= Seq::<u32>::empty());
        assert(missing@ + Seq::<u32>::empty() =~= missing@);
    }
    if missing.len() > 0 {
        Err(missing)
    } else {
        Ok(d.to_text())
    }
}

/// The listing of the memos in the given layout.
pub fn list<D: DataFile>(d: &D, mode: DisplayMode) -> (r: Listing)
    ensures
        match mode {
            DisplayMode::Sorted => r matches Listing::Sorted(text) && text@ == text_of(d.memos()),
            DisplayMode::GroupByDate => r matches Listing::GroupByDate(rows) && is_listing_by_day(
                d.memos(),
                rows_view(rows@),
            ),
        },
{
    d.display(mode)
}

} // verus!
