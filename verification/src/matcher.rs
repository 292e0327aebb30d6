//! A set of stored fingerprints, each with the screen position it was taken
//! at, matched against the screen in turn.
use vstd::prelude::*;
use crate::fingerprint::Cell;
use crate::path::{is_sep, join_with_separator, joined, main_separator};
use crate::sorting::{insert_pos, insertion_sorted, law_insertion_sorted, lemma_insert_pos, sorted_by};
use crate::text::{dec_nat, dec_string, replace_all, replace_str};

verus! {

/// A stored fingerprint: where its file is, the file's name, the name with
/// `{mc}` standing for the match count, how often it matched, the screen
/// position it was taken at, and its cells.
#[derive(Debug)]
pub struct FingerprintItem {
    pub path: String,
    pub filename: String,
    pub mask: String,
    pub match_count: u32,
    pub x: i32,
    pub y: i32,
    pub table: Vec<Cell>,
}

/// The stored fingerprints, most matched first once loaded.
#[derive(Debug)]
pub struct FingerprintMatcher {
    pub items: Vec<FingerprintItem>,
}

/// The first position, from `i` on, at which `matched` holds.
pub open spec fn first_true(matched: Seq<bool>, i: int) -> Option<int>
    decreases matched.len() - i,
{
    if i < 0 || i >= matched.len() {
        None
    } else if matched[i] {
        Some(i)
    } else {
        first_true(matched, i + 1)
    }
}

/// `it` with its match count raised by one.
pub open spec fn counted(it: FingerprintItem) -> FingerprintItem {
    FingerprintItem { match_count: (it.match_count + 1) as u32, ..it }
}

/// Whether `a` may stand before `b` once the items are loaded: it matched
/// at least as often.
pub open spec fn more_matched() -> spec_fn(FingerprintItem, FingerprintItem) -> bool {
    |a: FingerprintItem, b: FingerprintItem| a.match_count >= b.match_count
}

impl FingerprintMatcher {
    /// No fingerprints.
    pub fn new() -> (m: FingerprintMatcher)
        ensures
            m.items@.len() == 0,
    {
        FingerprintMatcher { items: Vec::new() }
    }

    /// Counts a match for the first item that matches the screen;
    /// `matched` tells, item by item, whether it does. Gives its position,
    /// or `None` when no item matches.
    pub fn do_match(&mut self, matched: &Vec<bool>) -> (r: Option<usize>)
        requires
            matched@.len() == old(self).items@.len(),
            first_true(matched@, 0) matches Some(i) ==> old(self).items@[i].match_count < u32::MAX,
        ensures
            r matches Some(i) ==> first_true(matched@, 0) == Some(i as int) && final(self).items@
                == old(self).items@.update(i as int, counted(old(self).items@[i as int])),
            r is None ==> first_true(matched@, 0) is None && final(self).items@ == old(self).items@,
    {
        let mut i: usize = 0;
        while i < matched.len()
            invariant
                i <= matched@.len(),
                matched@.len() == self.items@.len(),
                self.items@ == old(self).items@,
                first_true(matched@, 0) matches Some(m) ==> old(self).items@[m].match_count < u32::MAX,
                first_true(matched@, 0) == first_true(matched@, i as int),
            decreases matched@.len() - i,
        {
            if matched[i] {
                let ghost items = self.items@;
                let mut item = self.items.remove(i);
                item.match_count = item.match_count + 1;
                self.items.insert(i, item);
                assert(self.items@ =~= items.update(i as int, counted(items[i as int])));
                return Some(i);
            }
            i = i + 1;
        }
        None
    }

    /// Gives the item at `index` the file name for its current match count
    /// (its name mask with `{mc}` replaced by the count) and returns the
    /// full paths of the file before and after, both joined with the same
    /// separator.
    pub fn update_item(&mut self, index: usize) -> (r: (String, String))
        requires
            index < old(self).items@.len(),
        ensures
            ({
                let it = old(self).items@[index as int];
                let name = replace_all(it.mask@, "{mc}"@, dec_nat(it.match_count as nat));
                &&& final(self).items@.len() == old(self).items@.len()
                &&& forall|k: int|
                    0 <= k < old(self).items@.len() && k != index ==> #[trigger] final(self).items@[k]
                        == old(self).items@[k]
                &&& final(self).items@[index as int].filename@ == name
                &&& final(self).items@[index as int].path == it.path
                &&& final(self).items@[index as int].mask == it.mask
                &&& final(self).items@[index as int].match_count == it.match_count
                &&& final(self).items@[index as int].x == it.x
                &&& final(self).items@[index as int].y == it.y
                &&& final(self).items@[index as int].table == it.table
                &&& exists|sep: char|
                    is_sep(sep) && r.0@ == joined(it.path@, it.filename@, sep) && r.1@ == joined(
                        it.path@,
                        name,
                        sep,
                    )
            }),
    {
        let ghost items = self.items@;
        let mut item = self.items.remove(index);
        assert(self.items@ == items.remove(index as int));
        proof {
            reveal_strlit("{mc}");
        }
        let count = dec_string(item.match_count as u128);
        let new_filename = replace_str(item.mask.as_str(), "{mc}", count.as_str());
        let sep = main_separator();
        let old_path = join_with_separator(item.path.as_str(), item.filename.as_str(), sep);
        let new_path = join_with_separator(item.path.as_str(), new_filename.as_str(), sep);
        item.filename = new_filename;
        let ghost newit = item;
        self.items.insert(index, item);
        assert(self.items@ =~= items.update(index as int, newit));
        (old_path, new_path)
    }

    /// Orders the items by falling match count, a stable sort: items with
    /// equal counts keep their order. The items end ordered, each kept
    /// exactly once.
    pub fn sort_items(&mut self)
        ensures
            final(self).items@ == insertion_sorted(old(self).items@, more_matched()),
            sorted_by(final(self).items@, more_matched()),
            final(self).items@.to_multiset() == old(self).items@.to_multiset(),
    {
        let mut rest: Vec<FingerprintItem> = Vec::new();
        std::mem::swap(&mut rest, &mut self.items);
        let ghost orig = rest@;
        let ghost le = more_matched();
        let total = rest.len();
        let mut out: Vec<FingerprintItem> = Vec::new();
        let mut k: usize = 0;
        assert(orig.skip(0) =~= orig);
        while rest.len() > 0
            invariant
                k <= orig.len(),
                orig.len() == total,
                rest@ == orig.skip(k as int),
                le == more_matched(),
                out@ == insertion_sorted(orig.take(k as int), le),
            decreases rest@.len(),
        {
            let x = rest.remove(0);
            let ghost t = out@;
            proof {
                lemma_insert_pos(t, x, le, 0);
            }
            let mut p: usize = 0;
            while p < out.len() && out[p].match_count >= x.match_count
                invariant
                    out@ == t,
                    le == more_matched(),
                    0 <= p <= insert_pos(t, x, le, 0),
                    insert_pos(t, x, le, 0) == insert_pos(t, x, le, p as int),
                decreases out@.len() - p,
            {
                proof {
                    lemma_insert_pos(t, x, le, p + 1);
                }
                p = p + 1;
            }
            proof {
                assert(orig.take(k + 1).drop_last() =~= orig.take(k as int));
                assert(orig.take(k + 1).last() == orig[k as int]);
                assert(orig.skip(k as int)[0] == orig[k as int]);
            }
            out.insert(p, x);
            k = k + 1;
            assert(rest@ =~= orig.skip(k as int));
        }
        assert(orig.take(k as int) =~= orig);
        proof {
            law_insertion_sorted(orig, le);
        }
        self.items = out;
    }
}

/// How long the run loop waits before it looks at the screen again.
#[derive(Debug, Clone, Copy, PartialEq, Eq, Structural)]
pub enum Pause {
    /// The short wait between looks.
    Find,
    /// The long wait after repeated confirmed clicks.
    Cooldown,
}

/// The run loop's decision after one round, given how many rounds in a row
/// ended in a confirmed click before it: `found` tells whether the first
/// look matched, `clicked` whether the confirming look matched and clicked
/// (it counts only when `found`). Gives the new count and the wait: the
/// count grows by a confirmed click and falls to 0 otherwise; once it
/// passes 1 it falls to 0 and a cooldown follows.
pub fn after_round(repeat_count: u32, found: bool, clicked: bool) -> (r: (u32, Pause))
    requires
        repeat_count < u32::MAX,
    ensures
        ({
            let n = if found && clicked {
                repeat_count + 1
            } else {
                0
            };
            if n > 1 {
                r == (0u32, Pause::Cooldown)
            } else {
                r == (n as u32, Pause::Find)
            }
        }),
        r.0 <= 1,
{
    let n = if found && clicked {
        repeat_count + 1
    } else {
        0
    };
    if n > 1 {
        (0, Pause::Cooldown)
    } else {
        (n, Pause::Find)
    }
}

} // verus!
