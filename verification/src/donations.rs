//! Statistics over a file of donation records: one record per line, fields
//! separated by '|'. The fourth separator is followed by the date (year and
//! month are counted), the eighth closes the donor's name (first names are
//! counted). The file is scanned in pieces that end at a newline.
use vstd::prelude::*;
use crate::assoc::{assoc_find, assoc_get, assoc_insert, lemma_insert, lemma_pos_bounds, lemma_pos_unique, unique_keys};
use crate::sorting::{insert_pos, insertion_sorted, law_insertion_sorted, lemma_insert_pos, total_preorder};
use crate::text::{
    chars_le, dec_int, dec_nat, lemma_chars_le_total, lemma_chars_le_trans, push_char, push_dec,
    push_dec_signed, push_str, str_le,
};

verus! {

/// The text that the bytes `b` encode, if they are UTF-8.
pub open spec fn text_of(b: Seq<u8>) -> Option<Seq<char>> {
    if vstd::utf8::valid_utf8(b) {
        Some(vstd::utf8::decode_utf8(b))
    } else {
        None
    }
}

/// Decodes UTF-8 bytes into a string (`std::str::from_utf8`, then
/// `to_string`): `None` exactly when the bytes are not UTF-8.
#[verifier::external_body]
fn utf8_string(bytes: &[u8]) -> (r: Option<String>)
    ensures
        match text_of(bytes@) {
            Some(t) => r matches Some(s) && s@ == t,
            None => r is None,
        },
{
    std::str::from_utf8(bytes).ok().map(|s| s.to_string())
}

/// Why scanning stopped, where reading the records the way they are read
/// fails.
#[derive(Debug, Clone, Copy, PartialEq, Eq, Structural)]
pub enum DonationError {
    /// A field reaches past the end of the piece.
    Truncated,
    /// A field is not UTF-8.
    InvalidUtf8,
    /// A counter would overflow.
    Overflow,
}

/// Counts `k` once more in `s`: `None` when its count would overflow.
pub open spec fn count_insert(s: Seq<(Seq<char>, u32)>, k: Seq<char>) -> Option<Seq<(Seq<char>, u32)>> {
    match assoc_get(s, k) {
        Some(c) => if c == u32::MAX {
            None
        } else {
            Some(assoc_insert(s, k, (c + 1) as u32))
        },
        None => Some(assoc_insert(s, k, 1u32)),
    }
}

/// The statistics as mathematical values.
pub struct StatsView {
    pub line_count: int,
    pub names: Seq<(Seq<char>, u32)>,
    pub months: Seq<(Seq<char>, u32)>,
    pub name_count: int,
    pub name_433: Seq<char>,
    pub name_43244: Seq<char>,
}

/// The first position in `from..to` holding `b`, or `to`.
pub open spec fn find_byte(buf: Seq<u8>, from: int, to: int, b: u8) -> int
    decreases to - from,
{
    if from >= to {
        to
    } else if buf[from] == b {
        from
    } else {
        find_byte(buf, from + 1, to, b)
    }
}

/// The first position in `from..to` not holding `b`, or `to`.
pub open spec fn find_other(buf: Seq<u8>, from: int, to: int, b: u8) -> int
    decreases to - from,
{
    if from >= to {
        to
    } else if buf[from] != b {
        from
    } else {
        find_other(buf, from + 1, to, b)
    }
}

/// Where the first name starts in the name field `start..end`: after the
/// first comma and the spaces that follow it, or at `start` when there is
/// no comma or nothing but spaces follows it.
pub open spec fn first_name_start(buf: Seq<u8>, start: int, end: int) -> int {
    let j = find_byte(buf, start, end, 44);
    if j >= end {
        start
    } else {
        let m = find_other(buf, j + 1, end, 32);
        if m >= end {
            start
        } else {
            m
        }
    }
}

/// The text of `buf[a..b]`, or why it cannot be taken.
pub open spec fn field_text(buf: Seq<u8>, a: int, b: int) -> Result<Seq<char>, DonationError> {
    if a < 0 || a > b || b > buf.len() {
        Err(DonationError::Truncated)
    } else {
        match text_of(buf.subrange(a, b)) {
            Some(t) => Ok(t),
            None => Err(DonationError::InvalidUtf8),
        }
    }
}

/// What the fourth separator, at `i`, does: the year (the four bytes after
/// it) and the month (the two after those) are counted as "year-month".
pub open spec fn date_effect(st: StatsView, buf: Seq<u8>, i: int) -> Result<StatsView, DonationError> {
    match field_text(buf, i + 1, i + 5) {
        Err(e) => Err(e),
        Ok(year) => match field_text(buf, i + 5, i + 7) {
            Err(e) => Err(e),
            Ok(month) => match count_insert(st.months, year + seq!['-'] + month) {
                None => Err(DonationError::Overflow),
                Some(m) => Ok(StatsView { months: m, ..st }),
            },
        },
    }
}

/// What the eighth separator, at `i`, does when the name field began at
/// `ns`: the names are counted; the 433rd and the 43244th full names are
/// kept; the first name (from `first_name_start` up to the next space) is
/// counted. Also gives where the first name starts.
pub open spec fn name_effect(st: StatsView, buf: Seq<u8>, i: int, ns: int) -> Result<
    (StatsView, int),
    DonationError,
> {
    if st.name_count + 1 > i32::MAX {
        Err(DonationError::Overflow)
    } else {
        let nc = st.name_count + 1;
        let kept = if nc == 433 || nc == 43244 {
            match field_text(buf, ns, i) {
                Err(e) => Err(e),
                Ok(full) => if nc == 433 {
                    Ok(StatsView { name_count: nc, name_433: full, ..st })
                } else {
                    Ok(StatsView { name_count: nc, name_43244: full, ..st })
                },
            }
        } else {
            Ok(StatsView { name_count: nc, ..st })
        };
        match kept {
            Err(e) => Err(e),
            Ok(st1) => {
                let ns2 = first_name_start(buf, ns, i);
                let ne = find_byte(buf, ns2, i, 32);
                match field_text(buf, ns2, ne) {
                    Err(e) => Err(e),
                    Ok(name) => match count_insert(st1.names, name) {
                        None => Err(DonationError::Overflow),
                        Some(n) => Ok((StatsView { names: n, ..st1 }, ns2)),
                    },
                }
            },
        }
    }
}

/// Scanning `buf` from position `i`, in a record at separator count `col`
/// whose name field began at `ns`, the last newline being just before
/// `consume`: the statistics after the piece and how much of it ends at a
/// newline, or why scanning fails.
pub open spec fn scan(st: StatsView, buf: Seq<u8>, i: int, col: nat, ns: int, consume: int) -> Result<
    (StatsView, int),
    DonationError,
>
    decreases buf.len() - i,
{
    if i < 0 || i >= buf.len() {
        Ok((st, consume))
    } else if buf[i] == 10 {
        if st.line_count + 1 > i32::MAX {
            Err(DonationError::Overflow)
        } else {
            scan(StatsView { line_count: st.line_count + 1, ..st }, buf, i + 1, 0, 0, i + 1)
        }
    } else if buf[i] == 124 {
        if col + 1 == 4 {
            match date_effect(st, buf, i) {
                Err(e) => Err(e),
                Ok(st2) => scan(
                    st2,
                    buf,
                    if i + 8 < buf.len() {
                        i + 8
                    } else {
                        buf.len() as int
                    },
                    4,
                    ns,
                    consume,
                ),
            }
        } else if col + 1 == 7 {
            scan(st, buf, i + 1, 7, i + 1, consume)
        } else if col + 1 == 8 {
            match name_effect(st, buf, i, ns) {
                Err(e) => Err(e),
                Ok(r) => scan(r.0, buf, i + 1, 8, r.1, consume),
            }
        } else {
            scan(st, buf, i + 1, col + 1, ns, consume)
        }
    } else {
        scan(st, buf, i + 1, col, ns, consume)
    }
}

/// The statistics gathered so far.
#[derive(Debug)]
pub struct DonationStats {
    pub line_count: i32,
    pub names: Vec<(String, u32)>,
    pub months: Vec<(String, u32)>,
    pub name_count: i32,
    pub name_433: String,
    pub name_43244: String,
}

pub open spec fn counts_view(s: Seq<(String, u32)>) -> Seq<(Seq<char>, u32)> {
    s.map_values(|e: (String, u32)| (e.0@, e.1))
}

impl DonationStats {
    pub open spec fn view(&self) -> StatsView {
        StatsView {
            line_count: self.line_count as int,
            names: counts_view(self.names@),
            months: counts_view(self.months@),
            name_count: self.name_count as int,
            name_433: self.name_433@,
            name_43244: self.name_43244@,
        }
    }

    /// No name and no month is counted twice.
    pub open spec fn wf(&self) -> bool {
        unique_keys(counts_view(self.names@)) && unique_keys(counts_view(self.months@))
    }

    /// Nothing counted yet.
    pub fn new() -> (r: DonationStats)
        ensures
            r.wf(),
            r.view().line_count == 0,
            r.view().names.len() == 0,
            r.view().months.len() == 0,
            r.view().name_count == 0,
            r.view().name_433.len() == 0,
            r.view().name_43244.len() == 0,
    {
        DonationStats {
            line_count: 0,
            names: Vec::new(),
            months: Vec::new(),
            name_count: 0,
            name_433: String::new(),
            name_43244: String::new(),
        }
    }
}

/// Counts `k` once more.
fn count_in(v: &mut Vec<(String, u32)>, k: String) -> (r: bool)
    requires
        unique_keys(counts_view(old(v)@)),
    ensures
        match count_insert(counts_view(old(v)@), k@) {
            Some(s) => r && counts_view(final(v)@) == s,
            None => !r,
        },
        unique_keys(counts_view(final(v)@)),
{
    let ghost s = counts_view(v@);
    proof {
        lemma_pos_bounds(s, k@);
    }
    match find_count(v, &k) {
        Some(i) => {
            proof {
                lemma_pos_unique(s, i as int);
            }
            let c = v[i].1;
            if c == u32::MAX {
                return false;
            }
            proof {
                lemma_insert(s, k@, (c + 1) as u32);
            }
            v.set(i, (k, c + 1));
            assert(counts_view(v@) =~= s.update(i as int, (k@, (c + 1) as u32)));
            true
        },
        None => {
            proof {
                lemma_insert(s, k@, 1u32);
            }
            v.push((k, 1));
            assert(counts_view(v@) =~= s.push((k@, 1u32)));
            true
        },
    }
}

fn find_count(v: &Vec<(String, u32)>, k: &String) -> (r: Option<usize>)
    ensures
        r matches Some(i) ==> i < v@.len() && counts_view(v@)[i as int].0 == k@,
        r is None ==> forall|j: int| 0 <= j < v@.len() ==> #[trigger] counts_view(v@)[j].0 != k@,
{
    let r = assoc_find(v, k);
    proof {
        if r is None {
            assert forall|j: int| 0 <= j < v@.len() implies #[trigger] counts_view(v@)[j].0 != k@ by {
                assert(v@[j].0@ != k@);
            }
        }
    }
    r
}


/// The text of `buf[a..b]`, or why it cannot be taken.
fn field_string(buf: &[u8], a: usize, b: usize) -> (r: Result<String, DonationError>)
    ensures
        match field_text(buf@, a as int, b as int) {
            Ok(t) => r matches Ok(s) && s@ == t,
            Err(e) => r == Err::<String, DonationError>(e),
        },
{
    if a > b || b > buf.len() {
        return Err(DonationError::Truncated);
    }
    let part = vstd::slice::slice_subrange(buf, a, b);
    match utf8_string(part) {
        Some(s) => Ok(s),
        None => Err(DonationError::InvalidUtf8),
    }
}

/// The first position in `from..to` holding `b`, or `to`.
fn find_byte_in(buf: &[u8], from: usize, to: usize, b: u8) -> (r: usize)
    requires
        from <= to <= buf@.len(),
    ensures
        r as int == find_byte(buf@, from as int, to as int, b),
        from <= r <= to,
{
    let mut j = from;
    while j < to
        invariant
            from <= j <= to <= buf@.len(),
            find_byte(buf@, j as int, to as int, b) == find_byte(buf@, from as int, to as int, b),
        decreases to - j,
    {
        if buf[j] == b {
            return j;
        }
        j = j + 1;
    }
    j
}

/// The first position in `from..to` not holding `b`, or `to`.
fn find_other_in(buf: &[u8], from: usize, to: usize, b: u8) -> (r: usize)
    requires
        from <= to <= buf@.len(),
    ensures
        r as int == find_other(buf@, from as int, to as int, b),
        from <= r <= to,
{
    let mut j = from;
    while j < to
        invariant
            from <= j <= to <= buf@.len(),
            find_other(buf@, j as int, to as int, b) == find_other(buf@, from as int, to as int, b),
        decreases to - j,
    {
        if buf[j] != b {
            return j;
        }
        j = j + 1;
    }
    j
}

/// Where the first name starts in the name field `start..end`.
fn first_name_at(buf: &[u8], start: usize, end: usize) -> (r: usize)
    requires
        start <= end <= buf@.len(),
    ensures
        r as int == first_name_start(buf@, start as int, end as int),
        start <= r <= end,
{
    let j = find_byte_in(buf, start, end, 44);
    if j >= end {
        start
    } else {
        let m = find_other_in(buf, j + 1, end, 32);
        if m >= end {
            start
        } else {
            m
        }
    }
}

impl DonationStats {
    /// What the fourth separator, at `i`, does (`date_effect`).
    fn count_date(&mut self, buf: &[u8], i: usize) -> (r: Result<(), DonationError>)
        requires
            old(self).wf(),
            i < buf@.len(),
        ensures
            final(self).wf(),
            match date_effect(old(self).view(), buf@, i as int) {
                Ok(st) => r is Ok && final(self).view() == st,
                Err(e) => r == Err::<(), DonationError>(e),
            },
    {
        if buf.len() - i < 5 {
            return Err(DonationError::Truncated);
        }
        let year = match field_string(buf, i + 1, i + 5) {
            Ok(s) => s,
            Err(e) => return Err(e),
        };
        if buf.len() - i < 7 {
            return Err(DonationError::Truncated);
        }
        let month = match field_string(buf, i + 5, i + 7) {
            Ok(s) => s,
            Err(e) => return Err(e),
        };
        let mut date = year;
        push_char(&mut date, '-');
        push_str(&mut date, month.as_str());
        assert(date@ == year@ + seq!['-'] + month@);
        if count_in(&mut self.months, date) {
            Ok(())
        } else {
            Err(DonationError::Overflow)
        }
    }

    /// What the eighth separator, at `i`, does when the name field began at
    /// `ns` (`name_effect`).
    fn count_name(&mut self, buf: &[u8], i: usize, ns: usize) -> (r: Result<usize, DonationError>)
        requires
            old(self).wf(),
            ns <= i < buf@.len(),
        ensures
            final(self).wf(),
            match name_effect(old(self).view(), buf@, i as int, ns as int) {
                Ok(p) => r == Ok::<usize, DonationError>(p.1 as usize) && final(self).view() == p.0,
                Err(e) => r == Err::<usize, DonationError>(e),
            },
            r matches Ok(n) ==> ns <= n <= i,
    {
        if self.name_count == i32::MAX {
            return Err(DonationError::Overflow);
        }
        let nc = self.name_count + 1;
        if nc == 433 || nc == 43244 {
            match field_string(buf, ns, i) {
                Err(e) => {
                    return Err(e);
                },
                Ok(full) => {
                    if nc == 433 {
                        self.name_433 = full;
                    } else {
                        self.name_43244 = full;
                    }
                },
            }
        }
        self.name_count = nc;
        let ns2 = first_name_at(buf, ns, i);
        let ne = find_byte_in(buf, ns2, i, 32);
        match field_string(buf, ns2, ne) {
            Err(e) => Err(e),
            Ok(name) => {
                if count_in(&mut self.names, name) {
                    Ok(ns2)
                } else {
                    Err(DonationError::Overflow)
                }
            },
        }
    }

    /// Scans one piece of the file, the statistics growing by what its
    /// records hold (`scan`): gives how much of the piece ends at its last
    /// newline, or why the records cannot be read.
    pub fn scan_chunk(&mut self, buf: &[u8]) -> (r: Result<usize, DonationError>)
        requires
            old(self).wf(),
        ensures
            final(self).wf(),
            match scan(old(self).view(), buf@, 0, 0, 0, 0) {
                Ok(p) => r == Ok::<usize, DonationError>(p.1 as usize) && final(self).view() == p.0,
                Err(e) => r == Err::<usize, DonationError>(e),
            },
    {
        let len = buf.len();
        let mut i: usize = 0;
        let mut col: usize = 0;
        let mut ns: usize = 0;
        let mut consume: usize = 0;
        while i < len
            invariant
                self.wf(),
                len == buf@.len(),
                i <= len,
                col <= i,
                ns <= i,
                consume <= i,
                scan(self.view(), buf@, i as int, col as nat, ns as int, consume as int) == scan(
                    old(self).view(),
                    buf@,
                    0,
                    0,
                    0,
                    0,
                ),
            decreases len - i,
        {
            let ghost st = self.view();
            let b = buf[i];
            if b == 10 {
                if self.line_count == i32::MAX {
                    return Err(DonationError::Overflow);
                }
                self.line_count = self.line_count + 1;
                assert(self.view() == StatsView { line_count: st.line_count + 1, ..st });
                consume = i + 1;
                col = 0;
                ns = 0;
                i = i + 1;
            } else if b == 124 {
                if col + 1 == 4 {
                    match self.count_date(buf, i) {
                        Err(e) => {
                            return Err(e);
                        },
                        Ok(()) => {},
                    }
                    col = 4;
                    i = if len - i >= 8 {
                        i + 8
                    } else {
                        len
                    };
                } else if col + 1 == 7 {
                    col = 7;
                    ns = i + 1;
                    i = i + 1;
                } else if col + 1 == 8 {
                    match self.count_name(buf, i, ns) {
                        Err(e) => {
                            return Err(e);
                        },
                        Ok(n) => {
                            ns = n;
                        },
                    }
                    col = 8;
                    i = i + 1;
                } else {
                    col = col + 1;
                    i = i + 1;
                }
            } else {
                i = i + 1;
            }
        }
        Ok(consume)
    }
}


/// The most counted entry, the first of them in the order of the table
/// when several share the highest count; an empty name with count 0 for an
/// empty table.
pub open spec fn top_entry(s: Seq<(Seq<char>, u32)>) -> (Seq<char>, u32)
    decreases s.len(),
{
    if s.len() == 0 {
        (Seq::empty(), 0u32)
    } else {
        let t = top_entry(s.drop_last());
        if s.last().1 > t.1 {
            s.last()
        } else {
            t
        }
    }
}

/// The entries are in the order of their keys.
pub open spec fn keys_sorted(s: Seq<(Seq<char>, u32)>) -> bool {
    forall|a: int, b: int| 0 <= a < b < s.len() ==> chars_le(#[trigger] s[a].0, #[trigger] s[b].0)
}

/// Entries ordered by their keys, as a relation.
pub open spec fn key_le() -> spec_fn((Seq<char>, u32), (Seq<char>, u32)) -> bool {
    |a: (Seq<char>, u32), b: (Seq<char>, u32)| chars_le(a.0, b.0)
}

proof fn lemma_key_preorder()
    ensures
        total_preorder(key_le()),
{
    assert forall|a: (Seq<char>, u32), b: (Seq<char>, u32)| #[trigger] key_le()(a, b) || key_le()(b, a) by {
        lemma_chars_le_total(a.0, b.0);
    }
    assert forall|a: (Seq<char>, u32), b: (Seq<char>, u32), c: (Seq<char>, u32)|
        #[trigger] key_le()(a, b) && #[trigger] key_le()(b, c) implies key_le()(a, c) by {
        lemma_chars_le_trans(a.0, b.0, c.0);
    }
}

/// One line of the report per month, in the order given.
pub open spec fn month_lines(ms: Seq<(Seq<char>, u32)>) -> Seq<char>
    decreases ms.len(),
{
    if ms.len() == 0 {
        Seq::empty()
    } else {
        month_lines(ms.drop_last()) + "Donations per month and year: "@ + ms.last().0
            + " and donation count "@ + dec_nat(ms.last().1 as nat) + "\n"@
    }
}

/// The report: the number of lines, the 433rd and the 43244th names (shown
/// as 432 and 43243), the most frequent first name, then the months in
/// order `ms`.
pub open spec fn report_text(st: StatsView, ms: Seq<(Seq<char>, u32)>) -> Seq<char> {
    let top = top_entry(st.names);
    "line_count "@ + dec_int(st.line_count) + "\n"@ + "Name 432: "@ + st.name_433 + "\n"@
        + "Name 43243: "@ + st.name_43244 + "\n"@ + "Top name: "@ + top.0 + " "@ + dec_nat(
        top.1 as nat,
    ) + "\n"@ + month_lines(ms)
}

impl DonationStats {
    /// The most frequent first name and its count (`top_entry`).
    pub fn top_name(&self) -> (r: (String, u32))
        ensures
            (r.0@, r.1) == top_entry(self.view().names),
    {
        let mut name = String::new();
        let mut count: u32 = 0;
        let mut i: usize = 0;
        while i < self.names.len()
            invariant
                i <= self.names@.len(),
                (name@, count) == top_entry(counts_view(self.names@).take(i as int)),
            decreases self.names@.len() - i,
        {
            let ghost s = counts_view(self.names@);
            assert(s.take(i + 1).drop_last() =~= s.take(i as int));
            if self.names[i].1 > count {
                name = self.names[i].0.clone();
                count = self.names[i].1;
            }
            i = i + 1;
        }
        assert(counts_view(self.names@).take(i as int) =~= counts_view(self.names@));
        (name, count)
    }

    /// The months with their counts, in the order of their names (a stable
    /// sort).
    pub fn sorted_months(&self) -> (r: Vec<(String, u32)>)
        ensures
            counts_view(r@) == insertion_sorted(counts_view(self.months@), key_le()),
            keys_sorted(counts_view(r@)),
            counts_view(r@).to_multiset() == counts_view(self.months@).to_multiset(),
    {
        let ghost src = counts_view(self.months@);
        let ghost le = key_le();
        let mut out: Vec<(String, u32)> = Vec::new();
        let mut i: usize = 0;
        while i < self.months.len()
            invariant
                i <= self.months@.len(),
                src == counts_view(self.months@),
                le == key_le(),
                counts_view(out@) == insertion_sorted(src.take(i as int), le),
            decreases self.months@.len() - i,
        {
            let key = self.months[i].0.clone();
            let c = self.months[i].1;
            let ghost x = (key@, c);
            let ghost t = counts_view(out@);
            assert(x == src[i as int]);
            proof {
                lemma_insert_pos(t, x, le, 0);
            }
            let mut p: usize = 0;
            while p < out.len() && str_le(out[p].0.as_str(), key.as_str())
                invariant
                    p <= out@.len(),
                    x == (key@, c),
                    t == counts_view(out@),
                    le == key_le(),
                    0 <= p <= insert_pos(t, x, le, 0),
                    insert_pos(t, x, le, 0) == insert_pos(t, x, le, p as int),
                decreases out@.len() - p,
            {
                proof {
                    lemma_insert_pos(t, x, le, p + 1);
                }
                p = p + 1;
            }
            out.insert(p, (key, c));
            proof {
                assert(counts_view(out@) =~= t.insert(p as int, x));
                assert(src.take(i + 1).drop_last() =~= src.take(i as int));
                assert(src.take(i + 1).last() == x);
            }
            i = i + 1;
        }
        assert(src.take(i as int) =~= src);
        proof {
            lemma_key_preorder();
            law_insertion_sorted(src, le);
            let r = counts_view(out@);
            assert forall|a: int, b: int| 0 <= a < b < r.len() implies chars_le(
                #[trigger] r[a].0,
                #[trigger] r[b].0,
            ) by {
                assert(le(r[a], r[b]));
            }
        }
        out
    }

    /// The report that the statistics give (`report_text`), the months
    /// sorted by name.
    pub fn report(&self) -> (r: String)
        ensures
            r@ == report_text(self.view(), insertion_sorted(self.view().months, key_le())),
    {
        let mut out = String::new();
        push_str(&mut out, "line_count ");
        push_dec_signed(&mut out, self.line_count as i128);
        push_str(&mut out, "\n");
        push_str(&mut out, "Name 432: ");
        push_str(&mut out, self.name_433.as_str());
        push_str(&mut out, "\n");
        push_str(&mut out, "Name 43243: ");
        push_str(&mut out, self.name_43244.as_str());
        push_str(&mut out, "\n");
        let top = self.top_name();
        push_str(&mut out, "Top name: ");
        push_str(&mut out, top.0.as_str());
        push_str(&mut out, " ");
        push_dec(&mut out, top.1 as u128);
        push_str(&mut out, "\n");
        let ghost head = out@;
        let months = self.sorted_months();
        let ghost ms = counts_view(months@);
        let mut i: usize = 0;
        while i < months.len()
            invariant
                i <= months@.len(),
                ms == counts_view(months@),
                out@ == head + month_lines(ms.take(i as int)),
            decreases months@.len() - i,
        {
            assert(ms.take(i + 1).drop_last() =~= ms.take(i as int));
            push_str(&mut out, "Donations per month and year: ");
            push_str(&mut out, months[i].0.as_str());
            push_str(&mut out, " and donation count ");
            push_dec(&mut out, months[i].1 as u128);
            push_str(&mut out, "\n");
            i = i + 1;
        }
        assert(ms.take(i as int) =~= ms);
        assert(out@ == report_text(self.view(), ms));
        out
    }
}

/// Law: in a table whose counts are positive, the top entry is one of its
/// entries, no entry has a higher count, and every entry before it has a
/// lower one.
pub proof fn law_top_entry(s: Seq<(Seq<char>, u32)>)
    requires
        s.len() > 0,
        forall|j: int| 0 <= j < s.len() ==> #[trigger] s[j].1 > 0,
    ensures
        exists|k: int|
            0 <= k < s.len() && s[k] == top_entry(s) && (forall|j: int|
                0 <= j < s.len() ==> #[trigger] s[j].1 <= s[k].1) && (forall|j: int|
                0 <= j < k ==> #[trigger] s[j].1 < s[k].1),
    decreases s.len(),
{
    let t = s.drop_last();
    let n = s.len() - 1;
    if t.len() == 0 {
        assert(top_entry(t) == (Seq::<char>::empty(), 0u32));
        assert(s[n] == s.last());
        assert(0 <= n < s.len() && s[n] == top_entry(s) && (forall|j: int|
            0 <= j < s.len() ==> #[trigger] s[j].1 <= s[n].1) && (forall|j: int|
            0 <= j < n ==> #[trigger] s[j].1 < s[n].1));
    } else {
        assert forall|j: int| 0 <= j < t.len() implies #[trigger] t[j].1 > 0 by {
            assert(t[j] == s[j]);
        }
        law_top_entry(t);
        let k = choose|k: int|
            0 <= k < t.len() && t[k] == top_entry(t) && (forall|j: int|
                0 <= j < t.len() ==> #[trigger] t[j].1 <= t[k].1) && (forall|j: int|
                0 <= j < k ==> #[trigger] t[j].1 < t[k].1);
        assert forall|j: int| 0 <= j < t.len() implies s[j] == #[trigger] t[j] by {}
        if s.last().1 > top_entry(t).1 {
            assert(s[n] == top_entry(s));
            assert forall|j: int| 0 <= j < s.len() implies #[trigger] s[j].1 <= s[n].1 by {
                if j < n {
                    assert(t[j].1 <= t[k].1);
                }
            }
            assert forall|j: int| 0 <= j < n implies #[trigger] s[j].1 < s[n].1 by {
                assert(t[j].1 <= t[k].1);
            }
        } else {
            assert(s[k] == top_entry(s));
            assert forall|j: int| 0 <= j < s.len() implies #[trigger] s[j].1 <= s[k].1 by {
                if j < n {
                    assert(t[j].1 <= t[k].1);
                }
            }
            assert forall|j: int| 0 <= j < k implies #[trigger] s[j].1 < s[k].1 by {
                assert(t[j].1 < t[k].1);
            }
        }
    }
}

} // verus!
