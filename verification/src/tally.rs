//! Tally store: a two-level aggregate counter (party → candidate → count)
//! kept as a flat list of cells, one per (party, candidate) pair. A cell is
//! created lazily, at zero, by the increment that first votes for its pair.

use vstd::prelude::*;

verus! {

/// One aggregate cell: the running count for a (party, candidate) pair.
pub struct TallyCell {
    pub party: String,
    pub candidate: String,
    pub count: u64,
}

/// The count a list of cells assigns to a (party, candidate) pair: the count
/// of the cell for that pair, or zero when no cell exists for it. (When the
/// list is well formed the pair occurs at most once.)
pub open spec fn rows_count(s: Seq<TallyCell>, p: Seq<char>, c: Seq<char>) -> nat
    decreases s.len(),
{
    if s.len() == 0 {
        0
    } else if s.last().party@ == p && s.last().candidate@ == c {
        s.last().count as nat
    } else {
        rows_count(s.drop_last(), p, c)
    }
}

/// The sum of all cells' counts.
pub open spec fn rows_total(s: Seq<TallyCell>) -> nat
    decreases s.len(),
{
    if s.len() == 0 {
        0
    } else {
        (rows_total(s.drop_last()) + s.last().count) as nat
    }
}

/// No single pair's count exceeds the sum of all counts.
pub proof fn lemma_count_le_total(s: Seq<TallyCell>, p: Seq<char>, c: Seq<char>)
    ensures
        rows_count(s, p, c) <= rows_total(s),
    decreases s.len(),
{
    if s.len() > 0 {
        lemma_count_le_total(s.drop_last(), p, c);
    }
}

/// Replacing one cell moves the sum by the difference of the counts.
proof fn lemma_rows_total_update(s: Seq<TallyCell>, i: int, e2: TallyCell)
    requires
        0 <= i < s.len(),
    ensures
        rows_total(s.update(i, e2)) == rows_total(s) - s[i].count + e2.count,
    decreases s.len(),
{
    let t = s.update(i, e2);
    if i == s.len() - 1 {
        assert(t.drop_last() =~= s.drop_last());
    } else {
        assert(t.drop_last() =~= s.drop_last().update(i, e2));
        lemma_rows_total_update(s.drop_last(), i, e2);
        assert(t.last() == s.last());
    }
}

/// Well-formedness: no (party, candidate) pair has two cells.
pub open spec fn rows_wf(s: Seq<TallyCell>) -> bool {
    forall|a: int, b: int|
        0 <= a < b < s.len() ==> !(s[a].party@ == s[b].party@ && s[a].candidate@
            == s[b].candidate@)
}

/// A pair with no cell counts zero.
proof fn lemma_rows_count_absent(s: Seq<TallyCell>, p: Seq<char>, c: Seq<char>)
    requires
        forall|k: int| 0 <= k < s.len() ==> !(s[k].party@ == p && s[k].candidate@ == c),
    ensures
        rows_count(s, p, c) == 0,
    decreases s.len(),
{
    if s.len() > 0 {
        lemma_rows_count_absent(s.drop_last(), p, c);
    }
}

/// In a well-formed list, a pair's count is the count of its cell.
proof fn lemma_rows_count_at(s: Seq<TallyCell>, i: int)
    requires
        rows_wf(s),
        0 <= i < s.len(),
    ensures
        rows_count(s, s[i].party@, s[i].candidate@) == s[i].count,
    decreases s.len(),
{
    if i == s.len() - 1 {
    } else {
        assert(rows_wf(s.drop_last()));
        lemma_rows_count_at(s.drop_last(), i);
    }
}

/// Replacing a cell by one for the same pair changes that pair's count to the
/// new cell's count and no other pair's count.
proof fn lemma_rows_count_update(
    s: Seq<TallyCell>,
    i: int,
    e2: TallyCell,
    p2: Seq<char>,
    c2: Seq<char>,
)
    requires
        rows_wf(s),
        0 <= i < s.len(),
        e2.party@ == s[i].party@,
        e2.candidate@ == s[i].candidate@,
    ensures
        rows_count(s.update(i, e2), p2, c2) == if p2 == e2.party@ && c2 == e2.candidate@ {
            e2.count as nat
        } else {
            rows_count(s, p2, c2)
        },
    decreases s.len(),
{
    let t = s.update(i, e2);
    if i == s.len() - 1 {
        assert(t.drop_last() =~= s.drop_last());
    } else {
        assert(t.drop_last() =~= s.drop_last().update(i, e2));
        assert(rows_wf(s.drop_last()));
        lemma_rows_count_update(s.drop_last(), i, e2, p2, c2);
        assert(t.last() == s.last());
        // Uniqueness puts the last cell on a different pair than cell i.
        assert(!(s.last().party@ == s[i].party@ && s.last().candidate@ == s[i].candidate@));
    }
}

/// The two-level aggregate counter of accepted votes.
pub struct Tally {
    pub rows: Vec<TallyCell>,
}

impl Tally {
    /// Internal invariant: one cell per (party, candidate) pair.
    pub open spec fn wf(&self) -> bool {
        rows_wf(self.rows@)
    }

    /// The mathematical content of the tally: the count for each pair.
    pub open spec fn count(&self, p: Seq<char>, c: Seq<char>) -> nat {
        rows_count(self.rows@, p, c)
    }

    /// The number of votes counted in all: the sum of every pair's count.
    pub open spec fn total(&self) -> nat {
        rows_total(self.rows@)
    }

    /// An empty tally: every pair counts zero.
    pub fn new() -> (t: Tally)
        ensures
            t.wf(),
            forall|p: Seq<char>, c: Seq<char>| t.count(p, c) == 0,
            t.total() == 0,
            t.rows@.len() == 0,
    {
        Tally { rows: Vec::new() }
    }

    /// The index of the cell for a pair, if one exists.
    fn find_cell(&self, party: &String, candidate: &String) -> (o: Option<usize>)
        ensures
            match o {
                Some(i) => i < self.rows@.len() && self.rows@[i as int].party@ == party@
                    && self.rows@[i as int].candidate@ == candidate@,
                None => forall|k: int|
                    0 <= k < self.rows@.len() ==> !(self.rows@[k].party@ == party@
                        && self.rows@[k].candidate@ == candidate@),
            },
    {
        let n = self.rows.len();
        let mut i: usize = 0;
        while i < n
            invariant
                n == self.rows@.len(),
                i <= n,
                forall|k: int|
                    0 <= k < i ==> !(self.rows@[k].party@ == party@ && self.rows@[k].candidate@
                        == candidate@),
            decreases n - i,
        {
            if self.rows[i].party == *party && self.rows[i].candidate == *candidate {
                return Some(i);
            }
            i += 1;
        }
        None
    }

    /// The current count for a pair (zero when no vote has been cast for it).
    pub fn get(&self, party: &String, candidate: &String) -> (r: u64)
        requires
            self.wf(),
        ensures
            r == self.count(party@, candidate@),
    {
        match self.find_cell(party, candidate) {
            Some(i) => {
                proof {
                    lemma_rows_count_at(self.rows@, i as int);
                }
                self.rows[i].count
            },
            None => {
                proof {
                    lemma_rows_count_absent(self.rows@, party@, candidate@);
                }
                0
            },
        }
    }

    /// Atomically (with respect to this exclusively held tally) increment the
    /// (party, candidate) cell, creating it at zero if absent, and return the
    /// post-increment count. Every other pair's count is untouched.
    pub fn increment(&mut self, party: &String, candidate: &String) -> (r: u64)
        requires
            old(self).wf(),
            old(self).count(party@, candidate@) < u64::MAX,
        ensures
            final(self).wf(),
            final(self).count(party@, candidate@) == old(self).count(party@, candidate@) + 1,
            forall|p2: Seq<char>, c2: Seq<char>|
                !(p2 == party@ && c2 == candidate@) ==> final(self).count(p2, c2) == old(
                    self,
                ).count(p2, c2),
            r == final(self).count(party@, candidate@),
            final(self).total() == old(self).total() + 1,
    {
        let ghost pre = self.rows@;
        match self.find_cell(party, candidate) {
            Some(i) => {
                proof {
                    lemma_rows_count_at(pre, i as int);
                }
                let c0 = self.rows[i].count;
                self.rows[i].count = c0 + 1;
                proof {
                    let e2 = self.rows@[i as int];
                    assert(self.rows@ =~= pre.update(i as int, e2));
                    lemma_rows_total_update(pre, i as int, e2);
                    assert forall|p2: Seq<char>, c2: Seq<char>| true implies #[trigger] rows_count(
                        self.rows@,
                        p2,
                        c2,
                    ) == if p2 == party@ && c2 == candidate@ {
                        (c0 + 1) as nat
                    } else {
                        rows_count(pre, p2, c2)
                    } by {
                        lemma_rows_count_update(pre, i as int, e2, p2, c2);
                    }
                    assert forall|a: int, b: int| 0 <= a < b < self.rows@.len() implies !(
                    self.rows@[a].party@ == self.rows@[b].party@ && self.rows@[a].candidate@
                        == self.rows@[b].candidate@) by {
                        assert(self.rows@[a].party@ == pre[a].party@ && self.rows@[a].candidate@
                            == pre[a].candidate@);
                        assert(self.rows@[b].party@ == pre[b].party@ && self.rows@[b].candidate@
                            == pre[b].candidate@);
                    }
                }
                c0 + 1
            },
            None => {
                proof {
                    lemma_rows_count_absent(pre, party@, candidate@);
                }
                self.rows.push(
                    TallyCell { party: party.clone(), candidate: candidate.clone(), count: 1 },
                );
                proof {
                    assert(self.rows@.drop_last() =~= pre);
                    assert(self.rows@.last().party@ == party@ && self.rows@.last().candidate@
                        == candidate@);
                    assert forall|p2: Seq<char>, c2: Seq<char>|
                        !(p2 == party@ && c2 == candidate@) implies #[trigger] rows_count(
                        self.rows@,
                        p2,
                        c2,
                    ) == rows_count(pre, p2, c2) by {
                        assert(rows_count(self.rows@, p2, c2) == rows_count(
                            self.rows@.drop_last(),
                            p2,
                            c2,
                        ));
                    }
                    assert forall|a: int, b: int| 0 <= a < b < self.rows@.len() implies !(
                    self.rows@[a].party@ == self.rows@[b].party@ && self.rows@[a].candidate@
                        == self.rows@[b].candidate@) by {
                        if b < self.rows@.len() - 1 {
                            assert(self.rows@[a] == pre[a] && self.rows@[b] == pre[b]);
                        } else {
                            assert(self.rows@[a] == pre[a]);
                            assert(!(pre[a].party@ == party@ && pre[a].candidate@ == candidate@));
                        }
                    }
                }
                1
            },
        }
    }

    /// A consistent point-in-time copy: the snapshot's cells are exactly this
    /// tally's cells, so every pair's count agrees between the two.
    pub fn snapshot(&self) -> (t: Tally)
        ensures
            t.rows@ == self.rows@,
            forall|p: Seq<char>, c: Seq<char>| #[trigger] t.count(p, c) == self.count(p, c),
    {
        let n = self.rows.len();
        let mut out: Vec<TallyCell> = Vec::new();
        let mut i: usize = 0;
        while i < n
            invariant
                n == self.rows@.len(),
                i <= n,
                out@ =~= self.rows@.subrange(0, i as int),
            decreases n - i,
        {
            out.push(
                TallyCell {
                    party: self.rows[i].party.clone(),
                    candidate: self.rows[i].candidate.clone(),
                    count: self.rows[i].count,
                },
            );
            proof {
                assert(out@.last() == self.rows@[i as int]);
                assert(out@ =~= self.rows@.subrange(0, i + 1 as int));
            }
            i += 1;
        }
        proof {
            assert(self.rows@.subrange(0, n as int) =~= self.rows@);
        }
        Tally { rows: out }
    }
}

} // verus!
