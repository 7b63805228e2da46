//! An in-memory snapshot of the backing store.
//!
//! The resolver needs two query shapes from the store: exact-equality lookup
//! by headword, and case-insensitive substring search over the headword or the
//! Latin root. Both are answered from a row sequence in storage order, and a
//! query that matches several rows returns the first one in that order.

use crate::entry::Latin;
use crate::text::spec_contains_ci;
use crate::text::contains_ci;
use crate::text::str_eq;
use vstd::prelude::*;

verus! {

/// The first row, in storage order, whose headword equals `w` exactly.
pub open spec fn spec_find_exact(rows: Seq<Latin>, w: Seq<char>) -> Option<Latin>
    decreases rows.len(),
{
    if rows.len() == 0 {
        None
    } else if rows[0].en@ == w {
        Some(rows[0])
    } else {
        spec_find_exact(rows.drop_first(), w)
    }
}

/// The row matches the wildcard pattern built from `w`: the word occurs,
/// case-insensitively, inside the headword or inside the Latin root.
pub open spec fn spec_like_match(row: Latin, w: Seq<char>) -> bool {
    spec_contains_ci(row.en@, w) || spec_contains_ci(row.la@, w)
}

/// The first row, in storage order, matching the wildcard pattern for `w`.
pub open spec fn spec_find_like(rows: Seq<Latin>, w: Seq<char>) -> Option<Latin>
    decreases rows.len(),
{
    if rows.len() == 0 {
        None
    } else if spec_like_match(rows[0], w) {
        Some(rows[0])
    } else {
        spec_find_like(rows.drop_first(), w)
    }
}

/// A read-only set of lexicon rows, held in storage order.
pub struct Store {
    pub rows: Vec<Latin>,
}

impl Store {
    /// A store with no rows.
    pub fn new() -> (s: Store)
        ensures
            s.rows@.len() == 0,
    {
        Store { rows: Vec::new() }
    }

    /// Appends a row at the end of the storage order.
    pub fn push_row(&mut self, row: Latin)
        ensures
            final(self).rows@ == old(self).rows@.push(row),
    {
        self.rows.push(row);
    }

    /// Exact-equality lookup by headword.
    pub fn find_exact(&self, w: &str) -> (r: Option<Latin>)
        ensures
            r == spec_find_exact(self.rows@, w@),
    {
        let n = self.rows.len();
        proof {
            assert(self.rows@.skip(0) =~= self.rows@);
        }
        for i in 0..n
            invariant
                n == self.rows@.len(),
                spec_find_exact(self.rows@, w@) == spec_find_exact(
                    self.rows@.skip(i as int),
                    w@,
                ),
        {
            proof {
                lemma_skip_step(self.rows@, i as int);
            }
            if str_eq(self.rows[i].en.as_str(), w) {
                return Some(self.rows[i].duplicate());
            }
        }
        proof {
            assert(self.rows@.skip(n as int) =~= Seq::<Latin>::empty());
        }
        None
    }

    /// Case-insensitive substring search over headword or Latin root,
    /// the meaning of a `%w%` wildcard query.
    pub fn find_like(&self, w: &str) -> (r: Option<Latin>)
        ensures
            r == spec_find_like(self.rows@, w@),
    {
        let n = self.rows.len();
        proof {
            assert(self.rows@.skip(0) =~= self.rows@);
        }
        for i in 0..n
            invariant
                n == self.rows@.len(),
                spec_find_like(self.rows@, w@) == spec_find_like(
                    self.rows@.skip(i as int),
                    w@,
                ),
        {
            proof {
                lemma_skip_step(self.rows@, i as int);
            }
            let row = &self.rows[i];
            if contains_ci(row.en.as_str(), w) || contains_ci(row.la.as_str(), w) {
                return Some(row.duplicate());
            }
        }
        proof {
            assert(self.rows@.skip(n as int) =~= Seq::<Latin>::empty());
        }
        None
    }
}

/// An exact lookup succeeds precisely when some row carries the headword,
/// and the row it returns carries it verbatim.
pub proof fn lemma_find_exact_some(rows: Seq<Latin>, w: Seq<char>)
    ensures
        spec_find_exact(rows, w) is Some <==> exists|i: int|
            0 <= i < rows.len() && rows[i].en@ == w,
        spec_find_exact(rows, w) matches Some(r) ==> r.en@ == w,
    decreases rows.len(),
{
    if rows.len() > 0 {
        let tail = rows.drop_first();
        lemma_find_exact_some(tail, w);
        assert(forall|i: int| 0 <= i < tail.len() ==> tail[i] == rows[i + 1]);
        if rows[0].en@ != w {
            if exists|i: int| 0 <= i < rows.len() && rows[i].en@ == w {
                let i = choose|i: int| 0 <= i < rows.len() && rows[i].en@ == w;
                assert(i >= 1);
                assert(tail[i - 1].en@ == w);
            }
            if exists|i: int| 0 <= i < tail.len() && tail[i].en@ == w {
                let i = choose|i: int| 0 <= i < tail.len() && tail[i].en@ == w;
                assert(rows[i + 1].en@ == w);
            }
        }
    }
}

/// A wildcard hit really matches: the row a like-query returns satisfies the
/// pattern and comes from the store.
pub proof fn lemma_find_like_matches(rows: Seq<Latin>, w: Seq<char>)
    ensures
        spec_find_like(rows, w) matches Some(r) ==> spec_like_match(r, w) && rows.contains(r),
    decreases rows.len(),
{
    if rows.len() > 0 {
        let tail = rows.drop_first();
        lemma_find_like_matches(tail, w);
        if !spec_like_match(rows[0], w) {
            if spec_find_like(tail, w) is Some {
                let r = spec_find_like(tail, w)->0;
                let i = choose|i: int| 0 <= i < tail.len() && tail[i] == r;
                assert(rows[i + 1] == r);
            }
        } else {
            assert(rows.contains(rows[0]));
        }
    }
}

/// Stepping one element into a suffix of a sequence.
pub proof fn lemma_skip_step<T>(s: Seq<T>, i: int)
    requires
        0 <= i < s.len(),
    ensures
        s.skip(i).len() == s.len() - i,
        s.skip(i)[0] == s[i],
        s.skip(i).drop_first() =~= s.skip(i + 1),
{
}

} // verus!
