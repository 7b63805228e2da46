//! The in-memory lexicon index.
//!
//! A `Dictionary` maps each lowercase ASCII letter to the ordered list of
//! headwords whose first letter it is (after case folding). Every letter has
//! a bucket, possibly empty, never absent, so a lookup never has to handle a
//! missing key. The index is built once from the full row set of the backing
//! store and is read-only afterwards.

use crate::entry::Latin;
use crate::text::is_ascii_letter;
use crate::text::is_lower_letter;
use crate::text::lower_char;
use crate::text::fold_lower;
use crate::text::str_eq;
use vstd::prelude::*;

verus! {

/// The bucket position of a letter: its lowercase fold, counted from 'a'.
pub open spec fn letter_bucket(c: char) -> int {
    lower_char(c) as int - 'a' as int
}

/// The bucket a word belongs to: determined by the case-folded first
/// character, which must be an ASCII letter; otherwise the word has no
/// bucket and is a data-integrity violation when it appears as a headword.
pub open spec fn headword_bucket(w: Seq<char>) -> Option<int> {
    if w.len() > 0 && is_ascii_letter(w[0]) {
        Some(letter_bucket(w[0]))
    } else {
        None
    }
}

/// Twenty-six empty buckets.
pub open spec fn empty_buckets() -> Seq<Seq<Seq<char>>> {
    Seq::new(26, |i: int| Seq::<Seq<char>>::empty())
}

/// The buckets after appending `w` to bucket `b`.
pub open spec fn spec_insert(m: Seq<Seq<Seq<char>>>, w: Seq<char>, b: int) -> Seq<
    Seq<Seq<char>>,
> {
    m.update(b, m[b].push(w))
}

/// The buckets built from the headwords of `rows`, in row order; `None` when
/// some headword does not begin with an ASCII letter.
pub open spec fn spec_build(rows: Seq<Latin>) -> Option<Seq<Seq<Seq<char>>>>
    decreases rows.len(),
{
    if rows.len() == 0 {
        Some(empty_buckets())
    } else {
        match spec_build(rows.drop_last()) {
            None => None,
            Some(m) => match headword_bucket(rows.last().en@) {
                None => None,
                Some(b) => Some(spec_insert(m, rows.last().en@, b)),
            },
        }
    }
}

/// The word is present verbatim in the bucket for its first letter.
pub open spec fn spec_lookup(m: Seq<Seq<Seq<char>>>, w: Seq<char>) -> bool {
    match headword_bucket(w) {
        Some(b) => 0 <= b < m.len() && m[b].contains(w),
        None => false,
    }
}

/// The first of `ws`, in order, that the buckets contain.
pub open spec fn spec_first_hit(m: Seq<Seq<Seq<char>>>, ws: Seq<Seq<char>>) -> Option<
    Seq<char>,
>
    decreases ws.len(),
{
    if ws.len() == 0 {
        None
    } else if spec_lookup(m, ws[0]) {
        Some(ws[0])
    } else {
        spec_first_hit(m, ws.drop_first())
    }
}

/// The exact-match index: one bucket of headwords per ASCII letter.
pub struct Dictionary {
    buckets: Vec<Vec<String>>,
}

impl Dictionary {
    /// There is exactly one bucket per letter of the alphabet.
    pub closed spec fn wf(self) -> bool {
        self.buckets@.len() == 26
    }

    /// The abstract contents: per letter, the sequence of held headwords.
    pub closed spec fn model(self) -> Seq<Seq<Seq<char>>> {
        self.buckets.deep_view()
    }

    /// An index with every bucket present and empty.
    pub fn new() -> (d: Dictionary)
        ensures
            d.wf(),
            d.model() == empty_buckets(),
    {
        let mut buckets: Vec<Vec<String>> = Vec::new();
        for i in 0..26usize
            invariant
                buckets@.len() == i,
                forall|k: int| 0 <= k < i ==> buckets.deep_view()[k].len() == 0,
        {
            let ghost prev = buckets@;
            let ghost prevdv = buckets.deep_view();
            buckets.push(Vec::new());
            proof {
                assert forall|k: int| 0 <= k < i + 1 implies buckets.deep_view()[k].len()
                    == 0 by {
                    if k < i {
                        assert(prevdv[k].len() == 0);
                        assert(prevdv[k] == prev[k].deep_view());
                        assert(buckets@[k] == prev[k]);
                        assert(buckets.deep_view()[k] == buckets@[k].deep_view());
                    } else {
                        assert(buckets.deep_view()[k] == buckets@[k].deep_view());
                    }
                }
            }
        }
        let d = Dictionary { buckets };
        proof {
            assert(d.model() =~~= empty_buckets());
        }
        d
    }

    /// Files `word` into the bucket of its case-folded first letter.
    /// Returns false, changing nothing, when the word has no bucket.
    pub fn insert(&mut self, word: String) -> (ok: bool)
        requires
            old(self).wf(),
        ensures
            final(self).wf(),
            match headword_bucket(word@) {
                Some(b) => ok && final(self).model() == spec_insert(old(self).model(), word@, b),
                None => !ok && final(self).model() == old(self).model(),
            },
    {
        match bucket_index(word.as_str()) {
            None => false,
            Some(b) => {
                proof {
                    lemma_letter_bucket_range(word@[0]);
                }
                let ghost m0 = self.model();
                self.buckets[b].push(word);
                proof {
                    assert(self.model() =~~= spec_insert(
                        m0,
                        word@,
                        headword_bucket(word@)->0,
                    ));
                }
                true
            },
        }
    }

    /// Builds the index from the full row set, filing each headword under its
    /// case-folded first letter. Fails on the first row whose headword does
    /// not begin with an ASCII letter: such a row is a corrupt lexicon entry.
    pub fn build(rows: &Vec<Latin>) -> (r: Result<Dictionary, crate::parse::Error>)
        ensures
            match r {
                Ok(d) => d.wf() && spec_build(rows@) == Some(d.model()),
                Err(e) => e is DataIntegrity && spec_build(rows@) is None,
            },
    {
        let mut d = Dictionary::new();
        let n = rows.len();
        proof {
            assert(rows@.take(0) =~= Seq::<Latin>::empty());
        }
        for i in 0..n
            invariant
                n == rows@.len(),
                d.wf(),
                spec_build(rows@.take(i as int)) == Some(d.model()),
        {
            let word = rows[i].en.clone();
            proof {
                assert(rows@.take(i + 1).drop_last() =~= rows@.take(i as int));
                assert(rows@.take(i + 1).last() == rows@[i as int]);
            }
            let ok = d.insert(word);
            if !ok {
                proof {
                    lemma_build_none(rows@);
                }
                return Err(crate::parse::Error::DataIntegrity);
            }
        }
        proof {
            assert(rows@.take(n as int) =~= rows@);
        }
        Ok(d)
    }

    /// The bucket for `key`, which exists exactly when `key` is a lowercase
    /// ASCII letter.
    pub fn get(&self, key: char) -> (r: Option<&Vec<String>>)
        requires
            self.wf(),
        ensures
            r is Some <==> is_lower_letter(key),
            r matches Some(v) ==> v.deep_view() == self.model()[letter_bucket(key)],
    {
        if 'a' <= key && key <= 'z' {
            let b = ((key as u8) - 97) as usize;
            Some(&self.buckets[b])
        } else {
            None
        }
    }

    /// True exactly when `word` is present verbatim in the bucket of its
    /// case-folded first letter.
    pub fn lookup(&self, word: &str) -> (r: bool)
        requires
            self.wf(),
        ensures
            r == spec_lookup(self.model(), word@),
    {
        match bucket_index(word) {
            None => false,
            Some(b) => {
                proof {
                    lemma_letter_bucket_range(word@[0]);
                }
                let bucket = &self.buckets[b];
                let n = bucket.len();
                for i in 0..n
                    invariant
                        n == bucket@.len(),
                        self.wf(),
                        0 <= b < 26,
                        *bucket == self.buckets@[b as int],
                        headword_bucket(word@) == Some(b as int),
                        forall|k: int| 0 <= k < i ==> bucket.deep_view()[k] != word@,
                {
                    if str_eq(bucket[i].as_str(), word) {
                        proof {
                            assert(bucket.deep_view()[i as int] == word@);
                            assert(self.model()[b as int] == bucket.deep_view());
                            assert(self.model()[b as int].contains(word@));
                        }
                        return true;
                    }
                }
                proof {
                    assert(self.model()[b as int] == bucket.deep_view());
                    assert(!bucket.deep_view().contains(word@));
                }
                false
            },
        }
    }
}

/// The bucket position of an ASCII letter always lies within the alphabet.
pub proof fn lemma_letter_bucket_range(c: char)
    requires
        is_ascii_letter(c),
    ensures
        0 <= letter_bucket(c) < 26,
        is_lower_letter(lower_char(c)),
{
}

/// Building fails exactly when some row's headword has no bucket.
pub proof fn lemma_build_none(rows: Seq<Latin>)
    ensures
        spec_build(rows) is None <==> exists|i: int|
            0 <= i < rows.len() && headword_bucket(rows[i].en@) is None,
    decreases rows.len(),
{
    if rows.len() > 0 {
        lemma_build_none(rows.drop_last());
        assert(forall|i: int|
            0 <= i < rows.len() - 1 ==> rows.drop_last()[i] == rows[i]);
        if spec_build(rows) is None {
            if headword_bucket(rows.last().en@) is None {
                assert(headword_bucket(rows[rows.len() - 1].en@) is None);
            }
        } else {
            assert(forall|i: int|
                0 <= i < rows.len() - 1 ==> headword_bucket(rows[i].en@) is Some);
            assert(headword_bucket(rows[rows.len() - 1].en@) is Some);
        }
    }
}

/// Law: for every ASCII letter, a well-formed index has a bucket — the
/// bucket may be empty, but it is never absent.
pub proof fn lemma_every_letter_has_bucket(d: Dictionary, c: char)
    requires
        d.wf(),
        is_ascii_letter(c),
    ensures
        0 <= letter_bucket(c) < d.model().len(),
{
    lemma_letter_bucket_range(c);
}

/// Membership in a pushed sequence.
proof fn lemma_push_contains<T>(s: Seq<T>, x: T, y: T)
    ensures
        s.push(x).contains(y) <==> (s.contains(y) || x == y),
{
    if s.contains(y) {
        let i = choose|i: int| 0 <= i < s.len() && s[i] == y;
        assert(s.push(x)[i] == y);
    }
    if x == y {
        assert(s.push(x)[s.len() as int] == y);
    }
    if s.push(x).contains(y) {
        let i = choose|i: int| 0 <= i < s.push(x).len() && s.push(x)[i] == y;
        if i < s.len() {
            assert(s[i] == y);
        }
    }
}

/// A successfully built index always has its 26 buckets.
pub proof fn lemma_build_len(rows: Seq<Latin>, m: Seq<Seq<Seq<char>>>)
    requires
        spec_build(rows) == Some(m),
    ensures
        m.len() == 26,
    decreases rows.len(),
{
    if rows.len() > 0 {
        lemma_build_len(rows.drop_last(), spec_build(rows.drop_last())->0);
    }
}

/// Law: a built index holds exactly the loaded headwords. A word passes
/// `spec_lookup` precisely when some row's headword equals it verbatim.
pub proof fn lemma_lookup_iff_loaded(rows: Seq<Latin>, m: Seq<Seq<Seq<char>>>, w: Seq<char>)
    requires
        spec_build(rows) == Some(m),
    ensures
        spec_lookup(m, w) <==> exists|i: int| 0 <= i < rows.len() && rows[i].en@ == w,
    decreases rows.len(),
{
    lemma_build_len(rows, m);
    if rows.len() == 0 {
        assert(forall|b: int| 0 <= b < 26 ==> m[b].len() == 0);
    } else {
        let n = rows.len() as int;
        let prefix = rows.drop_last();
        let m0 = spec_build(prefix)->0;
        lemma_lookup_iff_loaded(prefix, m0, w);
        lemma_build_len(prefix, m0);
        let last = rows.last();
        let bl = headword_bucket(last.en@)->0;
        lemma_letter_bucket_range(last.en@[0]);
        assert(forall|i: int| 0 <= i < prefix.len() ==> prefix[i] == rows[i]);
        match headword_bucket(w) {
            None => {
                if exists|i: int| 0 <= i < n && rows[i].en@ == w {
                    let i = choose|i: int| 0 <= i < n && rows[i].en@ == w;
                    if i < n - 1 {
                        assert(prefix[i].en@ == w);
                        assert(spec_lookup(m0, w));
                    } else {
                        assert(headword_bucket(rows[i].en@) is Some);
                    }
                    assert(false);
                }
            },
            Some(bw) => {
                lemma_letter_bucket_range(w[0]);
                if bw == bl {
                    lemma_push_contains(m0[bl], last.en@, w);
                } else {
                    assert(m[bw] == m0[bw]);
                    assert(last.en@ != w);
                }
                if exists|i: int| 0 <= i < prefix.len() && prefix[i].en@ == w {
                    let i = choose|i: int| 0 <= i < prefix.len() && prefix[i].en@ == w;
                    assert(rows[i].en@ == w);
                }
                if exists|i: int| 0 <= i < n && rows[i].en@ == w {
                    let i = choose|i: int| 0 <= i < n && rows[i].en@ == w;
                    if i < n - 1 {
                        assert(prefix[i].en@ == w);
                    }
                }
            },
        }
    }
}

/// Every lookup hit in the buckets is backed by a row of the store.
pub open spec fn consistent_with(m: Seq<Seq<Seq<char>>>, rows: Seq<Latin>) -> bool {
    forall|w: Seq<char>| #[trigger] spec_lookup(m, w) ==> crate::store::spec_find_exact(
        rows,
        w,
    ) is Some
}

/// Law: an index built from the store's rows is consistent with them — an
/// exact hit in the index can always be served from the store.
pub proof fn lemma_build_consistent(rows: Seq<Latin>, m: Seq<Seq<Seq<char>>>)
    requires
        spec_build(rows) == Some(m),
    ensures
        consistent_with(m, rows),
{
    assert forall|w: Seq<char>| #[trigger] spec_lookup(m, w) implies crate::store::spec_find_exact(
        rows,
        w,
    ) is Some by {
        lemma_lookup_iff_loaded(rows, m, w);
        crate::store::lemma_find_exact_some(rows, w);
    }
}

/// The exec counterpart of `headword_bucket`.
fn bucket_index(word: &str) -> (r: Option<usize>)
    ensures
        match headword_bucket(word@) {
            Some(b) => r == Some(b as usize),
            None => r is None,
        },
{
    if word.unicode_len() == 0 {
        return None;
    }
    let c = fold_lower(word.get_char(0));
    if 'a' <= c && c <= 'z' {
        Some(((c as u8) - 97) as usize)
    } else {
        None
    }
}

/// The first of `words`, in input order, that the index holds; `None` when
/// none of them is an indexed headword.
pub fn try_from_dictionary(words: &Vec<String>, dict: &Dictionary) -> (r: Option<String>)
    requires
        dict.wf(),
    ensures
        match spec_first_hit(dict.model(), words.deep_view()) {
            Some(w) => r matches Some(s) && s@ == w,
            None => r is None,
        },
{
    let n = words.len();
    proof {
        assert(words.deep_view().skip(0) =~= words.deep_view());
    }
    for i in 0..n
        invariant
            n == words@.len(),
            dict.wf(),
            words.deep_view().len() == n,
            spec_first_hit(dict.model(), words.deep_view()) == spec_first_hit(
                dict.model(),
                words.deep_view().skip(i as int),
            ),
    {
        proof {
            crate::store::lemma_skip_step(words.deep_view(), i as int);
        }
        if dict.lookup(words[i].as_str()) {
            return Some(words[i].clone());
        }
    }
    proof {
        assert(words.deep_view().skip(n as int) =~= Seq::<Seq<char>>::empty());
    }
    None
}

} // verus!
