//! Greedy fuzzy resolution by substring relaxation.
//!
//! Each candidate word is tried as a `%word%` wildcard against the store;
//! on a miss the word is relaxed by trimming one character off its right
//! end, never below two characters, before the next candidate is taken up.
//! The first attempt that matches any row ends the resolution.

use crate::entry::Latin;
use crate::store::Store;
use crate::store::lemma_skip_step;
use crate::store::spec_find_like;
use vstd::prelude::*;
use vstd::string::*;

verus! {

/// The wildcard attempts for one candidate: its prefixes, longest first,
/// down to length two. A word shorter than two characters is not attempted.
pub open spec fn word_attempts(w: Seq<char>) -> Seq<Seq<char>>
    decreases w.len(),
{
    if w.len() < 2 {
        Seq::empty()
    } else {
        seq![w] + word_attempts(w.drop_last())
    }
}

/// Every attempt of a candidate list, in resolution order.
pub open spec fn all_attempts(ws: Seq<Seq<char>>) -> Seq<Seq<char>>
    decreases ws.len(),
{
    if ws.len() == 0 {
        Seq::empty()
    } else {
        word_attempts(ws[0]) + all_attempts(ws.drop_first())
    }
}

/// The row found by the first attempt matching any row.
pub open spec fn spec_resolve_attempts(rows: Seq<Latin>, attempts: Seq<Seq<char>>) -> Option<
    Latin,
>
    decreases attempts.len(),
{
    if attempts.len() == 0 {
        None
    } else {
        match spec_find_like(rows, attempts[0]) {
            Some(row) => Some(row),
            None => spec_resolve_attempts(rows, attempts.drop_first()),
        }
    }
}

/// Greedy resolution of a candidate list against the store's rows.
pub open spec fn spec_query_greedy(rows: Seq<Latin>, ws: Seq<Seq<char>>) -> Option<Latin> {
    spec_resolve_attempts(rows, all_attempts(ws))
}

/// Splitting the attempts of a suffix of the candidate list at its head.
proof fn lemma_all_attempts_skip(ws: Seq<Seq<char>>, j: int)
    requires
        0 <= j < ws.len(),
    ensures
        all_attempts(ws.skip(j)) == word_attempts(ws[j]) + all_attempts(ws.skip(j + 1)),
{
    lemma_skip_step(ws, j);
}

/// The cursor of one resolution: which candidate is current and how far it
/// has been relaxed. It yields the attempt patterns in resolution order.
pub struct Relaxation {
    words: Vec<String>,
    widx: usize,
    wlen: usize,
}

impl Relaxation {
    /// The cursor stands on a candidate it may still relax, or past the end.
    pub closed spec fn wf(self) -> bool {
        &&& self.widx <= self.words@.len()
        &&& self.widx < self.words@.len() ==> 2 <= self.wlen
            <= self.words@[self.widx as int]@.len()
    }

    /// The attempts not yet yielded, in order.
    pub closed spec fn remaining(self) -> Seq<Seq<char>> {
        let dv = self.words.deep_view();
        if self.widx >= dv.len() {
            Seq::empty()
        } else {
            word_attempts(dv[self.widx as int].take(self.wlen as int)) + all_attempts(
                dv.skip(self.widx + 1),
            )
        }
    }

    /// Moves the cursor forward past candidates too short to attempt, and
    /// opens the new current candidate at its full length.
    fn settle(&mut self)
        requires
            old(self).widx <= old(self).words@.len(),
        ensures
            final(self).wf(),
            final(self).words == old(self).words,
            final(self).remaining() == all_attempts(
                old(self).words.deep_view().skip(old(self).widx as int),
            ),
    {
        let n = self.words.len();
        let ghost w0 = self.widx as int;
        let ghost dv = self.words.deep_view();
        while self.widx < n && self.words[self.widx].as_str().unicode_len() < 2
            invariant
                w0 <= self.widx <= n,
                n == self.words@.len(),
                self.words == old(self).words,
                dv == self.words.deep_view(),
                self.wlen == old(self).wlen,
                all_attempts(dv.skip(w0)) == all_attempts(dv.skip(self.widx as int)),
            decreases n - self.widx,
        {
            proof {
                lemma_all_attempts_skip(dv, self.widx as int);
                assert(word_attempts(dv[self.widx as int]) =~= Seq::<Seq<char>>::empty());
                assert(Seq::<Seq<char>>::empty() + all_attempts(dv.skip(self.widx + 1))
                    =~= all_attempts(dv.skip(self.widx + 1)));
            }
            self.widx = self.widx + 1;
        }
        if self.widx < n {
            self.wlen = self.words[self.widx].as_str().unicode_len();
            proof {
                lemma_all_attempts_skip(dv, self.widx as int);
                assert(dv[self.widx as int].take(self.wlen as int) =~= dv[self.widx as int]);
            }
        } else {
            self.wlen = 2;
            proof {
                assert(dv.skip(self.widx as int).len() == 0);
            }
        }
    }

    /// A cursor standing at the start of the whole attempt sequence of the
    /// candidate list.
    pub fn new(words: &Vec<String>) -> (m: Relaxation)
        ensures
            m.wf(),
            m.remaining() == all_attempts(words.deep_view()),
    {
        let n = words.len();
        let mut own: Vec<String> = Vec::new();
        for i in 0..n
            invariant
                n == words@.len(),
                own@.len() == i,
                forall|k: int| 0 <= k < i ==> own@[k] == words@[k],
        {
            own.push(words[i].clone());
        }
        proof {
            assert(own@ =~= words@);
        }
        let mut m = Relaxation { words: own, widx: 0, wlen: 2 };
        m.settle();
        proof {
            assert(m.words.deep_view().skip(0) =~= m.words.deep_view());
            assert(m.words.deep_view() =~= words.deep_view());
        }
        m
    }

    /// The next attempt pattern, or `None` when every candidate is
    /// exhausted.
    pub fn current(&self) -> (r: Option<String>)
        requires
            self.wf(),
        ensures
            match r {
                None => self.remaining().len() == 0,
                Some(p) => self.remaining().len() > 0 && p@ == self.remaining()[0],
            },
    {
        if self.widx >= self.words.len() {
            None
        } else {
            let w = &self.words[self.widx];
            let p = String::from_str(w.as_str().substring_char(0, self.wlen));
            proof {
                let dv = self.words.deep_view();
                let prefix = dv[self.widx as int].take(self.wlen as int);
                assert(w@.subrange(0, self.wlen as int) =~= prefix);
                assert(self.remaining()[0] == word_attempts(prefix)[0]);
            }
            Some(p)
        }
    }

    /// Steps past the current attempt: relaxes the current candidate by one
    /// character, or moves on to the next candidate once the two-character
    /// floor is reached.
    pub fn advance(&mut self)
        requires
            old(self).wf(),
            old(self).remaining().len() > 0,
        ensures
            final(self).wf(),
            final(self).remaining() == old(self).remaining().drop_first(),
    {
        let ghost dv = self.words.deep_view();
        let ghost prefix = dv[self.widx as int].take(self.wlen as int);
        let ghost rest = all_attempts(dv.skip(self.widx + 1));
        proof {
            assert(dv.len() == self.words@.len());
            assert(self.widx < self.words@.len());
        }
        if self.wlen > 2 {
            self.wlen = self.wlen - 1;
            proof {
                assert(prefix.drop_last() =~= dv[self.widx as int].take(self.wlen as int));
                assert((seq![prefix] + word_attempts(prefix.drop_last()) + rest).drop_first()
                    =~= word_attempts(prefix.drop_last()) + rest);
            }
        } else {
            let n = self.words.len();
            proof {
                assert(prefix.len() == 2);
                assert(word_attempts(prefix.drop_last()) =~= Seq::<Seq<char>>::empty());
                assert((seq![prefix] + word_attempts(prefix.drop_last()) + rest).drop_first()
                    =~= rest);
                assert(self.widx < n);
            }
            self.widx = self.widx + 1;
            self.settle();
        }
    }
}

/// Greedy fuzzy search. Walks the candidate list in input order, trying each
/// word and then its right-trimmed relaxations, never shorter than two
/// characters, as wildcard queries; the first attempt matching a row wins.
pub fn query_greedy(words: &Vec<String>, store: &Store) -> (r: Option<Latin>)
    ensures
        r == spec_query_greedy(store.rows@, words.deep_view()),
{
    let mut m = Relaxation::new(words);
    loop
        invariant
            m.wf(),
            spec_query_greedy(store.rows@, words.deep_view()) == spec_resolve_attempts(
                store.rows@,
                m.remaining(),
            ),
        decreases m.remaining().len(),
    {
        match m.current() {
            None => {
                return None;
            },
            Some(p) => {
                let hit = store.find_like(p.as_str());
                match hit {
                    Some(row) => {
                        return Some(row);
                    },
                    None => {
                        m.advance();
                    },
                }
            },
        }
    }
}

/// What a resolution hands back to the presentation layer.
#[derive(Debug)]
pub enum ResolutionResult {
    /// An exact headword hit, served from the store.
    Exact(Latin),
    /// A fuzzy hit found by substring relaxation.
    Similar(Latin),
    /// No candidate matched anything.
    NoResult,
}

/// The whole resolution path: parse, exact-index check, fuzzy fallback.
pub open spec fn spec_resolve_word(
    t: Seq<char>,
    m: Seq<Seq<Seq<char>>>,
    rows: Seq<Latin>,
) -> ResolutionResult {
    let ws = crate::parse::spec_parse_query(t);
    if ws.len() == 0 {
        ResolutionResult::NoResult
    } else {
        match crate::index::spec_first_hit(m, ws) {
            Some(w) => match crate::store::spec_find_exact(rows, w) {
                Some(row) => ResolutionResult::Exact(row),
                None => ResolutionResult::NoResult,
            },
            None => match spec_query_greedy(rows, ws) {
                Some(row) => ResolutionResult::Similar(row),
                None => ResolutionResult::NoResult,
            },
        }
    }
}

/// Resolves raw lookup-command text: parses it into candidates, returns the
/// first exact hit of the index directly from the store, and otherwise
/// delegates the full candidate list to the fuzzy search. With no candidates
/// neither index nor store is consulted.
pub fn resolve_word(text: &str, dict: &crate::index::Dictionary, store: &Store) -> (r:
    ResolutionResult)
    requires
        dict.wf(),
        crate::index::consistent_with(dict.model(), store.rows@),
    ensures
        r == spec_resolve_word(text@, dict.model(), store.rows@),
{
    let words = crate::parse::parse_query(text);
    if words.len() == 0 {
        return ResolutionResult::NoResult;
    }
    match crate::index::try_from_dictionary(&words, dict) {
        Some(w) => {
            match store.find_exact(w.as_str()) {
                Some(row) => ResolutionResult::Exact(row),
                None => ResolutionResult::NoResult,
            }
        },
        None => {
            match query_greedy(&words, store) {
                Some(row) => ResolutionResult::Similar(row),
                None => ResolutionResult::NoResult,
            }
        },
    }
}

/// The minimum length of the attempts of one candidate.
proof fn lemma_word_attempts_min_len(w: Seq<char>, k: int)
    requires
        0 <= k < word_attempts(w).len(),
    ensures
        word_attempts(w)[k].len() >= 2,
    decreases w.len(),
{
    if w.len() >= 2 && k > 0 {
        lemma_word_attempts_min_len(w.drop_last(), k - 1);
    }
}

/// Law: relaxation never attempts a pattern shorter than two characters.
/// Every attempt of every candidate keeps at least two characters.
pub proof fn lemma_attempts_min_len(ws: Seq<Seq<char>>, k: int)
    requires
        0 <= k < all_attempts(ws).len(),
    ensures
        all_attempts(ws)[k].len() >= 2,
    decreases ws.len(),
{
    if ws.len() > 0 {
        let head = word_attempts(ws[0]);
        if k < head.len() {
            lemma_word_attempts_min_len(ws[0], k);
        } else {
            lemma_attempts_min_len(ws.drop_first(), k - head.len());
        }
    }
}

/// A resolution hit comes from one of the attempts.
proof fn lemma_resolve_attempts_hit(rows: Seq<Latin>, attempts: Seq<Seq<char>>)
    ensures
        spec_resolve_attempts(rows, attempts) matches Some(r) ==> exists|k: int|
            0 <= k < attempts.len() && spec_find_like(rows, attempts[k]) == Some(r),
    decreases attempts.len(),
{
    if attempts.len() > 0 {
        lemma_resolve_attempts_hit(rows, attempts.drop_first());
        if spec_find_like(rows, attempts[0]) is None {
            if spec_resolve_attempts(rows, attempts.drop_first()) is Some {
                let r = spec_resolve_attempts(rows, attempts.drop_first())->0;
                let k = choose|k: int|
                    0 <= k < attempts.drop_first().len() && spec_find_like(
                        rows,
                        attempts.drop_first()[k],
                    ) == Some(r);
                assert(spec_find_like(rows, attempts[k + 1]) == Some(r));
            }
        }
    }
}

/// Law: a fuzzy hit is a store row matched by one of the wildcard attempts,
/// and that attempt keeps at least two characters of its candidate.
pub proof fn lemma_hit_is_matched_row(rows: Seq<Latin>, ws: Seq<Seq<char>>)
    ensures
        spec_query_greedy(rows, ws) matches Some(r) ==> exists|k: int|
            {
                &&& 0 <= k < all_attempts(ws).len()
                &&& all_attempts(ws)[k].len() >= 2
                &&& spec_find_like(rows, all_attempts(ws)[k]) == Some(r)
                &&& crate::store::spec_like_match(r, all_attempts(ws)[k])
                &&& rows.contains(r)
            },
{
    lemma_resolve_attempts_hit(rows, all_attempts(ws));
    if spec_query_greedy(rows, ws) is Some {
        let r = spec_query_greedy(rows, ws)->0;
        let k = choose|k: int|
            0 <= k < all_attempts(ws).len() && spec_find_like(rows, all_attempts(ws)[k])
                == Some(r);
        lemma_attempts_min_len(ws, k);
        crate::store::lemma_find_like_matches(rows, all_attempts(ws)[k]);
    }
}

/// Law: resolution is a function of the candidate list and the store alone.
/// Two resolutions of the same candidates against an unchanged store yield
/// the same result.
pub proof fn lemma_resolution_idempotent(
    rows: Seq<Latin>,
    ws: Seq<Seq<char>>,
    r1: Option<Latin>,
    r2: Option<Latin>,
)
    requires
        r1 == spec_query_greedy(rows, ws),
        r2 == spec_query_greedy(rows, ws),
    ensures
        r1 == r2,
{
}

} // verus!
