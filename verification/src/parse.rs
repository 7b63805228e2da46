//! The lookup-command grammar and the error taxonomy.

use crate::text::ascii_lowercase;
use crate::text::is_ascii_letter;
use crate::text::lower_seq;
use vstd::prelude::*;
use vstd::string::*;

verus! {

/// Everything that can go wrong between raw command text and a resolution.
#[derive(Debug)]
pub enum Error {
    /// The command text does not match its grammar; user-correctable.
    Usage,
    /// A syntactically valid source-language code outside the known set.
    UnknownSourceLanguage(String),
    /// A syntactically valid target-language code outside the known set.
    UnknownTargetLanguage(String),
    /// A failure communicating with the backing store.
    BackingStore(String),
    /// A lexicon row whose headword does not begin with an ASCII letter.
    DataIntegrity,
}

/// The lookup grammar: the text begins with `/q ` followed by at least two
/// ASCII letters.
pub open spec fn spec_is_valid_query(t: Seq<char>) -> bool {
    &&& t.len() >= 5
    &&& t[0] == '/'
    &&& t[1] == 'q'
    &&& t[2] == ' '
    &&& is_ascii_letter(t[3])
    &&& is_ascii_letter(t[4])
}

/// Whether the raw text is a well-formed lookup command.
pub fn is_valid_query(text: &str) -> (r: bool)
    ensures
        r == spec_is_valid_query(text@),
{
    if text.unicode_len() < 5 {
        return false;
    }
    let c0 = text.get_char(0);
    let c1 = text.get_char(1);
    let c2 = text.get_char(2);
    let c3 = text.get_char(3);
    let c4 = text.get_char(4);
    c0 == '/' && c1 == 'q' && c2 == ' ' && (('a' <= c3 && c3 <= 'z') || ('A' <= c3 && c3 <= 'Z'))
        && (('a' <= c4 && c4 <= 'z') || ('A' <= c4 && c4 <= 'Z'))
}

/// ASCII whitespace, the token separator of the lookup grammar.
pub open spec fn is_space(c: char) -> bool {
    c == ' ' || c == '\t' || c == '\n' || c == '\r' || c == '\x0c'
}

/// The position of the first separator at or after `i`, or the length when
/// there is none.
pub open spec fn seek_space(s: Seq<char>, i: int) -> int
    decreases s.len() - i when 0 <= i <= s.len()
{
    if i >= s.len() {
        s.len() as int
    } else if is_space(s[i]) {
        i
    } else {
        seek_space(s, i + 1)
    }
}

/// What `seek_space` returns: the position bounds the separator-free run.
pub proof fn lemma_seek_space_bounds(s: Seq<char>, i: int)
    requires
        0 <= i <= s.len(),
    ensures
        i <= seek_space(s, i) <= s.len(),
        forall|k: int| i <= k < seek_space(s, i) ==> !is_space(s[k]),
        seek_space(s, i) < s.len() ==> is_space(s[seek_space(s, i)]),
    decreases s.len() - i,
{
    if i < s.len() && !is_space(s[i]) {
        lemma_seek_space_bounds(s, i + 1);
    }
}

/// A separator-free run ending at a separator or at the end is exactly what
/// `seek_space` finds.
pub proof fn lemma_seek_space_run(s: Seq<char>, i: int, j: int)
    requires
        0 <= i <= j <= s.len(),
        forall|k: int| i <= k < j ==> !is_space(s[k]),
        j == s.len() || is_space(s[j]),
    ensures
        seek_space(s, i) == j,
    decreases j - i,
{
    if i < j {
        lemma_seek_space_run(s, i + 1, j);
    }
}

/// A token that is kept as a candidate word: at least two characters, all of
/// them ASCII letters.
pub open spec fn is_candidate_token(t: Seq<char>) -> bool {
    t.len() >= 2 && forall|i: int| 0 <= i < t.len() ==> is_ascii_letter(t[i])
}

/// The candidate words of the text after the command prefix: its
/// separator-delimited tokens in order, keeping only candidate tokens, each
/// folded to lowercase.
pub open spec fn spec_candidates(s: Seq<char>) -> Seq<Seq<char>>
    decreases s.len() via spec_candidates_decreases
{
    if s.len() == 0 {
        Seq::empty()
    } else if is_space(s[0]) {
        spec_candidates(s.drop_first())
    } else {
        let j = seek_space(s, 0);
        let tok = s.take(j);
        let rest = spec_candidates(s.skip(j));
        if is_candidate_token(tok) {
            seq![lower_seq(tok)] + rest
        } else {
            rest
        }
    }
}

#[via_fn]
proof fn spec_candidates_decreases(s: Seq<char>) {
    if s.len() > 0 && !is_space(s[0]) {
        lemma_seek_space_bounds(s, 0);
    }
}

/// The candidate words of a lookup command: for valid text, the tokens after
/// the `/q ` prefix that qualify as candidates, lowercased, in input order;
/// for anything else, no candidates at all.
pub open spec fn spec_parse_query(t: Seq<char>) -> Seq<Seq<char>> {
    if spec_is_valid_query(t) {
        spec_candidates(t.skip(3))
    } else {
        Seq::empty()
    }
}

/// The exec counterpart of `is_space`.
fn space_char(c: char) -> (r: bool)
    ensures
        r == is_space(c),
{
    c == ' ' || c == '\t' || c == '\n' || c == '\r' || c == '\x0c'
}

/// The exec counterpart of `is_candidate_token`.
fn candidate_token(t: &str) -> (r: bool)
    ensures
        r == is_candidate_token(t@),
{
    let n = t.unicode_len();
    if n < 2 {
        return false;
    }
    for i in 0..n
        invariant
            n == t@.len(),
            forall|k: int| 0 <= k < i ==> is_ascii_letter(t@[k]),
    {
        let c = t.get_char(i);
        if !(('a' <= c && c <= 'z') || ('A' <= c && c <= 'Z')) {
            return false;
        }
    }
    true
}

/// Extracts the candidate words from raw lookup-command text.
pub fn parse_query(text: &str) -> (r: Vec<String>)
    ensures
        r.deep_view() == spec_parse_query(text@),
{
    let mut out: Vec<String> = Vec::new();
    if !is_valid_query(text) {
        proof {
            assert(out.deep_view() =~= spec_parse_query(text@));
        }
        return out;
    }
    let n = text.unicode_len();
    let mut i: usize = 3;
    proof {
        assert(out.deep_view() + spec_candidates(text@.skip(3)) =~= spec_candidates(
            text@.skip(3),
        ));
    }
    while i < n
        invariant
            3 <= i <= n,
            n == text@.len(),
            spec_is_valid_query(text@),
            spec_parse_query(text@) == out.deep_view() + spec_candidates(text@.skip(i as int)),
        decreases n - i,
    {
        let c = text.get_char(i);
        if space_char(c) {
            proof {
                assert(text@.skip(i as int).drop_first() =~= text@.skip(i + 1));
            }
            i = i + 1;
        } else {
            let mut j: usize = i + 1;
            while j < n && !space_char(text.get_char(j))
                invariant
                    i < j <= n,
                    n == text@.len(),
                    forall|k: int| i <= k < j ==> !is_space(text@[k]),
                decreases n - j,
            {
                j = j + 1;
            }
            let ghost s_i = text@.skip(i as int);
            proof {
                assert(forall|k: int| 0 <= k < s_i.len() ==> s_i[k] == text@[i + k]);
                lemma_seek_space_run(s_i, 0, j - i);
                assert(s_i.take(j - i) =~= text@.subrange(i as int, j as int));
                assert(s_i.skip(j - i) =~= text@.skip(j as int));
            }
            let tok = text.substring_char(i, j);
            if candidate_token(tok) {
                let ghost dv0 = out.deep_view();
                let lowered = ascii_lowercase(tok);
                out.push(lowered);
                proof {
                    assert(out.deep_view() =~= dv0.push(lower_seq(tok@)));
                    assert(dv0.push(lower_seq(tok@)) + spec_candidates(text@.skip(j as int))
                        =~= dv0 + (seq![lower_seq(tok@)] + spec_candidates(
                        text@.skip(j as int),
                    )));
                }
            }
            i = j;
        }
    }
    proof {
        assert(text@.skip(n as int).len() == 0);
        assert(out.deep_view() + spec_candidates(text@.skip(n as int)) =~= out.deep_view());
    }
    out
}

} // verus!
