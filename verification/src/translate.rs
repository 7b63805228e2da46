//! The translate-command grammar.
//!
//! `/t <src> <trg> <phrase>` — the two codes are two to five letters or
//! hyphens, separated from each other by a comma or a blank and from the
//! phrase by a blank; the phrase opens with two non-blank characters and
//! carries at least one more character of its alphabet. The syntactic shape
//! is this library's own grammar; whether a code names a supported language
//! is delegated to the translation provider's catalog.

use crate::parse::Error;
use crate::text::ascii_uppercase;
use crate::text::is_ascii_letter;
use crate::text::upper_seq;
use vstd::prelude::*;
use vstd::string::*;

verus! {

/// A character allowed in a language code.
pub open spec fn is_code_char(c: char) -> bool {
    is_ascii_letter(c) || c == '-'
}

/// A syntactically valid language code: two to five code characters.
pub open spec fn valid_code(t: Seq<char>) -> bool {
    2 <= t.len() <= 5 && forall|i: int| 0 <= i < t.len() ==> is_code_char(t[i])
}

/// The translation provider's catalog of supported language codes. What it
/// contains is the provider's own enumeration; the library only relies on it
/// being a fixed function of the code text.
pub uninterp spec fn is_known_lang(code: Seq<char>) -> bool;

/// Unicode letters and digits, as `char::is_alphanumeric` classifies them.
pub uninterp spec fn is_unicode_alnum(c: char) -> bool;

/// The punctuation a phrase may carry.
pub open spec fn is_phrase_punct(c: char) -> bool {
    c == ',' || c == '.' || c == '!' || c == '?' || c == '\'' || c == '\u{2019}'
}

/// A word character of the phrase alphabet.
pub open spec fn is_word_char(c: char) -> bool {
    is_unicode_alnum(c) || c == '_'
}

/// A character the phrase may open with: word character or punctuation,
/// never a blank.
pub open spec fn is_phrase_head(c: char) -> bool {
    is_word_char(c) || is_phrase_punct(c)
}

/// Any character of the phrase body.
pub open spec fn is_phrase_tail(c: char) -> bool {
    is_phrase_head(c) || c == ' '
}

/// A valid phrase: two opening non-blank characters followed by at least one
/// more character of the phrase alphabet.
pub open spec fn valid_phrase(t: Seq<char>) -> bool {
    &&& t.len() >= 3
    &&& is_phrase_head(t[0])
    &&& is_phrase_head(t[1])
    &&& forall|i: int| 2 <= i < t.len() ==> is_phrase_tail(t[i])
}

/// A separator between the two language codes.
pub open spec fn is_code_sep(c: char) -> bool {
    c == ',' || c == ' '
}

/// The position of the first code separator at or after `i`, or the length.
pub open spec fn seek_sep(s: Seq<char>, i: int) -> int
    decreases s.len() - i when 0 <= i <= s.len()
{
    if i >= s.len() {
        s.len() as int
    } else if is_code_sep(s[i]) {
        i
    } else {
        seek_sep(s, i + 1)
    }
}

/// The position of the first blank at or after `i`, or the length.
pub open spec fn seek_blank(s: Seq<char>, i: int) -> int
    decreases s.len() - i when 0 <= i <= s.len()
{
    if i >= s.len() {
        s.len() as int
    } else if s[i] == ' ' {
        i
    } else {
        seek_blank(s, i + 1)
    }
}

/// A separator-free run ending at a separator or at the end is what
/// `seek_sep` finds.
pub proof fn lemma_seek_sep_run(s: Seq<char>, i: int, j: int)
    requires
        0 <= i <= j <= s.len(),
        forall|k: int| i <= k < j ==> !is_code_sep(s[k]),
        j == s.len() || is_code_sep(s[j]),
    ensures
        seek_sep(s, i) == j,
    decreases j - i,
{
    if i < j {
        lemma_seek_sep_run(s, i + 1, j);
    }
}

/// A blank-free run ending at a blank or at the end is what `seek_blank`
/// finds.
pub proof fn lemma_seek_blank_run(s: Seq<char>, i: int, j: int)
    requires
        0 <= i <= j <= s.len(),
        forall|k: int| i <= k < j ==> s[k] != ' ',
        j == s.len() || s[j] == ' ',
    ensures
        seek_blank(s, i) == j,
    decreases j - i,
{
    if i < j {
        lemma_seek_blank_run(s, i + 1, j);
    }
}

/// Where the source code ends: the first separator after the prefix.
pub open spec fn src_end(t: Seq<char>) -> int {
    seek_sep(t, 3)
}

/// Where the target code ends: the first blank after the source code.
pub open spec fn trg_end(t: Seq<char>) -> int {
    seek_blank(t, src_end(t) + 1)
}

/// The source code of the command, folded to uppercase.
pub open spec fn spec_src_code(t: Seq<char>) -> Seq<char> {
    upper_seq(t.subrange(3, src_end(t)))
}

/// The target code of the command, folded to uppercase.
pub open spec fn spec_trg_code(t: Seq<char>) -> Seq<char> {
    upper_seq(t.subrange(src_end(t) + 1, trg_end(t)))
}

/// The phrase of the command, verbatim.
pub open spec fn spec_phrase(t: Seq<char>) -> Seq<char> {
    t.subrange(trg_end(t) + 1, t.len() as int)
}

/// The whole translate grammar.
pub open spec fn spec_translatable(t: Seq<char>) -> bool {
    &&& t.len() >= 3
    &&& t[0] == '/'
    &&& t[1] == 't'
    &&& t[2] == ' '
    &&& src_end(t) < t.len()
    &&& trg_end(t) < t.len()
    &&& valid_code(t.subrange(3, src_end(t)))
    &&& valid_code(t.subrange(src_end(t) + 1, trg_end(t)))
    &&& valid_phrase(spec_phrase(t))
}

/// A language code validated against the provider's catalog, held uppercase.
#[derive(Debug)]
pub struct LangCode {
    code: String,
}

impl View for LangCode {
    type V = Seq<char>;

    closed spec fn view(&self) -> Seq<char> {
        self.code@
    }
}

impl LangCode {
    /// The catalog knows this code.
    pub open spec fn wf(self) -> bool {
        is_known_lang(self@)
    }

    /// A code taken verbatim, accepted exactly when the catalog knows it.
    pub fn try_new(code: &str) -> (r: Option<LangCode>)
        ensures
            r is Some <==> is_known_lang(code@),
            r matches Some(l) ==> l@ == code@ && l.wf(),
    {
        if lang_code_known(code) {
            Some(LangCode { code: String::from_str(code) })
        } else {
            None
        }
    }

    /// The code text.
    pub fn as_code(&self) -> (r: &str)
        ensures
            r@ == self@,
    {
        self.code.as_str()
    }
}

impl PartialEq for LangCode {
    fn eq(&self, other: &LangCode) -> (r: bool) {
        self.code == other.code
    }
}

impl vstd::std_specs::cmp::PartialEqSpecImpl for LangCode {
    open spec fn obeys_eq_spec() -> bool {
        true
    }

    open spec fn eq_spec(&self, other: &LangCode) -> bool {
        self@ == other@
    }
}

/// Relies on deepl's `Lang::try_from(&str)`: it returns `Ok` exactly when
/// the text is one of the provider's supported language codes, a fixed
/// catalog depending on the code text alone.
#[verifier::external_body]
fn lang_code_known(code: &str) -> (r: bool)
    ensures
        r == is_known_lang(code@),
{
    match deepl::Lang::try_from(code) {
        Ok(_) => true,
        Err(_) => false,
    }
}

/// Relies on `char::is_alphanumeric`: a fixed classification of the
/// character alone.
#[verifier::external_body]
fn char_is_alnum(c: char) -> (r: bool)
    ensures
        r == is_unicode_alnum(c),
{
    c.is_alphanumeric()
}

/// The exec counterpart of `is_phrase_head`.
fn phrase_head_char(c: char) -> (r: bool)
    ensures
        r == is_phrase_head(c),
{
    char_is_alnum(c) || c == '_' || c == ',' || c == '.' || c == '!' || c == '?' || c == '\''
        || c == '\u{2019}'
}

/// The exec counterpart of `valid_code`.
fn code_token(t: &str) -> (r: bool)
    ensures
        r == valid_code(t@),
{
    let n = t.unicode_len();
    if n < 2 || n > 5 {
        return false;
    }
    for i in 0..n
        invariant
            n == t@.len(),
            forall|k: int| 0 <= k < i ==> is_code_char(t@[k]),
    {
        let c = t.get_char(i);
        if !(('a' <= c && c <= 'z') || ('A' <= c && c <= 'Z') || c == '-') {
            return false;
        }
    }
    true
}

/// The exec counterpart of `valid_phrase`.
fn phrase_token(t: &str) -> (r: bool)
    ensures
        r == valid_phrase(t@),
{
    let n = t.unicode_len();
    if n < 3 {
        return false;
    }
    if !phrase_head_char(t.get_char(0)) {
        return false;
    }
    if !phrase_head_char(t.get_char(1)) {
        return false;
    }
    for i in 2..n
        invariant
            n == t@.len(),
            forall|k: int| 2 <= k < i ==> is_phrase_tail(t@[k]),
    {
        let c = t.get_char(i);
        if !(phrase_head_char(c) || c == ' ') {
            return false;
        }
    }
    true
}

/// Parses a translate command into its validated source language, target
/// language and phrase. Rejects text outside the grammar as `Usage`, and a
/// well-shaped code the provider's catalog lacks as the matching
/// unknown-language error, carrying the uppercased code.
pub fn parse_translatable(text: &str) -> (r: Result<(LangCode, LangCode, String), Error>)
    ensures
        match r {
            Ok(p) => {
                &&& spec_translatable(text@)
                &&& p.0@ == spec_src_code(text@)
                &&& p.1@ == spec_trg_code(text@)
                &&& p.2@ == spec_phrase(text@)
                &&& p.0.wf()
                &&& p.1.wf()
            },
            Err(e) => match e {
                Error::Usage => !spec_translatable(text@),
                Error::UnknownSourceLanguage(c) => {
                    &&& spec_translatable(text@)
                    &&& !is_known_lang(spec_src_code(text@))
                    &&& c@ == spec_src_code(text@)
                },
                Error::UnknownTargetLanguage(c) => {
                    &&& spec_translatable(text@)
                    &&& is_known_lang(spec_src_code(text@))
                    &&& !is_known_lang(spec_trg_code(text@))
                    &&& c@ == spec_trg_code(text@)
                },
                _ => false,
            },
        },
{
    let n = text.unicode_len();
    if n < 3 {
        return Err(Error::Usage);
    }
    if !(text.get_char(0) == '/' && text.get_char(1) == 't' && text.get_char(2) == ' ') {
        return Err(Error::Usage);
    }
    // The source code runs to the first comma or blank.
    let mut j1: usize = 3;
    while j1 < n && !(text.get_char(j1) == ',' || text.get_char(j1) == ' ')
        invariant
            3 <= j1 <= n,
            n == text@.len(),
            forall|k: int| 3 <= k < j1 ==> !is_code_sep(text@[k]),
        decreases n - j1,
    {
        j1 = j1 + 1;
    }
    proof {
        lemma_seek_sep_run(text@, 3, j1 as int);
    }
    if j1 == n {
        return Err(Error::Usage);
    }
    let src_tok = text.substring_char(3, j1);
    if !code_token(src_tok) {
        return Err(Error::Usage);
    }
    // The target code runs to the next blank.
    let mut j2: usize = j1 + 1;
    while j2 < n && !(text.get_char(j2) == ' ')
        invariant
            j1 + 1 <= j2 <= n,
            n == text@.len(),
            forall|k: int| j1 + 1 <= k < j2 ==> text@[k] != ' ',
        decreases n - j2,
    {
        j2 = j2 + 1;
    }
    proof {
        lemma_seek_blank_run(text@, j1 + 1, j2 as int);
    }
    if j2 == n {
        return Err(Error::Usage);
    }
    let trg_tok = text.substring_char(j1 + 1, j2);
    if !code_token(trg_tok) {
        return Err(Error::Usage);
    }
    let phrase = text.substring_char(j2 + 1, n);
    if !phrase_token(phrase) {
        return Err(Error::Usage);
    }
    let src_up = ascii_uppercase(src_tok);
    if !lang_code_known(src_up.as_str()) {
        return Err(Error::UnknownSourceLanguage(src_up));
    }
    let trg_up = ascii_uppercase(trg_tok);
    if !lang_code_known(trg_up.as_str()) {
        return Err(Error::UnknownTargetLanguage(trg_up));
    }
    Ok((LangCode { code: src_up }, LangCode { code: trg_up }, String::from_str(phrase)))
}

} // verus!
