//! Query tokenization and literal matching.
//!
//! The same cleaning rules decide which terms are indexed and which terms
//! the preview highlighter searches for: split on whitespace, strip
//! non-alphanumeric characters from both ends, drop terms shorter than two
//! characters, and deduplicate by lowercased form. Punctuation inside a
//! token is kept, so a run like two words joined by a comma stays one
//! term; only the edges are cleaned.

use vstd::prelude::*;
use crate::strutil::{
    char_is_alphanumeric, char_is_whitespace, chars_to_string, is_alnum, is_space, lower_of,
    lowercase, str_to_chars,
};

verus! {

/// State of the whitespace split after the first `i` characters of `s`:
/// the tokens already finished, and the partial token being read.
pub open spec fn split_ws_state(s: Seq<char>, i: int) -> (Seq<Seq<char>>, Seq<char>)
    decreases i,
{
    if i <= 0 {
        (Seq::empty(), Seq::empty())
    } else {
        let prev = split_ws_state(s, i - 1);
        let c = s[i - 1];
        if is_space(c) {
            if prev.1.len() > 0 {
                (prev.0.push(prev.1), Seq::empty())
            } else {
                prev
            }
        } else {
            (prev.0, prev.1.push(c))
        }
    }
}

/// The maximal whitespace-free runs of `s`, in order.
pub open spec fn spec_split_ws(s: Seq<char>) -> Seq<Seq<char>> {
    let state = split_ws_state(s, s.len() as int);
    if state.1.len() > 0 {
        state.0.push(state.1)
    } else {
        state.0
    }
}

/// `s` without leading characters that are not alphanumeric.
pub open spec fn strip_front_nonalnum(s: Seq<char>) -> Seq<char>
    decreases s.len(),
{
    if s.len() > 0 && !is_alnum(s[0]) {
        strip_front_nonalnum(s.drop_first())
    } else {
        s
    }
}

/// `s` without trailing characters that are not alphanumeric.
pub open spec fn strip_back_nonalnum(s: Seq<char>) -> Seq<char>
    decreases s.len(),
{
    if s.len() > 0 && !is_alnum(s[s.len() - 1]) {
        strip_back_nonalnum(s.drop_last())
    } else {
        s
    }
}

/// A raw token with non-alphanumeric characters stripped from both ends.
pub open spec fn spec_clean_token(s: Seq<char>) -> Seq<char> {
    strip_back_nonalnum(strip_front_nonalnum(s))
}

/// The search terms kept from the first `i` raw tokens: cleaned, at least
/// two characters long, lowercased, first occurrence only.
pub open spec fn terms_from(toks: Seq<Seq<char>>, i: int) -> Seq<Seq<char>>
    decreases i,
{
    if i <= 0 {
        Seq::empty()
    } else {
        let prev = terms_from(toks, i - 1);
        let t = spec_clean_token(toks[i - 1]);
        if t.len() < 2 {
            prev
        } else {
            let key = lower_of(t);
            if prev.contains(key) {
                prev
            } else {
                prev.push(key)
            }
        }
    }
}

/// The distinct lowercased search terms of a query.
pub open spec fn spec_query_terms(q: Seq<char>) -> Seq<Seq<char>> {
    let toks = spec_split_ws(q);
    terms_from(toks, toks.len() as int)
}

/// The views of a vector of strings.
pub open spec fn views_of(v: Seq<String>) -> Seq<Seq<char>> {
    v.map_values(|s: String| s@)
}

proof fn lemma_strip_front_skip(s: Seq<char>, i: int)
    requires
        0 <= i <= s.len(),
        forall|k: int| 0 <= k < i ==> !is_alnum(s[k]),
    ensures
        strip_front_nonalnum(s) == strip_front_nonalnum(s.skip(i)),
    decreases i,
{
    if i > 0 {
        assert(s.len() > 0 && !is_alnum(s[0]));
        assert(s.drop_first() =~= s.skip(1));
        lemma_strip_front_skip(s.skip(1), i - 1);
        assert(s.skip(1).skip(i - 1) =~= s.skip(i));
    } else {
        assert(s.skip(0) =~= s);
    }
}

proof fn lemma_strip_back_take(s: Seq<char>, i: int)
    requires
        0 <= i <= s.len(),
        forall|k: int| i <= k < s.len() ==> !is_alnum(s[k]),
    ensures
        strip_back_nonalnum(s) == strip_back_nonalnum(s.take(i)),
    decreases s.len() - i,
{
    if i < s.len() {
        assert(!is_alnum(s[s.len() - 1]));
        assert(s.drop_last() =~= s.take(s.len() - 1));
        lemma_strip_back_take(s.take(s.len() - 1), i);
        assert(s.take(s.len() - 1).take(i) =~= s.take(i));
    } else {
        assert(s.take(i) =~= s);
    }
}

/// The characters of `v` with non-alphanumeric characters removed from
/// both ends.
fn clean_token(v: &Vec<char>) -> (r: Vec<char>)
    ensures
        r@ == spec_clean_token(v@),
{
    let mut start: usize = 0;
    while start < v.len() && !char_is_alphanumeric(v[start as usize])
        invariant
            start <= v@.len(),
            forall|k: int| 0 <= k < start ==> !is_alnum(v@[k]),
        decreases v@.len() - start,
    {
        start = start + 1;
    }
    proof {
        lemma_strip_front_skip(v@, start as int);
    }
    let mut end: usize = v.len();
    while end > start && !char_is_alphanumeric(v[end - 1])
        invariant
            start <= end <= v@.len(),
            forall|k: int| end <= k < v@.len() ==> !is_alnum(v@[k]),
        decreases end,
    {
        end = end - 1;
    }
    let mut out: Vec<char> = Vec::new();
    let mut i: usize = start;
    while i < end
        invariant
            start <= i <= end <= v@.len(),
            out@ == v@.subrange(start as int, i as int),
        decreases end - i,
    {
        out.push(v[i]);
        i = i + 1;
        proof {
            assert(out@ =~= v@.subrange(start as int, i as int));
        }
    }
    proof {
        let f = v@.skip(start as int);
        if start < v@.len() {
            assert(f[0] == v@[start as int]);
            assert(strip_front_nonalnum(v@) == f);
        } else {
            assert(f.len() == 0);
            assert(strip_front_nonalnum(v@) == f);
        }
        lemma_strip_back_take(f, end - start);
        let t = f.take(end - start);
        if end > start {
            assert(t[t.len() - 1] == v@[end - 1]);
            assert(strip_back_nonalnum(t) == t);
        } else {
            assert(t.len() == 0);
            assert(strip_back_nonalnum(t) == t);
        }
        assert(out@ =~= t);
    }
    out
}

/// Whether some string in `v` has exactly the view `s`.
pub(crate) fn contains_string(v: &Vec<String>, s: &String) -> (r: bool)
    ensures
        r == views_of(v@).contains(s@),
{
    let mut i: usize = 0;
    while i < v.len()
        invariant
            i <= v@.len(),
            forall|k: int| 0 <= k < i ==> views_of(v@)[k] != s@,
        decreases v@.len() - i,
    {
        if v[i] == *s {
            proof {
                assert(views_of(v@)[i as int] == s@);
            }
            return true;
        }
        i = i + 1;
    }
    proof {
        assert(forall|k: int| 0 <= k < views_of(v@).len() ==> views_of(v@)[k] != s@);
    }
    false
}

/// The distinct lowercased search terms of `query`, in first-seen order.
pub fn query_terms(query: &str) -> (r: Vec<String>)
    ensures
        views_of(r@) == spec_query_terms(query@),
{
    let chars = str_to_chars(query);
    let n = chars.len();
    let mut toks: Vec<Vec<char>> = Vec::new();
    let mut cur: Vec<char> = Vec::new();
    let mut i: usize = 0;
    while i < n
        invariant
            n == query@.len(),
            chars@ == query@,
            i <= n,
            toks@.map_values(|t: Vec<char>| t@) == split_ws_state(query@, i as int).0,
            cur@ == split_ws_state(query@, i as int).1,
        decreases n - i,
    {
        let c = chars[i];
        if char_is_whitespace(c) {
            if cur.len() > 0 {
                toks.push(cur);
                cur = Vec::new();
                proof {
                    assert(toks@.map_values(|t: Vec<char>| t@) =~= split_ws_state(
                        query@,
                        i + 1,
                    ).0);
                }
            }
        } else {
            cur.push(c);
        }
        i = i + 1;
    }
    if cur.len() > 0 {
        toks.push(cur);
        proof {
            assert(toks@.map_values(|t: Vec<char>| t@) =~= spec_split_ws(query@));
        }
    }
    proof {
        assert(toks@.map_values(|t: Vec<char>| t@) =~= spec_split_ws(query@));
    }
    let ghost spec_toks = spec_split_ws(query@);
    let mut out: Vec<String> = Vec::new();
    let mut j: usize = 0;
    while j < toks.len()
        invariant
            toks@.map_values(|t: Vec<char>| t@) == spec_toks,
            j <= toks@.len(),
            views_of(out@) == terms_from(spec_toks, j as int),
        decreases toks@.len() - j,
    {
        let cleaned = clean_token(&toks[j]);
        if cleaned.len() >= 2 {
            let raw = chars_to_string(cleaned.as_slice());
            let key = lowercase(raw.as_str());
            if !contains_string(&out, &key) {
                out.push(key);
                proof {
                    assert(views_of(out@) =~= terms_from(spec_toks, j + 1));
                }
            }
        }
        proof {
            assert(toks@.map_values(|t: Vec<char>| t@)[j as int] == toks@[j as int]@);
            assert(views_of(out@) =~= terms_from(spec_toks, j + 1));
        }
        j = j + 1;
    }
    out
}

proof fn lemma_split_all_space(q: Seq<char>, i: int)
    requires
        0 <= i <= q.len(),
        forall|k: int| 0 <= k < q.len() ==> is_space(#[trigger] q[k]),
    ensures
        split_ws_state(q, i).0.len() == 0,
        split_ws_state(q, i).1.len() == 0,
    decreases i,
{
    if i > 0 {
        lemma_split_all_space(q, i - 1);
    }
}

/// A query that trims to nothing yields no search terms.
pub proof fn lemma_trimmed_empty_no_terms(q: Seq<char>)
    requires
        crate::strutil::spec_trim(q).len() == 0,
    ensures
        spec_query_terms(q).len() == 0,
{
    crate::strutil::lemma_trim_empty_all_space(q);
    lemma_split_all_space(q, q.len() as int);
}

/// What a case-insensitive literal matcher built from `term` finds in
/// `text`: a function of the two strings alone.
pub uninterp spec fn ci_matches(term: Seq<char>, text: Seq<char>) -> bool;

/// Whether a case-insensitive literal matcher builds for `term`: the
/// escaped pattern and the builder's size limit depend on the term alone.
pub uninterp spec fn buildable(term: Seq<char>) -> bool;

/// Relies on the `regex` crate: `escape` makes a literal pattern of
/// `term`, `RegexBuilder` with `case_insensitive(true)` compiles it, and
/// `Regex::is_match` reports whether `text` contains a case-insensitive
/// occurrence. The build succeeds or fails by the term alone (its only
/// failure is the compiled size limit); `None` reports the refusal.
#[verifier::external_body]
fn ci_literal_is_match(term: &str, text: &str) -> (r: Option<bool>)
    ensures
        r is Some <==> buildable(term@),
        r matches Some(b) ==> b == ci_matches(term@, text@),
{
    let pattern = regex::escape(term);
    match regex::RegexBuilder::new(&pattern).case_insensitive(true).build() {
        Ok(re) => Some(re.is_match(text)),
        Err(_) => None,
    }
}

/// Some term of `terms` matches `text` case-insensitively.
pub open spec fn spec_matches_any(terms: Seq<Seq<char>>, text: Seq<char>) -> bool {
    exists|i: int| 0 <= i < terms.len() && ci_matches(terms[i], text)
}

/// Every term of `terms` has a buildable matcher.
pub open spec fn all_buildable(terms: Seq<Seq<char>>) -> bool {
    forall|i: int| 0 <= i < terms.len() ==> buildable(#[trigger] terms[i])
}

/// Whether any term matches `text`. The answer comes back exactly when a
/// matcher builds for every term; otherwise `None` reports the refusal,
/// as when a pattern exceeds the regex size limit.
pub fn matches_any(terms: &Vec<String>, text: &str) -> (r: Option<bool>)
    ensures
        r is Some <==> all_buildable(views_of(terms@)),
        r matches Some(b) ==> b == spec_matches_any(views_of(terms@), text@),
{
    let mut found = false;
    let mut i: usize = 0;
    while i < terms.len()
        invariant
            i <= terms@.len(),
            forall|k: int| 0 <= k < i ==> buildable(#[trigger] views_of(terms@)[k]),
            found == exists|k: int| 0 <= k < i && ci_matches(views_of(terms@)[k], text@),
        decreases terms@.len() - i,
    {
        proof {
            assert(views_of(terms@)[i as int] == terms@[i as int]@);
        }
        match ci_literal_is_match(terms[i].as_str(), text) {
            Some(b) => {
                if b {
                    proof {
                        assert(ci_matches(views_of(terms@)[i as int], text@));
                    }
                    found = true;
                }
            },
            None => {
                proof {
                    assert(!buildable(views_of(terms@)[i as int]));
                }
                return None;
            },
        }
        i = i + 1;
    }
    Some(found)
}

} // verus!
