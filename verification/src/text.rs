//! Snippet building and timestamp formatting.

use vstd::prelude::*;
use crate::strutil::{
    char_is_whitespace, chars_to_string, is_space, push_char, spec_trim, spec_trim_back,
    spec_trim_front, str_to_chars, trim_chars,
};

verus! {

/// State of the whitespace-collapsing scan after the first `i` characters
/// of `text`: runs of whitespace become a single space, and whitespace
/// before the first visible character is dropped.
pub open spec fn collapse_upto(text: Seq<char>, i: int) -> Seq<char>
    decreases i,
{
    if i <= 0 {
        Seq::empty()
    } else {
        let prev = collapse_upto(text, i - 1);
        let c = text[i - 1];
        if is_space(c) {
            if prev.len() == 0 || prev.last() == ' ' {
                prev
            } else {
                prev.push(' ')
            }
        } else {
            prev.push(c)
        }
    }
}

/// The scan only appends: an earlier state is a prefix of a later one, and
/// each character grows the output by at most one.
proof fn lemma_collapse_grows(text: Seq<char>, i: int, j: int)
    requires
        0 <= i <= j,
    ensures
        collapse_upto(text, i).is_prefix_of(collapse_upto(text, j)),
        collapse_upto(text, j).len() <= collapse_upto(text, i).len() + (j - i),
        collapse_upto(text, i).len() <= collapse_upto(text, j).len(),
    decreases j - i,
{
    if i < j {
        lemma_collapse_grows(text, i, j - 1);
    }
}

/// One past the last space of `s`, or zero when it has none.
pub open spec fn spec_last_space_end(s: Seq<char>) -> int
    decreases s.len(),
{
    if s.len() == 0 {
        0
    } else if s.last() == ' ' {
        s.len() as int
    } else {
        spec_last_space_end(s.drop_last())
    }
}

/// The first `keep` characters of the collapsed text, backed up to the
/// end of the last whole word when the cut would land inside one and a
/// word boundary is available.
pub open spec fn spec_word_cut(cut: Seq<char>, keep: int) -> Seq<char> {
    let prefix = cut.take(keep);
    if 0 < keep < cut.len() && cut[keep] != ' ' && cut[keep - 1] != ' ' && spec_last_space_end(
        prefix,
    ) > 0 {
        prefix.take(spec_last_space_end(prefix) - 1)
    } else {
        prefix
    }
}

/// The snippet `summarize(text, max)` returns: the collapsed text when it
/// fits, and otherwise a cut of it with `...` appended. The cut keeps at
/// most `max - 3` characters and backs up to a word boundary where one is
/// available (`max < 3` leaves no room for an ellipsis and cuts plain);
/// surrounding whitespace is trimmed.
pub open spec fn spec_summarize(text: Seq<char>, max: nat) -> Seq<char> {
    if max == 0 {
        Seq::empty()
    } else {
        let n = text.len() as int;
        if n > 0 && collapse_upto(text, n - 1).len() >= max {
            let cut = collapse_upto(text, n - 1).take(max as int);
            if max >= 3 {
                spec_trim(spec_word_cut(cut, max - 3) + "..."@)
            } else {
                spec_trim(cut)
            }
        } else {
            spec_trim(collapse_upto(text, n))
        }
    }
}

proof fn lemma_last_space_end_le(s: Seq<char>)
    ensures
        0 <= spec_last_space_end(s) <= s.len(),
    decreases s.len(),
{
    if s.len() > 0 && s.last() != ' ' {
        lemma_last_space_end_le(s.drop_last());
    }
}

/// Whether `summarize(text, max)` had to cut the collapsed text short.
pub open spec fn spec_summarize_truncated(text: Seq<char>, max: nat) -> bool {
    max > 0 && text.len() > 0 && collapse_upto(text, text.len() - 1).len() >= max
}

proof fn lemma_trim_front_len(s: Seq<char>)
    ensures
        spec_trim_front(s).len() <= s.len(),
    decreases s.len(),
{
    if s.len() > 0 && is_space(s[0]) {
        lemma_trim_front_len(s.drop_first());
    }
}

proof fn lemma_trim_back_len(s: Seq<char>)
    ensures
        spec_trim_back(s).len() <= s.len(),
    decreases s.len(),
{
    if s.len() > 0 && is_space(s[s.len() - 1]) {
        lemma_trim_back_len(s.drop_last());
    }
}

/// Trimming never lengthens a string.
pub proof fn lemma_trim_len(s: Seq<char>)
    ensures
        spec_trim(s).len() <= s.len(),
{
    lemma_trim_front_len(s);
    lemma_trim_back_len(spec_trim_front(s));
}

proof fn lemma_trim_front_keeps_tail(x: Seq<char>, d: Seq<char>)
    requires
        d.len() > 0,
        !is_space(d[0]),
    ensures
        exists|p: Seq<char>| spec_trim_front(x + d) == p + d,
    decreases x.len(),
{
    if x.len() == 0 {
        assert((x + d) =~= d);
        assert(spec_trim_front(d) == d);
        assert(spec_trim_front(x + d) == Seq::<char>::empty() + d);
        assert(Seq::<char>::empty() + d =~= d);
    } else if is_space((x + d)[0]) {
        assert((x + d).drop_first() =~= x.drop_first() + d);
        lemma_trim_front_keeps_tail(x.drop_first(), d);
    } else {
        assert(spec_trim_front(x + d) == x + d);
    }
}

/// Trimming a string that ends in a visible character keeps that tail.
pub proof fn lemma_trim_keeps_tail(x: Seq<char>, d: Seq<char>)
    requires
        d.len() > 0,
        !is_space(d[0]),
        !is_space(d[d.len() - 1]),
    ensures
        spec_trim(x + d).len() >= d.len(),
        spec_trim(x + d).subrange(
            spec_trim(x + d).len() - d.len(),
            spec_trim(x + d).len() as int,
        ) == d,
{
    lemma_trim_front_keeps_tail(x, d);
    let p = choose|p: Seq<char>| spec_trim_front(x + d) == p + d;
    let y = p + d;
    assert(y.len() > 0 && !is_space(y[y.len() - 1]));
    assert(spec_trim_back(y) == y);
    assert(spec_trim(x + d) == y);
    assert(y.subrange(y.len() - d.len(), y.len() as int) =~= d);
}

/// A truncated snippet ends in an ellipsis: this is the visible sign that
/// `summarize` cut the text, and it never appears from truncation when the
/// collapsed text fit.
pub proof fn lemma_summarize_ellipsis(text: Seq<char>, max: nat)
    requires
        max >= 3,
        spec_summarize_truncated(text, max),
        !is_space('.'),
    ensures
        spec_summarize(text, max).len() >= 3,
        spec_summarize(text, max).subrange(
            spec_summarize(text, max).len() - 3,
            spec_summarize(text, max).len() as int,
        ) == "..."@,
{
    reveal_strlit("...");
    let n = text.len() as int;
    let cut = collapse_upto(text, n - 1).take(max as int);
    assert(!is_space("..."@[0]));
    assert(!is_space("..."@[2]));
    lemma_trim_keeps_tail(spec_word_cut(cut, max - 3), "..."@);
}

/// One past the last space of `v`, or zero when it has none.
fn last_space_end(v: &Vec<char>) -> (r: usize)
    ensures
        r as int == spec_last_space_end(v@),
{
    let mut k: usize = v.len();
    proof {
        assert(v@.take(v@.len() as int) =~= v@);
    }
    while k > 0
        invariant
            k <= v@.len(),
            spec_last_space_end(v@) == spec_last_space_end(v@.take(k as int)),
        decreases k,
    {
        if v[k - 1] == ' ' {
            proof {
                assert(v@.take(k as int).last() == ' ');
            }
            return k;
        }
        proof {
            assert(v@.take(k as int).last() == v@[k - 1]);
            assert(v@.take(k as int).drop_last() =~= v@.take(k - 1));
        }
        k = k - 1;
    }
    proof {
        assert(v@.take(0).len() == 0);
    }
    0
}

/// The snippet shown beside a session: whitespace runs collapse to one
/// space, and text that does not fit in `max` characters is cut at a word
/// boundary where one is available and marked with a trailing `...` when
/// `max` leaves room for one.
pub fn summarize(text: &str, max: usize) -> (r: String)
    ensures
        r@ == spec_summarize(text@, max as nat),
        r@.len() <= max,
{
    let chars = str_to_chars(text);
    if max == 0 {
        return String::new();
    }
    let n = chars.len();
    let mut out: Vec<char> = Vec::new();
    let mut i: usize = 0;
    while i < n
        invariant
            n == text@.len(),
            chars@ == text@,
            max >= 1,
            i <= n,
            out@ == collapse_upto(text@, i as int),
            out@.len() <= max,
            i > 0 ==> collapse_upto(text@, i - 1).len() < max,
        decreases n - i,
    {
        if out.len() >= max {
            // The collapsed text hit `max` with input left: cut it short.
            proof {
                lemma_collapse_grows(text@, i as int, n - 1);
                assert(out@ =~= collapse_upto(text@, n - 1).take(max as int));
            }
            if max >= 3 {
                let keep = max - 3;
                let mut short: Vec<char> = Vec::new();
                let mut k: usize = 0;
                while k < keep
                    invariant
                        keep < out@.len(),
                        k <= keep,
                        short@ == out@.subrange(0, k as int),
                    decreases keep - k,
                {
                    short.push(out[k]);
                    k = k + 1;
                    proof {
                        assert(short@ =~= out@.subrange(0, k as int));
                    }
                }
                // back up to the last whole word when the cut would land
                // inside one
                if keep > 0 && out[keep] != ' ' && out[keep - 1] != ' ' {
                    let lse = last_space_end(&short);
                    if lse > 0 {
                        proof {
                            lemma_last_space_end_le(short@);
                        }
                        short.truncate(lse - 1);
                        proof {
                            assert(short@ =~= out@.subrange(0, keep as int).take(lse - 1));
                        }
                    }
                }
                proof {
                    assert(out@.take(keep as int) =~= out@.subrange(0, keep as int));
                    assert(short@ == spec_word_cut(out@, keep as int));
                    lemma_last_space_end_le(out@.take(keep as int));
                    assert(short@.len() <= keep);
                }
                let ghost cut_part = short@;
                short.push('.');
                short.push('.');
                short.push('.');
                proof {
                    reveal_strlit("...");
                    assert(short@ =~= cut_part + "..."@);
                    assert(spec_word_cut(out@, keep as int) == spec_word_cut(
                        collapse_upto(text@, n - 1).take(max as int),
                        max - 3,
                    ));
                    lemma_trim_len(short@);
                }
                let trimmed = trim_chars(&short);
                return chars_to_string(trimmed.as_slice());
            } else {
                proof {
                    lemma_trim_len(out@);
                }
                let trimmed = trim_chars(&out);
                return chars_to_string(trimmed.as_slice());
            }
        }
        let c = chars[i];
        if char_is_whitespace(c) {
            if out.len() == 0 {
                // leading whitespace is dropped
            } else if out[out.len() - 1] == ' ' {
                // already inside a collapsed run
            } else {
                out.push(' ');
            }
        } else {
            out.push(c);
        }
        i = i + 1;
    }
    proof {
        lemma_trim_len(out@);
    }
    let trimmed = trim_chars(&out);
    chars_to_string(trimmed.as_slice())
}

/// What the calendar makes of a count of epoch milliseconds: the RFC 3339
/// text at second precision with a `Z` suffix, or nothing when the count
/// lies outside the calendar's fixed range. A function of the count alone.
pub uninterp spec fn rfc3339_utc_of(ms: int) -> Option<Seq<char>>;

/// Relies on `chrono::DateTime::<Utc>::from_timestamp_millis` (None
/// exactly on an out-of-range count) and on
/// `chrono::DateTime::to_rfc3339_opts` with second precision and a `Z`
/// suffix. The count is first taken into a signed 64-bit value, as the
/// callers' timestamps always fit one.
#[verifier::external_body]
fn rfc3339_utc_seconds(ms: u64) -> (r: Option<String>)
    requires
        ms <= i64::MAX,
    ensures
        r is Some <==> rfc3339_utc_of(ms as int) is Some,
        r matches Some(s) ==> rfc3339_utc_of(ms as int) == Some(s@),
{
    match chrono::DateTime::<chrono::Utc>::from_timestamp_millis(ms as i64) {
        Some(dt) => Some(dt.to_rfc3339_opts(chrono::SecondsFormat::Secs, true)),
        None => None,
    }
}

/// Timestamp text shown in lists and previews: `-` for the zero timestamp
/// or one the calendar cannot represent, otherwise the RFC 3339 form.
pub fn format_ts(ts: u64) -> (r: String)
    ensures
        ts == 0 || ts > i64::MAX || rfc3339_utc_of(ts as int) is None ==> r@ == "-"@,
        ts != 0 && ts <= i64::MAX ==> (rfc3339_utc_of(ts as int) matches Some(s) ==> r@ == s),
{
    if ts == 0 {
        return String::from_str("-");
    }
    if ts > i64::MAX as u64 {
        return String::from_str("-");
    }
    match rfc3339_utc_seconds(ts) {
        Some(s) => s,
        None => String::from_str("-"),
    }
}

} // verus!
