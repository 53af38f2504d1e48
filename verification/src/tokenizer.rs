//! The attribute tokenizer.
//!
//! Attribute text is trimmed and then split into an ordered list of
//! tokens.  White space separates tokens; a quote character (`'` or
//! `"`) opens or closes a quoted token that may contain embedded white
//! space; the delimiting quotes are not part of the token.  A quote
//! that is opened but never closed is an error.

use vstd::prelude::*;

use crate::Error;
use crate::text::is_quote_char;
use crate::text::is_quote;
use crate::text::is_ws_char;
use crate::text::is_whitespace_char;

verus! {

/// The least offset at or after `i` whose character is not white
/// space, or the length of `s` if every character from `i` on is.
pub open spec fn scan_ws_fwd(s: Seq<char>, i: int) -> int
    decreases s.len() - i,
{
    if i < 0 || i >= s.len() {
        s.len() as int
    } else if is_ws_char(s[i]) {
        scan_ws_fwd(s, i + 1)
    } else {
        i
    }
}

/// The greatest offset at or below `i` such that every character in
/// `[offset, i)` is white space and the character just before `offset`,
/// if any, is not.
pub open spec fn scan_ws_back(s: Seq<char>, i: int) -> int
    decreases i,
{
    if i <= 0 || i > s.len() {
        0
    } else if is_ws_char(s[i - 1]) {
        scan_ws_back(s, i - 1)
    } else {
        i
    }
}

/// `s` with leading and trailing white space removed.
pub open spec fn trim_spec(s: Seq<char>) -> Seq<char> {
    let lo = scan_ws_fwd(s, 0);
    let hi = scan_ws_back(s, s.len() as int);
    if lo < hi {
        s.subrange(lo, hi)
    } else {
        Seq::empty()
    }
}

proof fn lemma_scan_ws_fwd(s: Seq<char>, i: int)
    requires
        0 <= i <= s.len(),
    ensures
        i <= scan_ws_fwd(s, i) <= s.len(),
        forall|j: int| i <= j < scan_ws_fwd(s, i) ==> is_ws_char(s[j]),
        scan_ws_fwd(s, i) < s.len() ==> !is_ws_char(s[scan_ws_fwd(s, i)]),
    decreases s.len() - i,
{
    if i < s.len() && is_ws_char(s[i]) {
        lemma_scan_ws_fwd(s, i + 1);
    }
}

proof fn lemma_scan_ws_back(s: Seq<char>, i: int)
    requires
        0 <= i <= s.len(),
    ensures
        0 <= scan_ws_back(s, i) <= i,
        forall|j: int| scan_ws_back(s, i) <= j < i ==> is_ws_char(s[j]),
        scan_ws_back(s, i) > 0 ==> !is_ws_char(s[scan_ws_back(s, i) - 1]),
    decreases i,
{
    if i > 0 && is_ws_char(s[i - 1]) {
        lemma_scan_ws_back(s, i - 1);
    }
}

/// Removes leading and trailing white space; the result's view is
/// [`trim_spec`] of the input's view.
fn trim(s: &str) -> (r: &str)
    ensures
        r@ == trim_spec(s@),
{
    let n = s.unicode_len();
    let mut lo: usize = 0;
    while lo < n && is_whitespace_char(s.get_char(lo))
        invariant
            n == s@.len(),
            0 <= lo <= n,
            scan_ws_fwd(s@, 0) == scan_ws_fwd(s@, lo as int),
        decreases n - lo,
    {
        lo = lo + 1;
    }
    assert(scan_ws_fwd(s@, 0) == lo);
    let mut hi: usize = n;
    while hi > 0 && is_whitespace_char(s.get_char(hi - 1))
        invariant
            n == s@.len(),
            0 <= hi <= n,
            scan_ws_back(s@, n as int) == scan_ws_back(s@, hi as int),
        decreases hi,
    {
        hi = hi - 1;
    }
    assert(scan_ws_back(s@, n as int) == hi);
    if lo < hi {
        s.substring_char(lo, hi)
    } else {
        let r = s.substring_char(0, 0);
        assert(r@ =~= trim_spec(s@));
        r
    }
}

/// One left-to-right scan of the attribute state machine, from offset
/// `i` with quoting state `in_quote`, the current token having begun at
/// offset `start`, and `acc` the tokens already emitted.  `None` means
/// the scan ended inside a quoted token.
pub open spec fn tok_from(
    s: Seq<char>,
    i: int,
    in_quote: bool,
    start: int,
    acc: Seq<Seq<char>>,
) -> Option<Seq<Seq<char>>>
    decreases s.len() - i,
{
    if i >= s.len() {
        if in_quote {
            None
        } else if start < s.len() {
            Some(acc.push(s.subrange(start, s.len() as int)))
        } else {
            Some(acc)
        }
    } else {
        let c = s[i];
        if is_quote_char(c) {
            if in_quote {
                tok_from(s, i + 1, false, i + 1, acc.push(s.subrange(start, i)))
            } else {
                tok_from(s, i + 1, true, i + 1, acc)
            }
        } else if is_ws_char(c) && !in_quote {
            if start < i {
                tok_from(s, i + 1, false, i + 1, acc.push(s.subrange(start, i)))
            } else {
                tok_from(s, i + 1, false, i + 1, acc)
            }
        } else {
            tok_from(s, i + 1, in_quote, start, acc)
        }
    }
}

/// The token list of an attribute string: trim, then run the state
/// machine over the whole remainder.  `None` means a quoted token was
/// never closed.
pub open spec fn tokenize_spec(s: Seq<char>) -> Option<Seq<Seq<char>>> {
    tok_from(trim_spec(s), 0, false, 0, Seq::empty())
}

/// Splits raw attribute text into its ordered list of tokens, exactly
/// as [`tokenize_spec`] describes, failing with
/// [`Error::UnterminatedString`] exactly when the spec has no token
/// list for the input.
pub fn split_attrs(raw_attrs: &str) -> (r: Result<Vec<String>, Error>)
    ensures
        match r {
            Ok(v) => tokenize_spec(raw_attrs@) == Some(v.deep_view()),
            Err(e) => e == Error::UnterminatedString && tokenize_spec(raw_attrs@) is None,
        },
{
    let t = trim(raw_attrs);
    let n = t.unicode_len();
    let mut result: Vec<String> = Vec::new();
    let mut start: usize = 0;
    let mut in_quote = false;
    let mut i: usize = 0;
    assert(result.deep_view() =~= Seq::<Seq<char>>::empty());
    while i < n
        invariant
            n == t@.len(),
            t@ == trim_spec(raw_attrs@),
            0 <= start <= i <= n,
            tokenize_spec(raw_attrs@) == tok_from(
                t@,
                i as int,
                in_quote,
                start as int,
                result.deep_view(),
            ),
        decreases n - i,
    {
        let c = t.get_char(i);
        if is_quote(&c) {
            if in_quote {
                let ghost prev = result.deep_view();
                let tok = String::from_str(t.substring_char(start, i));
                result.push(tok);
                assert(result.deep_view() =~= prev.push(t@.subrange(start as int, i as int)));
                in_quote = false;
            } else {
                in_quote = true;
            }
            start = i + 1;
        } else if is_whitespace_char(c) && !in_quote {
            if start < i {
                let ghost prev = result.deep_view();
                let tok = String::from_str(t.substring_char(start, i));
                result.push(tok);
                assert(result.deep_view() =~= prev.push(t@.subrange(start as int, i as int)));
            }
            start = i + 1;
        }
        i = i + 1;
    }
    if in_quote {
        return Err(Error::UnterminatedString);
    }
    if start < n {
        let ghost prev = result.deep_view();
        let tok = String::from_str(t.substring_char(start, n));
        result.push(tok);
        assert(result.deep_view() =~= prev.push(t@.subrange(start as int, n as int)));
    }
    Ok(result)
}

/// The number of quote characters of `s` in the offset range `[i, j)`.
pub open spec fn quotes_in(s: Seq<char>, i: int, j: int) -> nat
    decreases j - i,
{
    if i >= j {
        0
    } else {
        (if is_quote_char(s[i]) {
            1nat
        } else {
            0nat
        }) + quotes_in(s, i + 1, j)
    }
}

proof fn lemma_tok_from_none(s: Seq<char>, i: int, in_quote: bool, start: int, acc: Seq<Seq<char>>)
    requires
        0 <= i <= s.len(),
    ensures
        (tok_from(s, i, in_quote, start, acc) is None) <==> ((quotes_in(s, i, s.len() as int) + (
        if in_quote {
            1nat
        } else {
            0nat
        })) % 2 == 1),
    decreases s.len() - i,
{
    if i < s.len() {
        let c = s[i];
        if is_quote_char(c) {
            if in_quote {
                lemma_tok_from_none(s, i + 1, false, i + 1, acc.push(s.subrange(start, i)));
            } else {
                lemma_tok_from_none(s, i + 1, true, i + 1, acc);
            }
        } else if is_ws_char(c) && !in_quote {
            if start < i {
                lemma_tok_from_none(s, i + 1, false, i + 1, acc.push(s.subrange(start, i)));
            } else {
                lemma_tok_from_none(s, i + 1, false, i + 1, acc);
            }
        } else {
            lemma_tok_from_none(s, i + 1, in_quote, start, acc);
        }
    }
}

proof fn lemma_quotes_in_split(s: Seq<char>, i: int, k: int, j: int)
    requires
        i <= k <= j,
    ensures
        quotes_in(s, i, j) == quotes_in(s, i, k) + quotes_in(s, k, j),
    decreases k - i,
{
    if i < k {
        lemma_quotes_in_split(s, i + 1, k, j);
    }
}

proof fn lemma_quotes_in_ws_zero(s: Seq<char>, i: int, j: int)
    requires
        0 <= i,
        j <= s.len(),
        forall|k: int| i <= k < j ==> is_ws_char(s[k]),
    ensures
        quotes_in(s, i, j) == 0,
    decreases j - i,
{
    if i < j {
        lemma_quotes_in_ws_zero(s, i + 1, j);
    }
}

proof fn lemma_quotes_in_subrange(s: Seq<char>, lo: int, hi: int, d: int)
    requires
        0 <= lo <= hi <= s.len(),
        0 <= d <= hi - lo,
    ensures
        quotes_in(s.subrange(lo, hi), d, hi - lo) == quotes_in(s, lo + d, hi),
    decreases hi - lo - d,
{
    if d < hi - lo {
        lemma_quotes_in_subrange(s, lo, hi, d + 1);
    }
}

proof fn lemma_quotes_trim(s: Seq<char>)
    ensures
        quotes_in(trim_spec(s), 0, trim_spec(s).len() as int) == quotes_in(s, 0, s.len() as int),
{
    let n = s.len() as int;
    let lo = scan_ws_fwd(s, 0);
    let hi = scan_ws_back(s, n);
    lemma_scan_ws_fwd(s, 0);
    lemma_scan_ws_back(s, n);
    if lo < hi {
        lemma_quotes_in_subrange(s, lo, hi, 0);
        lemma_quotes_in_split(s, 0, lo, n);
        lemma_quotes_in_split(s, lo, hi, n);
        lemma_quotes_in_ws_zero(s, 0, lo);
        lemma_quotes_in_ws_zero(s, hi, n);
    } else {
        assert(forall|k: int| 0 <= k < n ==> is_ws_char(s[k]));
        lemma_quotes_in_ws_zero(s, 0, n);
    }
}

/// Law: tokenizing fails, and then only with an unterminated string,
/// exactly when the input holds an odd number of quote characters — an
/// opened quote with no quote left to close it.
pub proof fn lemma_tokenize_err_iff_odd_quotes(s: Seq<char>)
    ensures
        (tokenize_spec(s) is None) <==> (quotes_in(s, 0, s.len() as int) % 2 == 1),
{
    lemma_tok_from_none(trim_spec(s), 0, false, 0, Seq::empty());
    lemma_quotes_trim(s);
}

/// The tokens of `toks` concatenated with a single space between each
/// neighbouring pair.
pub open spec fn join_tokens(toks: Seq<Seq<char>>) -> Seq<char>
    decreases toks.len(),
{
    if toks.len() == 0 {
        Seq::empty()
    } else if toks.len() == 1 {
        toks[0]
    } else {
        join_tokens(toks.drop_last()) + seq![' '] + toks.last()
    }
}

/// `s` from offset `i` on, with every run of white space replaced by a
/// single space.
pub open spec fn collapse_from(s: Seq<char>, i: int) -> Seq<char>
    decreases s.len() - i,
    via collapse_from_dec
{
    if i < 0 || i >= s.len() {
        Seq::empty()
    } else if is_ws_char(s[i]) {
        seq![' '] + collapse_from(s, scan_ws_fwd(s, i))
    } else {
        seq![s[i]] + collapse_from(s, i + 1)
    }
}

#[via_fn]
proof fn collapse_from_dec(s: Seq<char>, i: int) {
    if 0 <= i < s.len() && is_ws_char(s[i]) {
        lemma_scan_ws_fwd(s, i + 1);
    }
}

/// Two pieces joined by a single space when both are non-empty.
pub open spec fn glue(a: Seq<char>, b: Seq<char>) -> Seq<char> {
    if a.len() == 0 {
        b
    } else if b.len() == 0 {
        a
    } else {
        a + seq![' '] + b
    }
}

proof fn lemma_join_push(acc: Seq<Seq<char>>, t: Seq<char>)
    ensures
        join_tokens(acc.push(t)) == if acc.len() == 0 {
            t
        } else {
            join_tokens(acc) + seq![' '] + t
        },
{
    let p = acc.push(t);
    if acc.len() == 0 {
        assert(p.len() == 1);
        assert(p[0] == t);
    } else {
        assert(p.drop_last() =~= acc);
        assert(p.last() == t);
    }
}

/// What a scan from a quote-free state yields: the remaining tokens,
/// glued behind the tokens already emitted.
spec fn tok_tail(s: Seq<char>, i: int, start: int) -> Seq<char> {
    if start < i {
        s.subrange(start, i) + collapse_from(s, i)
    } else {
        collapse_from(s, scan_ws_fwd(s, i))
    }
}

proof fn lemma_tok_join(s: Seq<char>, i: int, start: int, acc: Seq<Seq<char>>)
    requires
        0 <= start <= i <= s.len(),
        forall|k: int| 0 <= k < s.len() ==> !is_quote_char(s[k]),
        s.len() > 0 ==> !is_ws_char(s[s.len() - 1]),
        forall|k: int| start <= k < i ==> !is_ws_char(s[k]),
        acc.len() > 0 ==> join_tokens(acc).len() > 0,
    ensures
        tok_from(s, i, false, start, acc) matches Some(res) && join_tokens(res) == glue(
            join_tokens(acc),
            tok_tail(s, i, start),
        ),
    decreases s.len() - i,
{
    let a = join_tokens(acc);
    if i >= s.len() {
        if start < s.len() {
            let t = s.subrange(start, s.len() as int);
            lemma_join_push(acc, t);
            assert(t + collapse_from(s, s.len() as int) =~= t);
        }
    } else {
        let c = s[i];
        if is_ws_char(c) && start < i {
            let t = s.subrange(start, i);
            lemma_join_push(acc, t);
            lemma_tok_join(s, i + 1, i + 1, acc.push(t));
            lemma_scan_ws_fwd(s, i);
            let k = scan_ws_fwd(s, i);
            assert(k == scan_ws_fwd(s, i + 1));
            assert(k < s.len()) by {
                if k == s.len() {
                    assert(is_ws_char(s[s.len() - 1]));
                }
            }
            let e = collapse_from(s, k);
            assert(e.len() > 0);
            assert(tok_tail(s, i + 1, i + 1) == e);
            assert(collapse_from(s, i) == seq![' '] + e);
            if a.len() == 0 {
                assert(glue(glue(a, t), e) =~= t + seq![' '] + e);
                assert(tok_tail(s, i, start) =~= t + seq![' '] + e);
            } else {
                assert(glue(glue(a, t), e) =~= a + seq![' '] + (t + seq![' '] + e));
                assert(glue(a, tok_tail(s, i, start)) =~= a + seq![' '] + (t + seq![' '] + e));
            }
        } else if is_ws_char(c) {
            lemma_tok_join(s, i + 1, i + 1, acc);
            assert(scan_ws_fwd(s, i) == scan_ws_fwd(s, i + 1));
        } else {
            lemma_tok_join(s, i + 1, start, acc);
            if start < i {
                assert(tok_tail(s, i + 1, start) =~= tok_tail(s, i, start)) by {
                    assert(collapse_from(s, i) == seq![s[i]] + collapse_from(s, i + 1));
                    assert(s.subrange(start, i + 1) =~= s.subrange(start, i) + seq![s[i]]);
                    assert(s.subrange(start, i) + (seq![s[i]] + collapse_from(s, i + 1)) =~= (
                    s.subrange(start, i) + seq![s[i]]) + collapse_from(s, i + 1));
                }
            } else {
                assert(scan_ws_fwd(s, i) == i);
                assert(tok_tail(s, i + 1, start) =~= tok_tail(s, i, start)) by {
                    assert(collapse_from(s, i) == seq![s[i]] + collapse_from(s, i + 1));
                    assert(s.subrange(i, i + 1) =~= seq![s[i]]);
                }
            }
        }
    }
}

/// Law: for attribute text free of quote characters, tokenization
/// succeeds, and the tokens joined with single spaces rebuild the input
/// with its ends trimmed and every white-space run collapsed to one
/// space.  With quotes present this can fail to hold: a quote opened in
/// the middle of an unquoted token discards the characters accumulated
/// before it.
pub proof fn lemma_tokenize_join_quote_free(s: Seq<char>)
    requires
        forall|k: int| 0 <= k < s.len() ==> !is_quote_char(s[k]),
    ensures
        tokenize_spec(s) matches Some(toks) && join_tokens(toks) == collapse_from(
            trim_spec(s),
            0,
        ),
{
    let t = trim_spec(s);
    let n = s.len() as int;
    let lo = scan_ws_fwd(s, 0);
    let hi = scan_ws_back(s, n);
    lemma_scan_ws_fwd(s, 0);
    lemma_scan_ws_back(s, n);
    assert(forall|k: int| 0 <= k < t.len() ==> !is_quote_char(t[k]));
    assert(t.len() > 0 ==> !is_ws_char(t[t.len() - 1]));
    lemma_tok_join(t, 0, 0, Seq::empty());
    if t.len() > 0 {
        assert(!is_ws_char(t[0]));
        assert(scan_ws_fwd(t, 0) == 0);
    }
}

} // verus!
