//! Shell-like line tokenizer: splits a line on ASCII whitespace, then repairs
//! tokens that straddle an unbalanced quote character by merging a token that
//! ends with the quote into a preceding result token that starts with it.
//! The repair is a heuristic: a single stray quote can merge imprecisely, but
//! the tokenizer always returns some token sequence and never fails.

use vstd::prelude::*;

use crate::text::char_is_ws;
use crate::text::is_ws;
use crate::text::push_char;
use vstd::string::StrSliceExecFns;
use vstd::string::StringExecFns;

verus! {

/// Length of the whitespace-free run at the front of `s`.
pub open spec fn token_len(s: Seq<char>) -> int
    decreases s.len(),
{
    if s.len() == 0 || is_ws(s[0]) {
        0
    } else {
        1 + token_len(s.skip(1))
    }
}

pub proof fn lemma_token_len_bounds(s: Seq<char>)
    ensures
        0 <= token_len(s) <= s.len(),
        s.len() > 0 && !is_ws(s[0]) ==> token_len(s) >= 1,
    decreases s.len(),
{
    if s.len() > 0 && !is_ws(s[0]) {
        lemma_token_len_bounds(s.skip(1));
    }
}

/// `token_len` is exactly the first whitespace position (or the end).
pub proof fn lemma_token_len_run(s: Seq<char>, m: int)
    requires
        0 <= m <= s.len(),
        forall|k: int| 0 <= k < m ==> !is_ws(s[k]),
        m == s.len() || is_ws(s[m]),
    ensures
        token_len(s) == m,
    decreases s.len(),
{
    if m > 0 {
        assert(!is_ws(s[0]));
        assert(forall|k: int| 0 <= k < m - 1 ==> s.skip(1)[k] == s[k + 1]);
        lemma_token_len_run(s.skip(1), m - 1);
    }
}

/// The whitespace split of `s`: the maximal whitespace-free runs, in order.
pub open spec fn split_ws(s: Seq<char>) -> Seq<Seq<char>>
    decreases s.len(),
    via split_ws_decreases
{
    if s.len() == 0 {
        Seq::empty()
    } else if is_ws(s[0]) {
        split_ws(s.skip(1))
    } else {
        seq![s.take(token_len(s))] + split_ws(s.skip(token_len(s)))
    }
}

#[via_fn]
proof fn split_ws_decreases(s: Seq<char>) {
    lemma_token_len_bounds(s);
}

/// Does the token start with the quote character?
pub open spec fn starts_with_quote(t: Seq<char>, q: char) -> bool {
    t.len() > 0 && t[0] == q
}

/// Does the token end with the quote character?
pub open spec fn ends_with_quote(t: Seq<char>, q: char) -> bool {
    t.len() > 0 && t.last() == q
}

/// The repair rule: the current token ends with the quote character without
/// starting with it, and the previous result token starts with the quote
/// character without ending with it.
pub open spec fn should_merge(prev: Seq<char>, cur: Seq<char>, q: char) -> bool {
    ends_with_quote(cur, q) && !starts_with_quote(cur, q) && starts_with_quote(prev, q)
        && !ends_with_quote(prev, q)
}

/// The repair pass over a chunk sequence: each chunk after the first either
/// merges (with a single space) into the last result token or is appended.
pub open spec fn merge_quoted(chunks: Seq<Seq<char>>, q: char) -> Seq<Seq<char>>
    decreases chunks.len(),
{
    if chunks.len() == 0 {
        Seq::empty()
    } else {
        let r = merge_quoted(chunks.drop_last(), q);
        let cur = chunks.last();
        if chunks.len() > 1 && r.len() > 0 && should_merge(r.last(), cur, q) {
            r.update(r.len() - 1, r.last() + seq![' '] + cur)
        } else {
            r.push(cur)
        }
    }
}

/// What `tokenize` returns: whitespace split, then quote repair.
pub open spec fn tokens_of(line: Seq<char>, q: char) -> Seq<Seq<char>> {
    merge_quoted(split_ws(line), q)
}

/// The character sequences of a vector of strings.
pub open spec fn views_of(v: Seq<String>) -> Seq<Seq<char>> {
    v.map_values(|s: String| s@)
}

/// The repair pass never returns fewer than one token for a nonempty split,
/// nor more tokens than it was given.
pub proof fn lemma_merge_quoted_len(chunks: Seq<Seq<char>>, q: char)
    ensures
        chunks.len() > 0 ==> 1 <= merge_quoted(chunks, q).len() <= chunks.len(),
        chunks.len() == 0 ==> merge_quoted(chunks, q).len() == 0,
    decreases chunks.len(),
{
    if chunks.len() > 0 {
        lemma_merge_quoted_len(chunks.drop_last(), q);
    }
}

/// A line holding any non-whitespace character splits into at least one
/// chunk.
pub proof fn lemma_split_ws_nonempty(s: Seq<char>)
    requires
        exists|i: int| 0 <= i < s.len() && !is_ws(s[i]),
    ensures
        split_ws(s).len() >= 1,
    decreases s.len(),
{
    let i = choose|i: int| 0 <= i < s.len() && !is_ws(s[i]);
    if is_ws(s[0]) {
        assert(0 <= i - 1 < s.skip(1).len() && !is_ws(s.skip(1)[i - 1]));
        lemma_split_ws_nonempty(s.skip(1));
    }
}

/// The tokenizer never returns an empty sequence for a line that holds any
/// non-whitespace character: malformed quoting degrades the merge, never the
/// split.
pub proof fn lemma_tokens_nonempty(line: Seq<char>, q: char)
    requires
        exists|i: int| 0 <= i < line.len() && !is_ws(line[i]),
    ensures
        tokens_of(line, q).len() >= 1,
{
    lemma_split_ws_nonempty(line);
    lemma_merge_quoted_len(split_ws(line), q);
}

/// Split a line into whitespace-separated chunks.
fn split_chunks(line: &str) -> (chunks: Vec<String>)
    ensures
        views_of(chunks@) == split_ws(line@),
{
    let len = line.unicode_len();
    let mut chunks: Vec<String> = Vec::new();
    let mut i: usize = 0;
    assert(line@.skip(0) =~= line@);
    while i < len
        invariant
            0 <= i <= len == line@.len(),
            split_ws(line@) =~= views_of(chunks@) + split_ws(line@.skip(i as int)),
        decreases len - i,
    {
        if char_is_ws(line.get_char(i)) {
            proof {
                assert(line@.skip(i as int).skip(1) =~= line@.skip(i + 1));
            }
            i = i + 1;
        } else {
            let ghost rest = line@.skip(i as int);
            let mut j = i + 1;
            while j < len
                invariant
                    i < j <= len == line@.len(),
                    forall|k: int| i <= k < j ==> !is_ws(line@[k]),
                ensures
                    i < j <= len,
                    forall|k: int| i <= k < j ==> !is_ws(line@[k]),
                    j == len || is_ws(line@[j as int]),
                decreases len - j,
            {
                if char_is_ws(line.get_char(j)) {
                    break;
                }
                j = j + 1;
            }
            proof {
                assert(forall|k: int| 0 <= k < j - i ==> rest[k] == line@[i + k]);
                lemma_token_len_run(rest, j - i);
                assert(rest.take(j - i) =~= line@.subrange(i as int, j as int));
                assert(rest.skip(j - i) =~= line@.skip(j as int));
            }
            let tok = line.substring_char(i, j).to_owned();
            chunks.push(tok);
            proof {
                assert(views_of(chunks@) =~= views_of(chunks@.drop_last()).push(
                    line@.subrange(i as int, j as int),
                ));
                assert(views_of(chunks@) + split_ws(line@.skip(j as int)) =~= views_of(
                    chunks@.drop_last(),
                ) + split_ws(line@.skip(i as int)));
            }
            i = j;
        }
    }
    assert(split_ws(line@.skip(i as int)) =~= Seq::<Seq<char>>::empty());
    assert(views_of(chunks@) =~= views_of(chunks@) + Seq::<Seq<char>>::empty());
    chunks
}

/// Split `line` into shell-like tokens: whitespace split plus quote repair.
pub fn tokenize(line: &str, quote: char) -> (r: Vec<String>)
    ensures
        views_of(r@) == tokens_of(line@, quote),
{
    let chunks = split_chunks(line);
    let ghost cviews = views_of(chunks@);
    let mut result: Vec<String> = Vec::new();
    let mut k: usize = 0;
    assert(cviews.take(0) =~= Seq::<Seq<char>>::empty());
    while k < chunks.len()
        invariant
            0 <= k <= chunks.len(),
            cviews == views_of(chunks@),
            views_of(result@) =~= merge_quoted(cviews.take(k as int), quote),
        decreases chunks.len() - k,
    {
        let cur = &chunks[k];
        let cur_len = cur.as_str().unicode_len();
        let mut do_merge = false;
        if k > 0 && result.len() > 0 && cur_len > 0 {
            let rl = result.len();
            let prev = &result[rl - 1];
            let prev_len = prev.as_str().unicode_len();
            if prev_len > 0 {
                do_merge = cur.as_str().get_char(cur_len - 1) == quote
                    && cur.as_str().get_char(0) != quote && prev.as_str().get_char(0) == quote
                    && prev.as_str().get_char(prev_len - 1) != quote;
            }
        }
        proof {
            let t = cviews.take(k + 1);
            assert(t.drop_last() =~= cviews.take(k as int));
            assert(t.last() == cviews[k as int]);
            assert(do_merge == (k + 1 > 1 && views_of(result@).len() > 0 && should_merge(
                views_of(result@).last(),
                cviews[k as int],
                quote,
            )));
        }
        if do_merge {
            let rl = result.len();
            let mut merged = result[rl - 1].clone();
            push_char(&mut merged, ' ');
            merged.append(cur.as_str());
            result.set(rl - 1, merged);
            proof {
                assert(views_of(result@) =~~= merge_quoted(cviews.take(k as int), quote).update(
                    merge_quoted(cviews.take(k as int), quote).len() - 1,
                    merge_quoted(cviews.take(k as int), quote).last() + seq![' ']
                        + cviews[k as int],
                ));
            }
        } else {
            result.push(cur.clone());
            proof {
                assert(views_of(result@) =~= merge_quoted(cviews.take(k as int), quote).push(
                    cviews[k as int],
                ));
            }
        }
        k = k + 1;
    }
    assert(cviews.take(chunks@.len() as int) =~= cviews);
    result
}

} // verus!
