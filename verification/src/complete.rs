//! The pure half of filesystem path completion. Given a completion prefix,
//! plan which directory to list (the prefix itself when it is a directory,
//! else its parent, else the current-directory marker), and given that
//! directory's entries in iteration order, pick the n-th entry whose rendered
//! path starts with the prefix. Listing the directory is the environment's
//! job; everything here is a function of plain values.

use vstd::prelude::*;

use crate::text::is_prefix;
use crate::text::str_contains_char;
use crate::text::str_eq;
use crate::text::str_starts_with;
use crate::text::str_take;
use crate::tokenizer::views_of;
use vstd::string::StrSliceExecFns;
use vstd::string::StringExecFns;

verus! {

/// Is `c` a path separator? A backslash only counts under Windows path syntax.
pub open spec fn is_sep(c: char, windows: bool) -> bool {
    c == '/' || (windows && c == '\\')
}

/// Index of the last separator of `s`, or -1 if `s` has none.
pub open spec fn last_sep(s: Seq<char>, windows: bool) -> int
    decreases s.len(),
{
    if s.len() == 0 {
        -1
    } else if is_sep(s.last(), windows) {
        s.len() - 1
    } else {
        last_sep(s.drop_last(), windows)
    }
}

pub proof fn lemma_last_sep_bounds(s: Seq<char>, windows: bool)
    ensures
        -1 <= last_sep(s, windows) < s.len(),
    decreases s.len(),
{
    if s.len() > 0 && !is_sep(s.last(), windows) {
        lemma_last_sep_bounds(s.drop_last(), windows);
    }
}

/// The current-directory marker for a prefix: `.\` under Windows path syntax
/// when the prefix contains a backslash, `./` otherwise.
pub open spec fn marker_of(search: Seq<char>, windows: bool) -> Seq<char> {
    if windows && search.contains('\\') {
        ".\\"@
    } else {
        "./"@
    }
}

/// A bare `..` becomes an explicit relative-parent-plus-separator form.
pub open spec fn dot_dot_fix(p: Seq<char>, marker: Seq<char>) -> Seq<char> {
    if p == ".."@ {
        seq!['.'] + marker
    } else {
        p
    }
}

/// How one directory listing serves a completion query.
pub struct ListingPlan {
    /// The directory whose entries are to be listed.
    pub dir: String,
    /// The current-directory marker was substituted for an empty parent and
    /// must be stripped from every returned path.
    pub added_dot: bool,
    /// The marker in force for this query.
    pub marker: String,
}

/// Ghost image of a `ListingPlan`.
pub ghost struct PlanModel {
    pub dir: Seq<char>,
    pub added_dot: bool,
    pub marker: Seq<char>,
}

impl View for ListingPlan {
    type V = PlanModel;

    open spec fn view(&self) -> PlanModel {
        PlanModel { dir: self.dir@, added_dot: self.added_dot, marker: self.marker@ }
    }
}

/// Which directory a completion prefix asks to list: the prefix itself when
/// it denotes an existing directory, else its parent (one step up), else the
/// current-directory marker; an empty prefix with no parent asks nothing.
pub open spec fn plan_of(search: Seq<char>, search_is_dir: bool, windows: bool) -> Option<
    PlanModel,
> {
    let marker = marker_of(search, windows);
    if search_is_dir {
        Some(PlanModel { dir: dot_dot_fix(search, marker), added_dot: false, marker })
    } else if search.len() == 0 {
        None
    } else {
        let ls = last_sep(search, windows);
        if ls == -1 {
            Some(PlanModel { dir: marker, added_dot: true, marker })
        } else {
            let parent = if ls == 0 {
                search.take(1)
            } else {
                search.take(ls)
            };
            if parent == "."@ {
                Some(PlanModel { dir: marker, added_dot: false, marker })
            } else {
                Some(PlanModel { dir: dot_dot_fix(parent, marker), added_dot: false, marker })
            }
        }
    }
}

/// Index of the last separator of `s`, or None.
fn find_last_sep(s: &str, windows: bool) -> (r: Option<usize>)
    ensures
        match r {
            Some(i) => last_sep(s@, windows) == i,
            None => last_sep(s@, windows) == -1,
        },
{
    let len = s.unicode_len();
    let mut i = len;
    assert(s@.take(len as int) =~= s@);
    while i > 0
        invariant
            i <= len == s@.len(),
            last_sep(s@, windows) == last_sep(s@.take(i as int), windows),
        decreases i,
    {
        let c = s.get_char(i - 1);
        if c == '/' || (windows && c == '\\') {
            return Some(i - 1);
        }
        assert(s@.take(i as int).drop_last() =~= s@.take(i - 1 as int));
        i = i - 1;
    }
    None
}

/// Compute the listing plan for a completion prefix. `search_is_dir` says
/// whether the prefix names an existing directory; `windows` whether Windows
/// path syntax is in force.
pub fn completion_plan(search: &str, search_is_dir: bool, windows: bool) -> (r: Option<
    ListingPlan,
>)
    ensures
        match r {
            Some(plan) => plan_of(search@, search_is_dir, windows) == Some(plan@),
            None => plan_of(search@, search_is_dir, windows) is None,
        },
{
    let marker: &str = if windows && str_contains_char(search, '\\') {
        ".\\"
    } else {
        "./"
    };
    proof {
        assert(marker@ == marker_of(search@, windows));
    }
    if search_is_dir {
        let dir = fix_dot_dot(search, marker);
        return Some(ListingPlan { dir, added_dot: false, marker: marker.to_owned() });
    }
    if search.unicode_len() == 0 {
        return None;
    }
    match find_last_sep(search, windows) {
        None => Some(ListingPlan { dir: marker.to_owned(), added_dot: true, marker: marker.to_owned() }),
        Some(ls) => {
            proof {
                lemma_last_sep_bounds(search@, windows);
            }
            let parent = if ls == 0 {
                str_take(search, 1)
            } else {
                str_take(search, ls)
            };
            if str_eq(parent.as_str(), ".") {
                Some(ListingPlan { dir: marker.to_owned(), added_dot: false, marker: marker.to_owned() })
            } else {
                let dir = fix_dot_dot(parent.as_str(), marker);
                Some(ListingPlan { dir, added_dot: false, marker: marker.to_owned() })
            }
        },
    }
}

/// Replace a bare `..` by the explicit relative-parent form.
fn fix_dot_dot(p: &str, marker: &str) -> (r: String)
    ensures
        r@ == dot_dot_fix(p@, marker@),
{
    if str_eq(p, "..") {
        let mut r = ".".to_owned();
        r.append(marker);
        proof {
            reveal_strlit(".");
            assert(r@ =~= seq!['.'] + marker@);
        }
        r
    } else {
        p.to_owned()
    }
}

/// The n-th directory entry serving a completion query, scanning `entries`
/// in order. When the plan substituted the current-directory marker, each
/// entry is first stripped of the marker (a failure to strip abandons the
/// whole scan); an entry counts when the (stripped) path starts with the
/// prefix.
pub open spec fn nth_match_model(
    entries: Seq<Seq<char>>,
    search: Seq<char>,
    added_dot: bool,
    marker: Seq<char>,
    nth: nat,
) -> Option<Seq<char>>
    decreases entries.len(),
{
    if entries.len() == 0 {
        None
    } else {
        let e0 = entries[0];
        if added_dot && !is_prefix(marker, e0) {
            None
        } else {
            let cand = if added_dot {
                e0.skip(marker.len() as int)
            } else {
                e0
            };
            if is_prefix(search, cand) {
                if nth == 0 {
                    Some(cand)
                } else {
                    nth_match_model(entries.skip(1), search, added_dot, marker, (nth - 1) as nat)
                }
            } else {
                nth_match_model(entries.skip(1), search, added_dot, marker, nth)
            }
        }
    }
}

/// Pick the `nth` (0-based) matching entry, or None when fewer exist or a
/// marker strip fails.
pub fn nth_match(
    entries: &Vec<String>,
    search: &str,
    added_dot: bool,
    marker: &str,
    nth: usize,
) -> (r: Option<String>)
    ensures
        match r {
            Some(s) => nth_match_model(views_of(entries@), search@, added_dot, marker@, nth as nat)
                == Some(s@),
            None => nth_match_model(views_of(entries@), search@, added_dot, marker@, nth as nat)
                is None,
        },
{
    let ghost full = views_of(entries@);
    let mut i: usize = 0;
    let mut n: usize = nth;
    assert(full.skip(0) =~= full);
    while i < entries.len()
        invariant
            0 <= i <= entries@.len(),
            full == views_of(entries@),
            n <= nth,
            nth_match_model(full, search@, added_dot, marker@, nth as nat) == nth_match_model(
                full.skip(i as int),
                search@,
                added_dot,
                marker@,
                n as nat,
            ),
        decreases entries@.len() - i,
    {
        proof {
            assert(full.skip(i as int)[0] == full[i as int]);
            assert(full.skip(i as int).skip(1) =~= full.skip(i + 1));
        }
        let e = &entries[i];
        if added_dot && !str_starts_with(e.as_str(), marker) {
            return None;
        }
        let cand: String = if added_dot {
            let el = e.as_str().unicode_len();
            let ml = marker.unicode_len();
            e.as_str().substring_char(ml, el).to_owned()
        } else {
            e.clone()
        };
        proof {
            if added_dot {
                assert(cand@ =~= full[i as int].skip(marker@.len() as int));
            }
        }
        if str_starts_with(cand.as_str(), search) {
            if n == 0 {
                return Some(cand);
            }
            n = n - 1;
        }
        i = i + 1;
    }
    assert(full.skip(entries@.len() as int) =~= Seq::<Seq<char>>::empty());
    None
}

/// The matching entries of a listing, in scan order (defined when every
/// entry strips cleanly).
pub open spec fn match_list(
    entries: Seq<Seq<char>>,
    search: Seq<char>,
    added_dot: bool,
    marker: Seq<char>,
) -> Seq<Seq<char>>
    decreases entries.len(),
{
    if entries.len() == 0 {
        Seq::empty()
    } else {
        let e0 = entries[0];
        let cand = if added_dot {
            e0.skip(marker.len() as int)
        } else {
            e0
        };
        let rest = match_list(entries.skip(1), search, added_dot, marker);
        if is_prefix(search, cand) {
            seq![cand] + rest
        } else {
            rest
        }
    }
}

/// Every entry carries the marker when one was added, so no scan aborts.
pub open spec fn strips_cleanly(entries: Seq<Seq<char>>, added_dot: bool, marker: Seq<char>) -> bool {
    added_dot ==> forall|i: int| 0 <= i < entries.len() ==> is_prefix(marker, entries[i])
}

/// On a listing that strips cleanly, the n-th match is exactly the n-th
/// element of the match list, and None past its end.
pub proof fn lemma_nth_match_is_indexing(
    entries: Seq<Seq<char>>,
    search: Seq<char>,
    added_dot: bool,
    marker: Seq<char>,
    nth: nat,
)
    requires
        strips_cleanly(entries, added_dot, marker),
    ensures
        nth_match_model(entries, search, added_dot, marker, nth) == if nth < match_list(
            entries,
            search,
            added_dot,
            marker,
        ).len() {
            Some(match_list(entries, search, added_dot, marker)[nth as int])
        } else {
            None::<Seq<char>>
        },
    decreases entries.len(),
{
    if entries.len() > 0 {
        assert(forall|i: int|
            0 <= i < entries.skip(1).len() ==> entries.skip(1)[i] == entries[i + 1]);
        let e0 = entries[0];
        let cand = if added_dot {
            e0.skip(marker.len() as int)
        } else {
            e0
        };
        if is_prefix(search, cand) && nth > 0 {
            lemma_nth_match_is_indexing(entries.skip(1), search, added_dot, marker, (nth - 1) as nat);
        } else {
            lemma_nth_match_is_indexing(entries.skip(1), search, added_dot, marker, nth);
        }
    }
}

/// The next completion ordinal: one more, saturating at the machine bound.
pub open spec fn inc_sat(n: nat) -> nat {
    if n + 1 <= usize::MAX as nat {
        n + 1
    } else {
        n
    }
}

/// The ordinal handed to the completion source on the `j`-th Tab press of an
/// uninterrupted session (1-based), when the prefix has `k` matches: it
/// counts up from 0 and wraps to 0 as soon as it would reach `k`.
pub open spec fn tab_ordinal(j: nat, k: nat) -> nat
    decreases j,
{
    if j <= 1 {
        0
    } else if tab_ordinal((j - 1) as nat, k) + 1 == k {
        0
    } else {
        tab_ordinal((j - 1) as nat, k) + 1
    }
}

/// Tab-cycle: with exactly `k >= 1` matches, the first `k` presses walk the
/// matches in order.
pub proof fn lemma_tab_cycle(j: nat, k: nat)
    requires
        1 <= j <= k,
    ensures
        tab_ordinal(j, k) == j - 1,
    decreases j,
{
    if j > 1 {
        lemma_tab_cycle((j - 1) as nat, k);
    }
}

/// Tab-cycle wrap-around: the `(k + 1)`-th press returns to the first match.
pub proof fn lemma_tab_wrap(k: nat)
    requires
        1 <= k,
    ensures
        tab_ordinal(k + 1, k) == 0,
{
    lemma_tab_cycle(k, k);
}

/// Tab-cycle on a concrete listing: pressing Tab `j <= k` times shows the
/// `j`-th match, and the `(k + 1)`-th press shows the first again.
pub proof fn lemma_tab_cycle_matches(
    entries: Seq<Seq<char>>,
    search: Seq<char>,
    added_dot: bool,
    marker: Seq<char>,
    j: nat,
)
    requires
        strips_cleanly(entries, added_dot, marker),
        match_list(entries, search, added_dot, marker).len() >= 1,
        1 <= j <= match_list(entries, search, added_dot, marker).len() + 1,
    ensures
        ({
            let k = match_list(entries, search, added_dot, marker).len();
            let shown = nth_match_model(entries, search, added_dot, marker, tab_ordinal(j, k));
            if j <= k {
                shown == Some(match_list(entries, search, added_dot, marker)[j - 1])
            } else {
                shown == Some(match_list(entries, search, added_dot, marker)[0])
            }
        }),
{
    let k = match_list(entries, search, added_dot, marker).len();
    if j <= k {
        lemma_tab_cycle(j, k);
    } else {
        lemma_tab_wrap(k);
    }
    lemma_nth_match_is_indexing(entries, search, added_dot, marker, tab_ordinal(j, k));
}

} // verus!
