//! Character-level text primitives shared by the console: prefix/suffix and
//! substring tests, locating the start of the buffer's last line, and small
//! executable helpers over `String` proved against `Seq<char>` views.

use vstd::prelude::*;
use vstd::string::StrSliceExecFns;
use vstd::string::StringExecFns;

verus! {

/// True for the characters that ASCII-whitespace splitting breaks on.
pub open spec fn is_ws(c: char) -> bool {
    c == ' ' || c == '\t' || c == '\n' || c == '\r' || c == '\x0c'
}

/// `p` is a prefix of `s`.
pub open spec fn is_prefix(p: Seq<char>, s: Seq<char>) -> bool {
    p.len() <= s.len() && s.subrange(0, p.len() as int) == p
}

/// `p` is a suffix of `s`.
pub open spec fn is_suffix(p: Seq<char>, s: Seq<char>) -> bool {
    p.len() <= s.len() && s.subrange(s.len() - p.len(), s.len() as int) == p
}

/// `needle` occurs in `s` starting at offset `i`.
pub open spec fn occurs_at(s: Seq<char>, needle: Seq<char>, i: int) -> bool {
    0 <= i && i + needle.len() <= s.len() && s.subrange(i, i + needle.len()) == needle
}

/// `needle` occurs somewhere in `s`.
pub open spec fn contains_seq(s: Seq<char>, needle: Seq<char>) -> bool {
    exists|i: int| occurs_at(s, needle, i)
}

/// Character offset just after the last `'\n'` of `s`, or 0 if `s` has none:
/// where the buffer's last line starts.
pub open spec fn line_start(s: Seq<char>) -> int
    decreases s.len(),
{
    if s.len() == 0 {
        0
    } else if s.last() == '\n' {
        s.len() as int
    } else {
        line_start(s.drop_last())
    }
}

/// The last line of `s` (everything after the last newline).
pub open spec fn last_line(s: Seq<char>) -> Seq<char> {
    s.subrange(line_start(s), s.len() as int)
}

pub proof fn lemma_line_start_bounds(s: Seq<char>)
    ensures
        0 <= line_start(s) <= s.len(),
    decreases s.len(),
{
    if s.len() > 0 && s.last() != '\n' {
        lemma_line_start_bounds(s.drop_last());
    }
}

/// Appending newline-free text does not move the last line's start.
pub proof fn lemma_line_start_append(s: Seq<char>, t: Seq<char>)
    requires
        forall|i: int| 0 <= i < t.len() ==> t[i] != '\n',
    ensures
        line_start(s + t) == line_start(s),
    decreases t.len(),
{
    if t.len() == 0 {
        assert(s + t =~= s);
    } else {
        assert((s + t).last() == t.last());
        assert((s + t).drop_last() =~= s + t.drop_last());
        lemma_line_start_append(s, t.drop_last());
    }
}

/// Truncating a buffer at the start of its last line leaves a buffer whose
/// own last line is empty.
pub proof fn lemma_line_start_of_scrollback(s: Seq<char>)
    ensures
        line_start(s.take(line_start(s))) == line_start(s),
    decreases s.len(),
{
    lemma_line_start_bounds(s);
    if s.len() == 0 {
    } else if s.last() == '\n' {
        assert(s.take(line_start(s)) =~= s);
    } else {
        lemma_line_start_bounds(s.drop_last());
        assert(s.take(line_start(s)) =~= s.drop_last().take(line_start(s.drop_last())));
        lemma_line_start_of_scrollback(s.drop_last());
    }
}

/// Executable check for ASCII whitespace.
pub fn char_is_ws(c: char) -> (r: bool)
    ensures
        r == is_ws(c),
{
    c == ' ' || c == '\t' || c == '\n' || c == '\r' || c == '\x0c'
}

/// Relies on std's `String::push`: appends exactly one character.
#[verifier::external_body]
pub fn push_char(s: &mut String, c: char)
    ensures
        final(s)@ == old(s)@.push(c),
{
    s.push(c);
}

/// Character offset of the start of the last line of `s`.
pub fn find_line_start(s: &str) -> (r: usize)
    ensures
        r == line_start(s@),
{
    let len = s.unicode_len();
    let mut i = len;
    assert(s@.take(len as int) =~= s@);
    while i > 0
        invariant
            i <= len == s@.len(),
            line_start(s@) == line_start(s@.take(i as int)),
        decreases i,
    {
        if s.get_char(i - 1) == '\n' {
            return i;
        }
        assert(s@.take(i as int).drop_last() =~= s@.take(i - 1 as int));
        i = i - 1;
    }
    0
}

/// Does `s` start with `p`?
pub fn str_starts_with(s: &str, p: &str) -> (r: bool)
    ensures
        r == is_prefix(p@, s@),
{
    let sl = s.unicode_len();
    let pl = p.unicode_len();
    if pl > sl {
        return false;
    }
    let mut i: usize = 0;
    while i < pl
        invariant
            0 <= i <= pl <= sl,
            pl == p@.len(),
            sl == s@.len(),
            forall|j: int| 0 <= j < i ==> s@[j] == p@[j],
        decreases pl - i,
    {
        if s.get_char(i) != p.get_char(i) {
            assert(s@.subrange(0, pl as int) != p@);
            return false;
        }
        i = i + 1;
    }
    assert(s@.subrange(0, pl as int) =~= p@);
    true
}

/// Does `s` end with `p`?
pub fn str_ends_with(s: &str, p: &str) -> (r: bool)
    ensures
        r == is_suffix(p@, s@),
{
    let sl = s.unicode_len();
    let pl = p.unicode_len();
    if pl > sl {
        return false;
    }
    let off = sl - pl;
    let mut i: usize = 0;
    while i < pl
        invariant
            0 <= i <= pl <= sl,
            off == sl - pl,
            pl == p@.len(),
            sl == s@.len(),
            forall|j: int| 0 <= j < i ==> s@[off + j] == p@[j],
        decreases pl - i,
    {
        if s.get_char(off + i) != p.get_char(i) {
            assert(s@.subrange(off as int, sl as int)[i as int] != p@[i as int]);
            return false;
        }
        i = i + 1;
    }
    assert(s@.subrange(off as int, sl as int) =~= p@);
    true
}

/// Does `needle` occur in `s` at offset `at`?
fn occurs_here(s: &str, needle: &str, at: usize) -> (r: bool)
    requires
        at + needle@.len() <= s@.len(),
    ensures
        r == occurs_at(s@, needle@, at as int),
{
    let sl = s.unicode_len();
    let nl = needle.unicode_len();
    let mut i: usize = 0;
    while i < nl
        invariant
            0 <= i <= nl == needle@.len(),
            sl == s@.len(),
            at + nl <= sl,
            forall|j: int| 0 <= j < i ==> s@[at + j] == needle@[j],
        decreases nl - i,
    {
        if s.get_char(at + i) != needle.get_char(i) {
            assert(s@.subrange(at as int, at + nl)[i as int] != needle@[i as int]);
            return false;
        }
        i = i + 1;
    }
    assert(s@.subrange(at as int, at + nl) =~= needle@);
    true
}

/// Does `needle` occur anywhere in `s` (as a contiguous run of characters)?
pub fn str_contains(s: &str, needle: &str) -> (r: bool)
    ensures
        r == contains_seq(s@, needle@),
{
    let sl = s.unicode_len();
    let nl = needle.unicode_len();
    if nl > sl {
        assert(forall|i: int| !occurs_at(s@, needle@, i));
        return false;
    }
    if nl == 0 {
        assert(s@.subrange(0, 0) =~= needle@);
        assert(occurs_at(s@, needle@, 0));
        return true;
    }
    let mut at: usize = 0;
    while at <= sl - nl
        invariant
            0 <= at <= sl - nl + 1,
            1 <= nl <= sl,
            sl == s@.len(),
            nl == needle@.len(),
            forall|j: int| 0 <= j < at ==> !occurs_at(s@, needle@, j),
        decreases sl - nl - at + 1,
    {
        if occurs_here(s, needle, at) {
            return true;
        }
        at = at + 1;
    }
    assert(forall|i: int| at <= i ==> !occurs_at(s@, needle@, i));
    false
}

/// Does `s` contain the character `c`?
pub fn str_contains_char(s: &str, c: char) -> (r: bool)
    ensures
        r == s@.contains(c),
{
    let len = s.unicode_len();
    let mut i: usize = 0;
    while i < len
        invariant
            0 <= i <= len == s@.len(),
            forall|j: int| 0 <= j < i ==> s@[j] != c,
        decreases len - i,
    {
        if s.get_char(i) == c {
            assert(s@.contains(c));
            return true;
        }
        i = i + 1;
    }
    assert(forall|j: int| 0 <= j < s@.len() ==> s@[j] != c);
    false
}

/// Do `a` and `b` hold the same characters?
pub fn str_eq(a: &str, b: &str) -> (r: bool)
    ensures
        r == (a@ == b@),
{
    let al = a.unicode_len();
    let bl = b.unicode_len();
    if al != bl {
        return false;
    }
    let r = str_starts_with(a, b);
    proof {
        assert(a@.subrange(0, b@.len() as int) =~= a@);
    }
    r
}

/// The first `n` characters of `s`, as a fresh `String`.
pub fn str_take(s: &str, n: usize) -> (r: String)
    requires
        n <= s@.len(),
    ensures
        r@ == s@.take(n as int),
{
    let r = s.substring_char(0, n).to_owned();
    assert(r@ =~= s@.take(n as int));
    r
}

/// The characters of `s` from position `n` on, as a fresh `String`.
pub fn str_skip(s: &str, n: usize) -> (r: String)
    requires
        n <= s@.len(),
    ensures
        r@ == s@.skip(n as int),
{
    let len = s.unicode_len();
    let r = s.substring_char(n, len).to_owned();
    assert(r@ =~= s@.skip(n as int));
    r
}

} // verus!
