//! The mathematical model of the console window: a ghost image of its state
//! and one spec function per state transition. The executable methods of
//! `ConsoleWindow` promise in their contracts to realize exactly these
//! transitions; the laws at the end are proved of the transitions alone.

use vstd::prelude::*;

use crate::complete::inc_sat;
use crate::complete::lemma_nth_match_is_indexing;
use crate::complete::match_list;
use crate::complete::nth_match_model;
use crate::complete::strips_cleanly;
use crate::history::push_model;
use crate::keys::Key;
use crate::keys::Modifiers;
use crate::text::contains_seq;
use crate::text::is_prefix;
use crate::text::last_line;
use crate::text::lemma_line_start_append;
use crate::text::lemma_line_start_bounds;
use crate::text::lemma_line_start_of_scrollback;
use crate::text::line_start;
use crate::tokenizer::tokens_of;
use vstd::math::min;

verus! {

/// Ghost image of the console state.
#[verifier::ext_equal]
pub ghost struct ConsoleModel {
    /// The whole transcript: scrollback, prompt, and the editable line.
    pub text: Seq<char>,
    /// A pending force-caret-to-end request, good for one correction cycle.
    pub force_end: bool,
    /// Past submitted lines, oldest first.
    pub history: Seq<Seq<char>>,
    /// The history store's fixed capacity.
    pub capacity: nat,
    /// Which history entry the editable line currently shows, if browsing.
    pub cursor: Option<int>,
    /// The prompt currently rendered at the start of the editable line.
    pub prompt: Seq<char>,
    /// The prompt to restore when reverse search ends.
    pub save_prompt: Seq<char>,
    /// The reverse-search query, present exactly while searching.
    pub search: Option<Seq<char>>,
    /// The active tab-completion prefix; empty when no cycle is running.
    pub tab_prefix: Seq<char>,
    /// The ordinal of the match most recently asked for.
    pub tab_nth: nat,
    /// Where in the buffer the completed token begins.
    pub tab_offset: nat,
    /// Whether the most recent replacement was quote-wrapped.
    pub tab_quoted: bool,
    /// The quote character used by tokenizing and wrapping.
    pub tab_quote: char,
}

/// The fixed text of the reverse-search prompt before the query slot.
pub open spec fn search_prefix() -> Seq<char> {
    "(reverse-i-search) "@
}

/// The reverse-search prompt with query `q` spliced into its slot.
pub open spec fn search_prompt_of(q: Seq<char>) -> Seq<char> {
    search_prefix() + q + seq![':']
}

/// Well-formedness of a console state.
pub open spec fn console_inv(m: ConsoleModel) -> bool {
    &&& 1 <= m.capacity
    &&& m.history.len() <= m.capacity
    &&& match m.cursor {
        Some(i) => 0 <= i < m.history.len(),
        None => true,
    }
    &&& match m.search {
        Some(q) => m.prompt == search_prompt_of(q),
        None => m.prompt == m.save_prompt,
    }
}

/// The editable content of the last line: what follows the prompt there, or
/// empty when the prompt is not rendered at the line start.
pub open spec fn line_content(t: Seq<char>, prompt: Seq<char>) -> Seq<char> {
    if is_prefix(prompt, last_line(t)) {
        last_line(t).skip(prompt.len() as int)
    } else {
        Seq::empty()
    }
}

/// Remove the editable content, keeping everything up to and including the
/// prompt.
pub open spec fn strip_content(t: Seq<char>, prompt: Seq<char>) -> Seq<char> {
    t.take(t.len() - line_content(t, prompt).len())
}

/// Replace the editable content by `entry`.
pub open spec fn set_content(t: Seq<char>, prompt: Seq<char>, entry: Seq<char>) -> Seq<char> {
    strip_content(t, prompt) + entry
}

/// Append the prompt on a line of its own: a newline first unless the buffer
/// is empty or already ends with one.
pub open spec fn draw_prompt_model(t: Seq<char>, prompt: Seq<char>) -> Seq<char> {
    if t.len() > 0 && t.last() != '\n' {
        t + seq!['\n'] + prompt
    } else {
        t + prompt
    }
}

/// Enter reverse search: truncate the last line, render the search prompt
/// with an empty query, ask for the caret at the end.
pub open spec fn enter_search_model(m: ConsoleModel) -> ConsoleModel {
    let scroll = m.text.take(line_start(m.text));
    ConsoleModel {
        text: draw_prompt_model(scroll, search_prompt_of(Seq::empty())),
        prompt: search_prompt_of(Seq::empty()),
        search: Some(Seq::empty()),
        force_end: true,
        ..m
    }
}

/// Exit reverse search: truncate the last line, restore the saved prompt.
/// The history cursor is left alone; Escape and Enter reset it themselves.
pub open spec fn exit_search_model(m: ConsoleModel) -> ConsoleModel {
    let scroll = m.text.take(line_start(m.text));
    ConsoleModel {
        text: draw_prompt_model(scroll, m.save_prompt),
        prompt: m.save_prompt,
        search: None,
        force_end: true,
        ..m
    }
}

/// Where a backward history scan starts: just above the cursor, or at the
/// store's end when not browsing.
pub open spec fn hb_start(m: ConsoleModel) -> int {
    match m.cursor {
        Some(i) => i,
        None => m.history.len() as int,
    }
}

/// The greatest index below `start` whose entry contains `q`, or None.
pub open spec fn find_back(h: Seq<Seq<char>>, q: Seq<char>, start: int) -> Option<int>
    decreases start,
{
    if start <= 0 {
        None
    } else if contains_seq(h[start - 1], q) {
        Some(start - 1)
    } else {
        find_back(h, q, start - 1)
    }
}

pub proof fn lemma_find_back_bounds(h: Seq<Seq<char>>, q: Seq<char>, start: int)
    ensures
        match find_back(h, q, start) {
            Some(i) => 0 <= i < start,
            None => true,
        },
    decreases start,
{
    if start > 0 && !contains_seq(h[start - 1], q) {
        lemma_find_back_bounds(h, q, start - 1);
    }
}

/// A found index is the most recent match: everything between it and the
/// scan's start does not contain the query.
pub proof fn lemma_find_back_newest(h: Seq<Seq<char>>, q: Seq<char>, start: int)
    ensures
        match find_back(h, q, start) {
            Some(i) => 0 <= i < start && contains_seq(h[i], q) && forall|j: int|
                i < j < start ==> !contains_seq(h[j], q),
            None => forall|j: int| 0 <= j < start ==> !contains_seq(h[j], q),
        },
    decreases start,
{
    if start > 0 && !contains_seq(h[start - 1], q) {
        lemma_find_back_newest(h, q, start - 1);
    }
}

/// One backward history step. While searching: an empty query stops browsing
/// and clears the line; otherwise the most recent entry (older than the
/// cursor) containing the query replaces the line, and an exhausted scan
/// changes nothing. While not searching: plain backward browsing.
pub open spec fn history_back_model(m: ConsoleModel) -> ConsoleModel {
    let start = hb_start(m);
    match m.search {
        Some(q) => {
            if q.len() == 0 {
                ConsoleModel { cursor: None, text: strip_content(m.text, m.prompt), ..m }
            } else {
                match find_back(m.history, q, start) {
                    Some(i) => ConsoleModel {
                        cursor: Some(i),
                        text: set_content(m.text, m.prompt, m.history[i]),
                        ..m
                    },
                    None => m,
                }
            }
        },
        None => {
            if start > 0 {
                ConsoleModel {
                    cursor: Some(start - 1),
                    text: set_content(m.text, m.prompt, m.history[start - 1]),
                    ..m
                }
            } else {
                m
            }
        },
    }
}

/// One forward history step (Down): towards newer entries, clearing the line
/// and the cursor past the newest.
pub open spec fn history_fwd_model(m: ConsoleModel) -> ConsoleModel {
    match m.cursor {
        Some(hc) => {
            if hc == m.history.len() - 1 {
                ConsoleModel { cursor: None, text: strip_content(m.text, m.prompt), ..m }
            } else {
                ConsoleModel {
                    cursor: Some(hc + 1),
                    text: set_content(m.text, m.prompt, m.history[hc + 1]),
                    ..m
                }
            }
        },
        None => m,
    }
}

/// The first `':'` at or after position `from`, or -1.
pub open spec fn first_colon_from(line: Seq<char>, from: int) -> int
    decreases line.len() - from,
{
    if from < 0 || from >= line.len() {
        -1
    } else if line[from] == ':' {
        from
    } else {
        first_colon_from(line, from + 1)
    }
}

/// The query rendered in a search-prompt line: the characters between the
/// slot's fixed offset and the next `':'` strictly after it, or empty when
/// the line is too short or no `':'` follows.
pub open spec fn search_text_of(line: Seq<char>) -> Seq<char> {
    if line.len() <= search_prefix().len() {
        Seq::empty()
    } else {
        let j = first_colon_from(line, search_prefix().len() + 1 as int);
        if j == -1 {
            Seq::empty()
        } else {
            line.subrange(search_prefix().len() as int, j)
        }
    }
}

/// The host handed back the buffer after the text edit widget ran. While
/// searching, changed content means the user typed into the query slot: the
/// query is re-extracted from the rendered line, the prompt re-rendered,
/// and the backward search re-run from the top of history — browsing
/// restarts at the store's end, so the most recent match wins again (an
/// emptied query stops browsing and clears the line).
pub open spec fn update_text_model(m: ConsoleModel, new_text: Seq<char>) -> ConsoleModel {
    let changed = new_text != m.text;
    if m.search is Some && changed {
        let q = search_text_of(last_line(new_text));
        let m2 = ConsoleModel {
            text: new_text,
            search: Some(q),
            prompt: search_prompt_of(q),
            cursor: None,
            ..m
        };
        history_back_model(m2)
    } else {
        ConsoleModel { text: new_text, ..m }
    }
}

/// Where the editable region starts in normal mode: after the prompt on the
/// last line.
pub open spec fn editable_start(m: ConsoleModel) -> int {
    line_start(m.text) + m.prompt.len()
}

/// The caret-clamp rule. A pending force-to-end request wins once and
/// clears. In normal mode any caret left of the editable region snaps to the
/// buffer end. In search mode the caret is confined to the query slot and
/// snaps to the nearer bound (bounds themselves never past the buffer end).
pub open spec fn clamp_model(m: ConsoleModel, requested: int) -> (ConsoleModel, Option<int>) {
    if m.force_end {
        (ConsoleModel { force_end: false, ..m }, Some(m.text.len() as int))
    } else {
        match m.search {
            None => {
                if requested < editable_start(m) {
                    (m, Some(m.text.len() as int))
                } else {
                    (m, None)
                }
            },
            Some(q) => {
                let ls = line_start(m.text);
                let left = ls + search_prefix().len();
                let right = left + q.len();
                if requested < left {
                    (m, Some(min(left, m.text.len() as int)))
                } else if requested > right {
                    (m, Some(min(right, m.text.len() as int)))
                } else {
                    (m, None)
                }
            },
        }
    }
}

/// Append a response block: newline, the response, newline, a fresh prompt;
/// the caret is forced to the end.
pub open spec fn sync_response_model(m: ConsoleModel, data: Seq<char>) -> ConsoleModel {
    ConsoleModel {
        text: m.text + seq!['\n'] + data + seq!['\n'] + m.prompt,
        force_end: true,
        ..m
    }
}

/// A first Tab press: tokenize the line, adopt the last token (a leading
/// quote stripped) as the prefix, remember where it starts, and query for
/// match 0. An empty line or empty last token asks nothing.
pub open spec fn tab_first_model(m: ConsoleModel) -> (ConsoleModel, Option<(Seq<char>, nat)>) {
    let toks = tokens_of(line_content(m.text, m.prompt), m.tab_quote);
    if toks.len() == 0 || toks.last().len() == 0 {
        (ConsoleModel { tab_quoted: false, ..m }, None)
    } else {
        let last_arg = toks.last();
        let stripped = if last_arg[0] == m.tab_quote {
            last_arg.skip(1)
        } else {
            last_arg
        };
        let off = if last_arg.len() <= m.text.len() {
            m.text.len() - last_arg.len()
        } else {
            0
        };
        (
            ConsoleModel {
                tab_quoted: false,
                tab_prefix: stripped,
                tab_nth: 0,
                tab_offset: off as nat,
                ..m
            },
            Some((stripped, 0 as nat)),
        )
    }
}

/// A Tab press: start a cycle on the first press, ask for the next match on
/// a repeat.
pub open spec fn tab_press_model(m: ConsoleModel) -> (ConsoleModel, Option<(Seq<char>, nat)>) {
    if m.tab_prefix.len() == 0 {
        tab_first_model(m)
    } else {
        (
            ConsoleModel { tab_nth: inc_sat(m.tab_nth), ..m },
            Some((m.tab_prefix, inc_sat(m.tab_nth))),
        )
    }
}

/// A completion result as it is written into the buffer: quote-wrapped when
/// it contains a space.
pub open spec fn tab_wrapped(path: Seq<char>, q: char) -> Seq<char> {
    if path.contains(' ') {
        seq![q] + path + seq![q]
    } else {
        path
    }
}

/// Apply a completion result. A match replaces the buffer from the recorded
/// token start, quote-wrapped when it contains a space (a stale offset past
/// the buffer end degrades to a no-op). No match at ordinal 0 ends the
/// cycle; at a later ordinal the cycle wraps: the ordinal resets to 0 and
/// the first match is asked for once more.
pub open spec fn tab_apply_model(m: ConsoleModel, found: Option<Seq<char>>) -> (
    ConsoleModel,
    Option<(Seq<char>, nat)>,
) {
    match found {
        Some(path) => {
            let wrap = path.contains(' ');
            let rendered = tab_wrapped(path, m.tab_quote);
            if m.tab_offset <= m.text.len() {
                (
                    ConsoleModel {
                        text: m.text.take(m.tab_offset as int) + rendered,
                        force_end: true,
                        tab_quoted: wrap,
                        ..m
                    },
                    None,
                )
            } else {
                (m, None)
            }
        },
        None => {
            if m.tab_nth == 0 {
                (m, None)
            } else {
                (ConsoleModel { tab_nth: 0, ..m }, Some((m.tab_prefix, 0 as nat)))
            }
        },
    }
}

/// One full Tab round against a fixed listing: the press, its query
/// resolved through the completion source, the result applied, and the one
/// wrap retry the apply step may ask for.
pub open spec fn tab_round(
    m: ConsoleModel,
    entries: Seq<Seq<char>>,
    added_dot: bool,
    marker: Seq<char>,
) -> ConsoleModel {
    let (m1, q) = tab_press_model(m);
    match q {
        None => m1,
        Some((prefix, nth)) => {
            let found = nth_match_model(entries, prefix, added_dot, marker, nth);
            let (m2, retry) = tab_apply_model(m1, found);
            match retry {
                None => m2,
                Some((p2, n2)) => tab_apply_model(
                    m2,
                    nth_match_model(entries, p2, added_dot, marker, n2),
                ).0,
            }
        },
    }
}

/// Tab-cycle wrap-around at the console: with the cycle running on a prefix
/// that has exactly `k >= 1` matches in the listing, one further Tab round
/// advances to the next match in order — and from the last match it returns
/// to the first — rewriting the buffer from the recorded token start.
pub proof fn lemma_tab_round_cycles(
    m: ConsoleModel,
    entries: Seq<Seq<char>>,
    added_dot: bool,
    marker: Seq<char>,
    k: nat,
)
    requires
        strips_cleanly(entries, added_dot, marker),
        k == match_list(entries, m.tab_prefix, added_dot, marker).len(),
        1 <= k <= usize::MAX,
        m.tab_prefix.len() > 0,
        m.tab_nth < k,
        m.tab_offset <= m.text.len(),
    ensures
        ({
            let next: nat = if m.tab_nth + 1 == k {
                0
            } else {
                m.tab_nth + 1
            };
            let shown = match_list(entries, m.tab_prefix, added_dot, marker)[next as int];
            let m2 = tab_round(m, entries, added_dot, marker);
            &&& m2.tab_nth == next
            &&& m2.text == m.text.take(m.tab_offset as int) + tab_wrapped(shown, m.tab_quote)
            &&& m2.tab_prefix == m.tab_prefix
            &&& m2.tab_offset == m.tab_offset
            &&& m2.force_end
        }),
{
    lemma_nth_match_is_indexing(entries, m.tab_prefix, added_dot, marker, m.tab_nth + 1);
    if m.tab_nth + 1 == k {
        lemma_nth_match_is_indexing(entries, m.tab_prefix, added_dot, marker, 0);
    }
}

/// What one key press does, besides a possible completion query.
#[verifier::ext_equal]
pub ghost struct KeyStep {
    pub m: ConsoleModel,
    pub consumed: bool,
    pub submitted: Option<Seq<char>>,
    pub query: Option<(Seq<char>, nat)>,
}

pub open spec fn step_quiet(m: ConsoleModel, consumed: bool) -> KeyStep {
    KeyStep { m, consumed, submitted: None, query: None }
}

/// The dispatch table: what one key press with modifiers does to the state,
/// given the caret's character offset.
pub open spec fn key_step(m0: ConsoleModel, key: Key, mods: Modifiers, caret: int) -> KeyStep {
    let m = if key is Tab && mods.is_plain() {
        m0
    } else {
        ConsoleModel { tab_prefix: Seq::empty(), ..m0 }
    };
    if mods.is_plain() {
        match key {
            Key::ArrowDown => {
                let m1 = if m.search is Some {
                    exit_search_model(m)
                } else {
                    m
                };
                step_quiet(history_fwd_model(m1), true)
            },
            Key::ArrowUp => {
                if m.history.len() == 0 {
                    step_quiet(m, true)
                } else {
                    step_quiet(history_back_model(m), true)
                }
            },
            Key::Enter => {
                let captured = line_content(m.text, m.prompt);
                let m1 = if m.search is Some {
                    exit_search_model(m)
                } else {
                    m
                };
                let m2 = ConsoleModel {
                    history: push_model(m1.history, m1.capacity, captured),
                    cursor: None,
                    force_end: true,
                    ..m1
                };
                KeyStep { m: m2, consumed: true, submitted: Some(captured), query: None }
            },
            Key::Delete | Key::ArrowRight => {
                match m.search {
                    Some(q) => {
                        let right = line_start(m.text) + search_prefix().len() + q.len();
                        if caret >= right {
                            step_quiet(m, true)
                        } else {
                            step_quiet(m, false)
                        }
                    },
                    None => step_quiet(m, false),
                }
            },
            Key::ArrowLeft | Key::Backspace => {
                let bound = match m.search {
                    Some(q) => line_start(m.text) + search_prefix().len(),
                    None => editable_start(m),
                };
                if caret <= bound {
                    step_quiet(m, true)
                } else {
                    step_quiet(m, false)
                }
            },
            Key::Escape => {
                let m1 = if m.search is Some {
                    exit_search_model(m)
                } else {
                    m
                };
                step_quiet(ConsoleModel { cursor: None, ..m1 }, true)
            },
            Key::Tab => {
                let r = tab_press_model(m);
                KeyStep { m: r.0, consumed: true, submitted: None, query: r.1 }
            },
            _ => step_quiet(m, false),
        }
    } else if mods.is_search_chord() && key is R {
        if m.search is None {
            step_quiet(enter_search_model(m), true)
        } else {
            step_quiet(history_back_model(m), true)
        }
    } else {
        step_quiet(m, false)
    }
}

/// What processing the key presses of one frame yields: the final state,
/// the consumed presses in order, the first submitted line, and a pending
/// completion query together with the index of the next unprocessed press.
#[verifier::ext_equal]
pub ghost struct BatchModel {
    pub m: ConsoleModel,
    pub consumed: Seq<(Key, Modifiers)>,
    pub submitted: Option<Seq<char>>,
    pub pending: Option<((Seq<char>, nat), int)>,
}

/// Fold the dispatch table over `events[i..]`, with one caret offset for
/// the whole frame. Processing stops at the first press that submits a line
/// — later presses of the frame are dropped for this cycle — and pauses at
/// a completion query, to resume after the host resolved it.
pub open spec fn batch_model(
    m: ConsoleModel,
    events: Seq<(Key, Modifiers)>,
    i: int,
    caret: int,
) -> BatchModel
    decreases events.len() - i,
{
    if i < 0 || i >= events.len() {
        BatchModel { m, consumed: Seq::empty(), submitted: None, pending: None }
    } else {
        let step = key_step(m, events[i].0, events[i].1, caret);
        let here: Seq<(Key, Modifiers)> = if step.consumed {
            seq![events[i]]
        } else {
            Seq::empty()
        };
        if step.submitted is Some {
            BatchModel { m: step.m, consumed: here, submitted: step.submitted, pending: None }
        } else if step.query is Some {
            BatchModel {
                m: step.m,
                consumed: here,
                submitted: None,
                pending: Some((step.query.unwrap(), i + 1)),
            }
        } else {
            let rest = batch_model(step.m, events, i + 1, caret);
            BatchModel {
                m: rest.m,
                consumed: here + rest.consumed,
                submitted: rest.submitted,
                pending: rest.pending,
            }
        }
    }
}

pub proof fn lemma_inv_batch(m: ConsoleModel, events: Seq<(Key, Modifiers)>, i: int, caret: int)
    requires
        console_inv(m),
    ensures
        console_inv(batch_model(m, events, i, caret).m),
    decreases events.len() - i,
{
    if 0 <= i < events.len() {
        lemma_inv_key_step(m, events[i].0, events[i].1, caret);
        let step = key_step(m, events[i].0, events[i].1, caret);
        if step.submitted is None && step.query is None {
            lemma_inv_batch(step.m, events, i + 1, caret);
        }
    }
}

/// The search prompt's fixed prefix: its length, and that neither it nor the
/// delimiter holds a newline.
pub proof fn lemma_search_prefix_facts()
    ensures
        search_prefix().len() == 19,
        forall|i: int| 0 <= i < search_prefix().len() ==> search_prefix()[i] != '\n',
{
    reveal_strlit("(reverse-i-search) ");
}

/// Every transition preserves the console invariant.
pub proof fn lemma_inv_enter_search(m: ConsoleModel)
    requires
        console_inv(m),
    ensures
        console_inv(enter_search_model(m)),
{
}

pub proof fn lemma_inv_exit_search(m: ConsoleModel)
    requires
        console_inv(m),
    ensures
        console_inv(exit_search_model(m)),
{
}

pub proof fn lemma_inv_history_back(m: ConsoleModel)
    requires
        console_inv(m),
    ensures
        console_inv(history_back_model(m)),
{
    if m.search is Some && m.search.unwrap().len() > 0 {
        lemma_find_back_bounds(m.history, m.search.unwrap(), hb_start(m));
    }
}

pub proof fn lemma_inv_key_step(m: ConsoleModel, key: Key, mods: Modifiers, caret: int)
    requires
        console_inv(m),
    ensures
        console_inv(key_step(m, key, mods, caret).m),
{
    let m1 = if key is Tab && mods.is_plain() {
        m
    } else {
        ConsoleModel { tab_prefix: Seq::empty(), ..m }
    };
    assert(console_inv(m1));
    if mods.is_plain() {
        match key {
            Key::ArrowDown => {
                if m1.search is Some {
                    lemma_inv_exit_search(m1);
                }
            },
            Key::ArrowUp => {
                lemma_inv_history_back(m1);
            },
            Key::Enter => {
                if m1.search is Some {
                    lemma_inv_exit_search(m1);
                }
            },
            Key::Escape => {
                if m1.search is Some {
                    lemma_inv_exit_search(m1);
                }
            },
            _ => {},
        }
    } else if mods.is_search_chord() && key is R {
        if m1.search is None {
            lemma_inv_enter_search(m1);
        } else {
            lemma_inv_history_back(m1);
        }
    }
}

/// Reverse-search idempotence: entering search from a line that shows only
/// the prompt (no typed input) and exiting at once restores the transcript
/// and the prompt exactly as they were.
pub proof fn lemma_search_enter_exit_restores(m: ConsoleModel)
    requires
        console_inv(m),
        m.search is None,
        last_line(m.text) == m.prompt,
    ensures
        exit_search_model(enter_search_model(m)).text == m.text,
        exit_search_model(enter_search_model(m)).prompt == m.prompt,
        exit_search_model(enter_search_model(m)).search is None,
        exit_search_model(enter_search_model(m)).history == m.history,
        exit_search_model(enter_search_model(m)).cursor == m.cursor,
{
    let ls = line_start(m.text);
    lemma_line_start_bounds(m.text);
    let scroll = m.text.take(ls);
    let template = search_prompt_of(Seq::empty());
    lemma_search_prefix_facts();
    assert(forall|i: int| 0 <= i < template.len() ==> template[i] != '\n');
    let m1 = enter_search_model(m);
    lemma_line_start_of_scrollback(m.text);
    if ls > 0 {
        lemma_line_start_newline(m.text);
        assert(scroll.last() == '\n');
        assert(m1.text == scroll + template);
        lemma_line_start_append(scroll, template);
        assert(line_start(m1.text) == ls);
        assert(m1.text.take(ls) =~= scroll);
        assert(exit_search_model(m1).text == scroll + m.save_prompt);
        assert(scroll + m.save_prompt =~= m.text);
    } else {
        assert(scroll =~= Seq::<char>::empty());
        assert(scroll.len() == 0);
        assert(m1.text == scroll + template);
        assert(scroll + template =~= template);
        lemma_line_start_append(scroll, template);
        assert(line_start(m1.text) == 0);
        assert(m1.text.take(0) =~= Seq::<char>::empty());
        assert(exit_search_model(m1).text == m1.text.take(0) + m.save_prompt);
        assert(m1.text.take(0) + m.save_prompt =~= m.save_prompt);
        assert(m.text =~= m.save_prompt);
    }
}

/// Below the start of a nonempty buffer's last line stands a newline.
pub proof fn lemma_line_start_newline(s: Seq<char>)
    ensures
        line_start(s) > 0 ==> s[line_start(s) - 1] == '\n',
    decreases s.len(),
{
    if s.len() > 0 && s.last() != '\n' {
        lemma_line_start_newline(s.drop_last());
        lemma_line_start_bounds(s.drop_last());
        if line_start(s) > 0 {
            assert(s[line_start(s) - 1] == s.drop_last()[line_start(s.drop_last()) - 1]);
        }
    }
}

} // verus!
