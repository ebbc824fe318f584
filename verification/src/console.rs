//! The console window: a flat transcript buffer with a prompt, command
//! history, reverse incremental search, and tab-completion state. Every
//! method's contract states its effect as a transition of the ghost model in
//! `model`.

use vstd::prelude::*;

use crate::history::HistoryStore;
use crate::keys::Key;
use crate::keys::KeyAction;
use crate::keys::Modifiers;
use crate::keys::TabRequest;
use crate::keys::BatchResult;
use crate::model::ConsoleModel;
use crate::model::batch_model;
use crate::model::clamp_model;
use crate::model::console_inv;
use crate::model::draw_prompt_model;
use crate::model::enter_search_model;
use crate::model::exit_search_model;
use crate::model::find_back;
use crate::model::first_colon_from;
use crate::model::history_back_model;
use crate::model::key_step;
use crate::model::lemma_find_back_bounds;
use crate::model::lemma_inv_key_step;
use crate::model::lemma_inv_enter_search;
use crate::model::lemma_inv_exit_search;
use crate::model::lemma_inv_history_back;
use crate::model::lemma_search_prefix_facts;
use crate::model::line_content;
use crate::model::search_prompt_of;
use crate::model::search_prefix;
use crate::model::search_text_of;
use crate::model::set_content;
use crate::model::strip_content;
use crate::model::sync_response_model;
use crate::model::tab_apply_model;
use crate::model::tab_press_model;
use crate::model::update_text_model;
use crate::text::find_line_start;
use crate::text::last_line;
use crate::text::lemma_line_start_bounds;
use crate::text::line_start;
use crate::text::push_char;
use crate::text::str_contains;
use crate::text::str_eq;
use crate::text::str_contains_char;
use crate::text::str_skip;
use crate::text::str_starts_with;
use crate::text::str_take;
use crate::tokenizer::tokenize;
use crate::tokenizer::tokens_of;
use crate::tokenizer::views_of;
use vstd::string::StrSliceExecFns;
use vstd::string::StringExecFns;

verus! {

/// An embedded interactive line editor over one growable text transcript.
pub struct ConsoleWindow {
    text: String,
    force_end: bool,
    history: HistoryStore,
    history_cursor: Option<usize>,
    prompt: String,
    save_prompt: String,
    search_partial: Option<String>,
    tab_prefix: String,
    tab_nth: usize,
    tab_offset: usize,
    tab_quoted: bool,
    tab_quote: char,
}

impl View for ConsoleWindow {
    type V = ConsoleModel;

    closed spec fn view(&self) -> ConsoleModel {
        ConsoleModel {
            text: self.text@,
            force_end: self.force_end,
            history: self.history@,
            capacity: self.history.cap(),
            cursor: match self.history_cursor {
                Some(i) => Some(i as int),
                None => None,
            },
            prompt: self.prompt@,
            save_prompt: self.save_prompt@,
            search: match self.search_partial {
                Some(ref q) => Some(q@),
                None => None,
            },
            tab_prefix: self.tab_prefix@,
            tab_nth: self.tab_nth as nat,
            tab_offset: self.tab_offset as nat,
            tab_quoted: self.tab_quoted,
            tab_quote: self.tab_quote,
        }
    }
}

impl ConsoleWindow {
    /// Well-formedness: the model invariant, plus the machine bound the
    /// history store keeps by construction.
    pub open spec fn inv(&self) -> bool {
        console_inv(self@)
    }

    /// A fresh console showing `prompt` and nothing else, with the default
    /// history capacity and `"` as the quote character.
    pub fn new(prompt: &str) -> (r: ConsoleWindow)
        ensures
            r.inv(),
            r@ == (ConsoleModel {
                text: prompt@,
                force_end: false,
                history: Seq::<Seq<char>>::empty(),
                capacity: 5 as nat,
                cursor: None::<int>,
                prompt: prompt@,
                save_prompt: prompt@,
                search: None::<Seq<char>>,
                tab_prefix: Seq::<char>::empty(),
                tab_nth: 0 as nat,
                tab_offset: 0 as nat,
                tab_quoted: false,
                tab_quote: '"',
            }),
    {
        let r = ConsoleWindow {
            text: prompt.to_owned(),
            force_end: false,
            history: HistoryStore::new(5),
            history_cursor: None,
            prompt: prompt.to_owned(),
            save_prompt: prompt.to_owned(),
            search_partial: None,
            tab_prefix: String::new(),
            tab_nth: 0,
            tab_offset: 0,
            tab_quoted: false,
            tab_quote: '"',
        };
        proof {
            assert(r@ =~~= (ConsoleModel {
                text: prompt@,
                force_end: false,
                history: Seq::<Seq<char>>::empty(),
                capacity: 5 as nat,
                cursor: None::<int>,
                prompt: prompt@,
                save_prompt: prompt@,
                search: None::<Seq<char>>,
                tab_prefix: Seq::<char>::empty(),
                tab_nth: 0 as nat,
                tab_offset: 0 as nat,
                tab_quoted: false,
                tab_quote: '"',
            }));
        }
        r
    }

    /// The whole transcript, for display.
    pub fn text(&self) -> (r: &String)
        ensures
            r@ == self@.text,
    {
        &self.text
    }

    /// The prompt currently in force (the search template while searching).
    pub fn current_prompt(&self) -> (r: &String)
        ensures
            r@ == self@.prompt,
    {
        &self.prompt
    }

    /// Character offset of the start of the transcript's last line.
    fn last_line_offset(&self) -> (r: usize)
        ensures
            r == line_start(self@.text),
            0 <= r <= self@.text.len(),
    {
        proof {
            lemma_line_start_bounds(self@.text);
        }
        find_line_start(self.text.as_str())
    }

    /// The editable content of the last line (prompt stripped; empty when
    /// the prompt is not rendered there).
    pub fn get_last_line(&self) -> (r: String)
        ensures
            r@ == line_content(self@.text, self@.prompt),
    {
        let ls = self.last_line_offset();
        let last = str_skip(self.text.as_str(), ls);
        proof {
            assert(last@ =~= last_line(self@.text));
        }
        if str_starts_with(last.as_str(), self.prompt.as_str()) {
            let pl = self.prompt.as_str().unicode_len();
            str_skip(last.as_str(), pl)
        } else {
            String::new()
        }
    }

    /// The character range of the editable region: from just after the
    /// prompt on the last line to the buffer's end. When the prompt is not
    /// rendered there the region is empty, at the buffer's end.
    pub fn editable_region(&self) -> (r: (usize, usize))
        ensures
            r.1 == self@.text.len(),
            r.0 == self@.text.len() - line_content(self@.text, self@.prompt).len(),
    {
        let content = self.get_last_line();
        let cl = content.as_str().unicode_len();
        let tl = self.text.as_str().unicode_len();
        proof {
            lemma_line_start_bounds(self@.text);
        }
        (tl - cl, tl)
    }

    /// Replace the editable content of the last line by `new_text`.
    pub fn replace_last_line(&mut self, new_text: &str)
        requires
            old(self).inv(),
        ensures
            final(self).inv(),
            final(self)@ == (ConsoleModel {
                text: set_content(old(self)@.text, old(self)@.prompt, new_text@),
                ..old(self)@
            }),
    {
        self.set_line(new_text);
    }

    /// Reset the transcript to a bare prompt, keeping history and mode.
    pub fn clear(&mut self)
        requires
            old(self).inv(),
        ensures
            final(self).inv(),
            final(self)@ == (ConsoleModel {
                text: old(self)@.prompt,
                force_end: true,
                ..old(self)@
            }),
    {
        self.text = self.prompt.clone();
        self.force_end = true;
    }

    /// Forget all stored history and stop browsing.
    pub fn clear_history(&mut self)
        requires
            old(self).inv(),
        ensures
            final(self).inv(),
            final(self)@ == (ConsoleModel {
                history: Seq::<Seq<char>>::empty(),
                cursor: None::<int>,
                ..old(self)@
            }),
    {
        self.history.clear();
        self.history_cursor = None;
    }

    /// The query rendered in the last line's search-prompt slot.
    pub fn get_search_text(&self) -> (r: String)
        ensures
            r@ == search_text_of(last_line(self@.text)),
    {
        let ls = self.last_line_offset();
        let line = str_skip(self.text.as_str(), ls);
        proof {
            assert(line@ =~= last_line(self@.text));
        }
        extract_search_text(line.as_str())
    }

    /// Remove the editable content, keeping everything through the prompt.
    fn strip_line(&mut self)
        ensures
            final(self)@ == (ConsoleModel {
                text: strip_content(old(self)@.text, old(self)@.prompt),
                ..old(self)@
            }),
    {
        let content = self.get_last_line();
        let cl = content.as_str().unicode_len();
        let tl = self.text.as_str().unicode_len();
        proof {
            lemma_line_start_bounds(self@.text);
        }
        let t = str_take(self.text.as_str(), tl - cl);
        self.text = t;
    }

    /// Replace the editable content by `entry`.
    fn set_line(&mut self, entry: &str)
        ensures
            final(self)@ == (ConsoleModel {
                text: set_content(old(self)@.text, old(self)@.prompt, entry@),
                ..old(self)@
            }),
    {
        self.strip_line();
        self.text.append(entry);
    }

    /// Append the current prompt on a line of its own.
    fn draw_prompt(&mut self)
        ensures
            final(self)@ == (ConsoleModel {
                text: draw_prompt_model(old(self)@.text, old(self)@.prompt),
                ..old(self)@
            }),
    {
        let tl = self.text.as_str().unicode_len();
        if tl > 0 && self.text.as_str().get_char(tl - 1) != '\n' {
            push_char(&mut self.text, '\n');
            proof {
                assert(self.text@ =~= old(self)@.text + seq!['\n']);
            }
        }
        let p = self.prompt.clone();
        self.text.append(p.as_str());
        proof {
            if old(self)@.text.len() > 0 && old(self)@.text.last() != '\n' {
                assert(self.text@ =~= old(self)@.text + seq!['\n'] + old(self)@.prompt);
            }
        }
    }

    /// Append a response block (`\n`, the response, `\n`, a fresh prompt)
    /// and request the caret at the end.
    pub fn sync_response(&mut self, data: &str)
        requires
            old(self).inv(),
        ensures
            final(self).inv(),
            final(self)@ == sync_response_model(old(self)@, data@),
    {
        push_char(&mut self.text, '\n');
        self.text.append(data);
        push_char(&mut self.text, '\n');
        let p = self.prompt.clone();
        self.text.append(p.as_str());
        self.force_end = true;
        proof {
            assert(self.text@ =~= old(self)@.text + seq!['\n'] + data@ + seq!['\n'] + old(
                self,
            )@.prompt);
        }
    }

    /// Append a block that arrived outside the request/response cycle; the
    /// effect on the transcript is the same as a response.
    pub fn async_message(&mut self, data: &str)
        requires
            old(self).inv(),
        ensures
            final(self).inv(),
            final(self)@ == sync_response_model(old(self)@, data@),
    {
        self.sync_response(data);
    }

    /// Replace the history wholesale (the newest lines are kept when more
    /// are given than the capacity holds) and stop browsing.
    pub fn load_history(&mut self, lines: Vec<String>)
        requires
            old(self).inv(),
        ensures
            final(self).inv(),
            final(self)@ == (ConsoleModel {
                history: if views_of(lines@).len() <= old(self)@.capacity {
                    views_of(lines@)
                } else {
                    views_of(lines@).skip(lines@.len() - old(self)@.capacity)
                },
                cursor: None::<int>,
                ..old(self)@
            }),
    {
        self.history.load(lines);
        self.history_cursor = None;
    }

    /// All stored history lines, oldest first.
    pub fn get_history(&self) -> (r: Vec<String>)
        ensures
            views_of(r@) =~= self@.history,
    {
        self.history.all()
    }

    /// Split a line into shell-like tokens with the console's quote
    /// character.
    pub fn digest_line(&self, line: &str) -> (r: Vec<String>)
        ensures
            views_of(r@) == tokens_of(line@, self@.tab_quote),
    {
        tokenize(line, self.tab_quote)
    }
}

impl ConsoleWindow {
    /// Enter reverse-search mode: search template up, empty query, caret to
    /// the end.
    fn do_enter_search(&mut self)
        requires
            old(self).inv(),
        ensures
            final(self).inv(),
            final(self)@ == enter_search_model(old(self)@),
    {
        self.prompt = render_search_prompt("");
        self.search_partial = Some(String::new());
        let ls = self.last_line_offset();
        let t = str_take(self.text.as_str(), ls);
        self.text = t;
        self.draw_prompt();
        self.force_end = true;
        proof {
            assert(""@ =~= Seq::<char>::empty()) by {
                reveal_strlit("");
            }
            assert(self@ =~~= enter_search_model(old(self)@));
            lemma_inv_enter_search(old(self)@);
        }
    }

    /// Leave reverse-search mode: saved prompt back up, caret to the end.
    fn do_exit_search(&mut self)
        requires
            old(self).inv(),
        ensures
            final(self).inv(),
            final(self)@ == exit_search_model(old(self)@),
    {
        self.prompt = self.save_prompt.clone();
        let ls = self.last_line_offset();
        let t = str_take(self.text.as_str(), ls);
        self.text = t;
        self.draw_prompt();
        self.search_partial = None;
        self.force_end = true;
        proof {
            assert(self@ =~~= exit_search_model(old(self)@));
            lemma_inv_exit_search(old(self)@);
        }
    }

    /// One backward history step (see `history_back_model`).
    fn do_history_back(&mut self)
        requires
            old(self).inv(),
        ensures
            final(self).inv(),
            final(self)@ == history_back_model(old(self)@),
    {
        let start = match self.history_cursor {
            Some(hc) => hc,
            None => self.history.len(),
        };
        let sp: Option<String> = match &self.search_partial {
            Some(q) => Some(q.clone()),
            None => None,
        };
        match sp {
            Some(q) => {
                if q.as_str().unicode_len() == 0 {
                    self.history_cursor = None;
                    self.strip_line();
                    proof {
                        assert(self@ =~~= history_back_model(old(self)@));
                    }
                } else {
                    let ghost h = self@.history;
                    let mut i = start;
                    let mut found: Option<usize> = None;
                    while i > 0 && found.is_none()
                        invariant
                            0 <= i <= start <= self@.history.len(),
                            h == self@.history,
                            *self == *old(self),
                            match found {
                                Some(fi) => find_back(h, q@, start as int) == Some(fi as int),
                                None => find_back(h, q@, start as int) == find_back(
                                    h,
                                    q@,
                                    i as int,
                                ),
                            },
                        decreases i + (if found is None { 1 as int } else { 0 as int }),
                    {
                        if str_contains(self.history.get(i - 1).as_str(), q.as_str()) {
                            found = Some(i - 1);
                        } else {
                            i = i - 1;
                        }
                    }
                    match found {
                        Some(fi) => {
                            proof {
                                lemma_find_back_bounds(h, q@, start as int);
                            }
                            let entry = self.history.get(fi).clone();
                            self.history_cursor = Some(fi);
                            self.set_line(entry.as_str());
                            proof {
                                assert(self@ =~~= history_back_model(old(self)@));
                            }
                        },
                        None => {
                            proof {
                                assert(self@ =~~= history_back_model(old(self)@));
                            }
                        },
                    }
                }
            },
            None => {
                if start > 0 {
                    let entry = self.history.get(start - 1).clone();
                    self.history_cursor = Some(start - 1);
                    self.set_line(entry.as_str());
                    proof {
                        assert(self@ =~~= history_back_model(old(self)@));
                    }
                }
            },
        }
        proof {
            lemma_inv_history_back(old(self)@);
        }
    }

    /// The host hands back the buffer after its text widget ran. While
    /// searching, changed content re-extracts the query from the rendered
    /// line, re-renders the prompt, and re-runs the backward search from
    /// the top of history.
    pub fn update_text(&mut self, new_text: String)
        requires
            old(self).inv(),
        ensures
            final(self).inv(),
            final(self)@ == update_text_model(old(self)@, new_text@),
    {
        let changed = !str_eq(new_text.as_str(), self.text.as_str());
        let searching = self.search_partial.is_some();
        self.text = new_text;
        if searching && changed {
            let ls = self.last_line_offset();
            let line = str_skip(self.text.as_str(), ls);
            proof {
                assert(line@ =~= last_line(self@.text));
            }
            let q = extract_search_text(line.as_str());
            self.prompt = render_search_prompt(q.as_str());
            self.history_cursor = None;
            self.search_partial = Some(q);
            proof {
                assert(self.inv());
            }
            let ghost mid = self@;
            self.do_history_back();
            proof {
                assert(mid =~~= (ConsoleModel {
                    text: new_text@,
                    search: Some(search_text_of(last_line(new_text@))),
                    prompt: search_prompt_of(search_text_of(last_line(new_text@))),
                    cursor: None::<int>,
                    ..old(self)@
                }));
            }
        }
    }

    /// Clamp a requested caret offset (see `clamp_model`): a pending
    /// force-to-end request wins once; otherwise the caret must not enter
    /// the scrollback or prompt, nor leave the search query slot.
    pub fn clamp_caret(&mut self, requested: usize) -> (r: Option<usize>)
        requires
            old(self).inv(),
        ensures
            final(self).inv(),
            final(self)@ == clamp_model(old(self)@, requested as int).0,
            match r {
                Some(v) => clamp_model(old(self)@, requested as int).1 == Some(v as int),
                None => clamp_model(old(self)@, requested as int).1 is None,
            },
    {
        proof {
            lemma_search_prefix_facts();
        }
        if self.force_end {
            self.force_end = false;
            let tl = self.text.as_str().unicode_len();
            proof {
                assert(self@ =~~= clamp_model(old(self)@, requested as int).0);
            }
            return Some(tl);
        }
        let ls = self.last_line_offset();
        let tl = self.text.as_str().unicode_len();
        match &self.search_partial {
            None => {
                let pl = self.prompt.as_str().unicode_len();
                if requested < ls {
                    Some(tl)
                } else if requested - ls < pl {
                    Some(tl)
                } else {
                    None
                }
            },
            Some(q) => {
                let ql = q.as_str().unicode_len();
                if requested < ls || requested - ls < 19 {
                    let left = if tl - ls >= 19 {
                        ls + 19
                    } else {
                        tl
                    };
                    Some(left)
                } else if requested - ls - 19 > ql {
                    let right = if tl - ls >= 19 && (tl - ls) - 19 >= ql {
                        ls + 19 + ql
                    } else {
                        tl
                    };
                    Some(right)
                } else {
                    None
                }
            },
        }
    }
}

impl ConsoleWindow {
    /// Handle one key press against the mode-dependent dispatch table (see
    /// `key_step`). The caret offset is the one the host reported for this
    /// frame. The result says whether the key is consumed, hands over a
    /// submitted line on Enter, and on Tab a completion query to resolve.
    pub fn handle_key(&mut self, key: Key, mods: Modifiers, caret: usize) -> (r: KeyAction)
        requires
            old(self).inv(),
        ensures
            final(self).inv(),
            final(self)@ == key_step(old(self)@, key, mods, caret as int).m,
            ({
                let step = key_step(old(self)@, key, mods, caret as int);
                match r {
                    KeyAction::Passthrough => !step.consumed && step.submitted is None
                        && step.query is None,
                    KeyAction::Consumed => step.consumed && step.submitted is None
                        && step.query is None,
                    KeyAction::Submitted(line) => step.consumed && step.submitted == Some(line@)
                        && step.query is None,
                    KeyAction::Complete(q) => step.consumed && step.submitted is None
                        && step.query == Some((q.prefix@, q.nth as nat)),
                }
            }),
    {
        let ghost step = key_step(old(self)@, key, mods, caret as int);
        proof {
            lemma_inv_key_step(old(self)@, key, mods, caret as int);
        }
        let plain = !mods.alt && !mods.ctrl && !mods.shift && !mods.mac_cmd && !mods.command;
        let is_tab = matches!(key, Key::Tab);
        if !(plain && is_tab) {
            self.tab_prefix = String::new();
        }
        proof {
            assert(self.inv());
        }
        if plain {
            match key {
                Key::ArrowDown => {
                    if self.search_partial.is_some() {
                        self.do_exit_search();
                    }
                    match self.history_cursor {
                        Some(hc) => {
                            if hc == self.history.len() - 1 {
                                self.history_cursor = None;
                                self.strip_line();
                            } else {
                                let entry = self.history.get(hc + 1).clone();
                                self.history_cursor = Some(hc + 1);
                                self.set_line(entry.as_str());
                            }
                        },
                        None => {},
                    }
                    proof {
                        assert(self@ =~~= step.m);
                    }
                    KeyAction::Consumed
                },
                Key::ArrowUp => {
                    if self.history.len() == 0 {
                        KeyAction::Consumed
                    } else {
                        self.do_history_back();
                        KeyAction::Consumed
                    }
                },
                Key::Enter => {
                    let captured = self.get_last_line();
                    if self.search_partial.is_some() {
                        self.do_exit_search();
                    }
                    self.history.push(captured.clone());
                    self.history_cursor = None;
                    self.force_end = true;
                    proof {
                        assert(self@ =~~= step.m);
                    }
                    KeyAction::Submitted(captured)
                },
                Key::Delete | Key::ArrowRight => {
                    match &self.search_partial {
                        Some(q) => {
                            let ls = self.last_line_offset();
                            let ql = q.as_str().unicode_len();
                            proof {
                                lemma_search_prefix_facts();
                            }
                            if caret >= ls && caret - ls >= 19 && (caret - ls) - 19 >= ql {
                                KeyAction::Consumed
                            } else {
                                KeyAction::Passthrough
                            }
                        },
                        None => KeyAction::Passthrough,
                    }
                },
                Key::ArrowLeft | Key::Backspace => {
                    let ls = self.last_line_offset();
                    proof {
                        lemma_search_prefix_facts();
                    }
                    let blocked = match &self.search_partial {
                        Some(_) => caret < ls || caret - ls <= 19,
                        None => {
                            let pl = self.prompt.as_str().unicode_len();
                            caret < ls || caret - ls <= pl
                        },
                    };
                    if blocked {
                        KeyAction::Consumed
                    } else {
                        KeyAction::Passthrough
                    }
                },
                Key::Escape => {
                    if self.search_partial.is_some() {
                        self.do_exit_search();
                    }
                    self.history_cursor = None;
                    proof {
                        assert(self@ =~~= step.m);
                    }
                    KeyAction::Consumed
                },
                Key::Tab => {
                    match self.do_tab_press() {
                        Some(req) => KeyAction::Complete(req),
                        None => KeyAction::Consumed,
                    }
                },
                _ => KeyAction::Passthrough,
            }
        } else {
            let chord = !mods.alt && mods.ctrl && !mods.shift && !mods.mac_cmd && mods.command;
            let is_r = matches!(key, Key::R);
            if chord && is_r {
                if self.search_partial.is_none() {
                    self.do_enter_search();
                } else {
                    self.do_history_back();
                }
                KeyAction::Consumed
            } else {
                KeyAction::Passthrough
            }
        }
    }

    /// Process one frame's key presses in arrival order from index `start`,
    /// with the caret offset the host reported for the frame. Processing
    /// stops at the first press that submits a line — later presses of the
    /// frame are dropped — and pauses at a completion query: resolve it
    /// through `tab_apply`, then call again with the returned index.
    pub fn handle_events(
        &mut self,
        events: &Vec<(Key, Modifiers)>,
        start: usize,
        caret: usize,
    ) -> (r: BatchResult)
        requires
            old(self).inv(),
        ensures
            final(self).inv(),
            ({
                let b = batch_model(old(self)@, events@, start as int, caret as int);
                &&& final(self)@ == b.m
                &&& r.consumed@ == b.consumed
                &&& match r.submitted {
                    Some(s) => b.submitted == Some(s@),
                    None => b.submitted is None,
                }
                &&& match r.pending {
                    Some(p) => b.pending == Some(((p.0.prefix@, p.0.nth as nat), p.1 as int)),
                    None => b.pending is None,
                }
            }),
    {
        let ghost b = batch_model(old(self)@, events@, start as int, caret as int);
        let mut consumed: Vec<(Key, Modifiers)> = Vec::new();
        let mut i = start;
        while i < events.len()
            invariant
                start <= i,
                i <= events@.len() || i == start,
                self.inv(),
                b == batch_model(old(self)@, events@, start as int, caret as int),
                b.m == batch_model(self@, events@, i as int, caret as int).m,
                b.consumed =~= consumed@ + batch_model(self@, events@, i as int, caret as int).consumed,
                b.submitted == batch_model(self@, events@, i as int, caret as int).submitted,
                b.pending == batch_model(self@, events@, i as int, caret as int).pending,
            decreases events@.len() - i,
        {
            let key = events[i].0;
            let mods = events[i].1;
            let ghost pre = self@;
            let action = self.handle_key(key, mods, caret);
            match action {
                KeyAction::Passthrough => {
                    proof {
                        assert(consumed@ + batch_model(pre, events@, i as int, caret as int).consumed
                            =~= consumed@ + batch_model(self@, events@, i + 1, caret as int).consumed);
                    }
                },
                KeyAction::Consumed => {
                    consumed.push((key, mods));
                    proof {
                        assert(consumed@ + batch_model(self@, events@, i + 1, caret as int).consumed
                            =~= consumed@.drop_last() + (seq![(key, mods)] + batch_model(
                                self@,
                                events@,
                                i + 1,
                                caret as int,
                            ).consumed));
                    }
                },
                KeyAction::Submitted(line) => {
                    consumed.push((key, mods));
                    proof {
                        assert(consumed@ =~= consumed@.drop_last() + seq![(key, mods)]);
                    }
                    return BatchResult { consumed, submitted: Some(line), pending: None };
                },
                KeyAction::Complete(req) => {
                    consumed.push((key, mods));
                    proof {
                        assert(consumed@ =~= consumed@.drop_last() + seq![(key, mods)]);
                    }
                    return BatchResult { consumed, submitted: None, pending: Some((req, i + 1)) };
                },
            }
            i = i + 1;
        }
        proof {
            assert(b.consumed =~= consumed@);
        }
        BatchResult { consumed, submitted: None, pending: None }
    }

    /// One Tab press: start a completion cycle (tokenize the line, adopt the
    /// last token) or ask for the next match of the running cycle.
    fn do_tab_press(&mut self) -> (r: Option<TabRequest>)
        requires
            old(self).inv(),
        ensures
            final(self).inv(),
            final(self)@ == tab_press_model(old(self)@).0,
            match r {
                Some(t) => tab_press_model(old(self)@).1 == Some((t.prefix@, t.nth as nat)),
                None => tab_press_model(old(self)@).1 is None,
            },
    {
        if self.tab_prefix.as_str().unicode_len() == 0 {
            self.tab_quoted = false;
            let content = self.get_last_line();
            let toks = self.digest_line(content.as_str());
            if toks.len() == 0 {
                proof {
                    assert(self@ =~~= tab_press_model(old(self)@).0);
                }
                return None;
            }
            let last_arg = toks[toks.len() - 1].clone();
            proof {
                assert(last_arg@ == views_of(toks@).last());
            }
            let ll = last_arg.as_str().unicode_len();
            if ll == 0 {
                proof {
                    assert(self@ =~~= tab_press_model(old(self)@).0);
                }
                return None;
            }
            let stripped = if last_arg.as_str().get_char(0) == self.tab_quote {
                str_skip(last_arg.as_str(), 1)
            } else {
                last_arg.clone()
            };
            let tl = self.text.as_str().unicode_len();
            self.tab_offset = if ll <= tl {
                tl - ll
            } else {
                0
            };
            self.tab_nth = 0;
            self.tab_prefix = stripped;
            let req = TabRequest { prefix: self.tab_prefix.clone(), nth: 0 };
            proof {
                assert(self@ =~~= tab_press_model(old(self)@).0);
            }
            Some(req)
        } else {
            let next = if self.tab_nth < usize::MAX {
                self.tab_nth + 1
            } else {
                self.tab_nth
            };
            self.tab_nth = next;
            proof {
                assert(self@ =~~= tab_press_model(old(self)@).0);
            }
            Some(TabRequest { prefix: self.tab_prefix.clone(), nth: next })
        }
    }

    /// Apply the completion source's answer to the pending query (see
    /// `tab_apply_model`). A returned request means the cycle wrapped: the
    /// host resolves it and calls back once more.
    pub fn tab_apply(&mut self, found: Option<String>) -> (r: Option<TabRequest>)
        requires
            old(self).inv(),
        ensures
            final(self).inv(),
            final(self)@ == tab_apply_model(
                old(self)@,
                match found {
                    Some(p) => Some(p@),
                    None => None::<Seq<char>>,
                },
            ).0,
            match r {
                Some(t) => tab_apply_model(
                    old(self)@,
                    match found {
                        Some(p) => Some(p@),
                        None => None::<Seq<char>>,
                    },
                ).1 == Some((t.prefix@, t.nth as nat)),
                None => tab_apply_model(
                    old(self)@,
                    match found {
                        Some(p) => Some(p@),
                        None => None::<Seq<char>>,
                    },
                ).1 is None,
            },
    {
        match found {
            Some(path) => {
                let ghost pv = path@;
                let wrap = str_contains_char(path.as_str(), ' ');
                let rendered: String = if wrap {
                    let mut w = String::new();
                    push_char(&mut w, self.tab_quote);
                    w.append(path.as_str());
                    push_char(&mut w, self.tab_quote);
                    proof {
                        assert(w@ =~= seq![old(self)@.tab_quote] + path@ + seq![
                            old(self)@.tab_quote,
                        ]);
                    }
                    w
                } else {
                    path
                };
                let tl = self.text.as_str().unicode_len();
                if self.tab_offset <= tl {
                    let mut t = str_take(self.text.as_str(), self.tab_offset);
                    t.append(rendered.as_str());
                    self.text = t;
                    self.force_end = true;
                    self.tab_quoted = wrap;
                }
                proof {
                    assert(self@ =~~= tab_apply_model(old(self)@, Some(pv)).0);
                }
                None
            },
            None => {
                if self.tab_nth == 0 {
                    None
                } else {
                    self.tab_nth = 0;
                    Some(TabRequest { prefix: self.tab_prefix.clone(), nth: 0 })
                }
            },
        }
    }
}

/// The query rendered in a search-prompt line: the characters between the
/// slot offset and the next `':'` strictly after it.
fn extract_search_text(line: &str) -> (r: String)
    ensures
        r@ == search_text_of(line@),
{
    proof {
        lemma_search_prefix_facts();
    }
    let len = line.unicode_len();
    if len <= 19 {
        return String::new();
    }
    let mut j: usize = 20;
    while j < len
        invariant
            20 <= j <= len == line@.len(),
            first_colon_from(line@, 20) == first_colon_from(line@, j as int),
        decreases len - j,
    {
        if line.get_char(j) == ':' {
            let r = line.substring_char(19, j).to_owned();
            proof {
                lemma_search_prefix_facts();
                assert(r@ =~= line@.subrange(19, j as int));
            }
            return r;
        }
        j = j + 1;
    }
    String::new()
}

/// Render the reverse-search prompt around query `q`.
fn render_search_prompt(q: &str) -> (r: String)
    ensures
        r@ == search_prompt_of(q@),
{
    let mut r = "(reverse-i-search) ".to_owned();
    r.append(q);
    push_char(&mut r, ':');
    proof {
        assert(r@ =~= search_prefix() + q@ + seq![':']);
    }
    r
}

} // verus!
