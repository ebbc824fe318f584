//! Scenario tests for the console window: submitting, browsing, reverse
//! search, caret clamping, and tab-cycling.

use egui_console::complete::nth_match;
use egui_console::keys::{Key, KeyAction, Modifiers, TabRequest};
use egui_console::ConsoleWindow;

fn press(c: &mut ConsoleWindow, key: Key) -> KeyAction {
    c.handle_key(key, Modifiers::none(), 0)
}

fn press_search_hotkey(c: &mut ConsoleWindow) {
    let r = c.handle_key(Key::R, Modifiers::ctrl_command(), 0);
    assert!(matches!(r, KeyAction::Consumed));
}

/// Resolve one Tab press against a fixed entry listing, wrapping as the
/// console asks.
fn press_tab(c: &mut ConsoleWindow, entries: &Vec<String>) {
    match press(c, Key::Tab) {
        KeyAction::Complete(req) => {
            let found = nth_match(entries, req.prefix.as_str(), false, "./", req.nth);
            if let Some(again) = c.tab_apply(found) {
                let TabRequest { prefix, nth } = again;
                let found = nth_match(entries, prefix.as_str(), false, "./", nth);
                assert!(c.tab_apply(found).is_none());
            }
        }
        KeyAction::Consumed => {}
        _ => panic!("Tab must be consumed"),
    }
}

#[test]
fn submit_line_end_to_end() {
    // Empty history; the user types "ls" and presses Enter.
    let mut c = ConsoleWindow::new(">> ");
    c.update_text(">> ls".to_string());
    let r = press(&mut c, Key::Enter);
    match r {
        KeyAction::Submitted(line) => assert_eq!(line, "ls"),
        _ => panic!("Enter must submit"),
    }
    assert_eq!(c.get_history(), vec!["ls"]);
    // The response round trip leaves a fresh empty line after the prompt.
    c.sync_response("a b");
    assert_eq!(c.text().as_str(), ">> ls\na b\n>> ");
    assert_eq!(c.get_last_line(), "");
}

#[test]
fn browse_three_entries_up() {
    let mut c = ConsoleWindow::new(">> ");
    c.load_history(vec!["cd a".to_string(), "cd b".to_string(), "ls".to_string()]);
    press(&mut c, Key::ArrowUp);
    assert_eq!(c.get_last_line(), "ls");
    press(&mut c, Key::ArrowUp);
    assert_eq!(c.get_last_line(), "cd b");
    press(&mut c, Key::ArrowUp);
    assert_eq!(c.get_last_line(), "cd a");
    // A further press past the oldest entry changes nothing.
    press(&mut c, Key::ArrowUp);
    assert_eq!(c.get_last_line(), "cd a");
    // Browsing never mutates the stored history.
    assert_eq!(c.get_history(), vec!["cd a", "cd b", "ls"]);
}

#[test]
fn browse_down_returns_to_fresh_line() {
    let mut c = ConsoleWindow::new(">> ");
    c.load_history(vec!["one".to_string(), "two".to_string()]);
    press(&mut c, Key::ArrowUp);
    press(&mut c, Key::ArrowUp);
    assert_eq!(c.get_last_line(), "one");
    press(&mut c, Key::ArrowDown);
    assert_eq!(c.get_last_line(), "two");
    press(&mut c, Key::ArrowDown);
    assert_eq!(c.get_last_line(), "");
    // Past the newest entry browsing has stopped; Down now does nothing.
    press(&mut c, Key::ArrowDown);
    assert_eq!(c.get_last_line(), "");
}

#[test]
fn arrow_up_on_empty_history_is_consumed_noop() {
    let mut c = ConsoleWindow::new(">> ");
    let before = c.text().clone();
    let r = press(&mut c, Key::ArrowUp);
    assert!(matches!(r, KeyAction::Consumed));
    assert_eq!(c.text(), &before);
}

#[test]
fn search_enter_exit_restores_state() {
    // With scrollback and an empty editable line, entering reverse search
    // and leaving at once restores prompt and transcript exactly.
    let mut c = ConsoleWindow::new(">> ");
    c.sync_response("output");
    let text_before = c.text().clone();
    let prompt_before = c.current_prompt().clone();
    press_search_hotkey(&mut c);
    assert_eq!(c.current_prompt().as_str(), "(reverse-i-search) :");
    assert!(c.text().ends_with("(reverse-i-search) :"));
    let r = press(&mut c, Key::Escape);
    assert!(matches!(r, KeyAction::Consumed));
    assert_eq!(c.text(), &text_before);
    assert_eq!(c.current_prompt(), &prompt_before);
}

#[test]
fn search_narrows_repeats_and_submits() {
    let mut c = ConsoleWindow::new(">> ");
    c.load_history(vec!["cd alpha".to_string(), "ls".to_string(), "cd beta".to_string()]);
    press_search_hotkey(&mut c);
    // The user types "cd" into the query slot; the host hands back the
    // edited buffer.
    let edited = c.text().replace("(reverse-i-search) :", "(reverse-i-search) cd:");
    c.update_text(edited);
    assert_eq!(c.get_search_text(), "cd");
    assert_eq!(c.get_last_line(), "cd beta");
    // Up repeats the search towards older entries.
    press(&mut c, Key::ArrowUp);
    assert_eq!(c.get_last_line(), "cd alpha");
    // No further match: everything stays.
    press(&mut c, Key::ArrowUp);
    assert_eq!(c.get_last_line(), "cd alpha");
    // Enter submits the matched entry and leaves search mode.
    let r = press(&mut c, Key::Enter);
    match r {
        KeyAction::Submitted(line) => assert_eq!(line, "cd alpha"),
        _ => panic!("Enter must submit"),
    }
    assert_eq!(c.current_prompt(), ">> ");
    assert_eq!(c.get_history(), vec!["cd alpha", "ls", "cd beta", "cd alpha"]);
}

#[test]
fn search_empty_query_stops_browsing() {
    let mut c = ConsoleWindow::new(">> ");
    c.load_history(vec!["cd a".to_string(), "cd b".to_string()]);
    press_search_hotkey(&mut c);
    let edited = c.text().replace("(reverse-i-search) :", "(reverse-i-search) cd:");
    c.update_text(edited);
    assert_eq!(c.get_last_line(), "cd b");
    // The user erases the query: the line clears and browsing resets.
    let edited = c.text().replace("(reverse-i-search) cd:", "(reverse-i-search) :");
    c.update_text(edited);
    assert_eq!(c.get_search_text(), "");
    assert_eq!(c.get_last_line(), "");
}

#[test]
fn caret_clamp_normal_mode() {
    let mut c = ConsoleWindow::new(">> ");
    c.update_text(">> hello".to_string());
    // Any requested offset left of the editable region snaps to the end.
    assert_eq!(c.clamp_caret(0), Some(8));
    assert_eq!(c.clamp_caret(2), Some(8));
    // Offsets inside the editable region stand.
    assert_eq!(c.clamp_caret(3), None);
    assert_eq!(c.clamp_caret(8), None);
}

#[test]
fn caret_clamp_multiline_and_force_end() {
    let mut c = ConsoleWindow::new(">> ");
    c.sync_response("out");
    // text is ">> \nout\n>> ": 11 characters, editable region from 11.
    // The pending force-to-end request wins once, then clears.
    assert_eq!(c.clamp_caret(9), Some(11));
    assert_eq!(c.clamp_caret(9), Some(11));
    assert_eq!(c.clamp_caret(11), None);
}

#[test]
fn caret_clamp_search_mode() {
    let mut c = ConsoleWindow::new(">> ");
    c.load_history(vec!["cd beta".to_string()]);
    press_search_hotkey(&mut c);
    let edited = c.text().replace("(reverse-i-search) :", "(reverse-i-search) cd:");
    c.update_text(edited);
    // Line is "(reverse-i-search) cd:cd beta": slot [19, 21].
    assert_eq!(c.clamp_caret(0), Some(29)); // force-to-end from the search replacement
    assert_eq!(c.clamp_caret(5), Some(19));
    assert_eq!(c.clamp_caret(28), Some(21));
    assert_eq!(c.clamp_caret(20), None);
    assert_eq!(c.clamp_caret(21), None);
}

#[test]
fn search_mode_blocks_slot_crossing_keys() {
    let mut c = ConsoleWindow::new(">> ");
    c.load_history(vec!["cd beta".to_string()]);
    press_search_hotkey(&mut c);
    let edited = c.text().replace("(reverse-i-search) :", "(reverse-i-search) cd:");
    c.update_text(edited);
    // Backspace and Left are blocked at or left of the slot start.
    assert!(matches!(c.handle_key(Key::Backspace, Modifiers::none(), 19), KeyAction::Consumed));
    assert!(matches!(c.handle_key(Key::ArrowLeft, Modifiers::none(), 10), KeyAction::Consumed));
    assert!(matches!(c.handle_key(Key::Backspace, Modifiers::none(), 20), KeyAction::Passthrough));
    // Delete and Right are blocked at or right of the slot end (19 + 2).
    assert!(matches!(c.handle_key(Key::Delete, Modifiers::none(), 21), KeyAction::Consumed));
    assert!(matches!(c.handle_key(Key::ArrowRight, Modifiers::none(), 21), KeyAction::Consumed));
    assert!(matches!(c.handle_key(Key::Delete, Modifiers::none(), 20), KeyAction::Passthrough));
}

#[test]
fn normal_mode_blocks_prompt_crossing_keys() {
    let mut c = ConsoleWindow::new(">> ");
    c.update_text(">> abc".to_string());
    assert!(matches!(c.handle_key(Key::Backspace, Modifiers::none(), 3), KeyAction::Consumed));
    assert!(matches!(c.handle_key(Key::ArrowLeft, Modifiers::none(), 1), KeyAction::Consumed));
    assert!(matches!(c.handle_key(Key::Backspace, Modifiers::none(), 4), KeyAction::Passthrough));
    // Right and Delete pass through in normal mode.
    assert!(matches!(c.handle_key(Key::ArrowRight, Modifiers::none(), 3), KeyAction::Passthrough));
    assert!(matches!(c.handle_key(Key::Delete, Modifiers::none(), 3), KeyAction::Passthrough));
}

#[test]
fn tab_cycles_through_matches_and_wraps() {
    // Two matches for the prefix: pressing Tab twice shows both, the third
    // press wraps around to the first again.
    let entries: Vec<String> = vec!["en-one".into(), "other".into(), "en-two".into()];
    let mut c = ConsoleWindow::new(">> ");
    c.update_text(">> cd en".to_string());
    press_tab(&mut c, &entries);
    assert_eq!(c.get_last_line(), "cd en-one");
    press_tab(&mut c, &entries);
    assert_eq!(c.get_last_line(), "cd en-two");
    press_tab(&mut c, &entries);
    assert_eq!(c.get_last_line(), "cd en-one");
}

#[test]
fn tab_no_match_leaves_line_alone() {
    let entries: Vec<String> = vec!["other".into()];
    let mut c = ConsoleWindow::new(">> ");
    c.update_text(">> cd en".to_string());
    press_tab(&mut c, &entries);
    assert_eq!(c.get_last_line(), "cd en");
}

#[test]
fn tab_wraps_spaced_match_in_quotes() {
    let entries: Vec<String> = vec!["my file.txt".into()];
    let mut c = ConsoleWindow::new(">> ");
    c.update_text(">> cd my".to_string());
    press_tab(&mut c, &entries);
    assert_eq!(c.get_last_line(), "cd \"my file.txt\"");
}

#[test]
fn tab_strips_leading_quote_from_prefix() {
    let entries: Vec<String> = vec!["my file.txt".into()];
    let mut c = ConsoleWindow::new(">> ");
    c.update_text(">> cd \"my".to_string());
    match press(&mut c, Key::Tab) {
        KeyAction::Complete(req) => {
            assert_eq!(req.prefix, "my");
            assert_eq!(req.nth, 0);
        }
        _ => panic!("first Tab must query"),
    }
}

#[test]
fn non_tab_key_resets_tab_cycle() {
    let entries: Vec<String> = vec!["en-one".into(), "en-two".into()];
    let mut c = ConsoleWindow::new(">> ");
    c.update_text(">> cd en".to_string());
    press_tab(&mut c, &entries);
    assert_eq!(c.get_last_line(), "cd en-one");
    // Any other key ends the cycle; the next Tab starts fresh from the
    // current line.
    press(&mut c, Key::Escape);
    match press(&mut c, Key::Tab) {
        KeyAction::Complete(req) => {
            assert_eq!(req.prefix, "en-one");
            assert_eq!(req.nth, 0);
        }
        _ => panic!("fresh Tab must query"),
    }
}

#[test]
fn escape_stops_browsing() {
    let mut c = ConsoleWindow::new(">> ");
    c.load_history(vec!["one".to_string(), "two".to_string()]);
    press(&mut c, Key::ArrowUp);
    assert_eq!(c.get_last_line(), "two");
    press(&mut c, Key::Escape);
    // Browsing stopped: Down no longer steps anywhere.
    press(&mut c, Key::ArrowDown);
    assert_eq!(c.get_last_line(), "two");
}

#[test]
fn history_capacity_at_console_level() {
    // The console's default capacity is five: six submissions keep the
    // newest five.
    let mut c = ConsoleWindow::new(">> ");
    for line in ["a", "b", "c", "d", "e", "f"] {
        c.update_text(format!(">> {}", line));
        let r = press(&mut c, Key::Enter);
        assert!(matches!(r, KeyAction::Submitted(_)));
        c.sync_response("ok");
    }
    assert_eq!(c.get_history(), vec!["b", "c", "d", "e", "f"]);
}

#[test]
fn editable_region_cases() {
    // Empty buffer: an empty prompt makes the whole (empty) buffer editable.
    let c = ConsoleWindow::new("");
    assert_eq!(c.editable_region(), (0, 0));
    // Single line: the region starts right after the prompt.
    let mut c = ConsoleWindow::new(">> ");
    assert_eq!(c.editable_region(), (3, 3));
    c.update_text(">> abc".to_string());
    assert_eq!(c.editable_region(), (3, 6));
    // Multi-line scrollback: only the tail of the last line is editable.
    c.sync_response("done");
    c.update_text(format!("{}x", c.text()));
    let tl = c.text().chars().count();
    assert_eq!(c.editable_region(), (tl - 1, tl));
}

#[test]
fn replace_last_line_rewrites_tail() {
    let mut c = ConsoleWindow::new(">> ");
    c.update_text(">> old words".to_string());
    c.replace_last_line("fresh");
    assert_eq!(c.text().as_str(), ">> fresh");
    assert_eq!(c.get_last_line(), "fresh");
}

#[test]
fn clear_transcript_and_history() {
    let mut c = ConsoleWindow::new(">> ");
    c.update_text(">> ls".to_string());
    assert!(matches!(press(&mut c, Key::Enter), KeyAction::Submitted(_)));
    c.sync_response("stuff");
    c.clear();
    assert_eq!(c.text().as_str(), ">> ");
    assert_eq!(c.get_history(), vec!["ls"]);
    c.clear_history();
    assert_eq!(c.get_history(), Vec::<String>::new());
    // Browsing after the clear finds nothing.
    press(&mut c, Key::ArrowUp);
    assert_eq!(c.get_last_line(), "");
}

#[test]
fn search_hotkey_repeats_search() {
    let mut c = ConsoleWindow::new(">> ");
    c.load_history(vec!["cd one".to_string(), "x".to_string(), "cd two".to_string()]);
    press_search_hotkey(&mut c);
    let edited = c.text().replace("(reverse-i-search) :", "(reverse-i-search) cd:");
    c.update_text(edited);
    assert_eq!(c.get_last_line(), "cd two");
    // Pressing the hotkey again while searching moves to the next older
    // match.
    press_search_hotkey(&mut c);
    assert_eq!(c.get_last_line(), "cd one");
}

#[test]
fn search_without_match_changes_nothing() {
    let mut c = ConsoleWindow::new(">> ");
    c.load_history(vec!["alpha".to_string(), "beta".to_string()]);
    press_search_hotkey(&mut c);
    let before = c.text().clone();
    let edited = c.text().replace("(reverse-i-search) :", "(reverse-i-search) zz:");
    c.update_text(edited);
    // The query is shown, but no entry matches: the line part stays empty.
    assert_eq!(c.get_search_text(), "zz");
    assert_eq!(c.get_last_line(), "");
    assert_eq!(c.text().replace("zz", ""), before);
}

#[test]
fn search_text_of_short_line_is_empty() {
    let c = ConsoleWindow::new(">> ");
    assert_eq!(c.get_search_text(), "");
}

#[test]
fn query_change_restarts_search_from_top() {
    let mut c = ConsoleWindow::new(">> ");
    c.load_history(vec!["cd a".to_string(), "cd b".to_string()]);
    press_search_hotkey(&mut c);
    let edited = c.text().replace("(reverse-i-search) :", "(reverse-i-search) b:");
    c.update_text(edited);
    assert_eq!(c.get_last_line(), "cd b");
    // Changing the query re-runs the search from the top of history: the
    // most recent match wins again, not a continuation below the cursor.
    let edited = c.text().replace("(reverse-i-search) b:", "(reverse-i-search) cd:");
    c.update_text(edited);
    assert_eq!(c.get_last_line(), "cd b");
}

#[test]
fn same_length_query_edit_is_noticed() {
    let mut c = ConsoleWindow::new(">> ");
    c.load_history(vec!["axe".to_string(), "bow".to_string()]);
    press_search_hotkey(&mut c);
    let edited = c.text().replace("(reverse-i-search) :", "(reverse-i-search) a:");
    c.update_text(edited);
    assert_eq!(c.get_last_line(), "axe");
    // A same-length replacement inside the slot still counts as typing.
    let edited = c.text().replace("(reverse-i-search) a:axe", "(reverse-i-search) b:axe");
    c.update_text(edited);
    assert_eq!(c.get_last_line(), "bow");
}

#[test]
fn batch_stops_at_first_submitted_line() {
    let mut c = ConsoleWindow::new(">> ");
    c.load_history(vec!["a".to_string(), "b".to_string()]);
    let presses = vec![
        (Key::ArrowUp, Modifiers::none()),
        (Key::ArrowUp, Modifiers::none()),
        (Key::Enter, Modifiers::none()),
        (Key::ArrowUp, Modifiers::none()),
    ];
    let r = c.handle_events(&presses, 0, 0);
    assert_eq!(r.submitted, Some("a".to_string()));
    assert!(r.pending.is_none());
    // Up, Up, Enter were consumed; the press after Enter was dropped.
    assert_eq!(r.consumed.len(), 3);
    assert_eq!(c.get_history(), vec!["a", "b", "a"]);
    assert_eq!(c.get_last_line(), "a");
}

#[test]
fn batch_pauses_for_completion_query() {
    let mut c = ConsoleWindow::new(">> ");
    c.update_text(">> cd en".to_string());
    let presses = vec![(Key::Tab, Modifiers::none()), (Key::Escape, Modifiers::none())];
    let r = c.handle_events(&presses, 0, 0);
    assert!(r.submitted.is_none());
    let (req, next) = r.pending.expect("Tab must query");
    assert_eq!(req.prefix, "en");
    assert_eq!(req.nth, 0);
    assert_eq!(next, 1);
    // Resolve the query, then resume the frame where it paused.
    let entries: Vec<String> = vec!["en-one".into()];
    let found = nth_match(&entries, req.prefix.as_str(), false, "./", req.nth);
    assert!(c.tab_apply(found).is_none());
    assert_eq!(c.get_last_line(), "cd en-one");
    let r = c.handle_events(&presses, next, 0);
    assert!(r.submitted.is_none() && r.pending.is_none());
    assert_eq!(r.consumed.len(), 1);
}

#[test]
fn batch_passes_unknown_keys_through() {
    let mut c = ConsoleWindow::new(">> ");
    let presses = vec![(Key::Other, Modifiers::none())];
    let r = c.handle_events(&presses, 0, 0);
    assert!(r.consumed.is_empty() && r.submitted.is_none() && r.pending.is_none());
}
