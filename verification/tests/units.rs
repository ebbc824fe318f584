//! Unit tests for the tokenizer, the history store, and the pure completion
//! logic.

use egui_console::complete::{completion_plan, nth_match};
use egui_console::history::HistoryStore;
use egui_console::ConsoleWindow;

#[test]
fn test_digest_line() {
    let console = ConsoleWindow::new(">> ");
    let result = console.digest_line("cd foo");
    assert_eq!(result, vec!["cd", "foo"]);
    let result = console.digest_line("cd \"foo bar\"");
    assert_eq!(result, vec!["cd", "\"foo bar\""]);
    let result = console.digest_line("cd \"foo bar");
    assert_eq!(result, vec!["cd", "\"foo", "bar"]);
    let result = console.digest_line("cd foo bar\"");
    assert_eq!(result, vec!["cd", "foo", "bar\""]);
    let result = console.digest_line("\"cd foo bar\"");
    assert_eq!(result, vec!["\"cd", "foo", "bar\""]);
    let result = console.digest_line("cd\" foo bar\"");
    assert_eq!(result, vec!["cd\"", "foo", "bar\""]);
}

#[test]
fn tokenize_edge_cases() {
    let console = ConsoleWindow::new(">> ");
    let empty: Vec<String> = Vec::new();
    assert_eq!(console.digest_line(""), empty);
    assert_eq!(console.digest_line("   \t "), empty);
    assert_eq!(console.digest_line("  a   b  "), vec!["a", "b"]);
    // A merge joins with exactly one space, whatever stood in the line.
    assert_eq!(console.digest_line("cd \"foo   bar\""), vec!["cd", "\"foo bar\""]);
    // Two independent quoted groups both merge.
    assert_eq!(
        console.digest_line("x\" \"a b\" \"c d\""),
        vec!["x\"", "\"a b\"", "\"c d\""]
    );
}

#[test]
fn history_eviction_window() {
    // Capacity 3, five pushes: exactly the last three survive, in order.
    let mut h = HistoryStore::new(3);
    for line in ["one", "two", "three", "four", "five"] {
        h.push(line.to_string());
    }
    assert_eq!(h.len(), 3);
    assert_eq!(h.all(), vec!["three", "four", "five"]);
    assert_eq!(h.get(0).as_str(), "three");
    assert_eq!(h.get(2).as_str(), "five");
}

#[test]
fn history_keeps_duplicates_and_empties() {
    let mut h = HistoryStore::new(4);
    h.push("ls".to_string());
    h.push("ls".to_string());
    h.push("".to_string());
    assert_eq!(h.all(), vec!["ls", "ls", ""]);
    h.clear();
    assert_eq!(h.len(), 0);
}

#[test]
fn history_load_keeps_newest() {
    let mut h = HistoryStore::new(2);
    h.load(vec!["a".to_string(), "b".to_string(), "c".to_string()]);
    assert_eq!(h.all(), vec!["b", "c"]);
    h.load(vec!["x".to_string()]);
    assert_eq!(h.all(), vec!["x"]);
}

#[test]
fn completion_plan_cases() {
    // A prefix with a parent lists the parent.
    let plan = completion_plan("src/ma", false, false).unwrap();
    assert_eq!(plan.dir, "src");
    assert!(!plan.added_dot);
    assert_eq!(plan.marker, "./");
    // A bare filename substitutes the current-directory marker.
    let plan = completion_plan("ma", false, false).unwrap();
    assert_eq!(plan.dir, "./");
    assert!(plan.added_dot);
    // An existing directory is listed itself.
    let plan = completion_plan("src", true, false).unwrap();
    assert_eq!(plan.dir, "src");
    assert!(!plan.added_dot);
    // A bare ".." becomes the explicit relative-parent form.
    let plan = completion_plan("..", true, false).unwrap();
    assert_eq!(plan.dir, "../");
    // A "./x" prefix lists the marker directory.
    let plan = completion_plan("./m", false, false).unwrap();
    assert_eq!(plan.dir, "./");
    assert!(!plan.added_dot);
    // An empty prefix has no parent: nothing to list.
    assert!(completion_plan("", false, false).is_none());
    // Windows path syntax switches marker and separator handling.
    let plan = completion_plan("dir\\fi", false, true).unwrap();
    assert_eq!(plan.dir, "dir");
    assert_eq!(plan.marker, ".\\");
    let plan = completion_plan("fi", false, true).unwrap();
    assert_eq!(plan.dir, "./");
}

#[test]
fn nth_match_ordering_and_exhaustion() {
    let entries: Vec<String> = vec!["an".into(), "zz".into(), "ax".into()];
    assert_eq!(nth_match(&entries, "a", false, "./", 0), Some("an".to_string()));
    assert_eq!(nth_match(&entries, "a", false, "./", 1), Some("ax".to_string()));
    assert_eq!(nth_match(&entries, "a", false, "./", 2), None);
}

#[test]
fn nth_match_strips_marker() {
    let entries: Vec<String> = vec!["./abc".into(), "./zzz".into(), "./axe".into()];
    assert_eq!(nth_match(&entries, "a", true, "./", 0), Some("abc".to_string()));
    assert_eq!(nth_match(&entries, "a", true, "./", 1), Some("axe".to_string()));
    assert_eq!(nth_match(&entries, "a", true, "./", 2), None);
    // An entry that cannot be stripped abandons the scan.
    let bad: Vec<String> = vec!["abc".into()];
    assert_eq!(nth_match(&bad, "a", true, "./", 0), None);
}

#[test]
fn syntax_table_contents() {
    let table = egui_console::syntax();
    let names: Vec<&str> = table.iter().map(|c| c.name.as_str()).collect();
    assert_eq!(
        names,
        vec!["quit", "dir", "dark", "light", "clear_screen", "history", "clear_history", "cd"]
    );
    assert_eq!(table[0].aliases, vec!["exit", "q"]);
    assert_eq!(table[6].aliases, vec!["clh"]);
    assert_eq!(table[7].args.len(), 1);
    assert_eq!(table[7].args[0].name, "directory");
    assert!(table[7].args[0].required);
    assert!(!table[1].args[0].required);
}
